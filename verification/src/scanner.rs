//! The image scan of a project: which files are images, and the order in which they are
//! listed (the order of `Path`s, component by component).
use vstd::prelude::*;
use crate::path::{component_texts, extension, extension_exec, rooted};
use crate::text::{chars_eq, chars_of, eq_ignore_ascii_case, eq_ignore_ascii_case_exec, text_less, text_lt};

verus! {

/// The texts of some strings.
pub open spec fn str_views(v: Seq<String>) -> Seq<Seq<char>> {
    v.map_values(|s: String| s@)
}

/// A file is an image when its extension is one of png, jpg, jpeg, gif, bmp, webp (any
/// case).
pub open spec fn is_image_path(p: Seq<char>) -> bool {
    match extension(p) {
        Some(e) => eq_ignore_ascii_case(e, "png"@) || eq_ignore_ascii_case(e, "jpg"@)
            || eq_ignore_ascii_case(e, "jpeg"@) || eq_ignore_ascii_case(e, "gif"@)
            || eq_ignore_ascii_case(e, "bmp"@) || eq_ignore_ascii_case(e, "webp"@),
        None => false,
    }
}

/// Whether a file is an image, by its extension.
pub fn is_image_file(path: &str) -> (b: bool)
    ensures
        b == is_image_path(path@),
{
    let p = chars_of(path);
    match extension_exec(p.as_slice()) {
        Some(e) => {
            let es = e.as_slice();
            eq_ignore_ascii_case_exec(es, chars_of("png").as_slice()) || eq_ignore_ascii_case_exec(
                es,
                chars_of("jpg").as_slice(),
            ) || eq_ignore_ascii_case_exec(es, chars_of("jpeg").as_slice())
                || eq_ignore_ascii_case_exec(es, chars_of("gif").as_slice())
                || eq_ignore_ascii_case_exec(es, chars_of("bmp").as_slice())
                || eq_ignore_ascii_case_exec(es, chars_of("webp").as_slice())
        },
        None => false,
    }
}

// ---------------------------------------------------------------------------
// Path order
// ---------------------------------------------------------------------------

/// The rank of a component in `std::path::Component`'s order: the root, then `.`, then
/// `..`, then normal names.
pub open spec fn comp_rank(t: Seq<char>) -> int {
    if t == "."@ {
        2
    } else if t == ".."@ {
        3
    } else {
        4
    }
}

/// The components of a path as it is ordered: the root (if any), then each component with
/// its rank.
pub open spec fn path_key(p: Seq<char>) -> Seq<(int, Seq<char>)> {
    let root: Seq<(int, Seq<char>)> = if rooted(p) {
        seq![(1int, Seq::<char>::empty())]
    } else {
        seq![]
    };
    root + component_texts(p).map_values(|t: Seq<char>| (comp_rank(t), t))
}

/// One ranked component comes before another.
pub open spec fn comp_lt(a: (int, Seq<char>), b: (int, Seq<char>)) -> bool {
    a.0 < b.0 || (a.0 == b.0 && text_lt(a.1, b.1))
}

/// Lexicographic order of ranked components, a proper prefix first.
pub open spec fn key_lt(a: Seq<(int, Seq<char>)>, b: Seq<(int, Seq<char>)>) -> bool
    decreases a.len(),
{
    if a.len() == 0 {
        b.len() > 0
    } else if b.len() == 0 {
        false
    } else if a[0] != b[0] {
        comp_lt(a[0], b[0])
    } else {
        key_lt(a.drop_first(), b.drop_first())
    }
}

/// `a` comes before `b` as `PathBuf`s are ordered.
pub open spec fn path_lt(a: Seq<char>, b: Seq<char>) -> bool {
    key_lt(path_key(a), path_key(b))
}

pub proof fn lemma_comp_lt_transitive(a: (int, Seq<char>), b: (int, Seq<char>), c: (int, Seq<char>))
    requires
        comp_lt(a, b),
        comp_lt(b, c),
    ensures
        comp_lt(a, c),
{
    if a.0 == b.0 && b.0 == c.0 {
        crate::text::lemma_text_lt_transitive(a.1, b.1, c.1);
    }
}

pub proof fn lemma_comp_lt_irreflexive(a: (int, Seq<char>))
    ensures
        !comp_lt(a, a),
{
    crate::text::lemma_text_lt_irreflexive(a.1);
}

pub proof fn lemma_key_lt_transitive(
    a: Seq<(int, Seq<char>)>,
    b: Seq<(int, Seq<char>)>,
    c: Seq<(int, Seq<char>)>,
)
    requires
        key_lt(a, b),
        key_lt(b, c),
    ensures
        key_lt(a, c),
    decreases a.len(),
{
    if a.len() > 0 && b.len() > 0 && c.len() > 0 {
        if a[0] == b[0] && b[0] == c[0] {
            lemma_key_lt_transitive(a.drop_first(), b.drop_first(), c.drop_first());
        } else if a[0] == b[0] {
        } else if b[0] == c[0] {
        } else {
            lemma_comp_lt_transitive(a[0], b[0], c[0]);
            if a[0] == c[0] {
                lemma_comp_lt_irreflexive(a[0]);
                crate::text::lemma_text_lt_asymmetric(a[0].1, b[0].1);
            }
        }
    }
}

/// A ranked component as the exec code holds it.
pub open spec fn comp_view(c: (u8, Vec<char>)) -> (int, Seq<char>) {
    (c.0 as int, c.1@)
}

/// The key of a path as the exec code holds it.
pub open spec fn key_view(k: Seq<(u8, Vec<char>)>) -> Seq<(int, Seq<char>)> {
    k.map_values(|c: (u8, Vec<char>)| comp_view(c))
}

/// The ranked components of a path.
fn path_key_exec(path: &str) -> (r: Vec<(u8, Vec<char>)>)
    ensures
        key_view(r@) == path_key(path@),
{
    let p = chars_of(path);
    let sp = crate::path::component_spans(p.as_slice());
    let ghost texts = component_texts(p@);
    let mut r: Vec<(u8, Vec<char>)> = Vec::new();
    let ghost root: Seq<(int, Seq<char>)> = if rooted(p@) {
        seq![(1int, Seq::<char>::empty())]
    } else {
        seq![]
    };
    if p.len() > 0 && p[0] == '/' {
        r.push((1u8, Vec::new()));
    }
    assert(key_view(r@) =~= root);
    let dot = chars_of(".");
    let dotdot = chars_of("..");
    let mut k: usize = 0;
    while k < sp.len()
        invariant
            k <= sp.len(),
            texts == component_texts(p@),
            texts.len() == sp.len(),
            crate::path::span_ints(sp@) == crate::path::spans(p@),
            crate::path::spans_within(sp@, p.len() as int),
            dot@ == "."@,
            dotdot@ == ".."@,
            key_view(r@) =~= root + texts.take(k as int).map_values(
                |t: Seq<char>| (comp_rank(t), t),
            ),
        decreases sp.len() - k,
    {
        let (a, b) = sp[k];
        assert(sp@[k as int].0 < sp@[k as int].1 <= p.len());
        let t = crate::text::slice_vec(p.as_slice(), a, b);
        assert(t@ == texts[k as int]);
        let rank: u8 = if chars_eq(t.as_slice(), dot.as_slice()) {
            2
        } else if chars_eq(t.as_slice(), dotdot.as_slice()) {
            3
        } else {
            4
        };
        let ghost before = key_view(r@);
        let ghost tv = t@;
        r.push((rank, t));
        assert(key_view(r@) =~= before.push((comp_rank(tv), tv)));
        assert(texts.take(k + 1) =~= texts.take(k as int).push(texts[k as int]));
        k = k + 1;
    }
    assert(texts.take(k as int) =~= texts);
    r
}

/// Whether one key comes before another.
fn key_less(a: &Vec<(u8, Vec<char>)>, b: &Vec<(u8, Vec<char>)>) -> (r: bool)
    ensures
        r == key_lt(key_view(a@), key_view(b@)),
{
    let ghost av = key_view(a@);
    let ghost bv = key_view(b@);
    let mut i: usize = 0;
    assert(av.skip(0) =~= av);
    assert(bv.skip(0) =~= bv);
    while i < a.len() && i < b.len()
        invariant
            i <= a.len(),
            i <= b.len(),
            av == key_view(a@),
            bv == key_view(b@),
            key_lt(av, bv) == key_lt(av.skip(i as int), bv.skip(i as int)),
        decreases a.len() - i,
    {
        let same = a[i].0 == b[i].0 && chars_eq(a[i].1.as_slice(), b[i].1.as_slice());
        assert(av.skip(i as int)[0] == av[i as int]);
        assert(bv.skip(i as int)[0] == bv[i as int]);
        if !same {
            return a[i].0 < b[i].0 || (a[i].0 == b[i].0 && text_less(
                a[i].1.as_slice(),
                b[i].1.as_slice(),
            ));
        }
        assert(av.skip(i as int).drop_first() =~= av.skip(i + 1));
        assert(bv.skip(i as int).drop_first() =~= bv.skip(i + 1));
        i = i + 1;
    }
    i == a.len() && i < b.len()
}

/// No path comes before one listed ahead of it.
pub open spec fn path_sorted(v: Seq<Seq<char>>) -> bool {
    forall|i: int, j: int| 0 <= i < j < v.len() ==> !path_lt(#[trigger] v[j], #[trigger] v[i])
}

/// The image files among `files`, in the order given.
pub open spec fn image_files(files: Seq<Seq<char>>) -> Seq<Seq<char>> {
    files.filter(|p: Seq<char>| is_image_path(p))
}

/// Why a directory could not be scanned.
#[derive(Clone, Copy, Debug, PartialEq, Eq, Structural)]
pub enum ScanError {
    NotADirectory,
}

/// The images of a project: the image files among all the files found under the root
/// directory, sorted as paths are; an error when the root is not a directory.
pub fn scan_directory(root_is_dir: bool, files: &Vec<String>) -> (r: Result<Vec<String>, ScanError>)
    ensures
        !root_is_dir ==> r == Err::<Vec<String>, ScanError>(ScanError::NotADirectory),
        root_is_dir ==> r is Ok,
        r matches Ok(v) ==> path_sorted(str_views(v@)) && str_views(v@).to_multiset()
            == image_files(str_views(files@)).to_multiset(),
{
    if !root_is_dir {
        return Err(ScanError::NotADirectory);
    }
    let ghost fv = str_views(files@);
    let mut out: Vec<String> = Vec::new();
    let mut keys: Vec<Vec<(u8, Vec<char>)>> = Vec::new();
    let mut k: usize = 0;
    proof {
        reveal_with_fuel(Seq::<Seq<char>>::filter, 1);
        assert(fv.take(0).filter(|p: Seq<char>| is_image_path(p)) =~= Seq::<Seq<char>>::empty());
        assert(str_views(out@) =~= Seq::<Seq<char>>::empty());
    }
    while k < files.len()
        invariant
            k <= files.len(),
            fv == str_views(files@),
            keys@.len() == out@.len(),
            forall|i: int| 0 <= i < keys@.len() ==> key_view(#[trigger] keys@[i]@) == path_key(
                out@[i]@,
            ),
            path_sorted(str_views(out@)),
            str_views(out@).to_multiset() == image_files(fv.take(k as int)).to_multiset(),
        decreases files.len() - k,
    {
        proof {
            assert(fv.take(k + 1) =~= fv.take(k as int).push(fv[k as int]));
            fv.take(k as int).lemma_filter_push(fv[k as int], |p: Seq<char>| is_image_path(p));
            vstd::seq_lib::to_multiset_build(image_files(fv.take(k as int)), fv[k as int]);
        }
        if !is_image_file(files[k].as_str()) {
            k = k + 1;
            continue;
        }
        let x = files[k].clone();
        let xk = path_key_exec(x.as_str());
        let mut p: usize = 0;
        let ghost ov = str_views(out@);
        while p < out.len() && !key_less(&xk, &keys[p])
            invariant
                p <= out.len(),
                keys@.len() == out@.len(),
                ov == str_views(out@),
                key_view(xk@) == path_key(x@),
                forall|i: int| 0 <= i < keys@.len() ==> key_view(#[trigger] keys@[i]@) == path_key(
                    out@[i]@,
                ),
                forall|i: int| 0 <= i < p ==> !path_lt(x@, #[trigger] ov[i]),
            decreases out.len() - p,
        {
            assert(key_view(keys@[p as int]@) == path_key(out@[p as int]@));
            p = p + 1;
        }
        proof {
            if p < out.len() {
                assert(key_view(keys@[p as int]@) == path_key(out@[p as int]@));
                assert(path_lt(x@, ov[p as int]));
                assert forall|j: int| p <= j < ov.len() implies !path_lt(#[trigger] ov[j], x@) by {
                    if path_lt(ov[j], x@) {
                        lemma_key_lt_transitive(path_key(ov[j]), path_key(x@), path_key(ov[p as int]));
                        if j == p {
                            lemma_key_lt_irreflexive(path_key(ov[j]));
                        }
                    }
                }
            }
        }
        let ghost xv = x@;
        let ghost old_keys = keys@;
        out.insert(p, x);
        keys.insert(p, xk);
        proof {
            let nv = str_views(out@);
            assert(nv =~= ov.insert(p as int, xv));
            ov.insert_ensures(p as int, xv);
            vstd::seq_lib::to_multiset_insert(ov, p as int, xv);
            assert forall|i: int, j: int| 0 <= i < j < nv.len() implies !path_lt(
                #[trigger] nv[j],
                #[trigger] nv[i],
            ) by {
                if j < p {
                } else if j == p {
                } else if i < p {
                    assert(nv[j] == ov[j - 1]);
                } else if i == p {
                    assert(nv[j] == ov[j - 1]);
                } else {
                    assert(nv[i] == ov[i - 1]);
                    assert(nv[j] == ov[j - 1]);
                }
            }
            assert forall|i: int| 0 <= i < keys@.len() implies key_view(#[trigger] keys@[i]@)
                == path_key(out@[i]@) by {
                if i < p {
                } else if i > p {
                    assert(keys@[i] == old_keys[i - 1]);
                }
            }
        }
        k = k + 1;
    }
    assert(fv.take(k as int) =~= fv);
    Ok(out)
}

pub proof fn lemma_key_lt_irreflexive(a: Seq<(int, Seq<char>)>)
    ensures
        !key_lt(a, a),
    decreases a.len(),
{
    if a.len() > 0 {
        lemma_key_lt_irreflexive(a.drop_first());
    }
}

} // verus!
