//! Paths as texts with `/` separators, read the way `std::path::Path` reads them on
//! Unix: a leading `/` is the root, empty and `.` segments are skipped except for a
//! leading `.`, and `..` stays a component of its own.
use vstd::prelude::*;
use crate::text::{chars_eq, slice_vec};

verus! {

/// The path starts at the root.
pub open spec fn rooted(p: Seq<char>) -> bool {
    p.len() > 0 && p[0] == '/'
}

/// The index of the first `/` at or after `i`, or the length of `p` when there is none.
pub open spec fn seg_end(p: Seq<char>, i: int) -> int
    decreases p.len() - i,
{
    if i < 0 || i >= p.len() {
        p.len() as int
    } else if p[i] == '/' {
        i
    } else {
        seg_end(p, i + 1)
    }
}

pub proof fn lemma_seg_end(p: Seq<char>, i: int)
    requires
        0 <= i <= p.len(),
    ensures
        i <= seg_end(p, i) <= p.len(),
        seg_end(p, i) < p.len() ==> p[seg_end(p, i)] == '/',
        forall|k: int| i <= k < seg_end(p, i) ==> p[k] != '/',
    decreases p.len() - i,
{
    if i < p.len() && p[i] != '/' {
        lemma_seg_end(p, i + 1);
    }
}

/// A segment `p[i..j]` names a component: it is not empty, and it is not a `.` other than
/// one at the very start of the path.
pub open spec fn keeps_segment(p: Seq<char>, i: int, j: int) -> bool {
    j > i && !(j == i + 1 && p[i] == '.' && i != 0)
}

/// The spans `(start, end)` of the components of `p` (the root excluded) from the segment
/// that begins at `i` on.
pub open spec fn spans_from(p: Seq<char>, i: int) -> Seq<(int, int)>
    decreases p.len() - i,
{
    if i < 0 || i > p.len() {
        seq![]
    } else {
        let j = seg_end(p, i);
        let rest = if i <= j < p.len() {
            spans_from(p, j + 1)
        } else {
            seq![]
        };
        if keeps_segment(p, i, j) {
            seq![(i, j)] + rest
        } else {
            rest
        }
    }
}

/// The spans of the components of `p`, the root excluded (`Path::components`).
pub open spec fn spans(p: Seq<char>) -> Seq<(int, int)> {
    spans_from(p, 0)
}

/// The text of one component.
pub open spec fn span_text(p: Seq<char>, sp: (int, int)) -> Seq<char> {
    p.subrange(sp.0, sp.1)
}

/// The texts of the components of `p`, the root excluded.
pub open spec fn component_texts(p: Seq<char>) -> Seq<Seq<char>> {
    spans(p).map_values(|sp: (int, int)| span_text(p, sp))
}

/// The integer view of exec spans.
pub open spec fn span_ints(v: Seq<(usize, usize)>) -> Seq<(int, int)> {
    v.map_values(|x: (usize, usize)| (x.0 as int, x.1 as int))
}

/// Every span lies within a text of length `n` and is not empty.
pub open spec fn spans_within(sp: Seq<(usize, usize)>, n: int) -> bool {
    forall|k: int| 0 <= k < sp.len() ==> #[trigger] sp[k].0 < sp[k].1 <= n
}

/// The index of the first `/` at or after `i`, or the length.
fn seg_end_exec(p: &[char], i: usize) -> (j: usize)
    requires
        i <= p.len(),
    ensures
        j == seg_end(p@, i as int),
{
    let mut j = i;
    while j < p.len() && p[j] != '/'
        invariant
            i <= j <= p.len(),
            seg_end(p@, i as int) == seg_end(p@, j as int),
        decreases p.len() - j,
    {
        j = j + 1;
    }
    j
}

/// The spans of the components of `p`.
pub fn component_spans(p: &[char]) -> (r: Vec<(usize, usize)>)
    ensures
        span_ints(r@) == spans(p@),
        spans_within(r@, p.len() as int),
{
    let mut out: Vec<(usize, usize)> = Vec::new();
    let mut i: usize = 0;
    let mut done = false;
    while !done
        invariant
            i <= p.len(),
            done ==> span_ints(out@) =~= spans(p@),
            !done ==> span_ints(out@) + spans_from(p@, i as int) =~= spans(p@),
            forall|k: int| 0 <= k < out.len() ==> #[trigger] out@[k].0 < out@[k].1 <= p.len(),
        decreases p.len() - i + (if done { 0int } else { 1int }),
    {
        let j = seg_end_exec(p, i);
        proof {
            lemma_seg_end(p@, i as int);
        }
        let ghost before = span_ints(out@);
        let keep = j > i && !(j == i + 1 && p[i] == '.' && i != 0);
        if keep {
            out.push((i, j));
            assert(span_ints(out@) =~= before + seq![(i as int, j as int)]);
        }
        if j < p.len() {
            i = j + 1;
        } else {
            done = true;
        }
    }
    out
}

/// The name of the last component, when it is a normal one (`Path::file_name`).
pub open spec fn file_name(p: Seq<char>) -> Option<Seq<char>> {
    let c = component_texts(p);
    if c.len() == 0 {
        None
    } else if c.last() =~= seq!['.'] || c.last() =~= seq!['.', '.'] {
        None
    } else {
        Some(c.last())
    }
}

/// The index of the last `.` in `s`, if any.
pub open spec fn last_dot(s: Seq<char>) -> Option<int>
    decreases s.len(),
{
    if s.len() == 0 {
        None
    } else if s.last() == '.' {
        Some(s.len() - 1)
    } else {
        last_dot(s.drop_last())
    }
}

/// The stem of a file name: the part before the last `.`, or the whole name when that
/// `.` is its first character or there is none (`Path::file_stem`).
pub open spec fn name_stem(n: Seq<char>) -> Seq<char> {
    match last_dot(n) {
        Some(i) => if i > 0 {
            n.take(i)
        } else {
            n
        },
        None => n,
    }
}

/// The extension of a file name: the part after the last `.`, unless that `.` is its
/// first character or there is none (`Path::extension`).
pub open spec fn name_extension(n: Seq<char>) -> Option<Seq<char>> {
    match last_dot(n) {
        Some(i) => if i > 0 {
            Some(n.skip(i + 1))
        } else {
            None
        },
        None => None,
    }
}

/// `Path::file_stem`.
pub open spec fn file_stem(p: Seq<char>) -> Option<Seq<char>> {
    match file_name(p) {
        Some(n) => Some(name_stem(n)),
        None => None,
    }
}

/// `Path::extension`.
pub open spec fn extension(p: Seq<char>) -> Option<Seq<char>> {
    match file_name(p) {
        Some(n) => name_extension(n),
        None => None,
    }
}

pub proof fn lemma_last_dot(s: Seq<char>)
    ensures
        last_dot(s) matches Some(i) ==> 0 <= i < s.len() && s[i] == '.' && forall|k: int|
            i < k < s.len() ==> s[k] != '.',
        last_dot(s) is None ==> forall|k: int| 0 <= k < s.len() ==> s[k] != '.',
    decreases s.len(),
{
    if s.len() > 0 && s.last() != '.' {
        let t = s.drop_last();
        lemma_last_dot(t);
        assert forall|k: int| 0 <= k < t.len() implies #[trigger] s[k] == t[k] by {}
    }
}

/// The index of the last `.` in `s`.
pub fn last_dot_exec(s: &[char]) -> (r: Option<usize>)
    ensures
        match r {
            Some(i) => last_dot(s@) == Some(i as int),
            None => last_dot(s@) is None,
        },
{
    let mut k = s.len();
    assert(s@.take(k as int) =~= s@);
    while k > 0
        invariant
            k <= s.len(),
            last_dot(s@) == last_dot(s@.take(k as int)),
        decreases k,
    {
        if s[k - 1] == '.' {
            return Some(k - 1);
        }
        assert(s@.take(k as int).drop_last() =~= s@.take(k - 1));
        k = k - 1;
    }
    None
}

/// `Path::file_name`.
pub fn file_name_exec(p: &[char]) -> (r: Option<Vec<char>>)
    ensures
        match r {
            Some(n) => file_name(p@) == Some(n@),
            None => file_name(p@) is None,
        },
{
    let sp = component_spans(p);
    let ghost texts = component_texts(p@);
    assert(texts.len() == sp.len());
    if sp.len() == 0 {
        return None;
    }
    let (a, b) = sp[sp.len() - 1];
    let n = slice_vec(p, a, b);
    assert(n@ =~= texts.last());
    let dot = vec!['.'];
    let dotdot = vec!['.', '.'];
    if chars_eq(n.as_slice(), dot.as_slice()) || chars_eq(n.as_slice(), dotdot.as_slice()) {
        assert(dot@ =~= seq!['.']);
        assert(dotdot@ =~= seq!['.', '.']);
        None
    } else {
        assert(!(n@ =~= seq!['.'])) by {
            if n@ =~= seq!['.'] {
                assert(n@ =~= dot@);
            }
        }
        assert(!(n@ =~= seq!['.', '.'])) by {
            if n@ =~= seq!['.', '.'] {
                assert(n@ =~= dotdot@);
            }
        }
        Some(n)
    }
}

/// The stem of a file name.
pub fn name_stem_exec(n: &[char]) -> (r: Vec<char>)
    ensures
        r@ == name_stem(n@),
{
    proof {
        lemma_last_dot(n@);
    }
    match last_dot_exec(n) {
        Some(i) => if i > 0 {
            slice_vec(n, 0, i)
        } else {
            slice_vec(n, 0, n.len())
        },
        None => slice_vec(n, 0, n.len()),
    }
}

/// `Path::file_stem`.
pub fn file_stem_exec(p: &[char]) -> (r: Option<Vec<char>>)
    ensures
        match r {
            Some(n) => file_stem(p@) == Some(n@),
            None => file_stem(p@) is None,
        },
{
    match file_name_exec(p) {
        Some(n) => Some(name_stem_exec(n.as_slice())),
        None => None,
    }
}

/// `Path::extension`.
pub fn extension_exec(p: &[char]) -> (r: Option<Vec<char>>)
    ensures
        match r {
            Some(e) => extension(p@) == Some(e@),
            None => extension(p@) is None,
        },
{
    match file_name_exec(p) {
        Some(n) => match last_dot_exec(n.as_slice()) {
            Some(i) => if i > 0 {
                proof {
                    lemma_last_dot(n@);
                    assert(i < n@.len());
                }
                Some(slice_vec(n.as_slice(), i + 1, n.len()))
            } else {
                None
            },
            None => None,
        },
        None => None,
    }
}


// ---------------------------------------------------------------------------
// Directories
// ---------------------------------------------------------------------------

/// The texts `parts` joined with `/` between them.
pub open spec fn join_parts(parts: Seq<Seq<char>>) -> Seq<char>
    decreases parts.len(),
{
    if parts.len() == 0 {
        seq![]
    } else if parts.len() == 1 {
        parts[0]
    } else {
        join_parts(parts.drop_last()) + seq!['/'] + parts.last()
    }
}

/// A canonical text for the directory with these components: two paths are equal as
/// `Path`s exactly when they have the same root flag and component texts, and then the
/// same canonical text.
pub open spec fn dir_text(is_rooted: bool, parts: Seq<Seq<char>>) -> Seq<char> {
    if is_rooted {
        seq!['/'] + join_parts(parts)
    } else {
        join_parts(parts)
    }
}

/// The canonical text of `Path::parent`, when there is a parent.
pub open spec fn parent_key(p: Seq<char>) -> Option<Seq<char>> {
    let c = component_texts(p);
    if c.len() == 0 {
        None
    } else {
        Some(dir_text(rooted(p), c.drop_last()))
    }
}

/// The texts of the components that `sp` spans in `p`.
fn span_texts_exec(p: &[char], sp: &Vec<(usize, usize)>, n: usize) -> (r: Vec<Vec<char>>)
    requires
        n <= sp.len(),
        spans_within(sp@, p.len() as int),
    ensures
        crate::text::views(r@) =~= span_ints(sp@).take(n as int).map_values(
            |x: (int, int)| span_text(p@, x),
        ),
{
    let mut out: Vec<Vec<char>> = Vec::new();
    let mut k: usize = 0;
    while k < n
        invariant
            k <= n <= sp.len(),
            spans_within(sp@, p.len() as int),
            crate::text::views(out@) =~= span_ints(sp@).take(k as int).map_values(
                |x: (int, int)| span_text(p@, x),
            ),
        decreases n - k,
    {
        let (a, b) = sp[k];
        assert(sp@[k as int].0 < sp@[k as int].1 <= p.len());
        let t = slice_vec(p, a, b);
        let ghost before = crate::text::views(out@);
        let ghost tv = t@;
        out.push(t);
        assert(crate::text::views(out@) =~= before + seq![tv]);
        assert(span_ints(sp@).take(k + 1) =~= span_ints(sp@).take(k as int) + seq![
            (a as int, b as int),
        ]);
        k = k + 1;
        assert(crate::text::views(out@) =~= span_ints(sp@).take(k as int).map_values(
            |x: (int, int)| span_text(p@, x),
        ));
    }
    out
}

/// The canonical directory text for a root flag and some component texts.
fn dir_text_exec(is_rooted: bool, parts: &Vec<Vec<char>>) -> (r: Vec<char>)
    ensures
        r@ == dir_text(is_rooted, crate::text::views(parts@)),
{
    let mut j: Vec<char> = Vec::new();
    let mut k: usize = 0;
    let ghost pv = crate::text::views(parts@);
    while k < parts.len()
        invariant
            k <= parts.len(),
            pv == crate::text::views(parts@),
            j@ == join_parts(pv.take(k as int)),
        decreases parts.len() - k,
    {
        assert(pv.take(k + 1).drop_last() =~= pv.take(k as int));
        if k == 0 {
            j = slice_vec(parts[0].as_slice(), 0, parts[0].len());
            assert(pv.take(1) =~= seq![pv[0]]);
        } else {
            j.push('/');
            let next = crate::text::concat(j.as_slice(), parts[k].as_slice());
            j = next;
        }
        k = k + 1;
    }
    assert(pv.take(k as int) =~= pv);
    if is_rooted {
        let root = vec!['/'];
        let r = crate::text::concat(root.as_slice(), j.as_slice());
        assert(root@ =~= seq!['/']);
        r
    } else {
        j
    }
}

/// The canonical text of `Path::parent`.
pub fn parent_key_exec(p: &[char]) -> (r: Option<Vec<char>>)
    ensures
        match r {
            Some(d) => parent_key(p@) == Some(d@),
            None => parent_key(p@) is None,
        },
{
    let sp = component_spans(p);
    if sp.len() == 0 {
        return None;
    }
    let parts = span_texts_exec(p, &sp, sp.len() - 1);
    assert(span_ints(sp@).take(sp.len() - 1).map_values(|x: (int, int)| span_text(p@, x))
        =~= component_texts(p@).drop_last());
    let is_rooted = p.len() > 0 && p[0] == '/';
    Some(dir_text_exec(is_rooted, &parts))
}

// ---------------------------------------------------------------------------
// Relative paths
// ---------------------------------------------------------------------------

/// `Path::strip_prefix`: what is left of `path` after the components of `base`, from the
/// start of the first remaining component to the end of the last one. When `base` has no
/// component at all (no root either), `path` is left whole but for trailing separators.
pub open spec fn strip_base(base: Seq<char>, path: Seq<char>) -> Option<Seq<char>> {
    let bc = component_texts(base);
    let pc = component_texts(path);
    let ps = spans(path);
    if bc.len() == 0 && !rooted(base) {
        Some(
            path.take(
                if ps.len() > 0 {
                    ps.last().1
                } else if rooted(path) {
                    1
                } else {
                    0
                },
            ),
        )
    } else if rooted(base) == rooted(path) && bc.len() <= pc.len() && pc.take(bc.len() as int)
        =~= bc {
        if pc.len() > bc.len() {
            Some(path.subrange(ps[bc.len() as int].0, ps.last().1))
        } else {
            Some(seq![])
        }
    } else {
        None
    }
}

/// The path of `path` relative to `root` as the scan reports it: `Path::strip_prefix`,
/// or the whole path when `root` is not a prefix, with `\` turned into `/`.
pub open spec fn relative_path(root: Seq<char>, path: Seq<char>) -> Seq<char> {
    let r = match strip_base(root, path) {
        Some(r) => r,
        None => path,
    };
    crate::text::replaced(r, seq!['\\'], seq!['/'])
}

/// `Path::strip_prefix`.
pub fn strip_base_exec(base: &[char], path: &[char]) -> (r: Option<Vec<char>>)
    ensures
        match r {
            Some(v) => strip_base(base@, path@) == Some(v@),
            None => strip_base(base@, path@) is None,
        },
{
    let bs = component_spans(base);
    let ps = component_spans(path);
    let ghost bc = component_texts(base@);
    let ghost pc = component_texts(path@);
    let base_rooted = base.len() > 0 && base[0] == '/';
    let path_rooted = path.len() > 0 && path[0] == '/';
    if bs.len() == 0 && !base_rooted {
        let end = if ps.len() > 0 {
            ps[ps.len() - 1].1
        } else if path_rooted {
            1
        } else {
            0
        };
        proof {
            if ps.len() > 0 {
                assert(ps@[ps.len() - 1].1 <= path.len());
            }
        }
        return Some(slice_vec(path, 0, end));
    }
    if base_rooted != path_rooted || bs.len() > ps.len() {
        return None;
    }
    let mut k: usize = 0;
    while k < bs.len()
        invariant
            k <= bs.len() <= ps.len(),
            bc == component_texts(base@),
            pc == component_texts(path@),
            bc.len() == bs.len(),
            pc.len() == ps.len(),
            span_ints(bs@) == spans(base@),
            span_ints(ps@) == spans(path@),
            spans_within(bs@, base.len() as int),
            spans_within(ps@, path.len() as int),
            forall|i: int| 0 <= i < k ==> #[trigger] pc[i] == bc[i],
        decreases bs.len() - k,
    {
        let (a, b) = bs[k];
        let (c, d) = ps[k];
        assert(bs@[k as int].0 < bs@[k as int].1 <= base.len());
        assert(ps@[k as int].0 < ps@[k as int].1 <= path.len());
        let x = slice_vec(base, a, b);
        let y = slice_vec(path, c, d);
        if !chars_eq(x.as_slice(), y.as_slice()) {
            assert(x@ == bc[k as int]);
            assert(y@ == pc[k as int]);
            assert(pc.take(bc.len() as int)[k as int] != bc[k as int]);
            return None;
        }
        k = k + 1;
    }
    assert(pc.take(bc.len() as int) =~= bc);
    if ps.len() > bs.len() {
        let start = ps[bs.len()].0;
        let end = ps[ps.len() - 1].1;
        assert(ps@[ps.len() - 1].1 <= path.len());
        assert(start <= end) by {
            lemma_spans_ordered(path@);
        }
        Some(slice_vec(path, start, end))
    } else {
        Some(Vec::new())
    }
}

/// Spans come in order and do not overlap.
pub proof fn lemma_spans_from_ordered(p: Seq<char>, i: int)
    requires
        0 <= i,
    ensures
        forall|k: int| 0 <= k < spans_from(p, i).len() ==> i <= #[trigger] spans_from(p, i)[k].0,
        forall|k: int, l: int|
            0 <= k < l < spans_from(p, i).len() ==> #[trigger] spans_from(p, i)[k].1
                <= #[trigger] spans_from(p, i)[l].0,
        forall|k: int| 0 <= k < spans_from(p, i).len() ==> #[trigger] spans_from(p, i)[k].0
            < spans_from(p, i)[k].1,
    decreases p.len() - i,
{
    if i <= p.len() {
        lemma_seg_end(p, i);
        let j = seg_end(p, i);
        let rest = if i <= j < p.len() {
            spans_from(p, j + 1)
        } else {
            seq![]
        };
        if i <= j < p.len() {
            lemma_spans_from_ordered(p, j + 1);
        }
        let all = spans_from(p, i);
        if keeps_segment(p, i, j) {
            assert(all =~= seq![(i, j)] + rest);
            assert forall|k: int| 0 <= k < all.len() implies i <= #[trigger] all[k].0 && all[k].0
                < all[k].1 by {
                if k > 0 {
                    assert(all[k] == rest[k - 1]);
                }
            }
            assert forall|k: int, l: int| 0 <= k < l < all.len() implies #[trigger] all[k].1
                <= #[trigger] all[l].0 by {
                assert(all[l] == rest[l - 1]);
                if k > 0 {
                    assert(all[k] == rest[k - 1]);
                }
            }
        } else {
            assert(all =~= rest);
        }
    }
}

pub proof fn lemma_spans_ordered(p: Seq<char>)
    ensures
        forall|k: int, l: int|
            0 <= k <= l < spans(p).len() ==> #[trigger] spans(p)[k].0 <= #[trigger] spans(p)[l].1,
{
    lemma_spans_from_ordered(p, 0);
    assert forall|k: int, l: int| 0 <= k <= l < spans(p).len() implies #[trigger] spans(p)[k].0
        <= #[trigger] spans(p)[l].1 by {
        if k < l {
            assert(spans(p)[k].1 <= spans(p)[l].0);
        }
    }
}

/// The path relative to `root` as the scan reports it.
pub fn relative_path_exec(root: &[char], path: &[char]) -> (r: Vec<char>)
    ensures
        r@ == relative_path(root@, path@),
{
    let stripped = match strip_base_exec(root, path) {
        Some(v) => v,
        None => slice_vec(path, 0, path.len()),
    };
    assert(path@.subrange(0, path.len() as int) =~= path@);
    let bs = vec!['\\'];
    let fs = vec!['/'];
    assert(bs@ =~= seq!['\\']);
    assert(fs@ =~= seq!['/']);
    crate::text::replace(stripped.as_slice(), bs.as_slice(), fs.as_slice())
}


// ---------------------------------------------------------------------------
// Joining
// ---------------------------------------------------------------------------

/// `dir.join(name)` for a relative `name`: a `/` goes between them unless `dir` is empty
/// or already ends with one.
pub open spec fn joined(dir: Seq<char>, name: Seq<char>) -> Seq<char> {
    if dir.len() == 0 {
        name
    } else if dir.last() == '/' {
        dir + name
    } else {
        dir + seq!['/'] + name
    }
}

/// `Path::join` for a relative name.
pub fn join_exec(dir: &[char], name: &[char]) -> (r: Vec<char>)
    ensures
        r@ == joined(dir@, name@),
{
    if dir.len() == 0 {
        slice_vec(name, 0, name.len())
    } else if dir[dir.len() - 1] == '/' {
        crate::text::concat(dir, name)
    } else {
        let mut d = slice_vec(dir, 0, dir.len());
        d.push('/');
        assert(d@ =~= dir@ + seq!['/']);
        crate::text::concat(d.as_slice(), name)
    }
}


// ---------------------------------------------------------------------------
// Laws
// ---------------------------------------------------------------------------

/// A file name on its own: not empty, not `.` or `..`, without `/` or `\`.
pub open spec fn plain_name(n: Seq<char>) -> bool {
    &&& n.len() > 0
    &&& !(n =~= seq!['.'])
    &&& !(n =~= seq!['.', '.'])
    &&& forall|i: int| 0 <= i < n.len() ==> #[trigger] n[i] != '/' && n[i] != '\\'
}

proof fn lemma_seg_end_concat(r: Seq<char>, n: Seq<char>, i: int)
    requires
        0 <= i <= r.len(),
    ensures
        seg_end(r + seq!['/'] + n, i) == seg_end(r, i),
    decreases r.len() - i,
{
    let s = r + seq!['/'] + n;
    if i < r.len() {
        assert(s[i] == r[i]);
        if r[i] != '/' {
            lemma_seg_end_concat(r, n, i + 1);
        }
    } else {
        assert(s[i] == '/');
    }
}

proof fn lemma_seg_end_plain(s: Seq<char>, i: int)
    requires
        0 <= i <= s.len(),
        forall|k: int| i <= k < s.len() ==> s[k] != '/',
    ensures
        seg_end(s, i) == s.len(),
    decreases s.len() - i,
{
    if i < s.len() {
        lemma_seg_end_plain(s, i + 1);
    }
}

proof fn lemma_spans_concat(r: Seq<char>, n: Seq<char>, i: int)
    requires
        0 <= i <= r.len(),
        plain_name(n),
    ensures
        spans_from(r + seq!['/'] + n, i) == spans_from(r, i) + seq![
            (r.len() + 1 as int, r.len() + 1 + n.len() as int),
        ],
    decreases r.len() - i,
{
    let s = r + seq!['/'] + n;
    lemma_seg_end_concat(r, n, i);
    lemma_seg_end(r, i);
    let j = seg_end(r, i);
    if i < j {
        assert(s[i] == r[i]);
    }
    assert(keeps_segment(s, i, j) == keeps_segment(r, i, j));
    if j < r.len() {
        lemma_spans_concat(r, n, j + 1);
    } else {
        let a: int = r.len() + 1 as int;
        assert forall|k: int| a <= k < s.len() implies s[k] != '/' by {
            assert(s[k] == n[k - a]);
        }
        lemma_seg_end_plain(s, a);
        assert(s.subrange(a, s.len() as int) =~= n);
        assert(keeps_segment(s, a, s.len() as int)) by {
            if s.len() == a + 1 && s[a] == '.' {
                assert(n =~= seq!['.']);
            }
        }
        assert(spans_from(s, a) =~= seq![(a, s.len() as int)]);
    }
}

proof fn lemma_spans_bounded(p: Seq<char>, i: int)
    requires
        0 <= i,
    ensures
        forall|k: int| 0 <= k < spans_from(p, i).len() ==> #[trigger] spans_from(p, i)[k].1 <= p.len(),
    decreases p.len() - i,
{
    if i <= p.len() {
        lemma_seg_end(p, i);
        let j = seg_end(p, i);
        if i <= j < p.len() {
            lemma_spans_bounded(p, j + 1);
        }
        let rest = if i <= j < p.len() {
            spans_from(p, j + 1)
        } else {
            seq![]
        };
        if keeps_segment(p, i, j) {
            assert forall|k: int| 0 <= k < spans_from(p, i).len() implies #[trigger] spans_from(
                p,
                i,
            )[k].1 <= p.len() by {
                if k > 0 {
                    assert(spans_from(p, i)[k] == rest[k - 1]);
                }
            }
        }
    }
}

/// The relative path of a file directly inside `root` is the file's name: what the scan
/// reports undoes `root.join(name)`.
pub proof fn law_relative_path_undoes_join(root: Seq<char>, name: Seq<char>)
    requires
        root.len() > 0,
        root.last() != '/',
        plain_name(name),
    ensures
        relative_path(root, joined(root, name)) == name,
{
    let s = root + seq!['/'] + name;
    assert(joined(root, name) == s);
    lemma_spans_concat(root, name, 0);
    lemma_spans_bounded(root, 0);
    let rs = spans(root);
    let ps = spans(s);
    assert(ps == rs + seq![(root.len() + 1 as int, s.len() as int)]);
    let bc = component_texts(root);
    let pc = component_texts(s);
    assert(pc.take(bc.len() as int) =~= bc) by {
        assert forall|k: int| 0 <= k < bc.len() implies pc[k] == bc[k] by {
            assert(ps[k] == rs[k]);
            assert(rs[k].1 <= root.len());
            lemma_spans_from_ordered(root, 0);
            assert(s.subrange(rs[k].0, rs[k].1) =~= root.subrange(rs[k].0, rs[k].1));
        }
    }
    assert(rooted(s) == rooted(root));
    if !rooted(root) {
        lemma_seg_end(root, 0);
        assert(seg_end(root, 0) > 0);
        assert(bc.len() > 0);
    }
    assert(pc.len() == bc.len() + 1);
    assert(ps[bc.len() as int] == (root.len() + 1 as int, s.len() as int));
    assert(strip_base(root, s) == Some(s.subrange(root.len() + 1 as int, s.len() as int)));
    assert(s.subrange(root.len() + 1 as int, s.len() as int) =~= name);
    crate::text::lemma_find_from(name, seq!['\\'], 0);
    if crate::text::find_index(name, seq!['\\']) is Some {
        let k = crate::text::find_index(name, seq!['\\'])->0;
        assert(name.subrange(k, k + 1)[0] == name[k]);
    }
}

} // verus!
