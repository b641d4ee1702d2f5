//! The index that pairs images with the atlas/plist configs that reference them: each
//! config is filed under the lowercased names by which an image may refer to its
//! texture, and an image is looked up by its file name and then its stem, preferring a
//! config from the image's own directory.
use vstd::prelude::*;
use crate::atlas::{AtlasInfo, InfoView, copy_info, opt_view};
use crate::path::{file_name, file_name_exec, file_stem, file_stem_exec, parent_key, parent_key_exec};
use crate::text::{
    chars_eq, chars_of, concat, lowercase, slice_vec, text_less, text_lt, to_lowercase, views,
    lemma_text_lt_asymmetric, lemma_text_lt_irreflexive, lemma_text_lt_total,
    lemma_text_lt_transitive,
};

verus! {

// ---------------------------------------------------------------------------
// Keys
// ---------------------------------------------------------------------------

/// The key of a texture name: its file name (the whole name when it has none), lowercased.
pub open spec fn texture_key(name: Seq<char>) -> Seq<char> {
    lowercase(
        match file_name(name) {
            Some(n) => n,
            None => name,
        },
    )
}

/// The key of a texture name.
pub fn texture_key_exec(name: &[char]) -> (r: Vec<char>)
    ensures
        r@ == texture_key(name@),
{
    match file_name_exec(name) {
        Some(n) => to_lowercase(n.as_slice()),
        None => to_lowercase(name),
    }
}

/// The names under which a config is filed: the key of its texture and the texture's
/// lowercased stem, then the config's lowercased stem alone and with `.png`, `.jpg` and
/// `.webp` appended.
pub open spec fn key_candidates(config_path: Seq<char>, texture: Option<Seq<char>>) -> Seq<Seq<char>> {
    let from_texture = match texture {
        Some(t) => seq![texture_key(t)] + match file_stem(t) {
            Some(st) => seq![lowercase(st)],
            None => seq![],
        },
        None => seq![],
    };
    let from_config = match file_stem(config_path) {
        Some(st) => {
            let s = lowercase(st);
            seq![s, s + ".png"@, s + ".jpg"@, s + ".webp"@]
        },
        None => seq![],
    };
    from_texture + from_config
}

/// Every text comes before the next in code point order: sorted, without duplicates.
pub open spec fn strictly_sorted(v: Seq<Seq<char>>) -> bool {
    forall|i: int, j: int| 0 <= i < j < v.len() ==> text_lt(#[trigger] v[i], #[trigger] v[j])
}

/// The two sequences hold the same texts.
pub open spec fn same_elements(a: Seq<Seq<char>>, b: Seq<Seq<char>>) -> bool {
    forall|k: Seq<char>| a.contains(k) <==> b.contains(k)
}

/// What a sequence holds after a push.
pub proof fn lemma_push_contains<A>(s: Seq<A>, x: A, z: A)
    ensures
        s.push(x).contains(z) <==> (s.contains(z) || z == x),
{
    let t = s.push(x);
    if t.contains(z) {
        let i = choose|i: int| 0 <= i < t.len() && t[i] == z;
        if i < s.len() {
            assert(s[i] == z);
        }
    }
    if s.contains(z) {
        let i = choose|i: int| 0 <= i < s.len() && s[i] == z;
        assert(t[i] == z);
    }
    if z == x {
        assert(t[s.len() as int] == z);
    }
}

/// Adds a text to a strictly sorted vector unless it is there already.
fn insert_sorted_unique(r: &mut Vec<Vec<char>>, x: Vec<char>)
    requires
        strictly_sorted(views(old(r)@)),
    ensures
        strictly_sorted(views(final(r)@)),
        forall|k: Seq<char>| views(final(r)@).contains(k) <==> (views(old(r)@).contains(k) || k
            == x@),
{
    let ghost v0 = views(r@);
    let mut p: usize = 0;
    while p < r.len() && text_less(r[p].as_slice(), x.as_slice())
        invariant
            p <= r.len(),
            v0 == views(r@),
            forall|i: int| 0 <= i < p ==> text_lt(#[trigger] v0[i], x@),
        decreases r.len() - p,
    {
        p = p + 1;
    }
    if p < r.len() && chars_eq(r[p].as_slice(), x.as_slice()) {
        assert(v0[p as int] == x@);
        return ;
    }
    proof {
        if p < v0.len() {
            lemma_text_lt_total(v0[p as int], x@);
            assert(text_lt(x@, v0[p as int]));
            assert forall|i: int| p <= i < v0.len() implies text_lt(x@, #[trigger] v0[i]) by {
                if i > p {
                    lemma_text_lt_transitive(x@, v0[p as int], v0[i]);
                }
            }
        }
    }
    let ghost xv = x@;
    r.insert(p, x);
    let ghost v1 = views(r@);
    assert(v1 =~= v0.insert(p as int, xv));
    proof {
        v0.insert_ensures(p as int, xv);
        assert forall|i: int, j: int| 0 <= i < j < v1.len() implies text_lt(
            #[trigger] v1[i],
            #[trigger] v1[j],
        ) by {
            if j < p {
            } else if j == p {
            } else if i < p {
                assert(v1[j] == v0[j - 1]);
                lemma_text_lt_transitive(v0[i], xv, v0[j - 1]);
            } else if i == p {
                assert(v1[j] == v0[j - 1]);
            } else {
                assert(v1[i] == v0[i - 1]);
                assert(v1[j] == v0[j - 1]);
            }
        }
        assert forall|k: Seq<char>| v1.contains(k) <==> (v0.contains(k) || k == xv) by {
            if v1.contains(k) {
                let i = choose|i: int| 0 <= i < v1.len() && v1[i] == k;
                if i < p {
                    assert(v0[i] == k);
                } else if i > p {
                    assert(v0[i - 1] == k);
                }
            }
            if v0.contains(k) {
                let i = choose|i: int| 0 <= i < v0.len() && v0[i] == k;
                if i < p {
                    assert(v1[i] == k);
                } else {
                    assert(v1[i + 1] == k);
                }
            }
            if k == xv {
                assert(v1[p as int] == k);
            }
        }
    }
}

/// The names under which a config is filed, sorted, each once.
pub fn atlas_index_keys(config_path: &[char], info: &AtlasInfo) -> (r: Vec<Vec<char>>)
    ensures
        strictly_sorted(views(r@)),
        same_elements(views(r@), key_candidates(config_path@, opt_view(info.texture_file_name))),
{
    let mut cands: Vec<Vec<char>> = Vec::new();
    if let Some(texture) = &info.texture_file_name {
        let t = chars_of(texture.as_str());
        cands.push(texture_key_exec(t.as_slice()));
        if let Some(st) = file_stem_exec(t.as_slice()) {
            cands.push(to_lowercase(st.as_slice()));
        }
    }
    if let Some(st) = file_stem_exec(config_path) {
        let s = to_lowercase(st.as_slice());
        let png = concat(s.as_slice(), chars_of(".png").as_slice());
        let jpg = concat(s.as_slice(), chars_of(".jpg").as_slice());
        let webp = concat(s.as_slice(), chars_of(".webp").as_slice());
        cands.push(s);
        cands.push(png);
        cands.push(jpg);
        cands.push(webp);
    }
    let ghost cv = views(cands@);
    assert(cv =~= key_candidates(config_path@, opt_view(info.texture_file_name)));
    let mut r: Vec<Vec<char>> = Vec::new();
    let mut k: usize = 0;
    while k < cands.len()
        invariant
            k <= cands.len(),
            cv == views(cands@),
            strictly_sorted(views(r@)),
            forall|z: Seq<char>| views(r@).contains(z) <==> cv.take(k as int).contains(z),
        decreases cands.len() - k,
    {
        let x = slice_vec(cands[k].as_slice(), 0, cands[k].len());
        assert(x@ =~= cv[k as int]);
        let ghost before = views(r@);
        insert_sorted_unique(&mut r, x);
        proof {
            assert(cv.take(k + 1) =~= cv.take(k as int).push(cv[k as int]));
            assert forall|z: Seq<char>| cv.take(k + 1).contains(z) <==> (cv.take(k as int).contains(
                z,
            ) || z == cv[k as int]) by {
                lemma_push_contains(cv.take(k as int), cv[k as int], z);
            }
            assert forall|z: Seq<char>| views(r@).contains(z) <==> cv.take(k + 1).contains(z) by {
                assert(views(r@).contains(z) <==> (before.contains(z) || z == cv[k as int]));
                assert(before.contains(z) <==> cv.take(k as int).contains(z));
            }
        }
        k = k + 1;
    }
    assert(cv.take(k as int) =~= cv);
    r
}


// ---------------------------------------------------------------------------
// The index
// ---------------------------------------------------------------------------

/// A config filed under one key, with the directory it lies in.
pub struct IndexEntry {
    key: Vec<char>,
    dir: Vec<char>,
    info: AtlasInfo,
}

/// The mathematical content of an index entry.
pub struct EntryView {
    pub key: Seq<char>,
    pub dir: Seq<char>,
    pub info: InfoView,
}

/// Index of atlas/plist configs keyed by referenced texture file name.
pub struct AtlasIndex {
    entries: Vec<IndexEntry>,
}

impl View for AtlasIndex {
    type V = Seq<EntryView>;

    closed spec fn view(&self) -> Seq<EntryView> {
        self.entries@.map_values(|e: IndexEntry| EntryView { key: e.key@, dir: e.dir@, info: e.info@ })
    }
}

/// The configs filed under `key`, in the order they were filed: each with the canonical
/// text of its directory.
pub open spec fn filed_under(es: Seq<EntryView>, key: Seq<char>) -> Seq<(Seq<char>, InfoView)>
    decreases es.len(),
{
    if es.len() == 0 {
        seq![]
    } else {
        let rest = filed_under(es.drop_last(), key);
        if es.last().key == key {
            rest.push((es.last().dir, es.last().info))
        } else {
            rest
        }
    }
}

/// The first of some filed configs that lies in directory `dir`.
pub open spec fn first_in_dir(c: Seq<(Seq<char>, InfoView)>, dir: Seq<char>) -> Option<InfoView>
    decreases c.len(),
{
    if c.len() == 0 {
        None
    } else if c[0].0 == dir {
        Some(c[0].1)
    } else {
        first_in_dir(c.drop_first(), dir)
    }
}

/// The config found for `key` from directory `dir`: the first filed one in that
/// directory, else the first filed one.
pub open spec fn lookup_in(es: Seq<EntryView>, key: Seq<char>, dir: Seq<char>) -> Option<InfoView> {
    let c = filed_under(es, key);
    match first_in_dir(c, dir) {
        Some(i) => Some(i),
        None => if c.len() > 0 {
            Some(c[0].1)
        } else {
            None
        },
    }
}

/// The config found for an image: by the key of its file name, then by its lowercased
/// stem (an empty key is skipped); nothing when the path has no file name or parent.
pub open spec fn index_lookup(es: Seq<EntryView>, image_path: Seq<char>) -> Option<InfoView> {
    match (file_name(image_path), parent_key(image_path)) {
        (Some(fname), Some(dir)) => {
            let file_key = texture_key(fname);
            let stem_key = match file_stem(image_path) {
                Some(st) => lowercase(st),
                None => seq![],
            };
            let by_file = if file_key.len() == 0 {
                None
            } else {
                lookup_in(es, file_key, dir)
            };
            match by_file {
                Some(i) => Some(i),
                None => if stem_key.len() == 0 {
                    None
                } else {
                    lookup_in(es, stem_key, dir)
                },
            }
        },
        _ => None,
    }
}

pub proof fn lemma_first_in_dir_push(
    c: Seq<(Seq<char>, InfoView)>,
    x: (Seq<char>, InfoView),
    dir: Seq<char>,
)
    ensures
        first_in_dir(c.push(x), dir) == (match first_in_dir(c, dir) {
            Some(i) => Some(i),
            None => if x.0 == dir {
                Some(x.1)
            } else {
                None
            },
        }),
    decreases c.len(),
{
    let t = c.push(x);
    if c.len() > 0 {
        assert(t.drop_first() =~= c.drop_first().push(x));
        assert(t[0] == c[0]);
        lemma_first_in_dir_push(c.drop_first(), x, dir);
        if c[0].0 == dir {
            assert(first_in_dir(t, dir) == Some(c[0].1));
        } else {
            assert(first_in_dir(t, dir) == first_in_dir(t.drop_first(), dir));
        }
    } else {
        assert(t.drop_first() =~= Seq::<(Seq<char>, InfoView)>::empty());
        assert(t[0] == x);
        assert(first_in_dir(c, dir) is None);
        if x.0 != dir {
            assert(first_in_dir(t, dir) == first_in_dir(t.drop_first(), dir));
        }
    }
}

impl AtlasIndex {
    /// An index with nothing filed.
    pub fn new() -> (r: AtlasIndex)
        ensures
            r@ == Seq::<EntryView>::empty(),
    {
        let r = AtlasIndex { entries: Vec::new() };
        assert(r@ =~= Seq::<EntryView>::empty());
        r
    }

    /// Files a config under a key.
    fn file(&mut self, key: Vec<char>, dir: Vec<char>, info: AtlasInfo)
        ensures
            final(self)@ == old(self)@.push(EntryView { key: key@, dir: dir@, info: info@ }),
    {
        let ghost e = EntryView { key: key@, dir: dir@, info: info@ };
        self.entries.push(IndexEntry { key, dir, info });
        assert(self@ =~= old(self)@.push(e));
    }

    /// The config found for `key` from directory `dir`.
    fn lookup_key(&self, key: &[char], image_dir: &[char]) -> (r: Option<AtlasInfo>)
        ensures
            match r {
                Some(i) => lookup_in(self@, key@, image_dir@) == Some(i@),
                None => lookup_in(self@, key@, image_dir@) is None,
            },
    {
        let ghost es = self@;
        let mut first: Option<usize> = None;
        let mut in_dir: Option<usize> = None;
        let mut k: usize = 0;
        while k < self.entries.len()
            invariant
                k <= self.entries.len(),
                es == self@,
                match first {
                    Some(j) => j < k && filed_under(es.take(k as int), key@).len() > 0
                        && filed_under(es.take(k as int), key@)[0].1 == es[j as int].info,
                    None => filed_under(es.take(k as int), key@).len() == 0,
                },
                match in_dir {
                    Some(j) => j < k && first_in_dir(filed_under(es.take(k as int), key@), image_dir@)
                        == Some(es[j as int].info),
                    None => first_in_dir(filed_under(es.take(k as int), key@), image_dir@) is None,
                },
            decreases self.entries.len() - k,
        {
            let ghost c = filed_under(es.take(k as int), key@);
            assert(es.take(k + 1).drop_last() =~= es.take(k as int));
            let e = &self.entries[k];
            assert(es[k as int] == EntryView { key: e.key@, dir: e.dir@, info: e.info@ });
            if chars_eq(e.key.as_slice(), key) {
                proof {
                    lemma_first_in_dir_push(c, (e.dir@, e.info@), image_dir@);
                }
                if first.is_none() {
                    first = Some(k);
                }
                if in_dir.is_none() && chars_eq(e.dir.as_slice(), image_dir) {
                    in_dir = Some(k);
                }
            }
            k = k + 1;
        }
        assert(es.take(k as int) =~= es);
        match in_dir {
            Some(j) => Some(copy_info(&self.entries[j].info)),
            None => match first {
                Some(j) => Some(copy_info(&self.entries[j].info)),
                None => None,
            },
        }
    }

    /// The config of the atlas or plist that an image's texture name points to.
    pub fn lookup(&self, image_path: &str) -> (r: Option<AtlasInfo>)
        ensures
            match r {
                Some(i) => index_lookup(self@, image_path@) == Some(i@),
                None => index_lookup(self@, image_path@) is None,
            },
    {
        let p = chars_of(image_path);
        let fname = match file_name_exec(p.as_slice()) {
            Some(n) => n,
            None => {
                return None;
            },
        };
        let file_key = texture_key_exec(fname.as_slice());
        let stem_key = match file_stem_exec(p.as_slice()) {
            Some(st) => to_lowercase(st.as_slice()),
            None => Vec::new(),
        };
        let image_dir = match parent_key_exec(p.as_slice()) {
            Some(d) => d,
            None => {
                return None;
            },
        };
        if file_key.len() > 0 {
            if let Some(info) = self.lookup_key(file_key.as_slice(), image_dir.as_slice()) {
                return Some(info);
            }
        }
        if stem_key.len() > 0 {
            self.lookup_key(stem_key.as_slice(), image_dir.as_slice())
        } else {
            None
        }
    }
}


// ---------------------------------------------------------------------------
// Building
// ---------------------------------------------------------------------------

/// A config file, with its text (`None` when it could not be read or decoded).
pub struct ConfigEntry {
    pub path: String,
    pub text: Option<String>,
}

/// What a config file says, read by its kind: a `.plist` as a Cocos plist, an `.atlas` as a
/// LibGDX/Spine atlas; `None` for another file, or a plist that does not parse.
pub open spec fn config_info(path: Seq<char>, text: Seq<char>) -> Option<InfoView> {
    match config_kind_of(path) {
        Some(ConfigKind::Plist) => match crate::plist::cocos_plist_info(path, text) {
            Ok(i) => Some(i),
            Err(_) => None,
        },
        Some(ConfigKind::Atlas) => Some(crate::libgdx::gdx_info(path, text)),
        None => None,
    }
}

/// What a config entry says, when its text was read.
pub open spec fn entry_info(e: ConfigEntry) -> Option<InfoView> {
    match e.text {
        Some(t) => config_info(e.path@, t@),
        None => None,
    }
}

/// Reads a config file's text by its kind.
pub fn parse_config(path: &str, text: &str) -> (r: Option<AtlasInfo>)
    ensures
        match r {
            Some(i) => config_info(path@, text@) == Some(i@),
            None => config_info(path@, text@) is None,
        },
{
    match config_kind(path) {
        Some(ConfigKind::Plist) => match crate::plist::parse_cocos_plist(path, text) {
            Ok(i) => Some(i),
            Err(_) => None,
        },
        Some(ConfigKind::Atlas) => Some(crate::libgdx::parse_libgdx_atlas(path, text)),
        None => None,
    }
}

fn entry_config(e: &ConfigEntry) -> (r: Option<AtlasInfo>)
    ensures
        match r {
            Some(i) => entry_info(*e) == Some(i@),
            None => entry_info(*e) is None,
        },
{
    match &e.text {
        Some(t) => parse_config(e.path.as_str(), t.as_str()),
        None => None,
    }
}

/// A parsed config without a texture file name is taken to name the PNG of its own stem.
pub open spec fn completed_info(path: Seq<char>, info: InfoView) -> InfoView {
    if info.texture_file_name is None {
        match file_stem(path) {
            Some(st) => InfoView { texture_file_name: Some(st + ".png"@), ..info },
            None => info,
        }
    } else {
        info
    }
}

/// The canonical text of a config's directory (`Path::parent`, or the empty path).
pub open spec fn config_dir(path: Seq<char>) -> Seq<char> {
    match parent_key(path) {
        Some(d) => d,
        None => seq![],
    }
}

/// The parsed config of an entry, completed, when it parsed and has regions.
pub open spec fn usable_info(e: ConfigEntry) -> Option<InfoView> {
    match entry_info(e) {
        Some(i) => if i.regions.len() > 0 {
            Some(completed_info(e.path@, i))
        } else {
            None
        },
        None => None,
    }
}

/// The configs among `configs` that are filed under `key`, in order: those that parsed,
/// have regions, and have `key` among their names.
pub open spec fn filed_from(configs: Seq<ConfigEntry>, key: Seq<char>) -> Seq<(Seq<char>, InfoView)>
    decreases configs.len(),
{
    if configs.len() == 0 {
        seq![]
    } else {
        let rest = filed_from(configs.drop_last(), key);
        let e = configs.last();
        match usable_info(e) {
            Some(i) => if key_candidates(e.path@, i.texture_file_name).contains(key) {
                rest.push((config_dir(e.path@), i))
            } else {
                rest
            },
            None => rest,
        }
    }
}

/// Builds the index of the configs found under a project root, in the order given.
pub fn build_atlas_index(configs: &Vec<ConfigEntry>) -> (r: AtlasIndex)
    ensures
        forall|key: Seq<char>| filed_under(r@, key) == filed_from(configs@, key),
{
    let mut index = AtlasIndex::new();
    let mut k: usize = 0;
    while k < configs.len()
        invariant
            k <= configs.len(),
            forall|key: Seq<char>| filed_under(index@, key) == filed_from(configs@.take(k as int), key),
        decreases configs.len() - k,
    {
        let ghost prev = configs@.take(k as int);
        assert(configs@.take(k + 1).drop_last() =~= prev);
        assert(configs@.take(k + 1).last() == configs@[k as int]);
        let entry = &configs[k];
        let parsed = entry_config(entry);
        let mut info = match parsed {
            Some(i) => i,
            None => {
                k = k + 1;
                continue;
            },
        };
        if info.regions.len() == 0 {
            k = k + 1;
            continue;
        }
        let path = chars_of(entry.path.as_str());
        if info.texture_file_name.is_none() {
            if let Some(st) = file_stem_exec(path.as_slice()) {
                let name = concat(st.as_slice(), chars_of(".png").as_slice());
                info.texture_file_name = Some(crate::text::string_of(name.as_slice()));
            }
        }
        let ghost iv = info@;
        assert(usable_info(configs@[k as int]) == Some(iv));
        let dir = match parent_key_exec(path.as_slice()) {
            Some(d) => d,
            None => Vec::new(),
        };
        assert(dir@ =~= config_dir(path@));
        let keys = atlas_index_keys(path.as_slice(), &info);
        let ghost kv = views(keys@);
        let ghost cands = key_candidates(path@, iv.texture_file_name);
        let mut j: usize = 0;
        while j < keys.len()
            invariant
                j <= keys.len(),
                kv == views(keys@),
                strictly_sorted(kv),
                same_elements(kv, cands),
                info@ == iv,
                forall|key: Seq<char>| filed_under(index@, key) == if kv.take(j as int).contains(key) {
                    filed_from(prev, key).push((dir@, iv))
                } else {
                    filed_from(prev, key)
                },
            decreases keys.len() - j,
        {
            let ghost before = index@;
            let key = slice_vec(keys[j].as_slice(), 0, keys[j].len());
            assert(key@ =~= kv[j as int]);
            let d = slice_vec(dir.as_slice(), 0, dir.len());
            assert(d@ =~= dir@);
            let ci = copy_info(&info);
            index.file(key, d, ci);
            proof {
                assert(index@.last() == EntryView { key: kv[j as int], dir: dir@, info: iv });
                assert(kv.take(j + 1) =~= kv.take(j as int).push(kv[j as int]));
                assert forall|z: Seq<char>| filed_under(index@, z) == if kv.take(j + 1).contains(z) {
                    filed_from(prev, z).push((dir@, iv))
                } else {
                    filed_from(prev, z)
                } by {
                    lemma_push_contains(kv.take(j as int), kv[j as int], z);
                    assert(index@.drop_last() =~= before);
                    assert(filed_under(index@, z) == if kv[j as int] == z {
                        filed_under(before, z).push((dir@, iv))
                    } else {
                        filed_under(before, z)
                    });
                    if z == kv[j as int] {
                        if kv.take(j as int).contains(z) {
                            let i = choose|i: int| 0 <= i < j && kv.take(j as int)[i] == z;
                            assert(text_lt(kv[i], kv[j as int]));
                            lemma_text_lt_irreflexive(z);
                        }
                    }
                }
            }
            j = j + 1;
        }
        proof {
            assert(kv.take(j as int) =~= kv);
            assert forall|z: Seq<char>| filed_under(index@, z) == filed_from(
                configs@.take(k + 1),
                z,
            ) by {
                assert(kv.contains(z) <==> cands.contains(z));
            }
        }
        k = k + 1;
    }
    assert(configs@.take(k as int) =~= configs@);
    index
}


// ---------------------------------------------------------------------------
// Pairing an image with its config
// ---------------------------------------------------------------------------

/// What the directory of an image offers: the `{stem}.atlas` and `{stem}.plist` files
/// beside it (when they are files), and every config file of the directory, in directory
/// order.
pub struct ImageConfigs {
    pub sibling_atlas: Option<ConfigEntry>,
    pub sibling_plist: Option<ConfigEntry>,
    pub dir_configs: Vec<ConfigEntry>,
}

/// A config file read as a LibGDX/Spine atlas, when its text was read.
pub open spec fn atlas_entry_info(o: Option<ConfigEntry>) -> Option<InfoView> {
    match o {
        Some(e) => match e.text {
            Some(t) => Some(crate::libgdx::gdx_info(e.path@, t@)),
            None => None,
        },
        None => None,
    }
}

/// A config file read as a Cocos plist, when its text was read and parses.
pub open spec fn plist_entry_info(o: Option<ConfigEntry>) -> Option<InfoView> {
    match o {
        Some(e) => match e.text {
            Some(t) => match crate::plist::cocos_plist_info(e.path@, t@) {
                Ok(i) => Some(i),
                Err(_) => None,
            },
            None => None,
        },
        None => None,
    }
}

/// A parsed config that has regions.
pub open spec fn with_regions(i: Option<InfoView>) -> Option<InfoView> {
    match i {
        Some(x) => if x.regions.len() > 0 {
            Some(x)
        } else {
            None
        },
        None => None,
    }
}

/// A config of the image's directory belongs to the image: its lowercased stem is the
/// image's, or its texture's key is the image's.
pub open spec fn belongs_to_image(e: ConfigEntry, image_stem: Seq<char>, image_key: Seq<char>) -> bool {
    (match file_stem(e.path@) {
        Some(st) => lowercase(st) == image_stem,
        None => false,
    }) || (match entry_info(e) {
        Some(i) => match i.texture_file_name {
            Some(t) => texture_key(t) == image_key,
            None => false,
        },
        None => false,
    })
}

/// The first config from `k` on in the image's directory that has regions and belongs to
/// the image.
pub open spec fn dir_match(
    es: Seq<ConfigEntry>,
    image_stem: Seq<char>,
    image_key: Seq<char>,
    k: int,
) -> Option<InfoView>
    decreases es.len() - k,
{
    if k < 0 || k >= es.len() {
        None
    } else if with_regions(entry_info(es[k])) is Some && belongs_to_image(es[k], image_stem, image_key) {
        with_regions(entry_info(es[k]))
    } else {
        dir_match(es, image_stem, image_key, k + 1)
    }
}

/// The config paired with an image: `{stem}.atlas`, then `{stem}.plist` (each if it has
/// regions), then the index, then the configs of the image's directory.
pub open spec fn image_atlas(
    es: Seq<EntryView>,
    image_path: Seq<char>,
    sources: ImageConfigs,
) -> Option<InfoView> {
    match (parent_key(image_path), file_stem(image_path)) {
        (Some(_), Some(stem)) => match with_regions(atlas_entry_info(sources.sibling_atlas)) {
            Some(i) => Some(i),
            None => match with_regions(plist_entry_info(sources.sibling_plist)) {
                Some(i) => Some(i),
                None => match index_lookup(es, image_path) {
                    Some(i) => Some(i),
                    None => match file_name(image_path) {
                        Some(fname) => dir_match(
                            sources.dir_configs@,
                            lowercase(stem),
                            texture_key(fname),
                            0,
                        ),
                        None => None,
                    },
                },
            },
        },
        _ => None,
    }
}

fn sibling_atlas_exec(o: &Option<ConfigEntry>) -> (r: Option<AtlasInfo>)
    ensures
        match r {
            Some(x) => with_regions(atlas_entry_info(*o)) == Some(x@),
            None => with_regions(atlas_entry_info(*o)) is None,
        },
{
    if let Some(e) = o {
        if let Some(t) = &e.text {
            let info = crate::libgdx::parse_libgdx_atlas(e.path.as_str(), t.as_str());
            if info.regions.len() > 0 {
                return Some(info);
            }
        }
    }
    None
}

fn sibling_plist_exec(o: &Option<ConfigEntry>) -> (r: Option<AtlasInfo>)
    ensures
        match r {
            Some(x) => with_regions(plist_entry_info(*o)) == Some(x@),
            None => with_regions(plist_entry_info(*o)) is None,
        },
{
    if let Some(e) = o {
        if let Some(t) = &e.text {
            if let Ok(info) = crate::plist::parse_cocos_plist(e.path.as_str(), t.as_str()) {
                if info.regions.len() > 0 {
                    return Some(info);
                }
            }
        }
    }
    None
}

/// Finds the atlas or plist config that describes an image.
pub fn atlas_for_image_with_index(image_path: &str, index: &AtlasIndex, sources: &ImageConfigs) -> (r:
    Option<AtlasInfo>)
    ensures
        match r {
            Some(i) => image_atlas(index@, image_path@, *sources) == Some(i@),
            None => image_atlas(index@, image_path@, *sources) is None,
        },
{
    let p = chars_of(image_path);
    if parent_key_exec(p.as_slice()).is_none() {
        return None;
    }
    let stem = match file_stem_exec(p.as_slice()) {
        Some(st) => st,
        None => {
            return None;
        },
    };
    if let Some(i) = sibling_atlas_exec(&sources.sibling_atlas) {
        return Some(i);
    }
    if let Some(i) = sibling_plist_exec(&sources.sibling_plist) {
        return Some(i);
    }
    if let Some(i) = index.lookup(image_path) {
        return Some(i);
    }
    let fname = match file_name_exec(p.as_slice()) {
        Some(n) => n,
        None => {
            return None;
        },
    };
    let image_key = texture_key_exec(fname.as_slice());
    let image_stem = to_lowercase(stem.as_slice());
    let es = &sources.dir_configs;
    let mut k: usize = 0;
    while k < es.len()
        invariant
            k <= es.len(),
            *es == sources.dir_configs,
            image_atlas(index@, image_path@, *sources) == dir_match(
                es@,
                image_stem@,
                image_key@,
                k as int,
            ),
        decreases es.len() - k,
    {
        let e = &es[k];
        let parsed = entry_config(e);
        if parsed.is_some() && parsed.as_ref().unwrap().regions.len() > 0 {
            let info = parsed.unwrap();
            let ep = chars_of(e.path.as_str());
            let stem_hit = match file_stem_exec(ep.as_slice()) {
                Some(st) => {
                    let l = to_lowercase(st.as_slice());
                    chars_eq(l.as_slice(), image_stem.as_slice())
                },
                None => false,
            };
            let key_hit = match &info.texture_file_name {
                Some(t) => {
                    let tk = texture_key_exec(chars_of(t.as_str()).as_slice());
                    chars_eq(tk.as_slice(), image_key.as_slice())
                },
                None => false,
            };
            if stem_hit || key_hit {
                return Some(info);
            }
        }
        k = k + 1;
    }
    None
}

/// The kinds of config file.
#[derive(Clone, Copy, Debug, PartialEq, Eq, Structural)]
pub enum ConfigKind {
    Plist,
    Atlas,
}

/// The kind of config a file is, by its extension (`plist` or `atlas`, any case).
pub open spec fn config_kind_of(path: Seq<char>) -> Option<ConfigKind> {
    match crate::path::extension(path) {
        Some(e) => if crate::text::eq_ignore_ascii_case(e, "plist"@) {
            Some(ConfigKind::Plist)
        } else if crate::text::eq_ignore_ascii_case(e, "atlas"@) {
            Some(ConfigKind::Atlas)
        } else {
            None
        },
        None => None,
    }
}

/// The kind of config a file is, by its extension.
pub fn config_kind(path: &str) -> (r: Option<ConfigKind>)
    ensures
        r == config_kind_of(path@),
{
    let p = chars_of(path);
    match crate::path::extension_exec(p.as_slice()) {
        Some(e) => if crate::text::eq_ignore_ascii_case_exec(e.as_slice(), chars_of("plist").as_slice()) {
            Some(ConfigKind::Plist)
        } else if crate::text::eq_ignore_ascii_case_exec(e.as_slice(), chars_of("atlas").as_slice()) {
            Some(ConfigKind::Atlas)
        } else {
            None
        },
        None => None,
    }
}

/// The file name of the config of the given extension that would sit beside an image:
/// its stem, a dot, the extension.
pub open spec fn sibling_name(image_path: Seq<char>, extension: Seq<char>) -> Option<Seq<char>> {
    match file_stem(image_path) {
        Some(st) => Some(st + "."@ + extension),
        None => None,
    }
}

/// The file name of the config of the given extension beside an image.
pub fn sibling_config_name(image_path: &str, extension: &str) -> (r: Option<String>)
    ensures
        match r {
            Some(n) => sibling_name(image_path@, extension@) == Some(n@),
            None => sibling_name(image_path@, extension@) is None,
        },
{
    let p = chars_of(image_path);
    match file_stem_exec(p.as_slice()) {
        Some(st) => {
            let a = concat(st.as_slice(), chars_of(".").as_slice());
            let b = concat(a.as_slice(), chars_of(extension).as_slice());
            Some(crate::text::string_of(b.as_slice()))
        },
        None => None,
    }
}


// ---------------------------------------------------------------------------
// Laws
// ---------------------------------------------------------------------------

proof fn lemma_first_in_dir(c: Seq<(Seq<char>, InfoView)>, dir: Seq<char>)
    ensures
        first_in_dir(c, dir) matches Some(i) ==> exists|k: int|
            0 <= k < c.len() && c[k].0 == dir && c[k].1 == i && forall|j: int|
                0 <= j < k ==> #[trigger] c[j].0 != dir,
        first_in_dir(c, dir) is None ==> forall|k: int| 0 <= k < c.len() ==> #[trigger] c[k].0 != dir,
    decreases c.len(),
{
    if c.len() > 0 {
        let t = c.drop_first();
        lemma_first_in_dir(t, dir);
        if c[0].0 == dir {
            assert(c[0].0 == dir && c[0].1 == first_in_dir(c, dir)->0);
        } else {
            if first_in_dir(t, dir) is Some {
                let i = first_in_dir(t, dir)->0;
                let k = choose|k: int|
                    0 <= k < t.len() && t[k].0 == dir && t[k].1 == i && forall|j: int|
                        0 <= j < k ==> #[trigger] t[j].0 != dir;
                assert(c[k + 1] == t[k]);
                assert forall|j: int| 0 <= j < k + 1 implies #[trigger] c[j].0 != dir by {
                    if j > 0 {
                        assert(c[j] == t[j - 1]);
                    }
                }
            } else {
                assert forall|k: int| 0 <= k < c.len() implies #[trigger] c[k].0 != dir by {
                    if k > 0 {
                        assert(c[k] == t[k - 1]);
                    }
                }
            }
        }
    }
}

/// An image whose file name names a config filed from its own directory gets the first
/// such config: a config beside the image wins over one elsewhere.
pub proof fn law_lookup_prefers_own_directory(es: Seq<EntryView>, image_path: Seq<char>, k: int)
    requires
        file_name(image_path) is Some,
        parent_key(image_path) is Some,
        texture_key(file_name(image_path)->0).len() > 0,
        0 <= k < filed_under(es, texture_key(file_name(image_path)->0)).len(),
        filed_under(es, texture_key(file_name(image_path)->0))[k].0 == parent_key(image_path)->0,
    ensures
        ({
            let c = filed_under(es, texture_key(file_name(image_path)->0));
            let dir = parent_key(image_path)->0;
            exists|j: int|
                0 <= j <= k && c[j].0 == dir && index_lookup(es, image_path) == Some(c[j].1)
                    && forall|m: int| 0 <= m < j ==> #[trigger] c[m].0 != dir
        }),
{
    let c = filed_under(es, texture_key(file_name(image_path)->0));
    let dir = parent_key(image_path)->0;
    lemma_first_in_dir(c, dir);
    let i = first_in_dir(c, dir)->0;
    let j = choose|j: int|
        0 <= j < c.len() && c[j].0 == dir && c[j].1 == i && forall|m: int|
            0 <= m < j ==> #[trigger] c[m].0 != dir;
    if j > k {
        assert(c[k].0 != dir);
    }
}

/// The source of a filed config: an entry that gave it, in whose directory it is filed,
/// and among whose names the key is.
pub open spec fn filed_source(
    configs: Seq<ConfigEntry>,
    key: Seq<char>,
    c: (Seq<char>, InfoView),
    k: int,
) -> bool {
    &&& 0 <= k < configs.len()
    &&& usable_info(configs[k]) == Some(c.1)
    &&& c.0 == config_dir(configs[k].path@)
    &&& key_candidates(configs[k].path@, c.1.texture_file_name).contains(key)
}

proof fn lemma_filed_from_source(configs: Seq<ConfigEntry>, key: Seq<char>, m: int) -> (k: int)
    requires
        0 <= m < filed_from(configs, key).len(),
    ensures
        filed_source(configs, key, filed_from(configs, key)[m], k),
    decreases configs.len(),
{
    let front = configs.drop_last();
    let f = filed_from(configs, key);
    let rest = filed_from(front, key);
    let e = configs.last();
    if m < rest.len() {
        let k = lemma_filed_from_source(front, key, m);
        assert(f[m] == rest[m]);
        assert(configs[k] == front[k]);
        k
    } else {
        assert(f[m] == (config_dir(e.path@), usable_info(e)->0));
        configs.len() - 1
    }
}

/// The names under which an image is looked up, when one of them is among `names`: the
/// key of its file name, or its lowercased stem (an empty one never matches).
pub open spec fn image_named_by(image_path: Seq<char>, names: Seq<Seq<char>>) -> bool {
    let file_key = match file_name(image_path) {
        Some(f) => texture_key(f),
        None => seq![],
    };
    let stem_key = match file_stem(image_path) {
        Some(st) => lowercase(st),
        None => seq![],
    };
    (file_key.len() > 0 && names.contains(file_key)) || (stem_key.len() > 0 && names.contains(
        stem_key,
    ))
}

proof fn lemma_single_filed(c: ConfigEntry, key: Seq<char>)
    ensures
        filed_from(seq![c], key) == (match usable_info(c) {
            Some(i) => if key_candidates(c.path@, i.texture_file_name).contains(key) {
                seq![(config_dir(c.path@), i)]
            } else {
                Seq::<(Seq<char>, InfoView)>::empty()
            },
            None => Seq::<(Seq<char>, InfoView)>::empty(),
        }),
{
    reveal_with_fuel(filed_from, 2);
    assert(seq![c].drop_last() =~= Seq::<ConfigEntry>::empty());
    assert(seq![c].last() == c);
    assert(Seq::<(Seq<char>, InfoView)>::empty().push((config_dir(c.path@), usable_info(c)->0))
        =~= seq![(config_dir(c.path@), usable_info(c)->0)]);
}

proof fn lemma_single_lookup_in(c: ConfigEntry, es: Seq<EntryView>, key: Seq<char>, dir: Seq<char>)
    requires
        forall|k: Seq<char>| filed_under(es, k) == filed_from(seq![c], k),
    ensures
        lookup_in(es, key, dir) == (match usable_info(c) {
            Some(i) => if key_candidates(c.path@, i.texture_file_name).contains(key) {
                Some(i)
            } else {
                None
            },
            None => None,
        }),
{
    lemma_single_filed(c, key);
    assert(filed_under(es, key) == filed_from(seq![c], key));
    let f = filed_under(es, key);
    if f.len() == 1 {
        assert(f.drop_first() =~= Seq::<(Seq<char>, InfoView)>::empty());
        reveal_with_fuel(first_in_dir, 2);
    }
}

/// An index built from one config finds it for an image in any directory exactly when the
/// config has regions and the image's lowercased file name, or else its lowercased stem,
/// is one of the config's names (such as the texture file name it references).
pub proof fn law_lookup_finds_config_by_name(c: ConfigEntry, es: Seq<EntryView>, image_path: Seq<char>)
    requires
        forall|k: Seq<char>| filed_under(es, k) == filed_from(seq![c], k),
        file_name(image_path) is Some,
        parent_key(image_path) is Some,
    ensures
        index_lookup(es, image_path) == (match usable_info(c) {
            Some(i) => if image_named_by(image_path, key_candidates(c.path@, i.texture_file_name)) {
                Some(i)
            } else {
                None
            },
            None => None,
        }),
{
    let fname = file_name(image_path)->0;
    let dir = parent_key(image_path)->0;
    let file_key = texture_key(fname);
    let stem_key = match file_stem(image_path) {
        Some(st) => lowercase(st),
        None => seq![],
    };
    lemma_single_lookup_in(c, es, file_key, dir);
    lemma_single_lookup_in(c, es, stem_key, dir);
}

/// A plist that parses is read as a plist from its own path.
proof fn lemma_plist_info_kind(path: Seq<char>, text: Seq<char>)
    ensures
        crate::plist::cocos_plist_info(path, text) matches Ok(i) ==> i.config_path == path
            && i.config_type == "plist"@,
{
    if crate::plist::is_json_plist(text) {
        if let Some(root) = crate::json::json_document(text) {
            let size = crate::plist::json_size(root);
            if let Ok(i) = crate::plist::json_plist_info(path, root) {
                assert(i.config_type == "plist"@);
            }
        }
    }
}

/// What a config file says is an atlas or a plist read from that file's path.
proof fn lemma_config_info_kind(path: Seq<char>, text: Seq<char>)
    ensures
        config_info(path, text) matches Some(i) ==> i.config_path == path && (i.config_type
            == "atlas"@ || i.config_type == "plist"@),
{
    lemma_plist_info_kind(path, text);
}

proof fn lemma_dir_match_kind(es: Seq<ConfigEntry>, image_stem: Seq<char>, image_key: Seq<char>, k: int)
    requires
        0 <= k,
    ensures
        dir_match(es, image_stem, image_key, k) matches Some(i) ==> i.regions.len() > 0 && (
        i.config_type == "atlas"@ || i.config_type == "plist"@),
    decreases es.len() - k,
{
    if k < es.len() {
        if with_regions(entry_info(es[k])) is Some && belongs_to_image(es[k], image_stem, image_key) {
            lemma_config_info_kind(es[k].path@, es[k].text->0@);
        } else {
            lemma_dir_match_kind(es, image_stem, image_key, k + 1);
        }
    }
}

/// The config paired with an image, whichever source it comes from, has regions and is an
/// atlas or a plist.
pub proof fn law_paired_config_is_atlas_or_plist(
    configs: Seq<ConfigEntry>,
    es: Seq<EntryView>,
    image_path: Seq<char>,
    sources: ImageConfigs,
)
    requires
        forall|k: Seq<char>| filed_under(es, k) == filed_from(configs, k),
    ensures
        image_atlas(es, image_path, sources) matches Some(i) ==> i.regions.len() > 0 && (
        i.config_type == "atlas"@ || i.config_type == "plist"@),
{
    if let Some(e) = sources.sibling_plist {
        if let Some(t) = e.text {
            lemma_plist_info_kind(e.path@, t@);
        }
    }
    law_lookup_returns_a_filed_config(configs, es, image_path);
    if let Some(i) = index_lookup(es, image_path) {
        let k = choose|k: int| 0 <= k < configs.len() && usable_info(configs[k]) == Some(i);
        lemma_config_info_kind(configs[k].path@, configs[k].text->0@);
    }
    if let (Some(fname), Some(stem)) = (file_name(image_path), file_stem(image_path)) {
        lemma_dir_match_kind(sources.dir_configs@, lowercase(stem), texture_key(fname), 0);
    }
}

/// A config that parses has a file name, so it has a parent directory, and it is filed
/// under exactly that directory.
proof fn lemma_usable_has_parent(e: ConfigEntry)
    ensures
        usable_info(e) is Some ==> parent_key(e.path@) is Some && config_dir(e.path@) == parent_key(
            e.path@,
        )->0,
{
}

proof fn lemma_filed_from_holds(configs: Seq<ConfigEntry>, key: Seq<char>, k: int) -> (m: int)
    requires
        0 <= k < configs.len(),
        usable_info(configs[k]) is Some,
        key_candidates(configs[k].path@, usable_info(configs[k])->0.texture_file_name).contains(key),
    ensures
        0 <= m < filed_from(configs, key).len(),
        filed_from(configs, key)[m] == (config_dir(configs[k].path@), usable_info(configs[k])->0),
    decreases configs.len(),
{
    let front = configs.drop_last();
    if k == configs.len() - 1 {
        (filed_from(configs, key).len() - 1) as int
    } else {
        assert(front[k] == configs[k]);
        let m = lemma_filed_from_holds(front, key, k);
        m
    }
}

/// An image gets a config from its own directory whenever one there is filed under the
/// image's file name: configs are filed under the exact parent directory of their path,
/// and the lookup prefers that directory.
pub proof fn law_lookup_finds_config_beside_image(
    configs: Seq<ConfigEntry>,
    es: Seq<EntryView>,
    image_path: Seq<char>,
    k: int,
)
    requires
        forall|key: Seq<char>| filed_under(es, key) == filed_from(configs, key),
        0 <= k < configs.len(),
        file_name(image_path) is Some,
        texture_key(file_name(image_path)->0).len() > 0,
        usable_info(configs[k]) is Some,
        key_candidates(configs[k].path@, usable_info(configs[k])->0.texture_file_name).contains(
            texture_key(file_name(image_path)->0),
        ),
        parent_key(configs[k].path@) == parent_key(image_path),
    ensures
        exists|j: int|
            0 <= j < configs.len() && parent_key(configs[j].path@) == parent_key(image_path)
                && index_lookup(es, image_path) == usable_info(#[trigger] configs[j]),
{
    let key = texture_key(file_name(image_path)->0);
    lemma_usable_has_parent(configs[k]);
    let m = lemma_filed_from_holds(configs, key, k);
    assert(filed_under(es, key) == filed_from(configs, key));
    law_lookup_prefers_own_directory(es, image_path, m);
    let c = filed_under(es, key);
    let dir = parent_key(image_path)->0;
    let j = choose|j: int|
        0 <= j <= m && c[j].0 == dir && index_lookup(es, image_path) == Some(c[j].1) && forall|
            q: int,
        |
            0 <= q < j ==> #[trigger] c[q].0 != dir;
    let k2 = lemma_filed_from_source(configs, key, j);
    lemma_usable_has_parent(configs[k2]);
    assert(index_lookup(es, image_path) == usable_info(configs[k2]));
}

/// Every config that the index files under a key has regions, names its texture, is an
/// atlas or a plist read from one of the files the index was built from, lies in the
/// directory it is filed under, and is filed only under one of its own lowercased names.
pub proof fn law_index_entries_are_filed_configs(
    configs: Seq<ConfigEntry>,
    es: Seq<EntryView>,
    key: Seq<char>,
)
    requires
        forall|k: Seq<char>| filed_under(es, k) == filed_from(configs, k),
    ensures
        forall|m: int|
            0 <= m < filed_under(es, key).len() ==> {
                let c = #[trigger] filed_under(es, key)[m];
                let info = c.1;
                &&& info.regions.len() > 0
                &&& info.texture_file_name is Some
                &&& (info.config_type == "atlas"@ || info.config_type == "plist"@)
                &&& c.0 == config_dir(info.config_path)
                &&& key_candidates(info.config_path, info.texture_file_name).contains(key)
                &&& exists|k: int| 0 <= k < configs.len() && configs[k].path@ == info.config_path
            },
{
    assert(filed_under(es, key) == filed_from(configs, key));
    assert forall|m: int| 0 <= m < filed_under(es, key).len() implies {
        let c = #[trigger] filed_under(es, key)[m];
        let info = c.1;
        &&& info.regions.len() > 0
        &&& info.texture_file_name is Some
        &&& (info.config_type == "atlas"@ || info.config_type == "plist"@)
        &&& c.0 == config_dir(info.config_path)
        &&& key_candidates(info.config_path, info.texture_file_name).contains(key)
        &&& exists|k: int| 0 <= k < configs.len() && configs[k].path@ == info.config_path
    } by {
        let c = filed_from(configs, key)[m];
        let k = lemma_filed_from_source(configs, key, m);
        let e = configs[k];
        let i = entry_info(e)->0;
        lemma_config_info_kind(e.path@, e.text->0@);
        if i.texture_file_name is None && file_stem(e.path@) is None {
            assert(key_candidates(e.path@, None) =~= Seq::<Seq<char>>::empty());
        }
    }
}

/// Whatever the index finds for an image is one of the configs it was built from, as it
/// was filed (parsed, with regions, its texture name completed).
pub proof fn law_lookup_returns_a_filed_config(
    configs: Seq<ConfigEntry>,
    es: Seq<EntryView>,
    image_path: Seq<char>,
)
    requires
        forall|key: Seq<char>| filed_under(es, key) == filed_from(configs, key),
    ensures
        index_lookup(es, image_path) matches Some(i) ==> exists|k: int|
            0 <= k < configs.len() && usable_info(configs[k]) == Some(i),
{
    if let Some(i) = index_lookup(es, image_path) {
        let fname = file_name(image_path)->0;
        let dir = parent_key(image_path)->0;
        let file_key = texture_key(fname);
        let stem_key = match file_stem(image_path) {
            Some(st) => lowercase(st),
            None => seq![],
        };
        let key = if file_key.len() > 0 && lookup_in(es, file_key, dir) is Some {
            file_key
        } else {
            stem_key
        };
        assert(lookup_in(es, key, dir) == Some(i));
        let c = filed_under(es, key);
        lemma_first_in_dir(c, dir);
        let m = if first_in_dir(c, dir) is Some {
            choose|k: int|
                0 <= k < c.len() && c[k].0 == dir && c[k].1 == i && forall|j: int|
                    0 <= j < k ==> #[trigger] c[j].0 != dir
        } else {
            0
        };
        assert(c[m].1 == i);
        assert(filed_from(configs, key)[m].1 == i);
        let k = lemma_filed_from_source(configs, key, m);
        assert(usable_info(configs[k]) == Some(i));
    }
}

} // verus!
