//! Cocos `.plist` configs: the XML form (read line by line after the tags are put on
//! lines of their own) and the JSON form, both giving the frames of a texture.
use vstd::prelude::*;
use crate::text::{
    chars_of, find, find_index, has_sub, i32_of, lemma_find_from, occurs_at, parse_i32_trimmed,
    parse_u32_trimmed, replace, replaced, slice_vec, split_exec, split_on, split_once,
    split_once_exec, strip_prefix, strip_prefix_exec, strip_suffix, strip_suffix_exec, trim,
    trimmed, u32_of, views, contains, chars_eq,
};
use crate::json::{JsonValue, json_bool, json_get, json_get_opt, json_i64, json_str};

verus! {

// ---------------------------------------------------------------------------
// XML values
// ---------------------------------------------------------------------------

/// The text between the first `open` tag of `v` and the first `close` tag after it.
pub open spec fn between(v: Seq<char>, open: Seq<char>, close: Seq<char>) -> Option<Seq<char>> {
    match find_index(v, open) {
        Some(a) => {
            let rest = v.skip(a + open.len());
            match find_index(rest, close) {
                Some(e) => Some(rest.take(e)),
                None => None,
            }
        },
        None => None,
    }
}

/// The text between `open` and `close` tags.
pub fn between_exec(v: &[char], open: &[char], close: &[char]) -> (r: Option<Vec<char>>)
    ensures
        match r {
            Some(t) => between(v@, open@, close@) == Some(t@),
            None => between(v@, open@, close@) is None,
        },
{
    match find(v, open) {
        Some(a) => {
            proof {
                lemma_find_from(v@, open@, 0);
                assert(occurs_at(v@, open@, a as int));
                assert(a + open.len() <= v.len());
            }
            let rest = slice_vec(v, a + open.len(), v.len());
            assert(rest@ =~= v@.skip(a + open.len()));
            match find(rest.as_slice(), close) {
                Some(e) => {
                    proof {
                        lemma_find_from(rest@, close@, 0);
                        assert(occurs_at(rest@, close@, e as int));
                    }
                    let inner = slice_vec(rest.as_slice(), 0, e);
                    assert(inner@ =~= rest@.take(e as int));
                    Some(inner)
                },
                None => None,
            }
        },
        None => None,
    }
}

/// The trimmed text inside tags, when it is not empty.
pub open spec fn nonempty_trimmed(o: Option<Seq<char>>) -> Option<Seq<char>> {
    match o {
        Some(k) => if trimmed(k).len() == 0 {
            None
        } else {
            Some(trimmed(k))
        },
        None => None,
    }
}

/// The key of a `<key>…</key>` line.
pub open spec fn xml_key(line: Seq<char>) -> Option<Seq<char>> {
    nonempty_trimmed(between(trimmed(line), "<key>"@, "</key>"@))
}

/// The text of a `<string>…</string>` value.
pub open spec fn xml_string(v: Seq<char>) -> Option<Seq<char>> {
    nonempty_trimmed(between(v, "<string>"@, "</string>"@))
}

/// The number of an `<integer>…</integer>` value.
pub open spec fn xml_int(v: Seq<char>) -> Option<i32> {
    match between(v, "<integer>"@, "</integer>"@) {
        Some(k) => i32_of(trimmed(k)),
        None => None,
    }
}

/// An integer value: an `<integer>` element, or else a bare number.
pub open spec fn xml_int_or_plain(v: Seq<char>) -> Option<i32> {
    match xml_int(v) {
        Some(n) => Some(n),
        None => i32_of(trimmed(v)),
    }
}

/// A boolean value: a `<true`/`<false` element, or else a bare `true`/`false`.
pub open spec fn xml_bool(v: Seq<char>) -> Option<bool> {
    let t = trimmed(v);
    if has_sub(t, "<true"@) {
        Some(true)
    } else if has_sub(t, "<false"@) {
        Some(false)
    } else if t == "true"@ {
        Some(true)
    } else if t == "false"@ {
        Some(false)
    } else {
        None
    }
}

fn nonempty_trimmed_exec(o: Option<Vec<char>>) -> (r: Option<Vec<char>>)
    ensures
        match r {
            Some(t) => nonempty_trimmed(match o {
                Some(v) => Some(v@),
                None => None,
            }) == Some(t@),
            None => nonempty_trimmed(match o {
                Some(v) => Some(v@),
                None => None,
            }) is None,
        },
{
    match o {
        Some(k) => {
            let t = trim(k.as_slice());
            if t.len() == 0 {
                None
            } else {
                Some(t)
            }
        },
        None => None,
    }
}

/// The key of a `<key>…</key>` line.
pub fn extract_xml_key(line: &[char]) -> (r: Option<Vec<char>>)
    ensures
        match r {
            Some(k) => xml_key(line@) == Some(k@),
            None => xml_key(line@) is None,
        },
{
    let t = trim(line);
    let open = chars_of("<key>");
    let close = chars_of("</key>");
    nonempty_trimmed_exec(between_exec(t.as_slice(), open.as_slice(), close.as_slice()))
}

/// The text of a `<string>…</string>` value.
pub fn extract_xml_string(v: &[char]) -> (r: Option<Vec<char>>)
    ensures
        match r {
            Some(k) => xml_string(v@) == Some(k@),
            None => xml_string(v@) is None,
        },
{
    let open = chars_of("<string>");
    let close = chars_of("</string>");
    nonempty_trimmed_exec(between_exec(v, open.as_slice(), close.as_slice()))
}

/// The number of an `<integer>…</integer>` value.
pub fn extract_xml_int(v: &[char]) -> (r: Option<i32>)
    ensures
        r == xml_int(v@),
{
    let open = chars_of("<integer>");
    let close = chars_of("</integer>");
    match between_exec(v, open.as_slice(), close.as_slice()) {
        Some(k) => parse_i32_trimmed(k.as_slice()),
        None => None,
    }
}

/// An integer value: an `<integer>` element, or else a bare number.
pub fn parse_xml_int(v: &[char]) -> (r: Option<i32>)
    ensures
        r == xml_int_or_plain(v@),
{
    match extract_xml_int(v) {
        Some(n) => Some(n),
        None => parse_i32_trimmed(v),
    }
}

/// A boolean value: a `<true`/`<false` element, or else a bare `true`/`false`.
pub fn parse_xml_bool(v: &[char]) -> (r: Option<bool>)
    ensures
        r == xml_bool(v@),
{
    let t = trim(v);
    if contains(t.as_slice(), chars_of("<true").as_slice()) {
        return Some(true);
    }
    if contains(t.as_slice(), chars_of("<false").as_slice()) {
        return Some(false);
    }
    if chars_eq(t.as_slice(), chars_of("true").as_slice()) {
        Some(true)
    } else if chars_eq(t.as_slice(), chars_of("false").as_slice()) {
        Some(false)
    } else {
        None
    }
}


// ---------------------------------------------------------------------------
// Rectangles and sizes in braces
// ---------------------------------------------------------------------------

/// The four numbers of `{{x,y},{w,h}}` (spaces around the middle comma allowed), or of
/// `{x,y,w,h,...}`.
pub open spec fn rect_braces(value: Seq<char>) -> Option<(i32, i32, i32, i32)> {
    let n = replaced(
        replaced(replaced(trimmed(value), "} , {"@, "},{"@), "}, {"@, "},{"@),
        "} ,{"@,
        "},{"@,
    );
    let nested = match strip_prefix(n, "{{"@) {
        Some(a) => strip_suffix(a, "}}"@),
        None => None,
    };
    match nested {
        Some(inner) => match split_once(inner, "},{"@) {
            Some((pos, size)) => match (split_once(pos, ","@), split_once(size, ","@)) {
                (Some((x, y)), Some((w, h))) => match (
                    i32_of(trimmed(x)),
                    i32_of(trimmed(y)),
                    i32_of(trimmed(w)),
                    i32_of(trimmed(h)),
                ) {
                    (Some(a), Some(b), Some(c), Some(d)) => Some((a, b, c, d)),
                    _ => None,
                },
                _ => None,
            },
            None => None,
        },
        None => {
            let flat = match strip_prefix(n, "{"@) {
                Some(a) => strip_suffix(a, "}"@),
                None => None,
            };
            match flat {
                Some(inner) => {
                    let parts = split_on(inner, ',');
                    if parts.len() >= 4 {
                        match (
                            i32_of(trimmed(parts[0])),
                            i32_of(trimmed(parts[1])),
                            i32_of(trimmed(parts[2])),
                            i32_of(trimmed(parts[3])),
                        ) {
                            (Some(a), Some(b), Some(c), Some(d)) => Some((a, b, c, d)),
                            _ => None,
                        }
                    } else {
                        None
                    }
                },
                None => None,
            }
        },
    }
}

/// The two numbers of `{w,h}`.
pub open spec fn size_braces(value: Seq<char>) -> Option<(u32, u32)> {
    let inner = match strip_prefix(trimmed(value), "{"@) {
        Some(a) => strip_suffix(a, "}"@),
        None => None,
    };
    match inner {
        Some(i) => match split_once(i, ","@) {
            Some((w, h)) => match (u32_of(trimmed(w)), u32_of(trimmed(h))) {
                (Some(a), Some(b)) => Some((a, b)),
                _ => None,
            },
            None => None,
        },
        None => None,
    }
}

fn strip_both(s: &[char], p: &[char], q: &[char]) -> (r: Option<Vec<char>>)
    ensures
        match r {
            Some(v) => (match strip_prefix(s@, p@) {
                Some(a) => strip_suffix(a, q@),
                None => None,
            }) == Some(v@),
            None => (match strip_prefix(s@, p@) {
                Some(a) => strip_suffix(a, q@),
                None => None,
            }) is None,
        },
{
    match strip_prefix_exec(s, p) {
        Some(a) => strip_suffix_exec(a.as_slice(), q),
        None => None,
    }
}

/// Parses `{{x,y},{w,h}}` or `{x,y,w,h}`.
pub fn parse_rect_braces(value: &[char]) -> (r: Option<(i32, i32, i32, i32)>)
    ensures
        r == rect_braces(value@),
{
    let t = trim(value);
    let target = chars_of("},{");
    let n1 = replace(t.as_slice(), chars_of("} , {").as_slice(), target.as_slice());
    let n2 = replace(n1.as_slice(), chars_of("}, {").as_slice(), target.as_slice());
    let n = replace(n2.as_slice(), chars_of("} ,{").as_slice(), target.as_slice());
    let comma = chars_of(",");
    match strip_both(n.as_slice(), chars_of("{{").as_slice(), chars_of("}}").as_slice()) {
        Some(inner) => {
            let (pos, size) = match split_once_exec(inner.as_slice(), target.as_slice()) {
                Some(p) => p,
                None => {
                    return None;
                },
            };
            let (x, y) = match split_once_exec(pos.as_slice(), comma.as_slice()) {
                Some(p) => p,
                None => {
                    return None;
                },
            };
            let (w, h) = match split_once_exec(size.as_slice(), comma.as_slice()) {
                Some(p) => p,
                None => {
                    return None;
                },
            };
            let a = parse_i32_trimmed(x.as_slice());
            let b = parse_i32_trimmed(y.as_slice());
            let c = parse_i32_trimmed(w.as_slice());
            let d = parse_i32_trimmed(h.as_slice());
            match (a, b, c, d) {
                (Some(a), Some(b), Some(c), Some(d)) => Some((a, b, c, d)),
                _ => None,
            }
        },
        None => {
            match strip_both(n.as_slice(), chars_of("{").as_slice(), chars_of("}").as_slice()) {
                Some(inner) => {
                    let parts = split_exec(inner.as_slice(), ',');
                    assert(views(parts@).len() == parts@.len());
                    if parts.len() >= 4 {
                        assert(parts@[0]@ == split_on(inner@, ',')[0]);
                        assert(parts@[1]@ == split_on(inner@, ',')[1]);
                        assert(parts@[2]@ == split_on(inner@, ',')[2]);
                        assert(parts@[3]@ == split_on(inner@, ',')[3]);
                        let a = parse_i32_trimmed(parts[0].as_slice());
                        let b = parse_i32_trimmed(parts[1].as_slice());
                        let c = parse_i32_trimmed(parts[2].as_slice());
                        let d = parse_i32_trimmed(parts[3].as_slice());
                        match (a, b, c, d) {
                            (Some(a), Some(b), Some(c), Some(d)) => Some((a, b, c, d)),
                            _ => None,
                        }
                    } else {
                        None
                    }
                },
                None => None,
            }
        },
    }
}

/// Parses `{w,h}`.
pub fn parse_size_braces(value: &[char]) -> (r: Option<(u32, u32)>)
    ensures
        r == size_braces(value@),
{
    let t = trim(value);
    match strip_both(t.as_slice(), chars_of("{").as_slice(), chars_of("}").as_slice()) {
        Some(inner) => match split_once_exec(inner.as_slice(), chars_of(",").as_slice()) {
            Some((w, h)) => {
                let a = parse_u32_trimmed(w.as_slice());
                let b = parse_u32_trimmed(h.as_slice());
                match (a, b) {
                    (Some(a), Some(b)) => Some((a, b)),
                    _ => None,
                }
            },
            None => None,
        },
        None => None,
    }
}

// ---------------------------------------------------------------------------
// Frames
// ---------------------------------------------------------------------------

/// What the entries of one plist frame have said so far.
#[derive(Clone, Copy)]
pub struct FrameDraft {
    pub x: i32,
    pub y: i32,
    pub w: i32,
    pub h: i32,
    pub rotated: bool,
    pub has_frame: bool,
    pub has_texture_rect: bool,
}

/// A draft with nothing said yet.
pub open spec fn empty_draft() -> FrameDraft {
    FrameDraft {
        x: 0,
        y: 0,
        w: 0,
        h: 0,
        rotated: false,
        has_frame: false,
        has_texture_rect: false,
    }
}

/// A draft with a whole rectangle set, from a `textureRect` or from a `frame`.
pub open spec fn with_rect(
    d: FrameDraft,
    r: (i32, i32, i32, i32),
    from_texture_rect: bool,
) -> FrameDraft {
    FrameDraft {
        x: r.0,
        y: r.1,
        w: r.2,
        h: r.3,
        has_texture_rect: if from_texture_rect { true } else { d.has_texture_rect },
        has_frame: if from_texture_rect { d.has_frame } else { true },
        ..d
    }
}

/// The effect of one `key`/value entry of an XML frame dictionary on a draft.
pub open spec fn apply_entry(d: FrameDraft, key: Seq<char>, val: Seq<char>) -> FrameDraft {
    if key == "frame"@ || key == "textureRect"@ {
        match xml_string(val) {
            Some(s) => match rect_braces(s) {
                Some(r) => with_rect(d, r, key == "textureRect"@),
                None => d,
            },
            None => d,
        }
    } else if key == "x"@ || key == "y"@ || key == "width"@ || key == "height"@ {
        match xml_int_or_plain(val) {
            Some(v) => if key == "x"@ {
                FrameDraft { x: v, has_frame: true, ..d }
            } else if key == "y"@ {
                FrameDraft { y: v, has_frame: true, ..d }
            } else if key == "width"@ {
                FrameDraft { w: v, has_frame: true, ..d }
            } else {
                FrameDraft { h: v, has_frame: true, ..d }
            },
            None => d,
        }
    } else if key == "rotated"@ || key == "textureRotated"@ {
        match xml_bool(val) {
            Some(b) => FrameDraft { rotated: b, ..d },
            None => d,
        }
    } else {
        d
    }
}

/// The region of a finished draft, if its rectangle is usable. The rectangle counts as a
/// `frame` only when no `textureRect` came and the format is at most 2.
pub open spec fn draft_region(
    d: FrameDraft,
    name: Seq<char>,
    plist_format: i32,
    texture_height: Option<u32>,
) -> Option<crate::atlas::RegionView> {
    let from_frame = d.has_frame && !d.has_texture_rect && plist_format <= 2;
    crate::atlas::plist_region(
        name,
        d.x,
        d.y,
        d.w,
        d.h,
        d.rotated,
        plist_format,
        from_frame,
        texture_height,
    )
}

impl FrameDraft {
    pub fn new() -> (d: FrameDraft)
        ensures
            d == empty_draft(),
    {
        FrameDraft {
            x: 0,
            y: 0,
            w: 0,
            h: 0,
            rotated: false,
            has_frame: false,
            has_texture_rect: false,
        }
    }

    pub fn set_rect(&mut self, x: i32, y: i32, w: i32, h: i32, from_texture_rect: bool)
        ensures
            *final(self) == with_rect(*old(self), (x, y, w, h), from_texture_rect),
    {
        self.x = x;
        self.y = y;
        self.w = w;
        self.h = h;
        if from_texture_rect {
            self.has_texture_rect = true;
        } else {
            self.has_frame = true;
        }
    }

    pub fn apply_key(&mut self, key: &[char], val: &[char])
        ensures
            *final(self) == apply_entry(*old(self), key@, val@),
    {
        let is_frame = chars_eq(key, chars_of("frame").as_slice());
        let is_texture_rect = chars_eq(key, chars_of("textureRect").as_slice());
        if is_frame || is_texture_rect {
            if let Some(s) = extract_xml_string(val) {
                if let Some((x, y, w, h)) = parse_rect_braces(s.as_slice()) {
                    self.set_rect(x, y, w, h, is_texture_rect);
                }
            }
            return ;
        }
        let is_x = chars_eq(key, chars_of("x").as_slice());
        let is_y = chars_eq(key, chars_of("y").as_slice());
        let is_w = chars_eq(key, chars_of("width").as_slice());
        let is_h = chars_eq(key, chars_of("height").as_slice());
        if is_x || is_y || is_w || is_h {
            if let Some(v) = parse_xml_int(val) {
                if is_x {
                    self.x = v;
                } else if is_y {
                    self.y = v;
                } else if is_w {
                    self.w = v;
                } else {
                    self.h = v;
                }
                self.has_frame = true;
            }
            return ;
        }
        let is_rot = chars_eq(key, chars_of("rotated").as_slice());
        let is_trot = chars_eq(key, chars_of("textureRotated").as_slice());
        if is_rot || is_trot {
            if let Some(v) = parse_xml_bool(val) {
                self.rotated = v;
            }
        }
    }

    pub fn into_region(self, name: String, plist_format: i32, texture_height: Option<u32>) -> (r:
        Option<crate::atlas::AtlasRegion>)
        ensures
            match r {
                Some(reg) => draft_region(self, name@, plist_format, texture_height) == Some(reg@),
                None => draft_region(self, name@, plist_format, texture_height) is None,
            },
    {
        let from_frame = self.has_frame && !self.has_texture_rect && plist_format <= 2;
        crate::atlas::build_plist_region(
            name,
            self.x,
            self.y,
            self.w,
            self.h,
            self.rotated,
            plist_format,
            from_frame,
            texture_height,
        )
    }
}


// ---------------------------------------------------------------------------
// XML layout
// ---------------------------------------------------------------------------

/// An ASCII white-space character (`char::is_ascii_whitespace`).
pub open spec fn ascii_ws(c: char) -> bool {
    c == ' ' || c == '\t' || c == '\n' || c == '\x0C' || c == '\r'
}

/// The first index at or after `i` that does not hold ASCII white space, or the length.
pub open spec fn skip_ascii_ws(s: Seq<char>, i: int) -> int
    decreases s.len() - i,
{
    if i < 0 || i >= s.len() {
        s.len() as int
    } else if ascii_ws(s[i]) {
        skip_ascii_ws(s, i + 1)
    } else {
        i
    }
}

pub proof fn lemma_skip_ascii_ws(s: Seq<char>, i: int)
    requires
        0 <= i <= s.len(),
    ensures
        i <= skip_ascii_ws(s, i) <= s.len(),
    decreases s.len() - i,
{
    if i < s.len() && ascii_ws(s[i]) {
        lemma_skip_ascii_ws(s, i + 1);
    }
}

/// The text from index `i` on, every character kept, with the white space after every
/// `>` dropped and a line break put between `>` and a following `<`.
pub open spec fn normalized_from(s: Seq<char>, i: int) -> Seq<char>
    decreases s.len() - i,
{
    if i < 0 || i >= s.len() {
        seq![]
    } else if s[i] == '>' {
        let j = skip_ascii_ws(s, i + 1);
        let brk = if j < s.len() && s[j] == '<' {
            seq!['\n']
        } else {
            seq![]
        };
        proof {
            lemma_skip_ascii_ws(s, i + 1);
        }
        seq!['>'] + brk + normalized_from(s, j)
    } else {
        seq![s[i]] + normalized_from(s, i + 1)
    }
}

/// The characters of a text that are not white space (`char::is_whitespace`).
pub open spec fn visible_chars(s: Seq<char>) -> Seq<char> {
    s.filter(|c: char| !crate::text::white_space(c))
}

proof fn lemma_visible_single(c: char)
    ensures
        visible_chars(seq![c]) == (if crate::text::white_space(c) {
            Seq::<char>::empty()
        } else {
            seq![c]
        }),
{
    reveal_with_fuel(Seq::<char>::filter, 2);
    assert(seq![c].drop_last() =~= Seq::<char>::empty());
    if !crate::text::white_space(c) {
        assert(Seq::<char>::empty().push(c) =~= seq![c]);
    }
}

proof fn lemma_visible_blank(s: Seq<char>, a: int, b: int)
    requires
        0 <= a <= b <= s.len(),
        forall|k: int| a <= k < b ==> ascii_ws(#[trigger] s[k]),
    ensures
        visible_chars(s.subrange(a, b)) == Seq::<char>::empty(),
    decreases b - a,
{
    if a < b {
        lemma_visible_blank(s, a + 1, b);
        assert(s.subrange(a, b) =~= seq![s[a]] + s.subrange(a + 1, b));
        Seq::filter_distributes_over_add(
            seq![s[a]],
            s.subrange(a + 1, b),
            |c: char| !crate::text::white_space(c),
        );
        lemma_visible_single(s[a]);
    } else {
        assert(s.subrange(a, b) =~= Seq::<char>::empty());
        reveal_with_fuel(Seq::<char>::filter, 1);
    }
}

proof fn lemma_skip_ascii_ws_blank(s: Seq<char>, i: int, k: int)
    requires
        0 <= i <= k < skip_ascii_ws(s, i),
    ensures
        ascii_ws(s[k]),
    decreases s.len() - i,
{
    if i < s.len() && ascii_ws(s[i]) && k > i {
        lemma_skip_ascii_ws_blank(s, i + 1, k);
    }
}

proof fn lemma_normalized_visible(s: Seq<char>, i: int)
    requires
        0 <= i <= s.len(),
    ensures
        visible_chars(normalized_from(s, i)) == visible_chars(s.skip(i)),
    decreases s.len() - i,
{
    let p = |c: char| !crate::text::white_space(c);
    if i == s.len() {
        assert(s.skip(i) =~= Seq::<char>::empty());
        reveal_with_fuel(Seq::<char>::filter, 1);
    } else if s[i] == '>' {
        let j = skip_ascii_ws(s, i + 1);
        lemma_skip_ascii_ws(s, i + 1);
        lemma_normalized_visible(s, j);
        let brk = if j < s.len() && s[j] == '<' {
            seq!['\n']
        } else {
            seq![]
        };
        Seq::filter_distributes_over_add(seq!['>'] + brk, normalized_from(s, j), p);
        Seq::filter_distributes_over_add(seq!['>'], brk, p);
        lemma_visible_single('>');
        if j < s.len() && s[j] == '<' {
            lemma_visible_single('\n');
        } else {
            reveal_with_fuel(Seq::<char>::filter, 1);
        }
        assert forall|k: int| i + 1 <= k < j implies ascii_ws(#[trigger] s[k]) by {
            lemma_skip_ascii_ws_blank(s, i + 1, k);
        }
        lemma_visible_blank(s, i + 1, j);
        assert(s.skip(i) =~= seq![s[i]] + s.subrange(i + 1, j) + s.skip(j));
        Seq::filter_distributes_over_add(seq![s[i]] + s.subrange(i + 1, j), s.skip(j), p);
        Seq::filter_distributes_over_add(seq![s[i]], s.subrange(i + 1, j), p);
        assert(visible_chars(seq![s[i]] + s.subrange(i + 1, j)) =~= seq!['>']);
        assert(visible_chars(seq!['>'] + brk) =~= seq!['>']);
    } else {
        lemma_normalized_visible(s, i + 1);
        assert(s.skip(i) =~= seq![s[i]] + s.skip(i + 1));
        Seq::filter_distributes_over_add(seq![s[i]], s.skip(i + 1), p);
        Seq::filter_distributes_over_add(seq![s[i]], normalized_from(s, i + 1), p);
    }
}

/// Laying out the XML drops or inserts only white space: every other character of the
/// text, whatever its script, comes through unchanged and in order.
pub proof fn law_normalize_keeps_visible_chars(content: Seq<char>)
    ensures
        visible_chars(normalized_from(content, 0)) == visible_chars(content),
{
    lemma_normalized_visible(content, 0);
    assert(content.skip(0) =~= content);
}

/// Puts each XML tag that follows a `>` on a line of its own.
pub fn normalize_plist_xml(content: &str) -> (r: Vec<char>)
    ensures
        r@ == normalized_from(content@, 0),
{
    let cs = chars_of(content);
    let mut out: Vec<char> = Vec::new();
    let mut i: usize = 0;
    while i < cs.len()
        invariant
            i <= cs.len(),
            cs@ == content@,
            out@ + normalized_from(cs@, i as int) == normalized_from(cs@, 0),
        decreases cs.len() - i,
    {
        let ghost before = out@;
        if cs[i] == '>' {
            out.push('>');
            let mut j = i + 1;
            while j < cs.len() && (cs[j] == ' ' || cs[j] == '\t' || cs[j] == '\n' || cs[j]
                == '\x0C' || cs[j] == '\r')
                invariant
                    i < j <= cs.len(),
                    skip_ascii_ws(cs@, i + 1) == skip_ascii_ws(cs@, j as int),
                decreases cs.len() - j,
            {
                j = j + 1;
            }
            if j < cs.len() && cs[j] == '<' {
                out.push('\n');
            }
            assert(out@ + normalized_from(cs@, j as int) =~= before + normalized_from(
                cs@,
                i as int,
            ));
            i = j;
        } else {
            out.push(cs[i]);
            assert(out@ + normalized_from(cs@, i + 1) =~= before + normalized_from(
                cs@,
                i as int,
            ));
            i = i + 1;
        }
    }
    assert(out@ + normalized_from(cs@, i as int) =~= out@);
    out
}

// ---------------------------------------------------------------------------
// Metadata
// ---------------------------------------------------------------------------

/// The first `<integer>` among the trimmed lines `k..end`.
pub open spec fn look_int(lines: Seq<Seq<char>>, k: int, end: int) -> Option<i32>
    decreases lines.len() - k,
{
    if k < 0 || k >= end || k >= lines.len() {
        None
    } else {
        match xml_int(trimmed(lines[k])) {
            Some(v) => Some(v),
            None => look_int(lines, k + 1, end),
        }
    }
}

/// The first `<string>` among the trimmed lines `k..end`.
pub open spec fn look_string(lines: Seq<Seq<char>>, k: int, end: int) -> Option<Seq<char>>
    decreases lines.len() - k,
{
    if k < 0 || k >= end || k >= lines.len() {
        None
    } else {
        match xml_string(trimmed(lines[k])) {
            Some(v) => Some(v),
            None => look_string(lines, k + 1, end),
        }
    }
}

/// What the metadata lines say: the plist format, the texture file name and the texture
/// size.
pub struct MetaView {
    pub format: i32,
    pub texture_file_name: Option<Seq<char>>,
    pub width: Option<u32>,
    pub height: Option<u32>,
}

/// Metadata as it stands before any line is read: format 3, nothing else known.
pub open spec fn initial_meta() -> MetaView {
    MetaView { format: 3, texture_file_name: None, width: None, height: None }
}

/// The metadata after reading line `i` (a key line takes its value from the same line, or
/// else from the next two lines for `format` and the next three for the others).
pub open spec fn meta_step(lines: Seq<Seq<char>>, i: int, m: MetaView) -> MetaView {
    let t = trimmed(lines[i]);
    let format = if has_sub(t, "<key>format</key>"@) {
        match xml_int(t) {
            Some(v) => v,
            None => match look_int(lines, i + 1, i + 3) {
                Some(v) => v,
                None => m.format,
            },
        }
    } else {
        m.format
    };
    let texture_file_name = if has_sub(t, "<key>textureFileName</key>"@) || has_sub(
        t,
        "<key>realTextureFileName</key>"@,
    ) {
        match xml_string(t) {
            Some(v) => Some(v),
            None => match look_string(lines, i + 1, i + 4) {
                Some(v) => Some(v),
                None => m.texture_file_name,
            },
        }
    } else {
        m.texture_file_name
    };
    let size = if has_sub(t, "<key>size</key>"@) {
        let s = match xml_string(t) {
            Some(v) => Some(v),
            None => look_string(lines, i + 1, i + 4),
        };
        match s {
            Some(s) => size_braces(s),
            None => None,
        }
    } else {
        None
    };
    match size {
        Some((w, h)) => MetaView { format, texture_file_name, width: Some(w), height: Some(h) },
        None => MetaView { format, texture_file_name, ..m },
    }
}

/// The metadata after reading the lines from `i` on.
pub open spec fn meta_from(lines: Seq<Seq<char>>, i: int, m: MetaView) -> MetaView
    decreases lines.len() - i,
{
    if i < 0 || i >= lines.len() {
        m
    } else {
        meta_from(lines, i + 1, meta_step(lines, i, m))
    }
}

/// The metadata of a normalized plist.
pub open spec fn plist_meta(content: Seq<char>) -> MetaView {
    meta_from(crate::text::text_lines(content), 0, initial_meta())
}

fn look_int_exec(lines: &Vec<Vec<char>>, k: usize, n: usize) -> (r: Option<i32>)
    ensures
        r == look_int(views(lines@), k as int, k + n),
{
    let ghost lv = views(lines@);
    let mut j = k;
    while j - k < n && j < lines.len()
        invariant
            k <= j,
            lv == views(lines@),
            look_int(lv, k as int, k + n) == look_int(lv, j as int, k + n),
        decreases lines.len() - j,
    {
        let t = trim(lines[j].as_slice());
        if let Some(v) = extract_xml_int(t.as_slice()) {
            return Some(v);
        }
        j = j + 1;
    }
    None
}

fn look_string_exec(lines: &Vec<Vec<char>>, k: usize, n: usize) -> (r: Option<Vec<char>>)
    ensures
        match r {
            Some(v) => look_string(views(lines@), k as int, k + n) == Some(v@),
            None => look_string(views(lines@), k as int, k + n) is None,
        },
{
    let ghost lv = views(lines@);
    let mut j = k;
    while j - k < n && j < lines.len()
        invariant
            k <= j,
            lv == views(lines@),
            look_string(lv, k as int, k + n) == look_string(lv, j as int, k + n),
        decreases lines.len() - j,
    {
        let t = trim(lines[j].as_slice());
        if let Some(v) = extract_xml_string(t.as_slice()) {
            return Some(v);
        }
        j = j + 1;
    }
    None
}

/// The view of an optional character vector.
pub open spec fn opt_chars(o: Option<Vec<char>>) -> Option<Seq<char>> {
    match o {
        Some(v) => Some(v@),
        None => None,
    }
}

/// Reads the format, texture file name and texture size from the lines of a normalized plist.
pub fn plist_metadata(content: &[char]) -> (r: (i32, Option<Vec<char>>, Option<u32>, Option<u32>))
    ensures
        ({
            let m = plist_meta(content@);
            &&& r.0 == m.format
            &&& opt_chars(r.1) == m.texture_file_name
            &&& r.2 == m.width
            &&& r.3 == m.height
        }),
{
    let lines = crate::text::lines(content);
    let ghost lv = views(lines@);
    let mut format: i32 = 3;
    let mut texture_file_name: Option<Vec<char>> = None;
    let mut texture_width: Option<u32> = None;
    let mut texture_height: Option<u32> = None;
    let mut i: usize = 0;
    let key_format = chars_of("<key>format</key>");
    let key_tex = chars_of("<key>textureFileName</key>");
    let key_real = chars_of("<key>realTextureFileName</key>");
    let key_size = chars_of("<key>size</key>");
    while i < lines.len()
        invariant
            i <= lines.len(),
            lv == views(lines@),
            lv == crate::text::text_lines(content@),
            key_format@ == "<key>format</key>"@,
            key_tex@ == "<key>textureFileName</key>"@,
            key_real@ == "<key>realTextureFileName</key>"@,
            key_size@ == "<key>size</key>"@,
            meta_from(
                lv,
                i as int,
                MetaView {
                    format,
                    texture_file_name: opt_chars(texture_file_name),
                    width: texture_width,
                    height: texture_height,
                },
            ) == plist_meta(content@),
        decreases lines.len() - i,
    {
        let t = trim(lines[i].as_slice());
        let ghost m = MetaView {
            format,
            texture_file_name: opt_chars(texture_file_name),
            width: texture_width,
            height: texture_height,
        };
        if contains(t.as_slice(), key_format.as_slice()) {
            if let Some(v) = extract_xml_int(t.as_slice()) {
                format = v;
            } else if let Some(v) = look_int_exec(&lines, i + 1, 2) {
                format = v;
            }
        }
        if contains(t.as_slice(), key_tex.as_slice()) || contains(t.as_slice(), key_real.as_slice()) {
            if let Some(v) = extract_xml_string(t.as_slice()) {
                texture_file_name = Some(v);
            } else if let Some(v) = look_string_exec(&lines, i + 1, 3) {
                texture_file_name = Some(v);
            }
        }
        if contains(t.as_slice(), key_size.as_slice()) {
            let size_str = match extract_xml_string(t.as_slice()) {
                Some(v) => Some(v),
                None => look_string_exec(&lines, i + 1, 3),
            };
            if let Some(s) = size_str {
                if let Some((w, h)) = parse_size_braces(s.as_slice()) {
                    texture_width = Some(w);
                    texture_height = Some(h);
                }
            }
        }
        assert(MetaView {
            format,
            texture_file_name: opt_chars(texture_file_name),
            width: texture_width,
            height: texture_height,
        } == meta_step(lv, i as int, m));
        i = i + 1;
    }
    (format, texture_file_name, texture_width, texture_height)
}


// ---------------------------------------------------------------------------
// Frames of an XML plist
// ---------------------------------------------------------------------------

/// The first line at or after `i` that holds `<dict>`, or the number of lines.
pub open spec fn next_dict(lines: Seq<Seq<char>>, i: int) -> int
    decreases lines.len() - i,
{
    if i < 0 || i >= lines.len() {
        lines.len() as int
    } else if has_sub(lines[i], "<dict>"@) {
        i
    } else {
        next_dict(lines, i + 1)
    }
}

/// The first line at or after `i` that holds `<dict>` or is a closing `</dict>`, or the
/// number of lines.
pub open spec fn seek_frame_dict(lines: Seq<Seq<char>>, i: int) -> int
    decreases lines.len() - i,
{
    if i < 0 || i >= lines.len() {
        lines.len() as int
    } else if has_sub(lines[i], "<dict>"@) || trimmed(lines[i]) == "</dict>"@ {
        i
    } else {
        seek_frame_dict(lines, i + 1)
    }
}

pub proof fn lemma_next_dict(lines: Seq<Seq<char>>, i: int)
    requires
        0 <= i <= lines.len(),
    ensures
        i <= next_dict(lines, i) <= lines.len(),
    decreases lines.len() - i,
{
    if i < lines.len() && !has_sub(lines[i], "<dict>"@) {
        lemma_next_dict(lines, i + 1);
    }
}

pub proof fn lemma_seek_frame_dict(lines: Seq<Seq<char>>, i: int)
    requires
        0 <= i <= lines.len(),
    ensures
        i <= seek_frame_dict(lines, i) <= lines.len(),
    decreases lines.len() - i,
{
    if i < lines.len() && !(has_sub(lines[i], "<dict>"@) || trimmed(lines[i]) == "</dict>"@) {
        lemma_seek_frame_dict(lines, i + 1);
    }
}

/// A property line whose value stands on the same line.
pub open spec fn value_on_same_line(p: Seq<char>) -> bool {
    has_sub(p, "</string>"@) || has_sub(p, "<integer>"@) || has_sub(p, "<true"@) || has_sub(
        p,
        "<false"@,
    )
}

/// The draft after reading a frame's properties from line `i` on, up to and including the
/// closing `</dict>`, and the line after them. A key takes its value from its own line when
/// it stands there, else from the next line.
pub open spec fn frame_props(lines: Seq<Seq<char>>, i: int, d: FrameDraft) -> (FrameDraft, int)
    decreases lines.len() - i,
{
    if i < 0 || i >= lines.len() {
        (d, lines.len() as int)
    } else {
        let p = trimmed(lines[i]);
        if p == "</dict>"@ {
            (d, i + 1)
        } else {
            match xml_key(p) {
                Some(key) => if value_on_same_line(p) {
                    frame_props(lines, i + 1, apply_entry(d, key, p))
                } else if i + 1 < lines.len() {
                    frame_props(lines, i + 2, apply_entry(d, key, trimmed(lines[i + 1])))
                } else {
                    (d, lines.len() as int)
                },
                None => frame_props(lines, i + 1, d),
            }
        }
    }
}

pub proof fn lemma_frame_props(lines: Seq<Seq<char>>, i: int, d: FrameDraft)
    requires
        0 <= i < lines.len(),
    ensures
        i < frame_props(lines, i, d).1 <= lines.len(),
    decreases lines.len() - i,
{
    let p = trimmed(lines[i]);
    if p != "</dict>"@ {
        match xml_key(p) {
            Some(key) => if value_on_same_line(p) {
                if i + 1 < lines.len() {
                    lemma_frame_props(lines, i + 1, apply_entry(d, key, p));
                }
            } else if i + 2 < lines.len() {
                lemma_frame_props(lines, i + 2, apply_entry(d, key, trimmed(lines[i + 1])));
            },
            None => if i + 1 < lines.len() {
                lemma_frame_props(lines, i + 1, d);
            },
        }
    }
}

/// The regions of the frames listed from line `i` on: each `<key>` names a frame whose
/// `<dict>` follows (on the same line or later); the listing ends at a `metadata` key.
pub open spec fn frames_from(
    lines: Seq<Seq<char>>,
    i: int,
    plist_format: i32,
    texture_height: Option<u32>,
) -> Seq<crate::atlas::RegionView>
    decreases lines.len() - i,
{
    if i < 0 || i >= lines.len() {
        seq![]
    } else {
        let t = trimmed(lines[i]);
        if t == "</dict>"@ || t == "<dict>"@ {
            frames_from(lines, i + 1, plist_format, texture_height)
        } else {
            match xml_key(t) {
                None => frames_from(lines, i + 1, plist_format, texture_height),
                Some(name) => if name == "metadata"@ {
                    seq![]
                } else {
                    let j = seek_frame_dict(lines, i + 1);
                    let start = if has_sub(t, "<dict>"@) {
                        i + 1
                    } else {
                        j + 1
                    };
                    proof {
                        lemma_seek_frame_dict(lines, i + 1);
                    }
                    if !has_sub(t, "<dict>"@) && (j >= lines.len() || !has_sub(
                        lines[j],
                        "<dict>"@,
                    )) {
                        frames_from(lines, j, plist_format, texture_height)
                    } else if start >= lines.len() {
                        let region = draft_region(empty_draft(), name, plist_format, texture_height);
                        match region {
                            Some(r) => seq![r],
                            None => seq![],
                        }
                    } else {
                        let (d, next) = frame_props(lines, start, empty_draft());
                        proof {
                            lemma_frame_props(lines, start, empty_draft());
                        }
                        let here = match draft_region(d, name, plist_format, texture_height) {
                            Some(r) => seq![r],
                            None => seq![],
                        };
                        here + frames_from(lines, next, plist_format, texture_height)
                    }
                },
            }
        }
    }
}

/// The first line whose trimmed text holds a `frames` or `frames2` key.
pub open spec fn frames_key_line(lines: Seq<Seq<char>>, k: int) -> Option<int>
    decreases lines.len() - k,
{
    if k < 0 || k >= lines.len() {
        None
    } else if has_sub(trimmed(lines[k]), "<key>frames</key>"@) || has_sub(
        trimmed(lines[k]),
        "<key>frames2</key>"@,
    ) {
        Some(k)
    } else {
        frames_key_line(lines, k + 1)
    }
}

/// The regions of the frames of a normalized XML plist.
pub open spec fn plist_frames(
    content: Seq<char>,
    plist_format: i32,
    texture_height: Option<u32>,
) -> Seq<crate::atlas::RegionView> {
    let lines = crate::text::text_lines(content);
    match frames_key_line(lines, 0) {
        None => seq![],
        Some(start) => {
            let i = next_dict(lines, start + 1);
            if i >= lines.len() {
                seq![]
            } else {
                let first = if trimmed(lines[i]) == "<dict>"@ {
                    i + 1
                } else {
                    i
                };
                frames_from(lines, first, plist_format, texture_height)
            }
        },
    }
}


fn next_dict_exec(lines: &Vec<Vec<char>>, i: usize, dict: &Vec<char>) -> (r: usize)
    requires
        i <= lines.len(),
        dict@ == "<dict>"@,
    ensures
        r == next_dict(views(lines@), i as int),
{
    let ghost lv = views(lines@);
    let mut j = i;
    while j < lines.len() && !contains(lines[j].as_slice(), dict.as_slice())
        invariant
            i <= j <= lines.len(),
            lv == views(lines@),
            dict@ == "<dict>"@,
            next_dict(lv, i as int) == next_dict(lv, j as int),
        decreases lines.len() - j,
    {
        j = j + 1;
    }
    j
}

fn seek_frame_dict_exec(lines: &Vec<Vec<char>>, i: usize, dict: &Vec<char>, close: &Vec<char>) -> (r:
    usize)
    requires
        i <= lines.len(),
        dict@ == "<dict>"@,
        close@ == "</dict>"@,
    ensures
        r == seek_frame_dict(views(lines@), i as int),
{
    let ghost lv = views(lines@);
    let mut j = i;
    while j < lines.len()
        invariant
            i <= j <= lines.len(),
            lv == views(lines@),
            dict@ == "<dict>"@,
            close@ == "</dict>"@,
            seek_frame_dict(lv, i as int) == seek_frame_dict(lv, j as int),
        decreases lines.len() - j,
    {
        if contains(lines[j].as_slice(), dict.as_slice()) {
            return j;
        }
        let t = trim(lines[j].as_slice());
        if chars_eq(t.as_slice(), close.as_slice()) {
            return j;
        }
        j = j + 1;
    }
    j
}

fn frame_props_exec(lines: &Vec<Vec<char>>, start: usize, close: &Vec<char>) -> (r: (
    FrameDraft,
    usize,
))
    requires
        start <= lines.len(),
        close@ == "</dict>"@,
    ensures
        (r.0, r.1 as int) == frame_props(views(lines@), start as int, empty_draft()),
{
    let ghost lv = views(lines@);
    let mut d = FrameDraft::new();
    let mut i = start;
    let s_close = chars_of("</string>");
    let s_int = chars_of("<integer>");
    let s_true = chars_of("<true");
    let s_false = chars_of("<false");
    while i < lines.len()
        invariant
            i <= lines.len(),
            lv == views(lines@),
            close@ == "</dict>"@,
            s_close@ == "</string>"@,
            s_int@ == "<integer>"@,
            s_true@ == "<true"@,
            s_false@ == "<false"@,
            frame_props(lv, i as int, d) == frame_props(lv, start as int, empty_draft()),
        decreases lines.len() - i,
    {
        let p = trim(lines[i].as_slice());
        if chars_eq(p.as_slice(), close.as_slice()) {
            return (d, i + 1);
        }
        match extract_xml_key(p.as_slice()) {
            Some(key) => {
                let same_line = contains(p.as_slice(), s_close.as_slice()) || contains(
                    p.as_slice(),
                    s_int.as_slice(),
                ) || contains(p.as_slice(), s_true.as_slice()) || contains(
                    p.as_slice(),
                    s_false.as_slice(),
                );
                if same_line {
                    d.apply_key(key.as_slice(), p.as_slice());
                    i = i + 1;
                } else if i + 1 < lines.len() {
                    let v = trim(lines[i + 1].as_slice());
                    d.apply_key(key.as_slice(), v.as_slice());
                    i = i + 2;
                } else {
                    return (d, lines.len());
                }
            },
            None => {
                i = i + 1;
            },
        }
    }
    (d, lines.len())
}

/// The regions of the frames of a normalized XML plist.
pub fn parse_plist_xml_frames(content: &[char], plist_format: i32, texture_height: Option<u32>) -> (r:
    Vec<crate::atlas::AtlasRegion>)
    ensures
        crate::atlas::region_views(r@) == plist_frames(content@, plist_format, texture_height),
{
    let lines = crate::text::lines(content);
    let ghost lv = views(lines@);
    let ghost target = plist_frames(content@, plist_format, texture_height);
    let k_frames = chars_of("<key>frames</key>");
    let k_frames2 = chars_of("<key>frames2</key>");
    let dict = chars_of("<dict>");
    let close = chars_of("</dict>");
    let k_meta = chars_of("metadata");
    let mut start: usize = 0;
    let mut found = false;
    while start < lines.len() && !found
        invariant
            start <= lines.len(),
            lv == views(lines@),
            k_frames@ == "<key>frames</key>"@,
            k_frames2@ == "<key>frames2</key>"@,
            found ==> start < lines.len() && frames_key_line(lv, 0) == Some(start as int),
            !found ==> frames_key_line(lv, 0) == frames_key_line(lv, start as int),
        decreases lines.len() - start + (if found { 0int } else { 1int }),
    {
        let t = trim(lines[start].as_slice());
        if contains(t.as_slice(), k_frames.as_slice()) || contains(
            t.as_slice(),
            k_frames2.as_slice(),
        ) {
            found = true;
        } else {
            start = start + 1;
        }
    }
    let mut regions: Vec<crate::atlas::AtlasRegion> = Vec::new();
    if !found {
        return regions;
    }
    let mut i = next_dict_exec(&lines, start + 1, &dict);
    if i >= lines.len() {
        return regions;
    }
    let first = trim(lines[i].as_slice());
    if chars_eq(first.as_slice(), dict.as_slice()) {
        i = i + 1;
    }
    assert(target == frames_from(lv, i as int, plist_format, texture_height));
    while i < lines.len()
        invariant
            i <= lines.len(),
            lv == views(lines@),
            lv == crate::text::text_lines(content@),
            dict@ == "<dict>"@,
            close@ == "</dict>"@,
            k_meta@ == "metadata"@,
            target == plist_frames(content@, plist_format, texture_height),
            crate::atlas::region_views(regions@) + frames_from(
                lv,
                i as int,
                plist_format,
                texture_height,
            ) == target,
        decreases lines.len() - i,
    {
        let ghost before = crate::atlas::region_views(regions@);
        let ghost i0 = i as int;
        let t = trim(lines[i].as_slice());
        if chars_eq(t.as_slice(), close.as_slice()) || chars_eq(t.as_slice(), dict.as_slice()) {
            i = i + 1;
            continue;
        }
        let frame_name = match extract_xml_key(t.as_slice()) {
            Some(n) => n,
            None => {
                i = i + 1;
                continue;
            },
        };
        if chars_eq(frame_name.as_slice(), k_meta.as_slice()) {
            assert(frames_from(lv, i0, plist_format, texture_height) =~= Seq::<
                crate::atlas::RegionView,
            >::empty());
            assert(crate::atlas::region_views(regions@) =~= target);
            return regions;
        }
        proof {
            lemma_seek_frame_dict(lv, i0 + 1);
        }
        let body_start;
        if contains(t.as_slice(), dict.as_slice()) {
            body_start = i + 1;
        } else {
            let j = seek_frame_dict_exec(&lines, i + 1, &dict, &close);
            if j >= lines.len() || !contains(lines[j].as_slice(), dict.as_slice()) {
                i = j;
                continue;
            }
            body_start = j + 1;
        }
        let (draft, next) = frame_props_exec(&lines, body_start, &close);
        proof {
            if body_start < lines.len() {
                lemma_frame_props(lv, body_start as int, empty_draft());
            }
        }
        let name = crate::text::string_of(frame_name.as_slice());
        match draft.into_region(name, plist_format, texture_height) {
            Some(region) => {
                let ghost rv = region@;
                regions.push(region);
                assert(crate::atlas::region_views(regions@) =~= before + seq![rv]);
            },
            None => {
                assert(crate::atlas::region_views(regions@) =~= before);
            },
        }
        i = next;
    }
    assert(frames_from(lv, i as int, plist_format, texture_height) =~= Seq::<
        crate::atlas::RegionView,
    >::empty());
    assert(crate::atlas::region_views(regions@) =~= target);
    regions
}


// ---------------------------------------------------------------------------
// JSON plists
// ---------------------------------------------------------------------------

/// The draft of a frame given as a JSON object: `frame` and then `textureRect` set the
/// rectangle, and `rotated` (or else `textureRotated`) the rotation, `false` unless it is
/// a JSON boolean.
pub open spec fn json_draft(frame: JsonValue) -> FrameDraft {
    let d0 = empty_draft();
    let d1 = match json_str(json_get(frame, "frame"@)) {
        Some(r) => match rect_braces(r) {
            Some(t) => with_rect(d0, t, false),
            None => d0,
        },
        None => d0,
    };
    let d2 = match json_str(json_get(frame, "textureRect"@)) {
        Some(r) => match rect_braces(r) {
            Some(t) => with_rect(d1, t, true),
            None => d1,
        },
        None => d1,
    };
    let rot = match json_get(frame, "rotated"@) {
        Some(v) => Some(v),
        None => json_get(frame, "textureRotated"@),
    };
    match rot {
        Some(v) => FrameDraft {
            rotated: match json_bool(Some(v)) {
                Some(b) => b,
                None => false,
            },
            ..d2
        },
        None => d2,
    }
}

/// The regions of the JSON frames `entries[k..]`, in order, those without a usable
/// rectangle left out.
pub open spec fn json_regions(
    entries: Seq<(String, JsonValue)>,
    k: int,
    plist_format: i32,
    texture_height: Option<u32>,
) -> Seq<crate::atlas::RegionView>
    decreases entries.len() - k,
{
    if k < 0 || k >= entries.len() {
        seq![]
    } else {
        let here = match draft_region(
            json_draft(entries[k].1),
            entries[k].0@,
            plist_format,
            texture_height,
        ) {
            Some(r) => seq![r],
            None => seq![],
        };
        here + json_regions(entries, k + 1, plist_format, texture_height)
    }
}

/// Why a plist could not be read.
#[derive(Clone, Copy, Debug, PartialEq, Eq, Structural)]
pub enum PlistError {
    /// The text begins like JSON but is not a JSON document.
    InvalidJson,
    /// The JSON document has no `frames` object.
    MissingFrames,
}

/// The `metadata` member of a JSON plist.
pub open spec fn json_metadata(root: JsonValue) -> Option<JsonValue> {
    json_get(root, "metadata"@)
}

/// The format of a JSON plist: `metadata.format` taken as an `i32` the way `as` converts
/// it, 3 when it is missing or not an integer.
pub open spec fn json_format(root: JsonValue) -> i32 {
    match json_i64(json_get_opt(json_metadata(root), "format"@)) {
        Some(n) => n as i32,
        None => 3,
    }
}

/// The texture file name of a JSON plist: `metadata.textureFileName`, or when that member
/// is missing `metadata.realTextureFileName`, if it is a string.
pub open spec fn json_texture_name(root: JsonValue) -> Option<Seq<char>> {
    let m = json_metadata(root);
    json_str(
        match json_get_opt(m, "textureFileName"@) {
            Some(v) => Some(v),
            None => json_get_opt(m, "realTextureFileName"@),
        },
    )
}

/// The texture size of a JSON plist: `metadata.size` in braces.
pub open spec fn json_size(root: JsonValue) -> Option<(u32, u32)> {
    match json_str(json_get_opt(json_metadata(root), "size"@)) {
        Some(s) => size_braces(s),
        None => None,
    }
}

/// The config that a JSON plist describes, or `MissingFrames`.
pub open spec fn json_plist_info(config_path: Seq<char>, root: JsonValue) -> Result<
    crate::atlas::InfoView,
    PlistError,
> {
    let size = json_size(root);
    let th = match size {
        Some((_, h)) => Some(h),
        None => None,
    };
    match json_get(root, "frames"@) {
        Some(JsonValue::Object(entries)) => Ok(
            crate::atlas::InfoView {
                config_path,
                config_type: "plist"@,
                texture_file_name: json_texture_name(root),
                texture_width: match size {
                    Some((w, _)) => Some(w),
                    None => None,
                },
                texture_height: th,
                regions: json_regions(entries@, 0, json_format(root), th),
            },
        ),
        _ => Err(PlistError::MissingFrames),
    }
}

/// The config that an XML plist describes.
pub open spec fn xml_plist_info(config_path: Seq<char>, content: Seq<char>) -> crate::atlas::InfoView {
    let n = normalized_from(content, 0);
    let m = plist_meta(n);
    crate::atlas::InfoView {
        config_path,
        config_type: "plist"@,
        texture_file_name: m.texture_file_name,
        texture_width: m.width,
        texture_height: m.height,
        regions: plist_frames(n, m.format, m.height),
    }
}

/// The plist text is JSON: its first non-blank character is `{`.
pub open spec fn is_json_plist(content: Seq<char>) -> bool {
    crate::text::starts_with(crate::text::trim_start(content), "{"@)
}

/// The config that a Cocos plist describes: from its JSON document when the text begins
/// like JSON (`InvalidJson` when it does not parse), else from the XML text.
pub open spec fn cocos_plist_info(config_path: Seq<char>, content: Seq<char>) -> Result<
    crate::atlas::InfoView,
    PlistError,
> {
    if is_json_plist(content) {
        match crate::json::json_document(content) {
            Some(root) => json_plist_info(config_path, root),
            None => Err(PlistError::InvalidJson),
        }
    } else {
        Ok(xml_plist_info(config_path, content))
    }
}

impl FrameDraft {
    /// The draft of a frame given as a JSON object.
    pub fn from_json(frame: &JsonValue) -> (d: FrameDraft)
        ensures
            d == json_draft(*frame),
    {
        let mut d = FrameDraft::new();
        if let Some(rect) = frame.get("frame") {
            if let Some(r) = rect.as_str() {
                let rc = chars_of(r.as_str());
                if let Some((x, y, w, h)) = parse_rect_braces(rc.as_slice()) {
                    d.set_rect(x, y, w, h, false);
                }
            }
        }
        if let Some(rect) = frame.get("textureRect") {
            if let Some(r) = rect.as_str() {
                let rc = chars_of(r.as_str());
                if let Some((x, y, w, h)) = parse_rect_braces(rc.as_slice()) {
                    d.set_rect(x, y, w, h, true);
                }
            }
        }
        let rot = match frame.get("rotated") {
            Some(v) => Some(v),
            None => frame.get("textureRotated"),
        };
        if let Some(v) = rot {
            d.rotated = match v.as_bool() {
                Some(b) => b,
                None => false,
            };
        }
        d
    }
}

/// Whether a plist's text is JSON.
pub fn plist_is_json(content: &str) -> (b: bool)
    ensures
        b == is_json_plist(content@),
{
    let c = chars_of(content);
    let a = crate::text::trim_start_index(c.as_slice());
    let rest = slice_vec(c.as_slice(), a, c.len());
    assert(rest@ =~= c@.skip(a as int));
    crate::text::starts_with_exec(rest.as_slice(), chars_of("{").as_slice())
}

/// Reads the config of a JSON plist from its parsed document.
pub fn parse_cocos_plist_json(config_path: &str, root: &JsonValue) -> (r: Result<
    crate::atlas::AtlasInfo,
    PlistError,
>)
    ensures
        match r {
            Ok(info) => json_plist_info(config_path@, *root) == Ok::<
                crate::atlas::InfoView,
                PlistError,
            >(info@),
            Err(e) => json_plist_info(config_path@, *root) == Err::<
                crate::atlas::InfoView,
                PlistError,
            >(e),
        },
{
    let meta = root.get("metadata");
    let fmt_value = match meta {
        Some(m) => m.get("format"),
        None => None,
    };
    let plist_format: i32 = match fmt_value {
        Some(v) => match v.as_i64() {
            Some(n) => n as i32,
            None => 3,
        },
        None => 3,
    };
    let tex_value = match meta {
        Some(m) => match m.get("textureFileName") {
            Some(v) => Some(v),
            None => m.get("realTextureFileName"),
        },
        None => None,
    };
    let texture_file_name = match tex_value {
        Some(v) => match v.as_str() {
            Some(s) => Some(s.clone()),
            None => None,
        },
        None => None,
    };
    let size_value = match meta {
        Some(m) => m.get("size"),
        None => None,
    };
    let size = match size_value {
        Some(v) => match v.as_str() {
            Some(s) => parse_size_braces(chars_of(s.as_str()).as_slice()),
            None => None,
        },
        None => None,
    };
    let texture_width = match size {
        Some((w, _)) => Some(w),
        None => None,
    };
    let texture_height = match size {
        Some((_, h)) => Some(h),
        None => None,
    };
    let entries = match root.get("frames") {
        Some(JsonValue::Object(entries)) => entries,
        _ => {
            return Err(PlistError::MissingFrames);
        },
    };
    let mut regions: Vec<crate::atlas::AtlasRegion> = Vec::new();
    let mut k: usize = 0;
    while k < entries.len()
        invariant
            k <= entries.len(),
            crate::atlas::region_views(regions@) + json_regions(
                entries@,
                k as int,
                plist_format,
                texture_height,
            ) == json_regions(entries@, 0, plist_format, texture_height),
        decreases entries.len() - k,
    {
        let ghost before = crate::atlas::region_views(regions@);
        let d = FrameDraft::from_json(&entries[k].1);
        match d.into_region(entries[k].0.clone(), plist_format, texture_height) {
            Some(region) => {
                let ghost rv = region@;
                regions.push(region);
                assert(crate::atlas::region_views(regions@) =~= before + seq![rv]);
            },
            None => {},
        }
        k = k + 1;
        assert(crate::atlas::region_views(regions@) + json_regions(
            entries@,
            k as int,
            plist_format,
            texture_height,
        ) =~= before + json_regions(entries@, k - 1, plist_format, texture_height));
    }
    assert(crate::atlas::region_views(regions@) =~= json_regions(
        entries@,
        0,
        plist_format,
        texture_height,
    ));
    Ok(
        crate::atlas::AtlasInfo {
            config_path: config_path.to_owned(),
            config_type: "plist".to_owned(),
            texture_file_name,
            texture_width,
            texture_height,
            regions,
        },
    )
}

/// Reads the config of an XML plist.
pub fn parse_cocos_plist_xml(config_path: &str, content: &str) -> (r: crate::atlas::AtlasInfo)
    ensures
        r@ == xml_plist_info(config_path@, content@),
{
    let normalized = normalize_plist_xml(content);
    let (plist_format, texture_file_name, texture_width, texture_height) = plist_metadata(
        normalized.as_slice(),
    );
    let regions = parse_plist_xml_frames(normalized.as_slice(), plist_format, texture_height);
    let texture_file_name = match texture_file_name {
        Some(v) => Some(crate::text::string_of(v.as_slice())),
        None => None,
    };
    crate::atlas::AtlasInfo {
        config_path: config_path.to_owned(),
        config_type: "plist".to_owned(),
        texture_file_name,
        texture_width,
        texture_height,
        regions,
    }
}

/// Reads the config of a Cocos plist from its text, parsing it as JSON when it begins
/// like JSON.
pub fn parse_cocos_plist(config_path: &str, content: &str) -> (r: Result<
    crate::atlas::AtlasInfo,
    PlistError,
>)
    ensures
        match r {
            Ok(info) => cocos_plist_info(config_path@, content@) == Ok::<
                crate::atlas::InfoView,
                PlistError,
            >(info@),
            Err(e) => cocos_plist_info(config_path@, content@) == Err::<
                crate::atlas::InfoView,
                PlistError,
            >(e),
        },
{
    if plist_is_json(content) {
        match crate::json::parse_json_text(content) {
            Some(root) => parse_cocos_plist_json(config_path, &root),
            None => Err(PlistError::InvalidJson),
        }
    } else {
        Ok(parse_cocos_plist_xml(config_path, content))
    }
}


// ---------------------------------------------------------------------------
// Laws
// ---------------------------------------------------------------------------

proof fn lemma_draft_region_positive(
    d: FrameDraft,
    name: Seq<char>,
    plist_format: i32,
    texture_height: Option<u32>,
)
    ensures
        draft_region(d, name, plist_format, texture_height) matches Some(r) ==> r.width > 0
            && r.height > 0,
{
}

proof fn lemma_frames_from_positive(
    lines: Seq<Seq<char>>,
    i: int,
    plist_format: i32,
    texture_height: Option<u32>,
)
    ensures
        crate::libgdx::regions_positive(frames_from(lines, i, plist_format, texture_height)),
    decreases lines.len() - i,
{
    if 0 <= i < lines.len() {
        let t = trimmed(lines[i]);
        if t == "</dict>"@ || t == "<dict>"@ {
            lemma_frames_from_positive(lines, i + 1, plist_format, texture_height);
        } else {
            match xml_key(t) {
                None => lemma_frames_from_positive(lines, i + 1, plist_format, texture_height),
                Some(name) => if name != "metadata"@ {
                    let j = seek_frame_dict(lines, i + 1);
                    lemma_seek_frame_dict(lines, i + 1);
                    let start = if has_sub(t, "<dict>"@) {
                        i + 1
                    } else {
                        j + 1
                    };
                    if !has_sub(t, "<dict>"@) && (j >= lines.len() || !has_sub(lines[j], "<dict>"@)) {
                        lemma_frames_from_positive(lines, j, plist_format, texture_height);
                    } else if start >= lines.len() {
                        lemma_draft_region_positive(empty_draft(), name, plist_format, texture_height);
                    } else {
                        let (d, next) = frame_props(lines, start, empty_draft());
                        lemma_frame_props(lines, start, empty_draft());
                        lemma_draft_region_positive(d, name, plist_format, texture_height);
                        lemma_frames_from_positive(lines, next, plist_format, texture_height);
                        let here = match draft_region(d, name, plist_format, texture_height) {
                            Some(r) => seq![r],
                            None => seq![],
                        };
                        let rest = frames_from(lines, next, plist_format, texture_height);
                        assert forall|k: int| 0 <= k < (here + rest).len() implies #[trigger] (here
                            + rest)[k].width > 0 && (here + rest)[k].height > 0 by {
                            if k >= here.len() {
                                assert((here + rest)[k] == rest[k - here.len()]);
                            }
                        }
                    }
                },
            }
        }
    }
}

proof fn lemma_json_regions_positive(
    entries: Seq<(String, JsonValue)>,
    k: int,
    plist_format: i32,
    texture_height: Option<u32>,
)
    ensures
        crate::libgdx::regions_positive(json_regions(entries, k, plist_format, texture_height)),
    decreases entries.len() - k,
{
    if 0 <= k < entries.len() {
        lemma_json_regions_positive(entries, k + 1, plist_format, texture_height);
        lemma_draft_region_positive(
            json_draft(entries[k].1),
            entries[k].0@,
            plist_format,
            texture_height,
        );
        let here = match draft_region(
            json_draft(entries[k].1),
            entries[k].0@,
            plist_format,
            texture_height,
        ) {
            Some(r) => seq![r],
            None => seq![],
        };
        let rest = json_regions(entries, k + 1, plist_format, texture_height);
        assert forall|j: int| 0 <= j < (here + rest).len() implies #[trigger] (here + rest)[j].width > 0
            && (here + rest)[j].height > 0 by {
            if j >= here.len() {
                assert((here + rest)[j] == rest[j - here.len()]);
            }
        }
    }
}

/// Every region read from a Cocos plist, XML or JSON, has a positive width and height.
pub proof fn law_plist_regions_have_positive_size(config_path: Seq<char>, content: Seq<char>)
    ensures
        cocos_plist_info(config_path, content) matches Ok(info) ==> crate::libgdx::regions_positive(
            info.regions,
        ),
{
    if is_json_plist(content) {
        if let Some(root) = crate::json::json_document(content) {
            let size = json_size(root);
            let th = match size {
                Some((_, h)) => Some(h),
                None => None,
            };
            if let Some(JsonValue::Object(entries)) = json_get(root, "frames"@) {
                lemma_json_regions_positive(entries@, 0, json_format(root), th);
            }
        }
    } else {
        let n = normalized_from(content, 0);
        let m = plist_meta(n);
        let lines = crate::text::text_lines(n);
        match frames_key_line(lines, 0) {
            Some(start) => {
                let i = next_dict(lines, start + 1);
                if i < lines.len() {
                    let first = if trimmed(lines[i]) == "<dict>"@ {
                        i + 1
                    } else {
                        i
                    };
                    lemma_frames_from_positive(lines, first, m.format, m.height);
                }
            },
            None => {},
        }
    }
}

} // verus!
