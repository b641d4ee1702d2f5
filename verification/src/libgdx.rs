//! LibGDX / Spine `.atlas` configs: page headers (texture name, `size:` and other
//! properties) followed by regions whose indented properties give their rectangles.
//! Pages that repeat the same texture name are stacked below each other.
use vstd::prelude::*;
use crate::atlas::{AtlasInfo, AtlasRegion, InfoView, RegionView, atlas_rect, region_views};
use crate::text::{
    chars_eq, chars_of, has_sub, i32_of, split_exec, split_on, split_once, split_once_exec,
    starts_with, starts_with_exec, strip_prefix, strip_prefix_exec, text_lines, trim, trimmed,
    u32_of, views, ascii_lowered, to_ascii_lowercase, parse_i32, parse_i32_trimmed,
    parse_u32_trimmed, contains,
};

verus! {

// ---------------------------------------------------------------------------
// Lines
// ---------------------------------------------------------------------------

/// A page `size:` line: two positive numbers after `size:`.
pub open spec fn page_size(line: Seq<char>) -> Option<(u32, u32)> {
    match strip_prefix(trimmed(line), "size:"@) {
        Some(rest) => match split_once(trimmed(rest), ","@) {
            Some((a, b)) => match (u32_of(trimmed(a)), u32_of(trimmed(b))) {
                (Some(pw), Some(ph)) => if pw > 0 && ph > 0 {
                    Some((pw, ph))
                } else {
                    None
                },
                _ => None,
            },
            None => None,
        },
        None => None,
    }
}

/// A `key: value` property line, both parts trimmed.
pub open spec fn atlas_entry(line: Seq<char>) -> Option<(Seq<char>, Seq<char>)> {
    match split_once(trimmed(line), ":"@) {
        Some((k, v)) => Some((trimmed(k), trimmed(v))),
        None => None,
    }
}

/// Parses a page `size:` line.
pub fn parse_page_size(line: &[char]) -> (r: Option<(u32, u32)>)
    ensures
        r == page_size(line@),
{
    let t = trim(line);
    let rest = match strip_prefix_exec(t.as_slice(), chars_of("size:").as_slice()) {
        Some(r) => r,
        None => {
            return None;
        },
    };
    let rt = trim(rest.as_slice());
    let (a, b) = match split_once_exec(rt.as_slice(), chars_of(",").as_slice()) {
        Some(p) => p,
        None => {
            return None;
        },
    };
    let pw = match parse_u32_trimmed(a.as_slice()) {
        Some(v) => v,
        None => {
            return None;
        },
    };
    let ph = match parse_u32_trimmed(b.as_slice()) {
        Some(v) => v,
        None => {
            return None;
        },
    };
    if pw > 0 && ph > 0 {
        Some((pw, ph))
    } else {
        None
    }
}

/// Splits a `key: value` property line.
pub fn parse_atlas_entry(line: &[char]) -> (r: Option<(Vec<char>, Vec<char>)>)
    ensures
        match r {
            Some((k, v)) => atlas_entry(line@) == Some((k@, v@)),
            None => atlas_entry(line@) is None,
        },
{
    let t = trim(line);
    match split_once_exec(t.as_slice(), chars_of(":").as_slice()) {
        Some((k, v)) => Some((trim(k.as_slice()), trim(v.as_slice()))),
        None => None,
    }
}

// ---------------------------------------------------------------------------
// Rotation
// ---------------------------------------------------------------------------

/// A `rotate:` value swaps width and height: `true`, 90 or 270 degrees.
pub open spec fn rotate_swaps_dims(value: Seq<char>) -> bool {
    let v = ascii_lowered(trimmed(value));
    if v == "true"@ || v == "90"@ || v == "270"@ {
        true
    } else if v == "false"@ {
        false
    } else {
        match i32_of(v) {
            Some(deg) => deg == 90 || deg == 270,
            None => false,
        }
    }
}

/// A `rotate:` value rotates the region at all: `true` or a non-zero number of degrees.
pub open spec fn has_rotation(value: Seq<char>) -> bool {
    let v = ascii_lowered(trimmed(value));
    if v == "false"@ {
        false
    } else if v == "true"@ || v == "90"@ || v == "180"@ || v == "270"@ {
        true
    } else {
        match i32_of(v) {
            Some(deg) => deg != 0,
            None => false,
        }
    }
}

/// Whether a `rotate:` value swaps width and height.
pub fn atlas_rotate_swaps_dims(value: &[char]) -> (b: bool)
    ensures
        b == rotate_swaps_dims(value@),
{
    let t = trim(value);
    let v = to_ascii_lowercase(t.as_slice());
    let vs = v.as_slice();
    if chars_eq(vs, chars_of("true").as_slice()) || chars_eq(vs, chars_of("90").as_slice())
        || chars_eq(vs, chars_of("270").as_slice()) {
        true
    } else if chars_eq(vs, chars_of("false").as_slice()) {
        false
    } else {
        match parse_i32(vs) {
            Some(deg) => deg == 90 || deg == 270,
            None => false,
        }
    }
}

/// Whether a `rotate:` value rotates the region.
pub fn atlas_has_rotation(value: &[char]) -> (b: bool)
    ensures
        b == has_rotation(value@),
{
    let t = trim(value);
    let v = to_ascii_lowercase(t.as_slice());
    let vs = v.as_slice();
    if chars_eq(vs, chars_of("false").as_slice()) {
        false
    } else if chars_eq(vs, chars_of("true").as_slice()) || chars_eq(vs, chars_of("90").as_slice())
        || chars_eq(vs, chars_of("180").as_slice()) || chars_eq(vs, chars_of("270").as_slice()) {
        true
    } else {
        match parse_i32(vs) {
            Some(deg) => deg != 0,
            None => false,
        }
    }
}

// ---------------------------------------------------------------------------
// Region properties
// ---------------------------------------------------------------------------

/// What the properties of one region have said so far.
#[derive(Clone, Copy)]
pub struct AtlasRegionDraft {
    pub x: i32,
    pub y: i32,
    pub w: i32,
    pub h: i32,
    pub rotated: bool,
    pub swap_dims: bool,
}

/// A region draft before any property.
pub open spec fn zero_draft() -> AtlasRegionDraft {
    AtlasRegionDraft { x: 0, y: 0, w: 0, h: 0, rotated: false, swap_dims: false }
}

/// A number of a region property, 0 when it does not parse.
pub open spec fn num_or_zero(s: Seq<char>) -> i32 {
    match i32_of(trimmed(s)) {
        Some(v) => v,
        None => 0,
    }
}

/// The effect of one property on a region draft: `xy`, `size`, `bounds` (four numbers)
/// and `rotate`; other keys change nothing.
pub open spec fn apply_property(d: AtlasRegionDraft, key: Seq<char>, value: Seq<char>) -> AtlasRegionDraft {
    if key == "xy"@ {
        match split_once(value, ","@) {
            Some((a, b)) => AtlasRegionDraft { x: num_or_zero(a), y: num_or_zero(b), ..d },
            None => d,
        }
    } else if key == "size"@ {
        match split_once(value, ","@) {
            Some((a, b)) => AtlasRegionDraft { w: num_or_zero(a), h: num_or_zero(b), ..d },
            None => d,
        }
    } else if key == "bounds"@ {
        let p = split_on(value, ',');
        if p.len() >= 4 {
            AtlasRegionDraft {
                x: num_or_zero(p[0]),
                y: num_or_zero(p[1]),
                w: num_or_zero(p[2]),
                h: num_or_zero(p[3]),
                ..d
            }
        } else {
            d
        }
    } else if key == "rotate"@ {
        AtlasRegionDraft { rotated: has_rotation(value), swap_dims: rotate_swaps_dims(value), ..d }
    } else {
        d
    }
}

fn num_or_zero_exec(s: &[char]) -> (r: i32)
    ensures
        r == num_or_zero(s@),
{
    match parse_i32_trimmed(s) {
        Some(v) => v,
        None => 0,
    }
}

impl AtlasRegionDraft {
    pub fn new() -> (d: AtlasRegionDraft)
        ensures
            d == zero_draft(),
    {
        AtlasRegionDraft { x: 0, y: 0, w: 0, h: 0, rotated: false, swap_dims: false }
    }

    pub fn apply(&mut self, key: &[char], value: &[char])
        ensures
            *final(self) == apply_property(*old(self), key@, value@),
    {
        let comma = chars_of(",");
        if chars_eq(key, chars_of("xy").as_slice()) {
            if let Some((a, b)) = split_once_exec(value, comma.as_slice()) {
                self.x = num_or_zero_exec(a.as_slice());
                self.y = num_or_zero_exec(b.as_slice());
            }
        } else if chars_eq(key, chars_of("size").as_slice()) {
            if let Some((a, b)) = split_once_exec(value, comma.as_slice()) {
                self.w = num_or_zero_exec(a.as_slice());
                self.h = num_or_zero_exec(b.as_slice());
            }
        } else if chars_eq(key, chars_of("bounds").as_slice()) {
            let p = split_exec(value, ',');
            assert(views(p@).len() == p@.len());
            if p.len() >= 4 {
                assert(p@[0]@ == split_on(value@, ',')[0]);
                assert(p@[1]@ == split_on(value@, ',')[1]);
                assert(p@[2]@ == split_on(value@, ',')[2]);
                assert(p@[3]@ == split_on(value@, ',')[3]);
                self.x = num_or_zero_exec(p[0].as_slice());
                self.y = num_or_zero_exec(p[1].as_slice());
                self.w = num_or_zero_exec(p[2].as_slice());
                self.h = num_or_zero_exec(p[3].as_slice());
            }
        } else if chars_eq(key, chars_of("rotate").as_slice()) {
            self.rotated = atlas_has_rotation(value);
            self.swap_dims = atlas_rotate_swaps_dims(value);
        }
    }
}


// ---------------------------------------------------------------------------
// Layout of the file
// ---------------------------------------------------------------------------

/// A line with nothing but white space.
pub open spec fn blank(l: Seq<char>) -> bool {
    trimmed(l).len() == 0
}

/// A line that starts with a space or a tab.
pub open spec fn indented(l: Seq<char>) -> bool {
    starts_with(l, " "@) || starts_with(l, "\t"@)
}

/// A `key: value` line of a page header: not blank, holding `:`, not indented.
pub open spec fn header_prop(l: Seq<char>) -> bool {
    !blank(l) && has_sub(trimmed(l), ":"@) && !indented(l)
}

/// The first non-blank line without `:` from line `k` on, trimmed: the texture file name.
pub open spec fn texture_name_from(lines: Seq<Seq<char>>, k: int) -> Option<Seq<char>>
    decreases lines.len() - k,
{
    if k < 0 || k >= lines.len() {
        None
    } else if !blank(lines[k]) && !has_sub(trimmed(lines[k]), ":"@) {
        Some(trimmed(lines[k]))
    } else {
        texture_name_from(lines, k + 1)
    }
}

/// The first page `size:` line from line `k` on.
pub open spec fn first_page_size(lines: Seq<Seq<char>>, k: int) -> Option<(u32, u32)>
    decreases lines.len() - k,
{
    if k < 0 || k >= lines.len() {
        None
    } else {
        match page_size(lines[k]) {
            Some(p) => Some(p),
            None => first_page_size(lines, k + 1),
        }
    }
}

/// The first line at or after `i` that is not blank, or the number of lines.
pub open spec fn skip_blank(lines: Seq<Seq<char>>, i: int) -> int
    decreases lines.len() - i,
{
    if i < 0 || i >= lines.len() {
        lines.len() as int
    } else if blank(lines[i]) {
        skip_blank(lines, i + 1)
    } else {
        i
    }
}

/// The first line at or after `i` that is not a header property line.
pub open spec fn skip_header_props(lines: Seq<Seq<char>>, i: int) -> int
    decreases lines.len() - i,
{
    if i < 0 || i >= lines.len() {
        lines.len() as int
    } else if header_prop(lines[i]) {
        skip_header_props(lines, i + 1)
    } else {
        i
    }
}

/// Where the regions begin: after leading blank lines, the first page's texture line, its
/// header properties, and the blank lines after them.
pub open spec fn body_start(lines: Seq<Seq<char>>) -> int {
    let a = skip_blank(lines, 0);
    let b = if a < lines.len() && !blank(lines[a]) && !has_sub(trimmed(lines[a]), ":"@) {
        a + 1
    } else {
        a
    };
    skip_blank(lines, skip_header_props(lines, b))
}

/// After a later page's `size:` line: its header property lines, up to and including one
/// blank line.
pub open spec fn skip_page_props(lines: Seq<Seq<char>>, i: int) -> int
    decreases lines.len() - i,
{
    if i < 0 || i >= lines.len() {
        lines.len() as int
    } else if blank(lines[i]) {
        i + 1
    } else if has_sub(trimmed(lines[i]), ":"@) && !indented(lines[i]) {
        skip_page_props(lines, i + 1)
    } else {
        i
    }
}

/// The draft after the indented property lines of a region from line `i` on, and the
/// line after them.
pub open spec fn region_props(lines: Seq<Seq<char>>, i: int, d: AtlasRegionDraft) -> (
    AtlasRegionDraft,
    int,
)
    decreases lines.len() - i,
{
    if i < 0 || i >= lines.len() {
        (d, lines.len() as int)
    } else if blank(lines[i]) || !indented(lines[i]) {
        (d, i)
    } else {
        let d2 = match atlas_entry(lines[i]) {
            Some((k, v)) => apply_property(d, k, v),
            None => d,
        };
        region_props(lines, i + 1, d2)
    }
}

pub proof fn lemma_skip_blank(lines: Seq<Seq<char>>, i: int)
    requires
        0 <= i <= lines.len(),
    ensures
        i <= skip_blank(lines, i) <= lines.len(),
    decreases lines.len() - i,
{
    if i < lines.len() && blank(lines[i]) {
        lemma_skip_blank(lines, i + 1);
    }
}

pub proof fn lemma_skip_header_props(lines: Seq<Seq<char>>, i: int)
    requires
        0 <= i <= lines.len(),
    ensures
        i <= skip_header_props(lines, i) <= lines.len(),
    decreases lines.len() - i,
{
    if i < lines.len() && header_prop(lines[i]) {
        lemma_skip_header_props(lines, i + 1);
    }
}

pub proof fn lemma_skip_page_props(lines: Seq<Seq<char>>, i: int)
    requires
        0 <= i <= lines.len(),
    ensures
        i <= skip_page_props(lines, i) <= lines.len(),
    decreases lines.len() - i,
{
    if i < lines.len() && !blank(lines[i]) && has_sub(trimmed(lines[i]), ":"@) && !indented(
        lines[i],
    ) {
        lemma_skip_page_props(lines, i + 1);
    }
}

pub proof fn lemma_region_props(lines: Seq<Seq<char>>, i: int, d: AtlasRegionDraft)
    requires
        0 <= i <= lines.len(),
    ensures
        i <= region_props(lines, i, d).1 <= lines.len(),
    decreases lines.len() - i,
{
    if i < lines.len() && !(blank(lines[i]) || !indented(lines[i])) {
        let d2 = match atlas_entry(lines[i]) {
            Some((k, v)) => apply_property(d, k, v),
            None => d,
        };
        lemma_region_props(lines, i + 1, d2);
    }
}

// ---------------------------------------------------------------------------
// Pages and regions
// ---------------------------------------------------------------------------

/// The reading state of an atlas: the texture width, the height of the current page, its
/// texture name, how far down its pages stack, the height of the stacked texture so far,
/// and the regions found.
pub struct GdxState {
    pub texture_width: Option<u32>,
    pub page_height: i32,
    pub page_texture: Seq<char>,
    pub y_page_offset: i32,
    pub stacked_height: i32,
    pub regions: Seq<RegionView>,
}

/// The region of a finished draft found on a page stacked `y_offset` pixels down (the
/// offset adds to `y` with `i32` wrapping).
pub open spec fn draft_to_region(name: Seq<char>, d: AtlasRegionDraft, y_offset: i32) -> Option<
    RegionView,
> {
    match atlas_rect(d.x, d.y.wrapping_add(y_offset), d.w, d.h, d.swap_dims) {
        Some((x, y, w, h)) => Some(RegionView { name, x, y, width: w, height: h, rotated: d.rotated }),
        None => None,
    }
}

/// The state after reading the lines from `i` on.
pub open spec fn gdx_body(lines: Seq<Seq<char>>, i: int, st: GdxState) -> GdxState
    decreases lines.len() - i,
{
    if i < 0 || i >= lines.len() {
        st
    } else {
        let t = trimmed(lines[i]);
        if t.len() == 0 {
            gdx_body(lines, i + 1, st)
        } else if page_size(t) is Some {
            let (pw, ph) = page_size(t)->0;
            gdx_body(
                lines,
                i + 1,
                GdxState {
                    texture_width: Some(pw),
                    page_height: ph as i32,
                    stacked_height: st.y_page_offset.wrapping_add(ph as i32),
                    ..st
                },
            )
        } else if i + 1 < lines.len() && starts_with(trimmed(lines[i + 1]), "size:"@) {
            let (pw, ph) = match page_size(trimmed(lines[i + 1])) {
                Some(p) => p,
                None => (0u32, 0u32),
            };
            let next = skip_page_props(lines, i + 2);
            let st2 = if pw > 0 && ph > 0 {
                let same = t == st.page_texture && st.page_height > 0;
                let off = if same {
                    st.y_page_offset.wrapping_add(st.page_height)
                } else {
                    0i32
                };
                GdxState {
                    texture_width: Some(pw),
                    page_height: ph as i32,
                    page_texture: if same {
                        st.page_texture
                    } else {
                        t
                    },
                    y_page_offset: off,
                    stacked_height: off.wrapping_add(ph as i32),
                    regions: st.regions,
                }
            } else {
                st
            };
            proof {
                lemma_skip_page_props(lines, i + 2);
            }
            gdx_body(lines, next, st2)
        } else {
            let (d, next) = region_props(lines, i + 1, zero_draft());
            let st2 = if d.w > 0 && d.h > 0 {
                match draft_to_region(t, d, st.y_page_offset) {
                    Some(r) => GdxState { regions: st.regions.push(r), ..st },
                    None => st,
                }
            } else {
                st
            };
            proof {
                lemma_region_props(lines, i + 1, zero_draft());
            }
            gdx_body(lines, next, st2)
        }
    }
}

/// The state before the regions: the first page's size (if any line gives one) and its
/// texture name.
pub open spec fn gdx_start(lines: Seq<Seq<char>>) -> GdxState {
    let (tw, ph) = match first_page_size(lines, 0) {
        Some((pw, ph)) => (Some(pw), ph as i32),
        None => (None, 0i32),
    };
    GdxState {
        texture_width: tw,
        page_height: ph,
        page_texture: match texture_name_from(lines, 0) {
            Some(t) => t,
            None => seq![],
        },
        y_page_offset: 0,
        stacked_height: ph,
        regions: seq![],
    }
}

/// The config that a LibGDX/Spine atlas describes. The texture height is the stacked
/// height of the pages (the last page height when that is not positive), if positive.
pub open spec fn gdx_info(config_path: Seq<char>, content: Seq<char>) -> InfoView {
    let lines = text_lines(content);
    let st = gdx_body(lines, body_start(lines), gdx_start(lines));
    let stacked = if st.stacked_height <= 0 {
        st.page_height
    } else {
        st.stacked_height
    };
    InfoView {
        config_path,
        config_type: "atlas"@,
        texture_file_name: texture_name_from(lines, 0),
        texture_width: st.texture_width,
        texture_height: if stacked > 0 {
            Some(stacked as u32)
        } else {
            None
        },
        regions: st.regions,
    }
}


// ---------------------------------------------------------------------------
// Reading
// ---------------------------------------------------------------------------

/// Line tests shared by the reading loops.
struct LineTests {
    colon: Vec<char>,
    space: Vec<char>,
    tab: Vec<char>,
}

impl LineTests {
    fn new() -> (r: LineTests)
        ensures
            r.colon@ == ":"@,
            r.space@ == " "@,
            r.tab@ == "\t"@,
    {
        LineTests { colon: chars_of(":"), space: chars_of(" "), tab: chars_of("\t") }
    }

    fn blank(&self, l: &[char]) -> (b: bool)
        ensures
            b == blank(l@),
    {
        crate::text::is_blank(l)
    }

    fn indented(&self, l: &[char]) -> (b: bool)
        requires
            self.space@ == " "@,
            self.tab@ == "\t"@,
        ensures
            b == indented(l@),
    {
        starts_with_exec(l, self.space.as_slice()) || starts_with_exec(l, self.tab.as_slice())
    }

    fn has_colon(&self, l: &[char]) -> (b: bool)
        requires
            self.colon@ == ":"@,
        ensures
            b == has_sub(trimmed(l@), ":"@),
    {
        let t = trim(l);
        contains(t.as_slice(), self.colon.as_slice())
    }
}

/// The lines' views hold for the shared tests.
spec fn tests_ok(lt: &LineTests) -> bool {
    lt.colon@ == ":"@ && lt.space@ == " "@ && lt.tab@ == "\t"@
}

/// Reads the config of a LibGDX/Spine atlas from its text.
pub fn parse_libgdx_atlas(config_path: &str, content: &str) -> (r: AtlasInfo)
    ensures
        r@ == gdx_info(config_path@, content@),
{
    let cv = chars_of(content);
    let lines = crate::text::lines(cv.as_slice());
    let ghost lv = views(lines@);
    assert(lv == text_lines(content@));
    let lt = LineTests::new();
    let n = lines.len();

    // The texture file name: the first non-blank line without ':'.
    let mut k: usize = 0;
    let mut texture_file_name: Option<Vec<char>> = None;
    let mut found = false;
    while k < n && !found
        invariant
            k <= n == lines.len(),
            lv == views(lines@),
            tests_ok(&lt),
            found ==> crate::plist::opt_chars(texture_file_name) == texture_name_from(lv, 0),
            !found ==> texture_file_name is None && texture_name_from(lv, 0) == texture_name_from(
                lv,
                k as int,
            ),
        decreases n - k + (if found { 0int } else { 1int }),
    {
        if !lt.blank(lines[k].as_slice()) && !lt.has_colon(lines[k].as_slice()) {
            texture_file_name = Some(trim(lines[k].as_slice()));
            found = true;
        } else {
            k = k + 1;
        }
    }
    assert(crate::plist::opt_chars(texture_file_name) == texture_name_from(lv, 0));

    // The first page size.
    let mut texture_width: Option<u32> = None;
    let mut page_height: i32 = 0;
    let mut k: usize = 0;
    let mut found = false;
    while k < n && !found
        invariant
            k <= n == lines.len(),
            lv == views(lines@),
            found ==> (match first_page_size(lv, 0) {
                Some((pw, ph)) => texture_width == Some(pw) && page_height == ph as i32,
                None => false,
            }),
            !found ==> texture_width is None && page_height == 0 && first_page_size(lv, 0)
                == first_page_size(lv, k as int),
        decreases n - k + (if found { 0int } else { 1int }),
    {
        if let Some((pw, ph)) = parse_page_size(lines[k].as_slice()) {
            texture_width = Some(pw);
            page_height = ph as i32;
            found = true;
        } else {
            k = k + 1;
        }
    }
    let mut stacked_height: i32 = page_height;
    let mut page_texture: Vec<char> = match &texture_file_name {
        Some(t) => crate::text::slice_vec(t.as_slice(), 0, t.len()),
        None => Vec::new(),
    };
    let mut y_page_offset: i32 = 0;
    let mut regions: Vec<AtlasRegion> = Vec::new();
    proof {
        if texture_file_name is Some {
            assert(page_texture@ =~= texture_file_name->0@);
        } else {
            assert(page_texture@ =~= Seq::<char>::empty());
        }
    }
    assert(GdxState {
        texture_width,
        page_height,
        page_texture: page_texture@,
        y_page_offset,
        stacked_height,
        regions: region_views(regions@),
    } == gdx_start(lv)) by {
        assert(region_views(regions@) =~= Seq::<RegionView>::empty());
    }

    // Skip the first page header.
    let mut i: usize = 0;
    while i < n && lt.blank(lines[i].as_slice())
        invariant
            i <= n == lines.len(),
            lv == views(lines@),
            skip_blank(lv, 0) == skip_blank(lv, i as int),
        decreases n - i,
    {
        i = i + 1;
    }
    if i < n && !lt.blank(lines[i].as_slice()) && !lt.has_colon(lines[i].as_slice()) {
        i = i + 1;
    }
    let ghost b = i as int;
    while i < n && !lt.blank(lines[i].as_slice()) && lt.has_colon(lines[i].as_slice())
        && !lt.indented(lines[i].as_slice())
        invariant
            b <= i <= n == lines.len(),
            lv == views(lines@),
            tests_ok(&lt),
            skip_header_props(lv, b) == skip_header_props(lv, i as int),
        decreases n - i,
    {
        i = i + 1;
    }
    let ghost c = i as int;
    while i < n && lt.blank(lines[i].as_slice())
        invariant
            c <= i <= n == lines.len(),
            lv == views(lines@),
            skip_blank(lv, c) == skip_blank(lv, i as int),
        decreases n - i,
    {
        i = i + 1;
    }
    assert(i as int == body_start(lv));

    let size_prefix = chars_of("size:");
    while i < n
        invariant
            i <= n == lines.len(),
            lv == views(lines@),
            lv == text_lines(content@),
            tests_ok(&lt),
            size_prefix@ == "size:"@,
            gdx_body(
                lv,
                i as int,
                GdxState {
                    texture_width,
                    page_height,
                    page_texture: page_texture@,
                    y_page_offset,
                    stacked_height,
                    regions: region_views(regions@),
                },
            ) == gdx_body(lv, body_start(lv), gdx_start(lv)),
        decreases n - i,
    {
        let t = trim(lines[i].as_slice());
        let ghost st = GdxState {
            texture_width,
            page_height,
            page_texture: page_texture@,
            y_page_offset,
            stacked_height,
            regions: region_views(regions@),
        };
        if t.len() == 0 {
            i = i + 1;
            continue;
        }
        if let Some((pw, ph)) = parse_page_size(t.as_slice()) {
            texture_width = Some(pw);
            page_height = ph as i32;
            stacked_height = y_page_offset.wrapping_add(ph as i32);
            i = i + 1;
            continue;
        }
        let header_next = if i + 1 < n {
            let nt = trim(lines[i + 1].as_slice());
            starts_with_exec(nt.as_slice(), size_prefix.as_slice())
        } else {
            false
        };
        if header_next {
            let (pw, ph) = match parse_page_size(trim(lines[i + 1].as_slice()).as_slice()) {
                Some(p) => p,
                None => (0u32, 0u32),
            };
            let mut j = i + 2;
            let mut stop = false;
            proof {
                lemma_skip_page_props(lv, i + 2);
            }
            while j < n && !stop
                invariant
                    i + 2 <= j <= n == lines.len(),
                    lv == views(lines@),
                    tests_ok(&lt),
                    stop ==> skip_page_props(lv, i + 2) == j as int,
                    !stop ==> skip_page_props(lv, i + 2) == skip_page_props(lv, j as int),
                decreases n - j + (if stop { 0int } else { 1int }),
            {
                if lt.blank(lines[j].as_slice()) {
                    j = j + 1;
                    stop = true;
                } else if lt.has_colon(lines[j].as_slice()) && !lt.indented(lines[j].as_slice()) {
                    j = j + 1;
                } else {
                    stop = true;
                }
            }
            if pw > 0 && ph > 0 {
                if chars_eq(t.as_slice(), page_texture.as_slice()) && page_height > 0 {
                    y_page_offset = y_page_offset.wrapping_add(page_height);
                } else {
                    y_page_offset = 0;
                    page_texture = t;
                }
                texture_width = Some(pw);
                page_height = ph as i32;
                stacked_height = y_page_offset.wrapping_add(ph as i32);
            }
            i = j;
            continue;
        }
        let mut d = AtlasRegionDraft::new();
        let mut j = i + 1;
        let ghost j0 = j as int;
        while j < n && !lt.blank(lines[j].as_slice()) && lt.indented(lines[j].as_slice())
            invariant
                j0 <= j <= n == lines.len(),
                lv == views(lines@),
                tests_ok(&lt),
                region_props(lv, j as int, d) == region_props(lv, j0, zero_draft()),
            decreases n - j,
        {
            if let Some((key, value)) = parse_atlas_entry(lines[j].as_slice()) {
                d.apply(key.as_slice(), value.as_slice());
            }
            j = j + 1;
        }
        if d.w > 0 && d.h > 0 {
            match crate::atlas::atlas_texture_rect(
                d.x,
                d.y.wrapping_add(y_page_offset),
                d.w,
                d.h,
                d.swap_dims,
            ) {
                Some((x, y, w, h)) => {
                    let ghost before = region_views(regions@);
                    let region = AtlasRegion {
                        name: crate::text::string_of(t.as_slice()),
                        x,
                        y,
                        width: w,
                        height: h,
                        rotated: d.rotated,
                    };
                    let ghost rv = region@;
                    regions.push(region);
                    assert(region_views(regions@) =~= before.push(rv));
                },
                None => {},
            }
        }
        i = j;
    }
    if stacked_height <= 0 {
        stacked_height = page_height;
    }
    let texture_height = if stacked_height > 0 {
        Some(stacked_height as u32)
    } else {
        None
    };
    let texture_file_name = match texture_file_name {
        Some(t) => Some(crate::text::string_of(t.as_slice())),
        None => None,
    };
    AtlasInfo {
        config_path: config_path.to_owned(),
        config_type: "atlas".to_owned(),
        texture_file_name,
        texture_width,
        texture_height,
        regions,
    }
}


// ---------------------------------------------------------------------------
// Laws
// ---------------------------------------------------------------------------

/// Every region has a positive width and height.
pub open spec fn regions_positive(rs: Seq<RegionView>) -> bool {
    forall|i: int| 0 <= i < rs.len() ==> #[trigger] rs[i].width > 0 && rs[i].height > 0
}

proof fn lemma_gdx_body_positive(lines: Seq<Seq<char>>, i: int, st: GdxState)
    requires
        regions_positive(st.regions),
    ensures
        regions_positive(gdx_body(lines, i, st).regions),
    decreases lines.len() - i,
{
    if 0 <= i < lines.len() {
        let t = trimmed(lines[i]);
        if t.len() == 0 {
            lemma_gdx_body_positive(lines, i + 1, st);
        } else if page_size(t) is Some {
            let (pw, ph) = page_size(t)->0;
            lemma_gdx_body_positive(
                lines,
                i + 1,
                GdxState {
                    texture_width: Some(pw),
                    page_height: ph as i32,
                    stacked_height: st.y_page_offset.wrapping_add(ph as i32),
                    ..st
                },
            );
        } else if i + 1 < lines.len() && starts_with(trimmed(lines[i + 1]), "size:"@) {
            let (pw, ph) = match page_size(trimmed(lines[i + 1])) {
                Some(p) => p,
                None => (0u32, 0u32),
            };
            let next = skip_page_props(lines, i + 2);
            lemma_skip_page_props(lines, i + 2);
            if pw > 0 && ph > 0 {
                let same = t == st.page_texture && st.page_height > 0;
                let off = if same {
                    st.y_page_offset.wrapping_add(st.page_height)
                } else {
                    0i32
                };
                lemma_gdx_body_positive(
                    lines,
                    next,
                    GdxState {
                        texture_width: Some(pw),
                        page_height: ph as i32,
                        page_texture: if same {
                            st.page_texture
                        } else {
                            t
                        },
                        y_page_offset: off,
                        stacked_height: off.wrapping_add(ph as i32),
                        regions: st.regions,
                    },
                );
            } else {
                lemma_gdx_body_positive(lines, next, st);
            }
        } else {
            let (d, next) = region_props(lines, i + 1, zero_draft());
            lemma_region_props(lines, i + 1, zero_draft());
            if d.w > 0 && d.h > 0 {
                match draft_to_region(t, d, st.y_page_offset) {
                    Some(r) => {
                        let st2 = GdxState { regions: st.regions.push(r), ..st };
                        assert(regions_positive(st2.regions)) by {
                            assert forall|k: int| 0 <= k < st2.regions.len() implies #[trigger] st2.regions[k].width
                                > 0 && st2.regions[k].height > 0 by {
                                if k < st.regions.len() {
                                    assert(st2.regions[k] == st.regions[k]);
                                }
                            }
                        }
                        lemma_gdx_body_positive(lines, next, st2);
                    },
                    None => {
                        lemma_gdx_body_positive(lines, next, st);
                    },
                }
            } else {
                lemma_gdx_body_positive(lines, next, st);
            }
        }
    }
}

/// Every region read from a LibGDX/Spine atlas has a positive width and height.
pub proof fn law_atlas_regions_have_positive_size(config_path: Seq<char>, content: Seq<char>)
    ensures
        regions_positive(gdx_info(config_path, content).regions),
{
    let lines = text_lines(content);
    lemma_gdx_body_positive(lines, body_start(lines), gdx_start(lines));
}

/// A `rotate:` value that swaps width and height also marks the region as rotated.
pub proof fn law_swapped_regions_are_rotated(value: Seq<char>)
    ensures
        rotate_swaps_dims(value) ==> has_rotation(value),
{
    reveal_strlit("true");
    reveal_strlit("false");
    reveal_strlit("90");
    reveal_strlit("270");
    let v = ascii_lowered(trimmed(value));
    if v == "false"@ {
        assert(!(v == "true"@));
        assert(!(v == "90"@));
        assert(!(v == "270"@));
    }
}

/// Only the `xy`, `size`, `bounds` and `rotate` properties shape a region: any other
/// property (`orig`, `offset`, `index`, ...) leaves the draft as it is.
pub proof fn law_other_properties_leave_region(d: AtlasRegionDraft, key: Seq<char>, value: Seq<char>)
    requires
        key != "xy"@,
        key != "size"@,
        key != "bounds"@,
        key != "rotate"@,
    ensures
        apply_property(d, key, value) == d,
{
}

/// A `size: w, h` property sets the region's width and height to its two numbers and
/// nothing else; an `xy: x, y` property sets its position and nothing else.
pub proof fn law_size_and_xy_set_their_fields(d: AtlasRegionDraft, a: Seq<char>, b: Seq<char>)
    requires
        !has_sub(a, ","@),
    ensures
        apply_property(d, "size"@, a + ","@ + b) == (AtlasRegionDraft {
            w: num_or_zero(a),
            h: num_or_zero(b),
            ..d
        }),
        apply_property(d, "xy"@, a + ","@ + b) == (AtlasRegionDraft {
            x: num_or_zero(a),
            y: num_or_zero(b),
            ..d
        }),
{
    reveal_strlit(",");
    reveal_strlit("size");
    reveal_strlit("xy");
    assert("size"@.len() != "xy"@.len());
    crate::text::lemma_split_once_first(a, b, ","@);
    assert(split_once(a + ","@ + b, ","@) == Some((a, b)));
}

} // verus!
