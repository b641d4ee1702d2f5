//! Texture atlas data: the regions that a LibGDX/Spine `.atlas` or a Cocos `.plist`
//! describes, the conversion of their coordinates to top-left texture pixels, and the
//! index that pairs images with the configs that reference them.
use vstd::prelude::*;

verus! {

/// One packed sprite of an atlas, in texture pixels with the origin at the top left.
#[derive(Clone, Debug, PartialEq)]
pub struct AtlasRegion {
    pub name: String,
    /// Left edge in texture pixels (same top-left origin as the PNG/canvas).
    pub x: i32,
    /// Top edge in texture pixels (same top-left origin as the PNG/canvas).
    pub y: i32,
    /// Packed axis-aligned width in the texture.
    pub width: i32,
    /// Packed axis-aligned height in the texture.
    pub height: i32,
    /// Region was packed rotated 90° CCW (LibGDX) / CW (Cocos) in the atlas.
    pub rotated: bool,
}

/// The mathematical content of an `AtlasRegion`.
pub struct RegionView {
    pub name: Seq<char>,
    pub x: i32,
    pub y: i32,
    pub width: i32,
    pub height: i32,
    pub rotated: bool,
}

impl View for AtlasRegion {
    type V = RegionView;

    open spec fn view(&self) -> RegionView {
        RegionView {
            name: self.name@,
            x: self.x,
            y: self.y,
            width: self.width,
            height: self.height,
            rotated: self.rotated,
        }
    }
}

/// A parsed atlas or plist config.
#[derive(Clone, Debug, PartialEq)]
pub struct AtlasInfo {
    pub config_path: String,
    pub config_type: String,
    pub texture_file_name: Option<String>,
    pub texture_width: Option<u32>,
    pub texture_height: Option<u32>,
    pub regions: Vec<AtlasRegion>,
}

/// The mathematical content of an `AtlasInfo`.
pub struct InfoView {
    pub config_path: Seq<char>,
    pub config_type: Seq<char>,
    pub texture_file_name: Option<Seq<char>>,
    pub texture_width: Option<u32>,
    pub texture_height: Option<u32>,
    pub regions: Seq<RegionView>,
}

/// The view of an optional text.
pub open spec fn opt_view(o: Option<String>) -> Option<Seq<char>> {
    match o {
        Some(s) => Some(s@),
        None => None,
    }
}

/// The views of a list of regions.
pub open spec fn region_views(v: Seq<AtlasRegion>) -> Seq<RegionView> {
    v.map_values(|r: AtlasRegion| r@)
}

impl View for AtlasInfo {
    type V = InfoView;

    open spec fn view(&self) -> InfoView {
        InfoView {
            config_path: self.config_path@,
            config_type: self.config_type@,
            texture_file_name: opt_view(self.texture_file_name),
            texture_width: self.texture_width,
            texture_height: self.texture_height,
            regions: region_views(self.regions@),
        }
    }
}

/// A copy of a region with the same content.
pub fn copy_region(r: &AtlasRegion) -> (c: AtlasRegion)
    ensures
        c@ == r@,
{
    AtlasRegion {
        name: r.name.clone(),
        x: r.x,
        y: r.y,
        width: r.width,
        height: r.height,
        rotated: r.rotated,
    }
}

/// A copy of an optional text.
pub fn copy_opt_string(o: &Option<String>) -> (c: Option<String>)
    ensures
        opt_view(c) == opt_view(*o),
{
    match o {
        Some(s) => Some(s.clone()),
        None => None,
    }
}

/// A copy of a config with the same content.
pub fn copy_info(info: &AtlasInfo) -> (c: AtlasInfo)
    ensures
        c@ == info@,
{
    let mut regions: Vec<AtlasRegion> = Vec::new();
    let mut i: usize = 0;
    while i < info.regions.len()
        invariant
            i <= info.regions.len(),
            region_views(regions@) =~= region_views(info.regions@.take(i as int)),
        decreases info.regions.len() - i,
    {
        let c = copy_region(&info.regions[i]);
        let ghost before = regions@;
        regions.push(c);
        assert(regions@ =~= before.push(c));
        assert(info.regions@.take(i + 1) =~= info.regions@.take(i as int).push(info.regions@[i as int]));
        assert(region_views(before.push(c)) =~= region_views(before).push(c@));
        assert(region_views(info.regions@.take(i as int).push(info.regions@[i as int]))
            =~= region_views(info.regions@.take(i as int)).push(info.regions@[i as int]@));
        i = i + 1;
        assert(region_views(regions@) =~= region_views(info.regions@.take(i as int)));
    }
    assert(info.regions@.take(i as int) =~= info.regions@);
    AtlasInfo {
        config_path: info.config_path.clone(),
        config_type: info.config_type.clone(),
        texture_file_name: copy_opt_string(&info.texture_file_name),
        texture_width: info.texture_width,
        texture_height: info.texture_height,
        regions,
    }
}

// ---------------------------------------------------------------------------
// Plist coordinate normalization
// ---------------------------------------------------------------------------

/// How a plist frame was packed: the plist `format`, and whether its rectangle came from
/// a `frame` entry (rather than a `textureRect`).
#[derive(Clone, Copy)]
pub struct PlistPack {
    pub format: i32,
    pub from_frame: bool,
}

/// A plist rectangle in top-left texture pixels: width and height swap for a rotated
/// `frame`, and `frame`s of formats 0 and 1 count `y` from the bottom of the page, so
/// they need the page height. Sizes must be positive.
pub open spec fn plist_rect(
    x: i32,
    y: i32,
    w: i32,
    h: i32,
    rotated: bool,
    pack: PlistPack,
    page_height: Option<i32>,
) -> Option<(i32, i32, i32, i32)> {
    if w <= 0 || h <= 0 {
        None
    } else {
        let swap = pack.from_frame && rotated;
        let tw = if swap { h } else { w };
        let th = if swap { w } else { h };
        if pack.from_frame && pack.format <= 1 {
            match page_height {
                Some(ph) => Some((x, ph.wrapping_sub(y).wrapping_sub(th), tw, th)),
                None => None,
            }
        } else {
            Some((x, y, tw, th))
        }
    }
}

/// Converts a plist rectangle to top-left texture pixels (arithmetic wraps on `i32`).
pub fn normalize_plist_rect(
    x: i32,
    y: i32,
    w: i32,
    h: i32,
    rotated: bool,
    pack: PlistPack,
    page_height: Option<i32>,
) -> (r: Option<(i32, i32, i32, i32)>)
    ensures
        r == plist_rect(x, y, w, h, rotated, pack, page_height),
{
    if w <= 0 || h <= 0 {
        return None;
    }
    let swap = if pack.from_frame { rotated } else { false };
    let (tw, th) = if swap { (h, w) } else { (w, h) };
    let ty = if pack.from_frame && pack.format <= 1 {
        match page_height {
            Some(ph) => ph.wrapping_sub(y).wrapping_sub(th),
            None => { return None; },
        }
    } else {
        y
    };
    Some((x, ty, tw, th))
}

/// The region that a plist frame describes, if its rectangle is usable. The page height
/// is taken as an `i32` the way `as` converts it (wrapping).
pub open spec fn plist_region(
    name: Seq<char>,
    x: i32,
    y: i32,
    w: i32,
    h: i32,
    rotated: bool,
    plist_format: i32,
    from_frame: bool,
    page_height: Option<u32>,
) -> Option<RegionView> {
    let ph = match page_height {
        Some(v) => Some(v as i32),
        None => None,
    };
    match plist_rect(x, y, w, h, rotated, PlistPack { format: plist_format, from_frame }, ph) {
        Some((rx, ry, rw, rh)) => Some(
            RegionView { name, x: rx, y: ry, width: rw, height: rh, rotated },
        ),
        None => None,
    }
}

/// Builds the region of a plist frame.
pub fn build_plist_region(
    name: String,
    x: i32,
    y: i32,
    w: i32,
    h: i32,
    rotated: bool,
    plist_format: i32,
    from_frame: bool,
    page_height: Option<u32>,
) -> (r: Option<AtlasRegion>)
    ensures
        match r {
            Some(reg) => plist_region(
                name@,
                x,
                y,
                w,
                h,
                rotated,
                plist_format,
                from_frame,
                page_height,
            ) == Some(reg@),
            None => plist_region(
                name@,
                x,
                y,
                w,
                h,
                rotated,
                plist_format,
                from_frame,
                page_height,
            ) is None,
        },
{
    let ph = match page_height {
        Some(v) => Some(v as i32),
        None => None,
    };
    match normalize_plist_rect(
        x,
        y,
        w,
        h,
        rotated,
        PlistPack { format: plist_format, from_frame },
        ph,
    ) {
        Some((rx, ry, rw, rh)) => Some(
            AtlasRegion { name, x: rx, y: ry, width: rw, height: rh, rotated },
        ),
        None => None,
    }
}

// ---------------------------------------------------------------------------
// LibGDX atlas rectangles
// ---------------------------------------------------------------------------

/// An atlas rectangle as it stands, with width and height swapped when the region was
/// rotated by 90° or 270°. Sizes must be positive.
pub open spec fn atlas_rect(x: i32, y: i32, w: i32, h: i32, swap_dims: bool) -> Option<
    (i32, i32, i32, i32),
> {
    if w <= 0 || h <= 0 {
        None
    } else if swap_dims {
        Some((x, y, h, w))
    } else {
        Some((x, y, w, h))
    }
}

/// Use atlas xy/size/bounds as-is; only swap packed width/height when rotated 90°/270°.
pub fn atlas_texture_rect(x: i32, y: i32, w: i32, h: i32, swap_dims: bool) -> (r: Option<
    (i32, i32, i32, i32),
>)
    ensures
        r == atlas_rect(x, y, w, h, swap_dims),
{
    if w <= 0 || h <= 0 {
        return None;
    }
    if swap_dims {
        Some((x, y, h, w))
    } else {
        Some((x, y, w, h))
    }
}

} // verus!
