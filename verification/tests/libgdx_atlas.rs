use asset_localizer::atlas::AtlasRegion;
use asset_localizer::libgdx::{atlas_has_rotation, atlas_rotate_swaps_dims, parse_libgdx_atlas, parse_page_size};

fn chars(s: &str) -> Vec<char> {
    s.chars().collect()
}

fn region(name: &str, x: i32, y: i32, width: i32, height: i32, rotated: bool) -> AtlasRegion {
    AtlasRegion { name: name.to_string(), x, y, width, height, rotated }
}

const SPINE_ATLAS: &str = "
skeleton.png
size: 512,256
format: RGBA8888
filter: Linear,Linear
repeat: none
head
  rotate: false
  xy: 2, 2
  size: 100, 50
  orig: 100, 50
  offset: 0, 0
  index: -1
arm
  rotate: true
  xy: 104, 2
  size: 30, 60
  orig: 30, 60
  offset: 0, 0
  index: -1
";

#[test]
fn reads_texture_size_and_regions() {
    let info = parse_libgdx_atlas("/p/skeleton.atlas", SPINE_ATLAS);
    assert_eq!(info.config_path, "/p/skeleton.atlas");
    assert_eq!(info.config_type, "atlas");
    assert_eq!(info.texture_file_name.as_deref(), Some("skeleton.png"));
    assert_eq!(info.texture_width, Some(512));
    assert_eq!(info.texture_height, Some(256));
    assert_eq!(
        info.regions,
        vec![region("head", 2, 2, 100, 50, false), region("arm", 104, 2, 60, 30, true)]
    );
}

#[test]
fn stacks_pages_of_the_same_texture() {
    let text = "skeleton.png\nsize: 512,256\nformat: RGBA8888\nhead\n  xy: 0, 0\n  size: 10, 10\n\nskeleton.png\nsize: 512,128\nformat: RGBA8888\nleg\n  xy: 0, 10\n  size: 20, 20\n";
    let info = parse_libgdx_atlas("a.atlas", text);
    assert_eq!(info.texture_width, Some(512));
    assert_eq!(info.texture_height, Some(384));
    assert_eq!(
        info.regions,
        vec![region("head", 0, 0, 10, 10, false), region("leg", 0, 266, 20, 20, false)]
    );
}

#[test]
fn a_new_texture_starts_a_new_stack() {
    let text = "one.png\nsize: 64,64\nfilter: Linear,Linear\nhead\n  xy: 0, 0\n  size: 10, 10\n\ntwo.png\nsize: 32,16\nleg\n  xy: 1, 2\n  size: 3, 4\n";
    let info = parse_libgdx_atlas("a.atlas", text);
    assert_eq!(info.texture_file_name.as_deref(), Some("one.png"));
    assert_eq!(info.texture_width, Some(32));
    assert_eq!(info.texture_height, Some(16));
    assert_eq!(info.regions[1], region("leg", 1, 2, 3, 4, false));
}

#[test]
fn reads_bounds_and_degree_rotation() {
    let text = "sheet.png\nsize:128,64\nbody\n\tbounds: 4, 5, 30, 12\n\trotate: 90\ntail\n  bounds: 1,1,8,9\n  rotate: 180\n";
    let info = parse_libgdx_atlas("s.atlas", text);
    assert_eq!(
        info.regions,
        vec![region("body", 4, 5, 12, 30, true), region("tail", 1, 1, 8, 9, true)]
    );
}

#[test]
fn drops_regions_without_a_size() {
    let text = "sheet.png\nsize: 16,16\nempty\n  xy: 1, 1\nfull\n  xy: 2, 2\n  size: 3, 3\n";
    let info = parse_libgdx_atlas("s.atlas", text);
    assert_eq!(info.regions, vec![region("full", 2, 2, 3, 3, false)]);
}

#[test]
fn without_page_size_the_first_size_line_counts() {
    // The texture size comes from the first `size:` line of the file, indented or not.
    let info = parse_libgdx_atlas("s.atlas", "sheet.png\nicon\n  xy: 0, 0\n  size: 5, 5\n");
    assert_eq!(info.texture_width, Some(5));
    assert_eq!(info.texture_height, Some(5));
    assert_eq!(info.regions, vec![region("icon", 0, 0, 5, 5, false)]);
}

#[test]
fn empty_text_gives_no_regions() {
    let info = parse_libgdx_atlas("s.atlas", "");
    assert_eq!(info.texture_file_name, None);
    assert_eq!(info.texture_width, None);
    assert_eq!(info.texture_height, None);
    assert!(info.regions.is_empty());
}

#[test]
fn windows_line_endings() {
    let info = parse_libgdx_atlas("s.atlas", "sheet.png\r\nsize: 8,8\r\nicon\r\n  xy: 1, 2\r\n  size: 3, 4\r\n");
    assert_eq!(info.texture_file_name.as_deref(), Some("sheet.png"));
    assert_eq!(info.regions, vec![region("icon", 1, 2, 3, 4, false)]);
}

#[test]
fn page_size_lines() {
    assert_eq!(parse_page_size(&chars("size: 512, 256")), Some((512, 256)));
    assert_eq!(parse_page_size(&chars("  size:1,2 ")), Some((1, 2)));
    assert_eq!(parse_page_size(&chars("size: 0, 256")), None);
    assert_eq!(parse_page_size(&chars("size: -1, 256")), None);
    assert_eq!(parse_page_size(&chars("format: RGBA8888")), None);
}

#[test]
fn rotation_values() {
    for (v, swaps, rotated) in [
        ("true", true, true),
        ("TRUE", true, true),
        ("false", false, false),
        ("90", true, true),
        ("270", true, true),
        ("180", false, true),
        ("0", false, false),
        ("+90", true, true),
        ("45", false, true),
        ("sideways", false, false),
    ] {
        assert_eq!(atlas_rotate_swaps_dims(&chars(v)), swaps, "{v}");
        assert_eq!(atlas_has_rotation(&chars(v)), rotated, "{v}");
        // a value that swaps the dimensions always marks the region rotated
        assert!(!swaps || rotated);
    }
}

#[test]
fn every_region_has_positive_size() {
    let info = parse_libgdx_atlas("s.atlas", "p.png\nsize: 8,8\na\n  size: -3, 4\nb\n  size: 0, 4\nc\n  bounds: 0,0,1,1\n");
    assert!(info.regions.iter().all(|r| r.width > 0 && r.height > 0));
    assert_eq!(info.regions.len(), 1);
}
