use asset_localizer::atlas::AtlasRegion;
use asset_localizer::json::{parse_json_text, JsonValue};
use asset_localizer::plist::{
    parse_cocos_plist, parse_cocos_plist_json, parse_rect_braces, parse_size_braces, plist_is_json, PlistError,
};

fn chars(s: &str) -> Vec<char> {
    s.chars().collect()
}

fn region(name: &str, x: i32, y: i32, width: i32, height: i32, rotated: bool) -> AtlasRegion {
    AtlasRegion { name: name.to_string(), x, y, width, height, rotated }
}

const FORMAT2: &str = r#"<?xml version="1.0" encoding="UTF-8"?>
<!DOCTYPE plist PUBLIC "-//Apple//DTD PLIST 1.0//EN" "http://www.apple.com/DTDs/PropertyList-1.0.dtd">
<plist version="1.0">
    <dict>
        <key>frames</key>
        <dict>
            <key>icon.png</key>
            <dict>
                <key>frame</key>
                <string>{{2,3},{40,20}}</string>
                <key>offset</key>
                <string>{0,0}</string>
                <key>rotated</key>
                <true/>
                <key>sourceColorRect</key>
                <string>{{0,0},{20,40}}</string>
                <key>sourceSize</key>
                <string>{20,40}</string>
            </dict>
            <key>button.png</key>
            <dict>
                <key>frame</key>
                <string>{{50,60},{10,12}}</string>
                <key>rotated</key>
                <false/>
            </dict>
        </dict>
        <key>metadata</key>
        <dict>
            <key>format</key>
            <integer>2</integer>
            <key>realTextureFileName</key>
            <string>ui.png</string>
            <key>size</key>
            <string>{256,128}</string>
            <key>textureFileName</key>
            <string>ui.png</string>
        </dict>
    </dict>
</plist>
"#;

#[test]
fn xml_format_2_frames() {
    let info = parse_cocos_plist("/p/ui.plist", FORMAT2).unwrap();
    assert_eq!(info.config_path, "/p/ui.plist");
    assert_eq!(info.config_type, "plist");
    assert_eq!(info.texture_file_name.as_deref(), Some("ui.png"));
    assert_eq!(info.texture_width, Some(256));
    assert_eq!(info.texture_height, Some(128));
    assert_eq!(
        info.regions,
        vec![region("icon.png", 2, 3, 20, 40, true), region("button.png", 50, 60, 10, 12, false)]
    );
}

#[test]
fn xml_on_one_line() {
    let text = "<plist><dict><key>frames</key><dict><key>a.png</key><dict><key>frame</key><string>{{1,2},{3,4}}</string></dict></dict><key>metadata</key><dict><key>format</key><integer>3</integer><key>size</key><string>{8,8}</string></dict></dict></plist>";
    let info = parse_cocos_plist("a.plist", text).unwrap();
    assert_eq!(info.regions, vec![region("a.png", 1, 2, 3, 4, false)]);
    assert_eq!(info.texture_width, Some(8));
    assert_eq!(info.texture_file_name, None);
}

#[test]
fn xml_format_0_counts_y_from_the_bottom() {
    let text = "<plist><dict><key>frames</key><dict>\n<key>a.png</key>\n<dict>\n<key>x</key><integer>10</integer>\n<key>y</key><integer>20</integer>\n<key>width</key><integer>30</integer>\n<key>height</key><integer>40</integer>\n</dict>\n</dict>\n<key>metadata</key><dict><key>format</key><integer>0</integer><key>size</key><string>{128,100}</string></dict></dict></plist>";
    let info = parse_cocos_plist("a.plist", text).unwrap();
    // 100 - 20 - 40
    assert_eq!(info.regions, vec![region("a.png", 10, 40, 30, 40, false)]);
}

#[test]
fn xml_format_0_needs_the_page_height() {
    let text = "<plist><dict><key>frames</key><dict><key>a.png</key><dict><key>x</key><integer>1</integer><key>y</key><integer>2</integer><key>width</key><integer>3</integer><key>height</key><integer>4</integer></dict></dict><key>metadata</key><dict><key>format</key><integer>1</integer></dict></dict></plist>";
    let info = parse_cocos_plist("a.plist", text).unwrap();
    assert!(info.regions.is_empty());
}

#[test]
fn texture_rect_is_taken_as_is() {
    let text = "<plist><dict><key>frames</key><dict><key>a.png</key><dict><key>textureRect</key><string>{{5,6},{7,8}}</string><key>textureRotated</key><true/></dict></dict><key>metadata</key><dict><key>format</key><integer>1</integer><key>size</key><string>{64,64}</string></dict></dict></plist>";
    let info = parse_cocos_plist("a.plist", text).unwrap();
    assert_eq!(info.regions, vec![region("a.png", 5, 6, 7, 8, true)]);
}

#[test]
fn xml_without_frames_has_no_regions() {
    let info = parse_cocos_plist("a.plist", "<plist><dict></dict></plist>").unwrap();
    assert!(info.regions.is_empty());
    assert_eq!(info.texture_file_name, None);
}

fn s(v: &str) -> JsonValue {
    JsonValue::Str(v.to_string())
}

fn obj(entries: Vec<(&str, JsonValue)>) -> JsonValue {
    JsonValue::Object(entries.into_iter().map(|(k, v)| (k.to_string(), v)).collect())
}

#[test]
fn json_plist_frames_and_metadata() {
    let text = r#"{"frames": {}}"#;
    assert!(plist_is_json(text));
    let root = obj(vec![
        (
            "frames",
            obj(vec![
                ("a.png", obj(vec![("textureRect", s("{{5,6},{7,8}}")), ("textureRotated", JsonValue::Bool(true))])),
                ("b.png", obj(vec![("frame", s("{{0,0},{10,20}}")), ("rotated", JsonValue::Bool(true))])),
                ("c.png", obj(vec![("frame", s("{{0,0},{0,20}}"))])),
            ]),
        ),
        (
            "metadata",
            obj(vec![
                ("format", JsonValue::Number(Some(2))),
                ("size", s("{64,32}")),
                ("textureFileName", s("sheet.png")),
            ]),
        ),
    ]);
    let info = parse_cocos_plist_json("j.plist", &root).unwrap();
    assert_eq!(info.texture_file_name.as_deref(), Some("sheet.png"));
    assert_eq!(info.texture_width, Some(64));
    assert_eq!(info.texture_height, Some(32));
    assert_eq!(
        info.regions,
        vec![region("a.png", 5, 6, 7, 8, true), region("b.png", 0, 0, 20, 10, true)]
    );
}

#[test]
fn json_rotated_that_is_not_a_bool_means_unrotated() {
    let root = obj(vec![(
        "frames",
        obj(vec![("a.png", obj(vec![("frame", s("{{0,0},{4,2}}")), ("rotated", s("yes")), ("textureRotated", JsonValue::Bool(true))]))]),
    )]);
    let info = parse_cocos_plist_json("j.plist", &root).unwrap();
    assert_eq!(info.regions, vec![region("a.png", 0, 0, 4, 2, false)]);
    assert_eq!(info.texture_file_name, None);
    assert_eq!(info.texture_height, None);
}

#[test]
fn json_real_texture_name_is_a_fallback() {
    let root = obj(vec![
        ("frames", obj(vec![])),
        ("metadata", obj(vec![("realTextureFileName", s("real.png"))])),
    ]);
    let info = parse_cocos_plist_json("j.plist", &root).unwrap();
    assert_eq!(info.texture_file_name.as_deref(), Some("real.png"));
}

#[test]
fn json_without_frames_is_an_error() {
    let root = obj(vec![("metadata", obj(vec![]))]);
    assert_eq!(parse_cocos_plist_json("j.plist", &root), Err(PlistError::MissingFrames));
    let root = obj(vec![("frames", JsonValue::Array(vec![]))]);
    assert_eq!(parse_cocos_plist_json("j.plist", &root), Err(PlistError::MissingFrames));
}

#[test]
fn json_text_without_a_document_is_an_error() {
    assert_eq!(parse_cocos_plist("j.plist", "\n  {"), Err(PlistError::InvalidJson));
}

#[test]
fn rect_braces() {
    assert_eq!(parse_rect_braces(&chars("{{1,2},{3,4}}")), Some((1, 2, 3, 4)));
    assert_eq!(parse_rect_braces(&chars(" {{1, 2} , {3, 4}} ")), Some((1, 2, 3, 4)));
    assert_eq!(parse_rect_braces(&chars("{{-1,2}, {3,4}}")), Some((-1, 2, 3, 4)));
    assert_eq!(parse_rect_braces(&chars("{1,2,3,4,5}")), Some((1, 2, 3, 4)));
    assert_eq!(parse_rect_braces(&chars("{1,2,3}")), None);
    assert_eq!(parse_rect_braces(&chars("{{1,2},{3,x}}")), None);
    assert_eq!(parse_rect_braces(&chars("1,2,3,4")), None);
}

#[test]
fn size_braces() {
    assert_eq!(parse_size_braces(&chars("{256,128}")), Some((256, 128)));
    assert_eq!(parse_size_braces(&chars(" { 1 , 2 } ")), Some((1, 2)));
    assert_eq!(parse_size_braces(&chars("{-1,2}")), None);
    assert_eq!(parse_size_braces(&chars("{1}")), None);
}

#[test]
fn json_plist_text_is_parsed() {
    let text = r#"  {
        "metadata": {"format": 2, "size": "{64,32}", "textureFileName": "sheet.png"},
        "frames": {
            "b.png": {"frame": "{{0,0},{10,20}}", "rotated": true},
            "a.png": {"textureRect": "{{5,6},{7,8}}", "textureRotated": true},
            "c.png": {"frame": "{{0,0},{0,20}}"}
        }
    }"#;
    let info = parse_cocos_plist("j.plist", text).unwrap();
    assert_eq!(info.config_type, "plist");
    assert_eq!(info.texture_file_name.as_deref(), Some("sheet.png"));
    assert_eq!(info.texture_width, Some(64));
    assert_eq!(info.texture_height, Some(32));
    assert_eq!(
        info.regions,
        vec![region("a.png", 5, 6, 7, 8, true), region("b.png", 0, 0, 20, 10, true)]
    );
    assert_eq!(parse_cocos_plist("j.plist", r#"{"metadata": {}}"#), Err(PlistError::MissingFrames));
    assert_eq!(parse_cocos_plist("j.plist", "{ not json"), Err(PlistError::InvalidJson));
}

#[test]
fn json_text_parses_into_values() {
    let v = parse_json_text(r#"{"b": [1, 2.5, -3], "a": {"t": true, "n": null, "s": "x"}}"#).unwrap();
    assert_eq!(
        v,
        obj(vec![
            ("a", obj(vec![("n", JsonValue::Null), ("s", s("x")), ("t", JsonValue::Bool(true))])),
            (
                "b",
                JsonValue::Array(vec![
                    JsonValue::Number(Some(1)),
                    JsonValue::Number(None),
                    JsonValue::Number(Some(-3)),
                ]),
            ),
        ])
    );
    assert_eq!(parse_json_text("{"), None);
}

#[test]
fn xml_names_keep_their_characters() {
    let text = "<plist><dict><key>frames</key><dict>\n<key>按钮_中.png</key>\n<dict><key>frame</key><string>{{1,2},{3,4}}</string></dict></dict></dict></plist>";
    let info = parse_cocos_plist("ui.plist", text).unwrap();
    assert_eq!(info.regions, vec![region("按钮_中.png", 1, 2, 3, 4, false)]);
}
