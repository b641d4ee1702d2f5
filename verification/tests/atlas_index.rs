use asset_localizer::atlas::{AtlasInfo, AtlasRegion};
use asset_localizer::index::{
    atlas_for_image_with_index, atlas_index_keys, build_atlas_index, config_kind,
    sibling_config_name, texture_key_exec, AtlasIndex, ConfigEntry, ConfigKind, ImageConfigs,
};

fn info(config_path: &str, texture: Option<&str>, region_count: usize) -> AtlasInfo {
    AtlasInfo {
        config_path: config_path.to_string(),
        config_type: "atlas".to_string(),
        texture_file_name: texture.map(|t| t.to_string()),
        texture_width: Some(64),
        texture_height: Some(64),
        regions: (0..region_count)
            .map(|i| AtlasRegion { name: format!("r{i}"), x: 0, y: 0, width: 1, height: 1, rotated: false })
            .collect(),
    }
}

/// The text of a LibGDX atlas on a 64×64 page with `region_count` 1×1 regions.
fn atlas_text(texture: &str, region_count: usize) -> String {
    let mut t = format!("{texture}\nsize: 64,64\nformat: RGBA8888\n");
    for i in 0..region_count {
        t.push_str(&format!("r{i}\n  xy: 0, 0\n  size: 1, 1\n"));
    }
    t
}

/// The text of an XML plist with `region_count` 1×1 frames, naming its texture if given.
fn plist_text(texture: Option<&str>, region_count: usize) -> String {
    let mut t = String::from("<plist><dict><key>frames</key><dict>");
    for i in 0..region_count {
        t.push_str(&format!("<key>r{i}</key><dict><key>frame</key><string>{{{{0,0}},{{1,1}}}}</string></dict>"));
    }
    t.push_str("</dict><key>metadata</key><dict><key>format</key><integer>2</integer>");
    if let Some(tex) = texture {
        t.push_str(&format!("<key>textureFileName</key><string>{tex}</string>"));
    }
    t.push_str("<key>size</key><string>{64,64}</string></dict></dict></plist>");
    t
}

fn entry(path: &str, text: Option<String>) -> ConfigEntry {
    ConfigEntry { path: path.to_string(), text }
}

fn string(v: Vec<char>) -> String {
    v.into_iter().collect()
}

#[test]
fn keys_are_sorted_and_unique() {
    let i = info("/p/ui/ui.plist", Some("UI.png"), 1);
    let keys: Vec<String> =
        atlas_index_keys(&"/p/ui/ui.plist".chars().collect::<Vec<_>>(), &i).into_iter().map(string).collect();
    assert_eq!(keys, vec!["ui", "ui.jpg", "ui.png", "ui.webp"]);
    let i = info("/p/hero.atlas", Some("sheets/Hero_0.png"), 1);
    let keys: Vec<String> =
        atlas_index_keys(&"/p/hero.atlas".chars().collect::<Vec<_>>(), &i).into_iter().map(string).collect();
    assert_eq!(keys, vec!["hero", "hero.jpg", "hero.png", "hero.webp", "hero_0", "hero_0.png"]);
}

#[test]
fn texture_keys() {
    assert_eq!(string(texture_key_exec(&"Dir/Sub/Hero.PNG".chars().collect::<Vec<_>>())), "hero.png");
    assert_eq!(string(texture_key_exec(&"..".chars().collect::<Vec<_>>())), "..");
    assert_eq!(string(texture_key_exec(&"ΑΣ.png".chars().collect::<Vec<_>>())), "ασ.png");
}

#[test]
fn lookup_by_texture_name_then_by_stem() {
    let configs = vec![
        entry("/p/a/sheet.atlas", Some(atlas_text("tex.png", 2))),
        entry("/p/b/other.plist", Some(plist_text(None, 1))),
        entry("/p/c/broken.atlas", None),
        entry("/p/d/empty.atlas", Some(atlas_text("empty.png", 0))),
        entry("/p/e/bad.plist", Some("{ not json".to_string())),
        entry("/p/f/notes.txt", Some(atlas_text("notes.png", 1))),
    ];
    let index = build_atlas_index(&configs);
    let found = index.lookup("/p/x/TEX.png").unwrap();
    assert_eq!(found.config_path, "/p/a/sheet.atlas");
    // the stem of the image names the config
    let found = index.lookup("/p/x/sheet.jpg").unwrap();
    assert_eq!(found.config_path, "/p/a/sheet.atlas");
    // a config without a texture name is taken to name `{stem}.png`
    let found = index.lookup("/p/b/other.png").unwrap();
    assert_eq!(found.texture_file_name.as_deref(), Some("other.png"));
    assert_eq!(found.config_type, "plist");
    assert!(index.lookup("/p/d/empty.png").is_none());
    assert!(index.lookup("/p/e/bad.png").is_none());
    assert!(index.lookup("/p/f/notes.png").is_none());
    assert!(index.lookup("/p/x/unknown.png").is_none());
    assert!(index.lookup("/").is_none());
}

#[test]
fn lookup_prefers_the_image_directory() {
    let configs = vec![
        entry("/p/one/ui.plist", Some(plist_text(Some("ui.png"), 1))),
        entry("/p/two/ui.plist", Some(plist_text(Some("ui.png"), 1))),
    ];
    let index = build_atlas_index(&configs);
    assert_eq!(index.lookup("/p/two/ui.png").unwrap().config_path, "/p/two/ui.plist");
    assert_eq!(index.lookup("/p/one/ui.png").unwrap().config_path, "/p/one/ui.plist");
    assert_eq!(index.lookup("/p/three/ui.png").unwrap().config_path, "/p/one/ui.plist");
}

#[test]
fn an_empty_index_finds_nothing() {
    let index = AtlasIndex::new();
    assert!(index.lookup("/p/a.png").is_none());
}

#[test]
fn pairing_order_for_an_image() {
    let index = build_atlas_index(&vec![entry("/p/q/x.atlas", Some(atlas_text("hero.png", 1)))]);
    let sibling = entry("/p/hero.atlas", Some(atlas_text("hero.png", 1)));
    let plist = entry("/p/hero.plist", Some(plist_text(Some("hero.png"), 1)));
    let nothing = ImageConfigs { sibling_atlas: None, sibling_plist: None, dir_configs: vec![] };
    let both = ImageConfigs { sibling_atlas: Some(sibling), sibling_plist: Some(plist), dir_configs: vec![] };
    let found = atlas_for_image_with_index("/p/hero.png", &index, &both).unwrap();
    assert_eq!(found.config_path, "/p/hero.atlas");
    assert_eq!(found.config_type, "atlas");
    let plist_only = ImageConfigs {
        sibling_atlas: Some(entry("/p/hero.atlas", Some(atlas_text("hero.png", 0)))),
        sibling_plist: Some(entry("/p/hero.plist", Some(plist_text(Some("hero.png"), 1)))),
        dir_configs: vec![],
    };
    let found = atlas_for_image_with_index("/p/hero.png", &index, &plist_only).unwrap();
    assert_eq!(found.config_path, "/p/hero.plist");
    assert_eq!(found.config_type, "plist");
    assert_eq!(atlas_for_image_with_index("/p/hero.png", &index, &nothing).unwrap().config_path, "/p/q/x.atlas");
    let dir = ImageConfigs {
        sibling_atlas: None,
        sibling_plist: None,
        dir_configs: vec![
            entry("/p/r/a.plist", Some(plist_text(Some("zzz.png"), 1))),
            entry("/p/r/b.plist", Some(plist_text(Some("sub/Villain.PNG"), 1))),
        ],
    };
    assert_eq!(atlas_for_image_with_index("/p/r/villain.png", &index, &dir).unwrap().config_path, "/p/r/b.plist");
    let by_stem = ImageConfigs {
        sibling_atlas: None,
        sibling_plist: None,
        dir_configs: vec![entry("/p/r/Boss.plist", Some(plist_text(Some("zzz.png"), 1)))],
    };
    assert_eq!(atlas_for_image_with_index("/p/r/boss.jpg", &index, &by_stem).unwrap().config_path, "/p/r/Boss.plist");
    assert!(atlas_for_image_with_index("/p/r/none.png", &index, &nothing).is_none());
}

#[test]
fn one_config_is_found_by_its_texture_name_in_any_directory() {
    let index = build_atlas_index(&vec![entry("/p/D/c.atlas", Some(atlas_text("Sheet.png", 1)))]);
    let found = index.lookup("/p/D/SHEET.png").unwrap();
    assert_eq!(found.config_path, "/p/D/c.atlas");
    assert_eq!(found.texture_file_name.as_deref(), Some("Sheet.png"));
    assert_eq!(index.lookup("/p/E/c.jpg").unwrap().config_path, "/p/D/c.atlas");
    assert_eq!(index.lookup("/elsewhere/sheet.webp").unwrap().config_path, "/p/D/c.atlas");
    assert!(index.lookup("/p/D/other.png").is_none());
}

#[test]
fn config_kinds_and_sibling_names() {
    assert_eq!(config_kind("a/b.PLIST"), Some(ConfigKind::Plist));
    assert_eq!(config_kind("b.atlas"), Some(ConfigKind::Atlas));
    assert_eq!(config_kind("b.png"), None);
    assert_eq!(config_kind(".atlas"), None);
    assert_eq!(sibling_config_name("/p/hero.png", "atlas").as_deref(), Some("hero.atlas"));
    assert_eq!(sibling_config_name("/", "atlas"), None);
}
