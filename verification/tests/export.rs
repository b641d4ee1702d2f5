use asset_localizer::export::ExportEntry;

#[test]
fn zip_names_use_forward_slashes() {
    let e = ExportEntry { path: "C:\\p\\a\\b.png".to_string(), relative_path: "a\\b.png".to_string() };
    assert_eq!(e.zip_entry_name(), "a/b.png");
    let e = ExportEntry { path: "/p/a.png".to_string(), relative_path: "a.png".to_string() };
    assert_eq!(e.zip_entry_name(), "a.png");
}

#[test]
fn zip_name_keeps_every_other_character() {
    let e = ExportEntry { path: "x".to_string(), relative_path: "\\dir\\\\sub/é\\".to_string() };
    assert_eq!(e.zip_entry_name(), "/dir//sub/é/");
    let e = ExportEntry { path: "x".to_string(), relative_path: String::new() };
    assert_eq!(e.zip_entry_name(), "");
}
