use asset_localizer::scanner::{is_image_file, scan_directory, ScanError};

#[test]
fn image_extensions() {
    for p in ["a.png", "b/c.JPG", "d.jpeg", "e.Gif", "f.bmp", "g.webp", "/x/y.PnG"] {
        assert!(is_image_file(p), "{p}");
    }
    for p in ["a.psd", "png", ".png", "a.png/", "a.png.txt", "a", "", "dir/.webp"] {
        let expected = p == "a.png/";
        assert_eq!(is_image_file(p), expected, "{p}");
    }
}

#[test]
fn scan_keeps_images_in_path_order() {
    let files: Vec<String> = [
        "/p/z.png", "/p/a-b.png", "/p/a/b.png", "/p/notes.txt", "/p/A.PNG", "/p/ui/ui.plist", "/p/a/a.jpg",
    ]
    .iter()
    .map(|s| s.to_string())
    .collect();
    let images = scan_directory(true, &files).unwrap();
    assert_eq!(
        images,
        vec!["/p/A.PNG", "/p/a/a.jpg", "/p/a/b.png", "/p/a-b.png", "/p/z.png"]
    );
}

#[test]
fn scan_of_something_else_than_a_directory() {
    let files = vec!["/p/a.png".to_string()];
    assert_eq!(scan_directory(false, &files), Err(ScanError::NotADirectory));
}

#[test]
fn scan_of_an_empty_directory() {
    assert_eq!(scan_directory(true, &Vec::new()), Ok(Vec::new()));
}
