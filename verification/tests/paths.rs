use asset_localizer::path::{
    extension_exec, file_name_exec, file_stem_exec, join_exec, parent_key_exec, relative_path_exec,
};
use asset_localizer::text::{lines, parse_i32, parse_u32, trim};

fn chars(s: &str) -> Vec<char> {
    s.chars().collect()
}

fn text(v: Option<Vec<char>>) -> Option<String> {
    v.map(|v| v.into_iter().collect())
}

fn string(v: Vec<char>) -> String {
    v.into_iter().collect()
}

#[test]
fn names_as_std_path_reads_them() {
    for (p, name, stem, ext) in [
        ("/a/b.png", Some("b.png"), Some("b"), Some("png")),
        ("b.tar.gz", Some("b.tar.gz"), Some("b.tar"), Some("gz")),
        (".hidden", Some(".hidden"), Some(".hidden"), None),
        ("a/b/", Some("b"), Some("b"), None),
        ("a/./b.", Some("b."), Some("b"), Some("")),
        ("/", None, None, None),
        ("a/..", None, None, None),
        (".", None, None, None),
        ("", None, None, None),
    ] {
        let std_path = std::path::Path::new(p);
        assert_eq!(std_path.file_name().and_then(|n| n.to_str()), name, "{p}");
        assert_eq!(text(file_name_exec(&chars(p))).as_deref(), name, "{p}");
        assert_eq!(text(file_stem_exec(&chars(p))).as_deref(), stem, "{p}");
        assert_eq!(text(extension_exec(&chars(p))).as_deref(), ext, "{p}");
    }
}

#[test]
fn parents() {
    assert_eq!(text(parent_key_exec(&chars("/a/b/c.png"))).as_deref(), Some("/a/b"));
    assert_eq!(text(parent_key_exec(&chars("/a//b/./c.png"))).as_deref(), Some("/a/b"));
    assert_eq!(text(parent_key_exec(&chars("c.png"))).as_deref(), Some(""));
    assert_eq!(text(parent_key_exec(&chars("./c.png"))).as_deref(), Some("."));
    assert_eq!(text(parent_key_exec(&chars("/c.png"))).as_deref(), Some("/"));
    assert_eq!(text(parent_key_exec(&chars("/"))), None);
}

#[test]
fn relative_paths() {
    for (root, path, rel) in [
        ("/p", "/p/a/b.png", "a/b.png"),
        ("/p/", "/p/a/b.png", "a/b.png"),
        ("/p", "/q/a.png", "/q/a.png"),
        ("/p", "/p", ""),
        ("p", "p/x\\y.png", "x/y.png"),
        ("/p", "/pa/b.png", "/pa/b.png"),
    ] {
        assert_eq!(string(relative_path_exec(&chars(root), &chars(path))), rel, "{root} {path}");
    }
}

#[test]
fn relative_path_undoes_join() {
    let joined = string(join_exec(&chars("/proj/assets"), &chars("hero.png")));
    assert_eq!(joined, "/proj/assets/hero.png");
    assert_eq!(string(relative_path_exec(&chars("/proj/assets"), &chars(&joined))), "hero.png");
    assert_eq!(string(join_exec(&chars("dir/"), &chars("a"))), "dir/a");
    assert_eq!(string(join_exec(&chars(""), &chars("a"))), "a");
}

#[test]
fn integers_as_rust_parses_them() {
    for s in ["0", "-0", "+5", "-2147483648", "2147483647", "2147483648", "", "-", "+", "1 2", "x1", "٣", "00012"] {
        assert_eq!(parse_i32(&chars(s)), s.parse::<i32>().ok(), "{s}");
        assert_eq!(parse_u32(&chars(s)), s.parse::<u32>().ok(), "{s}");
    }
    assert_eq!(parse_u32(&chars("4294967295")), Some(u32::MAX));
    assert_eq!(parse_u32(&chars("4294967296")), None);
}

#[test]
fn trimming_and_lines_as_str_does() {
    for s in ["  a b \t", "\u{3000}x\u{A0}", "", " \n ", "a\r\nb\n\nc\r", "one\n"] {
        assert_eq!(string(trim(&chars(s))), s.trim(), "{s:?}");
        let got: Vec<String> = lines(&chars(s)).into_iter().map(string).collect();
        let want: Vec<String> = s.lines().map(|l| l.to_string()).collect();
        assert_eq!(got, want, "{s:?}");
    }
}
