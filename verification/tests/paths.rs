use vela::paths::{canonical_within, get_content_type, is_within_root, join_path, parent_path, trim_start_matches_char};

#[test]
fn content_type_by_extension() {
    assert_eq!(get_content_type("/mnt/x/photo.JPG"), "image/jpeg");
    assert_eq!(get_content_type("/mnt/x/photo.jpeg"), "image/jpeg");
    assert_eq!(get_content_type("/mnt/x/a.png"), "image/png");
    assert_eq!(get_content_type("/mnt/x/a.GiF"), "image/gif");
    assert_eq!(get_content_type("/mnt/x/a.webp"), "image/webp");
    assert_eq!(get_content_type("/mnt/x/doc.pdf"), "application/pdf");
    assert_eq!(get_content_type("/mnt/x/clip.MP4"), "video/mp4");
    assert_eq!(get_content_type("/mnt/x/clip.WebM"), "video/webm");
    assert_eq!(get_content_type("/mnt/x/archive.tar.gz"), "application/octet-stream");
    assert_eq!(get_content_type("/mnt/x/.png"), "application/octet-stream");
    assert_eq!(get_content_type("/mnt/x/movie.mp4/"), "video/mp4");
    assert_eq!(get_content_type("/mnt/x/movie.mp4/."), "video/mp4");
    assert_eq!(get_content_type("/mnt/x/.."), "application/octet-stream");
    assert_eq!(get_content_type("/"), "application/octet-stream");
    assert_eq!(get_content_type(""), "application/octet-stream");
    assert_eq!(get_content_type("noext"), "application/octet-stream");
    assert_eq!(get_content_type("a.b.png"), "image/png");
}

#[test]
fn content_type_matches_std_path_extension() {
    let paths = ["a/b.c", "a/.b", "a/b.", "a/..", "a/.", "./x.pdf", "x/y.PDF/", "", "/", "..", ".x.y"];
    for p in paths {
        let ext = std::path::Path::new(p).extension().and_then(|s| s.to_str()).map(|s| s.to_lowercase());
        let expected = match ext.as_deref() {
            Some("jpg") | Some("jpeg") => "image/jpeg",
            Some("png") => "image/png",
            Some("gif") => "image/gif",
            Some("webp") => "image/webp",
            Some("pdf") => "application/pdf",
            Some("mp4") => "video/mp4",
            Some("webm") => "video/webm",
            _ => "application/octet-stream",
        };
        assert_eq!(get_content_type(p), expected, "path {:?}", p);
    }
}

#[test]
fn join_matches_std() {
    let cases = [("/mnt/x", "a"), ("/mnt/x/", "a"), ("/mnt/x", ""), ("", "a"), ("/mnt/x", "/etc"), ("a", "b/c")];
    for (a, b) in cases {
        let expected = std::path::PathBuf::from(a).join(b);
        assert_eq!(join_path(a, b), expected.to_str().unwrap(), "{:?} {:?}", a, b);
    }
}

#[test]
fn trims_leading_slashes() {
    assert_eq!(trim_start_matches_char("///a/b", '/'), "a/b");
    assert_eq!(trim_start_matches_char("a/", '/'), "a/");
    assert_eq!(trim_start_matches_char("", '/'), "");
}

#[test]
fn within_root() {
    assert!(is_within_root("/mnt/x", "/mnt/x/a/b"));
    assert!(is_within_root("/mnt/x", "/mnt/x/"));
    assert!(is_within_root("/mnt/x", "/mnt/x//a/./b"));
    assert!(is_within_root("/mnt/x", "/mnt/x/a/../b"));
    assert!(is_within_root("/mnt/x", "/mnt/x/a/.."));
    assert!(!is_within_root("/mnt/x", "/mnt/x/.."));
    assert!(!is_within_root("/mnt/x", "/mnt/x/../../etc/passwd"));
    assert!(!is_within_root("/mnt/x", "/mnt/x/a/../../y"));
    assert!(!is_within_root("/mnt/x", "/etc/passwd"));
    assert!(!is_within_root("/mnt/x", "/mnt/xy"));
    assert!(!is_within_root("/mnt/x", "/mnt"));
}

#[test]
fn within_root_agrees_with_std_starts_with_without_parent_dirs() {
    let cases = [("/mnt/x", "/mnt/x/a"), ("/mnt/x", "/mnt/xa"), ("/mnt/x/", "/mnt/x"), ("./r", "r/a"), ("./r", "./r/a"), ("/mnt//x", "/mnt/x/./y")];
    for (r, f) in cases {
        assert_eq!(is_within_root(r, f), std::path::Path::new(f).starts_with(r), "{:?} {:?}", r, f);
    }
}

#[test]
fn resolved_targets_under_resolved_root() {
    assert!(canonical_within("/mnt/d", Some("/media/disk"), Some("/media/disk/a/b.txt")));
    assert!(canonical_within("/mnt/d", Some("/media/disk"), Some("/media/disk")));
    assert!(!canonical_within("/mnt/d", Some("/media/disk"), Some("/etc/passwd")));
    assert!(!canonical_within("/mnt/d", Some("/media/disk"), Some("/media/diskette/x")));
    assert!(canonical_within("/mnt/d", Some("/media/disk"), None));
    assert!(canonical_within("/mnt/d", None, Some("/mnt/d/x")));
    assert!(!canonical_within("/mnt/d", None, Some("/etc")));
}

#[test]
fn parents_of_paths() {
    assert_eq!(parent_path("a/b/c"), "a/b");
    assert_eq!(parent_path("a/b/"), "a");
    assert_eq!(parent_path("/mnt/d/file.txt"), "/mnt/d");
    assert_eq!(parent_path("x"), ".");
    assert_eq!(parent_path("/x"), "/");
    assert_eq!(parent_path(""), ".");
}

#[test]
fn lexical_containment() {
    assert!(is_within_root("/r", "/r/../r/f"));
    assert!(is_within_root("/r", "/r/a/../../r/b"));
    assert!(is_within_root("/r", "/r/a/.."));
    assert!(!is_within_root("/r", "/r/../etc"));
    assert!(!is_within_root("/r", "/r/.."));
    assert!(!is_within_root("/r", "/r/../rr/f"));
    assert!(is_within_root("/", "/../etc"));
    assert!(is_within_root("/r", "/../r/x"));
    assert!(!is_within_root(".", "./.."));
    assert!(!is_within_root("a", "a/../../a"));
    assert!(is_within_root("../r", "../r/../r/x"));
    assert!(!is_within_root("../r", "../r/../../r/x"));
}

#[test]
fn content_type_ignores_extension_case() {
    assert_eq!(get_content_type("/x/a.JPG"), get_content_type("/y/z/a.jpg"));
    assert_eq!(get_content_type("clip.WebM"), get_content_type("d/clip.webm"));
    assert_eq!(get_content_type("d/clip.WebM"), "video/webm");
    assert_eq!(get_content_type("/x/doc.Pdf"), get_content_type("doc.pdf"));
}
