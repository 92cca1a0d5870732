use vela::listing::{file_entry, listing_target, sort_entries, FileEntry};
use vela::server::ServerState;

fn entry(name: &str, is_dir: bool) -> FileEntry {
    file_entry("", name.to_string(), is_dir, 10)
}

#[test]
fn entries() {
    let e = file_entry("", "a.txt".to_string(), false, 42);
    assert_eq!((e.name.as_str(), e.path.as_str(), e.size, e.is_dir), ("a.txt", "a.txt", 42, false));
    let e = file_entry("docs", "b".to_string(), true, 4096);
    assert_eq!((e.path.as_str(), e.size), ("docs/b", 0));
}

#[test]
fn sorted_dirs_first_case_insensitive_stable() {
    let input = vec![
        entry("b.txt", false),
        entry("Zeta", true),
        entry("A.txt", false),
        entry("alpha", true),
        entry("B.TXT", false),
    ];
    let out = sort_entries(input);
    let names: Vec<&str> = out.iter().map(|e| e.name.as_str()).collect();
    assert_eq!(names, vec!["alpha", "Zeta", "A.txt", "b.txt", "B.TXT"]);
}

#[test]
fn sort_uses_unicode_lowercase() {
    let out = sort_entries(vec![entry("Éclair", false), entry("élan", false), entry("Ebb", false)]);
    let names: Vec<&str> = out.iter().map(|e| e.name.as_str()).collect();
    assert_eq!(names, vec!["Ebb", "Éclair", "élan"]);
}

#[test]
fn listing_targets() {
    let s = ServerState { root: "/mnt/d".to_string(), read_only: true, token: None };
    let (full, rel) = listing_target(&s, None, Some("/docs")).unwrap();
    assert_eq!((full.as_str(), rel.as_str()), ("/mnt/d/docs", "docs"));
    let (full, rel) = listing_target(&s, None, None).unwrap();
    assert_eq!((full.as_str(), rel.as_str()), ("/mnt/d/", ""));
    assert_eq!(listing_target(&s, None, Some("..")).unwrap_err().status, 403);
    let (full, rel) = listing_target(&s, None, Some("../d/sub")).unwrap();
    assert_eq!((full.as_str(), rel.as_str()), ("/mnt/d/../d/sub", "../d/sub"));
    assert_eq!(listing_target(&s, None, Some("../e/sub")).unwrap_err().status, 403);
    let locked = ServerState { root: "/mnt/d".to_string(), read_only: true, token: Some("k".to_string()) };
    assert_eq!(listing_target(&locked, Some("x"), None).unwrap_err().status, 401);
}

#[test]
fn sort_is_deterministic() {
    let a = sort_entries(vec![entry("c", false), entry("a", true), entry("b", false)]);
    let b = sort_entries(vec![entry("b", false), entry("c", false), entry("a", true)]);
    let na: Vec<&str> = a.iter().map(|e| e.name.as_str()).collect();
    let nb: Vec<&str> = b.iter().map(|e| e.name.as_str()).collect();
    assert_eq!(na, nb);
    assert_eq!(na, vec!["a", "b", "c"]);
}
