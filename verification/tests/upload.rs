use vela::reply::Body;
use vela::server::ServerState;
use vela::upload::{begin_upload, field_kind, FieldKind};

fn state(read_only: bool) -> ServerState {
    ServerState { root: "/mnt/d".to_string(), read_only, token: Some("tok".to_string()) }
}

fn text_of(b: &Body) -> String {
    match b {
        Body::Text(t) => t.clone(),
        _ => panic!("not text"),
    }
}

#[test]
fn upload_needs_auth_and_write_mode() {
    let e = begin_upload(&state(false), None).unwrap_err();
    assert_eq!((e.status, text_of(&e.body)), (401, "Authentication required".to_string()));
    let e = begin_upload(&state(true), Some("tok")).unwrap_err();
    assert_eq!((e.status, text_of(&e.body)), (403, "Server is in read-only mode".to_string()));
    let s = begin_upload(&state(false), Some("tok")).unwrap();
    assert_eq!(s.target_dir, "/mnt/d");
    assert_eq!(s.filename, "");
}

#[test]
fn upload_flow() {
    let mut s = begin_upload(&state(false), Some("tok")).unwrap();
    assert!(matches!(field_kind("path"), FieldKind::Path));
    assert!(matches!(field_kind("file"), FieldKind::File));
    assert!(matches!(field_kind("other"), FieldKind::Other));
    s.on_path("/photos");
    assert_eq!(s.target_dir, "/mnt/d/photos");
    assert_eq!(s.on_file("a.jpg").unwrap(), "/mnt/d/photos/a.jpg");
    assert_eq!(s.filename, "a.jpg");
    let r = s.finish();
    assert_eq!(r.status, 200);
    assert!(matches!(r.body, Body::Empty));
}

#[test]
fn upload_without_file() {
    let s = begin_upload(&state(false), Some("tok")).unwrap();
    let r = s.finish();
    assert_eq!((r.status, text_of(&r.body)), (400, "No file provided".to_string()));
}

#[test]
fn upload_generates_name() {
    let mut s = begin_upload(&state(false), Some("tok")).unwrap();
    let dest = s.on_file("").unwrap();
    assert!(s.filename.starts_with("upload_") && s.filename.ends_with(".bin"));
    assert_eq!(s.filename.len(), "upload_".len() + 36 + ".bin".len());
    assert_eq!(dest, format!("/mnt/d/{}", s.filename));
}

#[test]
fn upload_traversal_blocked() {
    let mut s = begin_upload(&state(false), Some("tok")).unwrap();
    s.on_path("../etc");
    let e = s.on_file("x").unwrap_err();
    assert_eq!((e.status, text_of(&e.body)), (403, "Invalid path".to_string()));
    let mut s = begin_upload(&state(false), Some("tok")).unwrap();
    assert!(s.on_file("../../etc/passwd").is_err());
    assert!(s.on_file("/etc/passwd").is_err());
    assert_eq!(s.on_file("sub/../ok.txt").unwrap(), "/mnt/d/sub/../ok.txt");
    let mut s = begin_upload(&state(false), Some("tok")).unwrap();
    s.on_path("../d/sub");
    assert_eq!(s.on_file("x.txt").unwrap(), "/mnt/d/../d/sub/x.txt");
    let mut s = begin_upload(&state(false), Some("tok")).unwrap();
    s.on_path("sub");
    assert!(s.on_file("../../x.txt").is_err());
}

#[test]
fn upload_names() {
    assert_eq!(vela::upload::upload_name("0f8fad5b-d9cb-469f-a165-70867728950e"), "upload_0f8fad5b-d9cb-469f-a165-70867728950e.bin");
}

#[test]
fn upload_destination_resolved_under_root() {
    let mut s = begin_upload(&state(false), Some("tok")).unwrap();
    s.on_path("link");
    let dest = s.on_file("x.txt").unwrap();
    assert_eq!(dest, "/mnt/d/link/x.txt");
    assert!(s.confirm_destination(Some("/media/d"), false, None, Some("/media/d/sub")).is_ok());
    assert!(s.confirm_destination(Some("/media/d"), true, Some("/media/d/sub/x.txt"), Some("/media/d/sub")).is_ok());
    let e = s.confirm_destination(Some("/media/d"), false, None, Some("/etc")).unwrap_err();
    assert_eq!((e.status, text_of(&e.body)), (403, "Invalid path".to_string()));
    let e = s.confirm_destination(Some("/media/d"), true, Some("/etc/cron.d/x"), Some("/media/d/sub")).unwrap_err();
    assert_eq!(e.status, 403);
    assert!(s.confirm_destination(Some("/media/d"), false, None, None).is_ok());
    let e = s.confirm_destination(Some("/media/d"), true, None, Some("/media/d/sub")).unwrap_err();
    assert_eq!((e.status, text_of(&e.body)), (403, "Invalid path".to_string()));
}
