use vela::files::{check_lookup, failure_reply, full_file_reply, page_path, page_reply, static_content_type, static_file_path, static_reply, Failure, Page};
use vela::reply::Body;

fn text_of(b: &Body) -> String {
    match b {
        Body::Text(t) => t.clone(),
        _ => panic!("not text"),
    }
}

#[test]
fn lookup_outcomes() {
    assert!(check_lookup(Ok(true)).is_none());
    let r = check_lookup(Ok(false)).unwrap();
    assert_eq!((r.status, text_of(&r.body)), (400, "Not a file".to_string()));
    let r = check_lookup(Err("No such file or directory (os error 2)".to_string())).unwrap();
    assert_eq!(r.status, 404);
    assert_eq!(text_of(&r.body), "File not found: No such file or directory (os error 2)");
}

#[test]
fn whole_file_reply() {
    let r = full_file_reply("image/png", 12345);
    assert_eq!(r.status, 200);
    assert!(matches!(r.body, Body::File));
    assert_eq!(
        r.headers,
        vec![
            ("content-type".to_string(), "image/png".to_string()),
            ("content-length".to_string(), "12345".to_string()),
            ("accept-ranges".to_string(), "bytes".to_string()),
            ("cache-control".to_string(), "public, max-age=3600".to_string()),
        ]
    );
}

#[test]
fn failure_replies() {
    let cases = [
        (Failure::OpenFile, 500, "Failed to open file"),
        (Failure::Seek, 500, "Failed to seek"),
        (Failure::ReadFile, 500, "Failed to read file"),
        (Failure::WriteChunk, 500, "Write error during streaming"),
    ];
    for (f, s, t) in cases {
        let r = failure_reply(f);
        assert_eq!((r.status, text_of(&r.body)), (s, t.to_string()));
    }
    let r = failure_reply(Failure::CreateFile("denied".to_string()));
    assert_eq!((r.status, text_of(&r.body)), (500, "Failed to create file: denied".to_string()));
}

#[test]
fn pages() {
    assert_eq!(page_path(&Page::Index), "src/static/index.html");
    assert_eq!(page_path(&Page::Script), "src/static/app.js");
    let r = page_reply(Page::Index, Some("<html>".to_string()));
    assert_eq!(r.status, 200);
    assert_eq!(r.headers, vec![("content-type".to_string(), "text/html; charset=utf-8".to_string())]);
    assert_eq!(text_of(&r.body), "<html>");
    let r = page_reply(Page::Script, None);
    assert_eq!((r.status, text_of(&r.body)), (404, "app.js not found".to_string()));
    let r = page_reply(Page::Index, None);
    assert_eq!((r.status, text_of(&r.body)), (404, "index.html not found".to_string()));
    let r = page_reply(Page::Script, Some("x".to_string()));
    assert_eq!(r.headers[0].1, "application/javascript; charset=utf-8");
}

#[test]
fn static_assets() {
    assert_eq!(static_file_path("css/site.css").unwrap(), "src/static/css/site.css");
    assert_eq!(static_file_path("a/../b.js").unwrap(), "src/static/a/../b.js");
    assert_eq!(static_content_type("css/site.css"), "text/css");
    assert_eq!(static_content_type("app.min.js"), "application/javascript");
    assert_eq!(static_content_type("page.html"), "text/html");
    assert_eq!(static_content_type("a.b/c"), "application/octet-stream");
    assert_eq!(static_content_type("js"), "application/javascript");
    assert_eq!(static_content_type("img.PNG"), "application/octet-stream");
    let r = static_reply("s.css", Some(vec![1, 2]));
    assert_eq!(r.status, 200);
    assert_eq!(r.headers, vec![("content-type".to_string(), "text/css".to_string())]);
    let r = static_reply("s.css", None);
    assert_eq!((r.status, text_of(&r.body)), (404, "File not found".to_string()));
}

#[test]
fn static_paths_stay_in_the_asset_directory() {
    assert_eq!(static_file_path("/etc/passwd").unwrap(), "src/static//etc/passwd");
    for p in ["../../etc/passwd", "../x.css", "a/../../b", ".."] {
        let r = static_file_path(p).unwrap_err();
        assert_eq!((r.status, text_of(&r.body)), (403, "Access denied".to_string()));
    }
}
