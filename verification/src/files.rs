//! Replies of the file routes: the page and its assets, whole files, and
//! the failures along the way.
use vstd::prelude::*;
use vstd::string::*;
use crate::numbers::{decimal, decimal_string};
use crate::reply::{Body, BodyView, Reply, ReplyView, push_header, text_reply, make_message_reply, make_text_reply};
use crate::paths::{is_within_root, last_dot, path_within};
use crate::text::chars_of;

verus! {

/// The reply to a request whose target was looked up on disk: `404` with the
/// error's text when the lookup failed, `400 Not a file` when the target is not
/// a regular file.
pub open spec fn lookup_spec(found: Result<bool, Seq<char>>) -> Option<ReplyView> {
    match found {
        Err(msg) => Some(text_reply(404, "File not found: "@ + msg)),
        Ok(is_file) => if is_file {
            None
        } else {
            Some(text_reply(400, "Not a file"@))
        },
    }
}

/// Decides what a looked-up target gets (see [`lookup_spec`]); `found` is
/// whether it is a regular file, or the lookup error's text.
pub fn check_lookup(found: Result<bool, String>) -> (r: Option<Reply>)
    ensures
        match r {
            Some(rep) => lookup_spec(match found {
                Ok(b) => Ok(b),
                Err(m) => Err(m@),
            }) == Some(rep@),
            None => lookup_spec(match found {
                Ok(b) => Ok(b),
                Err(m) => Err(m@),
            }) is None,
        },
{
    match found {
        Err(msg) => {
            let mut t = String::from_str("File not found: ");
            t.append(msg.as_str());
            Some(make_text_reply(404, t))
        },
        Ok(is_file) => if is_file {
            None
        } else {
            Some(make_message_reply(400, "Not a file"))
        },
    }
}

/// The headers of a whole-file reply.
pub open spec fn full_file_headers(content_type: Seq<char>, size: u64) -> Seq<(Seq<char>, Seq<char>)> {
    seq![
        ("content-type"@, content_type),
        ("content-length"@, decimal(size as nat)),
        ("accept-ranges"@, "bytes"@),
        ("cache-control"@, "public, max-age=3600"@),
    ]
}

/// The `200` reply that streams a whole file of `size` bytes.
pub fn full_file_reply(content_type: &str, size: u64) -> (r: Reply)
    ensures
        r@ == (ReplyView {
            status: 200,
            headers: full_file_headers(content_type@, size),
            body: BodyView::File,
        }),
{
    let mut h: Vec<(String, String)> = Vec::new();
    push_header(&mut h, "content-type", String::from_str(content_type));
    push_header(&mut h, "content-length", decimal_string(size));
    push_header(&mut h, "accept-ranges", String::from_str("bytes"));
    push_header(&mut h, "cache-control", String::from_str("public, max-age=3600"));
    let r = Reply { status: 200, headers: h, body: Body::File };
    assert(r@.headers =~= full_file_headers(content_type@, size));
    r
}

/// A step of serving a file or an upload that failed.
#[derive(Debug)]
pub enum Failure {
    /// The file could not be opened.
    OpenFile,
    /// Seeking to the range's start failed.
    Seek,
    /// Reading the range failed.
    ReadFile,
    /// The upload's file could not be created; the error's text.
    CreateFile(String),
    /// Writing a received chunk failed.
    WriteChunk,
}

/// The reply to each failure.
pub open spec fn failure_spec(f: Failure) -> ReplyView {
    match f {
        Failure::OpenFile => text_reply(500, "Failed to open file"@),
        Failure::Seek => text_reply(500, "Failed to seek"@),
        Failure::ReadFile => text_reply(500, "Failed to read file"@),
        Failure::CreateFile(e) => text_reply(500, "Failed to create file: "@ + e@),
        Failure::WriteChunk => text_reply(500, "Write error during streaming"@),
    }
}

/// The reply to a failure (see [`failure_spec`]).
pub fn failure_reply(f: Failure) -> (r: Reply)
    ensures
        r@ == failure_spec(f),
{
    match f {
        Failure::OpenFile => make_message_reply(500, "Failed to open file"),
        Failure::Seek => make_message_reply(500, "Failed to seek"),
        Failure::ReadFile => make_message_reply(500, "Failed to read file"),
        Failure::CreateFile(e) => {
            let mut t = String::from_str("Failed to create file: ");
            t.append(e.as_str());
            make_text_reply(500, t)
        },
        Failure::WriteChunk => make_message_reply(500, "Write error during streaming"),
    }
}

/// The two pages of the web interface.
#[derive(Debug)]
pub enum Page {
    /// `/`, `src/static/index.html`.
    Index,
    /// `/app.js`, `src/static/app.js`.
    Script,
}

/// Where a page is read from.
pub open spec fn page_file(p: Page) -> Seq<char> {
    match p {
        Page::Index => "src/static/index.html"@,
        Page::Script => "src/static/app.js"@,
    }
}

/// The reply to a page request: the page's text with its content type, or `404`
/// when it could not be read.
pub open spec fn page_spec(p: Page, content: Option<Seq<char>>) -> ReplyView {
    match content {
        Some(c) => ReplyView {
            status: 200,
            headers: seq![
                ("content-type"@, match p {
                    Page::Index => "text/html; charset=utf-8"@,
                    Page::Script => "application/javascript; charset=utf-8"@,
                }),
            ],
            body: BodyView::Text(c),
        },
        None => match p {
            Page::Index => text_reply(404, "index.html not found"@),
            Page::Script => text_reply(404, "app.js not found"@),
        },
    }
}

/// The file that a page is read from (see [`page_file`]).
pub fn page_path(p: &Page) -> (r: String)
    ensures
        r@ == page_file(*p),
{
    match p {
        Page::Index => String::from_str("src/static/index.html"),
        Page::Script => String::from_str("src/static/app.js"),
    }
}

/// The reply to a page request (see [`page_spec`]); `content` is the page's
/// text when it could be read.
pub fn page_reply(p: Page, content: Option<String>) -> (r: Reply)
    ensures
        r@ == page_spec(p, match content {
            Some(c) => Some(c@),
            None => None,
        }),
{
    match content {
        Some(c) => {
            let mut h: Vec<(String, String)> = Vec::new();
            let ct = match p {
                Page::Index => "text/html; charset=utf-8",
                Page::Script => "application/javascript; charset=utf-8",
            };
            push_header(&mut h, "content-type", String::from_str(ct));
            let r = Reply { status: 200, headers: h, body: Body::Text(c) };
            assert(r@.headers =~= page_spec(p, Some(c@)).headers);
            r
        },
        None => match p {
            Page::Index => make_message_reply(404, "index.html not found"),
            Page::Script => make_message_reply(404, "app.js not found"),
        },
    }
}

/// The file behind `/static/{path}`: the path under `src/static/`, as given.
pub open spec fn static_file_spec(path: Seq<char>) -> Seq<char> {
    "src/static/"@ + path
}

/// The directory the assets are served from.
pub open spec fn static_dir() -> Seq<char> {
    "src/static"@
}

/// The file behind `/static/{path}` (see [`static_file_spec`]), or `403 Access
/// denied` when that file does not lie under `src/static` (see [`path_within`]).
pub fn static_file_path(path: &str) -> (r: Result<String, Reply>)
    ensures
        path_within(static_dir(), static_file_spec(path@)) ==> (r matches Ok(f) && f@
            == static_file_spec(path@)),
        !path_within(static_dir(), static_file_spec(path@)) ==> (r matches Err(e) && e@
            == text_reply(403, "Access denied"@)),
{
    let mut r = String::from_str("src/static/");
    r.append(path);
    if is_within_root("src/static", r.as_str()) {
        Ok(r)
    } else {
        Err(make_message_reply(403, "Access denied"))
    }
}

/// The text after the last `.` of `s`, or all of `s` when it has none (the last
/// piece of `s.split('.')`).
pub open spec fn after_last_dot(s: Seq<char>) -> Seq<char> {
    s.skip(last_dot(s) + 1)
}

/// The content type of an asset under `/static/`, by the last `.`-separated piece
/// of its path.
pub open spec fn static_type_spec(path: Seq<char>) -> Seq<char> {
    let ext = after_last_dot(path);
    if ext == "css"@ {
        "text/css"@
    } else if ext == "js"@ {
        "application/javascript"@
    } else if ext == "html"@ {
        "text/html"@
    } else {
        "application/octet-stream"@
    }
}

proof fn lemma_last_dot_bounds(s: Seq<char>)
    ensures
        -1 <= last_dot(s) < s.len(),
    decreases s.len(),
{
    if s.len() > 0 && s.last() != '.' {
        lemma_last_dot_bounds(s.drop_last());
    }
}

/// The content type of an asset (see [`static_type_spec`]).
pub fn static_content_type(path: &str) -> (r: String)
    ensures
        r@ == static_type_spec(path@),
{
    let v = chars_of(path);
    let n = v.len();
    let mut i: usize = n;
    assert(v@.take(n as int) =~= v@);
    while i > 0 && v[i - 1] != '.'
        invariant
            i <= n == v@.len(),
            last_dot(v@) == last_dot(v@.take(i as int)),
        decreases i,
    {
        assert(v@.take(i as int).drop_last() =~= v@.take(i - 1));
        i = i - 1;
    }
    proof {
        if i > 0 {
            assert(v@.take(i as int).last() == '.');
        }
        lemma_last_dot_bounds(v@);
    }
    let ext = crate::text::string_of(&v, i, n);
    assert(ext@ =~= after_last_dot(path@));
    let ev = chars_of(ext.as_str());
    if crate::paths::chars_equal(&ev, &chars_of("css")) {
        String::from_str("text/css")
    } else if crate::paths::chars_equal(&ev, &chars_of("js")) {
        String::from_str("application/javascript")
    } else if crate::paths::chars_equal(&ev, &chars_of("html")) {
        String::from_str("text/html")
    } else {
        String::from_str("application/octet-stream")
    }
}

/// The reply to `/static/{path}`: the bytes with their content type, or `404`
/// when the file could not be read.
pub open spec fn static_spec(path: Seq<char>, content: Option<Seq<u8>>) -> ReplyView {
    match content {
        Some(c) => ReplyView {
            status: 200,
            headers: seq![("content-type"@, static_type_spec(path))],
            body: BodyView::Bytes(c),
        },
        None => text_reply(404, "File not found"@),
    }
}

/// The reply to `/static/{path}` (see [`static_spec`]).
pub fn static_reply(path: &str, content: Option<Vec<u8>>) -> (r: Reply)
    ensures
        r@ == static_spec(path@, match content {
            Some(c) => Some(c@),
            None => None,
        }),
{
    match content {
        Some(c) => {
            let mut h: Vec<(String, String)> = Vec::new();
            push_header(&mut h, "content-type", static_content_type(path));
            let r = Reply { status: 200, headers: h, body: Body::Bytes(c) };
            assert(r@.headers =~= static_spec(path@, Some(c@)).headers);
            r
        },
        None => make_message_reply(404, "File not found"),
    }
}

} // verus!
