use vela::range::{header_text, range_plan, checked_range_length, partial_reply, range_bounds, range_length, split_range};
use vela::reply::Body;

fn range(h: &str, size: u64) -> Option<(u64, u64)> {
    split_range(h).ok().map(|(a, b)| range_bounds(&a, &b, size))
}

#[test]
fn parses_ranges() {
    assert_eq!(range("bytes=0-99", 1000), Some((0, 99)));
    assert_eq!(range("bytes=500-", 1000), Some((500, 999)));
    assert_eq!(range("bytes=-500", 1000), Some((0, 500)));
    assert_eq!(range("bytes=0-5000", 1000), Some((0, 999)));
    assert_eq!(range("bytes=x-y", 1000), Some((0, 999)));
    assert_eq!(range("bytes=bytes=1-2", 1000), Some((1, 2)));
    assert_eq!(range("3-4", 1000), Some((3, 4)));
    assert_eq!(range("bytes=+3-+4", 1000), Some((3, 4)));
    let (a, b) = split_range("bytes=10-20").unwrap();
    assert_eq!((a.as_str(), b.as_str()), ("10", "20"));
}

#[test]
fn rejects_bad_range_format() {
    for h in ["bytes=1-2-3", "bytes=12", "", "bytes="] {
        let e = split_range(h).unwrap_err();
        assert_eq!(e.status, 400, "{:?}", h);
        match e.body {
            Body::Text(t) => assert_eq!(t, "Invalid range format"),
            _ => panic!(),
        }
    }
}

#[test]
fn partial_reply_headers() {
    assert_eq!(range_length(10, 19), 10);
    let r = partial_reply("video/mp4", 10, 12, 100, vec![1, 2, 3]);
    assert_eq!(r.status, 206);
    let h: Vec<(String, String)> = r.headers.clone();
    assert_eq!(
        h,
        vec![
            ("content-type".to_string(), "video/mp4".to_string()),
            ("content-length".to_string(), "3".to_string()),
            ("content-range".to_string(), "bytes 10-12/100".to_string()),
            ("accept-ranges".to_string(), "bytes".to_string()),
        ]
    );
    match r.body {
        Body::Bytes(b) => assert_eq!(b, vec![1, 2, 3]),
        _ => panic!(),
    }
}

#[test]
fn checked_range_edges() {
    assert_eq!(checked_range_length(0, 0), Some(1));
    assert_eq!(checked_range_length(10, 19), Some(10));
    assert_eq!(checked_range_length(20, 19), None);
    assert_eq!(checked_range_length(500, 99), None);
}

#[test]
fn header_bytes_as_text() {
    assert_eq!(header_text(b"bytes=0-9"), Some("bytes=0-9".to_string()));
    assert_eq!(header_text(b"a\tb"), Some("a\tb".to_string()));
    assert_eq!(header_text(b""), Some(String::new()));
    assert_eq!(header_text(b"bytes=0-\x7f"), None);
    assert_eq!(header_text(&[0xc3, 0xa9]), None);
    assert_eq!(header_text(b"x\ny"), None);
}

#[test]
fn range_plans() {
    assert_eq!(range_plan(b"bytes=0-99", 1000).unwrap().unwrap(), (0, 99));
    assert_eq!(range_plan(b"bytes=500-", 1000).unwrap().unwrap(), (500, 999));
    assert_eq!(range_plan(b"bytes=5000-", 1000).unwrap().unwrap(), (5000, 999));
    let e = range_plan(&[b'b', 0xff], 1000).unwrap().unwrap_err();
    assert_eq!(e.status, 400);
    assert!(matches!(e.body, Body::Text(ref t) if t == "Invalid range header"));
    let e = range_plan(b"bytes=1-2-3", 1000).unwrap().unwrap_err();
    assert!(matches!(e.body, Body::Text(ref t) if t == "Invalid range format"));
    assert!(range_plan(b"bytes=0-1", 0).is_none());
    assert_eq!(range_plan(b"bytes=1-2-3", 0).unwrap().unwrap_err().status, 400);
}
