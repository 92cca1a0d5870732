use vela::reply::{Body, Reply};
use vela::server::{authenticate, check_auth, confine_target, request_target, token_matches, ServerState};

fn state(token: Option<&str>) -> ServerState {
    ServerState { root: "/mnt/drive".to_string(), read_only: true, token: token.map(|t| t.to_string()) }
}

fn text(r: &Reply) -> String {
    match &r.body {
        Body::Text(t) => t.clone(),
        _ => panic!("not a text body"),
    }
}

#[test]
fn new_state_has_random_token() {
    let s = ServerState::new("/mnt/a".to_string(), false, false);
    let t = s.token.clone().unwrap();
    assert_eq!(t.len(), 36);
    assert_eq!(t.as_bytes()[14], b'4');
    assert!(t.chars().all(|c| c == '-' || c.is_ascii_hexdigit() && !c.is_ascii_uppercase()));
    let other = ServerState::new("/mnt/a".to_string(), false, false);
    assert_ne!(other.token, s.token);
    assert_eq!(s.root, "/mnt/a");
    assert!(!s.read_only);
    let open = ServerState::new("/mnt/a".to_string(), true, true);
    assert!(open.token.is_none());
    assert!(open.read_only);
}

#[test]
fn auth_checks_cookie() {
    let s = state(Some("secret"));
    assert!(check_auth(&s, Some("secret")));
    assert!(!check_auth(&s, Some("secret ")));
    assert!(!check_auth(&s, None));
    let open = state(None);
    assert!(check_auth(&open, None));
    assert!(check_auth(&open, Some("anything")));
}

#[test]
fn authenticate_grants_cookie() {
    let s = state(Some("secret"));
    let a = authenticate(&s, "  secret\n");
    assert_eq!(a.reply.status, 200);
    assert_eq!(text(&a.reply), "Authenticated");
    let c = a.cookie.unwrap();
    assert_eq!(c.name, "vela_token");
    assert_eq!(c.value, "secret");
    assert_eq!(c.path, "/");
    assert!(c.http_only && c.same_site_lax);
    assert_eq!(c.max_age_days, 7);
    assert!(check_auth(&s, Some(c.value.as_str())));
}

#[test]
fn authenticate_refuses_wrong_token() {
    let s = state(Some("secret"));
    let a = authenticate(&s, "wrong");
    assert_eq!(a.reply.status, 401);
    assert!(matches!(a.reply.body, Body::Empty));
    assert!(a.cookie.is_none());
    let open = state(None);
    let b = authenticate(&open, "");
    assert_eq!(b.reply.status, 401);
    assert!(b.cookie.is_none());
}

#[test]
fn request_target_checks() {
    let s = state(Some("t"));
    let r = request_target(&s, None, "a.txt").unwrap_err();
    assert_eq!(r.status, 401);
    assert_eq!(text(&r), "Authentication required");
    assert_eq!(request_target(&s, Some("t"), "/dir/a.txt").unwrap(), "/mnt/drive/dir/a.txt");
    assert_eq!(request_target(&s, Some("t"), "dir/../a.txt").unwrap(), "/mnt/drive/dir/../a.txt");
    let d = request_target(&s, Some("t"), "../../etc/passwd").unwrap_err();
    assert_eq!(d.status, 403);
    assert_eq!(text(&d), "Access denied");
    assert_eq!(request_target(&s, Some("t"), "//etc/passwd").unwrap(), "/mnt/drive/etc/passwd");
    assert_eq!(request_target(&s, Some("t"), "").unwrap(), "/mnt/drive/");
    assert_eq!(request_target(&s, Some("t"), "../drive/f").unwrap(), "/mnt/drive/../drive/f");
    assert_eq!(request_target(&s, Some("t"), "../drivex/f").unwrap_err().status, 403);
    assert_eq!(request_target(&s, Some("t"), "..").unwrap_err().status, 403);
}

#[test]
fn state_with_token() {
    let s = ServerState::with_token("/mnt/x".to_string(), true, Some("k".to_string()));
    assert_eq!((s.root.as_str(), s.read_only, s.token.as_deref()), ("/mnt/x", true, Some("k")));
}

#[test]
fn trim_matches_std() {
    for t in ["  x ", "\u{3000}x\u{85}", "\u{200B}x", "", "   ", "a b"] {
        assert_eq!(vela::text::trim_text(t), t.trim(), "{:?}", t);
    }
}

#[test]
fn tokens_compare_whole() {
    let t: Vec<char> = "secret".chars().collect();
    assert!(token_matches(&t, &"secret".chars().collect()));
    assert!(!token_matches(&t, &"secreT".chars().collect()));
    assert!(!token_matches(&t, &"secret!".chars().collect()));
    assert!(!token_matches(&t, &"secre".chars().collect()));
    assert!(!token_matches(&t, &Vec::new()));
    assert!(token_matches(&Vec::new(), &Vec::new()));
}

#[test]
fn resolved_targets_are_confined() {
    assert!(confine_target("/mnt/drive", Some("/media/usb"), Some("/media/usb/docs/a.txt")).is_ok());
    assert!(confine_target("/mnt/drive", Some("/media/usb"), None).is_ok());
    let r = confine_target("/mnt/drive", Some("/media/usb"), Some("/etc/passwd")).unwrap_err();
    assert_eq!((r.status, text(&r)), (403, "Access denied".to_string()));
    let r = confine_target("/mnt/drive", None, Some("/etc")).unwrap_err();
    assert_eq!(r.status, 403);
}
