//! The server's state and its access decisions: sessions, the paths that a
//! request may reach, and the replies that each outcome gets.
use vstd::prelude::*;
use vstd::string::*;
use crate::paths::{canonical_within, resolved_within, join_path, is_within_root, join_spec, path_within, trim_start_char, trim_start_matches_char};
use crate::reply::{Reply, ReplyView, text_reply, status_reply, make_message_reply, make_status_reply};
use crate::text::{chars_of, trim_ws, trim_text};

verus! {

/// Whether `c` is a lowercase hexadecimal digit.
pub open spec fn is_lower_hex(c: char) -> bool {
    (48 <= (c as u32) && (c as u32) <= 57) || (97 <= (c as u32) && (c as u32) <= 102)
}

/// The text of a random (version 4) UUID in its hyphenated lowercase form:
/// 36 characters, `-` at positions 8, 13, 18 and 23, lowercase hexadecimal
/// digits elsewhere, the version digit `4` at position 14 and one of `8`, `9`,
/// `a`, `b` at position 19.
pub open spec fn is_uuid_v4_text(t: Seq<char>) -> bool {
    &&& t.len() == 36
    &&& forall|i: int|
        0 <= i < 36 ==> if i == 8 || i == 13 || i == 18 || i == 23 {
            #[trigger] t[i] == '-'
        } else {
            is_lower_hex(t[i])
        }
    &&& t[14] == '4'
    &&& (t[19] == '8' || t[19] == '9' || t[19] == 'a' || t[19] == 'b')
}

/// A fresh random UUID as text: `uuid::Uuid::new_v4()` rendered by its
/// `Display` impl (`to_string`).  The value is random; what is claimed is only
/// its shape, which `new_v4` (it sets the version and variant bits) and the
/// hyphenated lowercase `Display` format give every outcome.
#[verifier::external_body]
pub(crate) fn new_uuid_text() -> (t: String)
    ensures
        is_uuid_v4_text(t@),
{
    uuid::Uuid::new_v4().to_string()
}

/// What the server serves and how: the served root, whether uploads are
/// refused, and the access token (`None` when authentication is off).
#[derive(Debug)]
pub struct ServerState {
    pub root: String,
    pub read_only: bool,
    pub token: Option<String>,
}

/// The token of a state, as text.
pub open spec fn token_of(state: &ServerState) -> Option<Seq<char>> {
    match state.token {
        Some(t) => Some(t@),
        None => None,
    }
}

/// An optional text, as a value.
pub open spec fn opt_text(o: Option<&str>) -> Option<Seq<char>> {
    match o {
        Some(t) => Some(t@),
        None => None,
    }
}

impl ServerState {
    /// The state `start` serves with: a fresh random token unless
    /// authentication is disabled.
    pub fn new(root: String, read_only: bool, no_auth: bool) -> (s: ServerState)
        ensures
            s.root == root,
            s.read_only == read_only,
            s.token is None <==> no_auth,
            s.token matches Some(t) ==> is_uuid_v4_text(t@),
    {
        let token = if no_auth {
            None
        } else {
            Some(new_uuid_text())
        };
        ServerState::with_token(root, read_only, token)
    }

    /// The state that serves `root` with the given token.
    pub fn with_token(root: String, read_only: bool, token: Option<String>) -> (s: ServerState)
        ensures
            s.root == root,
            s.read_only == read_only,
            s.token == token,
    {
        ServerState { root, read_only, token }
    }
}

/// A request is let through when the server has no token, or when it carries
/// the session cookie and its value is the token.
pub open spec fn auth_ok(token: Option<Seq<char>>, cookie: Option<Seq<char>>) -> bool {
    match token {
        None => true,
        Some(t) => cookie == Some(t),
    }
}

/// Whether `given` is the token `token`, comparing every character of the token
/// whatever the first difference, so that the time taken does not tell how much
/// of a guess was right.
pub fn token_matches(token: &Vec<char>, given: &Vec<char>) -> (r: bool)
    ensures
        r == (token@ == given@),
{
    let mut same = token.len() == given.len();
    let mut i: usize = 0;
    while i < token.len()
        invariant
            i <= token.len(),
            same == (token.len() == given.len() && forall|j: int| 0 <= j < i ==> token@[j] == given@[j]),
        decreases token.len() - i,
    {
        if i < given.len() {
            if token[i] != given[i] {
                same = false;
            }
        }
        i = i + 1;
    }
    if same {
        assert(token@ =~= given@);
    }
    same
}

/// Decides whether a request with the given `vela_token` cookie value (if it has
/// one) is authenticated.
pub fn check_auth(state: &ServerState, cookie: Option<&str>) -> (r: bool)
    ensures
        r == auth_ok(token_of(state), opt_text(cookie)),
{
    match &state.token {
        None => true,
        Some(t) => match cookie {
            Some(c) => {
                let cv = chars_of(c);
                let tv = chars_of(t.as_str());
                token_matches(&tv, &cv)
            },
            None => false,
        },
    }
}

/// The name of the session cookie.
pub open spec fn cookie_name() -> Seq<char> {
    "vela_token"@
}

/// The session cookie that a successful authentication sets.
#[derive(Debug)]
pub struct SessionCookie {
    pub name: String,
    pub value: String,
    pub path: String,
    pub http_only: bool,
    pub same_site_lax: bool,
    pub max_age_days: i64,
}

/// The outcome of an authentication request: the reply, and the cookie to set.
#[derive(Debug)]
pub struct Authentication {
    pub reply: Reply,
    pub cookie: Option<SessionCookie>,
}

/// An authentication request succeeds when the server has a token and the
/// request body, trimmed of surrounding whitespace, is that token.
pub open spec fn grants(token: Option<Seq<char>>, body: Seq<char>) -> bool {
    match token {
        Some(t) => trim_ws(body) == t,
        None => false,
    }
}

/// Answers `POST /api/auth`: on success `200 Authenticated` and an HttpOnly,
/// SameSite=Lax cookie `vela_token` for path `/` that lasts seven days and holds
/// the token; otherwise `401` with no body.
pub fn authenticate(state: &ServerState, body: &str) -> (a: Authentication)
    ensures
        a.cookie is Some <==> grants(token_of(state), body@),
        a.cookie matches Some(c) ==> {
            &&& c.name@ == cookie_name()
            &&& Some(c.value@) == token_of(state)
            &&& c.path@ == "/"@
            &&& c.http_only
            &&& c.same_site_lax
            &&& c.max_age_days == 7
        },
        a.reply@ == if grants(token_of(state), body@) {
            text_reply(200, "Authenticated"@)
        } else {
            status_reply(401)
        },
{
    if let Some(t) = &state.token {
        let trimmed = trim_text(body);
        let bv = chars_of(trimmed.as_str());
        let tv = chars_of(t.as_str());
        if token_matches(&tv, &bv) {
            let cookie = SessionCookie {
                name: String::from_str("vela_token"),
                value: t.clone(),
                path: String::from_str("/"),
                http_only: true,
                same_site_lax: true,
                max_age_days: 7,
            };
            return Authentication {
                reply: make_message_reply(200, "Authenticated"),
                cookie: Some(cookie),
            };
        }
    }
    Authentication { reply: make_status_reply(401), cookie: None }
}

/// The cookie that a successful authentication sets lets every later request
/// through: its value passes [`check_auth`].
pub proof fn lemma_session_cookie_authenticates(token: Option<Seq<char>>, body: Seq<char>)
    requires
        grants(token, body),
    ensures
        auth_ok(token, Some(token.unwrap())),
        auth_ok(token, Some(trim_ws(body))),
{
}

/// Without a token every request is let through; with one, a request without
/// the cookie, or with any other value, is refused.
pub proof fn lemma_auth_requires_token(token: Option<Seq<char>>, cookie: Option<Seq<char>>)
    ensures
        token is None ==> auth_ok(token, cookie),
        token matches Some(t) ==> (auth_ok(token, cookie) <==> cookie == Some(t)),
{
}

/// The reply to a request that is not authenticated.
pub open spec fn unauthorized() -> ReplyView {
    text_reply(401, "Authentication required"@)
}

/// The reply to a request for a path outside the root.
pub open spec fn access_denied() -> ReplyView {
    text_reply(403, "Access denied"@)
}

/// Where a request for `path` (under `/files/` or `?path=`) leads: the root
/// joined with the path without its leading slashes.
pub open spec fn requested_path(root: Seq<char>, path: Seq<char>) -> Seq<char> {
    join_spec(root, trim_start_char(path, '/'))
}

/// The first steps of `GET /files/{path}` and `GET /api/list`: `401` unless
/// authenticated, `403 Access denied` unless the joined path lies under the
/// root, else the joined path.
pub open spec fn target_spec(
    token: Option<Seq<char>>,
    root: Seq<char>,
    cookie: Option<Seq<char>>,
    path: Seq<char>,
) -> Result<Seq<char>, ReplyView> {
    if !auth_ok(token, cookie) {
        Err(unauthorized())
    } else if !path_within(root, requested_path(root, path)) {
        Err(access_denied())
    } else {
        Ok(requested_path(root, path))
    }
}

/// A result of a path or a reply, as a value.
pub open spec fn target_view(r: Result<String, Reply>) -> Result<Seq<char>, ReplyView> {
    match r {
        Ok(p) => Ok(p@),
        Err(e) => Err(e@),
    }
}

/// Checks a request for a path under the root (see [`target_spec`]).
pub fn request_target(state: &ServerState, cookie: Option<&str>, path: &str) -> (r: Result<
    String,
    Reply,
>)
    ensures
        target_view(r) == target_spec(token_of(state), state.root@, opt_text(cookie), path@),
{
    if !check_auth(state, cookie) {
        return Err(make_message_reply(401, "Authentication required"));
    }
    let clean = trim_start_matches_char(path, '/');
    let full = join_path(state.root.as_str(), clean.as_str());
    if !is_within_root(state.root.as_str(), full.as_str()) {
        return Err(make_message_reply(403, "Access denied"));
    }
    Ok(full)
}

/// The step after [`request_target`], once the file system has resolved the
/// root and the granted path (`fs::canonicalize`, which follows symbolic links):
/// `403 Access denied` when the resolved target lies outside the resolved root
/// (see [`resolved_within`]).  A target that does not exist passes, since
/// nothing can be read through it.
pub fn confine_target(root: &str, root_canon: Option<&str>, target_canon: Option<&str>) -> (r: Result<
    (),
    Reply,
>)
    ensures
        r is Ok <==> resolved_within(root@, opt_text(root_canon), opt_text(target_canon)),
        r matches Err(e) ==> e@ == access_denied(),
{
    if canonical_within(root, root_canon, target_canon) {
        Ok(())
    } else {
        Err(make_message_reply(403, "Access denied"))
    }
}

/// Every path that a request is granted lies under the root, and is only
/// granted to an authenticated request; when it also passes
/// [`confine_target`], what the file system resolves it to lies under the
/// resolved root too.
pub proof fn lemma_granted_paths_stay_under_root(
    token: Option<Seq<char>>,
    root: Seq<char>,
    cookie: Option<Seq<char>>,
    path: Seq<char>,
    root_canon: Option<Seq<char>>,
    target_canon: Seq<char>,
)
    ensures
        target_spec(token, root, cookie, path) matches Ok(full) ==> auth_ok(token, cookie)
            && path_within(root, full),
        target_spec(token, root, cookie, path) is Ok && resolved_within(
            root,
            root_canon,
            Some(target_canon),
        ) ==> path_within(
            match root_canon {
                Some(c) => c,
                None => root,
            },
            target_canon,
        ),
{
}

} // verus!
