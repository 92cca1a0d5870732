//! An upload (`POST /api/upload`): the decisions taken as the multipart
//! fields arrive, from the first check to the final reply.
use vstd::prelude::*;
use vstd::string::*;
use crate::paths::{canonical_within, resolved_within, join_path, is_within_root, join_spec, path_within, trim_start_char, trim_start_matches_char};
use crate::reply::{Reply, ReplyView, text_reply, status_reply, make_message_reply, make_status_reply};
use crate::server::{ServerState, auth_ok, check_auth, is_uuid_v4_text, new_uuid_text, opt_text, token_of, unauthorized};
use crate::text::chars_of;
use crate::paths::chars_equal;

verus! {

/// The kinds of multipart field an upload reads.
#[derive(Debug)]
pub enum FieldKind {
    /// `path`: a directory under the target, as text.
    Path,
    /// `file`: the file's contents, with its file name.
    File,
    /// Any other field, which is skipped.
    Other,
}

/// The kind of a field by its name.
pub fn field_kind(name: &str) -> (k: FieldKind)
    ensures
        k is Path <==> name@ == "path"@,
        k is File <==> name@ == "file"@,
{
    let v = chars_of(name);
    proof {
        reveal_strlit("path");
        reveal_strlit("file");
        assert("path"@[0] != "file"@[0]);
    }
    if chars_equal(&v, &chars_of("path")) {
        FieldKind::Path
    } else if chars_equal(&v, &chars_of("file")) {
        FieldKind::File
    } else {
        FieldKind::Other
    }
}

/// An upload in progress: the served root, the directory that files go to, and
/// the name of the last file received (empty while none was).
#[derive(Debug)]
pub struct UploadSession {
    pub root: String,
    pub target_dir: String,
    pub filename: String,
}

/// The reply to an upload while the server is read-only.
pub open spec fn read_only_refusal() -> ReplyView {
    text_reply(403, "Server is in read-only mode"@)
}

/// The reply to a file whose destination is outside the root.
pub open spec fn invalid_path() -> ReplyView {
    text_reply(403, "Invalid path"@)
}

/// Starts an upload: `401` unless authenticated, `403` when the server is
/// read-only; otherwise files go to the root until a `path` field says more.
pub fn begin_upload(state: &ServerState, cookie: Option<&str>) -> (r: Result<UploadSession, Reply>)
    ensures
        !auth_ok(token_of(state), opt_text(cookie)) ==> (r matches Err(e) && e@ == unauthorized()),
        auth_ok(token_of(state), opt_text(cookie)) && state.read_only ==> (r matches Err(e) && e@
            == read_only_refusal()),
        auth_ok(token_of(state), opt_text(cookie)) && !state.read_only ==> (r matches Ok(s)
            && s.root@ == state.root@ && s.target_dir@ == state.root@ && s.filename@.len() == 0),
{
    if !check_auth(state, cookie) {
        return Err(make_message_reply(401, "Authentication required"));
    }
    if state.read_only {
        return Err(make_message_reply(403, "Server is in read-only mode"));
    }
    Ok(UploadSession { root: state.root.clone(), target_dir: state.root.clone(), filename: String::new() })
}

/// The name a file is stored under when its field names none.
pub open spec fn generated_name(u: Seq<char>) -> Seq<char> {
    "upload_"@ + u + ".bin"@
}

/// The name a file without one is stored under, from a fresh UUID's text.
pub fn upload_name(u: &str) -> (n: String)
    ensures
        n@ == generated_name(u@),
{
    let mut n = String::from_str("upload_");
    n.append(u);
    n.append(".bin");
    n
}

/// Where an uploaded file ends up, as the file system resolves it: the
/// destination itself when it resolves (creating it opens what it resolves
/// to), else the directory that would hold it.  That must lie under the
/// resolved root.  `dest_present` tells whether anything, a dangling symbolic
/// link included, stands at the destination: one that stands there but does
/// not resolve is refused, since creating through it would write wherever the
/// link points.  When neither the destination nor its directory resolves, the
/// file cannot be created at all.
pub open spec fn upload_resolved_ok(
    root: Seq<char>,
    root_canon: Option<Seq<char>>,
    dest_present: bool,
    dest_canon: Option<Seq<char>>,
    parent_canon: Option<Seq<char>>,
) -> bool {
    match dest_canon {
        Some(d) => resolved_within(root, root_canon, Some(d)),
        None => !dest_present && resolved_within(root, root_canon, parent_canon),
    }
}

impl UploadSession {
    /// A `path` field: the target directory is joined with the text, without
    /// its leading slashes.
    pub fn on_path(&mut self, text: &str)
        ensures
            final(self).target_dir@ == join_spec(old(self).target_dir@, trim_start_char(text@, '/')),
            final(self).root == old(self).root,
            final(self).filename == old(self).filename,
    {
        let clean = trim_start_matches_char(text, '/');
        self.target_dir = join_path(self.target_dir.as_str(), clean.as_str());
    }

    /// A `file` field with the given file name (empty when it has none): the file
    /// is named (a fresh `upload_<uuid>.bin` for an empty name), and its
    /// destination, the target directory joined with the name, is returned when
    /// both the target directory and the destination lie under the root, else
    /// `403 Invalid path`.
    pub fn on_file(&mut self, file_name: &str) -> (r: Result<String, Reply>)
        ensures
            final(self).root == old(self).root,
            final(self).target_dir == old(self).target_dir,
            file_name@.len() > 0 ==> final(self).filename@ == file_name@,
            file_name@.len() == 0 ==> exists|u: Seq<char>|
                is_uuid_v4_text(u) && final(self).filename@ == generated_name(u),
            match r {
                Ok(dest) => {
                    &&& dest@ == join_spec(old(self).target_dir@, final(self).filename@)
                    &&& path_within(old(self).root@, old(self).target_dir@)
                    &&& path_within(old(self).root@, dest@)
                },
                Err(e) => {
                    &&& e@ == invalid_path()
                    &&& !(path_within(old(self).root@, old(self).target_dir@) && path_within(
                        old(self).root@,
                        join_spec(old(self).target_dir@, final(self).filename@),
                    ))
                },
            },
    {
        if file_name.unicode_len() == 0 {
            let u = new_uuid_text();
            self.filename = upload_name(u.as_str());
        } else {
            self.filename = String::from_str(file_name);
        }
        let dest = join_path(self.target_dir.as_str(), self.filename.as_str());
        if !is_within_root(self.root.as_str(), self.target_dir.as_str()) || !is_within_root(
            self.root.as_str(),
            dest.as_str(),
        ) {
            return Err(make_message_reply(403, "Invalid path"));
        }
        Ok(dest)
    }

    /// The step after [`UploadSession::on_file`], once the file system has
    /// resolved the root, the destination when it exists already, and the
    /// directory that holds it (`fs::canonicalize`, which follows symbolic
    /// links), and told whether anything stands at the destination
    /// (`dest_present`, without following links): the file may be created only
    /// when what it resolves to lies under the resolved root (see
    /// [`upload_resolved_ok`]); else `403 Invalid path`.
    pub fn confirm_destination(
        &self,
        root_canon: Option<&str>,
        dest_present: bool,
        dest_canon: Option<&str>,
        parent_canon: Option<&str>,
    ) -> (r: Result<(), Reply>)
        ensures
            r is Ok <==> upload_resolved_ok(
                self.root@,
                opt_text(root_canon),
                dest_present,
                opt_text(dest_canon),
                opt_text(parent_canon),
            ),
            r matches Err(e) ==> e@ == invalid_path(),
    {
        let ok = match dest_canon {
            Some(_) => canonical_within(self.root.as_str(), root_canon, dest_canon),
            None => !dest_present && canonical_within(self.root.as_str(), root_canon, parent_canon),
        };
        if ok {
            Ok(())
        } else {
            Err(make_message_reply(403, "Invalid path"))
        }
    }

    /// The reply when all fields were read: `400 No file provided` when no file
    /// came, else `200`.
    pub fn finish(&self) -> (r: Reply)
        ensures
            self.filename@.len() == 0 ==> r@ == text_reply(400, "No file provided"@),
            self.filename@.len() > 0 ==> r@ == status_reply(200),
    {
        if self.filename.unicode_len() == 0 {
            make_message_reply(400, "No file provided")
        } else {
            make_status_reply(200)
        }
    }
}

} // verus!
