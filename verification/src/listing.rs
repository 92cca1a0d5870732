//! Directory listings (`GET /api/list`): which directory, the entries, and
//! their order.
use vstd::prelude::*;
use vstd::string::*;
use crate::order::{is_stable_order, key_lt, key_views, lex_lt, stable_order};
use crate::reply::{Reply, ReplyView};
use crate::server::{ServerState, request_target, target_spec, token_of, opt_text};
use crate::paths::{trim_start_char, trim_start_matches_char};
use crate::text::{chars_of, push_char};

verus! {

/// One entry of a listing.
#[derive(Debug)]
pub struct FileEntry {
    pub name: String,
    pub is_dir: bool,
    pub path: String,
    pub size: u64,
}

/// The directory a listing request asks for: `401`/`403` as for files, else the
/// directory's path and the requested path without its leading slashes (empty
/// for the root).
pub fn listing_target(state: &ServerState, cookie: Option<&str>, requested: Option<&str>) -> (r: Result<
    (String, String),
    Reply,
>)
    ensures
        ({
            let req = match requested {
                Some(p) => p@,
                None => Seq::<char>::empty(),
            };
            &&& (match r {
                Ok(p) => target_spec(token_of(state), state.root@, opt_text(cookie), req) == Ok::<
                    Seq<char>,
                    ReplyView,
                >(p.0@),
                Err(e) => target_spec(token_of(state), state.root@, opt_text(cookie), req) == Err::<
                    Seq<char>,
                    ReplyView,
                >(e@),
            })
            &&& (r matches Ok(p) ==> p.1@ == trim_start_char(req, '/'))
        }),
{
    let req = match requested {
        Some(p) => String::from_str(p),
        None => String::new(),
    };
    match request_target(state, cookie, req.as_str()) {
        Ok(full) => Ok((full, trim_start_matches_char(req.as_str(), '/'))),
        Err(e) => Err(e),
    }
}

/// The entry for a directory member named `name`: its path relative to the
/// root, and its size (`0` for a directory).
pub open spec fn entry_path(rel: Seq<char>, name: Seq<char>) -> Seq<char> {
    if rel.len() == 0 {
        name
    } else {
        rel + seq!['/'] + name
    }
}

/// Builds the entry of a listing for a member of the directory `rel`.
pub fn file_entry(rel: &str, name: String, is_dir: bool, len: u64) -> (e: FileEntry)
    ensures
        e.name@ == name@,
        e.is_dir == is_dir,
        e.path@ == entry_path(rel@, name@),
        e.size == if is_dir {
            0
        } else {
            len
        },
{
    let path = if rel.unicode_len() == 0 {
        name.clone()
    } else {
        let mut p = String::from_str(rel);
        push_char(&mut p, '/');
        p.append(name.as_str());
        p
    };
    FileEntry { name, is_dir, path, size: if is_dir { 0 } else { len } }
}

/// The lowercase form of a text (`str::to_lowercase`, Unicode case mapping).
pub uninterp spec fn unicode_lowercase(s: Seq<char>) -> Seq<char>;

/// `str::to_lowercase`; what it returns is named by [`unicode_lowercase`], a
/// function of the text alone.
#[verifier::external_body]
fn to_lowercase(s: &str) -> (r: String)
    ensures
        r@ == unicode_lowercase(s@),
{
    s.to_lowercase()
}

/// The key that orders a listing: directories first, then by lowercased name.
pub open spec fn entry_key(e: FileEntry) -> (bool, Seq<char>) {
    (!e.is_dir, unicode_lowercase(e.name@))
}

/// The keys of a list of entries.
pub open spec fn entry_keys(es: Seq<FileEntry>) -> Seq<(bool, Seq<char>)> {
    Seq::new(es.len(), |i: int| entry_key(es[i]))
}

/// `es` reordered as `p` says.
pub open spec fn reordered(es: Seq<FileEntry>, p: Seq<usize>) -> Seq<FileEntry> {
    Seq::new(p.len(), |i: int| es[p[i] as int])
}

/// Orders a listing: directories before files, each group by lowercased name,
/// entries with equal keys in the order they were read (a stable sort).
pub fn sort_entries(entries: Vec<FileEntry>) -> (r: Vec<FileEntry>)
    ensures
        exists|p: Seq<usize>|
            is_stable_order(p, entry_keys(entries@)) && r@ == reordered(entries@, p),
{
    let n = entries.len();
    let mut keys: Vec<(bool, Vec<char>)> = Vec::new();
    let mut i: usize = 0;
    while i < n
        invariant
            n == entries.len(),
            i <= n,
            keys@.len() == i,
            key_views(keys@) == entry_keys(entries@).take(i as int),
        decreases n - i,
    {
        let lower = to_lowercase(entries[i].name.as_str());
        let lv = chars_of(lower.as_str());
        assert(lv@ == entry_key(entries@[i as int]).1);
        let ghost old_keys = keys@;
        keys.push((!entries[i].is_dir, lv));
        assert(keys@ == old_keys.push(keys@[i as int]));
        assert(key_views(keys@)[i as int] == entry_keys(entries@)[i as int]);
        i = i + 1;
        assert(key_views(keys@) =~= entry_keys(entries@).take(i as int));
    }
    assert(entry_keys(entries@).take(n as int) =~= entry_keys(entries@));
    let order = stable_order(&keys);
    let mut r: Vec<FileEntry> = Vec::new();
    let mut k: usize = 0;
    while k < n
        invariant
            n == entries.len(),
            order@.len() == n,
            is_stable_order(order@, entry_keys(entries@)),
            k <= n,
            r@ == reordered(entries@, order@.take(k as int)),
        decreases n - k,
    {
        let j = order[k];
        assert(j < n);
        let e = &entries[j];
        let c = FileEntry { name: e.name.clone(), is_dir: e.is_dir, path: e.path.clone(), size: e.size };
        r.push(c);
        k = k + 1;
        assert(r@ =~= reordered(entries@, order@.take(k as int)));
    }
    assert(order@.take(n as int) =~= order@);
    r
}

/// The order of a sorted listing: of two entries, the earlier is a directory
/// where the later is a file, or both are of one kind and the earlier's name,
/// lowercased by `str::to_lowercase`, is not greater than the later's (compared
/// character by character); entries whose kind and lowercased names agree keep
/// the order in which they were read.
pub proof fn lemma_listing_order(entries: Seq<FileEntry>, p: Seq<usize>, i: int, j: int)
    requires
        is_stable_order(p, entry_keys(entries)),
        0 <= i < j < p.len(),
    ensures
        ({
            let a = reordered(entries, p)[i];
            let b = reordered(entries, p)[j];
            let la = unicode_lowercase(a.name@);
            let lb = unicode_lowercase(b.name@);
            &&& (a.is_dir && !b.is_dir) || (a.is_dir == b.is_dir && (lex_lt(la, lb) || la == lb))
            &&& a.is_dir == b.is_dir && la == lb ==> p[i] < p[j]
            &&& a.is_dir == b.is_dir && lex_lt(lb, la) ==> false
        }),
{
    assert(p[i] < entries.len() && p[j] < entries.len());
    let ki = entry_keys(entries)[p[i] as int];
    let kj = entry_keys(entries)[p[j] as int];
    assert(key_lt(ki, kj) || (ki == kj && p[i] < p[j]));
    crate::order::lemma_lex_irreflexive(ki.1);
    if lex_lt(ki.1, kj.1) && lex_lt(kj.1, ki.1) {
        crate::order::lemma_lex_transitive(ki.1, kj.1, ki.1);
    }
}

/// A sorted listing holds each entry it was given exactly once.
pub proof fn lemma_listing_permutes(entries: Seq<FileEntry>, p: Seq<usize>, k: int)
    requires
        is_stable_order(p, entry_keys(entries)),
        0 <= k < entries.len(),
    ensures
        reordered(entries, p).len() == entries.len(),
        exists|i: int| 0 <= i < p.len() && reordered(entries, p)[i] == entries[k],
{
    crate::order::lemma_stable_order_covers(p, entry_keys(entries), k);
    let i = choose|i: int| 0 <= i < p.len() && p[i] == k;
    assert(reordered(entries, p)[i] == entries[k]);
}

/// In a sorted listing every directory comes before every file.
pub proof fn lemma_directories_first(entries: Seq<FileEntry>, p: Seq<usize>, i: int, j: int)
    requires
        is_stable_order(p, entry_keys(entries)),
        0 <= i < j < p.len(),
        !reordered(entries, p)[i].is_dir,
    ensures
        !reordered(entries, p)[j].is_dir,
{
    assert(p[i] < entries.len() && p[j] < entries.len());
    let ki = entry_keys(entries)[p[i] as int];
    let kj = entry_keys(entries)[p[j] as int];
    assert(key_lt(ki, kj) || (ki == kj && p[i] < p[j]));
}

} // verus!
