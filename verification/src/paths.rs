//! Unix paths as the server treats them: joining, component parsing as
//! `std::path::Path` does it, the check that keeps a request under the served
//! root, and the file extension that picks a content type.
use vstd::prelude::*;
use crate::text::{chars_of, push_char, string_of};
use vstd::string::*;

verus! {

/// `s` without all of its leading `c` characters (`str::trim_start_matches(c)`).
pub open spec fn trim_start_char(s: Seq<char>, c: char) -> Seq<char>
    decreases s.len(),
{
    if s.len() > 0 && s[0] == c {
        trim_start_char(s.drop_first(), c)
    } else {
        s
    }
}

/// Drops every leading `c` of `s`.
pub fn trim_start_matches_char(s: &str, c: char) -> (r: String)
    ensures
        r@ == trim_start_char(s@, c),
{
    let v = chars_of(s);
    let n = v.len();
    let mut i: usize = 0;
    assert(v@.skip(0) =~= v@);
    while i < n && v[i] == c
        invariant
            i <= n,
            n == v@.len(),
            trim_start_char(v@, c) == trim_start_char(v@.skip(i as int), c),
        decreases n - i,
    {
        assert(v@.skip(i as int).drop_first() =~= v@.skip(i + 1));
        i = i + 1;
    }
    assert(v@.skip(i as int) =~= v@.subrange(i as int, n as int));
    string_of(&v, i, n)
}

/// `PathBuf::join` on Unix: an absolute right side replaces the left side;
/// otherwise a `/` goes between them unless the left side is empty or already
/// ends with one.
pub open spec fn join_spec(a: Seq<char>, b: Seq<char>) -> Seq<char> {
    if b.len() > 0 && b[0] == '/' {
        b
    } else if a.len() == 0 || a.last() == '/' {
        a + b
    } else {
        a + seq!['/'] + b
    }
}

/// Joins two paths as `Path::join` does.
pub fn join_path(a: &str, b: &str) -> (r: String)
    ensures
        r@ == join_spec(a@, b@),
{
    let va = chars_of(a);
    let vb = chars_of(b);
    if vb.len() > 0 && vb[0] == '/' {
        return string_of(&vb, 0, vb.len());
    }
    let mut r = string_of(&va, 0, va.len());
    if !(va.len() == 0 || va[va.len() - 1] == '/') {
        push_char(&mut r, '/');
    }
    let mut i: usize = 0;
    let ghost base = r@;
    while i < vb.len()
        invariant
            i <= vb.len(),
            r@ == base + vb@.take(i as int),
        decreases vb.len() - i,
    {
        push_char(&mut r, vb[i]);
        i = i + 1;
        assert(r@ =~= base + vb@.take(i as int));
    }
    assert(vb@.take(i as int) =~= vb@);
    assert(va@.subrange(0, va@.len() as int) =~= va@);
    r
}

/// The texts held by a sequence of character vectors.
pub open spec fn texts(v: Seq<Vec<char>>) -> Seq<Seq<char>> {
    Seq::new(v.len(), |i: int| v[i]@)
}

/// The segment collected so far is kept unless it is empty or `.`.
pub open spec fn seg_flush(done: Seq<Seq<char>>, cur: Seq<char>) -> Seq<Seq<char>> {
    if cur.len() == 0 || cur == seq!['.'] {
        done
    } else {
        done.push(cur)
    }
}

/// Reads `s` from the left, splitting at `/`: the finished segments and the one
/// still open.
pub open spec fn scan_segments(s: Seq<char>) -> (Seq<Seq<char>>, Seq<char>)
    decreases s.len(),
{
    if s.len() == 0 {
        (seq![], seq![])
    } else {
        let p = scan_segments(s.drop_last());
        if s.last() == '/' {
            (seg_flush(p.0, p.1), seq![])
        } else {
            (p.0, p.1.push(s.last()))
        }
    }
}

/// The `/`-separated segments of `s` that are neither empty nor `.`.
pub open spec fn normal_segments(s: Seq<char>) -> Seq<Seq<char>> {
    seg_flush(scan_segments(s).0, scan_segments(s).1)
}

/// Whether `s` begins with the segment `.`.
pub open spec fn starts_with_cur_dir(s: Seq<char>) -> bool {
    s.len() > 0 && s[0] == '.' && (s.len() == 1 || s[1] == '/')
}

/// The components of a Unix path as `Path::components` yields them: `/` for the
/// root, `.` for a leading current-directory segment, then every segment that
/// is not empty and not `.` (`..` included).
pub open spec fn components(s: Seq<char>) -> Seq<Seq<char>> {
    if s.len() > 0 && s[0] == '/' {
        seq![seq!['/']] + normal_segments(s)
    } else if starts_with_cur_dir(s) {
        seq![seq!['.']] + normal_segments(s)
    } else {
        normal_segments(s)
    }
}

/// Whether two character vectors hold the same text.
pub fn chars_equal(a: &Vec<char>, b: &Vec<char>) -> (r: bool)
    ensures
        r == (a@ == b@),
{
    if a.len() != b.len() {
        return false;
    }
    let mut i: usize = 0;
    while i < a.len()
        invariant
            a.len() == b.len(),
            i <= a.len(),
            forall|j: int| 0 <= j < i ==> a@[j] == b@[j],
        decreases a.len() - i,
    {
        if a[i] != b[i] {
            return false;
        }
        i = i + 1;
    }
    assert(a@ =~= b@);
    true
}

fn is_dot(v: &Vec<char>) -> (r: bool)
    ensures
        r == (v@ == seq!['.']),
{
    if v.len() == 1 && v[0] == '.' {
        assert(v@ =~= seq!['.']);
        true
    } else {
        false
    }
}

fn flush_segment(done: &mut Vec<Vec<char>>, cur: Vec<char>)
    ensures
        texts(final(done)@) == seg_flush(texts(old(done)@), cur@),
{
    if cur.len() == 0 || is_dot(&cur) {
    } else {
        let ghost c = cur@;
        done.push(cur);
        assert(texts(final(done)@) =~= texts(old(done)@).push(c));
    }
}

/// The components of the path `s` (see [`components`]).
pub fn path_components(s: &Vec<char>) -> (c: Vec<Vec<char>>)
    ensures
        texts(c@) == components(s@),
{
    let n = s.len();
    let mut done: Vec<Vec<char>> = Vec::new();
    let mut cur: Vec<char> = Vec::new();
    let mut i: usize = 0;
    assert(s@.take(0) =~= Seq::<char>::empty());
    assert(texts(done@) =~= Seq::<Seq<char>>::empty());
    while i < n
        invariant
            n == s@.len(),
            i <= n,
            (texts(done@), cur@) == scan_segments(s@.take(i as int)),
        decreases n - i,
    {
        let ch = s[i];
        assert(s@.take(i + 1).drop_last() =~= s@.take(i as int));
        if ch == '/' {
            let finished = cur;
            cur = Vec::new();
            flush_segment(&mut done, finished);
        } else {
            cur.push(ch);
        }
        i = i + 1;
    }
    assert(s@.take(n as int) =~= s@);
    flush_segment(&mut done, cur);
    if n > 0 && s[0] == '/' {
        let mut c: Vec<Vec<char>> = Vec::new();
        let mut mark: Vec<char> = Vec::new();
        mark.push('/');
        assert(mark@ =~= seq!['/']);
        c.push(mark);
        let ghost first = texts(c@);
        assert(first =~= seq![seq!['/']]);
        c.append(&mut done);
        assert(texts(c@) =~= first + normal_segments(s@));
        c
    } else if n > 0 && s[0] == '.' && (n == 1 || s[1] == '/') {
        let mut c: Vec<Vec<char>> = Vec::new();
        let mut mark: Vec<char> = Vec::new();
        mark.push('.');
        assert(mark@ =~= seq!['.']);
        c.push(mark);
        let ghost first = texts(c@);
        assert(first =~= seq![seq!['.']]);
        c.append(&mut done);
        assert(texts(c@) =~= first + normal_segments(s@));
        c
    } else {
        done
    }
}

/// `..`, the parent-directory component.
pub open spec fn parent_dir() -> Seq<char> {
    seq!['.', '.']
}

/// Whether a component is a name: not `/`, `.` or `..`.
pub open spec fn is_name(c: Seq<char>) -> bool {
    c != seq!['/'] && c != seq!['.'] && c != parent_dir()
}

/// One step of lexical normalisation: a `..` removes the name before it, stays
/// at `/` when it follows the root, and is kept when nothing can be removed (at
/// the start of a relative path, or after another `..`).
pub open spec fn normal_step(acc: Seq<Seq<char>>, c: Seq<char>) -> Seq<Seq<char>> {
    if c == parent_dir() {
        if acc.len() > 0 && is_name(acc.last()) {
            acc.drop_last()
        } else if acc.len() > 0 && acc.last() == seq!['/'] {
            acc
        } else {
            acc.push(c)
        }
    } else {
        acc.push(c)
    }
}

/// The components `cs` with every `..` resolved lexically (see [`normal_step`]).
pub open spec fn normalize(cs: Seq<Seq<char>>) -> Seq<Seq<char>>
    decreases cs.len(),
{
    if cs.len() == 0 {
        seq![]
    } else {
        normal_step(normalize(cs.drop_last()), cs.last())
    }
}

/// Whether `full` lies under `root` once both are normalised lexically (each
/// `..` removing the component before it, see [`normalize`]): the normalised
/// components of `root` begin those of `full`, and no `..` is left after them.
/// A path that climbs out of the root and back in (`/r/../r/f` under `/r`)
/// lies under it; one that ends outside (`/r/../etc`) does not.  Symbolic
/// links are not followed here (see [`resolved_within`]).
pub open spec fn path_within(root: Seq<char>, full: Seq<char>) -> bool {
    let rc = normalize(components(root));
    let fc = normalize(components(full));
    &&& rc.len() <= fc.len()
    &&& fc.take(rc.len() as int) == rc
    &&& forall|i: int| rc.len() <= i < fc.len() ==> fc[i] != parent_dir()
}

fn copy_chars(v: &Vec<char>) -> (r: Vec<char>)
    ensures
        r@ == v@,
{
    let mut r: Vec<char> = Vec::new();
    let mut i: usize = 0;
    while i < v.len()
        invariant
            i <= v.len(),
            r@ == v@.take(i as int),
        decreases v.len() - i,
    {
        r.push(v[i]);
        i = i + 1;
        assert(r@ =~= v@.take(i as int));
    }
    assert(v@.take(i as int) =~= v@);
    r
}

fn is_name_vec(v: &Vec<char>) -> (r: bool)
    ensures
        r == is_name(v@),
{
    if v.len() == 1 && (v[0] == '/' || v[0] == '.') {
        assert(v@ =~= seq![v[0]]);
        false
    } else if v.len() == 2 && v[0] == '.' && v[1] == '.' {
        assert(v@ =~= parent_dir());
        false
    } else {
        assert(v@ != seq!['/']) by {
            if v@ =~= seq!['/'] {
                assert(v@[0] == '/');
            }
        }
        assert(v@ != seq!['.']) by {
            if v@ =~= seq!['.'] {
                assert(v@[0] == '.');
            }
        }
        assert(v@ != parent_dir()) by {
            if v@ =~= parent_dir() {
                assert(v@[0] == '.' && v@[1] == '.');
            }
        }
        true
    }
}

/// The components `c` normalised lexically (see [`normalize`]).
fn normalized(c: &Vec<Vec<char>>) -> (r: Vec<Vec<char>>)
    ensures
        texts(r@) == normalize(texts(c@)),
{
    let ghost cs = texts(c@);
    let dots: Vec<char> = vec!['.', '.'];
    assert(dots@ =~= parent_dir());
    let mut acc: Vec<Vec<char>> = Vec::new();
    let mut i: usize = 0;
    assert(cs.take(0) =~= Seq::<Seq<char>>::empty());
    assert(texts(acc@) =~= Seq::<Seq<char>>::empty());
    while i < c.len()
        invariant
            cs == texts(c@),
            dots@ == parent_dir(),
            i <= c.len(),
            texts(acc@) == normalize(cs.take(i as int)),
        decreases c.len() - i,
    {
        let ghost before = texts(acc@);
        assert(cs.take(i + 1).drop_last() =~= cs.take(i as int));
        assert(cs.take(i + 1).last() == c@[i as int]@);
        let x = copy_chars(&c[i]);
        if chars_equal(&x, &dots) {
            let n = acc.len();
            if n > 0 && is_name_vec(&acc[n - 1]) {
                assert(before.last() == acc@[n - 1]@);
                acc.pop();
                assert(texts(acc@) =~= before.drop_last());
            } else if n > 0 && acc[n - 1].len() == 1 && acc[n - 1][0] == '/' {
                assert(acc@[n - 1]@ =~= seq!['/']);
                assert(before.last() == acc@[n - 1]@);
            } else {
                if n > 0 {
                    assert(before.last() == acc@[n - 1]@);
                    assert(acc@[n - 1]@ != seq!['/']) by {
                        if acc@[n - 1]@ =~= seq!['/'] {
                            assert(acc@[n - 1]@[0] == '/');
                        }
                    }
                }
                acc.push(x);
                assert(texts(acc@) =~= before.push(parent_dir()));
            }
        } else {
            let ghost xv = x@;
            acc.push(x);
            assert(texts(acc@) =~= before.push(xv));
        }
        i = i + 1;
    }
    assert(cs.take(i as int) =~= cs);
    acc
}

/// Decides [`path_within`].
pub fn is_within_root(root: &str, full: &str) -> (r: bool)
    ensures
        r == path_within(root@, full@),
{
    let rv = chars_of(root);
    let fv = chars_of(full);
    let rc = normalized(&path_components(&rv));
    let fc = normalized(&path_components(&fv));
    let ghost rcs = texts(rc@);
    let ghost fcs = texts(fc@);
    assert(rcs == normalize(components(root@)));
    assert(fcs == normalize(components(full@)));
    if rc.len() > fc.len() {
        return false;
    }
    let mut i: usize = 0;
    while i < rc.len()
        invariant
            rcs == texts(rc@),
            fcs == texts(fc@),
            rcs == normalize(components(root@)),
            fcs == normalize(components(full@)),
            rc.len() <= fc.len(),
            i <= rc.len(),
            forall|j: int| 0 <= j < i ==> fcs[j] == rcs[j],
        decreases rc.len() - i,
    {
        if !chars_equal(&fc[i], &rc[i]) {
            assert(fcs.take(rcs.len() as int)[i as int] != rcs[i as int]);
            assert(fcs.take(rcs.len() as int) != rcs);
            return false;
        }
        i = i + 1;
    }
    assert(fcs.take(rcs.len() as int) =~= rcs);
    let dots: Vec<char> = vec!['.', '.'];
    assert(dots@ =~= parent_dir());
    let mut k: usize = rc.len();
    while k < fc.len()
        invariant
            rcs == texts(rc@),
            fcs == texts(fc@),
            rcs == normalize(components(root@)),
            fcs == normalize(components(full@)),
            dots@ == parent_dir(),
            rc.len() <= k <= fc.len(),
            forall|j: int| rc.len() <= j < k ==> fcs[j] != parent_dir(),
        decreases fc.len() - k,
    {
        if chars_equal(&fc[k], &dots) {
            assert(fcs[k as int] == parent_dir());
            return false;
        }
        k = k + 1;
    }
    true
}


/// Whether a target, as the file system resolves it (symbolic links followed,
/// by `fs::canonicalize`), lies under the root as the file system resolves it.
/// `root_canon` is the resolved root, `None` when the root could not be resolved
/// (then the root's own text stands for it); `target_canon` is the resolved
/// target, `None` when it does not exist, so that nothing is reached through it.
pub open spec fn resolved_within(
    root: Seq<char>,
    root_canon: Option<Seq<char>>,
    target_canon: Option<Seq<char>>,
) -> bool {
    match target_canon {
        None => true,
        Some(t) => path_within(
            match root_canon {
                Some(c) => c,
                None => root,
            },
            t,
        ),
    }
}

/// Decides [`resolved_within`].
pub fn canonical_within(root: &str, root_canon: Option<&str>, target_canon: Option<&str>) -> (r: bool)
    ensures
        r == resolved_within(
            root@,
            match root_canon {
                Some(c) => Some(c@),
                None => None,
            },
            match target_canon {
                Some(t) => Some(t@),
                None => None,
            },
        ),
{
    match target_canon {
        None => true,
        Some(t) => match root_canon {
            Some(c) => is_within_root(c, t),
            None => is_within_root(root, t),
        },
    }
}

/// The index of the last `/` in `s`, or `-1`.
pub open spec fn last_slash(s: Seq<char>) -> int
    decreases s.len(),
{
    if s.len() == 0 {
        -1
    } else if s.last() == '/' {
        s.len() - 1
    } else {
        last_slash(s.drop_last())
    }
}

/// `s` without its trailing `/` characters.
pub open spec fn trim_end_slashes(s: Seq<char>) -> Seq<char>
    decreases s.len(),
{
    if s.len() > 0 && s.last() == '/' {
        trim_end_slashes(s.drop_last())
    } else {
        s
    }
}

/// The directory that holds the last component of `s`: the text before its
/// last `/` (trailing slashes aside), `/` when that is the only one, and `.`
/// when there is none.
pub open spec fn parent_text(s: Seq<char>) -> Seq<char> {
    let t = trim_end_slashes(s);
    let i = last_slash(t);
    if i < 0 {
        "."@
    } else if i == 0 {
        "/"@
    } else {
        t.take(i)
    }
}

/// The directory holding the last component of a path (see [`parent_text`]).
pub fn parent_path(s: &str) -> (r: String)
    ensures
        r@ == parent_text(s@),
{
    let v = chars_of(s);
    let mut n = v.len();
    assert(v@.take(n as int) =~= v@);
    while n > 0 && v[n - 1] == '/'
        invariant
            n <= v@.len(),
            trim_end_slashes(v@) == trim_end_slashes(v@.take(n as int)),
        decreases n,
    {
        assert(v@.take(n as int).drop_last() =~= v@.take(n - 1));
        n = n - 1;
    }
    let ghost t = v@.take(n as int);
    assert(trim_end_slashes(t) == t);
    let mut i = n;
    assert(t.take(n as int) =~= t);
    while i > 0 && v[i - 1] != '/'
        invariant
            i <= n <= v@.len(),
            t == v@.take(n as int),
            last_slash(t) == last_slash(t.take(i as int)),
        decreases i,
    {
        assert(t.take(i as int).drop_last() =~= t.take(i - 1));
        i = i - 1;
    }
    proof {
        if i > 0 {
            assert(t.take(i as int).last() == '/');
        }
    }
    if i == 0 {
        String::from_str(".")
    } else if i == 1 {
        String::from_str("/")
    } else {
        let r = string_of(&v, 0, i - 1);
        assert(r@ =~= t.take(i - 1));
        r
    }
}

/// The final component of a path when it is a file or directory name, as
/// `Path::file_name` gives it: `None` for a path that ends in `..`, is the root,
/// `.` alone, or empty.
pub open spec fn file_name_spec(s: Seq<char>) -> Option<Seq<char>> {
    let c = components(s);
    if c.len() > 0 && c.last() != parent_dir() && c.last() != seq!['/'] && c.last() != seq![
        '.',
    ] {
        Some(c.last())
    } else {
        None
    }
}

/// The index of the last `.` in `s`, or `-1`.
pub open spec fn last_dot(s: Seq<char>) -> int
    decreases s.len(),
{
    if s.len() == 0 {
        -1
    } else if s.last() == '.' {
        s.len() - 1
    } else {
        last_dot(s.drop_last())
    }
}

/// The extension of a file name, as `Path::extension` takes it: the text after
/// the last `.`, unless there is no `.` or the only one starts the name.
pub open spec fn extension_spec(name: Seq<char>) -> Option<Seq<char>> {
    let i = last_dot(name);
    if i <= 0 {
        None
    } else {
        Some(name.skip(i + 1))
    }
}

/// ASCII lowercasing of one character.
pub open spec fn ascii_lower(c: char) -> char {
    if 65 <= (c as u32) && (c as u32) <= 90 {
        ((c as u32) + 32) as char
    } else {
        c
    }
}

/// ASCII lowercasing of a text.
pub open spec fn ascii_lower_text(s: Seq<char>) -> Seq<char> {
    Seq::new(s.len(), |i: int| ascii_lower(s[i]))
}

/// The content type served for a lowercased extension.
pub open spec fn mime_for(ext: Seq<char>) -> Seq<char> {
    if ext == "jpg"@ || ext == "jpeg"@ {
        "image/jpeg"@
    } else if ext == "png"@ {
        "image/png"@
    } else if ext == "gif"@ {
        "image/gif"@
    } else if ext == "webp"@ {
        "image/webp"@
    } else if ext == "pdf"@ {
        "application/pdf"@
    } else if ext == "mp4"@ {
        "video/mp4"@
    } else if ext == "webm"@ {
        "video/webm"@
    } else {
        "application/octet-stream"@
    }
}

/// The content type of a file served from the root: chosen by the lowercased
/// extension of the path's file name, `application/octet-stream` when there is
/// none or it is not one of the known kinds.  (Unicode lowercasing, which the
/// extension gets, maps a character to one of the letters and digits of the
/// known extensions exactly when ASCII lowercasing does.)
pub open spec fn content_type_spec(path: Seq<char>) -> Seq<char> {
    match file_name_spec(path) {
        Some(name) => match extension_spec(name) {
            Some(ext) => mime_for(ascii_lower_text(ext)),
            None => "application/octet-stream"@,
        },
        None => "application/octet-stream"@,
    }
}

proof fn lemma_last_dot_after(stem: Seq<char>, e: Seq<char>)
    requires
        forall|i: int| 0 <= i < e.len() ==> e[i] != '.',
    ensures
        last_dot(stem + seq!['.'] + e) == stem.len(),
    decreases e.len(),
{
    let s = stem + seq!['.'] + e;
    if e.len() == 0 {
        assert(s.last() == '.');
    } else {
        assert(s.drop_last() =~= stem + seq!['.'] + e.drop_last());
        lemma_last_dot_after(stem, e.drop_last());
    }
}

/// Two files whose names differ only in the ASCII case of their extension
/// (`a.JPG` and `a.jpg`), in whatever directories, are served with the same
/// content type.
pub proof fn lemma_content_type_ignores_extension_case(
    p: Seq<char>,
    q: Seq<char>,
    stem: Seq<char>,
    e1: Seq<char>,
    e2: Seq<char>,
)
    requires
        file_name_spec(p) == Some(stem + seq!['.'] + e1),
        file_name_spec(q) == Some(stem + seq!['.'] + e2),
        forall|i: int| 0 <= i < e1.len() ==> e1[i] != '.',
        forall|i: int| 0 <= i < e2.len() ==> e2[i] != '.',
        ascii_lower_text(e1) == ascii_lower_text(e2),
    ensures
        content_type_spec(p) == content_type_spec(q),
{
    lemma_last_dot_after(stem, e1);
    lemma_last_dot_after(stem, e2);
    assert((stem + seq!['.'] + e1).skip(stem.len() as int + 1) =~= e1);
    assert((stem + seq!['.'] + e2).skip(stem.len() as int + 1) =~= e2);
}

fn lower_char(c: char) -> (r: char)
    ensures
        r == ascii_lower(c),
{
    let u = c as u32;
    if 65 <= u && u <= 90 {
        match u {
            65 => 'a',
            66 => 'b',
            67 => 'c',
            68 => 'd',
            69 => 'e',
            70 => 'f',
            71 => 'g',
            72 => 'h',
            73 => 'i',
            74 => 'j',
            75 => 'k',
            76 => 'l',
            77 => 'm',
            78 => 'n',
            79 => 'o',
            80 => 'p',
            81 => 'q',
            82 => 'r',
            83 => 's',
            84 => 't',
            85 => 'u',
            86 => 'v',
            87 => 'w',
            88 => 'x',
            89 => 'y',
            _ => 'z',
        }
    } else {
        c
    }
}

fn is_text(v: &Vec<char>, lit: &str) -> (r: bool)
    ensures
        r == (v@ == lit@),
{
    let w = chars_of(lit);
    chars_equal(v, &w)
}

fn mime_string(ext: &Vec<char>) -> (r: String)
    ensures
        r@ == mime_for(ext@),
{
    if is_text(ext, "jpg") || is_text(ext, "jpeg") {
        String::from_str("image/jpeg")
    } else if is_text(ext, "png") {
        String::from_str("image/png")
    } else if is_text(ext, "gif") {
        String::from_str("image/gif")
    } else if is_text(ext, "webp") {
        String::from_str("image/webp")
    } else if is_text(ext, "pdf") {
        String::from_str("application/pdf")
    } else if is_text(ext, "mp4") {
        String::from_str("video/mp4")
    } else if is_text(ext, "webm") {
        String::from_str("video/webm")
    } else {
        String::from_str("application/octet-stream")
    }
}

/// The file name of a path (see [`file_name_spec`]).
pub fn file_name_of(path: &Vec<char>) -> (r: Option<Vec<char>>)
    ensures
        match r {
            Some(n) => file_name_spec(path@) == Some(n@),
            None => file_name_spec(path@) is None,
        },
{
    let mut comps = path_components(path);
    let ghost cs = texts(comps@);
    let n = comps.len();
    if n == 0 {
        return None;
    }
    let last = comps.pop().unwrap();
    assert(last@ == cs.last());
    let mut dots: Vec<char> = Vec::new();
    dots.push('.');
    dots.push('.');
    assert(dots@ =~= parent_dir());
    let mut root: Vec<char> = Vec::new();
    root.push('/');
    assert(root@ =~= seq!['/']);
    let mut cur: Vec<char> = Vec::new();
    cur.push('.');
    assert(cur@ =~= seq!['.']);
    if chars_equal(&last, &dots) || chars_equal(&last, &root) || chars_equal(&last, &cur) {
        None
    } else {
        Some(last)
    }
}

/// The content type for a path under the served root (`get_content_type`).
pub fn get_content_type(path: &str) -> (r: String)
    ensures
        r@ == content_type_spec(path@),
{
    let pv = chars_of(path);
    match file_name_of(&pv) {
        None => String::from_str("application/octet-stream"),
        Some(name) => {
            let n = name.len();
            let mut i: usize = n;
            assert(name@.take(n as int) =~= name@);
            while i > 0 && name[i - 1] != '.'
                invariant
                    i <= n,
                    n == name@.len(),
                    last_dot(name@) == last_dot(name@.take(i as int)),
                decreases i,
            {
                assert(name@.take(i as int).drop_last() =~= name@.take(i - 1));
                i = i - 1;
            }
            proof {
                if i > 0 {
                    assert(name@.take(i as int).last() == '.');
                }
            }
            if i <= 1 {
                return String::from_str("application/octet-stream");
            }
            let mut ext: Vec<char> = Vec::new();
            let mut j: usize = i;
            while j < n
                invariant
                    i <= j <= n,
                    n == name@.len(),
                    ext@ == ascii_lower_text(name@.skip(i as int)).take(j - i),
                decreases n - j,
            {
                let c = lower_char(name[j]);
                ext.push(c);
                j = j + 1;
                assert(ext@ =~= ascii_lower_text(name@.skip(i as int)).take(j - i));
            }
            assert(ext@ =~= ascii_lower_text(name@.skip(i as int)));
            mime_string(&ext)
        },
    }
}

} // verus!
