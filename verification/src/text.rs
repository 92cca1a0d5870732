//! Character-level helpers on strings, stated over `Seq<char>`.
use vstd::prelude::*;
use vstd::string::*;

verus! {

/// The Unicode `White_Space` property, which is what `char::is_whitespace` tests.
pub open spec fn is_ws(c: char) -> bool {
    let u = c as u32;
    ||| (0x09 <= u && u <= 0x0D)
    ||| u == 0x20
    ||| u == 0x85
    ||| u == 0xA0
    ||| u == 0x1680
    ||| (0x2000 <= u && u <= 0x200A)
    ||| u == 0x2028
    ||| u == 0x2029
    ||| u == 0x202F
    ||| u == 0x205F
    ||| u == 0x3000
}

/// Appends one character to a string: `String::push`, which std documents as
/// appending the character to the end; the contract claims exactly that of the
/// string's characters.
#[verifier::external_body]
pub(crate) fn push_char(s: &mut String, c: char)
    ensures
        final(s)@ == old(s)@.push(c),
{
    s.push(c);
}

/// The characters of a string, in order.
pub fn chars_of(s: &str) -> (v: Vec<char>)
    ensures
        v@ == s@,
{
    let n = s.unicode_len();
    let mut v: Vec<char> = Vec::new();
    let mut i: usize = 0;
    while i < n
        invariant
            n == s@.len(),
            i <= n,
            v@ == s@.take(i as int),
        decreases n - i,
    {
        let c = s.get_char(i);
        v.push(c);
        i = i + 1;
        assert(v@ =~= s@.take(i as int));
    }
    assert(v@ =~= s@);
    v
}

/// Builds a string from the characters `v[from..to]`.
pub fn string_of(v: &Vec<char>, from: usize, to: usize) -> (s: String)
    requires
        from <= to <= v.len(),
    ensures
        s@ == v@.subrange(from as int, to as int),
{
    let mut s = String::new();
    let mut i = from;
    while i < to
        invariant
            from <= i <= to <= v.len(),
            s@ == v@.subrange(from as int, i as int),
        decreases to - i,
    {
        push_char(&mut s, v[i]);
        i = i + 1;
        assert(s@ =~= v@.subrange(from as int, i as int));
    }
    s
}


/// `s` without its leading whitespace.
pub open spec fn trim_start_ws(s: Seq<char>) -> Seq<char>
    decreases s.len(),
{
    if s.len() > 0 && is_ws(s[0]) {
        trim_start_ws(s.drop_first())
    } else {
        s
    }
}

/// `s` without its trailing whitespace.
pub open spec fn trim_end_ws(s: Seq<char>) -> Seq<char>
    decreases s.len(),
{
    if s.len() > 0 && is_ws(s.last()) {
        trim_end_ws(s.drop_last())
    } else {
        s
    }
}

/// `str::trim`: `s` without leading and trailing Unicode whitespace.
pub open spec fn trim_ws(s: Seq<char>) -> Seq<char> {
    trim_end_ws(trim_start_ws(s))
}

/// Whether a character is Unicode whitespace (`char::is_whitespace`).
pub fn is_whitespace_char(c: char) -> (r: bool)
    ensures
        r == is_ws(c),
{
    let u = c as u32;
    (0x09 <= u && u <= 0x0D) || u == 0x20 || u == 0x85 || u == 0xA0 || u == 0x1680 || (0x2000
        <= u && u <= 0x200A) || u == 0x2028 || u == 0x2029 || u == 0x202F || u == 0x205F || u
        == 0x3000
}

/// The bounds `[from, to)` of `trim_ws(v)` within `v`.
pub fn trim_bounds(v: &Vec<char>) -> (r: (usize, usize))
    ensures
        r.0 <= r.1 <= v.len(),
        v@.subrange(r.0 as int, r.1 as int) == trim_ws(v@),
{
    let n = v.len();
    let mut i: usize = 0;
    assert(v@.skip(0) =~= v@);
    while i < n && is_whitespace_char(v[i])
        invariant
            i <= n == v@.len(),
            trim_start_ws(v@) == trim_start_ws(v@.skip(i as int)),
        decreases n - i,
    {
        assert(v@.skip(i as int).drop_first() =~= v@.skip(i + 1));
        i = i + 1;
    }
    assert(trim_start_ws(v@) == v@.skip(i as int));
    let mut j: usize = n;
    assert(v@.subrange(i as int, n as int) =~= v@.skip(i as int));
    while j > i && is_whitespace_char(v[j - 1])
        invariant
            i <= j <= n == v@.len(),
            trim_ws(v@) == trim_end_ws(v@.subrange(i as int, j as int)),
        decreases j,
    {
        assert(v@.subrange(i as int, j as int).drop_last() =~= v@.subrange(i as int, j - 1));
        j = j - 1;
    }
    (i, j)
}

/// `str::trim`.
pub fn trim_text(s: &str) -> (r: String)
    ensures
        r@ == trim_ws(s@),
{
    let v = chars_of(s);
    let (a, b) = trim_bounds(&v);
    string_of(&v, a, b)
}

/// Whether `s` begins with `p`.
pub open spec fn has_prefix(s: Seq<char>, p: Seq<char>) -> bool {
    p.len() <= s.len() && s.take(p.len() as int) == p
}

/// Whether `s[from..]` begins with `p`.
pub fn prefix_at(s: &Vec<char>, from: usize, p: &Vec<char>) -> (r: bool)
    requires
        from <= s.len(),
    ensures
        r == has_prefix(s@.skip(from as int), p@),
{
    if p.len() > s.len() - from {
        return false;
    }
    let mut i: usize = 0;
    while i < p.len()
        invariant
            from <= s.len(),
            p.len() <= s.len() - from,
            i <= p.len(),
            forall|j: int| 0 <= j < i ==> s@[from + j] == p@[j],
        decreases p.len() - i,
    {
        if s[from + i] != p[i] {
            assert(s@.skip(from as int).take(p.len() as int)[i as int] != p@[i as int]);
            return false;
        }
        i = i + 1;
    }
    assert(s@.skip(from as int).take(p.len() as int) =~= p@);
    true
}

/// The pieces of `s` between `sep`s, left to right: the finished pieces and
/// the open one.
pub open spec fn scan_split(s: Seq<char>, sep: char) -> (Seq<Seq<char>>, Seq<char>)
    decreases s.len(),
{
    if s.len() == 0 {
        (seq![], seq![])
    } else {
        let p = scan_split(s.drop_last(), sep);
        if s.last() == sep {
            (p.0.push(p.1), seq![])
        } else {
            (p.0, p.1.push(s.last()))
        }
    }
}

/// `line` without one trailing `\r`.
pub open spec fn strip_cr(line: Seq<char>) -> Seq<char> {
    if line.len() > 0 && line.last() == '\r' {
        line.drop_last()
    } else {
        line
    }
}

/// `str::lines`: the text split at `\n`, each line without a `\r` that ended
/// it before the `\n`, and no empty line after a final `\n`.
pub open spec fn lines_spec(s: Seq<char>) -> Seq<Seq<char>> {
    let p = scan_split(s, '\n');
    let done = p.0.map_values(|l: Seq<char>| strip_cr(l));
    if p.1.len() > 0 {
        done.push(p.1)
    } else {
        done
    }
}

/// Reads `s` from the left and collects the maximal runs of non-whitespace.
pub open spec fn scan_words(s: Seq<char>) -> (Seq<Seq<char>>, Seq<char>)
    decreases s.len(),
{
    if s.len() == 0 {
        (seq![], seq![])
    } else {
        let p = scan_words(s.drop_last());
        if is_ws(s.last()) {
            (if p.1.len() > 0 { p.0.push(p.1) } else { p.0 }, seq![])
        } else {
            (p.0, p.1.push(s.last()))
        }
    }
}

/// `str::split_whitespace`: the maximal runs of non-whitespace characters.
pub open spec fn words_spec(s: Seq<char>) -> Seq<Seq<char>> {
    let p = scan_words(s);
    if p.1.len() > 0 {
        p.0.push(p.1)
    } else {
        p.0
    }
}

} // verus!
