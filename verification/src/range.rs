//! Byte ranges requested with a `Range` header, and the partial replies.
use vstd::prelude::*;
use vstd::string::*;
use crate::numbers::{decimal, decimal_string, parse_u64, parse_u64_spec};
use crate::reply::{Body, Reply, ReplyView, push_header, text_reply, make_message_reply};
use crate::text::{chars_of, has_prefix, prefix_at, push_char, string_of};

verus! {

/// `s` with every leading repetition of `p` removed (`str::trim_start_matches(p)`).
pub open spec fn strip_prefix_all(s: Seq<char>, p: Seq<char>) -> Seq<char>
    decreases s.len(),
{
    if p.len() > 0 && has_prefix(s, p) {
        strip_prefix_all(s.skip(p.len() as int), p)
    } else {
        s
    }
}

/// How many times `c` occurs in `s`.
pub open spec fn count_char(s: Seq<char>, c: char) -> nat
    decreases s.len(),
{
    if s.len() == 0 {
        0
    } else {
        count_char(s.drop_last(), c) + if s.last() == c {
            1nat
        } else {
            0nat
        }
    }
}

/// The position of the first `c` in `s`, or `s.len()` when there is none.
pub open spec fn first_index(s: Seq<char>, c: char) -> int
    decreases s.len(),
{
    if s.len() == 0 {
        0
    } else if s[0] == c {
        0
    } else {
        1 + first_index(s.drop_first(), c)
    }
}

/// The reply to a `Range` header that is not of the form `start-end`.
pub open spec fn invalid_range_format() -> ReplyView {
    text_reply(400, "Invalid range format"@)
}

/// The two sides of a `Range` header as the server reads it: after removing
/// leading `bytes=`, the text must hold exactly one `-`; the sides are the text
/// before and after it.
pub open spec fn split_range_spec(header: Seq<char>) -> Result<(Seq<char>, Seq<char>), ReplyView> {
    let r = strip_prefix_all(header, "bytes="@);
    if count_char(r, '-') != 1 {
        Err(invalid_range_format())
    } else {
        let d = first_index(r, '-');
        Ok((r.take(d), r.skip(d + 1)))
    }
}

/// The inclusive byte range of a file of `size > 0` bytes that the two sides of
/// a `Range` header ask for: the start is the first side's number (`0` when it
/// is not a number); the end is the second side's number, at most the last byte
/// (the last byte when the second side is empty or not a number).
pub open spec fn range_bounds_spec(first: Seq<char>, second: Seq<char>, size: u64) -> (u64, u64) {
    let last = (size - 1) as u64;
    let start = match parse_u64_spec(first) {
        Some(v) => v,
        None => 0,
    };
    let end = if second.len() == 0 {
        last
    } else {
        match parse_u64_spec(second) {
            Some(v) => if v < last {
                v
            } else {
                last
            },
            None => last,
        }
    };
    (start, end)
}

/// A split result, as a value.
pub open spec fn split_view(r: Result<(String, String), Reply>) -> Result<(Seq<char>, Seq<char>), ReplyView> {
    match r {
        Ok(p) => Ok((p.0@, p.1@)),
        Err(e) => Err(e@),
    }
}

proof fn lemma_first_index_is(s: Seq<char>, c: char, k: int)
    requires
        0 <= k <= s.len(),
        k < s.len() ==> s[k] == c,
        forall|j: int| 0 <= j < k ==> s[j] != c,
    ensures
        first_index(s, c) == k,
    decreases s.len(),
{
    if s.len() > 0 && k > 0 {
        lemma_first_index_is(s.drop_first(), c, k - 1);
    }
}

/// Splits a `Range` header into its two sides (see [`split_range_spec`]).
pub fn split_range(header: &str) -> (r: Result<(String, String), Reply>)
    ensures
        split_view(r) == split_range_spec(header@),
{
    let v = chars_of(header);
    let p = chars_of("bytes=");
    proof {
        reveal_strlit("bytes=");
    }
    let n = v.len();
    let mut i: usize = 0;
    assert(v@.skip(0) =~= v@);
    while prefix_at(&v, i, &p)
        invariant
            i <= n == v@.len(),
            p@ == "bytes="@,
            p@.len() > 0,
            strip_prefix_all(header@, "bytes="@) == strip_prefix_all(v@.skip(i as int), p@),
        decreases n - i,
    {
        assert(v@.skip(i as int).skip(p@.len() as int) =~= v@.skip(i + p.len()));
        i = i + p.len();
    }
    let ghost r = v@.skip(i as int);
    assert(strip_prefix_all(header@, "bytes="@) == r);
    let mut count: usize = 0;
    let mut first: usize = n;
    let mut j: usize = i;
    assert(r.take(0) =~= Seq::<char>::empty());
    while j < n
        invariant
            i <= j <= n == v@.len(),
            r == v@.skip(i as int),
            count == count_char(r.take(j - i), '-'),
            count <= j - i,
            count == 0 ==> first == n && forall|k: int| 0 <= k < j - i ==> r[k] != '-',
            count > 0 ==> i <= first < j && r[first - i] == '-' && forall|k: int|
                0 <= k < first - i ==> r[k] != '-',
        decreases n - j,
    {
        assert(r.take(j - i + 1).drop_last() =~= r.take(j - i));
        assert(r[j - i] == v@[j as int]);
        if v[j] == '-' {
            if count == 0 {
                first = j;
            }
            count = count + 1;
        }
        j = j + 1;
    }
    assert(r.take(n - i) =~= r);
    if count != 1 {
        return Err(make_message_reply(400, "Invalid range format"));
    }
    proof {
        lemma_first_index_is(r, '-', first - i);
    }
    let a = string_of(&v, i, first);
    let b = string_of(&v, first + 1, n);
    assert(a@ =~= r.take(first - i));
    assert(b@ =~= r.skip(first - i + 1));
    Ok((a, b))
}

/// The byte range that the two sides of a `Range` header ask for in a file of
/// `size` bytes (see [`range_bounds_spec`]); the file must not be empty.
pub fn range_bounds(first: &str, second: &str, size: u64) -> (r: (u64, u64))
    requires
        size > 0,
    ensures
        r == range_bounds_spec(first@, second@, size),
{
    let last = size - 1;
    let start = match parse_u64(first) {
        Some(x) => x,
        None => 0,
    };
    let end = if second.unicode_len() == 0 {
        last
    } else {
        match parse_u64(second) {
            Some(x) => if x < last {
                x
            } else {
                last
            },
            None => last,
        }
    };
    (start, end)
}

/// The number of bytes in the inclusive range `start..=end`.
pub fn range_length(start: u64, end: u64) -> (len: usize)
    requires
        start <= end,
        end - start + 1 <= usize::MAX,
    ensures
        len == end - start + 1,
{
    (end - start + 1) as usize
}

/// What a planned range is, for a `Range` header whose text splits into the
/// sides `a` and `b` and a file of `size > 0` bytes: it starts at the number
/// `a` gives (`0` when `a` is not a number) and ends at the last byte of the
/// file when `b` is empty or not a number (an open range such as `bytes=0-`
/// runs through the whole file), else at the number `b` gives, but never past
/// the last byte.
pub proof fn lemma_range_plan_ends(header: Seq<u8>, size: u64, a: Seq<char>, b: Seq<char>)
    requires
        size > 0,
        forall|i: int| 0 <= i < header.len() ==> visible_ascii(#[trigger] header[i]),
        split_range_spec(bytes_text(header)) == Ok::<(Seq<char>, Seq<char>), ReplyView>((a, b)),
    ensures
        range_plan_spec(header, size) matches Some(Ok((start, end))) && {
            &&& start == match parse_u64_spec(a) {
                Some(v) => v,
                None => 0u64,
            }
            &&& end < size
            &&& b.len() == 0 ==> end == size - 1
            &&& parse_u64_spec(b) is None ==> end == size - 1
            &&& parse_u64_spec(b) matches Some(v) ==> (v < size ==> end == v) && (v >= size
                ==> end == size - 1)
        },
{
}

/// [`range_length`] for any two ends: `None` when the start lies after the end,
/// or when the length does not fit in a `usize`.
pub fn checked_range_length(start: u64, end: u64) -> (r: Option<usize>)
    ensures
        r matches Some(len) <==> (start <= end && end - start + 1 <= usize::MAX),
        r matches Some(len) ==> len == end - start + 1,
{
    if start > end {
        None
    } else if end - start >= usize::MAX as u64 {
        None
    } else {
        Some(range_length(start, end))
    }
}

/// Whether a byte may stand in a header value read as text: visible ASCII or
/// a tab (what `HeaderValue::to_str` accepts).
pub open spec fn visible_ascii(b: u8) -> bool {
    (32 <= b && b < 127) || b == 9
}

/// The text of a header value: each byte as the character with its code.
pub open spec fn bytes_text(b: Seq<u8>) -> Seq<char> {
    Seq::new(b.len(), |i: int| b[i] as char)
}

/// A header value as text: `None` when one of its bytes is not visible ASCII
/// (see [`visible_ascii`]), else its bytes as characters.
pub fn header_text(bytes: &[u8]) -> (r: Option<String>)
    ensures
        r is Some <==> forall|i: int| 0 <= i < bytes@.len() ==> visible_ascii(#[trigger] bytes@[i]),
        r matches Some(t) ==> t@ == bytes_text(bytes@),
{
    let mut t = String::new();
    let mut i: usize = 0;
    while i < bytes.len()
        invariant
            i <= bytes@.len(),
            forall|j: int| 0 <= j < i ==> visible_ascii(#[trigger] bytes@[j]),
            t@ == bytes_text(bytes@.take(i as int)),
        decreases bytes@.len() - i,
    {
        let b = bytes[i];
        if !((32 <= b && b < 127) || b == 9) {
            return None;
        }
        push_char(&mut t, b as char);
        i = i + 1;
        assert(t@ =~= bytes_text(bytes@.take(i as int)));
    }
    assert(bytes@.take(i as int) =~= bytes@);
    Some(t)
}

/// The reply to a `Range` header whose bytes are not text.
pub open spec fn unreadable_range() -> ReplyView {
    text_reply(400, "Invalid range header"@)
}

/// What the server makes of a `Range` header's bytes for a file of `size`
/// bytes: `400 Invalid range header` when they are not text, the reply of
/// [`split_range_spec`] when the text is not `start-end`, else the byte range
/// of [`range_bounds_spec`]; `None` when the file is empty, for which no range
/// can be computed.
pub open spec fn range_plan_spec(header: Seq<u8>, size: u64) -> Option<Result<(u64, u64), ReplyView>> {
    if !(forall|i: int| 0 <= i < header.len() ==> visible_ascii(#[trigger] header[i])) {
        Some(Err(unreadable_range()))
    } else {
        match split_range_spec(bytes_text(header)) {
            Err(e) => Some(Err(e)),
            Ok(sides) => if size == 0 {
                None
            } else {
                Some(Ok(range_bounds_spec(sides.0, sides.1, size)))
            },
        }
    }
}

/// A plan, with the reply as a value.
pub open spec fn plan_view(r: Option<Result<(u64, u64), Reply>>) -> Option<Result<(u64, u64), ReplyView>> {
    match r {
        None => None,
        Some(Ok(p)) => Some(Ok(p)),
        Some(Err(e)) => Some(Err(e@)),
    }
}

/// Reads a `Range` header's bytes for a file of `size` bytes (see
/// [`range_plan_spec`]).  The end of a planned range always lies in the file.
pub fn range_plan(header: &[u8], size: u64) -> (r: Option<Result<(u64, u64), Reply>>)
    ensures
        plan_view(r) == range_plan_spec(header@, size),
        r matches Some(Ok(p)) ==> p.1 < size,
{
    let text = match header_text(header) {
        Some(t) => t,
        None => return Some(Err(make_message_reply(400, "Invalid range header"))),
    };
    let (first, second) = match split_range(text.as_str()) {
        Ok(sides) => sides,
        Err(e) => return Some(Err(e)),
    };
    if size == 0 {
        None
    } else {
        Some(Ok(range_bounds(first.as_str(), second.as_str(), size)))
    }
}

/// The headers of a partial reply for the bytes `start..=end` of a file of
/// `size` bytes.
pub open spec fn partial_headers(content_type: Seq<char>, start: u64, end: u64, size: u64) -> Seq<(Seq<char>, Seq<char>)> {
    seq![
        ("content-type"@, content_type),
        ("content-length"@, decimal((end - start + 1) as nat)),
        ("content-range"@, "bytes "@ + decimal(start as nat) + "-"@ + decimal(end as nat) + "/"@ + decimal(size as nat)),
        ("accept-ranges"@, "bytes"@),
    ]
}

/// The `206 Partial Content` reply carrying the bytes `start..=end` of a file
/// of `size` bytes, which the range must lie in; `bytes` are those bytes.
pub fn partial_reply(content_type: &str, start: u64, end: u64, size: u64, bytes: Vec<u8>) -> (r: Reply)
    requires
        start <= end < size,
        bytes@.len() == end - start + 1,
    ensures
        r@ == (ReplyView {
            status: 206,
            headers: partial_headers(content_type@, start, end, size),
            body: crate::reply::BodyView::Bytes(bytes@),
        }),
{
    let len = bytes.len();
    let mut h: Vec<(String, String)> = Vec::new();
    push_header(&mut h, "content-type", String::from_str(content_type));
    push_header(&mut h, "content-length", decimal_string(len as u64));
    let mut cr = String::from_str("bytes ");
    cr.append(decimal_string(start).as_str());
    cr.append("-");
    cr.append(decimal_string(end).as_str());
    cr.append("/");
    cr.append(decimal_string(size).as_str());
    push_header(&mut h, "content-range", cr);
    push_header(&mut h, "accept-ranges", String::from_str("bytes"));
    let r = Reply { status: 206, headers: h, body: Body::Bytes(bytes) };
    assert(r@.headers =~= partial_headers(content_type@, start, end, size));
    r
}

} // verus!
