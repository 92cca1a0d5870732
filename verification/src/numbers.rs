//! Decimal rendering and parsing of unsigned integers, and the size format
//! of the device table.
use vstd::prelude::*;
use crate::text::{chars_of, push_char, string_of};
use vstd::string::*;

verus! {

/// The ASCII digit for `d < 10`.
pub open spec fn digit_char(d: nat) -> char {
    (48 + d) as char
}

/// The decimal representation of `n`, without sign or leading zeros
/// (what `n.to_string()` gives for an unsigned integer).
pub open spec fn decimal(n: nat) -> Seq<char>
    decreases n,
{
    if n < 10 {
        seq![digit_char(n)]
    } else {
        decimal(n / 10).push(digit_char(n % 10))
    }
}

/// The digit character for a value below ten.
pub fn digit(d: u64) -> (c: char)
    requires
        d < 10,
    ensures
        c == digit_char(d as nat),
{
    match d {
        0 => '0',
        1 => '1',
        2 => '2',
        3 => '3',
        4 => '4',
        5 => '5',
        6 => '6',
        7 => '7',
        8 => '8',
        _ => '9',
    }
}

/// Renders `n` in decimal.
pub fn decimal_string(n: u64) -> (s: String)
    ensures
        s@ == decimal(n as nat),
{
    let mut m = n;
    let mut v: Vec<char> = Vec::new();
    while m >= 10
        invariant
            decimal(n as nat) == decimal(m as nat) + v@,
        decreases m,
    {
        let ghost old_v = v@;
        let c = digit(m % 10);
        v.insert(0, c);
        assert(decimal(m as nat) == decimal((m / 10) as nat).push(c));
        assert(decimal(m as nat) + old_v =~= decimal((m / 10) as nat) + v@);
        m = m / 10;
    }
    let c = digit(m);
    let ghost old_v = v@;
    v.insert(0, c);
    assert(decimal(n as nat) =~= v@);
    let len = v.len();
    string_of(&v, 0, len)
}


/// Whether `c` is an ASCII decimal digit.
pub open spec fn is_digit(c: char) -> bool {
    48 <= (c as u32) && (c as u32) <= 57
}

/// Whether every character of `s` is an ASCII decimal digit.
pub open spec fn all_digits(s: Seq<char>) -> bool {
    forall|i: int| 0 <= i < s.len() ==> is_digit(#[trigger] s[i])
}

/// The value of a string of decimal digits.
pub open spec fn digits_value(s: Seq<char>) -> nat
    decreases s.len(),
{
    if s.len() == 0 {
        0
    } else {
        digits_value(s.drop_last()) * 10 + ((s.last() as u32) - 48) as nat
    }
}

/// The digits that `u64::from_str` reads: the text after one optional leading `+`.
pub open spec fn unsigned_digits(s: Seq<char>) -> Seq<char> {
    if s.len() > 0 && s[0] == '+' {
        s.drop_first()
    } else {
        s
    }
}

/// What `str::parse::<u64>` gives: `Some` exactly when the text is an optional `+`
/// followed by at least one ASCII digit and the value fits in a `u64`.
pub open spec fn parse_u64_spec(s: Seq<char>) -> Option<u64> {
    let b = unsigned_digits(s);
    if b.len() > 0 && all_digits(b) && digits_value(b) <= u64::MAX {
        Some(digits_value(b) as u64)
    } else {
        None
    }
}

/// A longer string of digits never has a smaller value than its prefix.
pub proof fn lemma_digits_value_prefix(s: Seq<char>, k: int)
    requires
        0 <= k <= s.len(),
        all_digits(s),
    ensures
        digits_value(s.take(k)) <= digits_value(s),
    decreases s.len(),
{
    if k < s.len() {
        let t = s.drop_last();
        assert(all_digits(t)) by {
            assert forall|i: int| 0 <= i < t.len() implies is_digit(#[trigger] t[i]) by {
                assert(t[i] == s[i]);
            }
        }
        lemma_digits_value_prefix(t, k);
        assert(t.take(k) =~= s.take(k));
    } else {
        assert(s.take(k) =~= s);
    }
}

/// Parses an unsigned decimal number as `str::parse::<u64>` does.
pub fn parse_u64(s: &str) -> (r: Option<u64>)
    ensures
        r == parse_u64_spec(s@),
{
    let v = chars_of(s);
    let n = v.len();
    let mut start: usize = 0;
    if n > 0 && v[0] == '+' {
        start = 1;
    }
    let ghost b = v@.subrange(start as int, n as int);
    assert(b =~= unsigned_digits(s@));
    if start == n {
        return None;
    }
    let mut acc: u64 = 0;
    let mut i: usize = start;
    while i < n
        invariant
            n == v@.len(),
            v@ == s@,
            start <= i <= n,
            start < n,
            b == v@.subrange(start as int, n as int),
            b == unsigned_digits(s@),
            all_digits(b.take(i - start)),
            acc == digits_value(b.take(i - start)),
        decreases n - i,
    {
        let c = v[i];
        let ghost k = i - start;
        assert(b[k] == c);
        let cu = c as u32;
        if !(48 <= cu && cu <= 57) {
            assert(!is_digit(b[k]));
            return None;
        }
        let d: u64 = (cu - 48) as u64;
        assert(b.take(k + 1).drop_last() =~= b.take(k));
        assert(digits_value(b.take(k + 1)) == acc * 10 + d);
        assert(all_digits(b.take(k + 1))) by {
            assert forall|j: int| 0 <= j < k + 1 implies is_digit(#[trigger] b.take(k + 1)[j]) by {
                if j < k {
                    assert(b.take(k + 1)[j] == b.take(k)[j]);
                }
            }
        }
        match acc.checked_mul(10) {
            None => {
                proof {
                    if all_digits(b) {
                        lemma_digits_value_prefix(b, k + 1);
                    }
                }
                return None;
            },
            Some(x) => match x.checked_add(d) {
                None => {
                    proof {
                        if all_digits(b) {
                            lemma_digits_value_prefix(b, k + 1);
                        }
                    }
                    return None;
                },
                Some(y) => {
                    acc = y;
                },
            },
        }
        i = i + 1;
    }
    assert(b.take(n - start) =~= b);
    Some(acc)
}


/// `2` to the power `k`.
pub open spec fn two_pow(k: nat) -> nat
    decreases k,
{
    if k == 0 {
        1
    } else {
        2 * two_pow((k - 1) as nat)
    }
}

/// `a / b` rounded to the nearest integer, ties to the even neighbour.
pub open spec fn round_half_even(a: nat, b: nat) -> nat {
    let q = a / b;
    let r = a % b;
    if 2 * r > b {
        q + 1
    } else if 2 * r < b {
        q
    } else if q % 2 == 0 {
        q
    } else {
        q + 1
    }
}

/// How many low bits an integer loses when it is stored in an `f64`, whose
/// significand holds 53 bits.
pub open spec fn f64_dropped_bits(b: nat) -> nat
    decreases b,
{
    if b < 0x20_0000_0000_0000 {
        0
    } else {
        1 + f64_dropped_bits(b / 2)
    }
}

/// The value of `b as f64` for an unsigned integer `b`: `b` rounded to 53
/// significant bits, ties to even.
pub open spec fn f64_value(b: nat) -> nat {
    let d = two_pow(f64_dropped_bits(b));
    round_half_even(b, d) * d
}

/// Two decimal digits of `n < 100`, with a leading zero.
pub open spec fn two_digits(n: nat) -> Seq<char> {
    seq![digit_char(n / 10), digit_char(n % 10)]
}

/// `v / unit` written with exactly two decimals, as `format!("{:.2}", ..)` writes
/// the exact quotient: the last digit rounded half to even.
pub open spec fn fixed2(v: nat, unit: nat) -> Seq<char> {
    let q = round_half_even(v * 100, unit);
    decimal(q / 100) + seq!['.'] + two_digits(q % 100)
}

pub open spec fn kib() -> nat {
    1024
}

pub open spec fn mib() -> nat {
    1024 * 1024
}

pub open spec fn gib() -> nat {
    1024 * 1024 * 1024
}

pub open spec fn tib() -> nat {
    1024 * 1024 * 1024 * 1024
}

/// The size column of the device table: the largest binary unit that the size
/// reaches, two decimals, or the plain byte count below one KiB.
pub open spec fn format_size_spec(bytes: nat) -> Seq<char> {
    if bytes >= tib() {
        fixed2(f64_value(bytes), tib()) + "TiB"@
    } else if bytes >= gib() {
        fixed2(f64_value(bytes), gib()) + "GiB"@
    } else if bytes >= mib() {
        fixed2(f64_value(bytes), mib()) + "MiB"@
    } else if bytes >= kib() {
        fixed2(f64_value(bytes), kib()) + "KiB"@
    } else {
        decimal(bytes) + "B"@
    }
}

/// Integers below 2^53 are stored in an `f64` exactly.
pub proof fn lemma_f64_value_small(b: nat)
    requires
        b < 0x20_0000_0000_0000,
    ensures
        f64_value(b) == b,
{
    assert(f64_dropped_bits(b) == 0);
    assert(two_pow(0) == 1);
    assert(b / 1 == b && b % 1 == 0);
}

fn round_half_even_u128(a: u128, b: u128) -> (r: u128)
    requires
        0 < b <= 0x1_0000_0000_0000_0000_0000,
        a / b < u128::MAX,
    ensures
        r == round_half_even(a as nat, b as nat),
{
    let q = a / b;
    let m = a % b;
    if 2 * m > b {
        q + 1
    } else if 2 * m < b {
        q
    } else if q % 2 == 0 {
        q
    } else {
        q + 1
    }
}

/// Computes `b as f64` as an exact integer.
fn f64_grid(b: u64) -> (g: u128)
    ensures
        g == f64_value(b as nat),
        g <= 0x2_0000_0000_0000_0000,
{
    let mut m: u64 = b;
    let mut d: u128 = 1;
    let ghost mut k: nat = 0;
    assert(b as nat / 1 == b as nat);
    while m >= 0x20_0000_0000_0000
        invariant
            d == two_pow(k),
            1 <= d <= 4096,
            m as nat == b as nat / d as nat,
            f64_dropped_bits(b as nat) == k + f64_dropped_bits(m as nat),
            d * (m as nat) <= b,
        decreases m,
    {
        proof {
            vstd::arithmetic::div_mod::lemma_div_denominator(b as int, d as int, 2);
            vstd::arithmetic::div_mod::lemma_fundamental_div_mod(m as int, 2);
            assert(d * (m as nat) >= d * 0x20_0000_0000_0000) by (nonlinear_arith)
                requires m >= 0x20_0000_0000_0000;
            assert((d * 2) * ((m / 2) as nat) <= d * (m as nat)) by (nonlinear_arith)
                requires 2 * (m / 2) <= m, d >= 1;
        }
        m = m / 2;
        d = d * 2;
        proof {
            k = k + 1;
        }
    }
    let q: u128 = (b as u128) / d;
    let r = round_half_even_u128(b as u128, d);
    proof {
        vstd::arithmetic::div_mod::lemma_fundamental_div_mod(b as int, d as int);
        assert(r <= q + 1);
        assert(q == m);
        assert(r * d <= (m + 1) * d) by (nonlinear_arith)
            requires r <= m + 1;
        assert((m + 1) * d == m * d + d) by (nonlinear_arith);
    }
    r * d
}

/// Writes `v / unit` with two decimals, rounding the last digit half to even.
fn fixed2_string(v: u128, unit: u128) -> (s: String)
    requires
        1024 <= unit <= 0x1_0000_0000_0000_0000,
        v <= 0x2_0000_0000_0000_0000,
    ensures
        s@ == fixed2(v as nat, unit as nat),
{
    let a = v * 100;
    proof {
        assert(a / unit <= a / 1024) by {
            vstd::arithmetic::div_mod::lemma_div_is_ordered_by_denominator(a as int, 1024, unit as int);
        }
    }
    let q = round_half_even_u128(a, unit);
    let whole = q / 100;
    let frac = q % 100;
    let mut s = decimal_string(whole as u64);
    push_char(&mut s, '.');
    push_char(&mut s, digit((frac / 10) as u64));
    push_char(&mut s, digit((frac % 10) as u64));
    assert(s@ =~= fixed2(v as nat, unit as nat));
    s
}

/// The size column of the device table (`format_size` in the device listing):
/// `"{:.2}TiB"`, `"{:.2}GiB"`, `"{:.2}MiB"` or `"{:.2}KiB"` of the size as an `f64`
/// divided by the unit, for the largest unit the size reaches, else `"{}B"`.
pub fn format_size(bytes: u64) -> (s: String)
    ensures
        s@ == format_size_spec(bytes as nat),
{
    let g = f64_grid(bytes);
    if bytes >= 1099511627776 {
        let mut s = fixed2_string(g, 1099511627776);
        s.append("TiB");
        s
    } else if bytes >= 1073741824 {
        let mut s = fixed2_string(g, 1073741824);
        s.append("GiB");
        s
    } else if bytes >= 1048576 {
        let mut s = fixed2_string(g, 1048576);
        s.append("MiB");
        s
    } else if bytes >= 1024 {
        let mut s = fixed2_string(g, 1024);
        s.append("KiB");
        s
    } else {
        let mut s = decimal_string(bytes);
        s.append("B");
        s
    }
}

} // verus!
