//! The addresses under which the server announces itself.
use vstd::prelude::*;
use vstd::string::*;
use crate::paths::texts;
use crate::text::{chars_of, has_prefix, is_whitespace_char, lines_spec, prefix_at, scan_split, scan_words, string_of, strip_cr, words_spec};

verus! {

/// The lines of a text (see [`lines_spec`]).
pub fn split_lines(v: &Vec<char>) -> (r: Vec<Vec<char>>)
    ensures
        texts(r@) == lines_spec(v@),
{
    let n = v.len();
    let mut done: Vec<Vec<char>> = Vec::new();
    let mut cur: Vec<char> = Vec::new();
    let mut i: usize = 0;
    assert(v@.take(0) =~= Seq::<char>::empty());
    assert(texts(done@) =~= scan_split(v@.take(0), '\n').0.map_values(|l: Seq<char>| strip_cr(l)));
    while i < n
        invariant
            n == v@.len(),
            i <= n,
            texts(done@) == scan_split(v@.take(i as int), '\n').0.map_values(
                |l: Seq<char>| strip_cr(l),
            ),
            cur@ == scan_split(v@.take(i as int), '\n').1,
        decreases n - i,
    {
        let c = v[i];
        assert(v@.take(i + 1).drop_last() =~= v@.take(i as int));
        let ghost prev = scan_split(v@.take(i as int), '\n');
        if c == '\n' {
            let mut line = cur;
            cur = Vec::new();
            if line.len() > 0 && line[line.len() - 1] == '\r' {
                line.pop();
            }
            assert(line@ == strip_cr(prev.1));
            let ghost before = texts(done@);
            done.push(line);
            assert(texts(done@) =~= before.push(strip_cr(prev.1)));
            assert(prev.0.push(prev.1).map_values(|l: Seq<char>| strip_cr(l)) =~= prev.0.map_values(
                |l: Seq<char>| strip_cr(l),
            ).push(strip_cr(prev.1)));
        } else {
            cur.push(c);
        }
        i = i + 1;
    }
    assert(v@.take(n as int) =~= v@);
    if cur.len() > 0 {
        let ghost before = texts(done@);
        let ghost last = cur@;
        done.push(cur);
        assert(texts(done@) =~= before.push(last));
    }
    done
}

/// The whitespace-separated words of a text (see [`words_spec`]).
pub fn split_words(v: &Vec<char>) -> (r: Vec<Vec<char>>)
    ensures
        texts(r@) == words_spec(v@),
{
    let n = v.len();
    let mut done: Vec<Vec<char>> = Vec::new();
    let mut cur: Vec<char> = Vec::new();
    let mut i: usize = 0;
    assert(v@.take(0) =~= Seq::<char>::empty());
    assert(texts(done@) =~= Seq::<Seq<char>>::empty());
    while i < n
        invariant
            n == v@.len(),
            i <= n,
            (texts(done@), cur@) == scan_words(v@.take(i as int)),
        decreases n - i,
    {
        let c = v[i];
        assert(v@.take(i + 1).drop_last() =~= v@.take(i as int));
        if is_whitespace_char(c) {
            if cur.len() > 0 {
                let word = cur;
                cur = Vec::new();
                let ghost before = texts(done@);
                let ghost w = word@;
                done.push(word);
                assert(texts(done@) =~= before.push(w));
            }
        } else {
            cur.push(c);
        }
        i = i + 1;
    }
    assert(v@.take(n as int) =~= v@);
    if cur.len() > 0 {
        let ghost before = texts(done@);
        let ghost last = cur@;
        done.push(cur);
        assert(texts(done@) =~= before.push(last));
    }
    done
}

/// The LAN addresses in the routing table that `ip route` prints: for each
/// line that starts with `default`, its ninth whitespace-separated word, when
/// it has one.
pub open spec fn lan_from_lines(ls: Seq<Seq<char>>) -> Seq<Seq<char>>
    decreases ls.len(),
{
    if ls.len() == 0 {
        seq![]
    } else {
        let rest = lan_from_lines(ls.drop_last());
        let l = ls.last();
        if has_prefix(l, "default"@) && words_spec(l).len() > 8 {
            rest.push(words_spec(l)[8])
        } else {
            rest
        }
    }
}

/// The LAN addresses announced at start-up, from the output of `ip route`.
pub open spec fn lan_addresses_spec(route_output: Seq<char>) -> Seq<Seq<char>> {
    lan_from_lines(lines_spec(route_output))
}

/// The LAN addresses to announce (see [`lan_addresses_spec`]).
pub fn lan_addresses(route_output: &str) -> (r: Vec<String>)
    ensures
        r@.len() == lan_addresses_spec(route_output@).len(),
        forall|i: int| 0 <= i < r@.len() ==> #[trigger] r@[i]@ == lan_addresses_spec(route_output@)[i],
{
    let v = chars_of(route_output);
    let ls = split_lines(&v);
    let ghost lv = texts(ls@);
    let prefix = chars_of("default");
    let mut r: Vec<String> = Vec::new();
    let mut k: usize = 0;
    assert(lv.take(0) =~= Seq::<Seq<char>>::empty());
    while k < ls.len()
        invariant
            lv == texts(ls@),
            lv == lines_spec(route_output@),
            prefix@ == "default"@,
            k <= ls.len(),
            r@.len() == lan_from_lines(lv.take(k as int)).len(),
            forall|i: int| 0 <= i < r@.len() ==> #[trigger] r@[i]@ == lan_from_lines(lv.take(k as int))[i],
        decreases ls.len() - k,
    {
        let line = &ls[k];
        assert(lv.take(k + 1).drop_last() =~= lv.take(k as int));
        assert(lv.take(k + 1).last() == line@);
        assert(line@.skip(0) =~= line@);
        if prefix_at(line, 0, &prefix) {
            let words = split_words(line);
            if words.len() > 8 {
                let w = string_of(&words[8], 0, words[8].len());
                assert(w@ =~= words@[8]@);
                r.push(w);
            }
        }
        k = k + 1;
    }
    assert(lv.take(ls.len() as int) =~= lv);
    r
}

} // verus!
