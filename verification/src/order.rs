//! The orders in which listings are shown: texts compared character by
//! character (the order of `str`'s `Ord`), and a stable sort by such keys.
use vstd::prelude::*;

verus! {

/// `a` sorts strictly before `b`: at the first position where they differ the
/// character of `a` has the smaller code point, or `a` is a proper prefix of `b`.
/// (For UTF-8 text this is the byte order that `str::cmp` uses.)
pub open spec fn lex_lt(a: Seq<char>, b: Seq<char>) -> bool
    decreases a.len(),
{
    if a.len() == 0 {
        b.len() > 0
    } else if b.len() == 0 {
        false
    } else if a[0] != b[0] {
        (a[0] as u32) < (b[0] as u32)
    } else {
        lex_lt(a.drop_first(), b.drop_first())
    }
}

pub proof fn lemma_lex_irreflexive(a: Seq<char>)
    ensures
        !lex_lt(a, a),
    decreases a.len(),
{
    if a.len() > 0 {
        lemma_lex_irreflexive(a.drop_first());
    }
}

pub proof fn lemma_lex_transitive(a: Seq<char>, b: Seq<char>, c: Seq<char>)
    requires
        lex_lt(a, b),
        lex_lt(b, c),
    ensures
        lex_lt(a, c),
    decreases a.len(),
{
    if a.len() > 0 && b.len() > 0 && c.len() > 0 {
        if a[0] == b[0] && b[0] == c[0] {
            lemma_lex_transitive(a.drop_first(), b.drop_first(), c.drop_first());
        }
    }
}

pub proof fn lemma_lex_total(a: Seq<char>, b: Seq<char>)
    ensures
        lex_lt(a, b) || lex_lt(b, a) || a == b,
    decreases a.len(),
{
    if a.len() > 0 && b.len() > 0 {
        if a[0] == b[0] {
            lemma_lex_total(a.drop_first(), b.drop_first());
            if a.drop_first() == b.drop_first() {
                assert(a =~= seq![a[0]] + a.drop_first());
                assert(b =~= seq![b[0]] + b.drop_first());
            }
        } else {
            vstd::utf8::char_u32_cast(a[0], a[0] as u32);
            vstd::utf8::char_u32_cast(b[0], b[0] as u32);
        }
    } else if a.len() == 0 && b.len() == 0 {
        assert(a =~= b);
    }
}

/// A sort key: entries of the first group (`false`) come before those of the
/// second, and within a group the texts are in [`lex_lt`] order.
pub open spec fn key_lt(a: (bool, Seq<char>), b: (bool, Seq<char>)) -> bool {
    (!a.0 && b.0) || (a.0 == b.0 && lex_lt(a.1, b.1))
}

pub proof fn lemma_key_order(a: (bool, Seq<char>), b: (bool, Seq<char>), c: (bool, Seq<char>))
    ensures
        !key_lt(a, a),
        key_lt(a, b) && key_lt(b, c) ==> key_lt(a, c),
        key_lt(a, b) || key_lt(b, a) || a == b,
{
    lemma_lex_irreflexive(a.1);
    if key_lt(a, b) && key_lt(b, c) && a.0 == b.0 && b.0 == c.0 {
        lemma_lex_transitive(a.1, b.1, c.1);
    }
    lemma_lex_total(a.1, b.1);
}

/// `p` lists the positions `0..keys.len()` once each, ordered by key, and
/// positions with equal keys in their input order: the order that a stable
/// sort (`slice::sort_by`) leaves.
pub open spec fn is_stable_order(p: Seq<usize>, keys: Seq<(bool, Seq<char>)>) -> bool {
    &&& p.len() == keys.len()
    &&& forall|i: int| 0 <= i < p.len() ==> #[trigger] p[i] < keys.len()
    &&& forall|i: int, j: int| 0 <= i < j < p.len() ==> p[i] != p[j]
    &&& forall|i: int, j: int|
        #![trigger p[i], p[j]]
        0 <= i < j < p.len() ==> key_lt(keys[p[i] as int], keys[p[j] as int]) || (keys[p[i] as int]
            == keys[p[j] as int] && p[i] < p[j])
}

/// Every position occurs in a stable order.
pub(crate) proof fn lemma_stable_order_covers(p: Seq<usize>, keys: Seq<(bool, Seq<char>)>, v: int)
    requires
        is_stable_order(p, keys),
        0 <= v < keys.len(),
    ensures
        exists|i: int| 0 <= i < p.len() && p[i] == v,
{
    broadcast use vstd::seq_lib::seq_to_set_is_finite;
    let n = keys.len() as int;
    let pi = p.map_values(|x: usize| x as int);
    assert(pi.no_duplicates()) by {
        assert forall|i: int, j: int| 0 <= i < pi.len() && 0 <= j < pi.len() && i != j implies pi[i]
            != pi[j] by {
            if i < j {
                assert(p[i] != p[j]);
            } else {
                assert(p[j] != p[i]);
            }
        }
    }
    pi.unique_seq_to_set();
    vstd::set_lib::lemma_int_range(0, n);
    let range = vstd::set_lib::set_int_range(0, n);
    assert(pi.to_set().subset_of(range)) by {
        assert forall|x: int| pi.to_set().contains(x) implies range.contains(x) by {
            let i = choose|i: int| 0 <= i < pi.len() && pi[i] == x;
            assert(p[i] < keys.len());
        }
    }
    vstd::set_lib::lemma_subset_equality(pi.to_set(), range);
    assert(range.contains(v));
    assert(pi.to_set().contains(v));
    let i = choose|i: int| 0 <= i < pi.len() && pi[i] == v;
    assert(p[i] == v);
}

/// Two stable orders that agree before position `i` agree everywhere.
proof fn lemma_stable_orders_agree_from(
    p: Seq<usize>,
    q: Seq<usize>,
    keys: Seq<(bool, Seq<char>)>,
    i: int,
)
    requires
        is_stable_order(p, keys),
        is_stable_order(q, keys),
        0 <= i <= p.len(),
        forall|k: int| 0 <= k < i ==> p[k] == q[k],
    ensures
        forall|k: int| 0 <= k < p.len() ==> p[k] == q[k],
    decreases p.len() - i,
{
    if i < p.len() {
        let a = p[i];
        let b = q[i];
        if a != b {
            lemma_stable_order_covers(q, keys, a as int);
            lemma_stable_order_covers(p, keys, b as int);
            let j = choose|j: int| 0 <= j < q.len() && q[j] == a;
            let k = choose|k: int| 0 <= k < p.len() && p[k] == b;
            if j < i {
                assert(p[j] == a);
                assert(p[j] != p[i]);
            }
            if k < i {
                assert(q[k] == b);
                assert(q[k] != q[i]);
            }
            assert(j > i && k > i);
            let ka = keys[a as int];
            let kb = keys[b as int];
            assert(key_lt(ka, kb) || (ka == kb && a < b));
            assert(key_lt(kb, ka) || (kb == ka && b < a));
            lemma_key_order(ka, kb, ka);
            lemma_key_order(kb, ka, kb);
        }
        lemma_stable_orders_agree_from(p, q, keys, i + 1);
    }
}

/// A stable sort is determined by its keys: two orders that are both stable
/// orders of the same keys are the same order.
pub proof fn lemma_stable_order_unique(p: Seq<usize>, q: Seq<usize>, keys: Seq<(bool, Seq<char>)>)
    requires
        is_stable_order(p, keys),
        is_stable_order(q, keys),
    ensures
        p == q,
{
    lemma_stable_orders_agree_from(p, q, keys, 0);
    assert(p =~= q);
}

/// The keys held by a vector, as values.
pub open spec fn key_views(v: Seq<(bool, Vec<char>)>) -> Seq<(bool, Seq<char>)> {
    Seq::new(v.len(), |i: int| (v[i].0, v[i].1@))
}

/// Compares two texts by [`lex_lt`].
pub fn text_less(a: &Vec<char>, b: &Vec<char>) -> (r: bool)
    ensures
        r == lex_lt(a@, b@),
{
    let mut i: usize = 0;
    assert(a@.skip(0) =~= a@ && b@.skip(0) =~= b@);
    while i < a.len() && i < b.len() && a[i] == b[i]
        invariant
            i <= a.len(),
            i <= b.len(),
            lex_lt(a@, b@) == lex_lt(a@.skip(i as int), b@.skip(i as int)),
        decreases a.len() - i,
    {
        assert(a@.skip(i as int).drop_first() =~= a@.skip(i + 1));
        assert(b@.skip(i as int).drop_first() =~= b@.skip(i + 1));
        i = i + 1;
    }
    if i == a.len() {
        i < b.len()
    } else if i == b.len() {
        false
    } else {
        (a[i] as u32) < (b[i] as u32)
    }
}

fn key_less(a: &(bool, Vec<char>), b: &(bool, Vec<char>)) -> (r: bool)
    ensures
        r == key_lt((a.0, a.1@), (b.0, b.1@)),
{
    if !a.0 && b.0 {
        true
    } else if a.0 == b.0 {
        text_less(&a.1, &b.1)
    } else {
        false
    }
}

/// The stable sort order of `keys`.
pub fn stable_order(keys: &Vec<(bool, Vec<char>)>) -> (p: Vec<usize>)
    ensures
        is_stable_order(p@, key_views(keys@)),
{
    let ghost ks = key_views(keys@);
    let n = keys.len();
    let mut p: Vec<usize> = Vec::new();
    let mut k: usize = 0;
    while k < n
        invariant
            n == keys.len(),
            ks == key_views(keys@),
            k <= n,
            is_stable_order(p@, ks.take(k as int)),
        decreases n - k,
    {
        let ghost kt = ks.take(k as int);
        let ghost kt1 = ks.take(k + 1);
        let mut pos: usize = p.len();
        while pos > 0 && key_less(&keys[k], &keys[p[pos - 1]])
            invariant
                n == keys.len(),
                ks == key_views(keys@),
                k < n,
                pos <= p.len(),
                is_stable_order(p@, kt),
                kt == ks.take(k as int),
                forall|i: int| pos <= i < p.len() ==> key_lt(ks[k as int], #[trigger] ks[p@[i] as int]),
            decreases pos,
        {
            assert(p@[pos - 1] < k);
            pos = pos - 1;
        }
        proof {
            // Everything before `pos` has a key not above that of `k`.
            assert forall|i: int| 0 <= i < pos implies !key_lt(ks[k as int], #[trigger] ks[p@[i] as int]) by {
                let m = pos - 1;
                assert(p@[m] < k);
                assert(!key_lt(ks[k as int], ks[p@[m] as int]));
                if i < m {
                    assert(kt[p@[i] as int] == ks[p@[i] as int]);
                    assert(kt[p@[m] as int] == ks[p@[m] as int]);
                    lemma_key_order(ks[k as int], ks[p@[i] as int], ks[p@[m] as int]);
                    lemma_key_order(ks[p@[i] as int], ks[p@[m] as int], ks[k as int]);
                    lemma_key_order(ks[k as int], ks[p@[m] as int], ks[p@[i] as int]);
                    lemma_key_order(ks[p@[m] as int], ks[k as int], ks[p@[i] as int]);
                }
            }
        }
        let ghost old_p = p@;
        p.insert(pos, k);
        proof {
            assert(p@ == old_p.insert(pos as int, k));
            assert forall|i: int| 0 <= i < p@.len() implies #[trigger] p@[i] < kt1.len() by {
                if i < pos {
                    assert(p@[i] == old_p[i]);
                } else if i > pos {
                    assert(p@[i] == old_p[i - 1]);
                }
            }
            assert forall|i: int, j: int| 0 <= i < j < p@.len() implies p@[i] != p@[j] by {
                if i != pos && j != pos {
                    let oi = if i < pos { i } else { i - 1 };
                    let oj = if j < pos { j } else { j - 1 };
                    assert(p@[i] == old_p[oi] && p@[j] == old_p[oj]);
                } else if i == pos {
                    assert(p@[j] == old_p[j - 1]);
                } else {
                    assert(p@[i] == old_p[i]);
                }
            }
            assert forall|i: int, j: int|
                #![trigger p@[i], p@[j]]
                0 <= i < j < p@.len() implies key_lt(kt1[p@[i] as int], kt1[p@[j] as int]) || (
                kt1[p@[i] as int] == kt1[p@[j] as int] && p@[i] < p@[j]) by {
                let oi = if i < pos { i } else { i - 1 };
                let oj = if j < pos { j } else { j - 1 };
                if i != pos && j != pos {
                    assert(p@[i] == old_p[oi] && p@[j] == old_p[oj]);
                    assert(oi < oj);
                    assert(kt[old_p[oi] as int] == kt1[p@[i] as int]);
                    assert(kt[old_p[oj] as int] == kt1[p@[j] as int]);
                } else if i == pos {
                    assert(p@[j] == old_p[oj]);
                    assert(kt1[p@[j] as int] == ks[old_p[oj] as int]);
                } else {
                    assert(p@[i] == old_p[oi]);
                    assert(kt1[p@[i] as int] == ks[old_p[oi] as int]);
                    assert(!key_lt(ks[k as int], ks[old_p[oi] as int]));
                    lemma_key_order(ks[k as int], ks[old_p[oi] as int], ks[k as int]);
                }
            }
        }
        k = k + 1;
    }
    assert(ks.take(n as int) =~= ks);
    p
}

} // verus!
