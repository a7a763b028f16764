//! Ranking names by trigram cosine similarity to a query.
//!
//! A string is read as the bag of its character trigrams (a string shorter
//! than three characters is one token). The dot product of two bags counts
//! the pairs of equal tokens, one from each bag; the cosine similarity of `a`
//! to `q` is `dot(a, q) / sqrt(dot(a, a) * dot(q, q))`. Since `dot(q, q)` is
//! shared by every name, `a` is more similar than `b` exactly when
//! `dot(a, q)^2 * dot(b, b) > dot(b, q)^2 * dot(a, a)`; the comparison is done
//! exactly, on integers.

use vstd::prelude::*;
use crate::bignum::{from_u128, less_than, pad, product};
use crate::text::{lowercase, to_lowercase, chars_of, slice_of, same_chars};

verus! {

/// The tokens of a string: its trigrams, or the whole string when it is shorter than three characters.
pub open spec fn trigrams(s: Seq<char>) -> Seq<Seq<char>> {
    if s.len() < 3 {
        seq![s]
    } else {
        Seq::new((s.len() - 2) as nat, |i: int| s.subrange(i, i + 3))
    }
}

/// How many tokens of `b` equal `x`.
pub open spec fn occurrences(b: Seq<Seq<char>>, x: Seq<char>) -> nat
    decreases b.len(),
{
    if b.len() == 0 {
        0
    } else {
        occurrences(b.drop_last(), x) + if b.last() == x { 1nat } else { 0nat }
    }
}

/// The dot product of two token bags: the number of equal pairs.
pub open spec fn dot(a: Seq<Seq<char>>, b: Seq<Seq<char>>) -> nat
    decreases a.len(),
{
    if a.len() == 0 {
        0
    } else {
        dot(a.drop_last(), b) + occurrences(b, a.last())
    }
}

/// The similarity key of a lower-cased name against a lower-cased query:
/// the dot product with the query and the squared norm of the name.
pub open spec fn sim_key(name: Seq<char>, query: Seq<char>) -> (nat, nat) {
    (dot(trigrams(name), trigrams(query)), dot(trigrams(name), trigrams(name)))
}

/// `x` has the strictly higher cosine similarity.
pub open spec fn more_similar(x: (nat, nat), y: (nat, nat)) -> bool {
    x.0 * x.0 * y.1 > y.0 * y.0 * x.1
}

/// `order` lists every index of `keys` once, from the most similar to the
/// least, and keeps the input order among equally similar entries.
pub open spec fn stable_ranking(keys: Seq<(nat, nat)>, order: Seq<usize>) -> bool {
    &&& order.len() == keys.len()
    &&& forall|k: int| 0 <= k < order.len() ==> #[trigger] order[k] < keys.len()
    &&& forall|k: int, l: int| 0 <= k < l < order.len() ==> order[k] != order[l]
    &&& forall|k: int, l: int|
        0 <= k < l < order.len() ==> !more_similar(keys[order[l] as int], keys[order[k] as int])
    &&& forall|k: int, l: int|
        0 <= k < l < order.len() && !more_similar(keys[order[k] as int], keys[order[l] as int])
            ==> order[k] < order[l]
}

proof fn lemma_occurrences_bound(b: Seq<Seq<char>>, x: Seq<char>)
    ensures
        occurrences(b, x) <= b.len(),
    decreases b.len(),
{
    if b.len() > 0 {
        lemma_occurrences_bound(b.drop_last(), x);
    }
}

proof fn lemma_occurrences_positive(b: Seq<Seq<char>>, i: int)
    requires
        0 <= i < b.len(),
    ensures
        occurrences(b, b[i]) >= 1,
    decreases b.len(),
{
    if i < b.len() - 1 {
        lemma_occurrences_positive(b.drop_last(), i);
    }
}

/// A non-empty bag has a positive squared norm.
pub proof fn lemma_norm_positive(a: Seq<Seq<char>>)
    requires
        a.len() > 0,
    ensures
        dot(a, a) >= 1,
{
    lemma_occurrences_positive(a, a.len() - 1);
}

/// Counts the tokens of `b` equal to `x`.
fn count_occurrences(b: &Vec<Vec<char>>, x: &Vec<char>) -> (n: u64)
    ensures
        n == occurrences(crate::text::views(b@), x@),
        n <= b.len(),
{
    let ghost bv = crate::text::views(b@);
    let mut n: u64 = 0;
    let mut i: usize = 0;
    while i < b.len()
        invariant
            i <= b.len(),
            bv == crate::text::views(b@),
            n == occurrences(bv.take(i as int), x@),
            n <= i,
        decreases b.len() - i,
    {
        proof {
            assert(bv.take(i + 1).drop_last() =~= bv.take(i as int));
            assert(bv.take(i + 1).last() == b@[i as int]@);
        }
        if same_chars(&b[i], x) {
            n = n + 1;
        }
        i = i + 1;
    }
    proof {
        assert(bv.take(b.len() as int) =~= bv);
    }
    n
}

/// The dot product of two token bags.
fn dot_of(a: &Vec<Vec<char>>, b: &Vec<Vec<char>>) -> (d: u128)
    ensures
        d == dot(crate::text::views(a@), crate::text::views(b@)),
{
    let ghost av = crate::text::views(a@);
    let ghost bv = crate::text::views(b@);
    let mut d: u128 = 0;
    let mut i: usize = 0;
    while i < a.len()
        invariant
            i <= a.len(),
            av == crate::text::views(a@),
            bv == crate::text::views(b@),
            d == dot(av.take(i as int), bv),
            d <= i * b.len(),
        decreases a.len() - i,
    {
        proof {
            assert(av.take(i + 1).drop_last() =~= av.take(i as int));
            assert(av.take(i + 1).last() == a@[i as int]@);
            assert((i + 1) * b.len() == i * b.len() + b.len()) by (nonlinear_arith);
            assert((i + 1) * b.len() <= usize::MAX * usize::MAX) by (nonlinear_arith)
                requires i + 1 <= usize::MAX, b.len() <= usize::MAX;
            assert(usize::MAX * usize::MAX < 0x1_0000_0000_0000_0000_0000_0000_0000_0000) by (nonlinear_arith)
                requires usize::MAX <= 0xffff_ffff_ffff_ffff;
        }
        let c = count_occurrences(b, &a[i]);
        d = d + c as u128;
        i = i + 1;
    }
    proof {
        assert(av.take(a.len() as int) =~= av);
    }
    d
}

/// The token bag of a string, as `trigrams` defines it.
pub fn trigram_vec(s: &Vec<char>) -> (t: Vec<Vec<char>>)
    ensures
        crate::text::views(t@) == trigrams(s@),
        t.len() <= s.len() + 1,
{
    let mut t: Vec<Vec<char>> = Vec::new();
    if s.len() < 3 {
        t.push(slice_of(s, 0, s.len()));
        proof {
            assert(s@.subrange(0, s.len() as int) =~= s@);
            assert(crate::text::views(t@) =~= trigrams(s@));
        }
        return t;
    }
    let mut i: usize = 0;
    while i + 2 < s.len()
        invariant
            s.len() >= 3,
            i + 2 <= s.len(),
            t.len() == i,
            forall|k: int| 0 <= k < i ==> #[trigger] t@[k]@ == s@.subrange(k, k + 3),
        decreases s.len() - i,
    {
        t.push(slice_of(s, i, i + 3));
        i = i + 1;
    }
    proof {
        assert(crate::text::views(t@) =~= trigrams(s@));
    }
    t
}

proof fn lemma_more_similar_trans(a: (nat, nat), b: (nat, nat), c: (nat, nat))
    requires
        a.1 > 0,
        b.1 > 0,
        c.1 > 0,
        more_similar(a, b),
        !more_similar(c, b),
    ensures
        more_similar(a, c),
{
    let (x1, y1) = (a.0 * a.0, a.1);
    let (x2, y2) = (b.0 * b.0, b.1);
    let (x3, y3) = (c.0 * c.0, c.1);
    assert(x1 * y2 > x2 * y1);
    assert(x3 * y2 <= x2 * y3);
    assert(x1 * y3 > x3 * y1) by (nonlinear_arith)
        requires
            x1 * y2 > x2 * y1,
            x3 * y2 <= x2 * y3,
            y1 > 0,
            y2 > 0,
            y3 > 0,
            x1 >= 0,
            x2 >= 0,
            x3 >= 0,
    {
        assert(x1 * y2 * y3 > x2 * y1 * y3);
        assert(x2 * y3 * y1 >= x3 * y2 * y1);
        assert(x1 * y3 * y2 > x3 * y1 * y2);
    }
}

/// The keys as mathematical pairs.
pub open spec fn key_views(keys: Seq<(u128, u128)>) -> Seq<(nat, nat)> {
    keys.map_values(|k: (u128, u128)| (k.0 as nat, k.1 as nat))
}

fn more_similar_exec(x: (u128, u128), y: (u128, u128)) -> (b: bool)
    ensures
        b == more_similar((x.0 as nat, x.1 as nat), (y.0 as nat, y.1 as nat)),
{
    let x0 = from_u128(x.0);
    let y0 = from_u128(y.0);
    let p = product(&product(&x0, &x0), &from_u128(y.1));
    let q = product(&product(&y0, &y0), &from_u128(x.1));
    let n = if p.len() < q.len() { q.len() } else { p.len() };
    less_than(&pad(&q, n), &pad(&p, n))
}

/// Orders the indices of `keys` from the most similar to the least, stably.
pub fn stable_order(keys: &Vec<(u128, u128)>) -> (order: Vec<usize>)
    requires
        forall|k: int| 0 <= k < keys.len() ==> #[trigger] keys@[k].1 >= 1,
    ensures
        stable_ranking(key_views(keys@), order@),
{
    let ghost kv = key_views(keys@);
    let mut order: Vec<usize> = Vec::new();
    let mut i: usize = 0;
    while i < keys.len()
        invariant
            i <= keys.len(),
            kv == key_views(keys@),
            forall|k: int| 0 <= k < keys.len() ==> #[trigger] keys@[k].1 >= 1,
            stable_ranking(kv.take(i as int), order@),
        decreases keys.len() - i,
    {
        let ghost old_order = order@;
        let ki = keys[i];
        let mut pos: usize = 0;
        while pos < order.len() && !more_similar_exec(ki, keys[order[pos]])
            invariant
                i < keys.len(),
                kv == key_views(keys@),
                ki == keys@[i as int],
                forall|k: int| 0 <= k < keys.len() ==> #[trigger] keys@[k].1 >= 1,
                order@ == old_order,
                stable_ranking(kv.take(i as int), order@),
                pos <= order.len(),
                forall|k: int| 0 <= k < pos ==> !more_similar(kv[i as int], kv[#[trigger] order@[k] as int]),
            decreases order.len() - pos,
        {
            proof {
                assert(order@[pos as int] < i);
            }
            pos = pos + 1;
        }
        proof {
            if pos < order.len() {
                assert(order@[pos as int] < i);
                assert(more_similar(kv[i as int], kv[order@[pos as int] as int]));
            }
        }
        order.insert(pos, i);
        proof {
            let t = kv.take(i + 1);
            assert forall|k: int| 0 <= k < t.len() implies #[trigger] t[k] == kv[k] by {}
            assert forall|k: int| 0 <= k < t.len() implies (#[trigger] kv[k]).1 > 0 by {
                assert(keys@[k].1 >= 1);
            }
            let o = order@;
            assert forall|k: int| 0 <= k < o.len() implies #[trigger] o[k] < t.len() by {
                if k < pos {
                    assert(o[k] == old_order[k]);
                } else if k > pos {
                    assert(o[k] == old_order[k - 1]);
                }
            }
            assert forall|k: int, l: int| 0 <= k < l < o.len() implies o[k] != o[l] by {
                if k < pos {
                    assert(o[k] == old_order[k]);
                }
                if k > pos {
                    assert(o[k] == old_order[k - 1]);
                }
                if l < pos {
                    assert(o[l] == old_order[l]);
                }
                if l > pos {
                    assert(o[l] == old_order[l - 1]);
                }
                if k != pos && l != pos {
                } else if k == pos {
                    assert(old_order[l - 1] < i);
                } else {
                    assert(old_order[k] < i);
                }
            }
            assert forall|k: int, l: int| 0 <= k < l < o.len() implies
                !more_similar(t[o[l] as int], t[o[k] as int]) && (!more_similar(t[o[k] as int], t[o[l] as int]) ==> o[k] < o[l]) by {
                let kk = if k < pos { k } else { k - 1 };
                let ll = if l < pos { l } else { l - 1 };
                if k != pos && l != pos {
                    assert(o[k] == old_order[kk]);
                    assert(o[l] == old_order[ll]);
                    assert(kk < ll);
                    assert(kv.take(i as int)[old_order[kk] as int] == kv[old_order[kk] as int]);
                    assert(kv.take(i as int)[old_order[ll] as int] == kv[old_order[ll] as int]);
                } else if k == pos {
                    // the new index before a later, less similar one
                    assert(o[l] == old_order[ll]);
                    assert(ll >= pos);
                    let p = old_order[pos as int];
                    assert(kv.take(i as int)[p as int] == kv[p as int]);
                    assert(kv.take(i as int)[old_order[ll] as int] == kv[old_order[ll] as int]);
                    assert(more_similar(kv[i as int], kv[p as int]));
                    if ll > pos {
                        assert(!more_similar(kv[old_order[ll] as int], kv[p as int]));
                    }
                    lemma_more_similar_trans(kv[i as int], kv[p as int], kv[old_order[ll] as int]);
                    assert(more_similar(kv[i as int], kv[old_order[ll] as int]));
                    if more_similar(kv[old_order[ll] as int], kv[i as int]) {
                        assert(false);
                    }
                } else {
                    // an earlier index before the new one
                    assert(o[k] == old_order[kk]);
                    assert(o[k] < i);
                    assert(!more_similar(kv[i as int], kv[o[k] as int]));
                }
            }
            assert(stable_ranking(t, o));
        }
        i = i + 1;
    }
    proof {
        assert(kv.take(keys.len() as int) =~= kv);
    }
    order
}


/// The similarity keys of lower-cased names against a lower-cased query.
pub open spec fn keys_of(names: Seq<Seq<char>>, query: Seq<char>) -> Seq<(nat, nat)> {
    Seq::new(names.len(), |i: int| sim_key(names[i], query))
}

/// Orders lower-cased names by similarity to a lower-cased query, most similar first, stably.
pub fn rank_lowered(names: &Vec<Vec<char>>, query: &Vec<char>) -> (order: Vec<usize>)
    ensures
        stable_ranking(keys_of(crate::text::views(names@), query@), order@),
{
    let ghost nv = crate::text::views(names@);
    let qt = trigram_vec(query);
    let mut keys: Vec<(u128, u128)> = Vec::new();
    let mut i: usize = 0;
    while i < names.len()
        invariant
            i <= names.len(),
            nv == crate::text::views(names@),
            crate::text::views(qt@) == trigrams(query@),
            keys.len() == i,
            forall|k: int| 0 <= k < i ==> #[trigger] key_views(keys@)[k] == sim_key(nv[k], query@),
            forall|k: int| 0 <= k < i ==> #[trigger] keys@[k].1 >= 1,
        decreases names.len() - i,
    {
        let nt = trigram_vec(&names[i]);
        let d = dot_of(&nt, &qt);
        let n = dot_of(&nt, &nt);
        proof {
            assert(crate::text::views(nt@).len() > 0);
            lemma_norm_positive(crate::text::views(nt@));
            assert(nv[i as int] == names@[i as int]@);
        }
        let ghost old_keys = keys@;
        keys.push((d, n));
        proof {
            assert(key_views(keys@)[i as int] == (d as nat, n as nat));
            assert forall|k: int| 0 <= k < i implies #[trigger] key_views(keys@)[k] == key_views(old_keys)[k] by {
                assert(keys@[k] == old_keys[k]);
            }
            assert(crate::text::views(nt@) == trigrams(nv[i as int]));
        }
        i = i + 1;
    }
    proof {
        assert(key_views(keys@) =~= keys_of(nv, query@));
    }
    stable_order(&keys)
}

/// The views of a sequence of strings.
pub open spec fn string_views(v: Seq<String>) -> Seq<Seq<char>> {
    v.map_values(|s: String| s@)
}

/// The similarity keys of names against a query, after Unicode lower-casing.
pub open spec fn name_keys(names: Seq<String>, query: Seq<char>) -> Seq<(nat, nat)> {
    keys_of(string_views(names).map_values(|n: Seq<char>| lowercase(n)), lowercase(query))
}

/// `r` is the ranking `rank_names` gives: the names in a stable order of
/// decreasing similarity.
pub open spec fn ranked_by(names: Seq<String>, query: Seq<char>, r: Seq<String>) -> bool {
    exists|order: Seq<usize>|
        #[trigger] stable_ranking(name_keys(names, query), order)
            && r == order.map_values(|k: usize| names[k as int])
}

/// A ranking has as many entries as there are names.
pub proof fn lemma_ranked_len(names: Seq<String>, query: Seq<char>, r: Seq<String>)
    requires
        ranked_by(names, query, r),
    ensures
        r.len() == names.len(),
{
    let order = choose|order: Seq<usize>|
        #[trigger] stable_ranking(name_keys(names, query), order)
            && r == order.map_values(|k: usize| names[k as int]);
    assert(name_keys(names, query).len() == names.len());
}

/// Sorts names by trigram cosine similarity to `query`, most similar first;
/// equally similar names keep their order. Comparison is case-insensitive
/// (Unicode lower-casing) and exact.
pub fn rank_names(names: Vec<String>, query: &str) -> (r: Vec<String>)
    ensures
        exists|order: Seq<usize>|
            #[trigger] stable_ranking(name_keys(names@, query@), order)
                && r@ == order.map_values(|k: usize| names@[k as int]),
        ranked_by(names@, query@, r@),
{
    let qc = chars_of(query);
    let q = to_lowercase(qc.as_slice());
    let mut lowered: Vec<Vec<char>> = Vec::new();
    let mut i: usize = 0;
    while i < names.len()
        invariant
            i <= names.len(),
            lowered.len() == i,
            forall|k: int| 0 <= k < i ==> (#[trigger] lowered@[k])@ == lowercase(names@[k]@),
        decreases names.len() - i,
    {
        let c = chars_of(names[i].as_str());
        let l = to_lowercase(c.as_slice());
        lowered.push(l);
        i = i + 1;
    }
    let order = rank_lowered(&lowered, &q);
    let mut out: Vec<String> = Vec::new();
    let mut k: usize = 0;
    proof {
        assert(crate::text::views(lowered@) =~= string_views(names@).map_values(|n: Seq<char>| lowercase(n)));
        assert(keys_of(crate::text::views(lowered@), q@) == name_keys(names@, query@));
    }
    while k < order.len()
        invariant
            k <= order.len(),
            order.len() == names.len(),
            forall|j: int| 0 <= j < order.len() ==> #[trigger] order@[j] < names.len(),
            out@ == order@.take(k as int).map_values(|j: usize| names@[j as int]),
        decreases order.len() - k,
    {
        let s = names[order[k]].clone();
        out.push(s);
        k = k + 1;
        proof {
            assert(out@ =~= order@.take(k as int).map_values(|j: usize| names@[j as int]));
        }
    }
    proof {
        assert(order@.take(order.len() as int) =~= order@);
        assert(stable_ranking(name_keys(names@, query@), order@));
    }
    out
}

/// `order` lists each position below `n` exactly once.
pub open spec fn is_permutation(order: Seq<int>, n: nat) -> bool {
    &&& order.len() == n
    &&& forall|k: int| 0 <= k < order.len() ==> 0 <= #[trigger] order[k] < n
    &&& order.no_duplicates()
    &&& forall|j: int| 0 <= j < n ==> #[trigger] order.contains(j)
}

proof fn lemma_distinct_covers(order: Seq<int>, n: nat)
    requires
        order.len() == n,
        forall|k: int| 0 <= k < order.len() ==> 0 <= #[trigger] order[k] < n,
        order.no_duplicates(),
    ensures
        forall|j: int| 0 <= j < n ==> #[trigger] order.contains(j),
{
    broadcast use vstd::seq_lib::seq_to_set_is_finite;
    order.unique_seq_to_set();
    vstd::set_lib::lemma_int_range(0, n as int);
    assert forall|x: int| order.to_set().contains(x) implies vstd::set_lib::set_int_range(0, n as int).contains(x) by {
        let k = choose|k: int| 0 <= k < order.len() && order[k] == x;
    }
    vstd::set_lib::lemma_subset_equality(order.to_set(), vstd::set_lib::set_int_range(0, n as int));
    assert forall|j: int| 0 <= j < n implies #[trigger] order.contains(j) by {
        assert(vstd::set_lib::set_int_range(0, n as int).contains(j));
        assert(order.to_set().contains(j));
    }
}

/// Ranking only reorders the names: the result takes each name exactly once.
pub proof fn lemma_ranking_permutes(names: Seq<String>, query: Seq<char>, r: Seq<String>)
    requires
        ranked_by(names, query, r),
    ensures
        exists|order: Seq<int>| #[trigger] is_permutation(order, names.len())
            && r.len() == names.len()
            && forall|k: int| 0 <= k < r.len() ==> r[k] == names[order[k]],
{
    let o = choose|order: Seq<usize>|
        #[trigger] stable_ranking(name_keys(names, query), order)
            && r == order.map_values(|k: usize| names[k as int]);
    assert(name_keys(names, query).len() == names.len());
    let oi = o.map_values(|k: usize| k as int);
    assert forall|a: int, b: int| 0 <= a < oi.len() && 0 <= b < oi.len() && a != b implies oi[a] != oi[b] by {
        if a < b {
            assert(o[a] != o[b]);
        } else {
            assert(o[b] != o[a]);
        }
    }
    lemma_distinct_covers(oi, names.len());
    assert(is_permutation(oi, names.len()));
    assert forall|k: int| 0 <= k < r.len() implies r[k] == names[oi[k]] by {}
}

/// Position `j` occurs in `o`.
spec fn placed(o: Seq<usize>, j: int) -> bool {
    exists|p: int| 0 <= p < o.len() && #[trigger] o[p] as int == j
}

proof fn lemma_positions_of(keys: Seq<(nat, nat)>, o: Seq<usize>)
    requires
        stable_ranking(keys, o),
    ensures
        forall|j: int| 0 <= j < keys.len() ==> #[trigger] placed(o, j),
{
    let oi = o.map_values(|k: usize| k as int);
    assert forall|a: int, b: int| 0 <= a < oi.len() && 0 <= b < oi.len() && a != b implies oi[a] != oi[b] by {
        if a < b {
            assert(o[a] != o[b]);
        } else {
            assert(o[b] != o[a]);
        }
    }
    lemma_distinct_covers(oi, keys.len());
    assert forall|j: int| 0 <= j < keys.len() implies #[trigger] placed(o, j) by {
        assert(oi.contains(j));
        let p = choose|p: int| 0 <= p < oi.len() && oi[p] == j;
        assert(o[p] as int == j);
    }
}

proof fn lemma_agree_upto(keys: Seq<(nat, nat)>, o1: Seq<usize>, o2: Seq<usize>, k: int)
    requires
        stable_ranking(keys, o1),
        stable_ranking(keys, o2),
        0 <= k < o1.len(),
    ensures
        forall|j: int| 0 <= j <= k ==> o1[j] == o2[j],
    decreases k,
{
    if k > 0 {
        lemma_agree_upto(keys, o1, o2, k - 1);
    }
    if o1[k] != o2[k] {
        let a = o1[k];
        let b = o2[k];
        lemma_positions_of(keys, o1);
        lemma_positions_of(keys, o2);
        assert(placed(o1, b as int));
        assert(placed(o2, a as int));
        let p = choose|p: int| 0 <= p < o1.len() && #[trigger] o1[p] as int == b as int;
        let q = choose|q: int| 0 <= q < o2.len() && #[trigger] o2[q] as int == a as int;
        if p < k {
            assert(o2[p] == o1[p]);
            assert(o2[p] == o2[k]);
        }
        if q < k {
            assert(o1[q] == o2[q]);
            assert(o1[q] == o1[k]);
        }
        assert(p > k && q > k);
        let ka = keys[a as int];
        let kb = keys[b as int];
        assert(!more_similar(kb, ka));
        assert(!more_similar(ka, kb));
        assert(a < b);
        assert(b < a);
    }
}

/// The ranking is determined by the names and the query: two rankings of
/// the same names for the same query are the same sequence.
pub proof fn lemma_ranking_unique(names: Seq<String>, query: Seq<char>, r1: Seq<String>, r2: Seq<String>)
    requires
        ranked_by(names, query, r1),
        ranked_by(names, query, r2),
    ensures
        r1 == r2,
{
    let keys = name_keys(names, query);
    let o1 = choose|order: Seq<usize>|
        #[trigger] stable_ranking(name_keys(names, query), order)
            && r1 == order.map_values(|k: usize| names[k as int]);
    let o2 = choose|order: Seq<usize>|
        #[trigger] stable_ranking(name_keys(names, query), order)
            && r2 == order.map_values(|k: usize| names[k as int]);
    if o1.len() > 0 {
        lemma_agree_upto(keys, o1, o2, o1.len() - 1);
    }
    assert(o1 =~= o2);
}

/// Ranking goes by trigram cosine similarity: of two names in the ranking,
/// the later one never has the strictly higher cosine with the query
/// (cosines compared exactly: `dot(b, q) / sqrt(dot(b, b))` against
/// `dot(a, q) / sqrt(dot(a, a))`, both sides squared and cross-multiplied),
/// all strings taken lower-cased.
pub proof fn lemma_ranking_by_cosine(names: Seq<String>, query: Seq<char>, r: Seq<String>, p: int, q: int)
    requires
        ranked_by(names, query, r),
        0 <= p < q < r.len(),
    ensures
        ({
            let tq = trigrams(lowercase(query));
            let a = trigrams(lowercase(r[p]@));
            let b = trigrams(lowercase(r[q]@));
            dot(b, tq) * dot(b, tq) * dot(a, a) <= dot(a, tq) * dot(a, tq) * dot(b, b)
        }),
{
    let keys = name_keys(names, query);
    let o = choose|order: Seq<usize>|
        #[trigger] stable_ranking(name_keys(names, query), order)
            && r == order.map_values(|k: usize| names[k as int]);
    assert(keys.len() == names.len());
    assert(!more_similar(keys[o[q] as int], keys[o[p] as int]));
    let nl = string_views(names).map_values(|n: Seq<char>| lowercase(n));
    assert(r[p] == names[o[p] as int]);
    assert(r[q] == names[o[q] as int]);
    assert(nl[o[p] as int] == lowercase(names[o[p] as int]@));
    assert(nl[o[q] as int] == lowercase(names[o[q] as int]@));
    assert(keys[o[p] as int] == sim_key(lowercase(r[p]@), lowercase(query)));
    assert(keys[o[q] as int] == sim_key(lowercase(r[q]@), lowercase(query)));
}

/// Ranking is stable: the ranking takes each name once, and two names of
/// equal trigram cosine with the query keep the order they were given in.
pub proof fn lemma_ranking_keeps_ties(names: Seq<String>, query: Seq<char>, r: Seq<String>)
    requires
        ranked_by(names, query, r),
    ensures
        exists|order: Seq<usize>| {
            &&& #[trigger] order.len() == names.len()
            &&& r == order.map_values(|k: usize| names[k as int])
            &&& forall|p: int| 0 <= p < order.len() ==> #[trigger] order[p] < names.len()
            &&& forall|p: int, q: int| 0 <= p < q < order.len() ==> order[p] != order[q]
            &&& forall|p: int, q: int| 0 <= p < q < order.len() && ({
                let tq = trigrams(lowercase(query));
                let a = trigrams(lowercase(names[order[p] as int]@));
                let b = trigrams(lowercase(names[order[q] as int]@));
                dot(b, tq) * dot(b, tq) * dot(a, a) == dot(a, tq) * dot(a, tq) * dot(b, b)
            }) ==> order[p] < order[q]
        },
{
    let keys = name_keys(names, query);
    let o = choose|order: Seq<usize>|
        #[trigger] stable_ranking(name_keys(names, query), order)
            && r == order.map_values(|k: usize| names[k as int]);
    assert(keys.len() == names.len());
    let nl = string_views(names).map_values(|n: Seq<char>| lowercase(n));
    assert forall|p: int, q: int| 0 <= p < q < o.len() && ({
        let tq = trigrams(lowercase(query));
        let a = trigrams(lowercase(names[o[p] as int]@));
        let b = trigrams(lowercase(names[o[q] as int]@));
        dot(b, tq) * dot(b, tq) * dot(a, a) == dot(a, tq) * dot(a, tq) * dot(b, b)
    }) implies o[p] < o[q] by {
        assert(nl[o[p] as int] == lowercase(names[o[p] as int]@));
        assert(nl[o[q] as int] == lowercase(names[o[q] as int]@));
        assert(keys[o[p] as int] == sim_key(lowercase(names[o[p] as int]@), lowercase(query)));
        assert(keys[o[q] as int] == sim_key(lowercase(names[o[q] as int]@), lowercase(query)));
        assert(!more_similar(keys[o[p] as int], keys[o[q] as int]));
    }
    assert(o.len() == names.len());
}

} // verus!
