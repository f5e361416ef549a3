//! A frequency summary of non-negative magnitudes: counters for NaN,
//! infinity and zero, and one bucket per base-10 exponent for the rest, which
//! can be collapsed to a bounded number of buckets for display.
use vstd::prelude::*;
use crate::binary64::Binary64;
use crate::text::{decimal, joined, lemma_joined_push, push_chars, push_decimal, push_signed, signed_decimal, string_from_chars};
use crate::util::{shown_percent, to_percent};

verus! {

/// A display bucket: the exponent that keys it, the range of exponents that
/// were merged into it, and how many values fell in that range.
#[derive(Clone, Copy, Debug, PartialEq, Eq, Structural)]
pub struct Bucket {
    pub key: isize,
    pub exp_min: isize,
    pub exp_max: isize,
    pub count: usize,
}

/// Keys strictly ascending.
pub open spec fn keys_ascending(s: Seq<(isize, usize)>) -> bool {
    forall|i: int, j: int| 0 <= i < j < s.len() ==> s[i].0 < s[j].0
}

/// Every count is positive.
pub open spec fn counts_positive(s: Seq<(isize, usize)>) -> bool {
    forall|i: int| 0 <= i < s.len() ==> s[i].1 > 0
}

/// The sum of the counts of exponent buckets.
pub open spec fn pair_sum(s: Seq<(isize, usize)>) -> nat
    decreases s.len(),
{
    if s.len() == 0 {
        0
    } else {
        pair_sum(s.drop_last()) + s.last().1 as nat
    }
}

/// The sum of the counts of display buckets.
pub open spec fn bucket_sum(s: Seq<Bucket>) -> nat
    decreases s.len(),
{
    if s.len() == 0 {
        0
    } else {
        bucket_sum(s.drop_last()) + s.last().count as nat
    }
}

/// The exponent buckets as a map from exponent to count.
pub open spec fn pair_map(s: Seq<(isize, usize)>) -> Map<isize, nat> {
    Map::new(
        |k: isize| exists|i: int| 0 <= i < s.len() && s[i].0 == k,
        |k: isize| s[choose|i: int| 0 <= i < s.len() && s[i].0 == k].1 as nat,
    )
}

/// One display bucket per exponent bucket, nothing merged yet.
pub open spec fn unmerged(s: Seq<(isize, usize)>) -> Seq<Bucket> {
    s.map_values(|p: (isize, usize)| Bucket { key: p.0, exp_min: p.0, exp_max: p.0, count: p.1 })
}

/// The index of the first bucket whose count is the smallest.
pub open spec fn smallest_index(s: Seq<Bucket>) -> int
    decreases s.len(),
{
    if s.len() <= 1 {
        0
    } else {
        let m = smallest_index(s.drop_last());
        if s.last().count < s[m].count {
            s.len() - 1
        } else {
            m
        }
    }
}

/// The neighbour that bucket `i` merges into: the only one at either end,
/// else the one with the smaller count, the lower one on a tie.
pub open spec fn merge_target(s: Seq<Bucket>, i: int) -> int {
    if i == 0 {
        1
    } else if i >= s.len() - 1 {
        i - 1
    } else if s[i + 1].count < s[i - 1].count {
        i + 1
    } else {
        i - 1
    }
}

/// Bucket `from` merged into bucket `into`: it keeps the key of `into`,
/// spans both ranges and holds both counts.
pub open spec fn merged(into: Bucket, from: Bucket) -> Bucket {
    Bucket {
        key: into.key,
        exp_min: if into.exp_min <= from.exp_min { into.exp_min } else { from.exp_min },
        exp_max: if into.exp_max >= from.exp_max { into.exp_max } else { from.exp_max },
        count: (into.count + from.count) as usize,
    }
}

/// A merged bucket's range contains the ranges of both buckets merged.
pub proof fn lemma_merged_contains(into: Bucket, from: Bucket)
    ensures
        merged(into, from).exp_min <= into.exp_min,
        merged(into, from).exp_min <= from.exp_min,
        merged(into, from).exp_max >= into.exp_max,
        merged(into, from).exp_max >= from.exp_max,
{
}

/// One step of the collapse: the smallest bucket merged into its neighbour.
pub open spec fn collapse_once(s: Seq<Bucket>) -> Seq<Bucket> {
    let i = smallest_index(s);
    let j = merge_target(s, i);
    s.update(j, merged(s[j], s[i])).remove(i)
}

/// Collapse steps repeated until at most `cap` buckets remain.
pub open spec fn reduce(s: Seq<Bucket>, cap: int) -> Seq<Bucket>
    decreases s.len(),
    via reduce_decreases
{
    if s.len() <= cap || s.len() < 2 {
        s
    } else {
        reduce(collapse_once(s), cap)
    }
}

/// The smallest index holds the smallest count, and no earlier bucket
/// holds that count.
proof fn lemma_smallest_index(s: Seq<Bucket>)
    requires
        s.len() >= 1,
    ensures
        0 <= smallest_index(s) < s.len(),
        forall|k: int| 0 <= k < s.len() ==> s[smallest_index(s)].count <= #[trigger] s[k].count,
        forall|k: int| 0 <= k < smallest_index(s) ==> s[smallest_index(s)].count < #[trigger] s[k].count,
    decreases s.len(),
{
    if s.len() > 1 {
        let t = s.drop_last();
        lemma_smallest_index(t);
        assert forall|k: int| 0 <= k < t.len() implies t[k] == s[k] by {}
    }
}

/// A collapse step removes exactly one bucket.
proof fn lemma_collapse_len(s: Seq<Bucket>)
    requires
        s.len() >= 2,
    ensures
        collapse_once(s).len() == s.len() - 1,
{
    lemma_smallest_index(s);
}

#[via_fn]
proof fn reduce_decreases(s: Seq<Bucket>, cap: int) {
    if !(s.len() <= cap || s.len() < 2) {
        lemma_collapse_len(s);
    }
}

/// Removing a bucket takes its count off the sum.
proof fn lemma_bucket_sum_remove(s: Seq<Bucket>, i: int)
    requires
        0 <= i < s.len(),
    ensures
        bucket_sum(s) == bucket_sum(s.remove(i)) + s[i].count,
    decreases s.len(),
{
    if i < s.len() - 1 {
        lemma_bucket_sum_remove(s.drop_last(), i);
        assert(s.remove(i).drop_last() =~= s.drop_last().remove(i));
    } else {
        assert(s.remove(i) =~= s.drop_last());
    }
}

/// Replacing a bucket replaces its count in the sum.
proof fn lemma_bucket_sum_update(s: Seq<Bucket>, j: int, b: Bucket)
    requires
        0 <= j < s.len(),
    ensures
        bucket_sum(s.update(j, b)) + s[j].count == bucket_sum(s) + b.count,
{
    lemma_bucket_sum_remove(s, j);
    lemma_bucket_sum_remove(s.update(j, b), j);
    assert(s.update(j, b).remove(j) =~= s.remove(j));
}

/// Two distinct buckets together hold no more than the sum.
proof fn lemma_bucket_sum_two(s: Seq<Bucket>, i: int, j: int)
    requires
        0 <= i < s.len(),
        0 <= j < s.len(),
        i != j,
    ensures
        s[i].count + s[j].count <= bucket_sum(s),
{
    lemma_bucket_sum_remove(s, i);
    let t = s.remove(i);
    let jj = if j < i { j } else { j - 1 };
    assert(t[jj] == s[j]);
    lemma_bucket_sum_remove(t, jj);
}

/// A collapse step keeps the sum of the counts.
proof fn lemma_collapse_sum(s: Seq<Bucket>)
    requires
        s.len() >= 2,
        bucket_sum(s) <= usize::MAX,
    ensures
        bucket_sum(collapse_once(s)) == bucket_sum(s),
{
    lemma_smallest_index(s);
    let i = smallest_index(s);
    let j = merge_target(s, i);
    lemma_bucket_sum_two(s, i, j);
    let m = merged(s[j], s[i]);
    lemma_bucket_sum_update(s, j, m);
    lemma_bucket_sum_remove(s.update(j, m), i);
}

/// Display buckets made from exponent buckets hold the same sum.
proof fn lemma_unmerged_sum(s: Seq<(isize, usize)>)
    ensures
        bucket_sum(unmerged(s)) == pair_sum(s),
        unmerged(s).len() == s.len(),
    decreases s.len(),
{
    if s.len() > 0 {
        lemma_unmerged_sum(s.drop_last());
        assert(unmerged(s).drop_last() =~= unmerged(s.drop_last()));
    }
}

/// Removing an exponent bucket takes its count off the sum.
proof fn lemma_pair_sum_remove(s: Seq<(isize, usize)>, i: int)
    requires
        0 <= i < s.len(),
    ensures
        pair_sum(s) == pair_sum(s.remove(i)) + s[i].1,
    decreases s.len(),
{
    if i < s.len() - 1 {
        lemma_pair_sum_remove(s.drop_last(), i);
        assert(s.remove(i).drop_last() =~= s.drop_last().remove(i));
    } else {
        assert(s.remove(i) =~= s.drop_last());
    }
}

/// With ascending keys, the map sends each bucket's key to its count.
proof fn lemma_pair_map_at(s: Seq<(isize, usize)>, i: int)
    requires
        keys_ascending(s),
        0 <= i < s.len(),
    ensures
        pair_map(s).contains_key(s[i].0),
        pair_map(s)[s[i].0] == s[i].1 as nat,
{
    let k = s[i].0;
    assert(exists|j: int| 0 <= j < s.len() && s[j].0 == k);
    let j = choose|j: int| 0 <= j < s.len() && s[j].0 == k;
    assert(j == i);
}

/// Adding one to the count of bucket `p` adds one to the map at its key.
proof fn lemma_pair_map_update(s: Seq<(isize, usize)>, p: int)
    requires
        keys_ascending(s),
        counts_positive(s),
        0 <= p < s.len(),
        s[p].1 < usize::MAX,
    ensures
        ({
            let t = s.update(p, (s[p].0, (s[p].1 + 1) as usize));
            let m = pair_map(s);
            &&& keys_ascending(t)
            &&& counts_positive(t)
            &&& pair_sum(t) == pair_sum(s) + 1
            &&& pair_map(t) == m.insert(s[p].0, m[s[p].0] + 1)
        }),
{
    let e = s[p].0;
    let t = s.update(p, (e, (s[p].1 + 1) as usize));
    let m = pair_map(s);
    lemma_pair_sum_remove(s, p);
    lemma_pair_sum_remove(t, p);
    lemma_pair_map_at(s, p);
    assert(t.remove(p) =~= s.remove(p));
    assert forall|k: isize| #[trigger] pair_map(t).contains_key(k) == m.insert(e, m[e] + 1).contains_key(k) by {
        if m.contains_key(k) {
            let i = choose|i: int| 0 <= i < s.len() && s[i].0 == k;
            assert(t[i].0 == k);
        }
        if pair_map(t).contains_key(k) {
            let i = choose|i: int| 0 <= i < t.len() && t[i].0 == k;
            assert(s[i].0 == k);
        }
    }
    assert forall|k: isize| pair_map(t).contains_key(k) implies #[trigger] pair_map(t)[k] == m.insert(e, m[e] + 1)[k] by {
        let i = choose|i: int| 0 <= i < t.len() && t[i].0 == k;
        lemma_pair_map_at(t, i);
        lemma_pair_map_at(s, i);
    }
    assert(pair_map(t) =~= m.insert(e, m[e] + 1));
}

/// A key placed between its smaller and larger neighbours keeps the keys
/// ascending.
proof fn lemma_insert_ascending(s: Seq<(isize, usize)>, p: int, e: isize)
    requires
        keys_ascending(s),
        0 <= p <= s.len(),
        forall|j: int| 0 <= j < p ==> s[j].0 < e,
        p < s.len() ==> s[p].0 != e && s[p].0 >= e,
    ensures
        keys_ascending(s.insert(p, (e, 1usize))),
{
    let t = s.insert(p, (e, 1usize));
    assert forall|i: int, j: int| 0 <= i < j < t.len() implies t[i].0 < t[j].0 by {
        if j < p {
        } else if j == p {
        } else if i < p {
            assert(s[i].0 < e);
            assert(t[j] == s[j - 1]);
        } else if i == p {
            assert(t[j] == s[j - 1]);
            if j - 1 > p {
                assert(s[p].0 < s[j - 1].0);
            }
        } else {
            assert(t[j] == s[j - 1]);
            assert(t[i] == s[i - 1]);
        }
    }
}

/// A new bucket of count one, put where its key keeps the keys ascending,
/// adds that key to the map.
#[verifier::rlimit(30)]
proof fn lemma_pair_map_insert(s: Seq<(isize, usize)>, p: int, e: isize)
    requires
        keys_ascending(s),
        counts_positive(s),
        0 <= p <= s.len(),
        forall|j: int| 0 <= j < p ==> s[j].0 < e,
        p < s.len() ==> s[p].0 != e && s[p].0 >= e,
    ensures
        ({
            let t = s.insert(p, (e, 1usize));
            let m = pair_map(s);
            &&& !m.contains_key(e)
            &&& keys_ascending(t)
            &&& counts_positive(t)
            &&& pair_sum(t) == pair_sum(s) + 1
            &&& pair_map(t) == m.insert(e, 1)
        }),
{
    let t = s.insert(p, (e, 1usize));
    let m = pair_map(s);
    assert(!m.contains_key(e)) by {
        if m.contains_key(e) {
            let i = choose|i: int| 0 <= i < s.len() && s[i].0 == e;
            if i > p {
                assert(s[p].0 < s[i].0);
            }
        }
    }
    lemma_pair_sum_remove(t, p);
    assert(t.remove(p) =~= s);
    lemma_insert_ascending(s, p, e);
    assert forall|k: isize| #[trigger] pair_map(t).contains_key(k) == m.insert(e, 1).contains_key(k) by {
        if m.contains_key(k) {
            let i = choose|i: int| 0 <= i < s.len() && s[i].0 == k;
            if i < p {
                assert(t[i].0 == k);
            } else {
                assert(t[i + 1].0 == k);
            }
        }
        if pair_map(t).contains_key(k) && k != e {
            let i = choose|i: int| 0 <= i < t.len() && t[i].0 == k;
            if i < p {
                assert(s[i].0 == k);
            } else {
                assert(s[i - 1].0 == k);
            }
        }
        if k == e {
            assert(t[p].0 == k);
        }
    }
    assert forall|k: isize| pair_map(t).contains_key(k) implies #[trigger] pair_map(t)[k] == m.insert(e, 1)[k] by {
        let i = choose|i: int| 0 <= i < t.len() && t[i].0 == k;
        lemma_pair_map_at(t, i);
        if i < p {
            lemma_pair_map_at(s, i);
        } else if i > p {
            lemma_pair_map_at(s, i - 1);
        }
    }
    assert(pair_map(t) =~= m.insert(e, 1));
}

/// Each bucket's range holds its key, and the ranges are disjoint and
/// ascending.
pub open spec fn chained(s: Seq<Bucket>) -> bool {
    &&& forall|i: int| 0 <= i < s.len() ==> s[i].exp_min <= #[trigger] s[i].key <= s[i].exp_max
    &&& forall|i: int, j: int| 0 <= i < j < s.len() ==> #[trigger] s[i].exp_max < #[trigger] s[j].exp_min
}

/// Bucket `i` of `s` spans exponent `k`.
pub open spec fn spans(s: Seq<Bucket>, i: int, k: int) -> bool {
    0 <= i < s.len() && s[i].exp_min <= k <= s[i].exp_max
}

/// Some bucket of `s` spans exponent `k`.
pub open spec fn spanned(s: Seq<Bucket>, k: int) -> bool {
    exists|l: int| spans(s, l, k)
}

/// A collapse step keeps the ranges disjoint and ascending, keeps every
/// spanned exponent spanned, and keeps only keys that were there.
proof fn lemma_collapse_chained(s: Seq<Bucket>)
    requires
        s.len() >= 2,
        chained(s),
    ensures
        chained(collapse_once(s)),
        forall|k: int, l: int| #[trigger] spans(s, l, k) ==> exists|l2: int| spans(collapse_once(s), l2, k),
        forall|l: int| 0 <= l < collapse_once(s).len() ==> exists|q: int| 0 <= q < s.len() && s[q].key == #[trigger] collapse_once(s)[l].key,
{
    lemma_smallest_index(s);
    let i = smallest_index(s);
    let j = merge_target(s, i);
    let m = merged(s[j], s[i]);
    let t = collapse_once(s);
    assert(t == s.update(j, m).remove(i));
    assert(t.len() == s.len() - 1);
    // the merged bucket lands at the lower of the two positions
    let lo = if j < i { j } else { i };
    assert(s[lo].exp_max < s[lo + 1].exp_min);
    assert(s[lo].exp_min <= s[lo].key <= s[lo].exp_max);
    assert(s[lo + 1].exp_min <= s[lo + 1].key <= s[lo + 1].exp_max);
    assert(m.exp_min == s[lo].exp_min);
    assert(m.exp_max == s[lo + 1].exp_max);
    assert(t[lo] == m);
    assert forall|l: int| 0 <= l < t.len() implies #[trigger] t[l] == (if l < lo { s[l] } else if l == lo { m } else { s[l + 1] }) by {}
    assert forall|a: int, b: int| 0 <= a < b < t.len() implies #[trigger] t[a].exp_max < #[trigger] t[b].exp_min by {
        let a2 = if a <= lo { a } else { a + 1 };
        let b2 = if b < lo { b } else { b + 1 };
        if a == lo {
            assert(s[lo + 1].exp_max < s[b2].exp_min || b2 == lo + 1);
        }
        if b == lo {
            assert(s[a2].exp_max < s[lo].exp_min);
        }
    }
    assert forall|k: int, l: int| #[trigger] spans(s, l, k) implies exists|l2: int| spans(t, l2, k) by {
        if l < lo {
            assert(spans(t, l, k));
        } else if l == lo || l == lo + 1 {
            assert(spans(t, lo, k));
        } else {
            assert(spans(t, l - 1, k));
        }
    }
    assert forall|l: int| 0 <= l < t.len() implies exists|q: int| 0 <= q < s.len() && s[q].key == #[trigger] t[l].key by {
        if l < lo {
            assert(s[l].key == t[l].key);
        } else if l == lo {
            assert(s[j].key == t[l].key);
        } else {
            assert(s[l + 1].key == t[l].key);
        }
    }
}

/// Collapsing keeps the sum of the counts, stops at `cap` buckets (or with
/// all of them, if there were no more), keeps every exponent that a bucket
/// spanned inside the range of one bucket, keeps the ranges disjoint and
/// ascending, and keeps only keys that were there before.
pub proof fn lemma_reduce(s: Seq<Bucket>, cap: int)
    requires
        cap >= 3,
        chained(s),
        bucket_sum(s) <= usize::MAX,
    ensures
        bucket_sum(reduce(s, cap)) == bucket_sum(s),
        reduce(s, cap).len() == if s.len() <= cap { s.len() as int } else { cap },
        chained(reduce(s, cap)),
        forall|k: int, l: int| #[trigger] spans(s, l, k) ==> exists|l2: int| spans(reduce(s, cap), l2, k),
        forall|l: int| 0 <= l < reduce(s, cap).len() ==> exists|q: int| 0 <= q < s.len() && s[q].key == #[trigger] reduce(s, cap)[l].key,
    decreases s.len(),
{
    if !(s.len() <= cap || s.len() < 2) {
        let t = collapse_once(s);
        lemma_collapse_len(s);
        lemma_collapse_sum(s);
        lemma_collapse_chained(s);
        lemma_reduce(t, cap);
        assert(reduce(s, cap) == reduce(t, cap));
        assert forall|k: int, l: int| #[trigger] spans(s, l, k) implies exists|l2: int| spans(reduce(s, cap), l2, k) by {
            let l1 = choose|l1: int| spans(t, l1, k);
            assert(spans(t, l1, k));
        }
        assert forall|l: int| 0 <= l < reduce(s, cap).len() implies exists|q: int| 0 <= q < s.len() && s[q].key == #[trigger] reduce(s, cap)[l].key by {
            let q1 = choose|q: int| 0 <= q < t.len() && t[q].key == reduce(t, cap)[l].key;
            assert(exists|q: int| 0 <= q < s.len() && s[q].key == #[trigger] t[q1].key);
        }
    }
}

/// In disjoint ascending ranges an exponent lies in at most one bucket.
pub proof fn lemma_chained_unique(s: Seq<Bucket>, k: int, a: int, b: int)
    requires
        chained(s),
        spans(s, a, k),
        spans(s, b, k),
    ensures
        a == b,
{
    if a < b {
        assert(s[a].exp_max < s[b].exp_min);
    } else if b < a {
        assert(s[b].exp_max < s[a].exp_min);
    }
}

/// The sum of the counts of the exponent buckets whose exponent lies in
/// `[lo, hi]`.
pub open spec fn range_sum(p: Seq<(isize, usize)>, lo: int, hi: int) -> nat
    decreases p.len(),
{
    if p.len() == 0 {
        0
    } else {
        range_sum(p.drop_last(), lo, hi) + if lo <= p.last().0 <= hi { p.last().1 as nat } else { 0 }
    }
}

/// Each display bucket holds exactly the counts of the exponent buckets in
/// its range.
pub open spec fn faithful(s: Seq<Bucket>, p: Seq<(isize, usize)>) -> bool {
    forall|l: int| 0 <= l < s.len() ==> (#[trigger] s[l]).count == range_sum(p, s[l].exp_min as int, s[l].exp_max as int)
}

/// With ascending keys, the range of a single key holds that bucket alone.
proof fn lemma_range_sum_single(p: Seq<(isize, usize)>, i: int)
    requires
        keys_ascending(p),
        0 <= i < p.len(),
    ensures
        range_sum(p, p[i].0 as int, p[i].0 as int) == p[i].1,
    decreases p.len(),
{
    if i < p.len() - 1 {
        lemma_range_sum_single(p.drop_last(), i);
    } else {
        lemma_range_sum_none(p.drop_last(), p[i].0 as int);
    }
}

/// A range holds at least the count of each bucket whose key it contains.
proof fn lemma_range_sum_at_least(p: Seq<(isize, usize)>, lo: int, hi: int, q: int)
    requires
        0 <= q < p.len(),
        lo <= p[q].0 <= hi,
    ensures
        range_sum(p, lo, hi) >= p[q].1,
    decreases p.len(),
{
    if q < p.len() - 1 {
        lemma_range_sum_at_least(p.drop_last(), lo, hi, q);
    }
}

/// Keys all below `k` leave nothing in the range of `k` alone.
proof fn lemma_range_sum_none(p: Seq<(isize, usize)>, k: int)
    requires
        forall|j: int| 0 <= j < p.len() ==> p[j].0 < k,
    ensures
        range_sum(p, k, k) == 0,
    decreases p.len(),
{
    if p.len() > 0 {
        lemma_range_sum_none(p.drop_last(), k);
    }
}

/// Two ranges with no key between them add up to the range that spans both.
proof fn lemma_range_sum_split(p: Seq<(isize, usize)>, a: int, b: int, c: int, d: int)
    requires
        a <= b < c <= d,
        forall|j: int| 0 <= j < p.len() ==> !(b < #[trigger] p[j].0 < c),
    ensures
        range_sum(p, a, d) == range_sum(p, a, b) + range_sum(p, c, d),
    decreases p.len(),
{
    if p.len() > 0 {
        lemma_range_sum_split(p.drop_last(), a, b, c, d);
        assert(!(b < p[p.len() - 1].0 < c));
    }
}

/// A collapse step keeps each bucket's count equal to the counts of the
/// exponents in its range.
proof fn lemma_collapse_faithful(s: Seq<Bucket>, p: Seq<(isize, usize)>)
    requires
        s.len() >= 2,
        chained(s),
        faithful(s, p),
        bucket_sum(s) <= usize::MAX,
        forall|i: int| 0 <= i < p.len() ==> spanned(s, #[trigger] p[i].0 as int),
    ensures
        faithful(collapse_once(s), p),
{
    lemma_smallest_index(s);
    lemma_collapse_chained(s);
    let i = smallest_index(s);
    let j = merge_target(s, i);
    lemma_bucket_sum_two(s, i, j);
    let m = merged(s[j], s[i]);
    let t = collapse_once(s);
    let lo = if j < i { j } else { i };
    assert(s[lo].exp_max < s[lo + 1].exp_min);
    assert(s[lo].exp_min <= s[lo].key <= s[lo].exp_max);
    assert(s[lo + 1].exp_min <= s[lo + 1].key <= s[lo + 1].exp_max);
    assert(t[lo] == m);
    assert(m.count == s[lo].count + s[lo + 1].count);
    assert forall|q: int| 0 <= q < p.len() implies !(s[lo].exp_max < #[trigger] p[q].0 < s[lo + 1].exp_min) by {
        assert(spanned(s, p[q].0 as int));
        let l = choose|l: int| spans(s, l, p[q].0 as int);
        if l < lo {
            assert(s[l].exp_max < s[lo].exp_min);
        } else if l > lo + 1 {
            assert(s[lo + 1].exp_max < s[l].exp_min);
        }
    }
    lemma_range_sum_split(p, s[lo].exp_min as int, s[lo].exp_max as int, s[lo + 1].exp_min as int, s[lo + 1].exp_max as int);
    assert forall|l: int| 0 <= l < t.len() implies (#[trigger] t[l]).count == range_sum(p, t[l].exp_min as int, t[l].exp_max as int) by {
        if l < lo {
            assert(t[l] == s[l]);
        } else if l > lo {
            assert(t[l] == s[l + 1]);
        }
    }
}

/// Collapsing to `cap` buckets keeps each bucket's count equal to the
/// counts of the exponents in its range.
pub proof fn lemma_reduce_faithful(s: Seq<Bucket>, cap: int, p: Seq<(isize, usize)>)
    requires
        cap >= 3,
        chained(s),
        faithful(s, p),
        bucket_sum(s) <= usize::MAX,
        forall|i: int| 0 <= i < p.len() ==> spanned(s, #[trigger] p[i].0 as int),
    ensures
        faithful(reduce(s, cap), p),
    decreases s.len(),
{
    if !(s.len() <= cap || s.len() < 2) {
        let t = collapse_once(s);
        lemma_collapse_len(s);
        lemma_collapse_sum(s);
        lemma_collapse_chained(s);
        lemma_collapse_faithful(s, p);
        assert forall|i: int| 0 <= i < p.len() implies spanned(t, #[trigger] p[i].0 as int) by {
            let l = choose|l: int| spans(s, l, p[i].0 as int);
            assert(spans(s, l, p[i].0 as int));
        }
        lemma_reduce_faithful(t, cap, p);
        assert(reduce(s, cap) == reduce(t, cap));
    }
}

/// A share of the total as text: `<percent>%`.
pub open spec fn percent_text(count: nat, total: nat) -> Seq<char> {
    decimal(shown_percent(count, total)).push('%')
}

/// One display bucket as text: `e<k> <percent>%` for a single exponent,
/// `e<min> to e<max> <percent>%` for a merged range.
pub open spec fn bucket_text(b: Bucket, total: nat) -> Seq<char> {
    if b.exp_min == b.exp_max {
        seq!['e'] + signed_decimal(b.key as int) + seq![' '] + percent_text(b.count as nat, total)
    } else {
        seq!['e'] + signed_decimal(b.exp_min as int) + seq![' ', 't', 'o', ' ', 'e'] + signed_decimal(
            b.exp_max as int,
        ) + seq![' '] + percent_text(b.count as nat, total)
    }
}

/// Each display bucket as text.
pub open spec fn bucket_texts(s: Seq<Bucket>, total: nat) -> Seq<Seq<char>> {
    s.map_values(|b: Bucket| bucket_text(b, total))
}

/// A special counter as text, `<label> <percent>%`, or nothing when the
/// count is zero.
pub open spec fn counter_text(label: Seq<char>, count: nat, total: nat) -> Seq<Seq<char>> {
    if count > 0 {
        seq![label + seq![' '] + percent_text(count, total)]
    } else {
        Seq::empty()
    }
}

/// A prefix of the exponent buckets holds no more than all of them.
proof fn lemma_pair_sum_prefix(s: Seq<(isize, usize)>, i: int)
    requires
        0 <= i <= s.len(),
    ensures
        pair_sum(s.take(i)) <= pair_sum(s),
    decreases s.len(),
{
    if i < s.len() {
        lemma_pair_sum_prefix(s.drop_last(), i);
        assert(s.drop_last().take(i) =~= s.take(i));
    } else {
        assert(s.take(i) =~= s);
    }
}

/// Appends `<percent>%` for `count` out of `total`.
fn push_percent(out: &mut Vec<char>, count: usize, total: usize)
    ensures
        final(out)@ == old(out)@ + percent_text(count as nat, total as nat),
{
    let pct = to_percent(count, total);
    push_decimal(out, pct as u64);
    out.push('%');
    assert(final(out)@ =~= old(out)@ + percent_text(count as nat, total as nat));
}

/// Appends `piece` to a comma-separated list.
fn push_piece(out: &mut Vec<char>, first: bool, piece: &[char])
    ensures
        final(out)@ == if first { old(out)@ + piece@ } else { old(out)@ + seq![',', ' '] + piece@ },
{
    if !first {
        out.push(',');
        out.push(' ');
    }
    push_chars(out, piece);
    assert(final(out)@ =~= if first { old(out)@ + piece@ } else { old(out)@ + seq![',', ' '] + piece@ });
}

/// Counts of values, split into NaN, infinite, zero, and base-10 exponent
/// buckets for finite nonzero values.
pub struct LogHistogram {
    num_nan: usize,
    num_inf: usize,
    num_zero: usize,
    /// The largest number of exponent buckets that a rendering shows.
    max_display_buckets: usize,
    /// Exponent buckets, ascending by exponent, each with a positive count.
    log10_buckets: Vec<(isize, usize)>,
}

impl Clone for LogHistogram {
    fn clone(&self) -> (r: LogHistogram)
        ensures
            r.nan_count() == self.nan_count(),
            r.inf_count() == self.inf_count(),
            r.zero_count() == self.zero_count(),
            r.max_buckets() == self.max_buckets(),
            r.buckets() == self.buckets(),
    {
        let mut buckets: Vec<(isize, usize)> = Vec::new();
        let mut i: usize = 0;
        while i < self.log10_buckets.len()
            invariant
                i <= self.log10_buckets@.len(),
                buckets@ == self.log10_buckets@.take(i as int),
            decreases self.log10_buckets@.len() - i,
        {
            buckets.push(self.log10_buckets[i]);
            i += 1;
            assert(buckets@ =~= self.log10_buckets@.take(i as int));
        }
        assert(buckets@ =~= self.log10_buckets@);
        LogHistogram {
            num_nan: self.num_nan,
            num_inf: self.num_inf,
            num_zero: self.num_zero,
            max_display_buckets: self.max_display_buckets,
            log10_buckets: buckets,
        }
    }
}

impl LogHistogram {
    pub closed spec fn nan_count(&self) -> nat {
        self.num_nan as nat
    }

    pub closed spec fn inf_count(&self) -> nat {
        self.num_inf as nat
    }

    pub closed spec fn zero_count(&self) -> nat {
        self.num_zero as nat
    }

    pub closed spec fn max_buckets(&self) -> nat {
        self.max_display_buckets as nat
    }

    /// The exponent buckets in ascending order of exponent.
    pub closed spec fn buckets(&self) -> Seq<(isize, usize)> {
        self.log10_buckets@
    }

    /// The number of values added so far.
    pub open spec fn total(&self) -> nat {
        self.nan_count() + self.inf_count() + self.zero_count() + pair_sum(self.buckets())
    }

    /// `post` is `pre` after [`LogHistogram::add`] counted `diff` with
    /// exponent `exp10`.
    pub open spec fn counted(pre: &LogHistogram, post: &LogHistogram, diff: Binary64, exp10: isize) -> bool {
        &&& post.wf()
        &&& post.total() == pre.total() + 1
        &&& post.max_buckets() == pre.max_buckets()
        &&& post.nan_count() == pre.nan_count() + if diff.is_nan_spec() { 1int } else { 0 }
        &&& post.inf_count() == pre.inf_count() + if diff.is_infinite_spec() { 1int } else { 0 }
        &&& post.zero_count() == pre.zero_count() + if diff.is_zero_spec() { 1int } else { 0 }
        &&& !diff.is_finite_spec() || diff.is_zero_spec() ==> post.buckets() == pre.buckets()
        &&& diff.is_finite_spec() && !diff.is_zero_spec() ==> pair_map(post.buckets()) == pair_map(
            pre.buckets(),
        ).insert(
            exp10,
            if pair_map(pre.buckets()).contains_key(exp10) {
                pair_map(pre.buckets())[exp10] + 1
            } else {
                1
            },
        )
    }

    /// The pieces of the rendering: zeros, then the collapsed buckets in
    /// ascending order, then infinities and NaNs, each as a share of the
    /// total.
    pub open spec fn pieces(&self) -> Seq<Seq<char>> {
        let total = self.total();
        counter_text(seq!['z', 'e', 'r', 'o'], self.zero_count(), total) + bucket_texts(
            reduce(unmerged(self.buckets()), self.max_buckets() as int),
            total,
        ) + counter_text(seq!['i', 'n', 'f'], self.inf_count(), total)
            + counter_text(seq!['n', 'a', 'n'], self.nan_count(), total)
    }

    pub open spec fn wf(&self) -> bool {
        &&& self.max_buckets() >= 3
        &&& keys_ascending(self.buckets())
        &&& counts_positive(self.buckets())
        &&& self.total() <= usize::MAX
    }

    /// An empty histogram that shows at most `max_display_buckets` exponent
    /// buckets; fewer than three would leave the collapse without neighbours.
    pub fn new(max_display_buckets: usize) -> (r: LogHistogram)
        requires
            max_display_buckets > 2,
        ensures
            r.wf(),
            r.total() == 0,
            r.nan_count() == 0,
            r.inf_count() == 0,
            r.zero_count() == 0,
            r.buckets() == Seq::<(isize, usize)>::empty(),
            r.max_buckets() == max_display_buckets,
    {
        let r = LogHistogram {
            num_nan: 0,
            num_inf: 0,
            num_zero: 0,
            max_display_buckets,
            log10_buckets: Vec::new(),
        };
        assert(pair_sum(r.buckets()) == 0);
        r
    }

    /// What collapsing the buckets of a well-formed histogram keeps: the
    /// total count, the bound on the number of buckets, ranges that are
    /// disjoint and ascending, each exponent inside the range of exactly one
    /// surviving bucket, and in each surviving bucket exactly the counts of
    /// the exponents in its range, which are never none.
    pub proof fn lemma_reduced_histo(&self)
        requires
            self.wf(),
        ensures
            ({
                let r = reduce(unmerged(self.buckets()), self.max_buckets() as int);
                &&& bucket_sum(r) == pair_sum(self.buckets())
                &&& r.len() <= self.max_buckets()
                &&& chained(r)
                &&& forall|i: int| 0 <= i < self.buckets().len() ==> spanned(r, #[trigger] self.buckets()[i].0 as int)
                &&& forall|k: int, a: int, b: int| #[trigger] spans(r, a, k) && #[trigger] spans(r, b, k) ==> a == b
                &&& faithful(r, self.buckets())
                &&& forall|l: int| 0 <= l < r.len() ==> (#[trigger] r[l]).count > 0
            }),
    {
        let s = unmerged(self.buckets());
        lemma_unmerged_sum(self.buckets());
        assert forall|i: int| 0 <= i < s.len() implies #[trigger] s[i] == (Bucket {
            key: self.buckets()[i].0,
            exp_min: self.buckets()[i].0,
            exp_max: self.buckets()[i].0,
            count: self.buckets()[i].1,
        }) by {}
        assert forall|i: int, j: int| 0 <= i < j < s.len() implies #[trigger] s[i].exp_max < #[trigger] s[j].exp_min by {
            assert(s[i].exp_max == self.buckets()[i].0);
            assert(s[j].exp_min == self.buckets()[j].0);
        }
        lemma_reduce(s, self.max_buckets() as int);
        let r = reduce(s, self.max_buckets() as int);
        assert(bucket_sum(r) == pair_sum(self.buckets()));
        assert(r.len() <= self.max_buckets());
        assert(chained(r));
        assert forall|i: int| 0 <= i < s.len() implies spanned(s, #[trigger] self.buckets()[i].0 as int) by {
            assert(spans(s, i, self.buckets()[i].0 as int));
        }
        assert forall|l: int| 0 <= l < s.len() implies (#[trigger] s[l]).count == range_sum(self.buckets(), s[l].exp_min as int, s[l].exp_max as int) by {
            lemma_range_sum_single(self.buckets(), l);
        }
        lemma_reduce_faithful(s, self.max_buckets() as int, self.buckets());
        assert forall|l: int| 0 <= l < r.len() implies (#[trigger] r[l]).count > 0 by {
            let q = choose|q: int| 0 <= q < s.len() && s[q].key == r[l].key;
            assert(s[q].key == self.buckets()[q].0);
            lemma_range_sum_at_least(self.buckets(), r[l].exp_min as int, r[l].exp_max as int, q);
        }
        assert forall|k: int, a: int, b: int| #[trigger] spans(r, a, k) && #[trigger] spans(r, b, k) implies a == b by {
            lemma_chained_unique(r, k, a, b);
        }
        assert forall|i: int| 0 <= i < self.buckets().len() implies spanned(r, #[trigger] self.buckets()[i].0 as int) by {
            assert(spans(s, i, self.buckets()[i].0 as int));
        }
    }

    /// The summary as text: the pieces, comma-separated, for instance
    /// `zero 50%, e-3 to e-1 20%, e0 29%, nan 1%`. Only a copy of the buckets
    /// is collapsed.
    pub fn render(&self) -> (r: String)
        requires
            self.wf(),
        ensures
            r@ == joined(self.pieces()),
    {
        let mut sum: usize = 0;
        let mut i: usize = 0;
        while i < self.log10_buckets.len()
            invariant
                self.wf(),
                i <= self.log10_buckets@.len(),
                sum == pair_sum(self.log10_buckets@.take(i as int)),
            decreases self.log10_buckets@.len() - i,
        {
            proof {
                assert(self.log10_buckets@.take(i + 1).drop_last() =~= self.log10_buckets@.take(i as int));
                lemma_pair_sum_prefix(self.log10_buckets@, i + 1);
            }
            sum = sum + self.log10_buckets[i].1;
            i += 1;
        }
        proof {
            assert(self.log10_buckets@.take(i as int) =~= self.log10_buckets@);
        }
        let total: usize = self.num_nan + self.num_inf + self.num_zero + sum;
        let ghost t = total as nat;
        let mut out: Vec<char> = Vec::new();
        let ghost mut pieces: Seq<Seq<char>> = Seq::empty();
        let mut first = true;
        let ghost zero_part = counter_text(seq!['z', 'e', 'r', 'o'], self.zero_count(), t);
        if self.num_zero > 0 {
            let mut cur: Vec<char> = Vec::new();
            cur.push('z');
            cur.push('e');
            cur.push('r');
            cur.push('o');
            cur.push(' ');
            push_percent(&mut cur, self.num_zero, total);
            proof {
                assert(cur@ =~= seq!['z', 'e', 'r', 'o'] + seq![' '] + percent_text(self.num_zero as nat, t));
                lemma_joined_push(pieces, cur@);
            }
            push_piece(&mut out, true, cur.as_slice());
            first = false;
            proof {
                pieces = pieces.push(cur@);
                assert(pieces =~= zero_part);
            }
        } else {
            assert(pieces =~= zero_part);
        }
        let reduced = self.reduced_histo();
        let mut j: usize = 0;
        while j < reduced.len()
            invariant
                j <= reduced@.len(),
                total == t,
                pieces == zero_part + bucket_texts(reduced@.take(j as int), t),
                first == (pieces.len() == 0),
                out@ == joined(pieces),
            decreases reduced@.len() - j,
        {
            let b = reduced[j];
            let mut cur: Vec<char> = Vec::new();
            cur.push('e');
            if b.exp_min == b.exp_max {
                push_signed(&mut cur, b.key);
            } else {
                push_signed(&mut cur, b.exp_min);
                cur.push(' ');
                cur.push('t');
                cur.push('o');
                cur.push(' ');
                cur.push('e');
                push_signed(&mut cur, b.exp_max);
            }
            cur.push(' ');
            push_percent(&mut cur, b.count, total);
            proof {
                assert(cur@ =~= bucket_text(b, t));
                lemma_joined_push(pieces, cur@);
            }
            push_piece(&mut out, first, cur.as_slice());
            first = false;
            proof {
                let before = pieces;
                pieces = pieces.push(cur@);
                assert(bucket_texts(reduced@.take(j + 1), t) =~= bucket_texts(reduced@.take(j as int), t).push(cur@));
                assert(before.push(cur@) =~= zero_part + bucket_texts(reduced@.take(j as int), t).push(cur@));
                assert(pieces =~= zero_part + bucket_texts(reduced@.take(j + 1), t));
            }
            j += 1;
        }
        proof {
            assert(reduced@.take(j as int) =~= reduced@);
        }
        let ghost mid = pieces;
        let ghost inf_part = counter_text(seq!['i', 'n', 'f'], self.inf_count(), t);
        if self.num_inf > 0 {
            let mut cur: Vec<char> = Vec::new();
            cur.push('i');
            cur.push('n');
            cur.push('f');
            cur.push(' ');
            push_percent(&mut cur, self.num_inf, total);
            proof {
                assert(cur@ =~= seq!['i', 'n', 'f'] + seq![' '] + percent_text(self.num_inf as nat, t));
                lemma_joined_push(pieces, cur@);
            }
            push_piece(&mut out, first, cur.as_slice());
            first = false;
            proof {
                pieces = pieces.push(cur@);
                assert(pieces =~= mid + inf_part);
            }
        } else {
            assert(pieces =~= mid + inf_part);
        }
        let ghost mid2 = pieces;
        let ghost nan_part = counter_text(seq!['n', 'a', 'n'], self.nan_count(), t);
        if self.num_nan > 0 {
            let mut cur: Vec<char> = Vec::new();
            cur.push('n');
            cur.push('a');
            cur.push('n');
            cur.push(' ');
            push_percent(&mut cur, self.num_nan, total);
            proof {
                assert(cur@ =~= seq!['n', 'a', 'n'] + seq![' '] + percent_text(self.num_nan as nat, t));
                lemma_joined_push(pieces, cur@);
            }
            push_piece(&mut out, first, cur.as_slice());
            first = false;
            proof {
                pieces = pieces.push(cur@);
                assert(pieces =~= mid2 + nan_part);
            }
        } else {
            assert(pieces =~= mid2 + nan_part);
        }
        assert(pieces =~= self.pieces());
        string_from_chars(out)
    }

    /// Counts one magnitude: in the NaN, infinity or zero counter, or else
    /// in the bucket of `exp10`, the base-10 logarithm of `diff` truncated
    /// toward zero (`diff.log10() as isize`), which is read only when `diff`
    /// is finite and nonzero.
    pub fn add(&mut self, diff: Binary64, exp10: isize)
        requires
            old(self).wf(),
            old(self).total() < usize::MAX,
            diff.is_sign_positive_spec(),
        ensures
            LogHistogram::counted(&*old(self), &*final(self), diff, exp10),
    {
        if diff.is_nan() {
            self.num_nan += 1;
        } else if diff.is_infinite() {
            self.num_inf += 1;
        } else if diff.is_zero() {
            self.num_zero += 1;
        } else {
            let ghost s = self.log10_buckets@;
            let n = self.log10_buckets.len();
            let mut p: usize = 0;
            while p < n && self.log10_buckets[p].0 < exp10
                invariant
                    n == s.len(),
                    s == self.log10_buckets@,
                    p <= n,
                    forall|j: int| 0 <= j < p ==> s[j].0 < exp10,
                decreases n - p,
            {
                p += 1;
            }
            if p < n && self.log10_buckets[p].0 == exp10 {
                let c = self.log10_buckets[p].1;
                proof {
                    lemma_pair_sum_remove(s, p as int);
                    lemma_pair_map_at(s, p as int);
                    lemma_pair_map_update(s, p as int);
                }
                self.log10_buckets.set(p, (exp10, c + 1));
            } else {
                proof {
                    lemma_pair_map_insert(s, p as int, exp10);
                }
                self.log10_buckets.insert(p, (exp10, 1));
            }
        }
    }

    /// The exponent buckets collapsed, smallest first, until at most
    /// `max_display_buckets` remain, in ascending order of key.
    /// The histogram itself is left as it is.
    pub fn reduced_histo(&self) -> (r: Vec<Bucket>)
        requires
            self.wf(),
        ensures
            bucket_sum(r@) == pair_sum(self.buckets()),
            r@.len() <= self.max_buckets(),
            chained(r@),
            forall|i: int| 0 <= i < self.buckets().len() ==> spanned(r@, #[trigger] self.buckets()[i].0 as int),
            forall|k: int, a: int, b: int| #[trigger] spans(r@, a, k) && #[trigger] spans(r@, b, k) ==> a == b,
            faithful(r@, self.buckets()),
            forall|l: int| 0 <= l < r@.len() ==> (#[trigger] r@[l]).count > 0,
            r@ == reduce(unmerged(self.buckets()), self.max_buckets() as int),
    {
        let cap = self.max_display_buckets;
        let mut histo: Vec<Bucket> = Vec::new();
        let mut i: usize = 0;
        while i < self.log10_buckets.len()
            invariant
                i <= self.log10_buckets@.len(),
                histo@.len() == i,
                forall|j: int| 0 <= j < i ==> histo@[j] == unmerged(self.log10_buckets@)[j],
            decreases self.log10_buckets@.len() - i,
        {
            let (key, count) = self.log10_buckets[i];
            histo.push(Bucket { key, exp_min: key, exp_max: key, count });
            i += 1;
        }
        proof {
            lemma_unmerged_sum(self.log10_buckets@);
            assert(histo@ =~= unmerged(self.log10_buckets@));
        }
        let ghost start = histo@;
        while histo.len() > cap
            invariant
                cap == self.max_display_buckets,
                cap >= 3,
                reduce(histo@, cap as int) == reduce(start, cap as int),
                bucket_sum(histo@) == bucket_sum(start),
                bucket_sum(start) <= usize::MAX,
            decreases histo@.len(),
        {
            let n = histo.len();
            let mut from: usize = 0;
            let mut k: usize = 1;
            while k < n
                invariant
                    n == histo@.len(),
                    1 <= k <= n,
                    from == smallest_index(histo@.take(k as int)),
                decreases n - k,
            {
                proof {
                    lemma_smallest_index(histo@.take(k as int));
                    assert(histo@.take(k + 1).drop_last() =~= histo@.take(k as int));
                }
                if histo[k].count < histo[from].count {
                    from = k;
                }
                k += 1;
            }
            proof {
                assert(histo@.take(n as int) =~= histo@);
                lemma_smallest_index(histo@);
            }
            let to: usize = if from == 0 {
                1
            } else if from >= n - 1 {
                from - 1
            } else if histo[from + 1].count < histo[from - 1].count {
                from + 1
            } else {
                from - 1
            };
            let into = histo[to];
            let src = histo[from];
            proof {
                lemma_bucket_sum_two(histo@, from as int, to as int);
                lemma_collapse_sum(histo@);
                lemma_collapse_len(histo@);
            }
            let m = Bucket {
                key: into.key,
                exp_min: if into.exp_min <= src.exp_min { into.exp_min } else { src.exp_min },
                exp_max: if into.exp_max >= src.exp_max { into.exp_max } else { src.exp_max },
                count: into.count + src.count,
            };
            let ghost before = histo@;
            histo.set(to, m);
            histo.remove(from);
            assert(histo@ =~= collapse_once(before));
        }
        proof {
            self.lemma_reduced_histo();
        }
        histo
    }
}

} // verus!
