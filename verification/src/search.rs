//! Positional search over sequences: the last element that satisfies a
//! predicate (how a map keyed by insertion answers a lookup, a later entry
//! replacing an earlier one) and the first one (how a scan in order answers).

use vstd::prelude::*;

verus! {

/// The index of the last element that satisfies `p`, or `-1`.
pub open spec fn last_index<T>(s: Seq<T>, p: spec_fn(T) -> bool) -> int
    decreases s.len(),
{
    if s.len() == 0 {
        -1
    } else if p(s.last()) {
        s.len() - 1
    } else {
        last_index(s.drop_last(), p)
    }
}

/// The index of the first element at or after `from` that satisfies `p`, or `-1`.
pub open spec fn first_index_from<T>(s: Seq<T>, p: spec_fn(T) -> bool, from: int) -> int
    decreases s.len() - from,
{
    if from < 0 || from >= s.len() {
        -1
    } else if p(s[from]) {
        from
    } else {
        first_index_from(s, p, from + 1)
    }
}

pub open spec fn first_index<T>(s: Seq<T>, p: spec_fn(T) -> bool) -> int {
    first_index_from(s, p, 0)
}

/// The first position at or after `from` whose element satisfies `stop`, or the length.
pub open spec fn scan_end<T>(v: Seq<T>, from: int, stop: spec_fn(T) -> bool) -> int {
    let i = first_index_from(v, stop, from);
    if i < 0 { v.len() as int } else { i }
}

/// What `last_index` says of the sequence.
pub proof fn lemma_last_index<T>(s: Seq<T>, p: spec_fn(T) -> bool)
    ensures
        -1 <= last_index(s, p) < s.len(),
        last_index(s, p) >= 0 ==> p(s[last_index(s, p)]),
        forall|j: int| last_index(s, p) < j < s.len() ==> !p(#[trigger] s[j]),
    decreases s.len(),
{
    if s.len() > 0 && !p(s.last()) {
        lemma_last_index(s.drop_last(), p);
        assert forall|j: int| last_index(s, p) < j < s.len() implies !p(#[trigger] s[j]) by {
            if j < s.len() - 1 {
                assert(s[j] == s.drop_last()[j]);
            }
        }
    }
}

/// Scanning a prefix backwards: an element that fails `p` can be dropped.
pub proof fn lemma_last_index_step<T>(s: Seq<T>, p: spec_fn(T) -> bool, i: int)
    requires
        0 < i <= s.len(),
        !p(s[i - 1]),
    ensures
        last_index(s.subrange(0, i), p) == last_index(s.subrange(0, i - 1), p),
{
    assert(s.subrange(0, i).drop_last() =~= s.subrange(0, i - 1));
}

/// Scanning a prefix backwards: an element that satisfies `p` is the answer.
pub proof fn lemma_last_index_hit<T>(s: Seq<T>, p: spec_fn(T) -> bool, i: int)
    requires
        0 < i <= s.len(),
        p(s[i - 1]),
    ensures
        last_index(s.subrange(0, i), p) == i - 1,
{
}

pub proof fn lemma_last_index_whole<T>(s: Seq<T>, p: spec_fn(T) -> bool)
    ensures
        last_index(s.subrange(0, s.len() as int), p) == last_index(s, p),
{
    assert(s.subrange(0, s.len() as int) =~= s);
}

/// What `first_index` says of the sequence.
pub proof fn lemma_first_index_from<T>(s: Seq<T>, p: spec_fn(T) -> bool, from: int)
    requires
        0 <= from,
    ensures
        first_index_from(s, p, from) == -1 || from <= first_index_from(s, p, from) < s.len(),
        first_index_from(s, p, from) >= 0 ==> p(s[first_index_from(s, p, from)]),
        first_index_from(s, p, from) >= 0 ==> forall|j: int| from <= j < first_index_from(s, p, from) ==> !p(#[trigger] s[j]),
        first_index_from(s, p, from) == -1 ==> forall|j: int| from <= j < s.len() ==> !p(#[trigger] s[j]),
    decreases s.len() - from,
{
    if from < s.len() && !p(s[from]) {
        lemma_first_index_from(s, p, from + 1);
    }
}

/// The elements in order, each kept at its first occurrence only.
pub open spec fn dedup<T>(s: Seq<T>) -> Seq<T>
    decreases s.len(),
{
    if s.len() == 0 {
        seq![]
    } else if s.drop_last().contains(s.last()) {
        dedup(s.drop_last())
    } else {
        dedup(s.drop_last()).push(s.last())
    }
}

/// Dropping repeats keeps every element.
pub proof fn lemma_dedup_contains<T>(s: Seq<T>, x: T)
    ensures
        dedup(s).contains(x) <==> s.contains(x),
    decreases s.len(),
{
    if s.len() > 0 {
        let d = s.drop_last();
        let l = s.last();
        lemma_dedup_contains(d, x);
        lemma_push_contains(d, l, x);
        assert(d.push(l) =~= s);
        if !d.contains(l) {
            lemma_push_contains(dedup(d), l, x);
        }
    }
}

/// An element of a sequence extended by one.
pub proof fn lemma_push_contains<T>(s: Seq<T>, l: T, x: T)
    ensures
        s.push(l).contains(x) <==> (s.contains(x) || x == l),
{
    if s.contains(x) {
        let i = choose|i: int| 0 <= i < s.len() && s[i] == x;
        assert(s.push(l)[i] == x);
    }
    if x == l {
        assert(s.push(l)[s.len() as int] == x);
    }
    if s.push(l).contains(x) {
        let i = choose|i: int| 0 <= i < s.push(l).len() && s.push(l)[i] == x;
        if i < s.len() {
            assert(s[i] == x);
        }
    }
}

/// Extending the sequence by one element.
pub proof fn lemma_dedup_push<T>(s: Seq<T>, x: T)
    ensures
        dedup(s.push(x)) == if s.contains(x) { dedup(s) } else { dedup(s).push(x) },
{
    assert(s.push(x).drop_last() =~= s);
}


/// `idx` gives, for each item of `a`, a position of `b` that holds it; the
/// positions increase.
pub open spec fn embeds<T>(a: Seq<T>, b: Seq<T>, idx: Seq<int>) -> bool {
    &&& idx.len() == a.len()
    &&& forall|i: int| 0 <= i < idx.len() ==> 0 <= #[trigger] idx[i] < b.len() && b[idx[i]] == a[i]
    &&& forall|i: int, j: int| 0 <= i < j < idx.len() ==> #[trigger] idx[i] < #[trigger] idx[j]
}

/// `a` is `b` with some items left out, the rest in order.
pub open spec fn subsequence<T>(a: Seq<T>, b: Seq<T>) -> bool {
    exists|idx: Seq<int>| embeds(a, b, idx)
}

} // verus!
