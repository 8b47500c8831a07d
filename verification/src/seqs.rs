//! Counting over sequences, and the stable most-urgent-first order of a
//! sequence of integer keys.

use vstd::prelude::*;

verus! {

/// How many elements of `s` satisfy `p`.
pub open spec fn count_where<A>(s: Seq<A>, p: spec_fn(A) -> bool) -> nat
    decreases s.len(),
{
    if s.len() == 0 {
        0
    } else {
        count_where(s.drop_last(), p) + if p(s.last()) { 1nat } else { 0nat }
    }
}

/// The texts of the elements of `s`, one after another.
pub open spec fn concat_map<A>(s: Seq<A>, f: spec_fn(A) -> Seq<char>) -> Seq<char>
    decreases s.len(),
{
    if s.len() == 0 {
        Seq::empty()
    } else {
        concat_map(s.drop_last(), f) + f(s.last())
    }
}

/// Rendering a prefix one element longer.
pub proof fn lemma_concat_map_take_step<A>(s: Seq<A>, i: int, f: spec_fn(A) -> Seq<char>)
    requires
        0 <= i < s.len(),
    ensures
        concat_map(s.take(i + 1), f) == concat_map(s.take(i), f) + f(s[i]),
{
    assert(s.take(i + 1).drop_last() =~= s.take(i));
}

/// The elements of `s` with every repeat of an earlier element left out.
pub open spec fn dedup<A>(s: Seq<A>) -> Seq<A>
    decreases s.len(),
{
    if s.len() == 0 {
        Seq::empty()
    } else {
        let d = dedup(s.drop_last());
        if d.contains(s.last()) {
            d
        } else {
            d.push(s.last())
        }
    }
}

/// Leaving out repeats keeps exactly the elements, each once, and never lengthens.
pub proof fn lemma_dedup_props<A>(s: Seq<A>)
    ensures
        forall|x: A| #[trigger] dedup(s).contains(x) <==> s.contains(x),
        forall|i: int, j: int| 0 <= i < j < dedup(s).len() ==> #[trigger] dedup(s)[i] != #[trigger] dedup(s)[j],
        dedup(s).len() <= s.len(),
    decreases s.len(),
{
    if s.len() > 0 {
        let p = s.drop_last();
        lemma_dedup_props(p);
        let d = dedup(p);
        assert forall|x: A| #[trigger] dedup(s).contains(x) <==> s.contains(x) by {
            if s.contains(x) {
                let k = choose|k: int| 0 <= k < s.len() && s[k] == x;
                if k < s.len() - 1 {
                    assert(p[k] == x);
                    assert(p.contains(x));
                    assert(d.contains(x));
                    if !d.contains(s.last()) {
                        let w = choose|w: int| 0 <= w < d.len() && d[w] == x;
                        assert(d.push(s.last())[w] == x);
                    }
                } else {
                    if !d.contains(s.last()) {
                        assert(d.push(s.last())[d.len() as int] == x);
                    }
                }
            }
            if dedup(s).contains(x) {
                let k = choose|k: int| 0 <= k < dedup(s).len() && dedup(s)[k] == x;
                if k < d.len() {
                    assert(dedup(s)[k] == d[k]);
                    assert(d.contains(x));
                    assert(p.contains(x));
                    let w = choose|w: int| 0 <= w < p.len() && p[w] == x;
                    assert(s[w] == x);
                } else {
                    assert(s[s.len() - 1] == x);
                }
            }
        }
        if !d.contains(s.last()) {
            let r = d.push(s.last());
            assert forall|i: int, j: int| 0 <= i < j < r.len() implies #[trigger] r[i] != #[trigger] r[j] by {
                if j == d.len() {
                    assert(r[i] == d[i]);
                    if d[i] == s.last() {
                        assert(d.contains(s.last()));
                    }
                } else {
                    assert(r[i] == d[i] && r[j] == d[j]);
                }
            }
        }
    }
}

/// Leaving out repeats of a prefix one element longer.
pub proof fn lemma_dedup_take_step<A>(s: Seq<A>, i: int)
    requires
        0 <= i < s.len(),
    ensures
        dedup(s.take(i + 1)) == if dedup(s.take(i)).contains(s[i]) {
            dedup(s.take(i))
        } else {
            dedup(s.take(i)).push(s[i])
        },
{
    assert(s.take(i + 1).drop_last() =~= s.take(i));
}

/// The elements that the references point to.
pub open spec fn deref_all<A>(s: Seq<&A>) -> Seq<A> {
    Seq::new(s.len(), |i: int| *s[i])
}

/// `p` does not hold.
pub open spec fn negate<A>(p: spec_fn(A) -> bool) -> spec_fn(A) -> bool {
    |a: A| !p(a)
}

/// Counting after one more element.
pub proof fn lemma_count_push<A>(s: Seq<A>, a: A, p: spec_fn(A) -> bool)
    ensures
        count_where(s.push(a), p) == count_where(s, p) + if p(a) { 1nat } else { 0nat },
{
    assert(s.push(a).drop_last() =~= s);
}

/// Counting over a prefix one element longer.
pub proof fn lemma_count_take_step<A>(s: Seq<A>, i: int, p: spec_fn(A) -> bool)
    requires
        0 <= i < s.len(),
    ensures
        count_where(s.take(i + 1), p) == count_where(s.take(i), p) + if p(s[i]) {
            1nat
        } else {
            0nat
        },
{
    assert(s.take(i + 1) =~= s.take(i).push(s[i]));
    lemma_count_push(s.take(i), s[i], p);
}

/// Nothing satisfies `p`: the count is 0 and the filtered sequence is empty.
pub proof fn lemma_count_none<A>(s: Seq<A>, p: spec_fn(A) -> bool)
    requires
        forall|i: int| 0 <= i < s.len() ==> !p(#[trigger] s[i]),
    ensures
        count_where(s, p) == 0,
        s.filter(p) == Seq::<A>::empty(),
    decreases s.len(),
{
    if s.len() > 0 {
        let q = s.drop_last();
        assert forall|i: int| 0 <= i < q.len() implies !p(#[trigger] q[i]) by {
            assert(q[i] == s[i]);
        }
        lemma_count_none(q, p);
        assert(!p(s[s.len() - 1]));
    }
    lemma_count_is_filter_len(s, p);
    assert(s.filter(p) =~= Seq::<A>::empty());
}

/// A count never exceeds the length.
pub proof fn lemma_count_le_len<A>(s: Seq<A>, p: spec_fn(A) -> bool)
    ensures
        count_where(s, p) <= s.len(),
    decreases s.len(),
{
    if s.len() > 0 {
        lemma_count_le_len(s.drop_last(), p);
    }
}

/// The elements that satisfy `p` and those that do not make up the whole.
pub proof fn lemma_count_complement<A>(s: Seq<A>, p: spec_fn(A) -> bool)
    ensures
        count_where(s, p) + count_where(s, negate(p)) == s.len(),
    decreases s.len(),
{
    if s.len() > 0 {
        lemma_count_complement(s.drop_last(), p);
    }
}

/// Counting agrees with the length of the filtered sequence.
pub proof fn lemma_count_is_filter_len<A>(s: Seq<A>, p: spec_fn(A) -> bool)
    ensures
        count_where(s, p) == s.filter(p).len(),
    decreases s.len(),
{
    if s.len() > 0 {
        lemma_count_is_filter_len(s.drop_last(), p);
        assert(s.drop_last().push(s.last()) =~= s);
        s.drop_last().lemma_filter_push(s.last(), p);
    }
}

/// Replacing one element changes the count by what the two elements contribute.
pub proof fn lemma_count_update<A>(s: Seq<A>, i: int, a: A, p: spec_fn(A) -> bool)
    requires
        0 <= i < s.len(),
    ensures
        count_where(s.update(i, a), p) + (if p(s[i]) { 1int } else { 0int }) == count_where(s, p)
            + (if p(a) { 1int } else { 0int }),
    decreases s.len(),
{
    if i == s.len() - 1 {
        assert(s.update(i, a).drop_last() =~= s.drop_last());
    } else {
        lemma_count_update(s.drop_last(), i, a, p);
        assert(s.update(i, a).drop_last() =~= s.drop_last().update(i, a));
    }
}

/// Removing one element takes away what it contributed to the count.
pub proof fn lemma_count_remove<A>(s: Seq<A>, i: int, p: spec_fn(A) -> bool)
    requires
        0 <= i < s.len(),
    ensures
        count_where(s.remove(i), p) + (if p(s[i]) { 1int } else { 0int }) == count_where(s, p),
    decreases s.len(),
{
    if i == s.len() - 1 {
        assert(s.remove(i) =~= s.drop_last());
    } else {
        lemma_count_remove(s.drop_last(), i, p);
        assert(s.remove(i).drop_last() =~= s.drop_last().remove(i));
    }
}

/// Counting distributes over concatenation.
pub proof fn lemma_count_add<A>(a: Seq<A>, b: Seq<A>, p: spec_fn(A) -> bool)
    ensures
        count_where(a + b, p) == count_where(a, p) + count_where(b, p),
    decreases b.len(),
{
    if b.len() > 0 {
        lemma_count_add(a, b.drop_last(), p);
        assert((a + b).drop_last() =~= a + b.drop_last());
    } else {
        assert(a + b =~= a);
    }
}

/// Key position `a` comes before key position `b` in the most-urgent-first
/// order: a larger key first, and among equal keys the earlier position first.
pub open spec fn comes_before(keys: Seq<i32>, a: int, b: int) -> bool {
    keys[a] > keys[b] || (keys[a] == keys[b] && a < b)
}

/// `idx` lists every position of `keys` once, larger keys first, equal keys in
/// their order in `keys` (what a stable sort by descending key produces).
pub open spec fn stable_desc_order(keys: Seq<i32>, idx: Seq<usize>) -> bool {
    &&& idx.len() == keys.len()
    &&& keys.len() <= usize::MAX
    &&& forall|i: int| 0 <= i < idx.len() ==> #[trigger] idx[i] < keys.len()
    &&& forall|k: usize| k < keys.len() ==> #[trigger] idx.contains(k)
    &&& forall|i: int, j: int|
        0 <= i < j < idx.len() ==> comes_before(keys, #[trigger] idx[i] as int, #[trigger] idx[j] as int)
}

/// The positions of `keys` ordered by descending key, equal keys keeping their
/// order in `keys`.
pub fn order_desc_stable(keys: &Vec<i32>) -> (idx: Vec<usize>)
    ensures
        stable_desc_order(keys@, idx@),
{
    let n = keys.len();
    let mut idx: Vec<usize> = Vec::new();
    let mut k: usize = 0;
    while k < n
        invariant
            n == keys@.len(),
            k <= n,
            idx@.len() == k,
            forall|i: int| 0 <= i < idx@.len() ==> #[trigger] idx@[i] < k,
            forall|m: usize| m < k ==> #[trigger] idx@.contains(m),
            forall|i: int, j: int|
                0 <= i < j < idx@.len() ==> comes_before(keys@, #[trigger] idx@[i] as int, #[trigger] idx@[j] as int),
        decreases n - k,
    {
        let key = keys[k];
        let mut p: usize = 0;
        while p < idx.len() && keys[idx[p]] >= key
            invariant
                n == keys@.len(),
                k < n,
                key == keys@[k as int],
                p <= idx@.len(),
                forall|i: int| 0 <= i < idx@.len() ==> #[trigger] idx@[i] < k,
                forall|q: int| 0 <= q < p ==> keys@[#[trigger] idx@[q] as int] >= key,
            decreases idx@.len() - p,
        {
            p += 1;
        }
        let ghost before = idx@;
        proof {
            assert forall|q: int| p <= q < before.len() implies keys@[#[trigger] before[q] as int] < key by {
                assert(keys@[before[p as int] as int] < key);
                if q > p {
                    assert(comes_before(keys@, before[p as int] as int, before[q] as int));
                }
            }
        }
        idx.insert(p, k);
        proof {
            assert(idx@ =~= before.insert(p as int, k));
            assert forall|i: int| 0 <= i < idx@.len() implies #[trigger] idx@[i] < k + 1 by {
                if i < p {
                    assert(idx@[i] == before[i]);
                } else if i > p {
                    assert(idx@[i] == before[i - 1]);
                }
            }
            assert forall|m: usize| m < k + 1 implies #[trigger] idx@.contains(m) by {
                if m == k {
                    assert(idx@[p as int] == k);
                } else {
                    assert(before.contains(m));
                    let w = choose|w: int| 0 <= w < before.len() && before[w] == m;
                    if w < p {
                        assert(idx@[w] == m);
                    } else {
                        assert(idx@[w + 1] == m);
                    }
                }
            }
            assert forall|i: int, j: int| 0 <= i < j < idx@.len() implies comes_before(
                keys@,
                #[trigger] idx@[i] as int,
                #[trigger] idx@[j] as int,
            ) by {
                if j < p {
                    assert(idx@[i] == before[i] && idx@[j] == before[j]);
                } else if j == p {
                    assert(idx@[i] == before[i]);
                    assert(keys@[before[i] as int] >= key);
                } else if i == p {
                    assert(idx@[j] == before[j - 1]);
                    assert(keys@[before[j - 1] as int] < key);
                } else if i < p {
                    assert(idx@[i] == before[i] && idx@[j] == before[j - 1]);
                } else {
                    assert(idx@[i] == before[i - 1] && idx@[j] == before[j - 1]);
                }
            }
        }
        k += 1;
    }
    idx
}

} // verus!
