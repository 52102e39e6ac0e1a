//! Facts about the key order of `BTreeMap` iteration.

use std::collections::BTreeMap;

use vstd::prelude::*;
use vstd::std_specs::iter::IteratorSpec;
use vstd::std_specs::btree::increasing_seq;
use vstd::laws_cmp::obeys_cmp;
use vstd::std_specs::cmp::OrdSpec;

verus! {

broadcast use vstd::std_specs::btree::group_btree_axioms;

/// Keys yielded in increasing order are strictly increasing integers.
pub proof fn lemma_increasing_i32(s: Seq<&i32>)
    requires
        increasing_seq(s),
    ensures
        forall|i: int, j: int| 0 <= i < j < s.len() ==> *s[i] < *s[j],
{
    assert(obeys_cmp::<i32>());
    assert(obeys_cmp::<&i32>());
    lemma_increasing_seq_less(s);
    assert forall|i: int, j: int| 0 <= i < j < s.len() implies *s[i] < *s[j] by {
        assert(ord_less(s[i], s[j]));
    }
}

/// Keys yielded in increasing order are strictly increasing integers.
pub proof fn lemma_increasing_u32(s: Seq<&u32>)
    requires
        increasing_seq(s),
    ensures
        forall|i: int, j: int| 0 <= i < j < s.len() ==> *s[i] < *s[j],
{
    assert(obeys_cmp::<u32>());
    assert(obeys_cmp::<&u32>());
    lemma_increasing_seq_less(s);
    assert forall|i: int, j: int| 0 <= i < j < s.len() implies *s[i] < *s[j] by {
        assert(ord_less(s[i], s[j]));
    }
}

/// Keys yielded in increasing order are strictly increasing integers.
pub proof fn lemma_increasing_u16(s: Seq<&u16>)
    requires
        increasing_seq(s),
    ensures
        forall|i: int, j: int| 0 <= i < j < s.len() ==> *s[i] < *s[j],
{
    assert(obeys_cmp::<u16>());
    assert(obeys_cmp::<&u16>());
    lemma_increasing_seq_less(s);
    assert forall|i: int, j: int| 0 <= i < j < s.len() implies *s[i] < *s[j] by {
        assert(ord_less(s[i], s[j]));
    }
}

/// `u32` keys follow the order laws that the `BTreeMap` and `BTreeSet`
/// specifications ask for.
pub proof fn lemma_u32_keys_ordered()
    ensures
        obeys_cmp::<u32>(),
{
}

/// `a` orders strictly before `b`.
spec fn ord_less<K: Ord>(a: K, b: K) -> bool {
    a.cmp_spec(&b) is Less
}

/// Elements of a sequence in increasing order are pairwise strictly ordered.
proof fn lemma_increasing_seq_less<K: Ord>(s: Seq<K>)
    requires
        increasing_seq(s),
        obeys_cmp::<K>(),
    ensures
        forall|i: int, j: int| 0 <= i < j < s.len() ==> ord_less(s[i], s[j]),
{
}

/// Keys of a map, in ascending order.
pub fn sorted_keys<V>(m: &BTreeMap<u32, V>) -> (r: Vec<u32>)
    ensures
        r@.to_set() == m@.dom(),
        forall|i: int, j: int| 0 <= i < j < r@.len() ==> r@[i] < r@[j],
{
    let mut out: Vec<u32> = Vec::new();
    let ghost all = vstd::std_specs::btree::spec_keys_iter(m).remaining();
    proof {
        vstd::std_specs::btree::axiom_spec_keys_iter(m);
    }
    for k in it: m.keys()
        invariant
            it.seq() == all,
            out@ == it.seq().take(it.index() as int).map_values(|r: &u32| *r),
    {
        out.push(*k);
    }
    proof {
        assert(out@ =~= all.map_values(|r: &u32| *r));
        assert(all.unref() =~= all.map_values(|r: &u32| *r));
        lemma_increasing_u32(all);
    }
    out
}

/// The elements of `s` that satisfy `keep`, in order.
pub open spec fn filter_u32(s: Seq<u32>, keep: spec_fn(u32) -> bool) -> Seq<u32>
    decreases s.len(),
{
    if s.len() == 0 {
        Seq::empty()
    } else {
        let rest = filter_u32(s.drop_last(), keep);
        if keep(s.last()) {
            rest.push(s.last())
        } else {
            rest
        }
    }
}

/// Filtering a strictly increasing sequence keeps it strictly increasing,
/// keeps only elements that satisfy the predicate, and keeps all of them.
pub proof fn lemma_filter_u32(s: Seq<u32>, keep: spec_fn(u32) -> bool)
    requires
        forall|a: int, b: int| 0 <= a < b < s.len() ==> s[a] < s[b],
    ensures
        forall|a: int, b: int|
            0 <= a < b < filter_u32(s, keep).len() ==> filter_u32(s, keep)[a] < filter_u32(
                s,
                keep,
            )[b],
        forall|k: int|
            0 <= k < filter_u32(s, keep).len() ==> keep(#[trigger] filter_u32(s, keep)[k])
                && s.contains(filter_u32(s, keep)[k]),
        forall|j: int|
            0 <= j < s.len() && keep(#[trigger] s[j]) ==> filter_u32(s, keep).contains(s[j]),
    decreases s.len(),
{
    if s.len() > 0 {
        let init = s.drop_last();
        lemma_filter_u32(init, keep);
        let rest = filter_u32(init, keep);
        let f = filter_u32(s, keep);
        assert forall|k: int| 0 <= k < rest.len() implies s.contains(#[trigger] rest[k])
            && rest[k] < s.last() by {
            let j = choose|j: int| 0 <= j < init.len() && init[j] == rest[k];
            assert(s[j] == init[j]);
        }
        assert forall|j: int| 0 <= j < s.len() && keep(#[trigger] s[j]) implies f.contains(s[j]) by {
            if j < init.len() {
                assert(init[j] == s[j]);
                let k = choose|k: int| 0 <= k < rest.len() && rest[k] == init[j];
                assert(f[k] == rest[k]);
            } else {
                assert(f[f.len() - 1] == s[j]);
            }
        }
        assert forall|k: int| 0 <= k < f.len() implies keep(#[trigger] f[k]) && s.contains(f[k]) by {
            if k < rest.len() {
                assert(f[k] == rest[k]);
            } else {
                assert(s[s.len() - 1] == s.last());
            }
        }
    }
}

} // verus!
