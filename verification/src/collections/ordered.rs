//! Range queries over an ordered map.
use vstd::prelude::*;
use vstd::std_specs::btree::{increasing_seq, key_obeys_cmp_spec, spec_btree_map_iter};
use vstd::std_specs::iter::IteratorSpec;
use vstd::std_specs::cmp::OrdSpec;
use std::collections::BTreeMap;

verus! {

broadcast use vstd::std_specs::btree::group_btree_axioms;

/// Whether the keys are in strictly increasing order.
pub open spec fn strictly_increasing(ks: Seq<u32>) -> bool {
    forall|i: int, j: int| 0 <= i < j < ks.len() ==> ks[i] < ks[j]
}

/// `names` lists, in increasing key order, the values of exactly the keys of
/// `m` from `lo` to `hi` inclusive; `ks` are those keys.
pub open spec fn band_listing<'a>(
    m: Map<u32, &'a str>,
    lo: u32,
    hi: u32,
    ks: Seq<u32>,
    names: Seq<&'a str>,
) -> bool {
    &&& strictly_increasing(ks)
    &&& forall|k: u32| ks.contains(k) <==> (m.contains_key(k) && lo <= k <= hi)
    &&& names.len() == ks.len()
    &&& forall|i: int| 0 <= i < ks.len() ==> names[i] == m[ks[i]]
}

/// The keys of a `u32`-keyed map come out of its iterator in strictly
/// increasing order.
proof fn lemma_keys_ascend<'a>(s: Seq<(&u32, &&'a str)>)
    requires
        increasing_seq(s.map_values(|kv: (&u32, &&'a str)| *kv.0)),
    ensures
        forall|i: int, j: int| 0 <= i < j < s.len() ==> *s[i].0 < *s[j].0,
{
    broadcast use vstd::laws_cmp::group_laws_cmp;
    let ks = s.map_values(|kv: (&u32, &&'a str)| *kv.0);
    assert(vstd::laws_cmp::obeys_cmp::<u32>());
    assert forall|i: int, j: int| 0 <= i < j < s.len() implies *s[i].0 < *s[j].0 by {
        assert(ks[i] == *s[i].0 && ks[j] == *s[j].0);
        assert(ks[i].cmp_spec(&ks[j]) is Less);
    }
}

/// Maps keyed by `u32` meet the ordering model of the map specifications.
proof fn lemma_u32_keys_ordered()
    ensures
        key_obeys_cmp_spec::<u32>(),
{
    broadcast use vstd::laws_cmp::group_laws_cmp;
    assert(vstd::laws_cmp::obeys_cmp::<u32>());
}

/// The names whose scores lie from `lo` to `hi` inclusive, in ascending
/// score order.
pub fn score_range<'a>(scores: &BTreeMap<u32, &'a str>, lo: u32, hi: u32) -> (r: Vec<&'a str>)
    ensures
        exists|ks: Seq<u32>| band_listing(scores@, lo, hi, ks, r@),
{
    proof {
        lemma_u32_keys_ordered();
    }
    // The order of the keys is stated of every iterator over the map; this
    // one is made for that statement alone.
    let first_pass = scores.iter();
    let ghost all = spec_btree_map_iter(scores).remaining();
    proof {
        assert(first_pass.remaining() == all);
        lemma_keys_ascend(all);
    }
    let mut out: Vec<&'a str> = Vec::new();
    let ghost mut ks: Seq<u32> = Seq::empty();
    for kv in it: scores.iter()
        invariant
            it.seq() == all,
            all == spec_btree_map_iter(scores).remaining(),
            forall|i: int, j: int| 0 <= i < j < all.len() ==> *all[i].0 < *all[j].0,
            strictly_increasing(ks),
            forall|a: int, p: int|
                0 <= a < ks.len() && it.index() <= p < all.len() ==> ks[a] < *all[p].0,
            forall|p: int|
                0 <= p < it.index() && lo <= *all[p].0 <= hi ==> ks.contains(*all[p].0),
            forall|k: u32| ks.contains(k) ==> lo <= k <= hi && scores@.contains_key(k),
            out@.len() == ks.len(),
            forall|a: int| 0 <= a < ks.len() ==> out@[a] == scores@[ks[a]],
    {
        let ghost idx = it.index();
        assert(kv == all[idx]);
        assert(scores@.contains_key(*all[idx].0) && scores@[*all[idx].0] == *all[idx].1);
        let (k, v) = kv;
        if lo <= *k && *k <= hi {
            out.push(*v);
            proof {
                let old_ks = ks;
                ks = ks.push(*k);
                assert forall|k2: u32| ks.contains(k2) implies lo <= k2 <= hi
                    && scores@.contains_key(k2) by {
                    if k2 != *k {
                        assert(old_ks.contains(k2));
                    }
                }
                assert forall|p: int| 0 <= p < idx + 1 && lo <= *all[p].0 <= hi implies ks.contains(
                    *all[p].0,
                ) by {
                    if p < idx {
                        let a = choose|a: int| 0 <= a < old_ks.len() && old_ks[a] == *all[p].0;
                        assert(ks[a] == *all[p].0);
                    } else {
                        assert(ks[old_ks.len() as int] == *all[p].0);
                    }
                }
            }
        }
    }
    proof {
        assert forall|k: u32| scores@.contains_key(k) && lo <= k <= hi implies ks.contains(k) by {
            assert(all.contains((&k, &scores@[k])));
            let p = choose|p: int| 0 <= p < all.len() && all[p] == (&k, &scores@[k]);
            assert(*all[p].0 == k);
        }
        assert(band_listing(scores@, lo, hi, ks, out@));
    }
    out
}

} // verus!
