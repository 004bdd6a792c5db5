//! Counting, grouping and de-duplicating words with a hash map.
use vstd::prelude::*;
use super::my_hash_map::MyHashMap;
use crate::text::{words, chars_of, split_words, string_of, lex_lt, lemma_lex_order, chars_lt, chars_eq};
use std::collections::{HashMap, HashSet};
use vstd::string::StringSliceAdditionalSpecFns;

verus! {

/// How many times `w` occurs in `ws`.
pub open spec fn occurrences(ws: Seq<Seq<char>>, w: Seq<char>) -> nat
    decreases ws.len(),
{
    if ws.len() == 0 {
        0
    } else {
        occurrences(ws.drop_last(), w) + if ws.last() == w {
            1nat
        } else {
            0nat
        }
    }
}

/// A word occurs at least once exactly when it is in the sequence.
pub proof fn lemma_occurrences_positive(ws: Seq<Seq<char>>, w: Seq<char>)
    ensures
        occurrences(ws, w) > 0 <==> ws.contains(w),
    decreases ws.len(),
{
    if ws.len() > 0 {
        lemma_occurrences_positive(ws.drop_last(), w);
        if ws.drop_last().contains(w) {
            let i = choose|i: int| 0 <= i < ws.drop_last().len() && ws.drop_last()[i] == w;
            assert(ws[i] == w);
        }
        if ws.contains(w) && ws.last() != w {
            let i = choose|i: int| 0 <= i < ws.len() && ws[i] == w;
            assert(ws.drop_last()[i] == w);
        }
        if ws.last() == w {
            assert(ws[ws.len() - 1] == w);
        }
    }
}

/// Nobody occurs more often than the sequence is long.
pub proof fn lemma_occurrences_bound(ws: Seq<Seq<char>>, w: Seq<char>)
    ensures
        occurrences(ws, w) <= ws.len(),
    decreases ws.len(),
{
    if ws.len() > 0 {
        lemma_occurrences_bound(ws.drop_last(), w);
    }
}

/// Counts the words of a sequence into `m`, starting from `base` for a word's
/// first sighting and adding one per later sighting.
fn tally_into(ws: &Vec<Vec<char>>, base: usize) -> (m: MyHashMap<usize>)
    requires
        ws.len() < usize::MAX / 16,
        base + ws.len() <= usize::MAX,
        base >= 1,
    ensures
        m.wf(),
        forall|w: Seq<char>| #[trigger] m@.contains_key(w) <==> occurrences(ws@.map_values(|v: Vec<char>| v@), w) > 0,
        forall|w: Seq<char>| #[trigger] m@.contains_key(w) ==> m@[w] == base + occurrences(ws@.map_values(|v: Vec<char>| v@), w) - 1,
{
    let ghost all = ws@.map_values(|v: Vec<char>| v@);
    let mut m: MyHashMap<usize> = MyHashMap::new();
    let mut i: usize = 0;
    while i < ws.len()
        invariant
            i <= ws.len(),
            ws.len() < usize::MAX / 16,
            base + ws.len() <= usize::MAX,
            base >= 1,
            all == ws@.map_values(|v: Vec<char>| v@),
            m.wf(),
            m.inserts() == i,
            forall|w: Seq<char>| #[trigger] m@.contains_key(w) <==> occurrences(all.take(i as int), w) > 0,
            forall|w: Seq<char>| #[trigger] m@.contains_key(w) ==> m@[w] == base + occurrences(all.take(i as int), w) - 1,
        decreases ws.len() - i,
    {
        let key = string_of(ws[i].as_slice());
        let ghost prefix = all.take(i as int);
        let ghost next = all.take(i + 1);
        proof {
            assert(next.drop_last() =~= prefix);
            assert(next.last() == key@);
            lemma_occurrences_bound(prefix, key@);
        }
        let cur = match m.get(&key) {
            Some(c) => *c + 1,
            None => base,
        };
        proof {
            m.lemma_fits_while_few_inserts();
        }
        m.insert(key, cur);
        i = i + 1;
    }
    assert(all.take(ws.len() as int) =~= all);
    m
}

/// How often each whitespace-separated word of `text` occurs.
pub fn word_count(text: &str) -> (m: MyHashMap<usize>)
    requires
        words(text@).len() < usize::MAX / 16,
    ensures
        m.wf(),
        forall|w: Seq<char>| #[trigger] m@.contains_key(w) <==> words(text@).contains(w),
        forall|w: Seq<char>| #[trigger] m@.contains_key(w) ==> m@[w] == occurrences(words(text@), w),
{
    let cs = chars_of(text);
    let ws = split_words(cs.as_slice());
    assert(ws@.map_values(|v: Vec<char>| v@) =~= words(text@));
    let m = tally_into(&ws, 1);
    proof {
        assert forall|w: Seq<char>| #[trigger] m@.contains_key(w) <==> words(text@).contains(w) by {
            lemma_occurrences_positive(words(text@), w);
        }
    }
    m
}

/// Counts words, giving each word `floor` on its first sighting and one more
/// for every later sighting.
pub fn tally_with_floor(ws: &[&str], floor: usize) -> (m: MyHashMap<usize>)
    requires
        ws.len() < usize::MAX / 16,
        floor + ws.len() <= usize::MAX,
    ensures
        m.wf(),
        forall|w: Seq<char>| #[trigger] m@.contains_key(w) <==> ws@.map_values(|s: &str| s@).contains(w),
        forall|w: Seq<char>| #[trigger] m@.contains_key(w) ==> m@[w] == floor + occurrences(ws@.map_values(|s: &str| s@), w) - 1,
{
    let ghost all = ws@.map_values(|s: &str| s@);
    let mut m: MyHashMap<usize> = MyHashMap::new();
    let mut i: usize = 0;
    while i < ws.len()
        invariant
            i <= ws.len(),
            ws.len() < usize::MAX / 16,
            floor + ws.len() <= usize::MAX,
            all == ws@.map_values(|s: &str| s@),
            m.wf(),
            m.inserts() == i,
            forall|w: Seq<char>| #[trigger] m@.contains_key(w) <==> occurrences(all.take(i as int), w) > 0,
            forall|w: Seq<char>| #[trigger] m@.contains_key(w) ==> m@[w] == floor + occurrences(all.take(i as int), w) - 1,
        decreases ws.len() - i,
    {
        let key = ws[i].to_owned();
        let ghost prefix = all.take(i as int);
        let ghost next = all.take(i + 1);
        proof {
            assert(next.drop_last() =~= prefix);
            assert(next.last() == key@);
            lemma_occurrences_bound(prefix, key@);
        }
        let cur = match m.get(&key) {
            Some(c) => *c + 1,
            None => floor,
        };
        proof {
            m.lemma_fits_while_few_inserts();
        }
        m.insert(key, cur);
        i = i + 1;
    }
    assert(all.take(ws.len() as int) =~= all);
    proof {
        assert forall|w: Seq<char>| #[trigger] m@.contains_key(w) <==> all.contains(w) by {
            lemma_occurrences_positive(all, w);
        }
    }
    m
}

/// The values stored under each query that is present, added up.
pub open spec fn lookup_total(m: Map<Seq<char>, u32>, qs: Seq<Seq<char>>) -> int
    decreases qs.len(),
{
    if qs.len() == 0 {
        0
    } else {
        lookup_total(m, qs.drop_last()) + if m.contains_key(qs.last()) {
            m[qs.last()] as int
        } else {
            0
        }
    }
}

/// Every running total of the lookups fits in a `u32`.
pub open spec fn lookup_totals_fit(m: Map<Seq<char>, u32>, qs: Seq<Seq<char>>) -> bool {
    forall|k: int| 0 <= k <= qs.len() ==> #[trigger] lookup_total(m, qs.take(k)) <= u32::MAX
}

/// Adds up the values stored under the queries that are present.
pub fn count_lookups(map: &MyHashMap<u32>, queries: &[&str]) -> (total: u32)
    requires
        map.wf(),
        lookup_totals_fit(map@, queries@.map_values(|s: &str| s@)),
    ensures
        total == lookup_total(map@, queries@.map_values(|s: &str| s@)),
{
    let ghost qs = queries@.map_values(|s: &str| s@);
    let mut total: u32 = 0;
    let mut i: usize = 0;
    while i < queries.len()
        invariant
            i <= queries.len(),
            map.wf(),
            qs == queries@.map_values(|s: &str| s@),
            lookup_totals_fit(map@, qs),
            total == lookup_total(map@, qs.take(i as int)),
        decreases queries.len() - i,
    {
        let key = queries[i].to_owned();
        proof {
            assert(qs.take(i + 1).drop_last() =~= qs.take(i as int));
            assert(lookup_total(map@, qs.take(i + 1)) <= u32::MAX);
        }
        match map.get(&key) {
            Some(v) => {
                total = total + *v;
            },
            None => {},
        }
        i = i + 1;
    }
    assert(qs.take(queries.len() as int) =~= qs);
    total
}

/// What a workload asks of a collection.
pub struct Spec {
    /// Keys must come out in order, or range queries are needed.
    pub need_sorted_iteration: bool,
    /// A queue or deque workload: push and pop at both ends.
    pub push_pop_both_ends: bool,
    /// Key to value (a map) rather than bare membership (a set).
    pub keys_values: bool,
}

/// The standard collection that best fits `spec`: the first rule that
/// matches wins.
pub open spec fn best_collection(spec: Spec) -> Seq<char> {
    if spec.push_pop_both_ends {
        "VecDeque"@
    } else if spec.need_sorted_iteration && spec.keys_values {
        "BTreeMap"@
    } else if spec.need_sorted_iteration {
        "BTreeSet"@
    } else if spec.keys_values {
        "HashMap"@
    } else {
        "HashSet"@
    }
}

/// Names the standard collection that best fits `spec`.
pub fn choose_collection(spec: &Spec) -> (name: &'static str)
    ensures
        name@ == best_collection(*spec),
{
    if spec.push_pop_both_ends {
        return "VecDeque";
    }
    if spec.need_sorted_iteration && spec.keys_values {
        return "BTreeMap";
    }
    if spec.need_sorted_iteration && !spec.keys_values {
        return "BTreeSet";
    }
    if spec.keys_values {
        return "HashMap";
    }
    "HashSet"
}

/// `s` with every repeat of an earlier element left out.
pub open spec fn first_sightings(s: Seq<Seq<char>>) -> Seq<Seq<char>>
    decreases s.len(),
{
    if s.len() == 0 {
        seq![]
    } else {
        let prev = first_sightings(s.drop_last());
        if s.drop_last().contains(s.last()) {
            prev
        } else {
            prev.push(s.last())
        }
    }
}

/// De-duplicates `items`, keeping each item's first sighting and the order of
/// first sightings.
pub fn unique_in_order<'a>(items: &[&'a str]) -> (r: Vec<&'a str>)
    requires
        items.len() < usize::MAX / 16,
    ensures
        r@.map_values(|s: &str| s@) == first_sightings(items@.map_values(|s: &str| s@)),
{
    let ghost all = items@.map_values(|s: &str| s@);
    let mut seen: MyHashMap<bool> = MyHashMap::new();
    let mut result: Vec<&'a str> = Vec::new();
    let mut i: usize = 0;
    while i < items.len()
        invariant
            i <= items.len(),
            items.len() < usize::MAX / 16,
            all == items@.map_values(|s: &str| s@),
            seen.wf(),
            seen.inserts() <= i,
            forall|w: Seq<char>| #[trigger] seen@.contains_key(w) <==> all.take(i as int).contains(w),
            result@.map_values(|s: &str| s@) == first_sightings(all.take(i as int)),
        decreases items.len() - i,
    {
        let item = items[i];
        let key = item.to_owned();
        let ghost prefix = all.take(i as int);
        let ghost next = all.take(i + 1);
        proof {
            assert(next.drop_last() =~= prefix);
            assert(next.last() == key@);
        }
        let fresh = match seen.get(&key) {
            Some(_) => false,
            None => true,
        };
        if fresh {
            proof {
                seen.lemma_fits_while_few_inserts();
            }
            seen.insert(key, true);
            result.push(item);
        }
        i = i + 1;
        proof {
            assert forall|w: Seq<char>| #[trigger] seen@.contains_key(w) <==> next.contains(w) by {
                if prefix.contains(w) {
                    let j = choose|j: int| 0 <= j < prefix.len() && prefix[j] == w;
                    assert(next[j] == w);
                }
                if next.contains(w) && w != next.last() {
                    let j = choose|j: int| 0 <= j < next.len() && next[j] == w;
                    assert(prefix[j] == w);
                }
                if w == next.last() {
                    assert(next[next.len() - 1] == w);
                }
            }
            assert(result@.map_values(|s: &str| s@) =~= first_sightings(next));
        }
    }
    assert(all.take(items.len() as int) =~= all);
    result
}

/// Whether `s` is in strictly increasing order.
pub open spec fn increasing(s: Seq<i32>) -> bool {
    forall|i: int, j: int| 0 <= i < j < s.len() ==> s[i] < s[j]
}

/// Puts `x`, which `v` lacks, into its place in the increasing `v`.
pub fn insert_in_order(v: &mut Vec<i32>, x: i32)
    requires
        increasing(old(v)@),
        !old(v)@.contains(x),
    ensures
        increasing(final(v)@),
        forall|y: i32| #[trigger] final(v)@.contains(y) <==> (old(v)@.contains(y) || y == x),
{
    let mut pos: usize = 0;
    while pos < v.len() && v[pos] < x
        invariant
            pos <= v.len(),
            forall|i: int| 0 <= i < pos ==> v@[i] < x,
        decreases v.len() - pos,
    {
        pos = pos + 1;
    }
    let ghost before = v@;
    proof {
        if pos < before.len() {
            assert(before[pos as int] != x);
        }
    }
    v.insert(pos, x);
    proof {
        assert forall|y: i32| #[trigger] v@.contains(y) <==> (before.contains(y) || y == x) by {
            if v@.contains(y) {
                let k = choose|k: int| 0 <= k < v@.len() && v@[k] == y;
                if k < pos {
                    assert(before[k] == y);
                } else if k > pos {
                    assert(before[k - 1] == y);
                }
            }
            if before.contains(y) {
                let k = choose|k: int| 0 <= k < before.len() && before[k] == y;
                if k < pos {
                    assert(v@[k] == y);
                } else {
                    assert(v@[k + 1] == y);
                }
            }
            if y == x {
                assert(v@[pos as int] == y);
            }
        }
    }
}

/// The elements common to `a` and `b`, and those only in `a` (each in
/// increasing order, without repeats), and the size of their union.
pub fn set_ops(a: &[i32], b: &[i32]) -> (r: (Vec<i32>, Vec<i32>, usize))
    ensures
        increasing(r.0@),
        forall|y: i32| #[trigger] r.0@.contains(y) <==> (a@.contains(y) && b@.contains(y)),
        increasing(r.1@),
        forall|y: i32| #[trigger] r.1@.contains(y) <==> (a@.contains(y) && !b@.contains(y)),
        r.2 == a@.to_set().union(b@.to_set()).len(),
{
    let mut set_b: HashSet<i32> = HashSet::new();
    let mut j: usize = 0;
    while j < b.len()
        invariant
            j <= b.len(),
            forall|y: i32| #[trigger] set_b@.contains(y) <==> b@.take(j as int).contains(y),
        decreases b.len() - j,
    {
        set_b.insert(b[j]);
        proof {
            let next = b@.take(j + 1);
            assert forall|y: i32| #[trigger] set_b@.contains(y) <==> next.contains(y) by {
                if b@.take(j as int).contains(y) {
                    let k = choose|k: int| 0 <= k < j && b@.take(j as int)[k] == y;
                    assert(next[k] == y);
                }
                if next.contains(y) {
                    let k = choose|k: int| 0 <= k <= j && next[k] == y;
                    if k < j {
                        assert(b@.take(j as int)[k] == y);
                    }
                }
                if y == b@[j as int] {
                    assert(next[j as int] == y);
                }
            }
        }
        j = j + 1;
    }
    assert(b@.take(b.len() as int) =~= b@);
    let mut seen: HashSet<i32> = HashSet::new();
    let mut inter: Vec<i32> = Vec::new();
    let mut only_a: Vec<i32> = Vec::new();
    let mut i: usize = 0;
    while i < a.len()
        invariant
            i <= a.len(),
            forall|y: i32| #[trigger] set_b@.contains(y) <==> b@.contains(y),
            forall|y: i32| #[trigger] seen@.contains(y) <==> a@.take(i as int).contains(y),
            increasing(inter@),
            increasing(only_a@),
            forall|y: i32| #[trigger] inter@.contains(y) <==> (a@.take(i as int).contains(y) && b@.contains(y)),
            forall|y: i32| #[trigger] only_a@.contains(y) <==> (a@.take(i as int).contains(y) && !b@.contains(y)),
        decreases a.len() - i,
    {
        let x = a[i];
        let ghost prefix = a@.take(i as int);
        let ghost next = a@.take(i + 1);
        proof {
            assert forall|y: i32| next.contains(y) <==> (prefix.contains(y) || y == x) by {
                if prefix.contains(y) {
                    let k = choose|k: int| 0 <= k < i && prefix[k] == y;
                    assert(next[k] == y);
                }
                if next.contains(y) {
                    let k = choose|k: int| 0 <= k <= i && next[k] == y;
                    if k < i {
                        assert(prefix[k] == y);
                    }
                }
                if y == x {
                    assert(next[i as int] == y);
                }
            }
        }
        if seen.insert(x) {
            if set_b.contains(&x) {
                insert_in_order(&mut inter, x);
            } else {
                insert_in_order(&mut only_a, x);
            }
        }
        i = i + 1;
    }
    assert(a@.take(a.len() as int) =~= a@);
    let mut k: usize = 0;
    while k < b.len()
        invariant
            k <= b.len(),
            forall|y: i32| #[trigger] seen@.contains(y) <==> (a@.contains(y) || b@.take(k as int).contains(y)),
        decreases b.len() - k,
    {
        let ghost prefix = b@.take(k as int);
        let ghost next = b@.take(k + 1);
        proof {
            assert forall|y: i32| next.contains(y) <==> (prefix.contains(y) || y == b@[k as int]) by {
                if prefix.contains(y) {
                    let t = choose|t: int| 0 <= t < k && prefix[t] == y;
                    assert(next[t] == y);
                }
                if next.contains(y) {
                    let t = choose|t: int| 0 <= t <= k && next[t] == y;
                    if t < k {
                        assert(prefix[t] == y);
                    }
                }
                if y == b@[k as int] {
                    assert(next[k as int] == y);
                }
            }
        }
        seen.insert(b[k]);
        k = k + 1;
    }
    assert(b@.take(b.len() as int) =~= b@);
    assert(seen@ =~= a@.to_set().union(b@.to_set()));
    let n = seen.len();
    (inter, only_a, n)
}

/// The words of `ws` whose length in bytes (as `str::len` reports it) is
/// `len`, in order.
pub open spec fn of_len<'a>(ws: Seq<&'a str>, len: usize) -> Seq<&'a str>
    decreases ws.len(),
{
    if ws.len() == 0 {
        seq![]
    } else {
        let prev = of_len(ws.drop_last(), len);
        if ws.last().spec_bytes().len() as usize == len {
            prev.push(ws.last())
        } else {
            prev
        }
    }
}

/// Groups words by their length in bytes, each group in input order.
pub fn group_by_len<'a>(words: &[&'a str]) -> (m: HashMap<usize, Vec<&'a str>>)
    ensures
        forall|len: usize| #[trigger] m@.contains_key(len) <==> of_len(words@, len).len() > 0,
        forall|len: usize| #[trigger] m@.contains_key(len) ==> m@[len]@ == of_len(words@, len),
{
    let mut map: HashMap<usize, Vec<&'a str>> = HashMap::new();
    let mut i: usize = 0;
    while i < words.len()
        invariant
            i <= words.len(),
            forall|len: usize| #[trigger] map@.contains_key(len) <==> of_len(words@.take(i as int), len).len() > 0,
            forall|len: usize| #[trigger] map@.contains_key(len) ==> map@[len]@ == of_len(words@.take(i as int), len),
        decreases words.len() - i,
    {
        let w = words[i];
        let l = w.len();
        let ghost prefix = words@.take(i as int);
        let ghost next = words@.take(i + 1);
        proof {
            assert(next.drop_last() =~= prefix);
            assert(next.last() == w);
            assert(l == w.spec_bytes().len() as usize);
            assert(of_len(next, l) == of_len(prefix, l).push(w));
            assert(forall|len: usize| len != l ==> #[trigger] of_len(next, len) == of_len(prefix, len));
        }
        let ghost before = map@;
        match map.remove(&l) {
            Some(mut group) => {
                assert(before.contains_key(l) && before[l] == group);
                group.push(w);
                map.insert(l, group);
                assert(map@ == before.insert(l, group));
            },
            None => {
                assert(!before.contains_key(l));
                let mut group: Vec<&'a str> = Vec::new();
                group.push(w);
                assert(group@ =~= of_len(prefix, l).push(w));
                map.insert(l, group);
                assert(map@ == before.insert(l, group));
            },
        }
        i = i + 1;
        proof {
            assert forall|len: usize| #[trigger] map@.contains_key(len) <==> of_len(next, len).len() > 0 by {
                if len != l {
                    assert(of_len(next, len) == of_len(prefix, len));
                }
            }
        }
    }
    assert(words@.take(words.len() as int) =~= words@);
    map
}

/// Whether the words in `ks` are in strictly increasing dictionary order.
pub open spec fn ascending_words(ks: Seq<Seq<char>>) -> bool {
    forall|i: int, j: int| 0 <= i < j < ks.len() ==> lex_lt(#[trigger] ks[i], #[trigger] ks[j])
}

/// Each distinct word of `text` with how often it occurs, in dictionary order.
pub fn sorted_word_count(text: &str) -> (r: Vec<(String, usize)>)
    requires
        words(text@).len() < usize::MAX,
    ensures
        ascending_words(r@.map_values(|e: (String, usize)| e.0@)),
        forall|i: int| 0 <= i < r@.len() ==> #[trigger] r@[i].1 == occurrences(words(text@), r@[i].0@),
        forall|w: Seq<char>|
            words(text@).contains(w) <==> exists|i: int| 0 <= i < r@.len() && #[trigger] r@[i].0@ == w,
{
    let cs = chars_of(text);
    let ws = split_words(cs.as_slice());
    let ghost all = words(text@);
    assert(ws@.map_values(|v: Vec<char>| v@) =~= all);
    let mut keys: Vec<Vec<char>> = Vec::new();
    let mut counts: Vec<usize> = Vec::new();
    let mut k: usize = 0;
    while k < ws.len()
        invariant
            k <= ws.len(),
            all.len() == ws.len(),
            all.len() < usize::MAX,
            forall|t: int| 0 <= t < ws.len() ==> #[trigger] ws@[t]@ == all[t],
            keys@.len() == counts@.len(),
            ascending_words(keys@.map_values(|v: Vec<char>| v@)),
            forall|i: int| 0 <= i < keys@.len() ==> #[trigger] counts@[i] == occurrences(all.take(k as int), keys@[i]@),
            forall|w: Seq<char>|
                all.take(k as int).contains(w) <==> exists|i: int| 0 <= i < keys@.len() && #[trigger] keys@[i]@ == w,
        decreases ws.len() - k,
    {
        let w = &ws[k];
        let ghost prefix = all.take(k as int);
        let ghost next = all.take(k + 1);
        let ghost kv = keys@.map_values(|v: Vec<char>| v@);
        proof {
            assert(next.drop_last() =~= prefix);
            assert(next.last() == w@);
        }
        let mut pos: usize = 0;
        while pos < keys.len() && chars_lt(keys[pos].as_slice(), w.as_slice())
            invariant
                pos <= keys@.len(),
                kv == keys@.map_values(|v: Vec<char>| v@),
                forall|i: int| 0 <= i < pos ==> lex_lt(#[trigger] keys@[i]@, w@),
            decreases keys@.len() - pos,
        {
            pos = pos + 1;
        }
        if pos < keys.len() && chars_eq(keys[pos].as_slice(), w.as_slice()) {
            proof {
                lemma_occurrences_bound(prefix, w@);
            }
            let c = counts[pos] + 1;
            counts.set(pos, c);
            proof {
                assert forall|i: int| 0 <= i < keys@.len() implies #[trigger] counts@[i] == occurrences(next, keys@[i]@) by {
                    if i != pos {
                        assert(kv[i] != kv[pos as int]) by {
                            if i < pos {
                                assert(lex_lt(kv[i], kv[pos as int]));
                            } else {
                                assert(lex_lt(kv[pos as int], kv[i]));
                            }
                            lemma_lex_order(kv[i], kv[i], kv[i]);
                        }
                    }
                }
                assert forall|x: Seq<char>|
                    next.contains(x) <==> exists|i: int| 0 <= i < keys@.len() && #[trigger] keys@[i]@ == x by {
                    if next.contains(x) && x != w@ {
                        let t = choose|t: int| 0 <= t < next.len() && next[t] == x;
                        assert(prefix[t] == x);
                    }
                    if prefix.contains(x) {
                        let t = choose|t: int| 0 <= t < prefix.len() && prefix[t] == x;
                        assert(next[t] == x);
                    }
                    if x == w@ {
                        assert(next[next.len() - 1] == x);
                        assert(keys@[pos as int]@ == x);
                    }
                }
            }
        } else {
            proof {
                assert(!prefix.contains(w@)) by {
                    if prefix.contains(w@) {
                        let i = choose|i: int| 0 <= i < keys@.len() && #[trigger] keys@[i]@ == w@;
                        if i < pos {
                            lemma_lex_order(w@, w@, w@);
                        } else if i > pos {
                            lemma_lex_order(kv[pos as int], w@, w@);
                            assert(lex_lt(kv[pos as int], kv[i]));
                            lemma_lex_order(w@, kv[pos as int], w@);
                        }
                    }
                }
                lemma_occurrences_positive(prefix, w@);
                if pos < keys@.len() {
                    lemma_lex_order(kv[pos as int], w@, w@);
                    assert(lex_lt(w@, kv[pos as int]));
                }
            }
            proof {
                assert forall|x: Seq<char>| prefix.contains(x) implies exists|i: int|
                    0 <= i < kv.len() && #[trigger] kv[i] == x by {
                    let i = choose|i: int| 0 <= i < keys@.len() && #[trigger] keys@[i]@ == x;
                    assert(kv[i] == x);
                }
                assert forall|x: Seq<char>| (exists|i: int| 0 <= i < kv.len() && #[trigger] kv[i] == x)
                    implies prefix.contains(x) by {
                    let i = choose|i: int| 0 <= i < kv.len() && #[trigger] kv[i] == x;
                    assert(keys@[i]@ == x);
                }
            }
            keys.insert(pos, w.clone());
            counts.insert(pos, 1);
            proof {
                let nk = keys@.map_values(|v: Vec<char>| v@);
                assert(nk =~= kv.insert(pos as int, w@));
                assert forall|i: int, j: int| 0 <= i < j < nk.len() implies lex_lt(#[trigger] nk[i], #[trigger] nk[j]) by {
                    if i < pos && j == pos {
                    } else if i < pos && j > pos {
                        assert(lex_lt(kv[i], kv[j - 1]));
                    } else if j < pos {
                        assert(lex_lt(kv[i], kv[j]));
                    } else if i == pos && j > pos {
                        if j - 1 > pos {
                            assert(lex_lt(kv[pos as int], kv[j - 1]));
                            lemma_lex_order(w@, kv[pos as int], kv[j - 1]);
                        }
                    } else {
                        assert(lex_lt(kv[i - 1], kv[j - 1]));
                    }
                }
                assert forall|i: int| 0 <= i < keys@.len() implies #[trigger] counts@[i] == occurrences(next, keys@[i]@) by {
                    if i < pos {
                        assert(keys@[i]@ == kv[i]);
                        assert(lex_lt(kv[i], w@));
                        lemma_lex_order(w@, w@, w@);
                    } else if i > pos {
                        assert(keys@[i]@ == kv[i - 1]);
                        assert(lex_lt(w@, kv[i - 1])) by {
                            if i - 1 > pos {
                                assert(lex_lt(kv[pos as int], kv[i - 1]));
                                lemma_lex_order(w@, kv[pos as int], kv[i - 1]);
                            }
                        }
                        lemma_lex_order(w@, w@, w@);
                    }
                }
                assert forall|x: Seq<char>|
                    next.contains(x) <==> exists|i: int| 0 <= i < keys@.len() && #[trigger] keys@[i]@ == x by {
                    if next.contains(x) && x != w@ {
                        let t = choose|t: int| 0 <= t < next.len() && next[t] == x;
                        assert(prefix[t] == x);
                        assert(prefix.contains(x));
                        let i = choose|i: int| 0 <= i < kv.len() && kv[i] == x;
                        if i < pos {
                            assert(nk[i] == x);
                            assert(keys@[i]@ == nk[i]);
                        } else {
                            assert(nk[i + 1] == x);
                            assert(keys@[i + 1]@ == nk[i + 1]);
                        }
                    }
                    if exists|i: int| 0 <= i < keys@.len() && #[trigger] keys@[i]@ == x {
                        let i = choose|i: int| 0 <= i < keys@.len() && #[trigger] keys@[i]@ == x;
                        if i < pos {
                            assert(nk[i] == x);
                            assert(kv[i] == x);
                        } else if i > pos {
                            assert(nk[i] == x);
                            assert(kv[i - 1] == x);
                        }
                        if x != w@ {
                            assert(prefix.contains(x));
                            let t = choose|t: int| 0 <= t < prefix.len() && prefix[t] == x;
                            assert(next[t] == x);
                        }
                    }
                    if x == w@ {
                        assert(next[next.len() - 1] == x);
                        assert(keys@[pos as int]@ == x);
                    }
                }
            }
        }
        k = k + 1;
    }
    assert(all.take(ws.len() as int) =~= all);
    let mut r: Vec<(String, usize)> = Vec::new();
    let mut i: usize = 0;
    while i < keys.len()
        invariant
            i <= keys@.len(),
            keys@.len() == counts@.len(),
            r@.len() == i,
            forall|t: int| 0 <= t < i ==> #[trigger] r@[t].0@ == keys@[t]@ && r@[t].1 == counts@[t],
        decreases keys@.len() - i,
    {
        r.push((string_of(keys[i].as_slice()), counts[i]));
        i = i + 1;
    }
    proof {
        assert(r@.map_values(|e: (String, usize)| e.0@) =~= keys@.map_values(|v: Vec<char>| v@));
        assert forall|w: Seq<char>|
            all.contains(w) <==> exists|t: int| 0 <= t < r@.len() && #[trigger] r@[t].0@ == w by {
            if all.contains(w) {
                let t = choose|t: int| 0 <= t < keys@.len() && #[trigger] keys@[t]@ == w;
                assert(r@[t].0@ == w);
            }
            if exists|t: int| 0 <= t < r@.len() && #[trigger] r@[t].0@ == w {
                let t = choose|t: int| 0 <= t < r@.len() && #[trigger] r@[t].0@ == w;
                assert(keys@[t]@ == w);
            }
        }
    }
    r
}

} // verus!
