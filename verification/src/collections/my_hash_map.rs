//! An open-addressing hash map from strings to values: linear probing,
//! tombstones on removal, and doubling when the table gets dense.
use vstd::prelude::*;
use vstd::string::StringSliceAdditionalSpecFns;
use super::{fnv1a, fnv_hash_str};

verus! {

/// One bucket of the table.
pub enum Slot<T> {
    Empty,
    Deleted,
    Occupied(String, T),
}

/// 0 for an empty bucket, 1 for a tombstone, 2 for an occupied one.
pub open spec fn tag<T>(s: Slot<T>) -> int {
    match s {
        Slot::Empty => 0,
        Slot::Deleted => 1,
        Slot::Occupied(_, _) => 2,
    }
}

/// How many buckets of `s` carry tag `t`.
pub open spec fn count_tag<T>(s: Seq<Slot<T>>, t: int) -> nat
    decreases s.len(),
{
    if s.len() == 0 {
        0
    } else {
        count_tag(s.drop_last(), t) + (if tag(s.last()) == t {
            1nat
        } else {
            0nat
        })
    }
}

/// The key stored in an occupied bucket.
pub open spec fn key_of<T>(s: Slot<T>) -> Seq<char> {
    s->Occupied_0@
}

/// Where probing for `k` starts in a table of `cap` buckets.
pub open spec fn home_of(k: Seq<char>, cap: int) -> int {
    (fnv1a(vstd::utf8::encode_utf8(k)) as int) % cap
}

/// How many steps forward (wrapping) bucket `i` lies from bucket `h`.
pub open spec fn dist(h: int, i: int, cap: int) -> int {
    if i >= h {
        i - h
    } else {
        i + cap - h
    }
}

pub proof fn lemma_count_update<T>(s: Seq<Slot<T>>, j: int, v: Slot<T>, t: int)
    requires
        0 <= j < s.len(),
    ensures
        count_tag(s.update(j, v), t) + (if tag(s[j]) == t {
            1int
        } else {
            0int
        }) == count_tag(s, t) + (if tag(v) == t {
            1int
        } else {
            0int
        }),
    decreases s.len(),
{
    let u = s.update(j, v);
    if j == s.len() - 1 {
        assert(u.drop_last() =~= s.drop_last());
    } else {
        assert(u.drop_last() =~= s.drop_last().update(j, v));
        lemma_count_update(s.drop_last(), j, v, t);
    }
}

pub proof fn lemma_count_total<T>(s: Seq<Slot<T>>)
    ensures
        count_tag(s, 0) + count_tag(s, 1) + count_tag(s, 2) == s.len(),
    decreases s.len(),
{
    if s.len() > 0 {
        lemma_count_total(s.drop_last());
    }
}

pub proof fn lemma_count_witness<T>(s: Seq<Slot<T>>, t: int) -> (j: int)
    requires
        count_tag(s, t) > 0,
    ensures
        0 <= j < s.len(),
        tag(s[j]) == t,
    decreases s.len(),
{
    if tag(s.last()) == t {
        s.len() - 1
    } else {
        lemma_count_witness(s.drop_last(), t)
    }
}

pub proof fn lemma_count_all_empty<T>(n: nat)
    ensures
        count_tag(Seq::new(n, |i: int| Slot::<T>::Empty), 0) == n,
        count_tag(Seq::new(n, |i: int| Slot::<T>::Empty), 1) == 0,
        count_tag(Seq::new(n, |i: int| Slot::<T>::Empty), 2) == 0,
    decreases n,
{
    if n > 0 {
        lemma_count_all_empty::<T>((n - 1) as nat);
        assert(Seq::new(n, |i: int| Slot::<T>::Empty).drop_last() =~= Seq::new(
            (n - 1) as nat,
            |i: int| Slot::<T>::Empty,
        ));
    }
}

/// A hash map from strings to values using open addressing.
pub struct MyHashMap<T> {
    slots: Vec<Slot<T>>,
    len: usize,
    tombstones: usize,
    /// Where each stored key sits.
    index: Ghost<Map<Seq<char>, int>>,
    /// How many inserts the map has served; it bounds the table's growth.
    ops: Ghost<nat>,
}

impl<T> MyHashMap<T> {
    /// The table's internal consistency.
    pub closed spec fn wf(&self) -> bool {
        let s = self.slots@;
        let cap = s.len() as int;
        let idx = self.index@;
        &&& cap >= 8
        &&& self.len + self.tombstones <= self.ops@
        &&& (cap == 8 || 3 * cap <= 8 * self.ops@)
        &&& self.len == count_tag(s, 2)
        &&& self.tombstones == count_tag(s, 1)
        &&& count_tag(s, 0) >= 1
        &&& forall|j: int|
            #![trigger s[j]]
            0 <= j < cap && s[j] is Occupied ==> idx.contains_key(key_of(s[j])) && idx[key_of(
                s[j],
            )] == j
        &&& forall|k: Seq<char>|
            #![trigger idx[k]]
            idx.contains_key(k) ==> 0 <= idx[k] < cap && s[idx[k]] is Occupied && key_of(
                s[idx[k]],
            ) == k
        &&& forall|j: int, i: int|
            #![trigger s[j], s[i]]
            0 <= j < cap && s[j] is Occupied && 0 <= i < cap && dist(
                home_of(key_of(s[j]), cap),
                i,
                cap,
            ) < dist(home_of(key_of(s[j]), cap), j, cap) ==> !(s[i] is Empty)
    }

    /// The contents: each stored key with its value.
    pub closed spec fn view(&self) -> Map<Seq<char>, T> {
        Map::new(
            |k: Seq<char>| self.index@.contains_key(k),
            |k: Seq<char>| self.slots@[self.index@[k]]->Occupied_1,
        )
    }

    /// Number of buckets in the table.
    pub closed spec fn capacity(&self) -> nat {
        self.slots@.len()
    }

    /// How many inserts the map has served.
    pub closed spec fn inserts(&self) -> nat {
        self.ops@
    }

    /// The table's size arithmetic stays within `usize` for the next insert:
    /// the load check compares `(len + tombstones) * 4` with `capacity * 3`,
    /// and when the insert doubles the table the re-inserts make the same
    /// check on the doubled table.
    pub closed spec fn insert_fits(&self) -> bool {
        let d = self.len + self.tombstones;
        let c = self.slots@.len();
        &&& d * 4 <= usize::MAX
        &&& c * 3 <= usize::MAX
        &&& d * 4 >= c * 3 ==> c * 6 <= usize::MAX
    }

    /// Whether the next insert's size arithmetic stays within `usize`.
    pub fn can_insert(&self) -> (b: bool)
        ensures
            b == self.insert_fits(),
    {
        let d = self.len as u128 + self.tombstones as u128;
        let c = self.slots.len() as u128;
        let m = usize::MAX as u128;
        d * 4 <= m && c * 3 <= m && (d * 4 < c * 3 || c * 6 <= m)
    }

    /// A map that has served fewer than `usize::MAX / 16` inserts is far
    /// from the size where its arithmetic would leave `usize`.
    pub proof fn lemma_fits_while_few_inserts(&self)
        requires
            self.wf(),
            self.inserts() < usize::MAX / 16,
        ensures
            self.insert_fits(),
    {
        lemma_count_total(self.slots@);
    }

    /// An empty map with eight buckets.
    pub fn new() -> (m: Self)
        ensures
            m.wf(),
            m.view() == Map::<Seq<char>, T>::empty(),
            m.view().dom().finite(),
            m.capacity() == 8,
            m.inserts() == 0,
    {
        let mut slots: Vec<Slot<T>> = Vec::new();
        let mut i: usize = 0;
        while i < 8
            invariant
                i <= 8,
                slots@ == Seq::new(i as nat, |j: int| Slot::<T>::Empty),
            decreases 8 - i,
        {
            slots.push(Slot::Empty);
            i = i + 1;
            assert(slots@ =~= Seq::new(i as nat, |j: int| Slot::<T>::Empty));
        }
        proof {
            lemma_count_all_empty::<T>(8);
        }
        let m = MyHashMap {
            slots,
            len: 0,
            tombstones: 0,
            index: Ghost(Map::empty()),
            ops: Ghost(0),
        };
        assert(m.view() =~= Map::<Seq<char>, T>::empty());
        m
    }

    /// Number of stored keys.
    pub fn len(&self) -> (n: usize)
        requires
            self.wf(),
        ensures
            self.view().dom().finite(),
            n == self.view().dom().len(),
    {
        proof {
            self.lemma_len_is_size();
        }
        self.len
    }

    /// The stored keys are exactly as many as the occupied buckets.
    proof fn lemma_len_is_size(&self)
        requires
            self.wf(),
        ensures
            self.view().dom().finite(),
            self.view().dom().len() == self.len,
    {
        let s = self.slots@;
        let cap = s.len() as int;
        let dom = self.view().dom();
        assert(dom =~= self.index@.dom());
        self.lemma_keys_prefix(cap);
        assert(s.take(cap) =~= s);
    }

    /// The keys stored in the first `n` buckets number `count_tag(..take(n), 2)`.
    proof fn lemma_keys_prefix(&self, n: int)
        requires
            self.wf(),
            0 <= n <= self.slots@.len(),
        ensures
            ({
                let ks = Set::new(|k: Seq<char>| self.index@.contains_key(k) && self.index@[k] < n);
                &&& ks.finite()
                &&& ks.len() == count_tag(self.slots@.take(n), 2)
                &&& (n == self.slots@.len() ==> ks == self.index@.dom())
            }),
        decreases n,
    {
        let s = self.slots@;
        let ks = Set::new(|k: Seq<char>| self.index@.contains_key(k) && self.index@[k] < n);
        if n == 0 {
            assert(ks =~= Set::empty());
        } else {
            self.lemma_keys_prefix(n - 1);
            let prev = Set::new(
                |k: Seq<char>| self.index@.contains_key(k) && self.index@[k] < n - 1,
            );
            assert(s.take(n).drop_last() =~= s.take(n - 1));
            if s[n - 1] is Occupied {
                let k = key_of(s[n - 1]);
                assert(ks =~= prev.insert(k));
                assert(!prev.contains(k));
            } else {
                assert(ks =~= prev);
            }
        }
        if n == s.len() {
            assert(ks =~= self.index@.dom());
        }
    }

    /// Where probing for `key` starts.
    fn home(&self, key: &String) -> (h: usize)
        requires
            self.slots@.len() > 0,
        ensures
            h == home_of(key@, self.slots@.len() as int),
            h < self.slots@.len(),
    {
        let hash = fnv_hash_str(key.as_str());
        (hash % (self.slots.len() as u64)) as usize
    }

    /// Probes for `key`: the bucket holding it, or the first empty bucket on
    /// its probe path when it is absent.
    fn find(&self, key: &String) -> (r: (bool, usize))
        requires
            self.wf(),
        ensures
            r.1 < self.slots@.len(),
            r.0 == self.index@.contains_key(key@),
            r.0 ==> r.1 == self.index@[key@],
            !r.0 ==> self.slots@[r.1 as int] is Empty,
    {
        let ghost s = self.slots@;
        let cap = self.slots.len();
        let h = self.home(key);
        let mut i = h;
        let mut steps: usize = 0;
        loop
            invariant
                s == self.slots@,
                self.wf(),
                cap == s.len(),
                h == home_of(key@, cap as int),
                h < cap,
                steps < cap,
                i == (if h + steps < cap {
                    h + steps
                } else {
                    h + steps - cap
                }),
                forall|p: int|
                    #![trigger s[p]]
                    0 <= p < cap && dist(h as int, p, cap as int) < steps ==> !(s[p] is Empty) && (
                    s[p] is Occupied ==> key_of(s[p]) != key@),
            decreases cap - steps,
        {
            assert(dist(h as int, i as int, cap as int) == steps);
            match &self.slots[i] {
                Slot::Empty => {
                    proof {
                        if self.index@.contains_key(key@) {
                            let j = self.index@[key@];
                            assert(s[j] is Occupied && key_of(s[j]) == key@);
                            if dist(h as int, j, cap as int) > steps {
                                assert(!(s[i as int] is Empty));
                            }
                        }
                    }
                    return (false, i);
                },
                Slot::Deleted => {},
                Slot::Occupied(k, _) => {
                    if *k == *key {
                        return (true, i);
                    }
                },
            }
            proof {
                if steps + 1 == cap {
                    let e = lemma_count_witness(s, 0);
                    assert(dist(h as int, e, cap as int) < cap);
                    assert(s[e] is Empty);
                }
            }
            i = if i + 1 == cap {
                0
            } else {
                i + 1
            };
            steps = steps + 1;
        }
    }

    /// Look up the value stored under `key`.
    pub fn get(&self, key: &String) -> (r: Option<&T>)
        requires
            self.wf(),
        ensures
            r == (if self.view().contains_key(key@) {
                Some(&self.view()[key@])
            } else {
                None
            }),
    {
        let (found, i) = self.find(key);
        if found {
            match &self.slots[i] {
                Slot::Occupied(_, v) => Some(v),
                _ => None,
            }
        } else {
            None
        }
    }

    /// Places a key that is not in the table, reusing `target` (the first
    /// tombstone on its probe path, or the empty bucket that ended it).
    fn place_absent(&mut self, key: String, value: T, target: usize, Ghost(end): Ghost<int>)
        requires
            old(self).wf(),
            !old(self).index@.contains_key(key@),
            target < old(self).slots@.len(),
            0 <= end < old(self).slots@.len(),
            old(self).slots@[end] is Empty,
            old(self).slots@[target as int] is Empty || old(self).slots@[target as int] is Deleted,
            old(self).slots@[target as int] is Empty ==> count_tag(old(self).slots@, 0) >= 2,
            ({
                let s = old(self).slots@;
                let cap = s.len() as int;
                let h = home_of(key@, cap);
                &&& dist(h, target as int, cap) <= dist(h, end, cap)
                &&& forall|p: int|
                    #![trigger s[p]]
                    0 <= p < cap && dist(h, p, cap) < dist(h, target as int, cap) ==> !(
                    s[p] is Empty)
            }),
            old(self).len + old(self).tombstones < old(self).ops@,
        ensures
            final(self).wf(),
            final(self).view() == old(self).view().insert(key@, value),
            final(self).slots@.len() == old(self).slots@.len(),
            final(self).ops == old(self).ops,
            final(self).len == old(self).len + 1,
            final(self).tombstones + (if old(self).slots@[target as int] is Deleted {
                1int
            } else {
                0int
            }) == old(self).tombstones,
    {
        let ghost s = self.slots@;
        let ghost cap = s.len() as int;
        let ghost k = key@;
        let ghost old_view = self.view();
        let cap_now = self.slots.len();
        proof {
            lemma_count_total(s);
        }
        let was_deleted = match &self.slots[target] {
            Slot::Deleted => true,
            _ => false,
        };
        let ghost newslot = Slot::Occupied(key, value);
        proof {
            lemma_count_update(s, target as int, newslot, 0);
            lemma_count_update(s, target as int, newslot, 1);
            lemma_count_update(s, target as int, newslot, 2);
        }
        self.slots.set(target, Slot::Occupied(key, value));
        self.len = self.len + 1;
        if was_deleted {
            self.tombstones = self.tombstones - 1;
        }
        self.index = Ghost(self.index@.insert(k, target as int));
        proof {
            let s2 = self.slots@;
            assert(s2 == s.update(target as int, newslot));
            assert forall|j: int, i: int|
                #![trigger s2[j], s2[i]]
                0 <= j < cap && s2[j] is Occupied && 0 <= i < cap && dist(
                    home_of(key_of(s2[j]), cap),
                    i,
                    cap,
                ) < dist(home_of(key_of(s2[j]), cap), j, cap) implies !(s2[i] is Empty) by {
                if j != target {
                    assert(s2[j] == s[j]);
                    if i != target {
                        assert(s2[i] == s[i]);
                    }
                } else if i != target {
                    assert(s2[i] == s[i]);
                }
            }
            assert forall|j: int|
                #![trigger s2[j]]
                0 <= j < cap && s2[j] is Occupied implies self.index@.contains_key(key_of(s2[j]))
                && self.index@[key_of(s2[j])] == j by {
                if j != target {
                    assert(s2[j] == s[j]);
                }
            }
            assert forall|kk: Seq<char>|
                #![trigger self.index@[kk]]
                self.index@.contains_key(kk) implies 0 <= self.index@[kk] < cap
                && s2[self.index@[kk]] is Occupied && key_of(s2[self.index@[kk]]) == kk by {
                if kk != k {
                    assert(old(self).index@.contains_key(kk));
                    assert(s2[self.index@[kk]] == s[old(self).index@[kk]]);
                }
            }
            assert(self.view() =~= old_view.insert(k, value)) by {
                assert forall|kk: Seq<char>| self.view().contains_key(kk) implies self.view()[kk]
                    == old_view.insert(k, value)[kk] by {
                    if kk != k {
                        assert(s2[self.index@[kk]] == s[old(self).index@[kk]]);
                    }
                }
            }
        }
    }

    /// Probes for `key` from its home, remembering the first tombstone passed.
    #[verifier::rlimit(50)]
    fn probe_for_insert(&self, key: &String) -> (r: (bool, usize, usize))
        requires
            self.wf(),
        ensures
            r.0 == self.index@.contains_key(key@),
            r.1 < self.slots@.len(),
            r.2 < self.slots@.len(),
            r.0 ==> r.1 == self.index@[key@],
            !r.0 ==> ({
                let s = self.slots@;
                let cap = s.len() as int;
                let h = home_of(key@, cap);
                &&& s[r.2 as int] is Empty
                &&& (s[r.1 as int] is Empty || s[r.1 as int] is Deleted)
                &&& dist(h, r.1 as int, cap) <= dist(h, r.2 as int, cap)
                &&& (s[r.1 as int] is Empty ==> r.1 == r.2)
                &&& forall|p: int|
                    #![trigger s[p]]
                    0 <= p < cap && dist(h, p, cap) < dist(h, r.1 as int, cap) ==> !(s[p] is Empty)
            }),
    {
        let ghost s = self.slots@;
        let cap = self.slots.len();
        let h = self.home(key);
        let mut i = h;
        let mut steps: usize = 0;
        let mut first_deleted: Option<usize> = None;
        loop
            invariant
                s == self.slots@,
                self.wf(),
                cap == s.len(),
                h == home_of(key@, cap as int),
                h < cap,
                steps < cap,
                i == (if h + steps < cap {
                    h + steps
                } else {
                    h + steps - cap
                }),
                forall|p: int|
                    #![trigger s[p]]
                    0 <= p < cap && dist(h as int, p, cap as int) < steps ==> !(s[p] is Empty) && (
                    s[p] is Occupied ==> key_of(s[p]) != key@),
                first_deleted matches Some(t) ==> t < cap && s[t as int] is Deleted && dist(
                    h as int,
                    t as int,
                    cap as int,
                ) < steps,
            decreases cap - steps,
        {
            assert(dist(h as int, i as int, cap as int) == steps);
            match &self.slots[i] {
                Slot::Empty => {
                    proof {
                        if self.index@.contains_key(key@) {
                            let j = self.index@[key@];
                            assert(s[j] is Occupied && key_of(s[j]) == key@);
                            if dist(h as int, j, cap as int) > steps {
                                assert(!(s[i as int] is Empty));
                            }
                        }
                    }
                    match first_deleted {
                        Some(t) => {
                            return (false, t, i);
                        },
                        None => {
                            return (false, i, i);
                        },
                    }
                },
                Slot::Deleted => {
                    if first_deleted.is_none() {
                        first_deleted = Some(i);
                    }
                },
                Slot::Occupied(k, _) => {
                    if *k == *key {
                        return (true, i, i);
                    }
                },
            }
            proof {
                if steps + 1 == cap {
                    let e = lemma_count_witness(s, 0);
                    assert(dist(h as int, e, cap as int) < cap);
                    assert(s[e] is Empty);
                }
            }
            i = if i + 1 == cap {
                0
            } else {
                i + 1
            };
            steps = steps + 1;
        }
    }

    /// Insert or overwrite. Returns the old value if the key was present.
    pub fn insert(&mut self, key: String, value: T) -> (r: Option<T>)
        requires
            old(self).wf(),
            old(self).insert_fits(),
        ensures
            final(self).wf(),
            final(self).view() == old(self).view().insert(key@, value),
            final(self).view().dom().finite(),
            final(self).view().dom().len() == old(self).view().dom().len() + (if old(self).view().contains_key(key@) {
                0int
            } else {
                1int
            }),
            r == (if old(self).view().contains_key(key@) {
                Some(old(self).view()[key@])
            } else {
                None::<T>
            }),
            final(self).inserts() == old(self).inserts() + 1,
    {
        proof {
            self.lemma_len_is_size();
            law_insert_then_get(self.view(), key@, value, key@ + seq!['x']);
        }
        self.ops = Ghost(self.ops@ + 1);
        self.resize_if_needed();
        let ghost mid = self.view();
        let (found, t, end) = self.probe_for_insert(&key);
        if found {
            let ghost s = self.slots@;
            let ghost k = key@;
            let mut tmp = Slot::Occupied(key, value);
            std::mem::swap(&mut self.slots[t], &mut tmp);
            proof {
                lemma_count_update(s, t as int, self.slots@[t as int], 0);
                lemma_count_update(s, t as int, self.slots@[t as int], 1);
                lemma_count_update(s, t as int, self.slots@[t as int], 2);
                let s2 = self.slots@;
                assert(s2 == s.update(t as int, s2[t as int]));
                assert forall|j: int, i: int|
                    #![trigger s2[j], s2[i]]
                    0 <= j < s.len() && s2[j] is Occupied && 0 <= i < s.len() && dist(
                        home_of(key_of(s2[j]), s.len() as int),
                        i,
                        s.len() as int,
                    ) < dist(home_of(key_of(s2[j]), s.len() as int), j, s.len() as int) implies !(
                s2[i] is Empty) by {
                    if j != t {
                        assert(s2[j] == s[j]);
                    }
                    if i != t {
                        assert(s2[i] == s[i]);
                    }
                }
                assert forall|j: int|
                    #![trigger s2[j]]
                    0 <= j < s.len() && s2[j] is Occupied implies self.index@.contains_key(
                    key_of(s2[j]),
                ) && self.index@[key_of(s2[j])] == j by {
                    if j != t {
                        assert(s2[j] == s[j]);
                    }
                }
                assert forall|kk: Seq<char>|
                    #![trigger self.index@[kk]]
                    self.index@.contains_key(kk) implies 0 <= self.index@[kk] < s.len()
                    && s2[self.index@[kk]] is Occupied && key_of(s2[self.index@[kk]]) == kk by {
                    if self.index@[kk] != t {
                        assert(s2[self.index@[kk]] == s[self.index@[kk]]);
                    }
                }
                assert(self.view() =~= mid.insert(k, value)) by {
                    assert forall|kk: Seq<char>| self.view().contains_key(kk) implies self.view()[kk]
                        == mid.insert(k, value)[kk] by {
                        if kk != k {
                            assert(s2[self.index@[kk]] == s[self.index@[kk]]);
                        }
                    }
                }
            }
            match tmp {
                Slot::Occupied(_, old_value) => Some(old_value),
                _ => None,
            }
        } else {
            proof {
                lemma_count_total(self.slots@);
            }
            self.place_absent(key, value, t, Ghost(end as int));
            None
        }
    }

    /// Look up `key`'s bucket and turn it into a tombstone, returning the value.
    pub fn remove(&mut self, key: &String) -> (r: Option<T>)
        requires
            old(self).wf(),
        ensures
            final(self).wf(),
            final(self).view() == old(self).view().remove(key@),
            final(self).view().dom().finite(),
            final(self).view().dom().len() == old(self).view().dom().len() - (if old(self).view().contains_key(key@) {
                1int
            } else {
                0int
            }),
            r == (if old(self).view().contains_key(key@) {
                Some(old(self).view()[key@])
            } else {
                None::<T>
            }),
            final(self).inserts() == old(self).inserts(),
    {
        proof {
            self.lemma_len_is_size();
            if self.view().contains_key(key@) {
                assert(self.view().remove(key@).dom() =~= self.view().dom().remove(key@));
            } else {
                assert(self.view().remove(key@).dom() =~= self.view().dom());
            }
        }
        let (found, i) = self.find(key);
        if !found {
            assert(self.view().remove(key@) =~= self.view());
            return None;
        }
        let ghost s = self.slots@;
        let ghost k = key@;
        let ghost old_view = self.view();
        let cap = self.slots.len();
        let mut tmp = Slot::Deleted;
        std::mem::swap(&mut self.slots[i], &mut tmp);
        proof {
            lemma_count_update(s, i as int, Slot::Deleted, 0);
            lemma_count_update(s, i as int, Slot::Deleted, 1);
            lemma_count_update(s, i as int, Slot::Deleted, 2);
            lemma_count_total(s);
        }
        self.len = self.len - 1;
        self.tombstones = self.tombstones + 1;
        self.index = Ghost(self.index@.remove(k));
        proof {
            let s2 = self.slots@;
            assert(s2 == s.update(i as int, Slot::Deleted));
            assert forall|j: int, p: int|
                #![trigger s2[j], s2[p]]
                0 <= j < s.len() && s2[j] is Occupied && 0 <= p < s.len() && dist(
                    home_of(key_of(s2[j]), s.len() as int),
                    p,
                    s.len() as int,
                ) < dist(home_of(key_of(s2[j]), s.len() as int), j, s.len() as int) implies !(
            s2[p] is Empty) by {
                assert(s2[j] == s[j]);
                if p != i {
                    assert(s2[p] == s[p]);
                }
            }
            assert forall|j: int|
                #![trigger s2[j]]
                0 <= j < s.len() && s2[j] is Occupied implies self.index@.contains_key(
                key_of(s2[j]),
            ) && self.index@[key_of(s2[j])] == j by {
                assert(s2[j] == s[j]);
            }
            assert forall|kk: Seq<char>|
                #![trigger self.index@[kk]]
                self.index@.contains_key(kk) implies 0 <= self.index@[kk] < s.len()
                && s2[self.index@[kk]] is Occupied && key_of(s2[self.index@[kk]]) == kk by {
                assert(old(self).index@.contains_key(kk));
                assert(s2[self.index@[kk]] == s[old(self).index@[kk]]);
            }
            assert(self.view() =~= old_view.remove(k)) by {
                assert forall|kk: Seq<char>| self.view().contains_key(kk) implies self.view()[kk]
                    == old_view.remove(k)[kk] by {
                    assert(s2[self.index@[kk]] == s[old(self).index@[kk]]);
                }
            }
        }
        match tmp {
            Slot::Occupied(_, v) => Some(v),
            _ => None,
        }
    }

    /// Grows the table when it is at least three-quarters full (counting
    /// tombstones): doubles it and re-inserts every live entry.
    fn resize_if_needed(&mut self)
        requires
            old(self).wf(),
            old(self).insert_fits(),
            old(self).len + old(self).tombstones < old(self).ops@,
        ensures
            final(self).wf(),
            final(self).view() == old(self).view(),
            (final(self).len + final(self).tombstones) * 4 < final(self).slots@.len() * 3,
            final(self).ops == old(self).ops,
            final(self).len + final(self).tombstones <= old(self).len + old(self).tombstones,
            (old(self).len + old(self).tombstones) * 4 < old(self).slots@.len() * 3
                ==> *final(self) == *old(self),
            !((old(self).len + old(self).tombstones) * 4 < old(self).slots@.len() * 3) ==> (
            final(self).slots@.len() == 2 * old(self).slots@.len() && final(self).tombstones == 0
                && final(self).len == old(self).len),
    {
        proof {
            lemma_count_total(self.slots@);
        }
        if (self.len + self.tombstones) * 4 < self.slots.len() * 3 {
            return;
        }
        let ghost old_view = self.view();
        let new_capacity = self.slots.len() * 2;
        let mut fresh: MyHashMap<T> = MyHashMap::with_capacity(new_capacity, Ghost(self.ops@));
        let mut old_slots: Vec<Slot<T>> = Vec::new();
        std::mem::swap(&mut self.slots, &mut old_slots);
        let ghost s = old_slots@;
        let ghost idx = self.index@;
        proof {
            lemma_count_total(s);
        }
        let n = old_slots.len();
        let mut i: usize = n;
        assert(s.take(n as int) =~= s);
        // Move the entries out from the back.
        while i > 0
            invariant
                n == s.len(),
                i <= n,
                old_slots@ == s.take(i as int),
                fresh.wf(),
                fresh.slots@.len() == 2 * n,
                n >= 8,
                fresh.len as int == count_tag(s, 2) - count_tag(s.take(i as int), 2),
                fresh.tombstones == 0,
                fresh.ops == self.ops,
                count_tag(s, 2) < n,
                count_tag(s, 2) < self.ops@,
                forall|j: int|
                    #![trigger s[j]]
                    0 <= j < n && s[j] is Occupied ==> idx.contains_key(key_of(s[j])) && idx[key_of(
                        s[j],
                    )] == j,
                forall|k: Seq<char>|
                    #![trigger idx[k]]
                    idx.contains_key(k) ==> 0 <= idx[k] < n && s[idx[k]] is Occupied && key_of(
                        s[idx[k]],
                    ) == k,
                old_view == Map::new(
                    |k: Seq<char>| idx.contains_key(k),
                    |k: Seq<char>| s[idx[k]]->Occupied_1,
                ),
                fresh.view() == Map::new(
                    |k: Seq<char>| idx.contains_key(k) && idx[k] >= i,
                    |k: Seq<char>| s[idx[k]]->Occupied_1,
                ),
            decreases i,
        {
            let slot = old_slots.pop().unwrap();
            i = i - 1;
            assert(s.take(i + 1).drop_last() =~= s.take(i as int));
            match slot {
                Slot::Occupied(k, v) => {
                    let ghost kv = k@;
                    proof {
                        lemma_count_total(fresh.slots@);
                        if fresh.index@.contains_key(kv) {
                            assert(fresh.view().contains_key(kv));
                        }
                    }
                    fresh.insert_absent(k, v);
                    proof {
                        assert(fresh.view() =~= Map::new(
                            |k: Seq<char>| idx.contains_key(k) && idx[k] >= i,
                            |k: Seq<char>| s[idx[k]]->Occupied_1,
                        ));
                    }
                },
                _ => {
                    proof {
                        assert(fresh.view() =~= Map::new(
                            |k: Seq<char>| idx.contains_key(k) && idx[k] >= i,
                            |k: Seq<char>| s[idx[k]]->Occupied_1,
                        ));
                    }
                },
            }
        }
        assert(s.take(0) =~= Seq::<Slot<T>>::empty());
        assert(fresh.view() =~= old_view);
        *self = fresh;
    }

    /// An empty map with `cap` buckets.
    fn with_capacity(cap: usize, Ghost(ops): Ghost<nat>) -> (m: Self)
        requires
            cap >= 8,
            3 * cap <= 8 * ops,
        ensures
            m.wf(),
            m.ops@ == ops,
            m.view() == Map::<Seq<char>, T>::empty(),
            m.slots@.len() == cap,
            m.len == 0,
            m.tombstones == 0,
    {
        let mut slots: Vec<Slot<T>> = Vec::new();
        let mut i: usize = 0;
        while i < cap
            invariant
                i <= cap,
                slots@ == Seq::new(i as nat, |j: int| Slot::<T>::Empty),
            decreases cap - i,
        {
            slots.push(Slot::Empty);
            i = i + 1;
            assert(slots@ =~= Seq::new(i as nat, |j: int| Slot::<T>::Empty));
        }
        proof {
            lemma_count_all_empty::<T>(cap as nat);
        }
        let m = MyHashMap { slots, len: 0, tombstones: 0, index: Ghost(Map::empty()), ops: Ghost(ops) };
        assert(m.view() =~= Map::<Seq<char>, T>::empty());
        m
    }

    /// Adds a key known to be absent into a table with room to spare.
    fn insert_absent(&mut self, key: String, value: T)
        requires
            old(self).wf(),
            !old(self).view().contains_key(key@),
            count_tag(old(self).slots@, 0) >= 2,
            old(self).len + old(self).tombstones < old(self).ops@,
        ensures
            final(self).wf(),
            final(self).view() == old(self).view().insert(key@, value),
            final(self).slots@.len() == old(self).slots@.len(),
            final(self).len == old(self).len + 1,
            final(self).tombstones <= old(self).tombstones,
            final(self).ops == old(self).ops,
    {
        let (found, t, end) = self.probe_for_insert(&key);
        if found {
            assert(self.view().contains_key(key@));
        }
        self.place_absent(key, value, t, Ghost(end as int));
    }
}

/// The map reads back what was written: after an insert the key maps to the
/// new value, every other key keeps its value, and the number of keys grows
/// by one exactly when the key was new.
pub proof fn law_insert_then_get<T>(m: Map<Seq<char>, T>, k: Seq<char>, v: T, other: Seq<char>)
    requires
        m.dom().finite(),
        other != k,
    ensures
        m.insert(k, v).contains_key(k),
        m.insert(k, v)[k] == v,
        m.insert(k, v).contains_key(other) == m.contains_key(other),
        m.contains_key(other) ==> m.insert(k, v)[other] == m[other],
        m.insert(k, v).dom().len() == m.dom().len() + if m.contains_key(k) {
            0int
        } else {
            1int
        },
{
    if m.contains_key(k) {
        assert(m.insert(k, v).dom() =~= m.dom());
    } else {
        assert(m.insert(k, v).dom() =~= m.dom().insert(k));
    }
}

/// Removing a key that was just inserted afresh gives the map back, and a
/// removed key is gone while the others stay.
pub proof fn law_remove_undoes_insert<T>(m: Map<Seq<char>, T>, k: Seq<char>, v: T, other: Seq<char>)
    requires
        other != k,
    ensures
        !m.contains_key(k) ==> m.insert(k, v).remove(k) == m,
        !m.remove(k).contains_key(k),
        m.remove(k).contains_key(other) == m.contains_key(other),
        m.contains_key(other) ==> m.remove(k)[other] == m[other],
{
    if !m.contains_key(k) {
        assert(m.insert(k, v).remove(k) =~= m);
    }
}

} // verus!
