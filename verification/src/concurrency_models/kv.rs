//! The key-value store that both architectures share: behind a lock, or
//! owned by an actor thread that applies one command at a time.
use vstd::prelude::*;
use crate::collections::my_hash_map::MyHashMap;

verus! {

/// A request to the store.
pub enum StoreOp {
    Get { key: String },
    Put { key: String, value: String },
    Delete { key: String },
    Len,
}

/// The store's answer to a request.
pub enum StoreReply {
    /// The value found for a `Get`.
    Value(Option<String>),
    /// A `Put` or `Delete` was carried out.
    Ack,
    /// The number of keys, for `Len`.
    Len(usize),
}

/// A string-to-string store.
pub struct KvCore {
    map: MyHashMap<String>,
}

impl KvCore {
    /// The store's internal consistency.
    pub closed spec fn wf(&self) -> bool {
        self.map.wf()
    }

    /// The contents: each key with its value.
    pub closed spec fn view(&self) -> Map<Seq<char>, Seq<char>> {
        Map::new(|k: Seq<char>| self.map@.contains_key(k), |k: Seq<char>| self.map@[k]@)
    }

    /// The next write's table arithmetic stays within `usize`.
    pub closed spec fn set_fits(&self) -> bool {
        self.map.insert_fits()
    }

    /// An empty store.
    pub fn new() -> (s: Self)
        ensures
            s.wf(),
            s@ == Map::<Seq<char>, Seq<char>>::empty(),
            s.set_fits(),
    {
        let s = KvCore { map: MyHashMap::new() };
        proof {
            s.map.lemma_fits_while_few_inserts();
        }
        assert(s@ =~= Map::<Seq<char>, Seq<char>>::empty());
        s
    }

    /// Whether the next write's table arithmetic stays within `usize`.
    pub fn can_set(&self) -> (b: bool)
        ensures
            b == self.set_fits(),
    {
        self.map.can_insert()
    }

    /// The value stored under `key`, if any.
    pub fn get(&self, key: &str) -> (r: Option<String>)
        requires
            self.wf(),
        ensures
            r matches Some(v) ==> self@.contains_key(key@) && v@ == self@[key@],
            r is None ==> !self@.contains_key(key@),
    {
        let k = key.to_owned();
        match self.map.get(&k) {
            Some(v) => Some(v.clone()),
            None => None,
        }
    }

    /// Stores `value` under `key`, replacing what was there.
    pub fn set(&mut self, key: &str, value: &str)
        requires
            old(self).wf(),
            old(self).set_fits(),
        ensures
            final(self).wf(),
            final(self)@ == old(self)@.insert(key@, value@),
    {
        let k = key.to_owned();
        let v = value.to_owned();
        self.map.insert(k, v);
        assert(self@ =~= old(self)@.insert(key@, value@));
    }

    /// Removes `key` and its value, if present.
    pub fn delete(&mut self, key: &str)
        requires
            old(self).wf(),
        ensures
            final(self).wf(),
            final(self)@ == old(self)@.remove(key@),
    {
        let k = key.to_owned();
        self.map.remove(&k);
        assert(self@ =~= old(self)@.remove(key@));
    }

    /// The number of keys stored.
    pub fn len(&self) -> (n: usize)
        requires
            self.wf(),
        ensures
            n == self@.dom().len(),
    {
        assert(self@.dom() =~= self.map@.dom());
        self.map.len()
    }

    /// Carries out one request: the step an actor takes for each command it
    /// receives.
    pub fn apply(&mut self, op: StoreOp) -> (reply: StoreReply)
        requires
            old(self).wf(),
            op is Put ==> old(self).set_fits(),
        ensures
            final(self).wf(),
            match op {
                StoreOp::Get { key } => final(self)@ == old(self)@ && match reply {
                    StoreReply::Value(Some(v)) => old(self)@.contains_key(key@) && v@ == old(self)@[key@],
                    StoreReply::Value(None) => !old(self)@.contains_key(key@),
                    _ => false,
                },
                StoreOp::Put { key, value } => final(self)@ == old(self)@.insert(key@, value@)
                    && reply is Ack,
                StoreOp::Delete { key } => final(self)@ == old(self)@.remove(key@) && reply is Ack,
                StoreOp::Len => final(self)@ == old(self)@ && reply == StoreReply::Len(
                    old(self)@.dom().len() as usize,
                ),
            },
            final(self)@ == op_effect(old(self)@, op),
    {
        match op {
            StoreOp::Get { key } => StoreReply::Value(self.get(key.as_str())),
            StoreOp::Put { key, value } => {
                self.set(key.as_str(), value.as_str());
                StoreReply::Ack
            },
            StoreOp::Delete { key } => {
                self.delete(key.as_str());
                StoreReply::Ack
            },
            StoreOp::Len => StoreReply::Len(self.len()),
        }
    }
}

/// Reading a key right after writing it gives back what was written, and
/// leaves every other key as it was.
pub proof fn law_read_your_writes(m: Map<Seq<char>, Seq<char>>, k: Seq<char>, v: Seq<char>, other: Seq<char>)
    ensures
        m.insert(k, v).contains_key(k),
        m.insert(k, v)[k] == v,
        other != k ==> (m.insert(k, v).contains_key(other) == m.contains_key(other)),
        other != k && m.contains_key(other) ==> m.insert(k, v)[other] == m[other],
{
}

/// After a delete the key is gone, and deleting twice is the same as once.
pub proof fn law_delete_removes(m: Map<Seq<char>, Seq<char>>, k: Seq<char>)
    ensures
        !m.remove(k).contains_key(k),
        m.remove(k).remove(k) == m.remove(k),
{
    assert(m.remove(k).remove(k) =~= m.remove(k));
}

/// Overwriting a key counts it once: a set adds one key exactly when the key
/// was absent.
pub proof fn law_set_len(m: Map<Seq<char>, Seq<char>>, k: Seq<char>, v: Seq<char>)
    requires
        m.dom().finite(),
    ensures
        m.insert(k, v).dom().len() == if m.contains_key(k) {
            m.dom().len()
        } else {
            m.dom().len() + 1
        },
{
    if m.contains_key(k) {
        assert(m.insert(k, v).dom() =~= m.dom());
    } else {
        assert(m.insert(k, v).dom() =~= m.dom().insert(k));
    }
}

/// What a request does to the contents: a `Put` stores, a `Delete` removes,
/// the reads leave them as they were.
pub open spec fn op_effect(m: Map<Seq<char>, Seq<char>>, op: StoreOp) -> Map<Seq<char>, Seq<char>> {
    match op {
        StoreOp::Put { key, value } => m.insert(key@, value@),
        StoreOp::Delete { key } => m.remove(key@),
        _ => m,
    }
}

/// The contents of a new store after it has carried out `ops` in order.
pub open spec fn store_after(ops: Seq<StoreOp>) -> Map<Seq<char>, Seq<char>>
    decreases ops.len(),
{
    if ops.len() == 0 {
        Map::empty()
    } else {
        op_effect(store_after(ops.drop_last()), ops.last())
    }
}

/// Whether `op` writes or deletes `k`.
pub open spec fn touches(op: StoreOp, k: Seq<char>) -> bool {
    match op {
        StoreOp::Put { key, .. } => key@ == k,
        StoreOp::Delete { key } => key@ == k,
        _ => false,
    }
}

/// Whether `op` stores something under `k`.
pub open spec fn puts(op: StoreOp, k: Seq<char>) -> bool {
    op matches StoreOp::Put { key, .. } && key@ == k
}

/// The value a `Put` stores.
pub open spec fn put_value(op: StoreOp) -> Seq<char> {
    match op {
        StoreOp::Put { value, .. } => value@,
        _ => Seq::empty(),
    }
}

/// No request after position `i` of `ops` writes or deletes `k`.
pub open spec fn untouched_after(ops: Seq<StoreOp>, k: Seq<char>, i: int) -> bool {
    forall|j: int| i < j < ops.len() ==> !touches(#[trigger] ops[j], k)
}

/// Two stores that carry out the same requests hold the same contents,
/// whatever guards them: a key holds the value of its last `Put` when no
/// `Delete` of it came later, and is absent otherwise; and there are finitely
/// many keys.
pub proof fn law_store_after_calls(ops: Seq<StoreOp>, k: Seq<char>)
    ensures
        store_after(ops).dom().finite(),
        store_after(ops).contains_key(k) <==> exists|i: int|
            0 <= i < ops.len() && puts(#[trigger] ops[i], k) && untouched_after(ops, k, i),
        forall|i: int|
            0 <= i < ops.len() && puts(#[trigger] ops[i], k) && untouched_after(ops, k, i)
                ==> store_after(ops)[k] == put_value(ops[i]),
    decreases ops.len(),
{
    if ops.len() > 0 {
        let rest = ops.drop_last();
        let n = ops.len() - 1;
        let last = ops[n];
        assert(ops.last() == last);
        law_store_after_calls(rest, k);
        assert forall|i: int| 0 <= i < n implies #[trigger] ops[i] == rest[i] by {}
        if touches(last, k) {
            assert forall|i: int| 0 <= i < n implies !untouched_after(ops, k, i) by {
                assert(touches(ops[n], k));
            }
            if puts(last, k) {
                assert(untouched_after(ops, k, n));
                assert(puts(ops[n], k));
            } else {
                assert(!store_after(ops).contains_key(k));
                assert forall|i: int| 0 <= i < ops.len() implies !(puts(#[trigger] ops[i], k)
                    && untouched_after(ops, k, i)) by {
                    if i == n {
                        assert(!puts(ops[n], k));
                    }
                }
            }
        } else {
            assert(store_after(ops).contains_key(k) == store_after(rest).contains_key(k));
            assert(store_after(ops).contains_key(k) ==> store_after(ops)[k] == store_after(
                rest,
            )[k]);
            assert forall|i: int| 0 <= i < n implies untouched_after(ops, k, i) == untouched_after(
                rest,
                k,
                i,
            ) by {
                if untouched_after(rest, k, i) {
                    assert forall|j: int| i < j < ops.len() implies !touches(
                        #[trigger] ops[j],
                        k,
                    ) by {
                        if j < n {
                            assert(ops[j] == rest[j]);
                        }
                    }
                }
                if untouched_after(ops, k, i) {
                    assert forall|j: int| i < j < rest.len() implies !touches(
                        #[trigger] rest[j],
                        k,
                    ) by {
                        assert(ops[j] == rest[j]);
                    }
                }
            }
            assert(!puts(ops[n], k));
            if store_after(ops).contains_key(k) {
                let w = choose|i: int|
                    0 <= i < rest.len() && puts(#[trigger] rest[i], k) && untouched_after(
                        rest,
                        k,
                        i,
                    );
                assert(ops[w] == rest[w]);
                assert(untouched_after(ops, k, w));
            }
            if exists|i: int| 0 <= i < ops.len() && puts(#[trigger] ops[i], k) && untouched_after(
                ops,
                k,
                i,
            ) {
                let w = choose|i: int|
                    0 <= i < ops.len() && puts(#[trigger] ops[i], k) && untouched_after(ops, k, i);
                assert(w < n);
                assert(rest[w] == ops[w]);
                assert(untouched_after(rest, k, w));
            }
        }
        match last {
            StoreOp::Put { key, value } => {
                assert(store_after(ops).dom() =~= store_after(rest).dom().insert(key@));
            },
            StoreOp::Delete { key } => {
                assert(store_after(ops).dom() =~= store_after(rest).dom().remove(key@));
            },
            _ => {},
        }
    }
}

} // verus!
