//! Borrowed and owned forms of the same data: copying out of a borrow,
//! querying owned keys with borrowed ones, case-insensitive keys, and a
//! hand-rolled copy-on-write type.
use vstd::prelude::*;
use crate::collections::my_hash_map::MyHashMap;
use crate::text::{chars_of, string_of, words, split_words, uppercase_of, to_uppercase};

verus! {

/// An owned copy of a borrowed string.
pub fn duplicate(s: &str) -> (r: String)
    ensures
        r@ == s@,
{
    s.to_owned()
}

/// An owned copy of a borrowed slice.
pub fn duplicate_slice(xs: &[i32]) -> (v: Vec<i32>)
    ensures
        v@ == xs@,
{
    let mut v: Vec<i32> = Vec::new();
    let mut k: usize = 0;
    while k < xs.len()
        invariant
            k <= xs.len(),
            v@ == xs@.take(k as int),
        decreases xs.len() - k,
    {
        v.push(xs[k]);
        k = k + 1;
        assert(v@ =~= xs@.take(k as int));
    }
    assert(xs@.take(xs.len() as int) =~= xs@);
    v
}

/// The first whitespace-separated word, or nothing if there is none.
pub fn first_word(s: &String) -> (r: String)
    ensures
        words(s@).len() > 0 ==> r@ == words(s@)[0],
        words(s@).len() == 0 ==> r@.len() == 0,
{
    let cs = chars_of(s.as_str());
    let ws = split_words(cs.as_slice());
    if ws.len() == 0 {
        String::new()
    } else {
        string_of(ws[0].as_slice())
    }
}

/// Sums whatever can be viewed as a slice of integers.
pub fn borrow_sum(xs: &[i32]) -> (total: i32)
    requires
        crate::cell_refcell::running_sums_fit_i32(xs@),
    ensures
        total == crate::cell_refcell::sum_i32(xs@),
{
    crate::cell_refcell::sum_slice(xs)
}

/// The count stored for `word`, or 0.
pub fn count_word(counts: &MyHashMap<u32>, word: &str) -> (n: u32)
    requires
        counts.wf(),
    ensures
        counts@.contains_key(word@) ==> n == counts@[word@],
        !counts@.contains_key(word@) ==> n == 0,
{
    let key = word.to_owned();
    match counts.get(&key) {
        Some(c) => *c,
        None => 0,
    }
}

/// Whether the map holds `key`.
pub fn contains_key2(map: &MyHashMap<u32>, key: &str) -> (b: bool)
    requires
        map.wf(),
    ensures
        b == map@.contains_key(key@),
{
    let k = key.to_owned();
    match map.get(&k) {
        Some(_) => true,
        None => false,
    }
}

/// Two owned copies of a borrowed string.
pub fn owned_pair(value: &str) -> (r: (String, String))
    ensures
        r.0@ == value@,
        r.1@ == value@,
{
    (value.to_owned(), value.to_owned())
}

/// An owned copy of `value` when `take_it` holds, of `fallback` otherwise.
pub fn owned_or(value: &str, fallback: &str, take_it: bool) -> (r: String)
    ensures
        r@ == (if take_it {
            value@
        } else {
            fallback@
        }),
{
    if take_it {
        value.to_owned()
    } else {
        fallback.to_owned()
    }
}

/// `c` with ASCII capitals made small; other characters unchanged.
pub open spec fn ascii_lower(c: char) -> char {
    if 'A' <= c <= 'Z' {
        ((c as u32) + 32) as char
    } else {
        c
    }
}

/// `s` with ASCII capitals made small.
pub open spec fn fold_case(s: Seq<char>) -> Seq<char> {
    s.map_values(|c: char| ascii_lower(c))
}

/// The key under which a case-insensitive string is stored.
pub fn ci_key(s: &str) -> (k: String)
    ensures
        k@ == fold_case(s@),
{
    let cs = chars_of(s);
    let mut out: Vec<char> = Vec::new();
    let mut i: usize = 0;
    while i < cs.len()
        invariant
            i <= cs.len(),
            cs@ == s@,
            out@ == fold_case(s@.take(i as int)),
        decreases cs.len() - i,
    {
        let c = cs[i];
        let d = if 'A' <= c && c <= 'Z' {
            let code = (c as u32) + 32;
            let small = code as u8;
            assert(small == code);
            small as char
        } else {
            c
        };
        out.push(d);
        i = i + 1;
        assert(out@ =~= fold_case(s@.take(i as int)));
    }
    assert(s@.take(s@.len() as int) =~= s@);
    string_of(out.as_slice())
}

/// A string compared without regard to ASCII case.
pub struct CiString(pub String);

impl CiString {
    pub fn new(s: &str) -> (c: Self)
        ensures
            c.0@ == s@,
    {
        CiString(s.to_owned())
    }

    /// Whether the two are equal ignoring ASCII case.
    pub fn ci_eq(&self, other: &Self) -> (b: bool)
        ensures
            b == (fold_case(self.0@) == fold_case(other.0@)),
    {
        let a = ci_key(self.0.as_str());
        let b = ci_key(other.0.as_str());
        crate::text::str_eq(a.as_str(), b.as_str())
    }

    pub fn as_ref(&self) -> (s: &str)
        ensures
            s@ == self.0@,
    {
        self.0.as_str()
    }
}

/// Looks `query` up in a map whose keys are stored case-folded.
pub fn find_ci(map: &MyHashMap<i32>, query: &str) -> (r: Option<i32>)
    requires
        map.wf(),
    ensures
        map@.contains_key(fold_case(query@)) ==> r == Some(map@[fold_case(query@)]),
        !map@.contains_key(fold_case(query@)) ==> r is None,
{
    let key = ci_key(query);
    match map.get(&key) {
        Some(v) => Some(*v),
        None => None,
    }
}

/// A string-to-string cache queried with borrowed keys.
pub struct Cache(pub MyHashMap<String>);

impl Cache {
    pub fn get(&self, key: &str) -> (r: Option<&str>)
        requires
            self.0.wf(),
        ensures
            self.0@.contains_key(key@) ==> (r matches Some(v) && v@ == self.0@[key@]@),
            !self.0@.contains_key(key@) ==> r is None,
    {
        let k = key.to_owned();
        match self.0.get(&k) {
            Some(v) => Some(v.as_str()),
            None => None,
        }
    }
}

/// Whether any candidate is in the set.
pub fn any_known(set: &MyHashMap<()>, candidates: &[&str]) -> (b: bool)
    requires
        set.wf(),
    ensures
        b == exists|i: int| 0 <= i < candidates@.len() && set@.contains_key(#[trigger] candidates@[i]@),
{
    let mut k: usize = 0;
    while k < candidates.len()
        invariant
            k <= candidates.len(),
            set.wf(),
            forall|i: int| 0 <= i < k ==> !set@.contains_key(#[trigger] candidates@[i]@),
        decreases candidates.len() - k,
    {
        let key = candidates[k].to_owned();
        match set.get(&key) {
            Some(_) => {
                assert(set@.contains_key(candidates@[k as int]@));
                return true;
            },
            None => {},
        }
        k = k + 1;
    }
    false
}

/// The text, upper-cased.
pub fn shout(s: &str) -> (r: String)
    ensures
        r@ == uppercase_of(s@),
{
    to_uppercase(s)
}

/// A set of tags, added as owned strings and queried with borrowed ones.
pub struct TagSet {
    tags: MyHashMap<()>,
}

impl TagSet {
    /// The tags held.
    pub closed spec fn view(&self) -> Set<Seq<char>> {
        self.tags@.dom()
    }

    /// The set's internal consistency.
    pub closed spec fn wf(&self) -> bool {
        self.tags.wf()
    }

    /// The next add's table arithmetic stays within `usize`.
    pub closed spec fn add_fits(&self) -> bool {
        self.tags.insert_fits()
    }

    /// Whether the next add's table arithmetic stays within `usize`.
    pub fn can_add(&self) -> (b: bool)
        ensures
            b == self.add_fits(),
    {
        self.tags.can_insert()
    }

    pub fn new() -> (t: Self)
        ensures
            t.wf(),
            t@ == Set::<Seq<char>>::empty(),
            t.add_fits(),
    {
        let t = TagSet { tags: MyHashMap::new() };
        proof {
            t.tags.lemma_fits_while_few_inserts();
        }
        assert(t@ =~= Set::<Seq<char>>::empty());
        t
    }

    pub fn add(&mut self, tag: &str)
        requires
            old(self).wf(),
            old(self).add_fits(),
        ensures
            final(self).wf(),
            final(self)@ == old(self)@.insert(tag@),
    {
        self.tags.insert(tag.to_owned(), ());
        assert(self@ =~= old(self)@.insert(tag@));
    }

    pub fn has(&self, tag: &str) -> (b: bool)
        requires
            self.wf(),
        ensures
            b == self@.contains(tag@),
    {
        let k = tag.to_owned();
        match self.tags.get(&k) {
            Some(_) => true,
            None => false,
        }
    }
}

/// Views an owned value as the borrowed form `B`.
pub trait MyBorrow<B: ?Sized + View>: View<V = B::V> {
    fn my_borrow(&self) -> (b: &B)
        ensures
            b@ == self@,
    ;
}

/// Makes an owned copy of a borrowed value.
pub trait MyToOwned: View {
    type Owned: MyBorrow<Self> + View<V = Self::V>;

    fn my_to_owned(&self) -> (o: Self::Owned)
        ensures
            o@ == self@,
    ;
}

impl MyBorrow<str> for String {
    fn my_borrow(&self) -> (b: &str) {
        self.as_str()
    }
}

impl<T> MyBorrow<[T]> for Vec<T> {
    fn my_borrow(&self) -> (b: &[T]) {
        self.as_slice()
    }
}

impl MyToOwned for str {
    type Owned = String;

    fn my_to_owned(&self) -> (o: String) {
        self.to_owned()
    }
}

impl<T: Copy> MyToOwned for [T] {
    type Owned = Vec<T>;

    fn my_to_owned(&self) -> (o: Vec<T>) {
        let mut v: Vec<T> = Vec::new();
        let mut k: usize = 0;
        while k < self.len()
            invariant
                k <= self@.len(),
                v@ == self@.take(k as int),
            decreases self@.len() - k,
        {
            v.push(self[k]);
            k = k + 1;
            assert(v@ =~= self@.take(k as int));
        }
        assert(self@.take(self@.len() as int) =~= self@);
        v
    }
}

/// Borrowed data, or an owned copy of it.
pub enum MyCow<'a, B: MyToOwned + ?Sized> {
    Borrowed(&'a B),
    Owned(B::Owned),
}

impl<'a, B: MyToOwned + ?Sized> MyCow<'a, B> {
    /// The data, whichever form holds it.
    pub open spec fn content(&self) -> B::V {
        match self {
            MyCow::Borrowed(b) => b@,
            MyCow::Owned(o) => o@,
        }
    }

    /// Owned data: the owned form as it is, the borrowed form copied.
    pub fn into_owned(self) -> (o: B::Owned)
        ensures
            o@ == self.content(),
    {
        match self {
            MyCow::Borrowed(b) => b.my_to_owned(),
            MyCow::Owned(o) => o,
        }
    }

    /// A borrow of the data, whichever form holds it.
    pub fn borrow(&self) -> (b: &B)
        ensures
            b@ == self.content(),
    {
        match self {
            MyCow::Borrowed(b) => b,
            MyCow::Owned(o) => o.my_borrow(),
        }
    }
}

/// The borrowed form when `borrow_it` holds, the owned one otherwise.
pub fn pick<'a, B: MyToOwned + ?Sized>(borrow_it: bool, b: &'a B, owned: B::Owned) -> (c: MyCow<'a, B>)
    ensures
        borrow_it ==> c is Borrowed && c.content() == b@,
        !borrow_it ==> c is Owned && c.content() == owned@,
{
    if borrow_it {
        MyCow::Borrowed(b)
    } else {
        MyCow::Owned(owned)
    }
}

/// Owned data from either form.
pub fn make_owned<'a, B: MyToOwned + ?Sized>(c: MyCow<'a, B>) -> (o: B::Owned)
    ensures
        o@ == c.content(),
{
    c.into_owned()
}

} // verus!
