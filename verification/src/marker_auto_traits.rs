//! Marker traits and type-level tags: permission markers, copyable points,
//! byte views of unsized values, typed ids, and a connection whose state is
//! part of its type.
use vstd::prelude::*;
use vstd::string::StringSliceAdditionalSpecFns;
use std::marker::PhantomData;
use crate::text::push_str;

verus! {

/// Marks the user kinds allowed to publish.
pub trait Approved {}

pub struct Admin;

pub struct Editor;

pub struct Guest;

impl Approved for Admin {}

impl Approved for Editor {}

/// Only approved kinds of user can reach this at all.
pub fn can_publish<T: Approved>(_user: &T) -> (ok: bool)
    ensures
        ok,
{
    true
}

/// A point that is copied, not moved.
#[derive(Debug, Clone, Copy, PartialEq, Eq, Structural)]
pub struct Point {
    pub x: i32,
    pub y: i32,
}

/// The absolute value.
pub open spec fn abs(v: int) -> int {
    if v < 0 {
        -v
    } else {
        v
    }
}

/// The taxicab distance of `p` from the origin.
pub fn manhattan(p: Point) -> (d: i32)
    requires
        p.x != i32::MIN,
        p.y != i32::MIN,
        abs(p.x as int) + abs(p.y as int) <= i32::MAX,
    ensures
        d == abs(p.x as int) + abs(p.y as int),
{
    let ax = if p.x < 0 {
        -p.x
    } else {
        p.x
    };
    let ay = if p.y < 0 {
        -p.y
    } else {
        p.y
    };
    ax + ay
}

/// A point passed by copy is still usable afterwards: the distance of
/// (3, -4) plus its coordinates.
pub fn sum_uses_original() -> (r: i32)
    ensures
        r == 6,
{
    let p = Point { x: 3, y: -4 };
    let d = manhattan(p);
    d + p.x + p.y
}

/// Values that can be looked at as bytes.
pub trait Bytes {
    /// The bytes.
    spec fn byte_seq(&self) -> Seq<u8>;

    fn bytes_view(&self) -> (b: &[u8])
        ensures
            b@ == self.byte_seq(),
    ;
}

impl Bytes for str {
    open spec fn byte_seq(&self) -> Seq<u8> {
        self.spec_bytes()
    }

    fn bytes_view(&self) -> (b: &[u8]) {
        self.as_bytes()
    }
}

impl Bytes for [u8] {
    open spec fn byte_seq(&self) -> Seq<u8> {
        self@
    }

    fn bytes_view(&self) -> (b: &[u8]) {
        self
    }
}

impl Bytes for Point {
    open spec fn byte_seq(&self) -> Seq<u8> {
        seq![]
    }

    fn bytes_view(&self) -> (b: &[u8]) {
        let empty: &[u8] = &[];
        assert(empty@ =~= Seq::<u8>::empty());
        empty
    }
}

/// The last byte of any byte-viewable value, sized or not.
pub fn last_byte<T: Bytes + ?Sized>(value: &T) -> (r: Option<u8>)
    ensures
        value.byte_seq().len() == 0 ==> r is None,
        value.byte_seq().len() > 0 ==> r == Some(value.byte_seq().last()),
{
    let b = value.bytes_view();
    if b.len() == 0 {
        None
    } else {
        Some(b[b.len() - 1])
    }
}

/// A user, as an id tag.
pub struct User;

/// A post, as an id tag.
pub struct Post;

/// An id tagged with the kind of thing it names; ids of different kinds
/// cannot be mixed up.
pub struct Id<T> {
    raw: u64,
    tag: PhantomData<T>,
}

impl<T> Id<T> {
    /// The number inside.
    pub closed spec fn value(&self) -> u64 {
        self.raw
    }

    pub fn new(raw: u64) -> (id: Self)
        ensures
            id.value() == raw,
    {
        Id { raw, tag: PhantomData }
    }

    pub fn raw(&self) -> (r: u64)
        ensures
            r == self.value(),
    {
        self.raw
    }

    /// Whether two ids of the same kind are the same id.
    pub fn same(&self, other: &Self) -> (b: bool)
        ensures
            b == (self.value() == other.value()),
    {
        self.raw == other.raw
    }
}

/// Fetches a user by id; a post id is refused by the type checker.
pub fn fetch_user(id: Id<User>) -> (r: u64)
    ensures
        r == id.value(),
{
    id.raw()
}

/// Seals a trait: only this crate can implement it.
pub trait Sealed {}

/// The states of a connection.
pub trait State: Sealed {
    /// The state's name.
    spec fn name_spec() -> Seq<char>;

    fn name() -> (n: &'static str)
        ensures
            n@ == Self::name_spec(),
    ;
}

pub struct Disconnected;

pub struct Connected;

pub struct Authenticated;

impl Sealed for Disconnected {}

impl Sealed for Connected {}

impl Sealed for Authenticated {}

impl State for Disconnected {
    open spec fn name_spec() -> Seq<char> {
        "Disconnected"@
    }

    fn name() -> (n: &'static str) {
        "Disconnected"
    }
}

impl State for Connected {
    open spec fn name_spec() -> Seq<char> {
        "Connected"@
    }

    fn name() -> (n: &'static str) {
        "Connected"
    }
}

impl State for Authenticated {
    open spec fn name_spec() -> Seq<char> {
        "Authenticated"@
    }

    fn name() -> (n: &'static str) {
        "Authenticated"
    }
}

/// A connection in state `S`: only the operations of that state exist.
pub struct Conn<S: State> {
    peer: String,
    log: Vec<String>,
    state: PhantomData<S>,
}

/// The text of each log entry.
pub open spec fn entries(log: Seq<String>) -> Seq<Seq<char>> {
    log.map_values(|s: String| s@)
}

impl<S: State> Conn<S> {
    /// The peer's address.
    pub closed spec fn peer_spec(&self) -> Seq<char> {
        self.peer@
    }

    /// What the connection has done, oldest first.
    pub closed spec fn history(&self) -> Seq<Seq<char>> {
        entries(self.log@)
    }

    /// The name of the current state.
    pub fn status(&self) -> (n: &'static str)
        ensures
            n@ == S::name_spec(),
    {
        S::name()
    }

    /// The log, oldest entry first.
    pub fn log(&self) -> (l: &[String])
        ensures
            entries(l@) == self.history(),
    {
        self.log.as_slice()
    }

    /// Moves to state `T`, logging `entry`.
    fn advance<T: State>(self, entry: String) -> (c: Conn<T>)
        ensures
            c.peer_spec() == self.peer_spec(),
            c.history() == self.history().push(entry@),
    {
        let mut log = self.log;
        let ghost before = log@;
        log.push(entry);
        assert(entries(log@) =~= entries(before).push(entry@));
        Conn { peer: self.peer, log, state: PhantomData }
    }
}

impl Conn<Disconnected> {
    /// A fresh connection to `peer`, not yet connected.
    pub fn new(peer: &str) -> (c: Self)
        ensures
            c.peer_spec() == peer@,
            c.history() == Seq::<Seq<char>>::empty(),
    {
        let c = Conn { peer: peer.to_owned(), log: Vec::new(), state: PhantomData };
        assert(c.history() =~= Seq::<Seq<char>>::empty());
        c
    }

    pub fn connect(self) -> (c: Conn<Connected>)
        ensures
            c.peer_spec() == self.peer_spec(),
            c.history() == self.history().push("CONNECT"@),
    {
        self.advance("CONNECT".to_owned())
    }
}

impl Conn<Connected> {
    pub fn authenticate(self, token: &str) -> (c: Conn<Authenticated>)
        ensures
            c.peer_spec() == self.peer_spec(),
            c.history() == self.history().push("AUTH:"@ + token@),
    {
        let mut entry = "AUTH:".to_owned();
        push_str(&mut entry, token);
        self.advance(entry)
    }

    pub fn disconnect(self) -> (c: Conn<Disconnected>)
        ensures
            c.peer_spec() == self.peer_spec(),
            c.history() == self.history().push("DISCONNECT"@),
    {
        self.advance("DISCONNECT".to_owned())
    }
}

impl Conn<Authenticated> {
    /// Sends `msg`, logging it, and reports its length in bytes.
    pub fn send(&mut self, msg: &str) -> (n: usize)
        ensures
            final(self).peer_spec() == old(self).peer_spec(),
            final(self).history() == old(self).history().push("SEND:"@ + msg@),
            n == msg.spec_bytes().len() as usize,
    {
        let mut entry = "SEND:".to_owned();
        push_str(&mut entry, msg);
        let ghost before = self.log@;
        let ghost e = entry@;
        self.log.push(entry);
        assert(entries(self.log@) =~= entries(before).push(e));
        msg.len()
    }

    pub fn logout(self) -> (c: Conn<Connected>)
        ensures
            c.peer_spec() == self.peer_spec(),
            c.history() == self.history().push("LOGOUT"@),
    {
        self.advance("LOGOUT".to_owned())
    }
}

} // verus!
