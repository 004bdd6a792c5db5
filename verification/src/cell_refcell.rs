//! Interior mutability: the borrow-flag protocol a hand-built `RefCell`
//! enforces, and the list operations that the shared-cell demos perform.
use vstd::prelude::*;

verus! {

/// A `RefCell`'s borrow state: 0 when free, `n > 0` when `n` shared borrows
/// are out, -1 while one mutable borrow is out.
#[derive(Debug, Clone, Copy, PartialEq, Eq, Structural)]
pub struct BorrowFlag {
    pub flag: isize,
}

/// The flag only ever takes the values the protocol allows.
pub open spec fn flag_ok(f: isize) -> bool {
    f >= -1
}

/// How many shared borrows a flag records.
pub open spec fn readers(f: isize) -> int {
    if f > 0 {
        f as int
    } else {
        0
    }
}

/// Whether a flag records the mutable borrow.
pub open spec fn writer_out(f: isize) -> bool {
    f == -1
}

/// Whether a shared borrow may be taken under this flag.
pub open spec fn may_read(f: isize) -> bool {
    f >= 0
}

/// Whether the mutable borrow may be taken under this flag.
pub open spec fn may_write(f: isize) -> bool {
    f == 0
}

impl BorrowFlag {
    /// A free cell.
    pub fn new() -> (b: Self)
        ensures
            b.flag == 0,
    {
        BorrowFlag { flag: 0 }
    }

    /// Whether a shared borrow may be taken now.
    pub fn can_borrow(&self) -> (r: bool)
        ensures
            r == may_read(self.flag),
    {
        self.flag >= 0
    }

    /// Whether a mutable borrow may be taken now.
    pub fn can_borrow_mut(&self) -> (r: bool)
        ensures
            r == may_write(self.flag),
    {
        self.flag == 0
    }

    /// Hands out one more shared borrow.
    pub fn borrow(&mut self)
        requires
            may_read(old(self).flag),
            old(self).flag < isize::MAX,
        ensures
            final(self).flag == old(self).flag + 1,
    {
        self.flag = self.flag + 1;
    }

    /// Hands out the one mutable borrow.
    pub fn borrow_mut(&mut self)
        requires
            may_write(old(self).flag),
        ensures
            final(self).flag == -1,
    {
        self.flag = -1;
    }

    /// A shared borrow ends.
    pub fn release_shared(&mut self)
        requires
            readers(old(self).flag) > 0,
        ensures
            final(self).flag == old(self).flag - 1,
    {
        self.flag = self.flag - 1;
    }

    /// The mutable borrow ends.
    pub fn release_mut(&mut self)
        requires
            writer_out(old(self).flag),
        ensures
            final(self).flag == 0,
    {
        self.flag = 0;
    }
}

/// Readers and the writer exclude each other: the mutable borrow is granted
/// exactly when nothing is out, a shared borrow exactly when no writer is
/// out, and no flag records readers and a writer at once.
pub proof fn law_readers_xor_writer(f: isize)
    requires
        flag_ok(f),
    ensures
        may_write(f) <==> (readers(f) == 0 && !writer_out(f)),
        may_read(f) <==> !writer_out(f),
        !(writer_out(f) && readers(f) > 0),
{
}

/// Taking a borrow and releasing it puts the flag back where it was, and
/// every step of the protocol keeps the flag within its allowed values.
pub proof fn law_release_restores(f: isize)
    requires
        flag_ok(f),
    ensures
        may_read(f) && f < isize::MAX ==> readers((f + 1) as isize) == readers(f) + 1 && flag_ok(
            (f + 1) as isize,
        ),
        may_write(f) ==> writer_out(-1isize) && flag_ok(-1isize) && readers(-1isize) == 0,
        writer_out(f) ==> may_write(0) && f != 0,
        readers(f) > 0 ==> flag_ok((f - 1) as isize) && readers((f - 1) as isize) == readers(f) - 1,
{
}

/// Appends a copy of the first element.
pub fn duplicate_first(v: &mut Vec<i32>)
    requires
        old(v).len() > 0,
    ensures
        final(v)@ == old(v)@.push(old(v)@[0]),
{
    let first = v[0];
    v.push(first);
}

/// The doubles of `s`, in order.
pub open spec fn doubles(s: Seq<i32>) -> Seq<i32> {
    s.map_values(|x: i32| (2 * x) as i32)
}

/// Appends the double of every existing element, in order.
pub fn append_doubles(v: &mut Vec<i32>)
    requires
        forall|i: int| 0 <= i < old(v).len() ==> i32::MIN <= 2 * #[trigger] old(v)@[i] <= i32::MAX,
    ensures
        final(v)@ == old(v)@ + doubles(old(v)@),
{
    let n = v.len();
    let mut extra: Vec<i32> = Vec::new();
    let mut i: usize = 0;
    while i < n
        invariant
            n == v.len(),
            v@ == old(v)@,
            i <= n,
            forall|j: int| 0 <= j < n ==> i32::MIN <= 2 * #[trigger] v@[j] <= i32::MAX,
            extra@ == doubles(v@.take(i as int)),
        decreases n - i,
    {
        extra.push(2 * v[i]);
        i = i + 1;
        assert(extra@ =~= doubles(v@.take(i as int)));
    }
    assert(v@.take(n as int) =~= v@);
    let mut k: usize = 0;
    let ghost base = v@;
    while k < extra.len()
        invariant
            k <= extra.len(),
            v@ == base + extra@.take(k as int),
        decreases extra.len() - k,
    {
        v.push(extra[k]);
        k = k + 1;
        assert(v@ =~= base + extra@.take(k as int));
    }
    assert(extra@.take(extra.len() as int) =~= extra@);
}

/// The sum of a sequence of `i32` values.
pub open spec fn sum_i32(s: Seq<i32>) -> int
    decreases s.len(),
{
    if s.len() == 0 {
        0
    } else {
        sum_i32(s.drop_last()) + s.last()
    }
}

/// Every running total of `s`, from the left, fits in an `i32`.
pub open spec fn running_sums_fit_i32(s: Seq<i32>) -> bool {
    forall|k: int| 0 <= k <= s.len() ==> i32::MIN <= #[trigger] sum_i32(s.take(k)) <= i32::MAX
}

/// The total of a slice of `i32` values.
pub fn sum_slice(values: &[i32]) -> (r: i32)
    requires
        running_sums_fit_i32(values@),
    ensures
        r == sum_i32(values@),
{
    let mut total: i32 = 0;
    let mut k: usize = 0;
    assert(values@.take(0) =~= Seq::<i32>::empty());
    while k < values.len()
        invariant
            k <= values.len(),
            total == sum_i32(values@.take(k as int)),
            running_sums_fit_i32(values@),
        decreases values.len() - k,
    {
        assert(values@.take(k + 1).drop_last() =~= values@.take(k as int));
        assert(i32::MIN <= sum_i32(values@.take(k + 1)) <= i32::MAX);
        total = total + values[k];
        k = k + 1;
    }
    assert(values@.take(values.len() as int) =~= values@);
    total
}

/// Samples collected one at a time; the summary methods never change them.
pub struct Stats {
    samples: Vec<i32>,
}

impl Stats {
    /// The samples, oldest first.
    pub closed spec fn view(&self) -> Seq<i32> {
        self.samples@
    }

    pub fn new() -> (s: Self)
        ensures
            s.view() == Seq::<i32>::empty(),
    {
        Stats { samples: Vec::new() }
    }

    /// Records a sample.
    pub fn add(&mut self, n: i32)
        ensures
            final(self).view() == old(self).view().push(n),
    {
        self.samples.push(n);
    }

    /// How many samples there are.
    pub fn len(&self) -> (n: usize)
        ensures
            n == self.view().len(),
    {
        self.samples.len()
    }

    /// The total of the samples.
    pub fn sum(&self) -> (r: i32)
        requires
            running_sums_fit_i32(self.view()),
        ensures
            r == sum_i32(self.view()),
    {
        sum_slice(self.samples.as_slice())
    }
}

/// A counter bumped by a given amount.
pub fn bump(counter: &mut u32, by: u32)
    requires
        *old(counter) + by <= u32::MAX,
    ensures
        *final(counter) == *old(counter) + by,
{
    *counter = *counter + by;
}

/// Stores `new` in the slot and returns the previous value.
pub fn rotate(slot: &mut i32, new: i32) -> (r: i32)
    ensures
        r == *old(slot),
        *final(slot) == new,
{
    let old_value = *slot;
    *slot = new;
    old_value
}

/// Moves the value out of the slot, leaving `None` behind.
pub fn steal(slot: &mut Option<String>) -> (r: Option<String>)
    ensures
        r == *old(slot),
        *final(slot) is None,
{
    let mut taken: Option<String> = None;
    core::mem::swap(&mut taken, slot);
    taken
}

} // verus!
