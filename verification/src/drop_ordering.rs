//! Ownership hand-offs and an all-or-nothing transaction: a value swapped out
//! from behind a mutable borrow, and rows that are kept only on commit.
use vstd::prelude::*;
use crate::text::push_str;

verus! {

/// A named value; dropping one is what the drop-order demos record.
pub struct Noisy {
    pub name: String,
}

impl Noisy {
    pub fn new(name: &str) -> (n: Self)
        ensures
            n.name@ == name@,
    {
        Noisy { name: name.to_owned() }
    }

    /// The line recorded when this value is dropped.
    pub fn drop_line(&self) -> (line: String)
        ensures
            line@ == "drop "@ + self.name@,
    {
        let mut line = "drop ".to_owned();
        push_str(&mut line, self.name.as_str());
        line
    }
}

/// A place holding one value.
pub struct Slot {
    pub inner: Noisy,
}

impl Slot {
    /// Installs `replacement` and hands back the value that was there,
    /// without dropping it.
    pub fn swap_in(&mut self, replacement: Noisy) -> (previous: Noisy)
        ensures
            previous == old(self).inner,
            final(self).inner == replacement,
    {
        let mut out = replacement;
        std::mem::swap(&mut self.inner, &mut out);
        out
    }
}

/// A transaction over a table of rows: rows inserted through it are kept
/// if it is committed and removed again when it ends otherwise.
pub struct Transaction {
    db: Vec<String>,
    base: Ghost<Seq<Seq<char>>>,
    added: usize,
    committed: bool,
    log: Vec<String>,
}

/// The text of each row of a table.
pub open spec fn rows(v: Seq<String>) -> Seq<Seq<char>> {
    v.map_values(|s: String| s@)
}

impl Transaction {
    /// The transaction's internal consistency.
    pub closed spec fn wf(&self) -> bool {
        &&& self.db@.len() == self.base@.len() + self.added
        &&& rows(self.db@).take(self.base@.len() as int) == self.base@
    }

    /// The rows the table held when the transaction began.
    pub closed spec fn before(&self) -> Seq<Seq<char>> {
        self.base@
    }

    /// The rows inserted so far.
    pub closed spec fn inserted(&self) -> Seq<Seq<char>> {
        rows(self.db@).skip(self.base@.len() as int)
    }

    /// Whether the transaction has been committed.
    pub closed spec fn is_committed(&self) -> bool {
        self.committed
    }

    /// What the transaction has recorded so far.
    pub closed spec fn events(&self) -> Seq<Seq<char>> {
        rows(self.log@)
    }

    /// Starts a transaction over the table `db`.
    pub fn begin(db: Vec<String>) -> (t: Self)
        ensures
            t.wf(),
            t.before() == rows(db@),
            t.inserted() == Seq::<Seq<char>>::empty(),
            !t.is_committed(),
            t.events() == Seq::<Seq<char>>::empty(),
    {
        let ghost base = rows(db@);
        let t = Transaction { db, base: Ghost(base), added: 0, committed: false, log: Vec::new() };
        assert(rows(t.db@).take(base.len() as int) =~= base);
        assert(t.inserted() =~= Seq::<Seq<char>>::empty());
        assert(t.events() =~= Seq::<Seq<char>>::empty());
        t
    }

    /// Adds `row` to the table and records `insert <row>`.
    pub fn insert(&mut self, row: &str)
        requires
            old(self).wf(),
            old(self).inserted().len() < usize::MAX,
        ensures
            final(self).wf(),
            final(self).before() == old(self).before(),
            final(self).inserted() == old(self).inserted().push(row@),
            final(self).is_committed() == old(self).is_committed(),
            final(self).events() == old(self).events().push("insert "@ + row@),
    {
        let ghost old_db = rows(self.db@);
        self.db.push(row.to_owned());
        self.added = self.added + 1;
        let mut line = "insert ".to_owned();
        push_str(&mut line, row);
        self.log.push(line);
        proof {
            let n = self.base@.len() as int;
            assert(rows(self.db@) =~= old_db.push(row@));
            assert(rows(self.db@).take(n) =~= old_db.take(n));
            assert(rows(self.db@).skip(n) =~= old_db.skip(n).push(row@));
            assert(rows(self.log@) =~= old(self).events().push("insert "@ + row@));
        }
    }

    /// Keeps the inserted rows and records `commit`.
    pub fn commit(&mut self)
        requires
            old(self).wf(),
        ensures
            final(self).wf(),
            final(self).before() == old(self).before(),
            final(self).inserted() == old(self).inserted(),
            final(self).is_committed(),
            final(self).events() == old(self).events().push("commit"@),
    {
        self.committed = true;
        self.log.push("commit".to_owned());
        assert(rows(self.log@) =~= old(self).events().push("commit"@));
    }

    /// Ends the transaction, handing back the table and the record. An
    /// uncommitted transaction first removes exactly the rows it inserted and
    /// records `rollback`.
    pub fn end(self) -> (r: (Vec<String>, Vec<String>))
        requires
            self.wf(),
        ensures
            self.is_committed() ==> rows(r.0@) == self.before() + self.inserted(),
            self.is_committed() ==> rows(r.1@) == self.events(),
            !self.is_committed() ==> rows(r.0@) == self.before(),
            !self.is_committed() ==> rows(r.1@) == self.events().push("rollback"@),
    {
        let Transaction { mut db, base, added, committed, mut log } = self;
        let ghost n = base@.len() as int;
        assert(rows(db@) =~= rows(db@).take(n) + rows(db@).skip(n));
        if !committed {
            let mut k: usize = 0;
            while k < added
                invariant
                    k <= added,
                    n == base@.len(),
                    db@.len() == n + added - k,
                    rows(db@).take(n) == base@,
                decreases added - k,
            {
                let ghost before = db@;
                assert(before.len() > 0);
                let _ = db.pop();
                assert(db@ == before.drop_last());
                assert(rows(db@).take(n) =~= rows(before).take(n));
                k = k + 1;
            }
            assert(rows(db@) =~= rows(db@).take(n));
            log.push("rollback".to_owned());
            assert(rows(log@) =~= rows(self.log@).push("rollback"@));
        }
        (db, log)
    }
}

/// Rolling back undoes every insert: a transaction that inserts rows and
/// ends without a commit leaves the table as it found it, while a committed
/// one keeps the rows after the old ones.
pub proof fn law_all_or_nothing(before: Seq<Seq<char>>, inserted: Seq<Seq<char>>, committed: bool, after: Seq<Seq<char>>)
    requires
        committed ==> after == before + inserted,
        !committed ==> after == before,
    ensures
        after.take(before.len() as int) == before,
        committed ==> after.skip(before.len() as int) == inserted,
        !committed ==> after.len() == before.len(),
{
    if committed {
        assert((before + inserted).take(before.len() as int) =~= before);
        assert((before + inserted).skip(before.len() as int) =~= inserted);
    } else {
        assert(before.take(before.len() as int) =~= before);
    }
}

} // verus!
