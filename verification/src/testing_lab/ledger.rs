//! A tiny append-only money ledger (balances in integer cents).
use vstd::prelude::*;

verus! {

/// Error returned when a withdrawal exceeds the available balance.
#[derive(Debug, PartialEq, Eq, Structural, Clone, Copy)]
pub struct Overdraw {
    pub requested: i64,
    pub available: i64,
}

/// An append-only ledger. Balance is tracked in integer cents and may
/// never go negative.
#[derive(Debug)]
pub struct Ledger {
    balance_cents: i64,
    entries: u32,
}

/// What a ledger holds: its balance and how many deposits and withdrawals
/// it has recorded.
pub struct LedgerState {
    pub balance: int,
    pub entries: nat,
}

/// The state after depositing `cents`.
pub open spec fn after_deposit(s: LedgerState, cents: int) -> LedgerState {
    LedgerState { balance: s.balance + cents, entries: s.entries + 1 }
}

/// The state after withdrawing `cents`, or the refusal.
pub open spec fn after_withdraw(s: LedgerState, cents: int) -> Result<LedgerState, Overdraw> {
    if cents > s.balance {
        Err(Overdraw { requested: cents as i64, available: s.balance as i64 })
    } else {
        Ok(LedgerState { balance: s.balance - cents, entries: s.entries + 1 })
    }
}

impl Ledger {
    #[verifier::type_invariant]
    spec fn never_negative(self) -> bool {
        self.balance_cents >= 0
    }

    /// The current state of the ledger.
    pub closed spec fn state(&self) -> LedgerState {
        LedgerState { balance: self.balance_cents as int, entries: self.entries as nat }
    }

    /// Create an empty ledger.
    pub fn new() -> (l: Self)
        ensures
            l.state() == (LedgerState { balance: 0, entries: 0 }),
    {
        Ledger { balance_cents: 0, entries: 0 }
    }

    /// Deposit a positive amount of cents.
    pub fn deposit(&mut self, cents: i64)
        requires
            cents > 0,
            old(self).state().balance + cents <= i64::MAX,
            old(self).state().entries < u32::MAX,
        ensures
            final(self).state() == after_deposit(old(self).state(), cents as int),
    {
        proof {
            use_type_invariant(&*self);
        }
        self.balance_cents = self.balance_cents + cents;
        self.entries = self.entries + 1;
        self.check_invariant();
    }

    /// Withdraw a positive amount; `Err(Overdraw)` if funds are insufficient,
    /// in which case nothing changes.
    pub fn withdraw(&mut self, cents: i64) -> (r: Result<(), Overdraw>)
        requires
            cents > 0,
            cents <= old(self).state().balance ==> old(self).state().entries < u32::MAX,
        ensures
            match after_withdraw(old(self).state(), cents as int) {
                Ok(s) => r == Ok::<(), Overdraw>(()) && final(self).state() == s,
                Err(e) => r == Err::<(), Overdraw>(e) && final(self).state() == old(self).state(),
            },
    {
        proof {
            use_type_invariant(&*self);
        }
        if cents > self.balance_cents {
            return Err(Overdraw { requested: cents, available: self.balance_cents });
        }
        self.balance_cents = self.balance_cents - cents;
        self.entries = self.entries + 1;
        self.check_invariant();
        Ok(())
    }

    /// Current balance in cents.
    pub fn balance(&self) -> (b: i64)
        ensures
            b == self.state().balance,
            b >= 0,
    {
        proof {
            use_type_invariant(self);
        }
        self.balance_cents
    }

    /// How many deposits and withdrawals have been recorded.
    pub fn entries(&self) -> (n: u32)
        ensures
            n == self.state().entries,
    {
        self.entries
    }

    /// The ledger's invariant: the balance is never negative.
    pub fn check_invariant(&self)
        ensures
            self.state().balance >= 0,
    {
        proof {
            use_type_invariant(self);
        }
    }
}

impl Default for Ledger {
    fn default() -> (l: Self)
        ensures
            l.state() == (LedgerState { balance: 0, entries: 0 }),
    {
        Ledger::new()
    }
}

/// Every reachable state has a non-negative balance: a deposit keeps it so,
/// and a withdrawal either succeeds without going below zero or is refused.
pub proof fn law_balance_never_negative(s: LedgerState, cents: int)
    requires
        s.balance >= 0,
        cents > 0,
    ensures
        after_deposit(s, cents).balance >= 0,
        after_withdraw(s, cents) matches Ok(t) ==> t.balance >= 0,
{
}

/// A withdrawal of what was just deposited succeeds and restores the balance.
pub proof fn law_withdraw_undoes_deposit(s: LedgerState, cents: int)
    requires
        s.balance >= 0,
        cents > 0,
    ensures
        after_withdraw(after_deposit(s, cents), cents) == Ok::<LedgerState, Overdraw>(
            LedgerState { balance: s.balance, entries: s.entries + 2 },
        ),
{
}

/// A refused withdrawal reports the amount asked for and the balance held.
pub proof fn law_overdraw_reports_request(s: LedgerState, cents: int)
    requires
        s.balance >= 0,
        s.balance <= i64::MAX,
        i64::MIN <= cents <= i64::MAX,
        cents > s.balance,
    ensures
        after_withdraw(s, cents) == Err::<LedgerState, Overdraw>(
            Overdraw { requested: cents as i64, available: s.balance as i64 },
        ),
        (Overdraw { requested: cents as i64, available: s.balance as i64 }).requested == cents,
        (Overdraw { requested: cents as i64, available: s.balance as i64 }).available == s.balance,
{
}

/// A call made on a ledger: a deposit or a withdrawal of some cents.
pub enum LedgerCall {
    Deposit(int),
    Withdraw(int),
}

/// The state a new ledger reaches after `calls`, a refused withdrawal
/// leaving it as it was.
pub open spec fn run_calls(calls: Seq<LedgerCall>) -> LedgerState
    decreases calls.len(),
{
    if calls.len() == 0 {
        LedgerState { balance: 0, entries: 0 }
    } else {
        let before = run_calls(calls.drop_last());
        match calls.last() {
            LedgerCall::Deposit(c) => after_deposit(before, c),
            LedgerCall::Withdraw(c) => match after_withdraw(before, c) {
                Ok(s) => s,
                Err(_) => before,
            },
        }
    }
}

/// The cents deposited by `calls`.
pub open spec fn deposited(calls: Seq<LedgerCall>) -> int
    decreases calls.len(),
{
    if calls.len() == 0 {
        0
    } else {
        deposited(calls.drop_last()) + match calls.last() {
            LedgerCall::Deposit(c) => c,
            LedgerCall::Withdraw(_) => 0,
        }
    }
}

/// The cents taken out by the withdrawals among `calls` that were granted.
pub open spec fn withdrawn(calls: Seq<LedgerCall>) -> int
    decreases calls.len(),
{
    if calls.len() == 0 {
        0
    } else {
        withdrawn(calls.drop_last()) + match calls.last() {
            LedgerCall::Deposit(_) => 0,
            LedgerCall::Withdraw(c) => if c <= run_calls(calls.drop_last()).balance {
                c
            } else {
                0
            },
        }
    }
}

/// Every amount in `calls` is positive, as `deposit` and `withdraw` demand.
pub open spec fn amounts_positive(calls: Seq<LedgerCall>) -> bool {
    forall|i: int|
        0 <= i < calls.len() ==> match #[trigger] calls[i] {
            LedgerCall::Deposit(c) => c > 0,
            LedgerCall::Withdraw(c) => c > 0,
        }
}

/// Whatever deposits and withdrawals a new ledger goes through, its balance
/// is what was deposited less what the granted withdrawals took, and it is
/// never negative.
pub proof fn law_balance_over_calls(calls: Seq<LedgerCall>)
    requires
        amounts_positive(calls),
    ensures
        run_calls(calls).balance == deposited(calls) - withdrawn(calls),
        run_calls(calls).balance >= 0,
    decreases calls.len(),
{
    if calls.len() > 0 {
        let rest = calls.drop_last();
        assert forall|i: int| 0 <= i < rest.len() implies match #[trigger] rest[i] {
            LedgerCall::Deposit(c) => c > 0,
            LedgerCall::Withdraw(c) => c > 0,
        } by {
            assert(rest[i] == calls[i]);
        }
        law_balance_over_calls(rest);
        assert(calls.last() == calls[calls.len() - 1]);
    }
}

} // verus!
