//! An opaque error that carries a chain of messages, outermost first, and
//! grows by wrapping context around an earlier error.
use vstd::prelude::*;
use crate::numparse::{ParseIntError, kind_message, parse_i32, spec_parse_i32};

verus! {

/// An error and the causes under it, as their messages.
#[derive(Debug)]
pub struct MyError {
    chain: Vec<String>,
}

impl MyError {
    #[verifier::type_invariant]
    closed spec fn has_message(&self) -> bool {
        self.chain@.len() > 0
    }

    /// The messages, outermost first.
    pub closed spec fn view(&self) -> Seq<Seq<char>> {
        self.chain@.map_values(|s: String| s@)
    }

    /// An error with the single message `msg`.
    pub fn from_message(msg: &str) -> (e: Self)
        ensures
            e@ == seq![msg@],
    {
        let mut chain: Vec<String> = Vec::new();
        chain.push(msg.to_owned());
        let e = MyError { chain };
        assert(e@ =~= seq![msg@]);
        e
    }

    /// A parse failure, erased into an opaque error.
    pub fn from_parse(err: ParseIntError) -> (e: Self)
        ensures
            e@ == seq![kind_message(err.kind)],
    {
        let mut chain: Vec<String> = Vec::new();
        chain.push(err.message());
        let e = MyError { chain };
        assert(e@ =~= seq![kind_message(err.kind)]);
        e
    }

    /// The outermost message.
    pub fn message(&self) -> (m: String)
        ensures
            self@.len() > 0,
            m@ == self@[0],
    {
        proof {
            use_type_invariant(self);
        }
        self.chain[0].clone()
    }

    /// All messages, outermost first.
    pub fn chain(&self) -> (c: Vec<String>)
        ensures
            c@.map_values(|s: String| s@) == self@,
    {
        let mut c: Vec<String> = Vec::new();
        let mut i: usize = 0;
        while i < self.chain.len()
            invariant
                i <= self.chain@.len(),
                c@.len() == i,
                forall|k: int| 0 <= k < i ==> #[trigger] c@[k]@ == self.chain@[k]@,
            decreases self.chain@.len() - i,
        {
            c.push(self.chain[i].clone());
            i = i + 1;
        }
        assert(c@.map_values(|s: String| s@) =~= self@);
        c
    }

    /// Wraps this error under the message `msg`.
    pub fn context(self, msg: &str) -> (e: Self)
        ensures
            e@ == seq![msg@] + self@,
    {
        let mut chain: Vec<String> = Vec::new();
        chain.push(msg.to_owned());
        let mut i: usize = 0;
        while i < self.chain.len()
            invariant
                i <= self.chain@.len(),
                chain@.len() == i + 1,
                chain@[0]@ == msg@,
                forall|k: int| 0 <= k < i ==> #[trigger] chain@[k + 1]@ == self.chain@[k]@,
            decreases self.chain@.len() - i,
        {
            chain.push(self.chain[i].clone());
            i = i + 1;
        }
        let e = MyError { chain };
        assert forall|k: int| 0 <= k < e@.len() implies #[trigger] e@[k] == (seq![msg@] + self@)[k] by {
            if k > 0 {
                assert(chain@[(k - 1) + 1]@ == self.chain@[k - 1]@);
            }
        }
        assert(e@ =~= seq![msg@] + self@);
        e
    }
}

/// Parses an `i32`, erasing a parse failure into an opaque error.
pub fn parse_positive(s: &str) -> (r: Result<i32, MyError>)
    ensures
        match spec_parse_i32(s@) {
            Ok(v) => r matches Ok(x) && x == v,
            Err(k) => r matches Err(e) && e@ == seq![kind_message(k)],
        },
{
    match parse_i32(s) {
        Ok(v) => Ok(v),
        Err(e) => Err(MyError::from_parse(e)),
    }
}

/// Puts the message `msg` over a parse failure.
pub fn context_parse<T>(r: Result<T, ParseIntError>, msg: &str) -> (out: Result<T, MyError>)
    ensures
        r matches Ok(v) ==> out == Ok::<T, MyError>(v),
        r matches Err(e) ==> (out matches Err(m) && m@ == seq![msg@, kind_message(e.kind)]),
{
    match r {
        Ok(v) => Ok(v),
        Err(e) => {
            let inner = MyError::from_parse(e);
            let outer = inner.context(msg);
            assert(outer@ =~= seq![msg@, kind_message(e.kind)]);
            Err(outer)
        },
    }
}

/// Puts the message `msg` over an opaque error.
pub fn context_error<T>(r: Result<T, MyError>, msg: &str) -> (out: Result<T, MyError>)
    ensures
        r matches Ok(v) ==> out == Ok::<T, MyError>(v),
        r matches Err(e) ==> (out matches Err(m) && m@ == seq![msg@] + e@),
{
    match r {
        Ok(v) => Ok(v),
        Err(e) => Err(e.context(msg)),
    }
}

} // verus!
