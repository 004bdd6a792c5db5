//! A library layer with a typed error: numbers read from a small fixed
//! database.
use vstd::prelude::*;
use crate::numparse::{ParseIntError, kind_message, parse_i64, spec_parse_i64};
use crate::text::{push_str, str_eq};

verus! {

/// The database's contents: the value stored under `key`, if any.
pub open spec fn db_spec(key: Seq<char>) -> Option<Seq<char>> {
    if key == "port"@ {
        Some("8080"@)
    } else if key == "timeout"@ {
        Some("not-a-number"@)
    } else {
        None
    }
}

/// Looks `key` up in the database.
pub fn db(key: &str) -> (r: Option<&'static str>)
    ensures
        match db_spec(key@) {
            Some(v) => r matches Some(x) && x@ == v,
            None => r is None,
        },
{
    if str_eq(key, "port") {
        Some("8080")
    } else if str_eq(key, "timeout") {
        Some("not-a-number")
    } else {
        None
    }
}

/// What can go wrong reading a number from the database.
#[derive(Debug, Clone, PartialEq, Eq)]
pub enum StoreError {
    NotFound { key: String },
    Parse(ParseIntError),
}

impl StoreError {
    /// The message the error displays.
    pub fn message(&self) -> (m: String)
        ensures
            self matches StoreError::NotFound { key } ==> m@ == "key not found: "@ + key@,
            self matches StoreError::Parse(e) ==> m@ == "not a number: "@ + kind_message(e.kind),
    {
        match self {
            StoreError::NotFound { key } => {
                let mut m = "key not found: ".to_owned();
                push_str(&mut m, key.as_str());
                m
            },
            StoreError::Parse(e) => {
                let mut m = "not a number: ".to_owned();
                let inner = e.message();
                push_str(&mut m, inner.as_str());
                m
            },
        }
    }
}

/// The number stored under `key`.
pub fn get_number(key: &str) -> (r: Result<i64, StoreError>)
    ensures
        match db_spec(key@) {
            None => r matches Err(StoreError::NotFound { key: k }) && k@ == key@,
            Some(v) => match spec_parse_i64(v) {
                Ok(n) => r matches Ok(x) && x == n,
                Err(kind) => r == Err::<i64, StoreError>(StoreError::Parse(ParseIntError { kind })),
            },
        },
{
    match db(key) {
        Some(value) => match parse_i64(value) {
            Ok(n) => Ok(n),
            Err(e) => Err(StoreError::Parse(e)),
        },
        None => Err(StoreError::NotFound { key: key.to_owned() }),
    }
}

} // verus!
