//! Errors as values: typed error enums, the messages they display, the
//! conversions between them, classification for retries, and a small
//! context-chaining error.
use vstd::prelude::*;
use crate::numparse::{
    ParseIntError, kind_message, parse_i32, parse_i64, parse_u16, parse_u32,
    spec_parse_i32, spec_parse_i64, spec_parse_u16, spec_parse_u32, lemma_decimal_digits,
    law_parse_i64_of_decimal,
};
use crate::collections::my_hash_map::MyHashMap;
use crate::testing_lab::{
    trim, trimmed, trim_start, trim_end, lemma_trim_start_pad, lemma_trim_end_pad,
};
use crate::text::{
    chars_of, string_of, push_str, format_u64, decimal, str_eq, signed_decimal, is_ws, is_digit,
};

pub mod store;
pub mod my_error;

verus! {

/// Why `parse_and_double` refused its input.
#[derive(Debug, Clone, Copy, PartialEq, Eq, Structural)]
pub enum DoubleError {
    Parse(ParseIntError),
    Unlucky,
}

impl DoubleError {
    /// The message the error displays.
    pub fn message(&self) -> (m: String)
        ensures
            self matches DoubleError::Parse(e) ==> m@ == kind_message(e.kind),
            self is Unlucky ==> m@ == "13 is unlucky"@,
    {
        match self {
            DoubleError::Parse(e) => e.message(),
            DoubleError::Unlucky => "13 is unlucky".to_owned(),
        }
    }
}

/// Parses an `i32`, refuses 13, and doubles anything else.
pub fn parse_and_double(s: &str) -> (r: Result<i32, DoubleError>)
    requires
        spec_parse_i32(s@) matches Ok(v) ==> i32::MIN <= v * 2 <= i32::MAX,
    ensures
        match spec_parse_i32(s@) {
            Err(k) => r == Err::<i32, DoubleError>(DoubleError::Parse(ParseIntError { kind: k })),
            Ok(v) => if v == 13 {
                r == Err::<i32, DoubleError>(DoubleError::Unlucky)
            } else {
                r == Ok::<i32, DoubleError>((v * 2) as i32)
            },
        },
{
    let n = match parse_i32(s) {
        Ok(n) => n,
        Err(e) => return Err(DoubleError::Parse(e)),
    };
    if n == 13 {
        return Err(DoubleError::Unlucky);
    }
    Ok(n * 2)
}

/// What can go wrong reading the port from a configuration.
#[derive(Debug, Clone, PartialEq, Eq)]
pub enum ConfigError {
    Missing(String),
    Parse(ParseIntError),
}

impl ConfigError {
    /// The message the error displays.
    pub fn message(&self) -> (m: String)
        ensures
            self matches ConfigError::Missing(k) ==> m@ == "missing key: "@ + k@,
            self matches ConfigError::Parse(e) ==> m@ == "invalid number: "@ + kind_message(e.kind),
    {
        match self {
            ConfigError::Missing(k) => {
                let mut m = "missing key: ".to_owned();
                push_str(&mut m, k.as_str());
                m
            },
            ConfigError::Parse(e) => {
                let mut m = "invalid number: ".to_owned();
                let inner = e.message();
                push_str(&mut m, inner.as_str());
                m
            },
        }
    }

    /// The lower-level error this one wraps, if any.
    pub fn source(&self) -> (s: Option<ParseIntError>)
        ensures
            self matches ConfigError::Parse(e) ==> s == Some(*e),
            self is Missing ==> s is None,
    {
        match self {
            ConfigError::Parse(e) => Some(*e),
            ConfigError::Missing(_) => None,
        }
    }
}

/// Looks up `"port"` in the configuration and parses it as a `u16`.
pub fn read_port(cfg: &MyHashMap<String>) -> (r: Result<u16, ConfigError>)
    requires
        cfg.wf(),
    ensures
        !cfg@.contains_key("port"@) ==> (r matches Err(ConfigError::Missing(k)) && k@ == "port"@),
        cfg@.contains_key("port"@) ==> match spec_parse_u16(cfg@["port"@]@) {
            Ok(v) => r == Ok::<u16, ConfigError>(v as u16),
            Err(k) => r == Err::<u16, ConfigError>(ConfigError::Parse(ParseIntError { kind: k })),
        },
{
    let key = "port".to_owned();
    match cfg.get(&key) {
        Some(port) => match parse_u16(port.as_str()) {
            Ok(v) => Ok(v),
            Err(e) => Err(ConfigError::Parse(e)),
        },
        None => Err(ConfigError::Missing("port".to_owned())),
    }
}

/// What can go wrong loading a number from text.
#[derive(Debug, Clone, PartialEq, Eq)]
pub enum LoadError {
    /// Reading failed; the text is the reader's message.
    Io(String),
    BadNumber(ParseIntError),
    Empty,
}

impl LoadError {
    /// The message the error displays.
    pub fn message(&self) -> (m: String)
        ensures
            self matches LoadError::Io(t) ==> m@ == "io error: "@ + t@,
            self matches LoadError::BadNumber(e) ==> m@ == "bad number: "@ + kind_message(e.kind),
            self is Empty ==> m@ == "input was empty"@,
    {
        match self {
            LoadError::Io(t) => {
                let mut m = "io error: ".to_owned();
                push_str(&mut m, t.as_str());
                m
            },
            LoadError::BadNumber(e) => {
                let mut m = "bad number: ".to_owned();
                let inner = e.message();
                push_str(&mut m, inner.as_str());
                m
            },
            LoadError::Empty => "input was empty".to_owned(),
        }
    }
}

/// Where the first line of `s` ends: at its first line feed, or at the end.
pub open spec fn line_end(s: Seq<char>) -> int
    decreases s.len(),
{
    if s.len() == 0 {
        0
    } else if s[0] == '\n' {
        0
    } else {
        1 + line_end(s.drop_first())
    }
}

/// The first line of non-empty `s`, as `str::lines` yields it: up to the
/// first line feed, without a carriage return just before it.
pub open spec fn first_line(s: Seq<char>) -> Seq<char> {
    let l = s.take(line_end(s));
    if l.len() > 0 && l.last() == '\r' {
        l.drop_last()
    } else {
        l
    }
}

proof fn lemma_line_end(s: Seq<char>)
    ensures
        0 <= line_end(s) <= s.len(),
        forall|i: int| 0 <= i < line_end(s) ==> s[i] != '\n',
        line_end(s) < s.len() ==> s[line_end(s)] == '\n',
    decreases s.len(),
{
    if s.len() > 0 && s[0] != '\n' {
        lemma_line_end(s.drop_first());
        assert forall|i: int| 0 <= i < line_end(s) implies s[i] != '\n' by {
            if i > 0 {
                assert(s[i] == s.drop_first()[i - 1]);
            }
        }
    }
}

/// How `first_number` reads `text`.
pub open spec fn first_number_spec(text: Seq<char>) -> Result<int, LoadError> {
    if text.len() == 0 || trimmed(first_line(text)).len() == 0 {
        Err(LoadError::Empty)
    } else {
        match spec_parse_i64(trimmed(first_line(text))) {
            Ok(v) => Ok(v),
            Err(k) => Err(LoadError::BadNumber(ParseIntError { kind: k })),
        }
    }
}

/// A first line with no line feed in it ends where the following text's
/// first line ends.
proof fn lemma_line_end_after(a: Seq<char>, b: Seq<char>)
    requires
        forall|i: int| 0 <= i < a.len() ==> #[trigger] a[i] != '\n',
    ensures
        line_end(a + b) == a.len() + line_end(b),
    decreases a.len(),
{
    if a.len() > 0 {
        assert((a + b)[0] == a[0]);
        assert((a + b).drop_first() =~= a.drop_first() + b);
        assert forall|i: int| 0 <= i < a.drop_first().len() implies #[trigger] a.drop_first()[i]
            != '\n' by {
            assert(a.drop_first()[i] == a[i + 1]);
        }
        lemma_line_end_after(a.drop_first(), b);
    } else {
        assert(a + b =~= b);
    }
}

/// Spaces and tabs only.
pub open spec fn blanks(p: Seq<char>) -> bool {
    forall|i: int| 0 <= i < p.len() ==> #[trigger] p[i] == ' ' || p[i] == '\t'
}

/// The number on the first line is read whatever spaces and tabs surround
/// it, and nothing after the line feed is read: any `i64` written out,
/// padded on both sides, comes back, alone or followed by more lines.
pub proof fn law_first_number_padded(n: i64, p1: Seq<char>, p2: Seq<char>, rest: Seq<char>)
    requires
        blanks(p1),
        blanks(p2),
    ensures
        first_number_spec(p1 + signed_decimal(n as int) + p2) == Ok::<int, LoadError>(n as int),
        first_number_spec(p1 + signed_decimal(n as int) + p2 + seq!['\n'] + rest) == Ok::<
            int,
            LoadError,
        >(n as int),
{
    let dec = signed_decimal(n as int);
    let m: nat = if n < 0 { (-n) as nat } else { n as nat };
    lemma_decimal_digits(m);
    if n < 0 {
        assert(dec == seq!['-'] + decimal(m));
        assert(dec[0] == '-');
        assert(dec[dec.len() - 1] == decimal(m)[decimal(m).len() - 1]);
    } else {
        assert(dec == decimal(m));
        assert(is_digit(dec[0]));
    }
    assert(is_digit(dec[dec.len() - 1]));
    assert(!is_ws(dec[0]));
    assert(!is_ws(dec[dec.len() - 1]));
    let line = p1 + dec + p2;
    assert forall|i: int| 0 <= i < line.len() implies #[trigger] line[i] != '\n' by {
        if i < p1.len() {
            assert(line[i] == p1[i]);
        } else if i < p1.len() + dec.len() {
            assert(line[i] == dec[i - p1.len()]);
            if n < 0 && i > p1.len() {
                assert(dec[i - p1.len()] == decimal(m)[i - p1.len() - 1]);
            }
            if n < 0 && i > p1.len() {
                assert(is_digit(decimal(m)[i - p1.len() - 1]));
            }
            if n >= 0 {
                assert(is_digit(decimal(m)[i - p1.len()]));
            }
        } else {
            assert(line[i] == p2[i - p1.len() - dec.len()]);
        }
    }
    assert(line.last() != '\r') by {
        if p2.len() > 0 {
            assert(line.last() == p2[p2.len() - 1]);
        } else {
            assert(line.last() == dec[dec.len() - 1]);
        }
    }
    assert forall|i: int| 0 <= i < p1.len() implies #[trigger] is_ws(p1[i]) by {
        assert(p1[i] == ' ' || p1[i] == '\t');
    }
    assert forall|i: int| 0 <= i < p2.len() implies #[trigger] is_ws(p2[i]) by {
        assert(p2[i] == ' ' || p2[i] == '\t');
    }
    assert(line =~= p1 + (dec + p2));
    lemma_trim_start_pad(p1, dec + p2);
    assert((dec + p2)[0] == dec[0]);
    assert(trim_start(dec + p2) == dec + p2);
    lemma_trim_end_pad(dec, p2);
    assert(trim_end(dec) == dec);
    assert(trimmed(line) == dec);
    law_parse_i64_of_decimal(n);
    // Alone on its line.
    lemma_line_end_after(line, Seq::<char>::empty());
    assert(line + Seq::<char>::empty() =~= line);
    assert(line.take(line.len() as int) =~= line);
    assert(first_line(line) == line);
    // Followed by more lines.
    let text = line + seq!['\n'] + rest;
    assert(text =~= line + (seq!['\n'] + rest));
    lemma_line_end_after(line, seq!['\n'] + rest);
    assert(line_end(seq!['\n'] + rest) == 0);
    assert(text.take(line.len() as int) =~= line);
    assert(first_line(text) == line);
}

/// The number on the first line of `text`, surrounding whitespace ignored.
pub fn first_number(text: &str) -> (r: Result<i64, LoadError>)
    ensures
        match first_number_spec(text@) {
            Ok(v) => r == Ok::<i64, LoadError>(v as i64),
            Err(e) => r == Err::<i64, LoadError>(e),
        },
{
    let cs = chars_of(text);
    if cs.len() == 0 {
        return Err(LoadError::Empty);
    }
    let mut end: usize = 0;
    while end < cs.len() && cs[end] != '\n'
        invariant
            cs@ == text@,
            end <= cs.len(),
            forall|i: int| 0 <= i < end ==> cs@[i] != '\n',
        decreases cs.len() - end,
    {
        end = end + 1;
    }
    proof {
        lemma_line_end(text@);
        if line_end(text@) < end {
            assert(cs@[line_end(text@)] == '\n');
        }
        assert(end == line_end(text@));
    }
    let mut stop = end;
    if stop > 0 && cs[stop - 1] == '\r' {
        stop = stop - 1;
    }
    let line_chars = crate::text::slice_chars(cs.as_slice(), 0, stop);
    assert(line_chars@ =~= first_line(text@));
    let line = string_of(line_chars.as_slice());
    let t = trim(line.as_str());
    if t.is_empty() {
        return Err(LoadError::Empty);
    }
    match parse_i64(t) {
        Ok(v) => Ok(v),
        Err(e) => Err(LoadError::BadNumber(e)),
    }
}

/// Why `load_user` could not load a user.
#[derive(Debug, Clone, PartialEq, Eq)]
pub enum UserLoadError {
    /// The directory does not exist.
    NoSuchDir(String),
    /// The user id is not a number; the id and the parse failure.
    BadId(String, ParseIntError),
}

impl UserLoadError {
    /// The outermost message of the error.
    pub fn message(&self) -> (m: String)
        ensures
            self matches UserLoadError::NoSuchDir(d) ==> m@ == "no such dir: "@ + d@,
            self matches UserLoadError::BadId(_, e) ==> m@ == kind_message(e.kind),
    {
        match self {
            UserLoadError::NoSuchDir(d) => {
                let mut m = "no such dir: ".to_owned();
                push_str(&mut m, d.as_str());
                m
            },
            UserLoadError::BadId(_, e) => e.message(),
        }
    }
}

/// Loads a user: the `"missing"` directory does not exist; otherwise the id
/// must be a `u32`, and the loaded value is twice the id.
pub fn load_user(dir: &str, id: &str) -> (r: Result<u64, UserLoadError>)
    ensures
        dir@ == "missing"@ ==> (r matches Err(UserLoadError::NoSuchDir(d)) && d@ == dir@),
        dir@ != "missing"@ ==> match spec_parse_u32(id@) {
            Ok(v) => r == Ok::<u64, UserLoadError>((2 * v) as u64),
            Err(k) => r matches Err(UserLoadError::BadId(i, e)) && i@ == id@ && e == ParseIntError {
                kind: k,
            },
        },
{
    if str_eq(dir, "missing") {
        return Err(UserLoadError::NoSuchDir(dir.to_owned()));
    }
    match parse_u32(id) {
        Ok(v) => Ok(v as u64 * 2),
        Err(e) => Err(UserLoadError::BadId(id.to_owned(), e)),
    }
}

/// Sorts an error by the load error found in its chain, if any.
pub fn classify(found: Option<&LoadError>) -> (label: &'static str)
    ensures
        label@ == match found {
            Some(LoadError::Empty) => "empty"@,
            Some(LoadError::BadNumber(_)) => "load"@,
            _ => "other"@,
        },
{
    match found {
        Some(LoadError::Empty) => "empty",
        Some(LoadError::BadNumber(_)) => "load",
        _ => "other",
    }
}

/// A number did not fit the narrower integer type.
#[derive(Debug, Clone, Copy, PartialEq, Eq, Structural)]
pub struct NarrowError;

/// What a failed two-stage pipeline reports.
#[derive(Debug, Clone, PartialEq, Eq)]
pub enum PipelineError {
    StageA(ParseIntError),
    StageB(NarrowError),
    Legacy(String),
}

impl PipelineError {
    /// The message the error displays.
    pub fn message(&self) -> (m: String)
        ensures
            self matches PipelineError::StageA(e) ==> m@ == "stage a failed: "@ + kind_message(e.kind),
            self is StageB ==> m@ == "stage b failed: out of range integral type conversion attempted"@,
            self matches PipelineError::Legacy(t) ==> m@ == "legacy: "@ + t@,
    {
        match self {
            PipelineError::StageA(e) => {
                let mut m = "stage a failed: ".to_owned();
                let inner = e.message();
                push_str(&mut m, inner.as_str());
                m
            },
            PipelineError::StageB(_) => "stage b failed: out of range integral type conversion attempted".to_owned(),
            PipelineError::Legacy(t) => {
                let mut m = "legacy: ".to_owned();
                push_str(&mut m, t.as_str());
                m
            },
        }
    }
}

/// Stage one: parse an `i64`.
pub fn stage_a(s: &str) -> (r: Result<i64, ParseIntError>)
    ensures
        match spec_parse_i64(s@) {
            Ok(v) => r matches Ok(x) && x == v,
            Err(k) => r == Err::<i64, ParseIntError>(ParseIntError { kind: k }),
        },
{
    parse_i64(s)
}

/// Stage two: narrow to a `u8`.
pub fn stage_b(n: i64) -> (r: Result<u8, NarrowError>)
    ensures
        0 <= n <= 255 ==> r == Ok::<u8, NarrowError>(n as u8),
        !(0 <= n <= 255) ==> r == Err::<u8, NarrowError>(NarrowError),
{
    if 0 <= n && n <= 255 {
        Ok(n as u8)
    } else {
        Err(NarrowError)
    }
}

/// Parses and narrows, each stage's failure wrapped in the pipeline's error.
pub fn run_pipeline(s: &str) -> (r: Result<u8, PipelineError>)
    ensures
        match spec_parse_i64(s@) {
            Err(k) => r == Err::<u8, PipelineError>(PipelineError::StageA(ParseIntError { kind: k })),
            Ok(v) => if 0 <= v <= 255 {
                r == Ok::<u8, PipelineError>(v as u8)
            } else {
                r == Err::<u8, PipelineError>(PipelineError::StageB(NarrowError))
            },
        },
{
    let n = match stage_a(s) {
        Ok(n) => n,
        Err(e) => return Err(PipelineError::StageA(e)),
    };
    match stage_b(n) {
        Ok(v) => Ok(v),
        Err(e) => Err(PipelineError::StageB(e)),
    }
}

/// An old operation that reports failure as bare text.
pub fn legacy_op(ok: bool) -> (r: Result<i32, String>)
    ensures
        ok ==> r == Ok::<i32, String>(7),
        !ok ==> (r matches Err(t) && t@ == "legacy blew up"@),
{
    if ok {
        Ok(7)
    } else {
        Err("legacy blew up".to_owned())
    }
}

/// Runs the old operation and gives its text error a type.
pub fn adapt_legacy(ok: bool) -> (r: Result<i32, PipelineError>)
    ensures
        ok ==> r == Ok::<i32, PipelineError>(7),
        !ok ==> (r matches Err(PipelineError::Legacy(t)) && t@ == "legacy blew up"@),
{
    match legacy_op(ok) {
        Ok(v) => Ok(v),
        Err(t) => Err(PipelineError::Legacy(t)),
    }
}

/// Failures of a remote call, sorted by how a caller should react.
#[derive(Debug, Clone, PartialEq, Eq)]
pub enum ApiError {
    RateLimited { retry_after_secs: u64 },
    Timeout,
    ServiceUnavailable,
    NotFound { resource: String },
    Unauthorized,
}

/// Whether trying again may help.
pub open spec fn retryable(e: ApiError) -> bool {
    e is RateLimited || e is Timeout || e is ServiceUnavailable
}

impl ApiError {
    /// Whether trying again may help.
    pub fn is_retryable(&self) -> (b: bool)
        ensures
            b == retryable(*self),
    {
        match self {
            ApiError::RateLimited { .. } | ApiError::Timeout | ApiError::ServiceUnavailable => true,
            ApiError::NotFound { .. } | ApiError::Unauthorized => false,
        }
    }

    /// How long the server asked to wait, if it said.
    pub fn retry_after(&self) -> (r: Option<u64>)
        ensures
            self matches ApiError::RateLimited { retry_after_secs } ==> r == Some(*retry_after_secs),
            !(self is RateLimited) ==> r is None,
    {
        match self {
            ApiError::RateLimited { retry_after_secs } => Some(*retry_after_secs),
            _ => None,
        }
    }

    /// The message the error displays.
    pub fn message(&self) -> (m: String)
        ensures
            self matches ApiError::RateLimited { retry_after_secs } ==> m@ == "rate limited, retry after "@
                + decimal(retry_after_secs as nat) + "s"@,
            self is Timeout ==> m@ == "request timed out"@,
            self is ServiceUnavailable ==> m@ == "service unavailable"@,
            self matches ApiError::NotFound { resource } ==> m@ == "not found: "@ + resource@,
            self is Unauthorized ==> m@ == "unauthorized"@,
    {
        match self {
            ApiError::RateLimited { retry_after_secs } => {
                let mut m = "rate limited, retry after ".to_owned();
                let n = format_u64(*retry_after_secs);
                push_str(&mut m, n.as_str());
                push_str(&mut m, "s");
                m
            },
            ApiError::Timeout => "request timed out".to_owned(),
            ApiError::ServiceUnavailable => "service unavailable".to_owned(),
            ApiError::NotFound { resource } => {
                let mut m = "not found: ".to_owned();
                push_str(&mut m, resource.as_str());
                m
            },
            ApiError::Unauthorized => "unauthorized".to_owned(),
        }
    }
}

/// How long the server asked to wait before a retry, if it said.
pub open spec fn wait_hint(e: ApiError) -> Option<u64> {
    match e {
        ApiError::RateLimited { retry_after_secs } => Some(retry_after_secs),
        _ => None,
    }
}

/// What a retry loop does after one attempt.
pub enum RetryAction<T> {
    /// Stop and hand back this result.
    Finish(Result<T, ApiError>),
    /// Call again, after waiting this many seconds if the server asked.
    Retry { wait_secs: Option<u64> },
}

/// The decision a retry loop takes after attempt number `attempt` (counting
/// from zero) of at most `max_attempts` came back with `outcome`.
pub fn retry_step<T>(attempt: u32, max_attempts: u32, outcome: Result<T, ApiError>) -> (action: RetryAction<T>)
    requires
        attempt < max_attempts,
    ensures
        outcome is Ok ==> action == RetryAction::Finish(outcome),
        outcome matches Err(e) && (!retryable(e) || attempt + 1 == max_attempts) ==> action
            == RetryAction::Finish(outcome),
        outcome is Err && retryable(outcome->Err_0) && attempt + 1 < max_attempts ==> action
            == (RetryAction::<T>::Retry { wait_secs: wait_hint(outcome->Err_0) }),
{
    match outcome {
        Ok(v) => RetryAction::Finish(Ok(v)),
        Err(e) => {
            if !e.is_retryable() || attempt + 1 == max_attempts {
                RetryAction::Finish(Err(e))
            } else {
                let wait = e.retry_after();
                RetryAction::Retry { wait_secs: wait }
            }
        },
    }
}

/// The result of a retry loop allowed no attempts at all.
pub fn no_attempts_result<T>() -> (r: Result<T, ApiError>)
    ensures
        r == Err::<T, ApiError>(ApiError::ServiceUnavailable),
{
    Err(ApiError::ServiceUnavailable)
}

} // verus!
