//! Decimal integer parsing with the acceptance rules and error kinds of the
//! standard `FromStr` implementations for the primitive integer types.
use vstd::prelude::*;
use crate::text::{
    is_digit, digit_value, chars_of, is_ascii_digit, decimal, digit_char, signed_decimal,
};

verus! {

/// Why a string is not a decimal integer of the requested type.
#[derive(Debug, Clone, Copy, PartialEq, Eq, Structural)]
pub enum IntErrorKind {
    Empty,
    InvalidDigit,
    PosOverflow,
    NegOverflow,
}

/// The error of a failed integer parse.
#[derive(Debug, Clone, Copy, PartialEq, Eq, Structural)]
pub struct ParseIntError {
    pub kind: IntErrorKind,
}

/// The text that describes each kind of failure.
pub open spec fn kind_message(kind: IntErrorKind) -> Seq<char> {
    match kind {
        IntErrorKind::Empty => "cannot parse integer from empty string"@,
        IntErrorKind::InvalidDigit => "invalid digit found in string"@,
        IntErrorKind::PosOverflow => "number too large to fit in target type"@,
        IntErrorKind::NegOverflow => "number too small to fit in target type"@,
    }
}

impl ParseIntError {
    pub fn kind(&self) -> (k: IntErrorKind)
        ensures
            k == self.kind,
    {
        self.kind
    }

    /// The human-readable description of this error.
    pub fn message(&self) -> (m: String)
        ensures
            m@ == kind_message(self.kind),
    {
        match self.kind {
            IntErrorKind::Empty => "cannot parse integer from empty string".to_owned(),
            IntErrorKind::InvalidDigit => "invalid digit found in string".to_owned(),
            IntErrorKind::PosOverflow => "number too large to fit in target type".to_owned(),
            IntErrorKind::NegOverflow => "number too small to fit in target type".to_owned(),
        }
    }
}

/// Scans digits left to right from the running value `acc`, failing at the
/// first non-digit or as soon as the running value exceeds `limit`.
pub open spec fn scan_digits(d: Seq<char>, acc: nat, limit: nat, over: IntErrorKind) -> Result<
    nat,
    IntErrorKind,
>
    decreases d.len(),
{
    if d.len() == 0 {
        Ok(acc)
    } else if !is_digit(d[0]) {
        Err(IntErrorKind::InvalidDigit)
    } else {
        let v = acc * 10 + digit_value(d[0]);
        if v > limit {
            Err(over)
        } else {
            scan_digits(d.drop_first(), v, limit, over)
        }
    }
}

/// Decimal parse of `s` into an integer type whose values are
/// `-neg_limit ..= pos_limit`; `signed` says whether a leading `-` is a sign.
pub open spec fn parse_int_spec(s: Seq<char>, signed: bool, pos_limit: nat, neg_limit: nat) -> Result<
    int,
    IntErrorKind,
> {
    if s.len() == 0 {
        Err(IntErrorKind::Empty)
    } else if (s[0] == '+' || s[0] == '-') && s.len() == 1 {
        Err(IntErrorKind::InvalidDigit)
    } else if s[0] == '+' {
        match scan_digits(s.drop_first(), 0, pos_limit, IntErrorKind::PosOverflow) {
            Ok(v) => Ok(v as int),
            Err(e) => Err(e),
        }
    } else if s[0] == '-' && signed {
        match scan_digits(s.drop_first(), 0, neg_limit, IntErrorKind::NegOverflow) {
            Ok(v) => Ok(-(v as int)),
            Err(e) => Err(e),
        }
    } else {
        match scan_digits(s, 0, pos_limit, IntErrorKind::PosOverflow) {
            Ok(v) => Ok(v as int),
            Err(e) => Err(e),
        }
    }
}

/// A successful scan never exceeds its limit.
pub proof fn lemma_scan_bounded(d: Seq<char>, acc: nat, limit: nat, over: IntErrorKind)
    requires
        acc <= limit,
    ensures
        scan_digits(d, acc, limit, over) matches Ok(v) ==> v <= limit,
    decreases d.len(),
{
    if d.len() > 0 && is_digit(d[0]) {
        let v = acc * 10 + digit_value(d[0]);
        if v <= limit {
            lemma_scan_bounded(d.drop_first(), v, limit, over);
        }
    }
}

/// Runs `scan_digits` over `cs[from..]`.
fn scan_exec(cs: &[char], from: usize, limit: u64, over: IntErrorKind) -> (r: Result<u64, IntErrorKind>)
    requires
        from <= cs.len(),
    ensures
        match scan_digits(cs@.skip(from as int), 0, limit as nat, over) {
            Ok(v) => r == Ok::<u64, IntErrorKind>(v as u64) && v <= limit,
            Err(e) => r == Err::<u64, IntErrorKind>(e),
        },
{
    let mut acc: u64 = 0;
    let mut i = from;
    proof {
        lemma_scan_bounded(cs@.skip(from as int), 0, limit as nat, over);
    }
    while i < cs.len()
        invariant
            from <= i <= cs.len(),
            acc <= limit,
            scan_digits(cs@.skip(from as int), 0, limit as nat, over) == scan_digits(
                cs@.skip(i as int),
                acc as nat,
                limit as nat,
                over,
            ),
        decreases cs.len() - i,
    {
        let c = cs[i];
        assert(cs@.skip(i as int)[0] == c);
        assert(cs@.skip(i as int).drop_first() =~= cs@.skip(i + 1));
        if !is_ascii_digit(c) {
            return Err(IntErrorKind::InvalidDigit);
        }
        let d = (c as u32 - '0' as u32) as u64;
        let v: u128 = (acc as u128) * 10 + (d as u128);
        if v > limit as u128 {
            return Err(over);
        }
        acc = v as u64;
        i = i + 1;
    }
    assert(cs@.skip(i as int).len() == 0);
    Ok(acc)
}

/// The sign and magnitude that `parse_int_spec` accepts, or its error.
pub fn parse_decimal(s: &str, signed: bool, pos_limit: u64, neg_limit: u64) -> (r: Result<
    (bool, u64),
    IntErrorKind,
>)
    ensures
        match parse_int_spec(s@, signed, pos_limit as nat, neg_limit as nat) {
            Ok(v) => r matches Ok((neg, m)) && v == (if neg {
                -(m as int)
            } else {
                m as int
            }) && (neg ==> m <= neg_limit) && (!neg ==> m <= pos_limit),
            Err(e) => r == Err::<(bool, u64), IntErrorKind>(e),
        },
{
    let cs = chars_of(s);
    let n = cs.len();
    if n == 0 {
        return Err(IntErrorKind::Empty);
    }
    let c0 = cs[0];
    if (c0 == '+' || c0 == '-') && n == 1 {
        return Err(IntErrorKind::InvalidDigit);
    }
    assert(cs@.skip(1) =~= s@.drop_first());
    assert(cs@.skip(0) =~= s@);
    if c0 == '+' {
        match scan_exec(cs.as_slice(), 1, pos_limit, IntErrorKind::PosOverflow) {
            Ok(m) => Ok((false, m)),
            Err(e) => Err(e),
        }
    } else if c0 == '-' && signed {
        match scan_exec(cs.as_slice(), 1, neg_limit, IntErrorKind::NegOverflow) {
            Ok(m) => Ok((true, m)),
            Err(e) => Err(e),
        }
    } else {
        match scan_exec(cs.as_slice(), 0, pos_limit, IntErrorKind::PosOverflow) {
            Ok(m) => Ok((false, m)),
            Err(e) => Err(e),
        }
    }
}

/// `str::parse::<u8>`.
pub open spec fn spec_parse_u8(s: Seq<char>) -> Result<int, IntErrorKind> {
    parse_int_spec(s, false, 255, 0)
}

/// `str::parse::<u16>`.
pub open spec fn spec_parse_u16(s: Seq<char>) -> Result<int, IntErrorKind> {
    parse_int_spec(s, false, 65535, 0)
}

/// `str::parse::<u32>`.
pub open spec fn spec_parse_u32(s: Seq<char>) -> Result<int, IntErrorKind> {
    parse_int_spec(s, false, 0xffff_ffff, 0)
}

/// `str::parse::<u64>`.
pub open spec fn spec_parse_u64(s: Seq<char>) -> Result<int, IntErrorKind> {
    parse_int_spec(s, false, 0xffff_ffff_ffff_ffff, 0)
}

/// `str::parse::<i32>`.
pub open spec fn spec_parse_i32(s: Seq<char>) -> Result<int, IntErrorKind> {
    parse_int_spec(s, true, 0x7fff_ffff, 0x8000_0000)
}

/// `str::parse::<i64>`.
pub open spec fn spec_parse_i64(s: Seq<char>) -> Result<int, IntErrorKind> {
    parse_int_spec(s, true, 0x7fff_ffff_ffff_ffff, 0x8000_0000_0000_0000)
}

/// How a typed parse result relates to the spec result.
pub open spec fn parse_matches<T>(r: Result<T, ParseIntError>, spec: Result<int, IntErrorKind>, val: spec_fn(T) -> int) -> bool {
    match spec {
        Ok(v) => r is Ok && val(r->Ok_0) == v,
        Err(k) => r == Err::<T, ParseIntError>(ParseIntError { kind: k }),
    }
}

/// Parses a decimal `u8`.
pub fn parse_u8(s: &str) -> (r: Result<u8, ParseIntError>)
    ensures
        parse_matches(r, spec_parse_u8(s@), |x: u8| x as int),
{
    match parse_decimal(s, false, 255, 0) {
        Ok((_, m)) => Ok(m as u8),
        Err(k) => Err(ParseIntError { kind: k }),
    }
}

/// Parses a decimal `u16`.
pub fn parse_u16(s: &str) -> (r: Result<u16, ParseIntError>)
    ensures
        parse_matches(r, spec_parse_u16(s@), |x: u16| x as int),
{
    match parse_decimal(s, false, 65535, 0) {
        Ok((_, m)) => Ok(m as u16),
        Err(k) => Err(ParseIntError { kind: k }),
    }
}

/// Parses a decimal `u32`.
pub fn parse_u32(s: &str) -> (r: Result<u32, ParseIntError>)
    ensures
        parse_matches(r, spec_parse_u32(s@), |x: u32| x as int),
{
    match parse_decimal(s, false, 0xffff_ffff, 0) {
        Ok((_, m)) => Ok(m as u32),
        Err(k) => Err(ParseIntError { kind: k }),
    }
}

/// Parses a decimal `u64`.
pub fn parse_u64(s: &str) -> (r: Result<u64, ParseIntError>)
    ensures
        parse_matches(r, spec_parse_u64(s@), |x: u64| x as int),
{
    match parse_decimal(s, false, 0xffff_ffff_ffff_ffff, 0) {
        Ok((_, m)) => Ok(m),
        Err(k) => Err(ParseIntError { kind: k }),
    }
}

/// Parses a decimal `i32`.
pub fn parse_i32(s: &str) -> (r: Result<i32, ParseIntError>)
    ensures
        parse_matches(r, spec_parse_i32(s@), |x: i32| x as int),
{
    match parse_decimal(s, true, 0x7fff_ffff, 0x8000_0000) {
        Ok((neg, m)) => {
            if neg {
                Ok((0i64 - m as i64) as i32)
            } else {
                Ok(m as i32)
            }
        },
        Err(k) => Err(ParseIntError { kind: k }),
    }
}

/// Parses a decimal `i64`.
pub fn parse_i64(s: &str) -> (r: Result<i64, ParseIntError>)
    ensures
        parse_matches(r, spec_parse_i64(s@), |x: i64| x as int),
{
    match parse_decimal(s, true, 0x7fff_ffff_ffff_ffff, 0x8000_0000_0000_0000) {
        Ok((neg, m)) => {
            if neg {
                Ok((0i128 - m as i128) as i64)
            } else {
                Ok(m as i64)
            }
        },
        Err(k) => Err(ParseIntError { kind: k }),
    }
}

/// Scanning one more character continues from where the shorter scan ended.
proof fn lemma_scan_push(s: Seq<char>, c: char, acc: nat, limit: nat, over: IntErrorKind)
    ensures
        scan_digits(s.push(c), acc, limit, over) == match scan_digits(s, acc, limit, over) {
            Ok(v) => if !is_digit(c) {
                Err(IntErrorKind::InvalidDigit)
            } else if v * 10 + digit_value(c) > limit {
                Err(over)
            } else {
                Ok((v * 10 + digit_value(c)) as nat)
            },
            Err(e) => Err(e),
        },
    decreases s.len(),
{
    reveal_with_fuel(scan_digits, 2);
    if s.len() == 0 {
        assert(s.push(c).drop_first() =~= Seq::<char>::empty());
    } else {
        assert(s.push(c)[0] == s[0]);
        assert(s.push(c).drop_first() =~= s.drop_first().push(c));
        if is_digit(s[0]) {
            let v = acc * 10 + digit_value(s[0]);
            if v <= limit {
                lemma_scan_push(s.drop_first(), c, v, limit, over);
            }
        }
    }
}

/// Every character of `decimal(n)` is a digit, and there is at least one.
pub proof fn lemma_decimal_digits(n: nat)
    ensures
        decimal(n).len() >= 1,
        forall|i: int| 0 <= i < decimal(n).len() ==> #[trigger] is_digit(decimal(n)[i]),
    decreases n,
{
    if n >= 10 {
        lemma_decimal_digits(n / 10);
        assert(is_digit(digit_char(n % 10)));
        assert forall|i: int| 0 <= i < decimal(n).len() implies #[trigger] is_digit(decimal(n)[i]) by {
            if i < decimal(n / 10).len() {
                assert(decimal(n)[i] == decimal(n / 10)[i]);
            }
        }
    } else {
        assert(is_digit(digit_char(n)));
    }
}

/// Scanning the decimal form of `n` gives `n` back while `n` is within the limit.
proof fn lemma_scan_decimal(n: nat, limit: nat, over: IntErrorKind)
    requires
        n <= limit,
    ensures
        scan_digits(decimal(n), 0, limit, over) == Ok::<nat, IntErrorKind>(n),
    decreases n,
{
    if n < 10 {
        reveal_with_fuel(scan_digits, 2);
        let c = digit_char(n);
        assert(is_digit(c) && digit_value(c) == n);
        assert(decimal(n) == seq![c]);
        assert(decimal(n).drop_first() =~= Seq::<char>::empty());
    } else {
        lemma_scan_decimal(n / 10, limit, over);
        let c = digit_char(n % 10);
        assert(is_digit(c) && digit_value(c) == n % 10);
        lemma_scan_push(decimal(n / 10), c, 0, limit, over);
    }
}

/// Parsing what `u16`'s decimal formatting writes gives the number back.
pub proof fn law_parse_u16_of_decimal(n: u16)
    ensures
        spec_parse_u16(decimal(n as nat)) == Ok::<int, IntErrorKind>(n as int),
{
    lemma_decimal_digits(n as nat);
    lemma_scan_decimal(n as nat, 65535, IntErrorKind::PosOverflow);
    assert(is_digit(decimal(n as nat)[0]));
}

/// Parsing the decimal form of any value in `-neg_limit ..= pos_limit` (with
/// a sign only where the type is signed) gives the value back.
pub proof fn lemma_parse_of_decimal(n: int, signed: bool, pos_limit: nat, neg_limit: nat)
    requires
        n <= pos_limit,
        signed ==> -neg_limit <= n,
        !signed ==> 0 <= n,
    ensures
        parse_int_spec(signed_decimal(n), signed, pos_limit, neg_limit) == Ok::<
            int,
            IntErrorKind,
        >(n),
{
    if n < 0 {
        let m = (-n) as nat;
        let s = signed_decimal(n);
        lemma_decimal_digits(m);
        lemma_scan_decimal(m, neg_limit, IntErrorKind::NegOverflow);
        assert(s == seq!['-'] + decimal(m));
        assert(s[0] == '-');
        assert(s.drop_first() =~= decimal(m));
    } else {
        let m = n as nat;
        lemma_decimal_digits(m);
        lemma_scan_decimal(m, pos_limit, IntErrorKind::PosOverflow);
        assert(is_digit(decimal(m)[0]));
    }
}

/// Every `i64` comes back from its decimal form, `-9223372036854775808`
/// and `9223372036854775807` included.
pub proof fn law_parse_i64_of_decimal(n: i64)
    ensures
        spec_parse_i64(signed_decimal(n as int)) == Ok::<int, IntErrorKind>(n as int),
{
    lemma_parse_of_decimal(n as int, true, 0x7fff_ffff_ffff_ffff, 0x8000_0000_0000_0000);
}

/// Every `i32` comes back from its decimal form.
pub proof fn law_parse_i32_of_decimal(n: i32)
    ensures
        spec_parse_i32(signed_decimal(n as int)) == Ok::<int, IntErrorKind>(n as int),
{
    lemma_parse_of_decimal(n as int, true, 0x7fff_ffff, 0x8000_0000);
}

/// Every `u8` comes back from its decimal form.
pub proof fn law_parse_u8_of_decimal(n: u8)
    ensures
        spec_parse_u8(decimal(n as nat)) == Ok::<int, IntErrorKind>(n as int),
{
    lemma_parse_of_decimal(n as int, false, 255, 0);
}

/// Every `u32` comes back from its decimal form.
pub proof fn law_parse_u32_of_decimal(n: u32)
    ensures
        spec_parse_u32(decimal(n as nat)) == Ok::<int, IntErrorKind>(n as int),
{
    lemma_parse_of_decimal(n as int, false, 0xffff_ffff, 0);
}

/// Every `u64` comes back from its decimal form.
pub proof fn law_parse_u64_of_decimal(n: u64)
    ensures
        spec_parse_u64(decimal(n as nat)) == Ok::<int, IntErrorKind>(n as int),
{
    lemma_parse_of_decimal(n as int, false, 0xffff_ffff_ffff_ffff, 0);
}

/// One past the largest `i64` is refused as too large, one below the
/// smallest as too small.
pub proof fn law_parse_i64_bounds()
    ensures
        spec_parse_i64(decimal(0x8000_0000_0000_0000nat)) == Err::<int, IntErrorKind>(
            IntErrorKind::PosOverflow,
        ),
        spec_parse_i64(signed_decimal(-0x8000_0000_0000_0001int)) == Err::<int, IntErrorKind>(
            IntErrorKind::NegOverflow,
        ),
{
    lemma_scan_over(0x8000_0000_0000_0000nat, 0x7fff_ffff_ffff_ffff, IntErrorKind::PosOverflow);
    lemma_scan_over(0x8000_0000_0000_0001nat, 0x8000_0000_0000_0000, IntErrorKind::NegOverflow);
    lemma_decimal_digits(0x8000_0000_0000_0000nat);
    lemma_decimal_digits(0x8000_0000_0000_0001nat);
    assert(is_digit(decimal(0x8000_0000_0000_0000nat)[0]));
    let s = signed_decimal(-0x8000_0000_0000_0001int);
    assert(s == seq!['-'] + decimal(0x8000_0000_0000_0001nat));
    assert(s.drop_first() =~= decimal(0x8000_0000_0000_0001nat));
}

/// Scanning the decimal form of a number above the limit overflows.
proof fn lemma_scan_over(n: nat, limit: nat, over: IntErrorKind)
    requires
        n > limit,
    ensures
        scan_digits(decimal(n), 0, limit, over) == Err::<nat, IntErrorKind>(over),
    decreases n,
{
    if n < 10 {
        reveal_with_fuel(scan_digits, 2);
        let c = digit_char(n);
        assert(is_digit(c) && digit_value(c) == n);
        assert(decimal(n) == seq![c]);
    } else {
        let c = digit_char(n % 10);
        assert(is_digit(c) && digit_value(c) == n % 10);
        lemma_scan_push(decimal(n / 10), c, 0, limit, over);
        if n / 10 <= limit {
            lemma_scan_decimal(n / 10, limit, over);
        } else {
            lemma_scan_over(n / 10, limit, over);
        }
    }
}

} // verus!
