//! Borrowing text processors: pieces cut from an input, a decoder that
//! sums comma-separated numbers, a chain of trimming and cutting steps, and
//! a small parser for `key=number` text.
use vstd::prelude::*;
use crate::numparse::{parse_u32, parse_u64, spec_parse_u32, spec_parse_u64};
use crate::text::{chars_of, string_of, slice_chars, find_char, first_index, lemma_first_index, is_digit, is_ascii_digit, starts_with};
use crate::testing_lab::{trim, trimmed};

verus! {

/// The text of `s` before the first `sep` (all of `s` if there is none):
/// the first item `str::split` yields.
pub open spec fn first_piece(s: Seq<char>, sep: char) -> Seq<char> {
    s.take(first_index(s, sep))
}

/// The first item of `s.split(sep)`.
pub fn first_piece_of(s: &str, sep: char) -> (r: String)
    ensures
        r@ == first_piece(s@, sep),
{
    let cs = chars_of(s);
    proof {
        lemma_first_index(s@, sep);
    }
    let end = match find_char(cs.as_slice(), sep) {
        Some(i) => i,
        None => cs.len(),
    };
    let piece = slice_chars(cs.as_slice(), 0, end);
    assert(piece@ =~= first_piece(s@, sep));
    string_of(piece.as_slice())
}

/// Cuts out the first word, the text before the first space.
pub struct FirstWord;

impl FirstWord {
    pub fn slice(&self, input: &str) -> (r: String)
        ensures
            r@ == first_piece(input@, ' '),
    {
        first_piece_of(input, ' ')
    }
}

/// The items of `s.split(sep)`: the texts between separators, empty ones
/// included.
pub open spec fn split_on(s: Seq<char>, sep: char) -> Seq<Seq<char>>
    decreases s.len(),
{
    if first_index(s, sep) >= s.len() {
        seq![s]
    } else {
        proof {
            lemma_first_index(s, sep);
        }
        seq![s.take(first_index(s, sep))] + split_on(s.skip(first_index(s, sep) + 1), sep)
    }
}

/// The sum of the `u32` values of `parts`, or nothing if one is not a
/// `u32`.
pub open spec fn parts_sum(parts: Seq<Seq<char>>) -> Option<int>
    decreases parts.len(),
{
    if parts.len() == 0 {
        Some(0)
    } else {
        match spec_parse_u32(parts.last()) {
            Ok(v) => match parts_sum(parts.drop_last()) {
                Some(t) => Some(t + v),
                None => None,
            },
            Err(_) => None,
        }
    }
}

/// Whether every running total of the values parsed so far fits in a `u32`.
pub open spec fn running_fits(parts: Seq<Seq<char>>) -> bool {
    forall|k: int| 0 <= k <= parts.len() ==> (#[trigger] parts_sum(parts.take(k)) matches Some(t) ==> t <= u32::MAX)
}

/// A record decoded into owned data: the sum of its numbers.
pub struct Owned {
    pub sum: u32,
}

/// The pieces of `cs` between `sep`s, as owned strings.
fn split_pieces(cs: &[char], sep: char) -> (out: Vec<String>)
    ensures
        out@.map_values(|p: String| p@) == split_on(cs@, sep),
    decreases cs.len(),
{
    proof {
        lemma_first_index(cs@, sep);
    }
    match find_char(cs, sep) {
        None => {
            let mut out: Vec<String> = Vec::new();
            out.push(string_of(cs));
            assert(out@.map_values(|p: String| p@) =~= split_on(cs@, sep));
            out
        },
        Some(i) => {
            let head = slice_chars(cs, 0, i);
            let tail = slice_chars(cs, i + 1, cs.len());
            assert(tail@ =~= cs@.skip(i + 1));
            let rest = split_pieces(tail.as_slice(), sep);
            let mut out: Vec<String> = Vec::new();
            out.push(string_of(head.as_slice()));
            let mut k: usize = 0;
            let ghost rv = rest@.map_values(|p: String| p@);
            while k < rest.len()
                invariant
                    k <= rest@.len(),
                    rv == rest@.map_values(|p: String| p@),
                    out@.len() == k + 1,
                    out@[0]@ == head@,
                    forall|t: int| 0 <= t < k ==> #[trigger] out@[t + 1]@ == rv[t],
                decreases rest@.len() - k,
            {
                out.push(rest[k].clone());
                k = k + 1;
            }
            assert(head@ =~= cs@.take(i as int));
            let ghost ov = out@.map_values(|p: String| p@);
            assert forall|t: int| 0 <= t < ov.len() implies #[trigger] ov[t] == (seq![
                cs@.take(i as int),
            ] + rv)[t] by {
                if t > 0 {
                    assert(out@[(t - 1) + 1]@ == rv[t - 1]);
                }
            }
            assert(ov =~= seq![cs@.take(i as int)] + rv);
            out
        },
    }
}

impl Owned {
    /// Sums the comma-separated `u32` numbers of `input`; nothing if one of
    /// them is not a number.
    pub fn decode(input: &str) -> (r: Option<Owned>)
        requires
            running_fits(split_on(input@, ',')),
        ensures
            match parts_sum(split_on(input@, ',')) {
                Some(t) => r matches Some(o) && o.sum == t,
                None => r is None,
            },
    {
        let cs = chars_of(input);
        let parts = split_pieces(cs.as_slice(), ',');
        let ghost pv = parts@.map_values(|p: String| p@);
        let mut sum: u32 = 0;
        let mut k: usize = 0;
        assert(pv.take(0) =~= Seq::<Seq<char>>::empty());
        while k < parts.len()
            invariant
                k <= parts@.len(),
                pv == parts@.map_values(|p: String| p@),
                pv == split_on(input@, ','),
                running_fits(pv),
                parts_sum(pv.take(k as int)) == Some(sum as int),
            decreases parts@.len() - k,
        {
            assert(pv.take(k + 1).drop_last() =~= pv.take(k as int));
            assert(pv.take(k + 1).last() == parts@[k as int]@);
            match parse_u32(parts[k].as_str()) {
                Ok(v) => {
                    assert(parts_sum(pv.take(k + 1)) matches Some(t) && t <= u32::MAX);
                    sum = sum + v;
                },
                Err(_) => {
                    proof {
                        lemma_none_sticks(pv, k as int + 1);
                    }
                    return None;
                },
            }
            k = k + 1;
        }
        assert(pv.take(parts@.len() as int) =~= pv);
        Some(Owned { sum })
    }
}

proof fn lemma_none_sticks(parts: Seq<Seq<char>>, k: int)
    requires
        0 <= k <= parts.len(),
        parts_sum(parts.take(k)) is None,
    ensures
        parts_sum(parts) is None,
    decreases parts.len() - k,
{
    if k < parts.len() {
        assert(parts.take(k + 1).drop_last() =~= parts.take(k));
        lemma_none_sticks(parts, k + 1);
    } else {
        assert(parts.take(k) =~= parts);
    }
}

/// A record decoded by borrowing: its first comma-separated field.
pub struct Borrowed {
    pub first: String,
}

impl Borrowed {
    /// The text before the first comma; there always is such a field.
    pub fn decode(input: &str) -> (r: Option<Borrowed>)
        ensures
            r matches Some(b) && b.first@ == first_piece(input@, ','),
    {
        Some(Borrowed { first: first_piece_of(input, ',') })
    }
}

/// One step of a text pipeline.
#[derive(Debug, Clone, Copy, PartialEq, Eq, Structural)]
pub enum StrStep {
    /// Remove surrounding whitespace.
    Trim,
    /// Keep the text before the first occurrence of the separator.
    FirstPiece(char),
}

/// What a step makes of `s`.
pub open spec fn step_result(step: StrStep, s: Seq<char>) -> Seq<char> {
    match step {
        StrStep::Trim => trimmed(s),
        StrStep::FirstPiece(c) => first_piece(s, c),
    }
}

/// Runs `s` through `steps`, first to last.
pub open spec fn run_steps(steps: Seq<StrStep>, s: Seq<char>) -> Seq<char>
    decreases steps.len(),
{
    if steps.len() == 0 {
        s
    } else {
        step_result(steps.last(), run_steps(steps.drop_last(), s))
    }
}

/// A pipeline runs its steps in the order they were added: an empty one
/// hands back its input, a single step works on the input itself, and a step
/// added last works on what all the earlier steps made.
pub proof fn law_pipeline_order(steps: Seq<StrStep>, step: StrStep, s: Seq<char>)
    ensures
        run_steps(Seq::<StrStep>::empty(), s) == s,
        run_steps(seq![step], s) == step_result(step, s),
        run_steps(steps.push(step), s) == step_result(step, run_steps(steps, s)),
{
    assert(seq![step].drop_last() =~= Seq::<StrStep>::empty());
    assert(steps.push(step).drop_last() =~= steps);
}

/// Running `a` and then `b` is running the steps of `a` followed by those
/// of `b`.
pub proof fn law_pipeline_concat(a: Seq<StrStep>, b: Seq<StrStep>, s: Seq<char>)
    ensures
        run_steps(a + b, s) == run_steps(b, run_steps(a, s)),
    decreases b.len(),
{
    if b.len() == 0 {
        assert(a + b =~= a);
    } else {
        law_pipeline_concat(a, b.drop_last(), s);
        assert((a + b).drop_last() =~= a + b.drop_last());
        assert((a + b).last() == b.last());
    }
}

/// A chain of text steps applied in order.
pub struct StrPipeline {
    pub steps: Vec<StrStep>,
}

impl StrPipeline {
    pub fn new() -> (p: Self)
        ensures
            p.steps@ == Seq::<StrStep>::empty(),
    {
        StrPipeline { steps: Vec::new() }
    }

    /// The pipeline with `step` added at the end.
    pub fn add(self, step: StrStep) -> (p: Self)
        ensures
            p.steps@ == self.steps@.push(step),
    {
        let mut steps = self.steps;
        steps.push(step);
        StrPipeline { steps }
    }

    /// Runs `input` through every step.
    pub fn run(&self, input: &str) -> (r: String)
        ensures
            r@ == run_steps(self.steps@, input@),
    {
        let mut cur = input.to_owned();
        let mut k: usize = 0;
        assert(self.steps@.take(0) =~= Seq::<StrStep>::empty());
        while k < self.steps.len()
            invariant
                k <= self.steps@.len(),
                cur@ == run_steps(self.steps@.take(k as int), input@),
            decreases self.steps@.len() - k,
        {
            assert(self.steps@.take(k + 1).drop_last() =~= self.steps@.take(k as int));
            let next = match self.steps[k] {
                StrStep::Trim => trim(cur.as_str()).to_owned(),
                StrStep::FirstPiece(c) => first_piece_of(cur.as_str(), c),
            };
            cur = next;
            k = k + 1;
        }
        assert(self.steps@.take(self.steps@.len() as int) =~= self.steps@);
        cur
    }
}

/// Matches the literal `prefix`: the rest of the input and the prefix, or
/// nothing.
pub fn tag(input: &str, prefix: &str) -> (r: Option<(String, String)>)
    ensures
        starts_with(input@, prefix@) ==> (r matches Some((rest, t)) && rest@ == input@.skip(
            prefix@.len() as int,
        ) && t@ == prefix@),
        !starts_with(input@, prefix@) ==> r is None,
{
    let cs = chars_of(input);
    let ps = chars_of(prefix);
    if ps.len() > cs.len() {
        return None;
    }
    let head = slice_chars(cs.as_slice(), 0, ps.len());
    if !crate::text::chars_eq(head.as_slice(), ps.as_slice()) {
        assert(head@ =~= input@.take(prefix@.len() as int));
        return None;
    }
    assert(head@ =~= input@.take(prefix@.len() as int));
    let rest = slice_chars(cs.as_slice(), ps.len(), cs.len());
    assert(rest@ =~= input@.skip(prefix@.len() as int));
    Some((string_of(rest.as_slice()), prefix.to_owned()))
}

/// How many leading characters of `s` are ASCII digits.
pub open spec fn digit_run(s: Seq<char>) -> int
    decreases s.len(),
{
    if s.len() == 0 || !is_digit(s[0]) {
        0
    } else {
        1 + digit_run(s.drop_first())
    }
}

proof fn lemma_digit_run(s: Seq<char>)
    ensures
        0 <= digit_run(s) <= s.len(),
        forall|i: int| 0 <= i < digit_run(s) ==> is_digit(#[trigger] s[i]),
        digit_run(s) < s.len() ==> !is_digit(s[digit_run(s)]),
    decreases s.len(),
{
    if s.len() > 0 && is_digit(s[0]) {
        lemma_digit_run(s.drop_first());
        assert forall|i: int| 0 <= i < digit_run(s) implies is_digit(#[trigger] s[i]) by {
            if i > 0 {
                assert(s[i] == s.drop_first()[i - 1]);
            }
        }
    }
}

/// Whether the leading digits of `s`, if any, fit in a `u64`.
pub open spec fn leading_number_fits(s: Seq<char>) -> bool {
    digit_run(s) > 0 ==> spec_parse_u64(s.take(digit_run(s))) is Ok
}

/// Reads a number from the leading digits: the rest of the input and the
/// number, or nothing if the input does not start with a digit.
pub fn number(input: &str) -> (r: Option<(String, u64)>)
    requires
        leading_number_fits(input@),
    ensures
        digit_run(input@) == 0 ==> r is None,
        digit_run(input@) > 0 ==> (r matches Some((rest, n)) && rest@ == input@.skip(
            digit_run(input@),
        ) && spec_parse_u64(input@.take(digit_run(input@))) == Ok::<int, crate::numparse::IntErrorKind>(
            n as int,
        )),
{
    let cs = chars_of(input);
    let mut k: usize = 0;
    proof {
        lemma_digit_run(input@);
    }
    while k < cs.len() && is_ascii_digit(cs[k])
        invariant
            cs@ == input@,
            k <= cs.len(),
            k <= digit_run(input@),
            0 <= digit_run(input@) <= input@.len(),
            forall|i: int| 0 <= i < digit_run(input@) ==> is_digit(#[trigger] input@[i]),
            digit_run(input@) < input@.len() ==> !is_digit(input@[digit_run(input@)]),
        decreases cs.len() - k,
    {
        k = k + 1;
    }
    assert(k == digit_run(input@)) by {
        if (k as int) < digit_run(input@) {
            assert(is_digit(input@[k as int]));
        }
    }
    if k == 0 {
        return None;
    }
    let digits = slice_chars(cs.as_slice(), 0, k);
    let rest = slice_chars(cs.as_slice(), k, cs.len());
    assert(digits@ =~= input@.take(k as int));
    assert(rest@ =~= input@.skip(k as int));
    let text = string_of(digits.as_slice());
    match parse_u64(text.as_str()) {
        Ok(n) => Some((string_of(rest.as_slice()), n)),
        Err(_) => None,
    }
}

/// `prefix` followed by a number: the rest, and the prefix with the number.
pub fn tag_then_number(input: &str, prefix: &str) -> (r: Option<(String, (String, u64))>)
    requires
        starts_with(input@, prefix@) ==> leading_number_fits(input@.skip(prefix@.len() as int)),
    ensures
        ({
            let after = input@.skip(prefix@.len() as int);
            if !starts_with(input@, prefix@) || digit_run(after) == 0 {
                r is None
            } else {
                r matches Some((rest, (t, n))) && t@ == prefix@ && rest@ == after.skip(
                    digit_run(after),
                ) && spec_parse_u64(after.take(digit_run(after))) == Ok::<
                    int,
                    crate::numparse::IntErrorKind,
                >(n as int)
            }
        }),
{
    match tag(input, prefix) {
        None => None,
        Some((rest, t)) => {
            let ghost after = input@.skip(prefix@.len() as int);
            let rs = rest.as_str();
            assert(rs@ == after);
            proof {
                lemma_digit_run(after);
            }
            match number(rs) {
                None => None,
                Some((rest2, n)) => {
                    assert(rest2@ == after.skip(digit_run(after)));
                    Some((rest2, (t, n)))
                },
            }
        },
    }
}

} // verus!
