//! Text helpers with documented examples, and a small money ledger.
use vstd::prelude::*;
use crate::text::{
    words, join, is_ws, lowercase_of, chars_of, split_words, join_chars, string_of, to_lowercase,
    word_spans, is_whitespace, decimal, is_digit, lemma_words_nonempty,
};
use crate::numparse::{
    ParseIntError, IntErrorKind, parse_u16, spec_parse_u16, parse_matches, lemma_decimal_digits,
    law_parse_u16_of_decimal,
};

pub mod ledger;

verus! {

/// `s` with leading whitespace removed.
pub open spec fn trim_start(s: Seq<char>) -> Seq<char>
    decreases s.len(),
{
    if s.len() > 0 && is_ws(s[0]) {
        trim_start(s.drop_first())
    } else {
        s
    }
}

/// `s` with trailing whitespace removed.
pub open spec fn trim_end(s: Seq<char>) -> Seq<char>
    decreases s.len(),
{
    if s.len() > 0 && is_ws(s.last()) {
        trim_end(s.drop_last())
    } else {
        s
    }
}

/// `s` with whitespace removed at both ends (`str::trim`).
pub open spec fn trimmed(s: Seq<char>) -> Seq<char> {
    trim_end(trim_start(s))
}

/// The words of `s` joined by single spaces.
pub open spec fn squeezed(s: Seq<char>) -> Seq<char> {
    join(words(s), seq![' '])
}

/// `str::trim`: the slice of `s` without its leading and trailing whitespace.
pub fn trim(s: &str) -> (r: &str)
    ensures
        r@ == trimmed(s@),
{
    let cs = chars_of(s);
    let n = cs.len();
    let mut i: usize = 0;
    assert(s@.skip(0) =~= s@);
    while i < n && is_whitespace(cs[i])
        invariant
            cs@ == s@,
            n == cs.len(),
            i <= n,
            trim_start(s@) == trim_start(s@.skip(i as int)),
        decreases n - i,
    {
        assert(s@.skip(i as int).drop_first() =~= s@.skip(i + 1));
        i = i + 1;
    }
    assert(trim_start(s@.skip(i as int)) == s@.skip(i as int));
    let mut j: usize = n;
    while j > i && is_whitespace(cs[j - 1])
        invariant
            cs@ == s@,
            n == cs.len(),
            i <= j <= n,
            trim_end(s@.skip(i as int)) == trim_end(s@.subrange(i as int, j as int)),
        decreases j,
    {
        assert(s@.subrange(i as int, j as int).drop_last() =~= s@.subrange(i as int, j - 1));
        j = j - 1;
    }
    assert(s@.skip(i as int) =~= s@.subrange(i as int, n as int));
    s.substring_char(i, j)
}

/// The words of `s` joined by single spaces.
pub fn squeeze_spaces(s: &str) -> (r: String)
    ensures
        r@ == squeezed(s@),
{
    let cs = chars_of(s);
    let ws = split_words(cs.as_slice());
    let sep = vec![' '];
    let joined = join_chars(&ws, sep.as_slice());
    assert(ws@.map_values(|p: Vec<char>| p@) =~= words(s@));
    assert(sep@ =~= seq![' ']);
    string_of(joined.as_slice())
}

/// Normalize a piece of user text: trim the ends, lowercase it, and collapse
/// any run of internal whitespace down to a single space.
pub fn normalize(s: &str) -> (r: String)
    ensures
        r@ == lowercase_of(squeezed(s@)),
{
    let squeezed = squeeze_spaces(s);
    to_lowercase(squeezed.as_str())
}

/// Parse a TCP port number from a string, ignoring surrounding whitespace.
pub fn parse_port(s: &str) -> (r: Result<u16, ParseIntError>)
    ensures
        parse_matches(r, spec_parse_u16(trimmed(s@)), |x: u16| x as int),
{
    parse_u16(trim(s))
}

/// Return the `n`th whitespace-separated word (0-indexed).
pub fn nth_word(s: &str, n: usize) -> (r: &str)
    requires
        n < words(s@).len(),
    ensures
        r@ == words(s@)[n as int],
{
    let cs = chars_of(s);
    let spans = word_spans(cs.as_slice());
    let (a, b) = spans[n];
    assert(spans@[n as int] == (a, b));
    s.substring_char(a, b)
}

/// Leading whitespace is dropped whatever follows it.
pub proof fn lemma_trim_start_pad(p: Seq<char>, x: Seq<char>)
    requires
        forall|i: int| 0 <= i < p.len() ==> #[trigger] is_ws(p[i]),
    ensures
        trim_start(p + x) == trim_start(x),
    decreases p.len(),
{
    if p.len() > 0 {
        assert((p + x)[0] == p[0]);
        assert((p + x).drop_first() =~= p.drop_first() + x);
        assert forall|i: int| 0 <= i < p.drop_first().len() implies #[trigger] is_ws(
            p.drop_first()[i],
        ) by {
            assert(p.drop_first()[i] == p[i + 1]);
        }
        lemma_trim_start_pad(p.drop_first(), x);
    } else {
        assert(p + x =~= x);
    }
}

/// Trailing whitespace is dropped whatever precedes it.
pub proof fn lemma_trim_end_pad(y: Seq<char>, p: Seq<char>)
    requires
        forall|i: int| 0 <= i < p.len() ==> #[trigger] is_ws(p[i]),
    ensures
        trim_end(y + p) == trim_end(y),
    decreases p.len(),
{
    if p.len() > 0 {
        assert((y + p).last() == p.last());
        assert(is_ws(p[p.len() - 1]));
        assert((y + p).drop_last() =~= y + p.drop_last());
        assert forall|i: int| 0 <= i < p.drop_last().len() implies #[trigger] is_ws(
            p.drop_last()[i],
        ) by {
            assert(p.drop_last()[i] == p[i]);
        }
        lemma_trim_end_pad(y, p.drop_last());
    } else {
        assert(y + p =~= y);
    }
}

/// A port written in decimal and surrounded by any whitespace parses back to
/// itself: `parse_port` inverts `u16`'s formatting and ignores the padding.
pub proof fn law_parse_port_round_trip(n: u16, pad1: Seq<char>, pad2: Seq<char>)
    requires
        forall|i: int| 0 <= i < pad1.len() ==> #[trigger] is_ws(pad1[i]),
        forall|i: int| 0 <= i < pad2.len() ==> #[trigger] is_ws(pad2[i]),
    ensures
        spec_parse_u16(trimmed(pad1 + decimal(n as nat) + pad2)) == Ok::<int, IntErrorKind>(
            n as int,
        ),
{
    let d = decimal(n as nat);
    lemma_decimal_digits(n as nat);
    law_parse_u16_of_decimal(n);
    assert(pad1 + d + pad2 =~= pad1 + (d + pad2));
    lemma_trim_start_pad(pad1, d + pad2);
    assert(is_digit(d[0]));
    assert((d + pad2)[0] == d[0]);
    assert(trim_start(d + pad2) == d + pad2);
    lemma_trim_end_pad(d, pad2);
    assert(is_digit(d[d.len() - 1]));
    assert(trim_end(d) == d);
}

/// A word in the sense of `words`: non-empty, with no whitespace in it.
pub open spec fn is_word(w: Seq<char>) -> bool {
    w.len() > 0 && forall|i: int| 0 <= i < w.len() ==> !is_ws(#[trigger] w[i])
}

/// Every piece that `words` cuts out is a word.
proof fn lemma_words_are_words(s: Seq<char>)
    ensures
        forall|k: int| 0 <= k < words(s).len() ==> is_word(#[trigger] words(s)[k]),
    decreases s.len(),
{
    if s.len() > 0 {
        let prev = words(s.drop_last());
        lemma_words_are_words(s.drop_last());
        let c = s.last();
        if !is_ws(c) {
            if s.len() >= 2 && !is_ws(s[s.len() - 2]) {
                assert(s.drop_last().last() == s[s.len() - 2]);
                lemma_words_nonempty(s.drop_last());
                let w = prev.last().push(c);
                assert(is_word(prev[prev.len() - 1]));
                assert forall|i: int| 0 <= i < w.len() implies !is_ws(#[trigger] w[i]) by {
                    if i < w.len() - 1 {
                        assert(w[i] == prev.last()[i]);
                    }
                }
                assert forall|k: int| 0 <= k < words(s).len() implies is_word(
                    #[trigger] words(s)[k],
                ) by {
                    if k < prev.len() - 1 {
                        assert(words(s)[k] == prev[k]);
                    }
                }
            } else {
                assert(is_word(seq![c]));
                assert forall|k: int| 0 <= k < words(s).len() implies is_word(
                    #[trigger] words(s)[k],
                ) by {
                    if k < prev.len() {
                        assert(words(s)[k] == prev[k]);
                    }
                }
            }
        }
    }
}

/// Reading a word that follows `t`, whose last character is whitespace or
/// which is empty, adds that word after the words of `t`.
proof fn lemma_words_then_word(t: Seq<char>, w: Seq<char>, i: int)
    requires
        is_word(w),
        1 <= i <= w.len(),
        t.len() == 0 || is_ws(t.last()),
    ensures
        words(t + w.take(i)) == words(t).push(w.take(i)),
    decreases i,
{
    let u = t + w.take(i);
    assert(u.drop_last() =~= t + w.take(i - 1));
    assert(u.last() == w[i - 1]);
    assert(!is_ws(w[i - 1]));
    if i == 1 {
        assert(w.take(0) =~= Seq::<char>::empty());
        assert(t + w.take(0) =~= t);
        assert(w.take(1) =~= seq![w[0]]);
        if u.len() >= 2 {
            assert(u[u.len() - 2] == t.last());
        }
    } else {
        lemma_words_then_word(t, w, i - 1);
        assert(u[u.len() - 2] == w[i - 2]);
        assert(!is_ws(w[i - 2]));
        assert(w.take(i) =~= w.take(i - 1).push(w[i - 1]));
    }
}

/// Splitting words joined by single spaces gives the words back.
proof fn lemma_words_of_join(ws: Seq<Seq<char>>)
    requires
        forall|k: int| 0 <= k < ws.len() ==> is_word(#[trigger] ws[k]),
    ensures
        words(join(ws, seq![' '])) == ws,
    decreases ws.len(),
{
    if ws.len() == 1 {
        let w = ws[0];
        assert(is_word(w));
        lemma_words_then_word(Seq::<char>::empty(), w, w.len() as int);
        assert(Seq::<char>::empty() + w.take(w.len() as int) =~= w);
        assert(words(Seq::<char>::empty()).push(w) =~= ws);
    } else if ws.len() > 1 {
        let front = ws.drop_last();
        let w = ws.last();
        assert(is_word(ws[ws.len() - 1]));
        assert forall|k: int| 0 <= k < front.len() implies is_word(#[trigger] front[k]) by {
            assert(front[k] == ws[k]);
        }
        lemma_words_of_join(front);
        let t = join(front, seq![' ']) + seq![' '];
        assert(t.last() == ' ');
        assert(t.drop_last() =~= join(front, seq![' ']));
        assert(words(t) == words(join(front, seq![' '])));
        lemma_words_then_word(t, w, w.len() as int);
        assert(w.take(w.len() as int) =~= w);
        assert(front.push(w) =~= ws);
    }
}

/// Squeezing twice is squeezing once: the squeezed text already has its
/// words separated by single spaces and nothing around them.
pub proof fn law_squeeze_idempotent(s: Seq<char>)
    ensures
        squeezed(squeezed(s)) == squeezed(s),
{
    lemma_words_are_words(s);
    lemma_words_of_join(words(s));
}

} // verus!
