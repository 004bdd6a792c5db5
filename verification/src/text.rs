//! Character and string primitives shared by the rest of the library:
//! whitespace classification, word splitting, joining, and the few standard
//! text conversions whose results are named rather than restated.
use vstd::prelude::*;

verus! {

/// Unicode `White_Space`, the property that `char::is_whitespace` tests.
pub open spec fn is_ws(c: char) -> bool {
    let u = c as u32;
    ||| u == 0x20
    ||| (0x09 <= u && u <= 0x0d)
    ||| u == 0x85
    ||| u == 0xa0
    ||| u == 0x1680
    ||| (0x2000 <= u && u <= 0x200a)
    ||| u == 0x2028
    ||| u == 0x2029
    ||| u == 0x202f
    ||| u == 0x205f
    ||| u == 0x3000
}

/// ASCII decimal digit.
pub open spec fn is_digit(c: char) -> bool {
    '0' <= c && c <= '9'
}

/// Value of an ASCII decimal digit.
pub open spec fn digit_value(c: char) -> nat {
    ((c as u32) - ('0' as u32)) as nat
}

/// The whitespace-separated words of `s`, in order: maximal runs of
/// non-whitespace characters.
pub open spec fn words(s: Seq<char>) -> Seq<Seq<char>>
    decreases s.len(),
{
    if s.len() == 0 {
        seq![]
    } else {
        let prev = words(s.drop_last());
        let c = s.last();
        if is_ws(c) {
            prev
        } else if s.len() >= 2 && !is_ws(s[s.len() - 2]) {
            prev.update(prev.len() - 1, prev.last().push(c))
        } else {
            prev.push(seq![c])
        }
    }
}

/// `parts` glued together with `sep` between consecutive parts.
pub open spec fn join(parts: Seq<Seq<char>>, sep: Seq<char>) -> Seq<char>
    decreases parts.len(),
{
    if parts.len() == 0 {
        seq![]
    } else if parts.len() == 1 {
        parts[0]
    } else {
        join(parts.drop_last(), sep) + sep + parts.last()
    }
}

/// Result of `str::to_lowercase` on a string with the given characters.
pub uninterp spec fn lowercase_of(s: Seq<char>) -> Seq<char>;

/// Result of `str::to_uppercase` on a string with the given characters.
pub uninterp spec fn uppercase_of(s: Seq<char>) -> Seq<char>;

/// Result of `char::is_uppercase`.
pub uninterp spec fn is_upper_char(c: char) -> bool;

/// Result of `char::is_alphanumeric`.
pub uninterp spec fn is_alnum_char(c: char) -> bool;

/// Whether a string contains an uppercase character.
pub open spec fn has_upper(s: Seq<char>) -> bool {
    exists|i: int| 0 <= i < s.len() && is_upper_char(#[trigger] s[i])
}

/// Calls `str::to_lowercase`; the result is named by `lowercase_of`.
#[verifier::external_body]
pub(crate) fn to_lowercase(s: &str) -> (res: String)
    ensures
        res@ == lowercase_of(s@),
{
    s.to_lowercase()
}

/// Calls `str::to_uppercase`; the result is named by `uppercase_of`.
#[verifier::external_body]
pub(crate) fn to_uppercase(s: &str) -> (res: String)
    ensures
        res@ == uppercase_of(s@),
{
    s.to_uppercase()
}

/// Calls `char::is_uppercase`; the result is named by `is_upper_char`.
#[verifier::external_body]
pub(crate) fn char_is_uppercase(c: char) -> (b: bool)
    ensures
        b == is_upper_char(c),
{
    c.is_uppercase()
}

/// Calls `char::is_alphanumeric`; the result is named by `is_alnum_char`.
#[verifier::external_body]
pub(crate) fn char_is_alphanumeric(c: char) -> (b: bool)
    ensures
        b == is_alnum_char(c),
{
    c.is_alphanumeric()
}

/// Calls `String::push`: the character is appended at the end.
#[verifier::external_body]
pub(crate) fn push_char(s: &mut String, c: char)
    ensures
        final(s)@ == old(s)@.push(c),
{
    s.push(c)
}

/// Calls `String::push_str`: the slice is appended at the end.
#[verifier::external_body]
pub(crate) fn push_str(s: &mut String, t: &str)
    ensures
        final(s)@ == old(s)@ + t@,
{
    s.push_str(t)
}

/// `char::is_whitespace`.
pub fn is_whitespace(c: char) -> (b: bool)
    ensures
        b == is_ws(c),
{
    let u = c as u32;
    u == 0x20 || (0x09 <= u && u <= 0x0d) || u == 0x85 || u == 0xa0 || u == 0x1680 || (0x2000
        <= u && u <= 0x200a) || u == 0x2028 || u == 0x2029 || u == 0x202f || u == 0x205f || u
        == 0x3000
}

/// `char::is_ascii_digit`.
pub fn is_ascii_digit(c: char) -> (b: bool)
    ensures
        b == is_digit(c),
{
    '0' <= c && c <= '9'
}

/// The characters of `s`, in order.
pub fn chars_of(s: &str) -> (out: Vec<char>)
    ensures
        out@ == s@,
{
    let mut out: Vec<char> = Vec::new();
    for c in it: s.chars()
        invariant
            it.seq() == s@,
            out@ == it.seq().take(it.index() as int),
    {
        out.push(c);
    }
    out
}

/// A string holding exactly the given characters.
pub fn string_of(cs: &[char]) -> (s: String)
    ensures
        s@ == cs@,
{
    let mut s = String::new();
    let mut i: usize = 0;
    while i < cs.len()
        invariant
            i <= cs.len(),
            s@ == cs@.take(i as int),
        decreases cs.len() - i,
    {
        push_char(&mut s, cs[i]);
        i = i + 1;
        assert(s@ =~= cs@.take(i as int));
    }
    assert(cs@.take(cs.len() as int) =~= cs@);
    s
}

/// Whether two character sequences are equal.
pub fn chars_eq(a: &[char], b: &[char]) -> (r: bool)
    ensures
        r == (a@ == b@),
{
    if a.len() != b.len() {
        return false;
    }
    let mut i: usize = 0;
    while i < a.len()
        invariant
            a.len() == b.len(),
            i <= a.len(),
            forall|j: int| 0 <= j < i ==> a@[j] == b@[j],
        decreases a.len() - i,
    {
        if a[i] != b[i] {
            return false;
        }
        i = i + 1;
    }
    assert(a@ =~= b@);
    true
}

/// Whether two string slices hold the same characters.
pub fn str_eq(a: &str, b: &str) -> (r: bool)
    ensures
        r == (a@ == b@),
{
    let ca = chars_of(a);
    let cb = chars_of(b);
    chars_eq(ca.as_slice(), cb.as_slice())
}

/// A non-whitespace final character means the last word ends there.
pub proof fn lemma_words_nonempty(s: Seq<char>)
    requires
        s.len() > 0,
        !is_ws(s.last()),
    ensures
        words(s).len() > 0,
    decreases s.len(),
{
    let prev = words(s.drop_last());
    if s.len() >= 2 && !is_ws(s[s.len() - 2]) {
        assert(s.drop_last().last() == s[s.len() - 2]);
        lemma_words_nonempty(s.drop_last());
    }
}

/// Each span picks out, within `cs`, the word of `ws` at the same position,
/// and no span reaches past `bound`.
pub open spec fn spans_match(
    spans: Seq<(usize, usize)>,
    cs: Seq<char>,
    bound: int,
    ws: Seq<Seq<char>>,
) -> bool {
    &&& spans.len() == ws.len()
    &&& forall|k: int|
        #![trigger spans[k]]
        0 <= k < spans.len() ==> {
            &&& spans[k].0 < spans[k].1 <= bound
            &&& cs.subrange(spans[k].0 as int, spans[k].1 as int) == ws[k]
        }
}

/// The start and end character positions of each whitespace-separated word.
pub fn word_spans(cs: &[char]) -> (spans: Vec<(usize, usize)>)
    ensures
        spans_match(spans@, cs@, cs.len() as int, words(cs@)),
{
    let mut spans: Vec<(usize, usize)> = Vec::new();
    let mut i: usize = 0;
    while i < cs.len()
        invariant
            i <= cs.len(),
            spans_match(spans@, cs@, i as int, words(cs@.take(i as int))),
            i > 0 && !is_ws(cs@[i - 1]) ==> spans.len() > 0 && spans@.last().1 == i,
        decreases cs.len() - i,
    {
        let c = cs[i];
        let ghost pre = cs@.take(i as int);
        let ghost post = cs@.take(i + 1);
        let ghost old_spans = spans@;
        assert(post.drop_last() =~= pre);
        assert(post.last() == c);
        if is_whitespace(c) {
            assert(words(post) == words(pre));
        } else if i > 0 && !is_whitespace(cs[i - 1]) {
            assert(post[post.len() - 2] == cs@[i - 1]);
            let last = spans.len() - 1;
            let (st, _) = spans[last];
            spans.set(last, (st, i + 1));
            proof {
                let w = words(pre);
                assert(words(post) == w.update(w.len() - 1, w.last().push(c)));
                assert(cs@.subrange(st as int, i + 1) =~= cs@.subrange(st as int, i as int).push(
                    c,
                ));
                assert forall|k: int| #![trigger spans@[k]] 0 <= k < spans.len() implies {
                    &&& spans@[k].0 < spans@[k].1 <= i + 1
                    &&& cs@.subrange(spans@[k].0 as int, spans@[k].1 as int) == words(post)[k]
                } by {
                    if k < last {
                        assert(spans@[k] == old_spans[k]);
                    }
                }
            }
        } else {
            proof {
                if i > 0 {
                    assert(post[post.len() - 2] == cs@[i - 1]);
                }
                assert(cs@.subrange(i as int, i + 1) =~= seq![c]);
            }
            spans.push((i, i + 1));
            proof {
                assert forall|k: int| #![trigger spans@[k]] 0 <= k < spans.len() implies {
                    &&& spans@[k].0 < spans@[k].1 <= i + 1
                    &&& cs@.subrange(spans@[k].0 as int, spans@[k].1 as int) == words(post)[k]
                } by {
                    if k < old_spans.len() {
                        assert(spans@[k] == old_spans[k]);
                    }
                }
            }
        }
        i = i + 1;
    }
    assert(cs@.take(cs.len() as int) =~= cs@);
    spans
}

/// The words of `cs`, each as its own character vector.
pub fn split_words(cs: &[char]) -> (out: Vec<Vec<char>>)
    ensures
        out.len() == words(cs@).len(),
        forall|k: int| 0 <= k < out.len() ==> #[trigger] out[k]@ == words(cs@)[k],
{
    let spans = word_spans(cs);
    let mut out: Vec<Vec<char>> = Vec::new();
    let mut k: usize = 0;
    while k < spans.len()
        invariant
            spans_match(spans@, cs@, cs.len() as int, words(cs@)),
            k <= spans.len(),
            out.len() == k,
            forall|j: int| 0 <= j < k ==> #[trigger] out[j]@ == words(cs@)[j],
        decreases spans.len() - k,
    {
        let (st, en) = spans[k];
        assert(spans@[k as int] == (st, en));
        let w = slice_chars(cs, st, en);
        out.push(w);
        k = k + 1;
    }
    out
}

/// The characters of `cs` from position `from` up to (not including) `to`.
pub fn slice_chars(cs: &[char], from: usize, to: usize) -> (out: Vec<char>)
    requires
        from <= to <= cs.len(),
    ensures
        out@ == cs@.subrange(from as int, to as int),
{
    let mut out: Vec<char> = Vec::new();
    let mut i = from;
    while i < to
        invariant
            from <= i <= to <= cs.len(),
            out@ == cs@.subrange(from as int, i as int),
        decreases to - i,
    {
        out.push(cs[i]);
        i = i + 1;
        assert(out@ =~= cs@.subrange(from as int, i as int));
    }
    out
}

/// `parts` glued together with `sep` between consecutive parts.
pub fn join_chars(parts: &Vec<Vec<char>>, sep: &[char]) -> (out: Vec<char>)
    ensures
        out@ == join(parts@.map_values(|p: Vec<char>| p@), sep@),
{
    let ghost views = parts@.map_values(|p: Vec<char>| p@);
    let mut out: Vec<char> = Vec::new();
    let mut k: usize = 0;
    while k < parts.len()
        invariant
            views == parts@.map_values(|p: Vec<char>| p@),
            k <= parts.len(),
            out@ == join(views.take(k as int), sep@),
        decreases parts.len() - k,
    {
        assert(views.take(k + 1).drop_last() =~= views.take(k as int));
        if k > 0 {
            append_chars(&mut out, sep);
        }
        append_chars(&mut out, parts[k].as_slice());
        proof {
            if k == 0 {
                assert(out@ =~= views.take(1)[0]);
            } else {
                assert(out@ =~= join(views.take(k as int), sep@) + sep@ + views.take(k + 1).last());
            }
        }
        k = k + 1;
    }
    assert(views.take(parts.len() as int) =~= views);
    out
}

/// Appends `more` at the end of `v`.
pub fn append_chars(v: &mut Vec<char>, more: &[char])
    ensures
        final(v)@ == old(v)@ + more@,
{
    let mut i: usize = 0;
    while i < more.len()
        invariant
            i <= more.len(),
            v@ == old(v)@ + more@.take(i as int),
        decreases more.len() - i,
    {
        v.push(more[i]);
        i = i + 1;
        assert(v@ =~= old(v)@ + more@.take(i as int));
    }
    assert(more@.take(more.len() as int) =~= more@);
}

/// The character for a decimal digit.
pub open spec fn digit_char(d: nat) -> char {
    (('0' as u32) + d) as char
}

/// The decimal representation of `n`, without leading zeros.
pub open spec fn decimal(n: nat) -> Seq<char>
    decreases n,
{
    if n < 10 {
        seq![digit_char(n)]
    } else {
        decimal(n / 10).push(digit_char(n % 10))
    }
}

/// The decimal representation of a signed integer: `-` before negatives.
pub open spec fn signed_decimal(n: int) -> Seq<char> {
    if n < 0 {
        seq!['-'] + decimal((-n) as nat)
    } else {
        decimal(n as nat)
    }
}

/// The digits of `n` in decimal.
pub fn decimal_chars(n: u64) -> (r: Vec<char>)
    ensures
        r@ == decimal(n as nat),
    decreases n,
{
    let d = (n % 10) as u32;
    let c = char_from_digit(d);
    if n < 10 {
        vec![c]
    } else {
        let mut r = decimal_chars(n / 10);
        r.push(c);
        r
    }
}

/// The character for a digit below ten.
fn char_from_digit(d: u32) -> (c: char)
    requires
        d < 10,
    ensures
        c == digit_char(d as nat),
{
    match d {
        0 => '0',
        1 => '1',
        2 => '2',
        3 => '3',
        4 => '4',
        5 => '5',
        6 => '6',
        7 => '7',
        8 => '8',
        _ => '9',
    }
}

/// `n` written in decimal (what `n.to_string()` gives).
pub fn format_u64(n: u64) -> (s: String)
    ensures
        s@ == decimal(n as nat),
{
    let cs = decimal_chars(n);
    string_of(cs.as_slice())
}

/// `n` written in decimal, with a leading `-` when negative.
pub fn format_i64(n: i64) -> (s: String)
    ensures
        s@ == signed_decimal(n as int),
{
    if n < 0 {
        let m = (0i128 - n as i128) as u64;
        let mut cs = vec!['-'];
        let ds = decimal_chars(m);
        append_chars(&mut cs, ds.as_slice());
        assert(cs@ =~= seq!['-'] + decimal((-n) as nat));
        string_of(cs.as_slice())
    } else {
        format_u64(n as u64)
    }
}

/// The concatenation of two string slices.
pub fn concat(a: &str, b: &str) -> (s: String)
    ensures
        s@ == a@ + b@,
{
    let mut s = a.to_owned();
    push_str(&mut s, b);
    s
}

/// Whether `a` comes strictly before `b` in dictionary order of code points,
/// the order `str` comparison uses.
pub open spec fn lex_lt(a: Seq<char>, b: Seq<char>) -> bool
    decreases a.len(),
{
    if a.len() == 0 {
        b.len() > 0
    } else if b.len() == 0 {
        false
    } else if a[0] < b[0] {
        true
    } else if a[0] == b[0] {
        lex_lt(a.drop_first(), b.drop_first())
    } else {
        false
    }
}

/// Dictionary order is a strict total order.
pub proof fn lemma_lex_order(a: Seq<char>, b: Seq<char>, c: Seq<char>)
    ensures
        !lex_lt(a, a),
        lex_lt(a, b) ==> !lex_lt(b, a),
        a != b ==> lex_lt(a, b) || lex_lt(b, a),
        lex_lt(a, b) && lex_lt(b, c) ==> lex_lt(a, c),
    decreases a.len(),
{
    if a.len() > 0 && b.len() > 0 && c.len() > 0 {
        lemma_lex_order(a.drop_first(), b.drop_first(), c.drop_first());
    } else if a.len() > 0 && b.len() > 0 {
        lemma_lex_order(a.drop_first(), b.drop_first(), b.drop_first());
    } else if a.len() > 0 {
        lemma_lex_order(a.drop_first(), a.drop_first(), a.drop_first());
    }
    if a != b && a.len() > 0 && b.len() > 0 && a[0] == b[0] {
        assert(a.drop_first() != b.drop_first()) by {
            if a.drop_first() == b.drop_first() {
                assert(a =~= seq![a[0]] + a.drop_first());
                assert(b =~= seq![b[0]] + b.drop_first());
            }
        }
    }
    if a != b && a.len() == 0 && b.len() == 0 {
        assert(a =~= b);
    }
}

/// Whether `a` comes strictly before `b` in dictionary order.
pub fn chars_lt(a: &[char], b: &[char]) -> (r: bool)
    ensures
        r == lex_lt(a@, b@),
{
    let mut i: usize = 0;
    assert(a@.skip(0) =~= a@ && b@.skip(0) =~= b@);
    while i < a.len() && i < b.len() && a[i] == b[i]
        invariant
            i <= a.len(),
            i <= b.len(),
            lex_lt(a@, b@) == lex_lt(a@.skip(i as int), b@.skip(i as int)),
        decreases a.len() - i,
    {
        assert(a@.skip(i + 1) =~= a@.skip(i as int).drop_first());
        assert(b@.skip(i + 1) =~= b@.skip(i as int).drop_first());
        i = i + 1;
    }
    if i == a.len() {
        i < b.len()
    } else if i == b.len() {
        false
    } else {
        a[i] < b[i]
    }
}

/// `parts` glued together with `sep` between consecutive parts.
pub fn join_strings(parts: &[String], sep: &str) -> (out: String)
    ensures
        out@ == join(parts@.map_values(|p: String| p@), sep@),
{
    let ghost views = parts@.map_values(|p: String| p@);
    let mut out = String::new();
    let mut k: usize = 0;
    while k < parts.len()
        invariant
            views == parts@.map_values(|p: String| p@),
            k <= parts.len(),
            out@ == join(views.take(k as int), sep@),
        decreases parts.len() - k,
    {
        assert(views.take(k + 1).drop_last() =~= views.take(k as int));
        if k > 0 {
            push_str(&mut out, sep);
        }
        push_str(&mut out, parts[k].as_str());
        proof {
            if k == 0 {
                assert(out@ =~= views.take(1)[0]);
            } else {
                assert(out@ =~= join(views.take(k as int), sep@) + sep@ + views.take(k + 1).last());
            }
        }
        k = k + 1;
    }
    assert(views.take(parts.len() as int) =~= views);
    out
}

/// Where `c` first occurs in `s`, or `s.len()` if it does not.
pub open spec fn first_index(s: Seq<char>, c: char) -> int
    decreases s.len(),
{
    if s.len() == 0 {
        0
    } else if s[0] == c {
        0
    } else {
        1 + first_index(s.drop_first(), c)
    }
}

/// `first_index` lands on `c`, or on the end with no `c` before it.
pub proof fn lemma_first_index(s: Seq<char>, c: char)
    ensures
        0 <= first_index(s, c) <= s.len(),
        forall|i: int| 0 <= i < first_index(s, c) ==> s[i] != c,
        first_index(s, c) < s.len() ==> s[first_index(s, c)] == c,
    decreases s.len(),
{
    if s.len() > 0 && s[0] != c {
        lemma_first_index(s.drop_first(), c);
        assert forall|i: int| 0 <= i < first_index(s, c) implies s[i] != c by {
            if i > 0 {
                assert(s[i] == s.drop_first()[i - 1]);
            }
        }
    }
}

/// The position of the first `c` in `cs`, if any.
pub fn find_char(cs: &[char], c: char) -> (r: Option<usize>)
    ensures
        r matches Some(i) ==> i < cs@.len() && i == first_index(cs@, c),
        r is None ==> first_index(cs@, c) == cs@.len(),
{
    let mut i: usize = 0;
    proof {
        lemma_first_index(cs@, c);
    }
    while i < cs.len() && cs[i] != c
        invariant
            i <= cs.len(),
            forall|k: int| 0 <= k < i ==> cs@[k] != c,
            0 <= first_index(cs@, c) <= cs@.len(),
            forall|k: int| 0 <= k < first_index(cs@, c) ==> cs@[k] != c,
            first_index(cs@, c) < cs@.len() ==> cs@[first_index(cs@, c)] == c,
        decreases cs.len() - i,
    {
        i = i + 1;
    }
    if i < cs.len() {
        Some(i)
    } else {
        None
    }
}

/// Whether `s` starts with `prefix`.
pub open spec fn starts_with(s: Seq<char>, prefix: Seq<char>) -> bool {
    prefix.len() <= s.len() && s.take(prefix.len() as int) == prefix
}

/// Whether `s` starts with `prefix`.
pub fn str_starts_with(s: &str, prefix: &str) -> (r: bool)
    ensures
        r == starts_with(s@, prefix@),
{
    let a = chars_of(s);
    let b = chars_of(prefix);
    if b.len() > a.len() {
        return false;
    }
    let head = slice_chars(a.as_slice(), 0, b.len());
    assert(head@ =~= s@.take(prefix@.len() as int));
    chars_eq(head.as_slice(), b.as_slice())
}

/// Whether `s` ends with `suffix`.
pub open spec fn ends_with(s: Seq<char>, suffix: Seq<char>) -> bool {
    s.len() >= suffix.len() && s.subrange(s.len() - suffix.len(), s.len() as int) == suffix
}

/// Whether `s` ends with `suffix`.
pub fn str_ends_with(s: &str, suffix: &str) -> (r: bool)
    ensures
        r == ends_with(s@, suffix@),
{
    let a = chars_of(s);
    let b = chars_of(suffix);
    if b.len() > a.len() {
        return false;
    }
    let tail = slice_chars(a.as_slice(), a.len() - b.len(), a.len());
    chars_eq(tail.as_slice(), b.as_slice())
}

} // verus!
