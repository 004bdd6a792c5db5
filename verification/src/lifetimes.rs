//! Borrowed text in and out: choosing between borrowed inputs, cutting
//! pieces out of text, and two iterators that walk a text without copying
//! the whole of it.
use vstd::prelude::*;
use vstd::string::StringSliceAdditionalSpecFns;
use crate::text::{
    chars_of, string_of, slice_chars, find_char, first_index, lemma_first_index, push_str,
    format_u64, decimal, chars_eq, join,
};

verus! {

/// Whichever of the two is longer in bytes; the second on a tie.
pub fn longest<'a>(x: &'a str, y: &'a str) -> (r: &'a str)
    ensures
        r@ == (if x.spec_bytes().len() as usize > y.spec_bytes().len() as usize {
            x@
        } else {
            y@
        }),
{
    if x.len() > y.len() {
        x
    } else {
        y
    }
}

/// A struct holding a borrowed piece of text.
pub struct Important<'a> {
    pub content: &'a str,
}

impl<'a> Important<'a> {
    pub fn announce(&self) -> (r: &str)
        ensures
            r@ == self.content@,
    {
        self.content
    }
}

/// The text before the first space (all of it if there is none).
pub fn first_word(s: &str) -> (r: String)
    ensures
        r@ == s@.take(first_index(s@, ' ')),
{
    let cs = chars_of(s);
    proof {
        lemma_first_index(s@, ' ');
    }
    let end = match find_char(cs.as_slice(), ' ') {
        Some(i) => i,
        None => cs.len(),
    };
    let piece = slice_chars(cs.as_slice(), 0, end);
    string_of(piece.as_slice())
}

/// Whether `d` occurs in `s` at position `i`.
pub open spec fn occurs_at(s: Seq<char>, d: Seq<char>, i: int) -> bool {
    0 <= i && i + d.len() <= s.len() && s.subrange(i, i + d.len()) == d
}

/// Where `d` first occurs in `s` at or after `from`, or `s.len()` if it
/// does not.
pub open spec fn find_from(s: Seq<char>, d: Seq<char>, from: int) -> int
    decreases s.len() + 1 - from,
{
    if from < 0 || from + d.len() > s.len() {
        s.len() as int
    } else if occurs_at(s, d, from) {
        from
    } else {
        find_from(s, d, from + 1)
    }
}

/// Where `d` first occurs in `s`, or `s.len()` if it does not.
pub open spec fn find_str(s: Seq<char>, d: Seq<char>) -> int {
    find_from(s, d, 0)
}

pub proof fn lemma_find_from(s: Seq<char>, d: Seq<char>, from: int)
    requires
        0 <= from,
    ensures
        from <= find_from(s, d, from) <= s.len() || find_from(s, d, from) == s.len(),
        find_from(s, d, from) < s.len() ==> occurs_at(s, d, find_from(s, d, from)),
        forall|j: int| from <= j < find_from(s, d, from) && j < s.len() ==> !occurs_at(s, d, j),
    decreases s.len() + 1 - from,
{
    if from + d.len() > s.len() {
        assert forall|j: int| from <= j < s.len() implies !occurs_at(s, d, j) by {}
    } else if !occurs_at(s, d, from) {
        lemma_find_from(s, d, from + 1);
    }
}

/// Whether `d` occurs in `cs` at position `i`.
fn matches_at(cs: &[char], d: &[char], i: usize) -> (r: bool)
    ensures
        r == occurs_at(cs@, d@, i as int),
{
    if i > cs.len() || d.len() > cs.len() - i {
        return false;
    }
    let piece = slice_chars(cs, i, i + d.len());
    chars_eq(piece.as_slice(), d)
}

/// The first position of `d` in `cs`, if it occurs.
pub fn find_chars(cs: &[char], d: &[char]) -> (r: Option<usize>)
    ensures
        r matches Some(i) ==> i < cs@.len() && i == find_str(cs@, d@),
        r is None ==> find_str(cs@, d@) >= cs@.len(),
{
    let mut i: usize = 0;
    proof {
        lemma_find_from(cs@, d@, 0);
    }
    while i < cs.len()
        invariant
            i <= cs.len(),
            find_from(cs@, d@, 0) == find_from(cs@, d@, i as int),
        decreases cs.len() - i,
    {
        if matches_at(cs, d, i) {
            return Some(i);
        }
        if d.len() > cs.len() - i {
            return None;
        }
        i = i + 1;
    }
    if d.len() == 0 {
        assert(cs@.subrange(i as int, i as int) =~= d@);
    }
    assert(find_from(cs@, d@, i as int) >= cs@.len());
    None
}

/// The text before the first occurrence of `marker` (all of it if there
/// is none).
pub fn prefix_before(text: &str, marker: &str) -> (r: String)
    ensures
        r@ == text@.take(
            if find_str(text@, marker@) < text@.len() {
                find_str(text@, marker@)
            } else {
                text@.len() as int
            },
        ),
{
    let cs = chars_of(text);
    let ms = chars_of(marker);
    let end = match find_chars(cs.as_slice(), ms.as_slice()) {
        Some(i) => i,
        None => cs.len(),
    };
    let piece = slice_chars(cs.as_slice(), 0, end);
    string_of(piece.as_slice())
}

/// An excerpt cut from a longer text.
pub struct Excerpt {
    pub part: String,
}

/// The first sentence of `text`: up to and including its first `.`, or all
/// of it if there is none.
pub open spec fn sentence(text: Seq<char>) -> Seq<char> {
    if first_index(text, '.') < text.len() {
        text.take(first_index(text, '.') + 1)
    } else {
        text
    }
}

/// Cuts out the first sentence.
pub fn first_sentence(text: &str) -> (e: Excerpt)
    ensures
        e.part@ == sentence(text@),
{
    let cs = chars_of(text);
    proof {
        lemma_first_index(text@, '.');
    }
    let end = match find_char(cs.as_slice(), '.') {
        Some(i) => {
            assert(i < cs.len());
            i + 1
        },
        None => cs.len(),
    };
    let piece = slice_chars(cs.as_slice(), 0, end);
    assert(piece@ =~= sentence(text@));
    Excerpt { part: string_of(piece.as_slice()) }
}

impl Excerpt {
    pub fn part(&self) -> (r: &str)
        ensures
            r@ == self.part@,
    {
        self.part.as_str()
    }

    /// The excerpt or the candidate, whichever is longer in bytes; the
    /// candidate on a tie.
    pub fn longer_of<'b>(&'b self, candidate: &'b str) -> (r: &'b str)
        ensures
            r@ == (if vstd::utf8::encode_utf8(self.part@).len() as usize > candidate.spec_bytes().len() as usize {
                self.part@
            } else {
                candidate@
            }),
    {
        let p = self.part.as_str();
        if p.len() > candidate.len() {
            p
        } else {
            candidate
        }
    }
}

/// `item-<id>`.
pub fn make_label(id: u32) -> (s: String)
    ensures
        s@ == "item-"@ + decimal(id as nat),
{
    let mut s = "item-".to_owned();
    let d = format_u64(id as u64);
    push_str(&mut s, d.as_str());
    s
}

/// The text after the first `/`, or nothing if there is none.
pub fn after_slash(haystack: &str) -> (r: String)
    ensures
        first_index(haystack@, '/') < haystack@.len() ==> r@ == haystack@.skip(
            first_index(haystack@, '/') + 1,
        ),
        first_index(haystack@, '/') >= haystack@.len() ==> r@.len() == 0,
{
    let cs = chars_of(haystack);
    match find_char(cs.as_slice(), '/') {
        Some(i) => {
            assert(i < cs.len());
            let rest = slice_chars(cs.as_slice(), i + 1, cs.len());
            assert(rest@ =~= haystack@.skip(first_index(haystack@, '/') + 1));
            string_of(rest.as_slice())
        },
        None => String::new(),
    }
}

/// The primary text unless it is empty, else the fallback.
pub fn or_default<'b>(primary: &'b str, fallback: &'b str) -> (r: &'b str)
    ensures
        r@ == (if primary@.len() > 0 {
            primary@
        } else {
            fallback@
        }),
{
    if !primary.is_empty() {
        primary
    } else {
        fallback
    }
}

/// Points `slot` at `value`.
pub fn store<'b>(slot: &mut &'b str, value: &'b str)
    ensures
        *final(slot) == value,
{
    *slot = value;
}

/// `id-<id>`, kept for the rest of the program.
pub fn leak_label(id: u32) -> (s: &'static str)
    ensures
        s@ == "id-"@ + decimal(id as nat),
{
    let mut label = "id-".to_owned();
    let d = format_u64(id as u64);
    push_str(&mut label, d.as_str());
    crate::box_heap::leak_static(label)
}

/// The words of `s` separated by single spaces, runs of spaces skipped.
pub open spec fn space_words(s: Seq<char>) -> Seq<Seq<char>>
    decreases s.len(),
{
    if s.len() == 0 {
        seq![]
    } else if s[0] == ' ' {
        space_words(s.drop_first())
    } else {
        proof {
            lemma_first_index(s, ' ');
        }
        seq![s.take(first_index(s, ' '))] + space_words(s.skip(first_index(s, ' ')))
    }
}

/// Leading spaces do not change the words.
proof fn lemma_skip_spaces(s: Seq<char>, k: int)
    requires
        0 <= k <= s.len(),
        forall|i: int| 0 <= i < k ==> s[i] == ' ',
    ensures
        space_words(s.skip(k)) == space_words(s),
    decreases k,
{
    if k > 0 {
        assert(s.skip(k) =~= s.drop_first().skip(k - 1));
        lemma_skip_spaces(s.drop_first(), k - 1);
    } else {
        assert(s.skip(0) =~= s);
    }
}

/// The words of a text, handed out one at a time.
pub struct Words {
    remainder: String,
}

impl Words {
    /// The words still to come.
    pub closed spec fn view(&self) -> Seq<Seq<char>> {
        space_words(self.remainder@)
    }

    pub fn new(text: &str) -> (w: Self)
        ensures
            w@ == space_words(text@),
    {
        Words { remainder: text.to_owned() }
    }

    /// The next word.
    pub fn next(&mut self) -> (r: Option<String>)
        ensures
            old(self)@.len() == 0 ==> r is None,
            old(self)@.len() > 0 ==> (r matches Some(w) && w@ == old(self)@[0] && final(self)@
                == old(self)@.drop_first()),
    {
        let cs = chars_of(self.remainder.as_str());
        let ghost s = cs@;
        let mut k: usize = 0;
        while k < cs.len() && cs[k] == ' '
            invariant
                k <= cs.len(),
                forall|i: int| 0 <= i < k ==> cs@[i] == ' ',
            decreases cs.len() - k,
        {
            k = k + 1;
        }
        proof {
            lemma_skip_spaces(s, k as int);
        }
        if k == cs.len() {
            assert(s.skip(k as int) =~= Seq::<char>::empty());
            return None;
        }
        let trimmed = slice_chars(cs.as_slice(), k, cs.len());
        assert(trimmed@ =~= s.skip(k as int));
        proof {
            lemma_first_index(trimmed@, ' ');
        }
        match find_char(trimmed.as_slice(), ' ') {
            Some(i) => {
                let word = slice_chars(trimmed.as_slice(), 0, i);
                let rest = slice_chars(trimmed.as_slice(), i + 1, trimmed.len());
                proof {
                    let t = trimmed@;
                    assert(t.skip(i as int).drop_first() =~= t.skip(i + 1));
                    assert(t.skip(i as int)[0] == ' ');
                    assert(space_words(t.skip(i as int)) == space_words(t.skip(i as int).drop_first()));
                    assert(space_words(t) == seq![t.take(i as int)] + space_words(t.skip(i as int)));
                    assert((seq![t.take(i as int)] + space_words(t.skip(i + 1))).drop_first() =~= space_words(
                        t.skip(i + 1),
                    ));
                }
                self.remainder = string_of(rest.as_slice());
                Some(string_of(word.as_slice()))
            },
            None => {
                proof {
                    let t = trimmed@;
                    assert(t.skip(t.len() as int) =~= Seq::<char>::empty());
                    assert(t.take(t.len() as int) =~= t);
                    assert(space_words(t) == seq![t] + space_words(Seq::<char>::empty()));
                    assert((seq![t] + Seq::<Seq<char>>::empty()).drop_first() =~= Seq::<Seq<char>>::empty());
                }
                self.remainder = String::new();
                Some(string_of(trimmed.as_slice()))
            },
        }
    }
}

/// The pieces of `s` between occurrences of the non-empty delimiter `d`.
pub open spec fn split_pieces(s: Seq<char>, d: Seq<char>) -> Seq<Seq<char>>
    recommends
        d.len() > 0,
    decreases s.len(),
{
    if d.len() == 0 || find_str(s, d) >= s.len() {
        seq![s]
    } else {
        proof {
            lemma_find_from(s, d, 0);
        }
        seq![s.take(find_str(s, d))] + split_pieces(s.skip(find_str(s, d) + d.len()), d)
    }
}

/// Joining a first part onto the join of the others puts one separator
/// between them.
proof fn lemma_join_prepend(a: Seq<char>, rest: Seq<Seq<char>>, sep: Seq<char>)
    requires
        rest.len() >= 1,
    ensures
        join(seq![a] + rest, sep) == a + sep + join(rest, sep),
    decreases rest.len(),
{
    let all = seq![a] + rest;
    if rest.len() == 1 {
        assert(all.drop_last() =~= seq![a]);
        assert(all.last() == rest[0]);
        assert(join(seq![a], sep) == a);
        assert(join(rest, sep) == rest[0]);
        assert(join(all, sep) == join(all.drop_last(), sep) + sep + all.last());
    } else {
        lemma_join_prepend(a, rest.drop_last(), sep);
        assert(all.drop_last() =~= seq![a] + rest.drop_last());
        assert(all.last() == rest.last());
        assert(join(all, sep) == join(all.drop_last(), sep) + sep + all.last());
        assert(join(rest, sep) == join(rest.drop_last(), sep) + sep + rest.last());
        assert(a + sep + join(rest, sep) =~= a + sep + join(rest.drop_last(), sep) + sep
            + rest.last());
    }
}

/// There is always at least one piece.
proof fn lemma_split_nonempty(s: Seq<char>, d: Seq<char>)
    ensures
        split_pieces(s, d).len() >= 1,
    decreases s.len(),
{
    if d.len() > 0 && find_str(s, d) < s.len() {
        lemma_find_from(s, d, 0);
        lemma_split_nonempty(s.skip(find_str(s, d) + d.len()), d);
    }
}

/// The pieces of a split are the text cut at the occurrences of the
/// delimiter, found left to right: joined back with the delimiter they give
/// the text, including every empty piece; no piece but the last is followed
/// by an occurrence that starts inside it, and the last piece holds none.
pub proof fn law_split_rejoins(h: Seq<char>, d: Seq<char>)
    requires
        d.len() > 0,
    ensures
        split_pieces(h, d).len() >= 1,
        join(split_pieces(h, d), d) == h,
        forall|k: int, i: int|
            0 <= k < split_pieces(h, d).len() - 1 && 0 <= i < split_pieces(h, d)[k].len()
                ==> !#[trigger] occurs_at(split_pieces(h, d)[k] + d, d, i),
        forall|i: int| !#[trigger] occurs_at(split_pieces(h, d).last(), d, i),
    decreases h.len(),
{
    lemma_split_nonempty(h, d);
    lemma_find_from(h, d, 0);
    let f = find_str(h, d);
    if f >= h.len() {
        assert(split_pieces(h, d) == seq![h]);
        assert forall|i: int| !#[trigger] occurs_at(split_pieces(h, d).last(), d, i) by {
            if occurs_at(h, d, i) {
                assert(i < h.len());
            }
        }
    } else {
        let rest = h.skip(f + d.len());
        let tail = split_pieces(rest, d);
        let p = split_pieces(h, d);
        assert(p == seq![h.take(f)] + tail);
        law_split_rejoins(rest, d);
        lemma_join_prepend(h.take(f), tail, d);
        assert(occurs_at(h, d, f));
        assert(h.take(f) + d + rest =~= h);
        assert forall|k: int, i: int|
            0 <= k < p.len() - 1 && 0 <= i < p[k].len() implies !#[trigger] occurs_at(p[k] + d, d, i) by {
            if k == 0 {
                assert(p[0] == h.take(f));
                if occurs_at(h.take(f) + d, d, i) {
                    assert((h.take(f) + d).subrange(i, i + d.len()) =~= h.subrange(
                        i,
                        i + d.len(),
                    ));
                    assert(occurs_at(h, d, i));
                }
            } else {
                assert(p[k] == tail[k - 1]);
            }
        }
        assert(p.last() == tail.last());
    }
}

/// Splits a text on a delimiter, piece by piece.
pub struct StrSplit {
    remainder: Option<String>,
    delimiter: Vec<char>,
}

impl StrSplit {
    /// The pieces still to come.
    pub closed spec fn view(&self) -> Seq<Seq<char>> {
        match self.remainder {
            Some(r) => split_pieces(r@, self.delimiter@),
            None => seq![],
        }
    }

    /// The delimiter.
    pub closed spec fn delimiter(&self) -> Seq<char> {
        self.delimiter@
    }

    /// The text not yet split, or `None` once the split has ended.
    pub closed spec fn rest(&self) -> Option<Seq<char>> {
        match self.remainder {
            Some(r) => Some(r@),
            None => None,
        }
    }

    /// A split of `haystack` on `delimiter`; with a non-empty delimiter its
    /// pieces are those of `split_pieces`.
    pub fn new(haystack: &str, delimiter: &str) -> (s: Self)
        ensures
            delimiter@.len() > 0 ==> s@ == split_pieces(haystack@, delimiter@),
            s.rest() == Some(haystack@),
            s.delimiter() == delimiter@,
    {
        StrSplit { remainder: Some(haystack.to_owned()), delimiter: chars_of(delimiter) }
    }

    /// The next piece. An empty delimiter is found at the very start of the
    /// text every time: each call then yields an empty piece and leaves the
    /// rest as it was, so that split never ends.
    pub fn next(&mut self) -> (r: Option<String>)
        ensures
            final(self).delimiter() == old(self).delimiter(),
            old(self).rest() is None ==> r is None && final(self).rest() is None,
            old(self).delimiter().len() > 0 ==> {
                &&& old(self)@.len() == 0 ==> r is None
                &&& old(self)@.len() > 0 ==> (r matches Some(p) && p@ == old(self)@[0]
                    && final(self)@ == old(self)@.drop_first())
            },
            old(self).delimiter().len() == 0 && old(self).rest() is Some ==> (r matches Some(p)
                && p@ == Seq::<char>::empty() && final(self).rest() == old(self).rest()),
    {
        let rem = match self.remainder.take() {
            Some(r) => r,
            None => {
                return None;
            },
        };
        if self.delimiter.len() == 0 {
            self.remainder = Some(rem);
            return Some(String::new());
        }
        let cs = chars_of(rem.as_str());
        let ghost s = cs@;
        let ghost d = self.delimiter@;
        match find_chars(cs.as_slice(), self.delimiter.as_slice()) {
            Some(i) => {
                proof {
                    lemma_find_from(s, d, 0);
                }
                assert(occurs_at(s, d, i as int));
                assert(i + self.delimiter.len() <= cs.len());
                let piece = slice_chars(cs.as_slice(), 0, i);
                let rest = slice_chars(cs.as_slice(), i + self.delimiter.len(), cs.len());
                assert(rest@ =~= s.skip(find_str(s, d) + d.len()));
                proof {
                    let tail = split_pieces(s.skip(find_str(s, d) + d.len()), d);
                    assert((seq![s.take(i as int)] + tail).drop_first() =~= tail);
                }
                self.remainder = Some(string_of(rest.as_slice()));
                Some(string_of(piece.as_slice()))
            },
            None => {
                assert(seq![s].drop_first() =~= Seq::<Seq<char>>::empty());
                Some(rem)
            },
        }
    }
}

} // verus!
