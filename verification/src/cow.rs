//! Borrow-or-own text and slices: values that point at the caller's data when
//! nothing has to change, and own a fresh copy only when work was done.
use vstd::prelude::*;
use crate::text::{
    chars_of, string_of, split_words, words, concat, str_eq, str_starts_with, starts_with,
    to_lowercase, lowercase_of, char_is_uppercase, has_upper, is_upper_char, find_char,
    lemma_first_index,
};

verus! {

/// Text that is either borrowed from someone else or owned.
#[derive(Debug)]
pub enum MyCow<'a> {
    Borrowed(&'a str),
    Owned(String),
}

impl<'a> View for MyCow<'a> {
    type V = Seq<char>;

    open spec fn view(&self) -> Seq<char> {
        match self {
            MyCow::Borrowed(s) => s@,
            MyCow::Owned(s) => s@,
        }
    }
}

impl<'a> MyCow<'a> {
    /// The text, whichever variant holds it.
    pub fn as_str(&self) -> (r: &str)
        ensures
            r@ == self@,
    {
        match self {
            MyCow::Borrowed(s) => *s,
            MyCow::Owned(s) => s.as_str(),
        }
    }

    /// Mutable access to owned text: borrowed text is copied into an owned
    /// `String` first, owned text is handed out as it is.
    pub fn to_mut(&mut self) -> (r: &mut String)
        ensures
            r@ == old(self)@,
            *final(self) == MyCow::<'a>::Owned(*final(r)),
    {
        if let MyCow::Borrowed(s) = self {
            let copy = s.to_owned();
            *self = MyCow::Owned(copy);
        }
        match self {
            MyCow::Owned(s) => s,
            MyCow::Borrowed(_) => vstd::pervasive::unreached(),
        }
    }

    /// The text as an owned `String`.
    pub fn into_owned(self) -> (r: String)
        ensures
            r@ == self@,
    {
        match self {
            MyCow::Borrowed(s) => s.to_owned(),
            MyCow::Owned(s) => s,
        }
    }
}

/// The characters of `https://`.
pub open spec fn https_prefix() -> Seq<char> {
    seq!['h', 't', 't', 'p', 's', ':', '/', '/']
}

/// `url` itself when it already starts with `https://`, else `https://`
/// followed by `url`.
pub fn ensure_https<'a>(url: &'a str) -> (r: MyCow<'a>)
    ensures
        starts_with(url@, https_prefix()) ==> r == MyCow::<'a>::Borrowed(url),
        !starts_with(url@, https_prefix()) ==> r is Owned && r@ == https_prefix() + url@,
{
    let prefix = "https://";
    proof {
        reveal_strlit("https://");
        assert(prefix@ =~= https_prefix());
    }
    if str_starts_with(url, prefix) {
        MyCow::Borrowed(url)
    } else {
        MyCow::Owned(concat(prefix, url))
    }
}

/// `s` with every space replaced by an underscore.
pub open spec fn underscored(s: Seq<char>) -> Seq<char> {
    s.map_values(|c: char| if c == ' ' { '_' } else { c })
}

/// `input` itself when it holds no space, else a copy with spaces replaced
/// by underscores.
pub fn sanitize<'a>(input: &'a str) -> (r: MyCow<'a>)
    ensures
        !input@.contains(' ') ==> r == MyCow::<'a>::Borrowed(input),
        input@.contains(' ') ==> r is Owned && r@ == underscored(input@),
{
    let cs = chars_of(input);
    proof {
        lemma_first_index(cs@, ' ');
    }
    match find_char(cs.as_slice(), ' ') {
        None => {
            assert(!input@.contains(' '));
            MyCow::Borrowed(input)
        },
        Some(first) => {
            assert(input@[first as int] == ' ');
            let mut out: Vec<char> = Vec::new();
            let mut i: usize = 0;
            while i < cs.len()
                invariant
                    cs@ == input@,
                    i <= cs.len(),
                    out@ == underscored(cs@).take(i as int),
                decreases cs.len() - i,
            {
                let c = cs[i];
                if c == ' ' {
                    out.push('_');
                } else {
                    out.push(c);
                }
                i = i + 1;
                assert(out@ =~= underscored(cs@).take(i as int));
            }
            assert(underscored(cs@).take(cs.len() as int) =~= underscored(cs@));
            MyCow::Owned(string_of(out.as_slice()))
        },
    }
}

/// A configuration whose name is borrowed or owned.
pub struct Config<'a> {
    pub name: MyCow<'a>,
}

impl<'a> Config<'a> {
    /// A configuration that borrows `name`.
    pub fn borrowed(name: &'a str) -> (c: Config<'a>)
        ensures
            c.name == MyCow::<'a>::Borrowed(name),
    {
        Config { name: MyCow::Borrowed(name) }
    }

    /// A configuration that owns `name`.
    pub fn owned(name: String) -> (c: Config<'a>)
        ensures
            c.name == MyCow::<'a>::Owned(name),
    {
        Config { name: MyCow::Owned(name) }
    }

    /// The configuration's name.
    pub fn name(&self) -> (r: &str)
        ensures
            r@ == self.name@,
    {
        self.name.as_str()
    }
}

/// A slice of integers that is either borrowed or owned.
#[derive(Debug)]
pub enum SliceCow<'a> {
    Borrowed(&'a [i32]),
    Owned(Vec<i32>),
}

impl<'a> View for SliceCow<'a> {
    type V = Seq<i32>;

    open spec fn view(&self) -> Seq<i32> {
        match self {
            SliceCow::Borrowed(s) => s@,
            SliceCow::Owned(v) => v@,
        }
    }
}

impl<'a> SliceCow<'a> {
    /// The elements, whichever variant holds them.
    pub fn as_slice(&self) -> (r: &[i32])
        ensures
            r@ == self@,
    {
        match self {
            SliceCow::Borrowed(s) => *s,
            SliceCow::Owned(v) => v.as_slice(),
        }
    }
}

/// `s` with every negative element replaced by zero.
pub open spec fn clamped(s: Seq<i32>) -> Seq<i32> {
    s.map_values(|x: i32| if x < 0 { 0i32 } else { x })
}

/// Whether some element of `s` is negative.
pub open spec fn has_negative(s: Seq<i32>) -> bool {
    exists|i: int| 0 <= i < s.len() && #[trigger] s[i] < 0
}

/// `input` itself when no element is negative, else an owned copy with the
/// negative elements set to zero; the copy is made at the first negative.
pub fn clamp_negatives<'a>(input: &'a [i32]) -> (r: SliceCow<'a>)
    ensures
        !has_negative(input@) ==> r == SliceCow::<'a>::Borrowed(input),
        has_negative(input@) ==> r is Owned && r@ == clamped(input@),
{
    let mut cow: SliceCow<'a> = SliceCow::Borrowed(input);
    let mut i: usize = 0;
    while i < input.len()
        invariant
            i <= input@.len(),
            !has_negative(input@.take(i as int)) ==> cow == SliceCow::<'a>::Borrowed(input),
            has_negative(input@.take(i as int)) ==> cow is Owned,
            cow@.len() == input@.len(),
            forall|k: int| 0 <= k < i ==> cow@[k] == clamped(input@)[k],
            forall|k: int| i <= k < input@.len() ==> cow@[k] == input@[k],
        decreases input.len() - i,
    {
        if input[i] < 0 {
            let mut owned: Vec<i32> = match cow {
                SliceCow::Borrowed(s) => vstd::slice::slice_to_vec(s),
                SliceCow::Owned(v) => v,
            };
            owned.set(i, 0);
            cow = SliceCow::Owned(owned);
            assert(input@.take(i + 1)[i as int] < 0);
        } else {
            assert forall|j: int| 0 <= j < i + 1 && #[trigger] input@.take(i + 1)[j] < 0 implies
                input@.take(i as int)[j] < 0 by {
                assert(input@.take(i + 1)[j] == input@[j]);
            }
            assert(has_negative(input@.take(i as int)) ==> has_negative(input@.take(i + 1))) by {
                if has_negative(input@.take(i as int)) {
                    let j = choose|j: int| 0 <= j < i && #[trigger] input@.take(i as int)[j] < 0;
                    assert(input@.take(i + 1)[j] == input@.take(i as int)[j]);
                }
            }
        }
        i = i + 1;
    }
    assert(input@.take(input@.len() as int) =~= input@);
    proof {
        if has_negative(input@) {
            assert(cow@ =~= clamped(input@));
        }
    }
    cow
}

/// The characters of `hi there`.
pub open spec fn hi_there() -> Seq<char> {
    seq!['h', 'i', ' ', 't', 'h', 'e', 'r', 'e']
}

/// `name` itself when it is exactly `hi there`, else `hi ` followed by `name`.
pub fn greeting<'a>(name: &'a str) -> (r: MyCow<'a>)
    ensures
        name@ == hi_there() ==> r == MyCow::<'a>::Borrowed(name),
        name@ != hi_there() ==> r is Owned && r@ == seq!['h', 'i', ' '] + name@,
{
    let whole = "hi there";
    let start = "hi ";
    proof {
        reveal_strlit("hi there");
        reveal_strlit("hi ");
        assert(whole@ =~= hi_there());
        assert(start@ =~= seq!['h', 'i', ' ']);
    }
    if str_eq(name, whole) {
        MyCow::Borrowed(name)
    } else {
        MyCow::Owned(concat(start, name))
    }
}

/// The first whitespace-separated word of the text, or the empty string.
pub fn first_word(c: &MyCow) -> (r: String)
    ensures
        words(c@).len() > 0 ==> r@ == words(c@)[0],
        words(c@).len() == 0 ==> r@.len() == 0,
{
    let cs = chars_of(c.as_str());
    let ws = split_words(cs.as_slice());
    if ws.len() == 0 {
        String::new()
    } else {
        string_of(ws[0].as_slice())
    }
}

/// Whether `s` holds an uppercase character.
pub fn contains_upper(s: &str) -> (b: bool)
    ensures
        b == has_upper(s@),
{
    let cs = chars_of(s);
    let mut i: usize = 0;
    while i < cs.len()
        invariant
            cs@ == s@,
            i <= cs.len(),
            forall|k: int| 0 <= k < i ==> !is_upper_char(#[trigger] cs@[k]),
        decreases cs.len() - i,
    {
        if char_is_uppercase(cs[i]) {
            return true;
        }
        i = i + 1;
    }
    false
}

/// What `normalize` makes of one word.
pub open spec fn normalized(w: Seq<char>) -> Seq<char> {
    if has_upper(w) {
        lowercase_of(w)
    } else {
        w
    }
}

/// `c` is what `normalize` makes of `w`: `w` itself when it has no uppercase
/// character, else an owned lower-case copy.
pub open spec fn normalizes_to<'a>(w: &'a str, c: MyCow<'a>) -> bool {
    &&& !has_upper(w@) ==> c == MyCow::<'a>::Borrowed(w)
    &&& has_upper(w@) ==> c is Owned
    &&& c@ == normalized(w@)
}

/// Each word in lower case: words with no uppercase character are borrowed,
/// the others are lowered into owned strings.
pub fn normalize<'a>(ws: &[&'a str]) -> (out: Vec<MyCow<'a>>)
    ensures
        out@.len() == ws@.len(),
        forall|i: int| 0 <= i < ws@.len() ==> normalizes_to(ws@[i], #[trigger] out@[i]),
{
    let mut out: Vec<MyCow<'a>> = Vec::new();
    let mut i: usize = 0;
    while i < ws.len()
        invariant
            i <= ws@.len(),
            out@.len() == i,
            forall|k: int| 0 <= k < i ==> normalizes_to(ws@[k], #[trigger] out@[k]),
        decreases ws.len() - i,
    {
        let w = ws[i];
        if contains_upper(w) {
            out.push(MyCow::Owned(to_lowercase(w)));
        } else {
            out.push(MyCow::Borrowed(w));
        }
        i = i + 1;
    }
    out
}

/// Fixing text is done once: what `ensure_https` and `sanitize` produce needs
/// no further change, so passing it through again borrows it.
pub proof fn law_fixes_settle(url: Seq<char>, input: Seq<char>)
    ensures
        starts_with(https_prefix() + url, https_prefix()),
        !underscored(input).contains(' '),
        underscored(underscored(input)) == underscored(input),
{
    assert((https_prefix() + url).take(https_prefix().len() as int) =~= https_prefix());
    assert forall|i: int| 0 <= i < underscored(input).len() implies underscored(input)[i] != ' ' by {}
    assert(underscored(underscored(input)) =~= underscored(input));
}

/// Clamping is done once: the clamped elements hold no negative, so a second
/// pass borrows them, and clamping them again changes nothing.
pub proof fn law_clamp_settles(s: Seq<i32>)
    ensures
        !has_negative(clamped(s)),
        clamped(clamped(s)) == clamped(s),
{
    assert(clamped(clamped(s)) =~= clamped(s));
}

} // verus!
