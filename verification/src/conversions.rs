//! Conversions between types: owned tags, range-checked values, checked
//! narrowing, borrowed views, file extensions and a small dynamic value.
use vstd::prelude::*;
use vstd::std_specs::convert::{TryFromSpecImpl, TryIntoSpec};
use crate::text::{chars_of, string_of, push_char, to_uppercase, uppercase_of, slice_chars, str_eq};
use crate::numparse::{ParseIntError, parse_i32, spec_parse_i32};

verus! {

/// A label that owns its text.
#[derive(Debug, PartialEq, Eq)]
pub struct Tag {
    pub name: String,
}

impl Tag {
    /// A tag holding a copy of `name`.
    pub fn new(name: &str) -> (t: Tag)
        ensures
            t.name@ == name@,
    {
        Tag { name: name.to_owned() }
    }

    /// A tag whose name is the single character `c`.
    pub fn from_char(c: char) -> (t: Tag)
        ensures
            t.name@ == seq![c],
    {
        let mut name = String::new();
        push_char(&mut name, c);
        Tag { name }
    }
}

/// Why a configuration value was refused.
#[derive(Debug, Clone, Copy, PartialEq, Eq, Structural)]
pub enum ConfigError {
    NotANumber(ParseIntError),
    OutOfRange(i32),
}

/// What `parse_config` gives for the text `s`.
pub open spec fn parse_config_spec(s: Seq<char>) -> Result<i32, ConfigError> {
    match spec_parse_i32(s) {
        Err(k) => Err(ConfigError::NotANumber(ParseIntError { kind: k })),
        Ok(n) => if 0 <= n <= 100 {
            Ok(n as i32)
        } else {
            Err(ConfigError::OutOfRange(n as i32))
        },
    }
}

/// Parses a setting that must be a decimal `i32` between 0 and 100 inclusive.
pub fn parse_config(s: &str) -> (r: Result<i32, ConfigError>)
    ensures
        r == parse_config_spec(s@),
{
    let n = match parse_i32(s) {
        Ok(n) => n,
        Err(e) => return Err(ConfigError::NotANumber(e)),
    };
    if !(0 <= n && n <= 100) {
        return Err(ConfigError::OutOfRange(n));
    }
    Ok(n)
}

/// A percentage: an integer from 0 to 100.
#[derive(Debug, Clone, Copy, PartialEq, Eq, Structural)]
pub struct Percent(pub i32);

/// A value outside 0..=100 offered as a percentage.
#[derive(Debug, Clone, Copy, PartialEq, Eq, Structural)]
pub enum PercentError {
    OutOfRange(i32),
}

impl TryFrom<i32> for Percent {
    type Error = PercentError;

    fn try_from(value: i32) -> (r: Result<Percent, PercentError>) {
        if value < 0 || value > 100 {
            return Err(PercentError::OutOfRange(value));
        }
        Ok(Percent(value))
    }
}

impl TryFromSpecImpl<i32> for Percent {
    open spec fn obeys_try_from_spec() -> bool {
        true
    }

    open spec fn try_from_spec(value: i32) -> Result<Percent, PercentError> {
        if value < 0 || value > 100 {
            Err(PercentError::OutOfRange(value))
        } else {
            Ok(Percent(value))
        }
    }
}

/// Converts `value` to a `u8`, failing where it does not fit.
pub fn narrow<T: TryInto<u8>>(value: T) -> (r: Result<u8, T::Error>)
    ensures
        <T as TryIntoSpec<u8>>::obeys_try_into_spec() ==> r == <T as TryIntoSpec<
            u8,
        >>::try_into_spec(value),
{
    value.try_into()
}

/// `s` in upper case.
pub fn shout(s: &str) -> (r: String)
    ensures
        r@ == uppercase_of(s@),
{
    to_uppercase(s)
}

/// The number of bytes in `b`.
pub fn byte_len(b: &[u8]) -> (n: usize)
    ensures
        n == b@.len(),
{
    b.len()
}

/// Where `c` last occurs in `s`, or -1 if it does not.
pub open spec fn last_index(s: Seq<char>, c: char) -> int
    decreases s.len(),
{
    if s.len() == 0 {
        -1
    } else if s.last() == c {
        s.len() - 1
    } else {
        last_index(s.drop_last(), c)
    }
}

/// `last_index` is an occurrence of `c` with none after it, or -1 with none at all.
pub proof fn lemma_last_index(s: Seq<char>, c: char)
    ensures
        -1 <= last_index(s, c) < s.len(),
        last_index(s, c) >= 0 ==> s[last_index(s, c)] == c,
        forall|k: int| last_index(s, c) < k < s.len() ==> s[k] != c,
    decreases s.len(),
{
    if s.len() > 0 && s.last() != c {
        lemma_last_index(s.drop_last(), c);
        assert forall|k: int| last_index(s, c) < k < s.len() implies s[k] != c by {
            if k < s.len() - 1 {
                assert(s[k] == s.drop_last()[k]);
            }
        }
    }
}

/// The position of the last `c` in `cs`, if any.
pub fn rfind_char(cs: &[char], c: char) -> (r: Option<usize>)
    ensures
        r matches Some(i) ==> i < cs@.len() && i == last_index(cs@, c),
        r is None ==> last_index(cs@, c) == -1,
{
    proof {
        lemma_last_index(cs@, c);
    }
    let mut j: usize = cs.len();
    while j > 0 && cs[j - 1] != c
        invariant
            j <= cs.len(),
            forall|k: int| j <= k < cs@.len() ==> cs@[k] != c,
        decreases j,
    {
        j = j - 1;
    }
    if j == 0 {
        None
    } else {
        Some(j - 1)
    }
}

/// A path with trailing separators and trailing `.` components removed.
pub open spec fn trim_tail(s: Seq<char>) -> Seq<char>
    decreases s.len(),
{
    if s.len() > 1 && s.last() == '/' {
        trim_tail(s.drop_last())
    } else if s.len() > 1 && s.last() == '.' && s[s.len() - 2] == '/' {
        trim_tail(s.drop_last())
    } else {
        s
    }
}

/// The last component of a path: the text after the last separator once
/// trailing separators and `.` components are removed.
pub open spec fn last_component(s: Seq<char>) -> Seq<char> {
    let t = trim_tail(s);
    t.subrange(last_index(t, '/') + 1, t.len() as int)
}

/// Whether a last component names a file: it is not empty, `.` or `..`.
pub open spec fn names_file(name: Seq<char>) -> bool {
    name.len() > 0 && name != seq!['.'] && name != seq!['.', '.']
}

/// The extension of the file that a path names: the text after the last `.`
/// of the file name, unless that `.` is the name's first character.
pub open spec fn extension_spec(path: Seq<char>) -> Option<Seq<char>> {
    let name = last_component(path);
    let d = last_index(name, '.');
    if !names_file(name) || d <= 0 {
        None
    } else {
        Some(name.subrange(d + 1, name.len() as int))
    }
}

/// The extension of the file that `p` names, if it has one.
pub fn extension(p: &str) -> (r: Option<String>)
    ensures
        match extension_spec(p@) {
            Some(e) => r is Some && r->Some_0@ == e,
            None => r is None,
        },
{
    let cs = chars_of(p);
    let mut n: usize = cs.len();
    assert(cs@.take(cs@.len() as int) =~= cs@);
    while n > 1 && (cs[n - 1] == '/' || (cs[n - 1] == '.' && cs[n - 2] == '/'))
        invariant
            n <= cs.len(),
            trim_tail(cs@.take(n as int)) == trim_tail(cs@),
        decreases n,
    {
        assert(cs@.take(n as int).drop_last() =~= cs@.take(n - 1));
        n = n - 1;
    }
    let t = slice_chars(cs.as_slice(), 0, n);
    assert(t@ =~= cs@.take(n as int));
    assert(trim_tail(t@) == t@);
    let start: usize = match rfind_char(t.as_slice(), '/') {
        Some(i) => i + 1,
        None => 0,
    };
    let name = slice_chars(t.as_slice(), start, t.len());
    assert(name@ =~= last_component(cs@));
    let is_dot = name.len() == 1 && name[0] == '.';
    let is_dotdot = name.len() == 2 && name[0] == '.' && name[1] == '.';
    if name.len() == 0 || is_dot || is_dotdot {
        proof {
            if name.len() == 1 {
                assert(name@ =~= seq!['.']);
            }
            if name.len() == 2 {
                assert(name@ =~= seq!['.', '.']);
            }
        }
        return None;
    }
    assert(name@ != seq!['.']) by {
        if name@.len() == 1 {
            assert(seq!['.'][0] == '.');
        }
    }
    assert(name@ != seq!['.', '.']) by {
        if name@.len() == 2 {
            assert(seq!['.', '.'][0] == '.' && seq!['.', '.'][1] == '.');
        }
    }
    match rfind_char(name.as_slice(), '.') {
        None => None,
        Some(d) => {
            if d == 0 {
                None
            } else {
                let ext = slice_chars(name.as_slice(), d + 1, name.len());
                Some(string_of(ext.as_slice()))
            }
        },
    }
}

/// Every element doubled.
pub fn double_all(data: Vec<i32>) -> (r: Vec<i32>)
    requires
        forall|i: int| 0 <= i < data@.len() ==> i32::MIN <= 2 * #[trigger] data@[i] <= i32::MAX,
    ensures
        r@.len() == data@.len(),
        forall|i: int| 0 <= i < data@.len() ==> r@[i] == 2 * data@[i],
{
    let mut data = data;
    let ghost orig = data@;
    let mut i: usize = 0;
    while i < data.len()
        invariant
            data@.len() == orig.len(),
            i <= data@.len(),
            forall|k: int| 0 <= k < orig.len() ==> i32::MIN <= 2 * #[trigger] orig[k] <= i32::MAX,
            forall|k: int| 0 <= k < i ==> data@[k] == 2 * orig[k],
            forall|k: int| i <= k < data@.len() ==> data@[k] == orig[k],
        decreases data.len() - i,
    {
        let x = data[i];
        assert(orig[i as int] == x);
        data.set(i, 2 * x);
        i = i + 1;
    }
    data
}

/// A dynamically typed value; `N` is the type its numbers are held in.
#[derive(Debug, PartialEq)]
pub enum Value<N> {
    Null,
    Bool(bool),
    Num(N),
    Str(String),
    Array(Vec<Value<N>>),
    Object(Vec<(String, Value<N>)>),
}

/// A value of another kind than the one asked for.
#[derive(Debug, Clone, Copy, PartialEq, Eq, Structural)]
pub struct WrongType;

/// Where the entry keyed `key` first stands in `entries`, or their length.
pub open spec fn key_index<N>(entries: Seq<(String, Value<N>)>, key: Seq<char>) -> int
    decreases entries.len(),
{
    if entries.len() == 0 {
        0
    } else if entries[0].0@ == key {
        0
    } else {
        1 + key_index(entries.drop_first(), key)
    }
}

/// `key_index` lands on the first entry with that key, or on the end.
pub proof fn lemma_key_index<N>(entries: Seq<(String, Value<N>)>, key: Seq<char>)
    ensures
        0 <= key_index(entries, key) <= entries.len(),
        forall|i: int| 0 <= i < key_index(entries, key) ==> entries[i].0@ != key,
        key_index(entries, key) < entries.len() ==> entries[key_index(entries, key)].0@ == key,
    decreases entries.len(),
{
    if entries.len() > 0 && entries[0].0@ != key {
        lemma_key_index(entries.drop_first(), key);
        assert forall|i: int| 0 <= i < key_index(entries, key) implies entries[i].0@ != key by {
            if i > 0 {
                assert(entries[i] == entries.drop_first()[i - 1]);
            }
        }
    }
}

impl<N> Value<N> {
    /// What `get` gives: the value of the first entry keyed `key` in an
    /// object, and nothing for other values or missing keys.
    pub open spec fn lookup(&self, key: Seq<char>) -> Option<Value<N>> {
        match self {
            Value::Object(entries) => {
                let i = key_index(entries@, key);
                if i < entries@.len() {
                    Some(entries@[i].1)
                } else {
                    None
                }
            },
            _ => None,
        }
    }

    /// The value stored under `key`, where `self` is an object that has it.
    pub fn get(&self, key: &str) -> (r: Option<&Value<N>>)
        ensures
            match self.lookup(key@) {
                Some(v) => r is Some && *r->Some_0 == v,
                None => r is None,
            },
    {
        match self {
            Value::Object(entries) => {
                proof {
                    lemma_key_index(entries@, key@);
                }
                let mut i: usize = 0;
                while i < entries.len()
                    invariant
                        *self == Value::<N>::Object(*entries),
                        i <= entries@.len(),
                        forall|k: int| 0 <= k < i ==> entries@[k].0@ != key@,
                        0 <= key_index(entries@, key@) <= entries@.len(),
                        forall|k: int|
                            0 <= k < key_index(entries@, key@) ==> entries@[k].0@ != key@,
                        key_index(entries@, key@) < entries@.len() ==> entries@[key_index(
                            entries@,
                            key@,
                        )].0@ == key@,
                    decreases entries.len() - i,
                {
                    if str_eq(entries[i].0.as_str(), key) {
                        proof {
                            let ki = key_index(entries@, key@);
                            if ki < i {
                                assert(entries@[ki].0@ != key@);
                            }
                            assert(ki == i);

                        }
                        return Some(&entries[i].1);
                    }
                    i = i + 1;
                }
                None
            },
            _ => None,
        }
    }

    /// The number held, if `self` is a number.
    pub fn into_num(self) -> (r: Result<N, WrongType>)
        ensures
            match self {
                Value::Num(n) => r == Ok::<N, WrongType>(n),
                _ => r == Err::<N, WrongType>(WrongType),
            },
    {
        match self {
            Value::Num(n) => Ok(n),
            _ => Err(WrongType),
        }
    }

    /// The text held, if `self` is a string.
    pub fn into_string(self) -> (r: Result<String, WrongType>)
        ensures
            match self {
                Value::Str(s) => r is Ok && r->Ok_0@ == s@,
                _ => r == Err::<String, WrongType>(WrongType),
            },
    {
        match self {
            Value::Str(s) => Ok(s),
            _ => Err(WrongType),
        }
    }
}

} // verus!
