//! Hand-built error types: validation failures, errors that wrap a cause,
//! and the ways a chain of causes is rendered.
use vstd::prelude::*;
use vstd::string::StringSliceAdditionalSpecFns;
use crate::numparse::{ParseIntError, kind_message, parse_u16, parse_u64, spec_parse_u16, spec_parse_u64};
use crate::text::{
    chars_of, string_of, push_str, format_u64, decimal, is_alnum_char, char_is_alphanumeric,
    find_char, first_index, lemma_first_index, slice_chars, ends_with, str_ends_with, join,
    join_strings,
};

verus! {

/// Result of `char`'s `Debug` formatting (the character quoted, with
/// `char::escape_debug` applied).
pub uninterp spec fn char_debug_text(c: char) -> Seq<char>;

/// Formats a character the way `{:?}` does.
#[verifier::external_body]
fn char_debug(c: char) -> (s: String)
    ensures
        s@ == char_debug_text(c),
{
    format!("{c:?}")
}

/// A username longer than allowed.
#[derive(Debug, Clone, Copy, PartialEq, Eq, Structural)]
pub struct TooLong {
    pub len: usize,
    pub max: usize,
}

impl TooLong {
    /// The message the error displays.
    pub fn message(&self) -> (m: String)
        ensures
            m@ == "username too long: "@ + decimal(self.len as nat) + " chars (max "@ + decimal(
                self.max as nat,
            ) + ")"@,
    {
        let mut m = "username too long: ".to_owned();
        let len = format_u64(self.len as u64);
        let max = format_u64(self.max as u64);
        push_str(&mut m, len.as_str());
        push_str(&mut m, " chars (max ");
        push_str(&mut m, max.as_str());
        push_str(&mut m, ")");
        m
    }
}

/// Accepts a username of at most `max` bytes.
pub fn validate_username(name: &str, max: usize) -> (r: Result<(), TooLong>)
    ensures
        name.spec_bytes().len() as usize <= max ==> r is Ok,
        name.spec_bytes().len() as usize > max ==> r == Err::<(), TooLong>(
            TooLong { len: name.spec_bytes().len() as usize, max },
        ),
{
    if name.len() <= max {
        Ok(())
    } else {
        Err(TooLong { len: name.len(), max })
    }
}

/// The ways a username can be invalid.
#[derive(Debug, Clone, Copy, PartialEq, Eq, Structural)]
pub enum ValidationError {
    TooShort { len: usize, min: usize },
    TooLong { len: usize, max: usize },
    BadChar { ch: char },
}

impl ValidationError {
    /// The message the error displays.
    pub fn message(&self) -> (m: String)
        ensures
            self matches ValidationError::TooShort { len, min } ==> m@ == "username too short: "@
                + decimal(len as nat) + " chars (min "@ + decimal(min as nat) + ")"@,
            self matches ValidationError::TooLong { len, max } ==> m@ == "username too long: "@
                + decimal(len as nat) + " chars (max "@ + decimal(max as nat) + ")"@,
            self matches ValidationError::BadChar { ch } ==> m@
                == "username contains illegal character: "@ + char_debug_text(*ch),
    {
        match self {
            ValidationError::TooShort { len, min } => {
                let mut m = "username too short: ".to_owned();
                let a = format_u64(*len as u64);
                let b = format_u64(*min as u64);
                push_str(&mut m, a.as_str());
                push_str(&mut m, " chars (min ");
                push_str(&mut m, b.as_str());
                push_str(&mut m, ")");
                m
            },
            ValidationError::TooLong { len, max } => TooLong { len: *len, max: *max }.message(),
            ValidationError::BadChar { ch } => {
                let mut m = "username contains illegal character: ".to_owned();
                let d = char_debug(*ch);
                push_str(&mut m, d.as_str());
                m
            },
        }
    }
}

/// Whether `c` may appear in a username.
pub open spec fn allowed(c: char) -> bool {
    is_alnum_char(c) || c == '_'
}

/// Where the first character that may not appear in a username is, or the
/// end of `s`.
pub open spec fn first_bad(s: Seq<char>) -> int
    decreases s.len(),
{
    if s.len() == 0 {
        0
    } else if !allowed(s[0]) {
        0
    } else {
        1 + first_bad(s.drop_first())
    }
}

proof fn lemma_first_bad(s: Seq<char>)
    ensures
        0 <= first_bad(s) <= s.len(),
        forall|i: int| 0 <= i < first_bad(s) ==> allowed(#[trigger] s[i]),
        first_bad(s) < s.len() ==> !allowed(s[first_bad(s)]),
    decreases s.len(),
{
    if s.len() > 0 && allowed(s[0]) {
        lemma_first_bad(s.drop_first());
        assert forall|i: int| 0 <= i < first_bad(s) implies allowed(#[trigger] s[i]) by {
            if i > 0 {
                assert(s[i] == s.drop_first()[i - 1]);
            }
        }
    }
}

/// Checks a username: at least `min` and at most `max` bytes, and made only
/// of alphanumeric characters and underscores; the first rule broken is
/// reported.
pub fn validate(name: &str, min: usize, max: usize) -> (r: Result<(), ValidationError>)
    ensures
        ({
            let len = name.spec_bytes().len() as usize;
            let bad = first_bad(name@);
            if len < min {
                r == Err::<(), ValidationError>(ValidationError::TooShort { len, min })
            } else if len > max {
                r == Err::<(), ValidationError>(ValidationError::TooLong { len, max })
            } else if bad < name@.len() {
                r == Err::<(), ValidationError>(ValidationError::BadChar { ch: name@[bad] })
            } else {
                r is Ok
            }
        }),
{
    let len = name.len();
    if len < min {
        return Err(ValidationError::TooShort { len, min });
    }
    if len > max {
        return Err(ValidationError::TooLong { len, max });
    }
    let cs = chars_of(name);
    let mut i: usize = 0;
    proof {
        lemma_first_bad(name@);
    }
    while i < cs.len()
        invariant
            cs@ == name@,
            len == name.spec_bytes().len() as usize,
            min <= len <= max,
            i <= cs.len(),
            i <= first_bad(name@),
            0 <= first_bad(name@) <= name@.len(),
            forall|k: int| 0 <= k < first_bad(name@) ==> allowed(#[trigger] name@[k]),
            first_bad(name@) < name@.len() ==> !allowed(name@[first_bad(name@)]),
        decreases cs.len() - i,
    {
        let c = cs[i];
        if !(char_is_alphanumeric(c) || c == '_') {
            assert(name@[i as int] == c);
            assert(!allowed(c));
            assert(i as int == first_bad(name@)) by {
                if (i as int) < first_bad(name@) {
                    assert(allowed(name@[i as int]));
                }
            }
            return Err(ValidationError::BadChar { ch: c });
        }
        assert(allowed(name@[i as int]));
        i = i + 1;
    }
    Ok(())
}

/// What can go wrong parsing a `key=port` line.
#[derive(Debug, Clone, PartialEq, Eq)]
pub enum ConfigError {
    /// The line has no `=`.
    Malformed { line: String },
    /// The value is not a port number; the parse failure is the cause.
    BadPort { source: ParseIntError },
}

impl ConfigError {
    /// The message the error displays; a cause is not repeated in it.
    pub fn message(&self) -> (m: String)
        ensures
            self matches ConfigError::Malformed { line } ==> m@ == "malformed config line: "@ + line@,
            self is BadPort ==> m@ == "invalid port number"@,
    {
        match self {
            ConfigError::Malformed { line } => {
                let mut m = "malformed config line: ".to_owned();
                push_str(&mut m, line.as_str());
                m
            },
            ConfigError::BadPort { .. } => "invalid port number".to_owned(),
        }
    }

    /// The error underneath this one, if any.
    pub fn source(&self) -> (s: Option<ParseIntError>)
        ensures
            self matches ConfigError::BadPort { source } ==> s == Some(*source),
            self is Malformed ==> s is None,
    {
        match self {
            ConfigError::BadPort { source } => Some(*source),
            ConfigError::Malformed { .. } => None,
        }
    }
}

/// The text after the first `=` of `line`.
pub open spec fn after_eq(line: Seq<char>) -> Seq<char> {
    line.subrange(first_index(line, '=') + 1, line.len() as int)
}

/// Parses the port out of a `key=port` line.
pub fn parse_config_line(line: &str) -> (r: Result<u16, ConfigError>)
    ensures
        first_index(line@, '=') == line@.len() ==> (r matches Err(ConfigError::Malformed { line: l })
            && l@ == line@),
        first_index(line@, '=') < line@.len() ==> match spec_parse_u16(after_eq(line@)) {
            Ok(v) => r == Ok::<u16, ConfigError>(v as u16),
            Err(k) => r == Err::<u16, ConfigError>(
                ConfigError::BadPort { source: ParseIntError { kind: k } },
            ),
        },
{
    let cs = chars_of(line);
    proof {
        lemma_first_index(line@, '=');
    }
    match find_char(cs.as_slice(), '=') {
        None => Err(ConfigError::Malformed { line: line.to_owned() }),
        Some(at) => {
            assert(at as int == first_index(line@, '=') && at < cs.len());
            let rest = slice_chars(cs.as_slice(), at + 1, cs.len());
            let port = string_of(rest.as_slice());
            match parse_u16(port.as_str()) {
                Ok(v) => Ok(v),
                Err(source) => Err(ConfigError::BadPort { source }),
            }
        },
    }
}

/// What can go wrong loading a count.
#[derive(Debug, Clone, PartialEq, Eq)]
pub enum LoadError {
    /// Reading failed; the text is the reader's message.
    Io(String),
    Parse(ParseIntError),
}

impl LoadError {
    /// The message the error displays.
    pub fn message(&self) -> (m: String)
        ensures
            self matches LoadError::Io(t) ==> m@ == "io error: "@ + t@,
            self matches LoadError::Parse(e) ==> m@ == "parse error: "@ + kind_message(e.kind),
    {
        match self {
            LoadError::Io(t) => {
                let mut m = "io error: ".to_owned();
                push_str(&mut m, t.as_str());
                m
            },
            LoadError::Parse(e) => {
                let mut m = "parse error: ".to_owned();
                let inner = e.message();
                push_str(&mut m, inner.as_str());
                m
            },
        }
    }
}

/// Reads a count: empty input is a read failure, anything else must be a
/// `u64`.
pub fn load_count(raw: &str) -> (r: Result<u64, LoadError>)
    ensures
        raw@.len() == 0 ==> (r matches Err(LoadError::Io(t)) && t@ == "empty input"@),
        raw@.len() > 0 ==> match spec_parse_u64(raw@) {
            Ok(v) => r == Ok::<u64, LoadError>(v as u64),
            Err(k) => r == Err::<u64, LoadError>(LoadError::Parse(ParseIntError { kind: k })),
        },
{
    if raw.is_empty() {
        return Err(LoadError::Io("empty input".to_owned()));
    }
    match parse_u64(raw) {
        Ok(v) => Ok(v),
        Err(e) => Err(LoadError::Parse(e)),
    }
}

/// Loading the application's configuration failed.
#[derive(Debug, Clone, PartialEq, Eq)]
pub enum AppError {
    /// The file could not be read; the reader's message is the cause.
    Read { path: String, cause: String },
    /// The contents were not a valid configuration.
    Config { source: ConfigError },
}

/// The messages of an error and of each cause under it, outermost first.
pub open spec fn app_chain(e: AppError) -> Seq<Seq<char>> {
    match e {
        AppError::Read { path, cause } => seq!["failed to read config file "@ + path@, cause@],
        AppError::Config { source } => match source {
            ConfigError::Malformed { line } => seq!["invalid configuration"@, "malformed config line: "@ + line@],
            ConfigError::BadPort { source } => seq![
                "invalid configuration"@,
                "invalid port number"@,
                kind_message(source.kind),
            ],
        },
    }
}

impl AppError {
    /// The top-level message; causes are left to the chain.
    pub fn message(&self) -> (m: String)
        ensures
            m@ == app_chain(*self)[0],
    {
        match self {
            AppError::Read { path, .. } => {
                let mut m = "failed to read config file ".to_owned();
                push_str(&mut m, path.as_str());
                m
            },
            AppError::Config { .. } => "invalid configuration".to_owned(),
        }
    }

    /// The messages of this error and every cause under it, outermost first.
    pub fn chain(&self) -> (c: Vec<String>)
        ensures
            c@.map_values(|s: String| s@) == app_chain(*self),
    {
        let mut c: Vec<String> = Vec::new();
        c.push(self.message());
        match self {
            AppError::Read { cause, .. } => {
                c.push(cause.clone());
            },
            AppError::Config { source } => {
                c.push(source.message());
                match source {
                    ConfigError::BadPort { source } => {
                        c.push(source.message());
                    },
                    ConfigError::Malformed { .. } => {},
                }
            },
        }
        assert(c@.map_values(|s: String| s@) =~= app_chain(*self));
        c
    }
}

/// Loads the port from a configuration file's path and contents; a path
/// ending in `.missing` cannot be read.
pub fn load_app_config(path: &str, contents: &str) -> (r: Result<u16, AppError>)
    ensures
        ends_with(path@, ".missing"@) ==> (r matches Err(AppError::Read { path: p, cause: s })
            && p@ == path@ && s@ == "file not found"@),
        !ends_with(path@, ".missing"@) ==> match parse_config_line_spec(contents@) {
            Ok(v) => r == Ok::<u16, AppError>(v as u16),
            Err(()) => r matches Err(AppError::Config { source }) && config_error_matches(
                source,
                contents@,
            ),
        },
{
    proof {
        lemma_first_index(contents@, '=');
    }
    if str_ends_with(path, ".missing") {
        return Err(AppError::Read { path: path.to_owned(), cause: "file not found".to_owned() });
    }
    match parse_config_line(contents) {
        Ok(v) => Ok(v),
        Err(source) => Err(AppError::Config { source }),
    }
}

/// The port a `key=port` line holds, if it holds one.
pub open spec fn parse_config_line_spec(line: Seq<char>) -> Result<int, ()> {
    if first_index(line, '=') == line.len() {
        Err(())
    } else {
        match spec_parse_u16(after_eq(line)) {
            Ok(v) => Ok(v),
            Err(_) => Err(()),
        }
    }
}

/// Whether `e` is the error `parse_config_line` reports for `line`.
pub open spec fn config_error_matches(e: ConfigError, line: Seq<char>) -> bool {
    if first_index(line, '=') == line.len() {
        e matches ConfigError::Malformed { line: l } && l@ == line
    } else {
        match spec_parse_u16(after_eq(line)) {
            Err(k) => e == ConfigError::BadPort { source: ParseIntError { kind: k } },
            Ok(_) => false,
        }
    }
}

/// The messages of a chain joined by `": "`, outermost first.
pub fn format_chain(links: &[String]) -> (s: String)
    ensures
        s@ == join(links@.map_values(|p: String| p@), ": "@),
{
    join_strings(links, ": ")
}

/// The deepest cause of a non-empty chain: its last message.
pub fn describe_root(links: &[String]) -> (root: String)
    requires
        links.len() > 0,
    ensures
        root@ == links@.last()@,
{
    links[links.len() - 1].clone()
}

/// The lines after the first in a report: `"\n    i: message"` for each
/// cause, numbered from zero.
pub open spec fn cause_lines(causes: Seq<Seq<char>>) -> Seq<char>
    decreases causes.len(),
{
    if causes.len() == 0 {
        seq![]
    } else {
        cause_lines(causes.drop_last()) + "\n    "@ + decimal((causes.len() - 1) as nat) + ": "@
            + causes.last()
    }
}

/// The multi-line report of a chain: the top message, then, if there are
/// causes, a blank line, `Caused by:` and one numbered line per cause.
pub open spec fn report_text(links: Seq<Seq<char>>) -> Seq<char> {
    if links.len() <= 1 {
        links[0]
    } else {
        links[0] + "\n\nCaused by:"@ + cause_lines(links.drop_first())
    }
}

/// Renders a non-empty chain as a report.
pub fn report(links: &[String]) -> (s: String)
    requires
        links.len() > 0,
    ensures
        s@ == report_text(links@.map_values(|p: String| p@)),
{
    let ghost views = links@.map_values(|p: String| p@);
    let mut s = links[0].clone();
    if links.len() == 1 {
        return s;
    }
    push_str(&mut s, "\n\nCaused by:");
    let ghost head = s@;
    let mut i: usize = 1;
    assert(views.drop_first().take(0) =~= Seq::<Seq<char>>::empty());
    while i < links.len()
        invariant
            1 <= i <= links.len(),
            views == links@.map_values(|p: String| p@),
            s@ == head + cause_lines(views.drop_first().take(i - 1)),
        decreases links.len() - i,
    {
        let n = format_u64((i - 1) as u64);
        push_str(&mut s, "\n    ");
        push_str(&mut s, n.as_str());
        push_str(&mut s, ": ");
        push_str(&mut s, links[i].as_str());
        proof {
            let causes = views.drop_first().take(i as int);
            assert(causes.drop_last() =~= views.drop_first().take(i - 1));
            assert(causes.last() == links@[i as int]@);
        }
        i = i + 1;
    }
    assert(views.drop_first().take(links.len() - 1) =~= views.drop_first());
    s
}

} // verus!
