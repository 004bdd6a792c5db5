//! Build configuration made explicit: what each output of a feature-gated
//! build says, as a function of the flags the build was made with.
use vstd::prelude::*;
use crate::text::{push_str, format_i64, format_u64, signed_decimal, decimal};

verus! {

/// The configuration flags a build was made with.
#[derive(Debug, Clone, Copy, PartialEq, Eq, Structural)]
pub struct BuildFlags {
    pub debug_assertions: bool,
    pub linux: bool,
    pub pointer_64: bool,
    pub metric: bool,
    pub imperial: bool,
    pub color: bool,
    pub demo: bool,
    pub dice: bool,
    pub json: bool,
    pub pretty: bool,
}

/// `"debug"` or `"release"`, followed by `" on linux"` on Linux.
pub open spec fn profile_text(debug: bool, linux: bool) -> Seq<char> {
    (if debug {
        "debug"@
    } else {
        "release"@
    }) + (if linux {
        " on linux"@
    } else {
        ""@
    })
}

/// Describes the build profile and platform.
pub fn build_profile(flags: &BuildFlags) -> (s: String)
    ensures
        s@ == profile_text(flags.debug_assertions, flags.linux),
{
    let mut s = String::new();
    if flags.debug_assertions {
        push_str(&mut s, "debug");
    } else {
        push_str(&mut s, "release");
    }
    if flags.linux {
        push_str(&mut s, " on linux");
    }
    proof {
        reveal_strlit("");
    }
    assert(s@ =~= profile_text(flags.debug_assertions, flags.linux));
    s
}

/// Names the pointer width the build targets.
pub fn platform_tag(pointer_64: bool) -> (tag: &'static str)
    ensures
        tag@ == (if pointer_64 {
            "64-bit"@
        } else {
            "non-64-bit"@
        }),
{
    if pointer_64 {
        "64-bit"
    } else {
        "non-64-bit"
    }
}

/// The line a `demo` build offers.
pub fn feature_line() -> (line: &'static str)
    ensures
        line@ == "demo enabled"@,
{
    "demo enabled"
}

/// The views of a list of names.
pub open spec fn names(v: Seq<&'static str>) -> Seq<Seq<char>> {
    v.map_values(|s: &'static str| s@)
}

/// `name` when `on` holds, nothing otherwise.
pub open spec fn when(on: bool, name: Seq<char>) -> Seq<Seq<char>> {
    if on {
        seq![name]
    } else {
        seq![]
    }
}

/// The measuring units switched on; the two features add up rather than
/// exclude each other.
pub fn enabled_units(metric: bool, imperial: bool) -> (units: Vec<&'static str>)
    ensures
        names(units@) == when(metric, "meters"@) + when(imperial, "feet"@),
{
    let mut units: Vec<&'static str> = Vec::new();
    if metric {
        units.push("meters");
    }
    if imperial {
        units.push("feet");
    }
    assert(names(units@) =~= when(metric, "meters"@) + when(imperial, "feet"@));
    units
}

/// How `describe` renders a labelled number.
pub open spec fn described(label: Seq<char>, n: int, demo: bool) -> Seq<char> {
    if demo {
        "[ "@ + label + " = "@ + signed_decimal(n) + " ]"@
    } else {
        label + "="@ + signed_decimal(n)
    }
}

/// A labelled number: bracketed by the `demo` build, plain otherwise.
pub fn describe(label: &str, n: i32, demo: bool) -> (s: String)
    ensures
        s@ == described(label@, n as int, demo),
{
    let num = format_i64(n as i64);
    let mut s = String::new();
    if demo {
        push_str(&mut s, "[ ");
        push_str(&mut s, label);
        push_str(&mut s, " = ");
        push_str(&mut s, num.as_str());
        push_str(&mut s, " ]");
    } else {
        push_str(&mut s, label);
        push_str(&mut s, "=");
        push_str(&mut s, num.as_str());
    }
    assert(s@ =~= described(label@, n as int, demo));
    s
}

/// The names of the switched-on features among metric, color, demo, dice
/// and imperial, in that order.
pub open spec fn active_names(f: BuildFlags) -> Seq<Seq<char>> {
    when(f.metric, "metric"@) + when(f.color, "color"@) + when(f.demo, "demo"@) + when(
        f.dice,
        "dice"@,
    ) + when(f.imperial, "imperial"@)
}

/// Lists the switched-on features.
pub fn active_features(flags: &BuildFlags) -> (active: Vec<&'static str>)
    ensures
        names(active@) == active_names(*flags),
{
    let mut active: Vec<&'static str> = Vec::new();
    if flags.metric {
        active.push("metric");
    }
    if flags.color {
        active.push("color");
    }
    if flags.demo {
        active.push("demo");
    }
    if flags.dice {
        active.push("dice");
    }
    if flags.imperial {
        active.push("imperial");
    }
    assert(names(active@) =~= active_names(*flags));
    active
}

/// A random number from `low` to `high` inclusive, drawn by
/// `rand::random_range` from the thread-local generator.
#[verifier::external_body]
fn random_in(low: u32, high: u32) -> (r: u32)
    requires
        low <= high,
    ensures
        low <= r <= high,
{
    rand::random_range(low..=high)
}

/// Rolls a six-sided die.
pub fn roll_die() -> (face: u32)
    ensures
        1 <= face <= 6,
{
    random_in(1, 6)
}

/// Where the application keeps its configuration on this platform.
pub fn config_dir(linux: bool) -> (dir: &'static str)
    ensures
        dir@ == (if linux {
            "/etc/app"@
        } else {
            "/tmp/app"@
        }),
{
    if linux {
        "/etc/app"
    } else {
        "/tmp/app"
    }
}

/// What the service reports about itself.
#[derive(Debug, Clone, Copy)]
pub struct Report {
    pub name: &'static str,
    pub level: u8,
}

/// The line a `pretty` build prints for a report.
pub fn pretty_line(r: &Report) -> (line: String)
    ensures
        line@ == r.name@ + " @ level "@ + decimal(r.level as nat),
{
    let level = format_u64(r.level as u64);
    let mut line = String::new();
    push_str(&mut line, r.name);
    push_str(&mut line, " @ level ");
    push_str(&mut line, level.as_str());
    assert(line@ =~= r.name@ + " @ level "@ + decimal(r.level as nat));
    line
}

/// The output formats a build produces: both named formats add up, and
/// with neither the report falls back to its debug form.
pub open spec fn outputs_text(json: bool, pretty: bool) -> Seq<char> {
    if json && pretty {
        "json,pretty"@
    } else if json {
        "json"@
    } else if pretty {
        "pretty"@
    } else {
        "debug"@
    }
}

/// One line naming the platform and the active output formats.
pub fn build_report(linux: bool, json: bool, pretty: bool) -> (s: String)
    ensures
        s@ == (if linux {
            "linux"@
        } else {
            "non-linux"@
        }) + " outputs="@ + outputs_text(json, pretty),
{
    let platform = if linux {
        "linux"
    } else {
        "non-linux"
    };
    let outputs = if json && pretty {
        "json,pretty"
    } else if json {
        "json"
    } else if pretty {
        "pretty"
    } else {
        "debug"
    };
    let mut s = String::new();
    push_str(&mut s, platform);
    push_str(&mut s, " outputs=");
    push_str(&mut s, outputs);
    assert(s@ =~= (if linux {
        "linux"@
    } else {
        "non-linux"@
    }) + " outputs="@ + outputs_text(json, pretty));
    s
}

} // verus!
