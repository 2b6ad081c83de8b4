//! Tier A limit keys and the measurement records they are derived from.

use vstd::prelude::*;
use crate::text::{chars_of, str_eq};

verus! {

/// One measurement record of a Tier B report.
#[derive(Debug, Clone, PartialEq, Eq)]
pub struct TierBMeasurement {
    pub package: String,
    pub function: String,
    pub metric: String,
    pub value: u64,
}

/// The schema version a wrapped Tier B report has when it names none.
pub fn default_schema_version() -> (v: u32)
    ensures
        v == 1,
{
    1
}

/// `c` with ASCII lower-case letters mapped to upper case.
pub open spec fn ascii_upper(c: char) -> char {
    if 'a' <= c && c <= 'z' {
        ((c as u32) - 32) as char
    } else {
        c
    }
}

/// `s` in ASCII upper case.
pub open spec fn upper(s: Seq<char>) -> Seq<char> {
    s.map_values(|c: char| ascii_upper(c))
}

/// A package name as a key segment: `-` becomes `_`, then upper case.
pub open spec fn package_segment(s: Seq<char>) -> Seq<char> {
    s.map_values(|c: char| ascii_upper(if c == '-' { '_' } else { c }))
}

/// The key segment of a metric label.
pub open spec fn metric_segment(label: Seq<char>) -> Seq<char> {
    if label == "CPU Instructions"@ {
        "CPU"@
    } else if label == "Memory Bytes"@ || label == "Memory bytes"@ || label == "memory_bytes"@ {
        "MEM"@
    } else if label == "Read Bytes"@ {
        "READ"@
    } else if label == "Write Bytes"@ {
        "WRITE"@
    } else {
        "UNKNOWN"@
    }
}

/// The key segment of a metric label: `CPU`, `MEM`, `READ`, `WRITE`, or
/// `UNKNOWN` for a label that is none of the known ones.
pub fn metric_to_env_segment(metric_label: &str) -> (s: &'static str)
    ensures
        s@ == metric_segment(metric_label@),
{
    if str_eq(metric_label, "CPU Instructions") {
        "CPU"
    } else if str_eq(metric_label, "Memory Bytes") || str_eq(metric_label, "Memory bytes")
        || str_eq(metric_label, "memory_bytes") {
        "MEM"
    } else if str_eq(metric_label, "Read Bytes") {
        "READ"
    } else if str_eq(metric_label, "Write Bytes") {
        "WRITE"
    } else {
        "UNKNOWN"
    }
}

fn upper_char(c: char) -> (r: char)
    ensures
        r == ascii_upper(c),
{
    if 'a' <= c && c <= 'z' {
        let b = (c as u32) - 32;
        assert(b < 128);
        (b as u8) as char
    } else {
        c
    }
}

/// Appends `s` in ASCII upper case, with `-` as `_` when `dash` is set.
fn push_upper(out: &mut String, s: &str, dash: bool)
    ensures
        dash ==> final(out)@ == old(out)@ + package_segment(s@),
        !dash ==> final(out)@ == old(out)@ + upper(s@),
{
    let cs = chars_of(s);
    let ghost start = out@;
    let mut i: usize = 0;
    while i < cs.len()
        invariant
            i <= cs@.len(),
            cs@ == s@,
            dash ==> out@ == start + package_segment(s@).take(i as int),
            !dash ==> out@ == start + upper(s@).take(i as int),
        decreases cs.len() - i,
    {
        let c = cs[i];
        let d = if dash && c == '-' {
            '_'
        } else {
            c
        };
        let u = upper_char(d);
        out.push(u);
        proof {
            assert(package_segment(s@).take(i + 1) =~= package_segment(s@).take(i as int).push(
                package_segment(s@)[i as int],
            ));
            assert(upper(s@).take(i + 1) =~= upper(s@).take(i as int).push(upper(s@)[i as int]));
        }
        i = i + 1;
    }
    proof {
        assert(package_segment(s@).take(i as int) =~= package_segment(s@));
        assert(upper(s@).take(i as int) =~= upper(s@));
    }
}

/// The environment variable key of a function's limit:
/// `TIER_A__<PACKAGE>__<FUNCTION>__<METRIC>`, or
/// `TIER_A__<PACKAGE>__<METRIC>` when the function name is empty.
pub open spec fn function_key(package: Seq<char>, function: Seq<char>, metric: Seq<char>) -> Seq<
    char,
> {
    if function.len() == 0 {
        "TIER_A__"@ + package_segment(package) + "__"@ + metric_segment(metric)
    } else {
        "TIER_A__"@ + package_segment(package) + "__"@ + upper(function) + "__"@ + metric_segment(
            metric,
        )
    }
}

/// The environment variable key of a scenario's limit.
pub open spec fn scenario_key(package: Seq<char>, scenario: Seq<char>, metric: Seq<char>) -> Seq<
    char,
> {
    "TIER_A__"@ + package_segment(package) + "__SCENARIO__"@ + upper(scenario) + "__"@
        + metric_segment(metric)
}

/// The environment variable key of a function's limit, as
/// [`function_key`] describes.
pub fn env_var_key(package: &str, function: &str, metric_label: &str) -> (k: String)
    ensures
        k@ == function_key(package@, function@, metric_label@),
{
    let segment = metric_to_env_segment(metric_label);
    let mut k = String::new();
    k.append("TIER_A__");
    push_upper(&mut k, package, true);
    k.append("__");
    if function.unicode_len() != 0 {
        push_upper(&mut k, function, false);
        k.append("__");
    }
    k.append(segment);
    k
}

/// The environment variable key of a scenario's limit:
/// `TIER_A__<PACKAGE>__SCENARIO__<SCENARIO>__<METRIC>`.
pub fn env_var_scenario_key(package: &str, scenario: &str, metric_label: &str) -> (k: String)
    ensures
        k@ == scenario_key(package@, scenario@, metric_label@),
{
    let segment = metric_to_env_segment(metric_label);
    let mut k = String::new();
    k.append("TIER_A__");
    push_upper(&mut k, package, true);
    k.append("__SCENARIO__");
    push_upper(&mut k, scenario, false);
    k.append("__");
    k.append(segment);
    k
}

} // verus!
