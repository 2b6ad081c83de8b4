//! The output formats of the report.

use vstd::prelude::*;
use crate::text::str_eq;

verus! {

/// Supported output formats for budget reports.
#[derive(Debug, Clone, Copy, PartialEq, Eq, Structural)]
pub enum OutputFormat {
    Human,
    Json,
}

impl Default for OutputFormat {
    fn default() -> (f: Self)
        ensures
            f == OutputFormat::Human,
    {
        OutputFormat::Human
    }
}

/// The name of a format on the command line.
pub open spec fn format_name(f: OutputFormat) -> Seq<char> {
    match f {
        OutputFormat::Human => "human"@,
        OutputFormat::Json => "json"@,
    }
}

/// The message for a format name that is not known.
pub open spec fn unsupported_format_message(value: Seq<char>) -> Seq<char> {
    "unsupported output format `"@ + value + "`; expected `human` or `json`"@
}

impl OutputFormat {
    /// The name of this format, as written on the command line.
    pub fn as_str(&self) -> (s: &'static str)
        ensures
            s@ == format_name(*self),
    {
        match self {
            OutputFormat::Human => "human",
            OutputFormat::Json => "json",
        }
    }

    /// Parses a format name: exactly `human` or `json`.
    pub fn parse(value: &str) -> (r: Result<OutputFormat, String>)
        ensures
            value@ == "human"@ ==> r == Ok::<OutputFormat, String>(OutputFormat::Human),
            value@ == "json"@ ==> r == Ok::<OutputFormat, String>(OutputFormat::Json),
            value@ != "human"@ && value@ != "json"@ ==> (r matches Err(m) && m@
                == unsupported_format_message(value@)),
    {
        proof {
            reveal_strlit("human");
            reveal_strlit("json");
            assert("json"@.len() != "human"@.len());
        }
        if str_eq(value, "human") {
            Ok(OutputFormat::Human)
        } else if str_eq(value, "json") {
            Ok(OutputFormat::Json)
        } else {
            let mut m = String::new();
            m.append("unsupported output format `");
            m.append(value);
            m.append("`; expected `human` or `json`");
            Err(m)
        }
    }
}

/// Each format has its own name, and the names are exactly the two that
/// [`OutputFormat::parse`] accepts: parsing a format's name gives the format
/// back.
pub proof fn law_format_name_round_trip(f: OutputFormat)
    ensures
        format_name(f) == "human"@ <==> f == OutputFormat::Human,
        format_name(f) == "json"@ <==> f == OutputFormat::Json,
{
    reveal_strlit("human");
    reveal_strlit("json");
    assert("json"@.len() != "human"@.len());
}

impl std::str::FromStr for OutputFormat {
    type Err = String;

    fn from_str(value: &str) -> (r: Result<Self, Self::Err>)
        ensures
            value@ == "human"@ ==> r == Ok::<OutputFormat, String>(OutputFormat::Human),
            value@ == "json"@ ==> r == Ok::<OutputFormat, String>(OutputFormat::Json),
            value@ != "human"@ && value@ != "json"@ ==> (r matches Err(m) && m@
                == unsupported_format_message(value@)),
    {
        OutputFormat::parse(value)
    }
}

} // verus!
