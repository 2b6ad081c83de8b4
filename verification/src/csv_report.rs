//! CSV rendering of cost reports.

use vstd::prelude::*;
use crate::text::{decimal, push_decimal};

verus! {

/// One measured metric of one function, with its optional limit check.
#[derive(Debug, Clone, Default, PartialEq)]
pub struct CostReport {
    pub package: String,
    pub function: String,
    pub metric: &'static str,
    pub value: Option<u32>,
    pub limit: Option<u64>,
    pub pass: Option<bool>,
}

/// A field must be quoted when it holds the delimiter `,`, the quote `"`, or
/// a line break (`\r` or `\n`).
pub open spec fn csv_needs_quotes(f: Seq<char>) -> bool {
    exists|i: int| 0 <= i < f.len() && (f[i] == ',' || f[i] == '"' || f[i] == '\r' || f[i] == '\n')
}

/// `f` with every `"` doubled.
pub open spec fn double_quotes(f: Seq<char>) -> Seq<char>
    decreases f.len(),
{
    if f.len() == 0 {
        Seq::empty()
    } else {
        (if f[0] == '"' {
            seq!['"', '"']
        } else {
            seq![f[0]]
        }) + double_quotes(f.drop_first())
    }
}

/// One field as written: as it is, or enclosed in `"` with inner quotes
/// doubled when it must be quoted.
pub open spec fn csv_field_text(f: Seq<char>) -> Seq<char> {
    if csv_needs_quotes(f) {
        seq!['"'] + double_quotes(f) + seq!['"']
    } else {
        f
    }
}

/// The fields as written, separated by `,`.
pub open spec fn csv_joined(fields: Seq<Seq<char>>) -> Seq<char>
    decreases fields.len(),
{
    if fields.len() == 0 {
        Seq::empty()
    } else if fields.len() == 1 {
        csv_field_text(fields[0])
    } else {
        csv_field_text(fields[0]) + seq![','] + csv_joined(fields.drop_first())
    }
}

/// The text of one record written by the `csv` crate's default writer: the
/// fields joined by `,`, then `\n`.  A record that would otherwise be empty
/// (no field, or one empty field) is written as `""`.
pub open spec fn csv_record_text(fields: Seq<Seq<char>>) -> Seq<char> {
    if fields.len() == 0 || (fields.len() == 1 && fields[0].len() == 0) {
        "\"\"\n"@
    } else {
        csv_joined(fields) + "\n"@
    }
}

/// `csv::Writer::write_record` on a fresh writer over a `Vec<u8>`, read
/// back with `into_inner` and `String::from_utf8`.  With the default
/// configuration (delimiter `,`, quote `"` doubled inside quoted fields,
/// terminator `\n`, quoting only where necessary) the text is
/// [`csv_record_text`] of the fields.  Writing into memory does not fail,
/// the single record cannot have a field count that differs from an earlier
/// one, and the output of UTF-8 fields is UTF-8.
#[verifier::external_body]
fn csv_record(fields: &[&str]) -> (r: String)
    ensures
        r@ == csv_record_text(fields@.map_values(|f: &str| f@)),
{
    let mut writer = csv::Writer::from_writer(Vec::new());
    writer.write_record(fields).expect("writing to memory does not fail");
    let bytes = writer.into_inner().expect("flushing to memory does not fail");
    String::from_utf8(bytes).expect("CSV of UTF-8 fields is UTF-8")
}

/// An optional number as text: its decimal digits, or nothing.
pub open spec fn optional_number_text(v: Option<u64>) -> Seq<char> {
    match v {
        Some(x) => decimal(x as nat),
        None => Seq::empty(),
    }
}

/// An optional verdict as text: `true`, `false`, or nothing.
pub open spec fn optional_verdict_text(p: Option<bool>) -> Seq<char> {
    match p {
        Some(true) => "true"@,
        Some(false) => "false"@,
        None => Seq::empty(),
    }
}

/// The value of a report as an optional `u64`.
pub open spec fn report_value(r: CostReport) -> Option<u64> {
    match r.value {
        Some(v) => Some(v as u64),
        None => None,
    }
}

/// The CSV fields of one report: package, function, metric and value, and
/// with `check` also limit and verdict.
pub open spec fn report_fields(r: CostReport, check: bool) -> Seq<Seq<char>> {
    if check {
        seq![
            r.package@,
            r.function@,
            r.metric@,
            optional_number_text(report_value(r)),
            optional_number_text(r.limit),
            optional_verdict_text(r.pass),
        ]
    } else {
        seq![r.package@, r.function@, r.metric@, optional_number_text(report_value(r))]
    }
}

/// The column names.
pub open spec fn csv_header(check: bool) -> Seq<Seq<char>> {
    if check {
        seq!["package"@, "function"@, "metric"@, "value"@, "limit"@, "pass"@]
    } else {
        seq!["package"@, "function"@, "metric"@, "value"@]
    }
}

/// The CSV records of the reports, in order: every report with `check`,
/// otherwise only the reports that have a value.
pub open spec fn csv_rows(reports: Seq<CostReport>, check: bool) -> Seq<char>
    decreases reports.len(),
{
    if reports.len() == 0 {
        Seq::empty()
    } else {
        let prev = csv_rows(reports.drop_last(), check);
        if check || reports.last().value is Some {
            prev + csv_record_text(report_fields(reports.last(), check))
        } else {
            prev
        }
    }
}

fn optional_number_string(v: Option<u64>) -> (s: String)
    ensures
        s@ == optional_number_text(v),
{
    let mut s = String::new();
    if let Some(x) = v {
        push_decimal(&mut s, x);
    }
    s
}

/// Renders reports as CSV: a header, then one record per report.  With
/// `check` there are six columns (`package, function, metric, value,
/// limit, pass`) and every report is written; without it there are four
/// and reports without a value are left out.
pub fn reports_to_csv(reports: &[CostReport], check: bool) -> (s: String)
    ensures
        s@ == csv_record_text(csv_header(check)) + csv_rows(reports@, check),
{
    let mut out = String::new();
    let header: Vec<&str> = if check {
        vec!["package", "function", "metric", "value", "limit", "pass"]
    } else {
        vec!["package", "function", "metric", "value"]
    };
    proof {
        assert(header@.map_values(|f: &str| f@) =~= csv_header(check));
    }
    let h = csv_record(header.as_slice());
    out.append(h.as_str());
    let ghost head = out@;
    let mut i: usize = 0;
    while i < reports.len()
        invariant
            i <= reports@.len(),
            head == csv_record_text(csv_header(check)),
            out@ == head + csv_rows(reports@.take(i as int), check),
        decreases reports.len() - i,
    {
        let r = &reports[i];
        proof {
            assert(reports@.take(i + 1).drop_last() =~= reports@.take(i as int));
            assert(reports@.take(i + 1).last() == reports@[i as int]);
        }
        if check || r.value.is_some() {
            let value = optional_number_string(
                match r.value {
                    Some(v) => Some(v as u64),
                    None => None,
                },
            );
            let line = if check {
                let limit = optional_number_string(r.limit);
                let verdict: &str = match r.pass {
                    Some(true) => "true",
                    Some(false) => "false",
                    None => "",
                };
                proof {
                    reveal_strlit("");
                    assert(verdict@ == optional_verdict_text(r.pass));
                    assert(value@ == optional_number_text(report_value(*r)));
                }
                let fields: Vec<&str> = vec![
                    r.package.as_str(),
                    r.function.as_str(),
                    r.metric,
                    value.as_str(),
                    limit.as_str(),
                    verdict,
                ];
                proof {
                    assert(fields@.map_values(|f: &str| f@) =~= report_fields(*r, check));
                }
                csv_record(fields.as_slice())
            } else {
                let fields: Vec<&str> = vec![
                    r.package.as_str(),
                    r.function.as_str(),
                    r.metric,
                    value.as_str(),
                ];
                proof {
                    assert(fields@.map_values(|f: &str| f@) =~= report_fields(*r, check));
                }
                csv_record(fields.as_slice())
            };
            out.append(line.as_str());
        }
        i = i + 1;
    }
    proof {
        assert(reports@.take(i as int) =~= reports@);
    }
    out
}

} // verus!
