//! Markdown output formatting for budget reports.

use vstd::prelude::*;
use crate::text::{chars_of, decimal, push_decimal};

verus! {

/// A single contract or test budget result.
#[derive(Debug, Clone, PartialEq, Eq)]
pub struct MarkdownReportRow {
    /// Contract or test name displayed in the first column.
    pub name: String,
    /// CPU budget cost displayed in the second column.
    pub cpu_cost: u64,
    /// Memory budget cost displayed in the third column.
    pub memory_cost: u64,
    /// Whether the budget assertion passed.
    pub passed: bool,
}

impl MarkdownReportRow {
    /// Creates a report row.
    pub fn new(name: &str, cpu_cost: u64, memory_cost: u64, passed: bool) -> (r: Self)
        ensures
            r.name@ == name@,
            r.cpu_cost == cpu_cost,
            r.memory_cost == memory_cost,
            r.passed == passed,
    {
        MarkdownReportRow { name: name.to_owned(), cpu_cost, memory_cost, passed }
    }
}

/// How one character of a name appears in a table cell: `|` is escaped as
/// `\|`, line breaks become spaces.
pub open spec fn escape_char(c: char) -> Seq<char> {
    if c == '|' {
        seq!['\\', '|']
    } else if c == '\n' || c == '\r' {
        seq![' ']
    } else {
        seq![c]
    }
}

/// A name made safe for a table cell.
pub open spec fn escape_cell(s: Seq<char>) -> Seq<char>
    decreases s.len(),
{
    if s.len() == 0 {
        Seq::empty()
    } else {
        escape_cell(s.drop_last()) + escape_char(s.last())
    }
}

/// The two header lines of the table.
pub open spec fn table_header() -> Seq<char> {
    "| Contract/Test Name | CPU Cost | Memory Cost | Status |\n| --- | ---: | ---: | --- |"@
}

/// A line break followed by the table line of `row`.
pub open spec fn table_row(row: MarkdownReportRow) -> Seq<char> {
    "\n| "@ + escape_cell(row.name@) + " | "@ + decimal(row.cpu_cost as nat) + " | "@ + decimal(
        row.memory_cost as nat,
    ) + " | "@ + (if row.passed {
        "Pass"@
    } else {
        "Fail"@
    }) + " |"@
}

/// The table lines of all rows, in order.
pub open spec fn table_rows(rows: Seq<MarkdownReportRow>) -> Seq<char>
    decreases rows.len(),
{
    if rows.len() == 0 {
        Seq::empty()
    } else {
        table_rows(rows.drop_last()) + table_row(rows.last())
    }
}

/// Appends `escape_cell(value)`.
fn push_escaped(out: &mut String, value: &str)
    ensures
        final(out)@ == old(out)@ + escape_cell(value@),
{
    let cs = chars_of(value);
    let mut i: usize = 0;
    while i < cs.len()
        invariant
            i <= cs@.len(),
            cs@ == value@,
            out@ == old(out)@ + escape_cell(cs@.take(i as int)),
        decreases cs.len() - i,
    {
        let c = cs[i];
        if c == '|' {
            out.push('\\');
            out.push('|');
        } else if c == '\n' || c == '\r' {
            out.push(' ');
        } else {
            out.push(c);
        }
        proof {
            assert(cs@.take(i + 1).drop_last() =~= cs@.take(i as int));
        }
        i = i + 1;
    }
    assert(cs@.take(cs@.len() as int) =~= cs@);
}

/// `value` with `|` escaped and line breaks replaced by spaces.
pub fn escape_markdown_cell(value: &str) -> (s: String)
    ensures
        s@ == escape_cell(value@),
{
    let mut s = String::new();
    push_escaped(&mut s, value);
    s
}

/// Formats budget report rows as a Markdown table (header lines, then one
/// line per row); no trailing newline.
pub fn format_markdown_table(rows: &[MarkdownReportRow]) -> (s: String)
    ensures
        s@ == table_header() + table_rows(rows@),
{
    let mut table = String::new();
    table.append("| Contract/Test Name | CPU Cost | Memory Cost | Status |\n| --- | ---: | ---: | --- |");
    let mut i: usize = 0;
    while i < rows.len()
        invariant
            i <= rows@.len(),
            table@ == table_header() + table_rows(rows@.take(i as int)),
        decreases rows.len() - i,
    {
        let row = &rows[i];
        let ghost before = table@;
        table.append("\n| ");
        push_escaped(&mut table, row.name.as_str());
        table.append(" | ");
        push_decimal(&mut table, row.cpu_cost);
        table.append(" | ");
        push_decimal(&mut table, row.memory_cost);
        table.append(" | ");
        if row.passed {
            table.append("Pass");
        } else {
            table.append("Fail");
        }
        table.append(" |");
        proof {
            assert(rows@.take(i + 1).drop_last() =~= rows@.take(i as int));
            assert(table@ =~= before + table_row(rows@[i as int]));
        }
        i = i + 1;
    }
    assert(rows@.take(rows@.len() as int) =~= rows@);
    table
}

} // verus!
