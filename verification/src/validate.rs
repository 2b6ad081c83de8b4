//! Cross-checking reported metrics against the ones the Stellar CLI decodes
//! from the same transaction data.

use vstd::prelude::*;
use crate::json::{
    json_error_message, json_text_parses, json_u64_at, member, parse_json, tree_member, tree_u64_at, u64_member,
    u64_reading, JsonTree,
};
use crate::text::{decimal, hex_lower, push_decimal, push_hex};

verus! {

/// Resource metrics decoded by the Stellar CLI's own XDR decoder.
#[derive(Debug, Clone, Copy, PartialEq, Eq, Structural)]
pub struct CliDecodedMetrics {
    pub instructions: u64,
    pub read_bytes: u64,
    pub write_bytes: u64,
}

/// Outcome of validating one function's metrics against the Stellar CLI.
#[derive(Debug)]
pub enum ValidationResult {
    /// Every metric matched exactly.
    Match,
    /// One or more metrics differed.
    Mismatch {
        /// Human-readable diagnostics describing each discrepancy.
        diagnostics: Vec<String>,
    },
    /// Validation could not run (prerequisites missing, CLI unavailable, etc.).
    Skipped {
        /// Reason for skipping.
        reason: String,
    },
}

/// The diagnostic of a CPU instruction count that differs, in decimal and
/// hexadecimal.
pub open spec fn cpu_diagnostic(report: u64, cli: u64) -> Seq<char> {
    "CPU Instructions: cargo-budget-report = "@ + decimal(report as nat) + " (0x"@ + hex_lower(
        report as nat,
    ) + "), Stellar CLI = "@ + decimal(cli as nat) + " (0x"@ + hex_lower(cli as nat) + ")"@
}

/// The diagnostic of a byte count that differs.
pub open spec fn bytes_diagnostic(label: Seq<char>, report: u64, cli: u64) -> Seq<char> {
    label + ": cargo-budget-report = "@ + decimal(report as nat) + ", Stellar CLI = "@ + decimal(
        cli as nat,
    )
}

/// The diagnostics of every metric that differs, CPU first, then reads,
/// then writes.
pub open spec fn metric_diagnostics(
    report_instructions: u32,
    report_read_bytes: u32,
    report_write_bytes: u32,
    cli: CliDecodedMetrics,
) -> Seq<Seq<char>> {
    (if report_instructions as u64 != cli.instructions {
        seq![cpu_diagnostic(report_instructions as u64, cli.instructions)]
    } else {
        Seq::empty()
    }) + (if report_read_bytes as u64 != cli.read_bytes {
        seq![bytes_diagnostic("Read Bytes"@, report_read_bytes as u64, cli.read_bytes)]
    } else {
        Seq::empty()
    }) + (if report_write_bytes as u64 != cli.write_bytes {
        seq![bytes_diagnostic("Write Bytes"@, report_write_bytes as u64, cli.write_bytes)]
    } else {
        Seq::empty()
    })
}

/// The views of `v`'s strings.
pub open spec fn string_views(v: Seq<String>) -> Seq<Seq<char>> {
    v.map_values(|s: String| s@)
}

/// `r` is the comparison outcome for the diagnostics `d`: a match when
/// there are none, else a mismatch listing them.
pub open spec fn is_comparison(r: ValidationResult, d: Seq<Seq<char>>) -> bool {
    if d.len() == 0 {
        r is Match
    } else {
        r matches ValidationResult::Mismatch { diagnostics } && string_views(diagnostics@) == d
    }
}

/// How many of the three metrics differ between the report and the CLI.
pub open spec fn differing_count(
    report_instructions: u32,
    report_read_bytes: u32,
    report_write_bytes: u32,
    cli: CliDecodedMetrics,
) -> nat {
    (if report_instructions as u64 != cli.instructions { 1nat } else { 0nat }) + (if report_read_bytes
        as u64 != cli.read_bytes { 1nat } else { 0nat }) + (if report_write_bytes as u64
        != cli.write_bytes { 1nat } else { 0nat })
}

/// A comparison is a match exactly when all three metrics agree; otherwise
/// it lists one diagnostic per differing metric, and the diagnostic of
/// each differing metric is among them.
pub proof fn law_comparison(
    report_instructions: u32,
    report_read_bytes: u32,
    report_write_bytes: u32,
    cli: CliDecodedMetrics,
    r: ValidationResult,
)
    requires
        is_comparison(
            r,
            metric_diagnostics(report_instructions, report_read_bytes, report_write_bytes, cli),
        ),
    ensures
        r is Match <==> (report_instructions as u64 == cli.instructions && report_read_bytes as u64
            == cli.read_bytes && report_write_bytes as u64 == cli.write_bytes),
        r is Mismatch <==> !(report_instructions as u64 == cli.instructions && report_read_bytes
            as u64 == cli.read_bytes && report_write_bytes as u64 == cli.write_bytes),
        r matches ValidationResult::Mismatch { diagnostics } ==> {
            &&& diagnostics@.len() == differing_count(
                report_instructions,
                report_read_bytes,
                report_write_bytes,
                cli,
            )
            &&& report_instructions as u64 != cli.instructions ==> string_views(
                diagnostics@,
            ).contains(cpu_diagnostic(report_instructions as u64, cli.instructions))
            &&& report_read_bytes as u64 != cli.read_bytes ==> string_views(diagnostics@).contains(
                bytes_diagnostic("Read Bytes"@, report_read_bytes as u64, cli.read_bytes),
            )
            &&& report_write_bytes as u64 != cli.write_bytes ==> string_views(
                diagnostics@,
            ).contains(bytes_diagnostic("Write Bytes"@, report_write_bytes as u64, cli.write_bytes))
        },
{
    let d = metric_diagnostics(report_instructions, report_read_bytes, report_write_bytes, cli);
    let c = if report_instructions as u64 != cli.instructions {
        seq![cpu_diagnostic(report_instructions as u64, cli.instructions)]
    } else {
        Seq::<Seq<char>>::empty()
    };
    let rd = if report_read_bytes as u64 != cli.read_bytes {
        seq![bytes_diagnostic("Read Bytes"@, report_read_bytes as u64, cli.read_bytes)]
    } else {
        Seq::<Seq<char>>::empty()
    };
    let w = if report_write_bytes as u64 != cli.write_bytes {
        seq![bytes_diagnostic("Write Bytes"@, report_write_bytes as u64, cli.write_bytes)]
    } else {
        Seq::<Seq<char>>::empty()
    };
    assert(d == c + rd + w);
    if report_instructions as u64 != cli.instructions {
        assert(d[0] == c[0]);
    }
    if report_read_bytes as u64 != cli.read_bytes {
        assert(d[c.len() as int] == rd[0]);
    }
    if report_write_bytes as u64 != cli.write_bytes {
        assert(d[(c.len() + rd.len()) as int] == w[0]);
    }
}

/// Compares the report's metrics with the CLI-decoded ones: `Match` when
/// all three agree, else `Mismatch` with one diagnostic per differing
/// metric.  Nothing is corrected.
pub fn compare_metrics(
    report_instructions: u32,
    report_read_bytes: u32,
    report_write_bytes: u32,
    cli: &CliDecodedMetrics,
) -> (r: ValidationResult)
    ensures
        is_comparison(
            r,
            metric_diagnostics(report_instructions, report_read_bytes, report_write_bytes, *cli),
        ),
        r is Match <==> (report_instructions as u64 == cli.instructions && report_read_bytes as u64
            == cli.read_bytes && report_write_bytes as u64 == cli.write_bytes),
        r matches ValidationResult::Mismatch { diagnostics } ==> {
            &&& diagnostics@.len() == differing_count(
                report_instructions,
                report_read_bytes,
                report_write_bytes,
                *cli,
            )
            &&& report_instructions as u64 != cli.instructions ==> string_views(
                diagnostics@,
            ).contains(cpu_diagnostic(report_instructions as u64, cli.instructions))
            &&& report_read_bytes as u64 != cli.read_bytes ==> string_views(diagnostics@).contains(
                bytes_diagnostic("Read Bytes"@, report_read_bytes as u64, cli.read_bytes),
            )
            &&& report_write_bytes as u64 != cli.write_bytes ==> string_views(
                diagnostics@,
            ).contains(bytes_diagnostic("Write Bytes"@, report_write_bytes as u64, cli.write_bytes))
        },
{
    let ghost d = metric_diagnostics(report_instructions, report_read_bytes, report_write_bytes, *cli);
    let mut mismatches: Vec<String> = Vec::new();
    let report_cpu = report_instructions as u64;
    if report_cpu != cli.instructions {
        let mut m = String::new();
        m.append("CPU Instructions: cargo-budget-report = ");
        push_decimal(&mut m, report_cpu);
        m.append(" (0x");
        push_hex(&mut m, report_cpu);
        m.append("), Stellar CLI = ");
        push_decimal(&mut m, cli.instructions);
        m.append(" (0x");
        push_hex(&mut m, cli.instructions);
        m.append(")");
        assert(m@ =~= cpu_diagnostic(report_cpu, cli.instructions));
        mismatches.push(m);
    }
    let ghost after_cpu = string_views(mismatches@);
    let report_read = report_read_bytes as u64;
    if report_read != cli.read_bytes {
        let mut m = String::new();
        m.append("Read Bytes: cargo-budget-report = ");
        push_decimal(&mut m, report_read);
        m.append(", Stellar CLI = ");
        push_decimal(&mut m, cli.read_bytes);
        proof {
            reveal_strlit("Read Bytes");
            reveal_strlit("Read Bytes: cargo-budget-report = ");
            reveal_strlit(": cargo-budget-report = ");
        }
        assert(m@ =~= bytes_diagnostic("Read Bytes"@, report_read, cli.read_bytes));
        let ghost before = mismatches@;
        mismatches.push(m);
        assert(string_views(mismatches@) =~= string_views(before).push(m@));
    }
    let ghost after_read = string_views(mismatches@);
    let report_write = report_write_bytes as u64;
    if report_write != cli.write_bytes {
        let mut m = String::new();
        m.append("Write Bytes: cargo-budget-report = ");
        push_decimal(&mut m, report_write);
        m.append(", Stellar CLI = ");
        push_decimal(&mut m, cli.write_bytes);
        proof {
            reveal_strlit("Write Bytes");
            reveal_strlit("Write Bytes: cargo-budget-report = ");
            reveal_strlit(": cargo-budget-report = ");
        }
        assert(m@ =~= bytes_diagnostic("Write Bytes"@, report_write, cli.write_bytes));
        let ghost before = mismatches@;
        mismatches.push(m);
        assert(string_views(mismatches@) =~= string_views(before).push(m@));
    }
    proof {
        let cpu_part = if report_cpu != cli.instructions {
            seq![cpu_diagnostic(report_cpu, cli.instructions)]
        } else {
            Seq::<Seq<char>>::empty()
        };
        let read_part = if report_read != cli.read_bytes {
            seq![bytes_diagnostic("Read Bytes"@, report_read, cli.read_bytes)]
        } else {
            Seq::<Seq<char>>::empty()
        };
        let write_part = if report_write != cli.write_bytes {
            seq![bytes_diagnostic("Write Bytes"@, report_write, cli.write_bytes)]
        } else {
            Seq::<Seq<char>>::empty()
        };
        assert(after_cpu =~= cpu_part);
        assert(after_read =~= cpu_part + read_part);
        assert(string_views(mismatches@) =~= cpu_part + read_part + write_part);
    }
    let r = if mismatches.len() == 0 {
        ValidationResult::Match
    } else {
        ValidationResult::Mismatch { diagnostics: mismatches }
    };
    proof {
        law_comparison(report_instructions, report_read_bytes, report_write_bytes, *cli, r);
    }
    r
}

/// The reason given when the CLI could not decode the data.
pub open spec fn skipped_reason(error: Seq<char>) -> Seq<char> {
    "Stellar CLI xdr decode failed: "@ + error
}

/// Validates one function's metrics against what the Stellar CLI decoded
/// from the same transaction data (`Err` with the decoder's failure when it
/// could not): the comparison of [`compare_metrics`], or `Skipped` naming
/// the failure.
pub fn validate_metrics(
    decoded: Result<CliDecodedMetrics, String>,
    report_instructions: u32,
    report_read_bytes: u32,
    report_write_bytes: u32,
) -> (r: ValidationResult)
    ensures
        match decoded {
            Ok(cli) => is_comparison(
                r,
                metric_diagnostics(report_instructions, report_read_bytes, report_write_bytes, cli),
            ),
            Err(e) => r matches ValidationResult::Skipped { reason } && reason@ == skipped_reason(
                e@,
            ),
        },
{
    match decoded {
        Ok(cli) => compare_metrics(report_instructions, report_read_bytes, report_write_bytes, &cli),
        Err(e) => {
            let mut reason = String::new();
            reason.append("Stellar CLI xdr decode failed: ");
            reason.append(e.as_str());
            ValidationResult::Skipped { reason }
        },
    }
}

// ---------------------------------------------------------------------------
// The CLI's JSON output
// ---------------------------------------------------------------------------

/// The metrics, or the message of the first field that is missing or not a
/// `u64`, given what the `resources` object held: `read_bytes` as `None`
/// when absent (then `disk_read_bytes` is used) and `Some(None)` when
/// present but not a `u64`.
pub open spec fn metrics_from_fields_spec(
    has_resources: bool,
    instructions: Option<u64>,
    read_bytes: Option<Option<u64>>,
    disk_read_bytes: Option<u64>,
    write_bytes: Option<u64>,
) -> Result<CliDecodedMetrics, Seq<char>> {
    let read = match read_bytes {
        Some(r) => r,
        None => disk_read_bytes,
    };
    if !has_resources {
        Err("CLI output missing 'resources' field"@)
    } else if instructions is None {
        Err("CLI output missing or invalid 'resources.instructions'"@)
    } else if read is None {
        Err("CLI output missing 'resources.read_bytes' or 'resources.disk_read_bytes'"@)
    } else if write_bytes is None {
        Err("CLI output missing or invalid 'resources.write_bytes'"@)
    } else {
        Ok(
            CliDecodedMetrics {
                instructions: instructions->0,
                read_bytes: read->0,
                write_bytes: write_bytes->0,
            },
        )
    }
}

/// Builds the metrics from the fields read out of the CLI's output, as
/// [`metrics_from_fields_spec`] describes.
pub fn metrics_from_fields(
    has_resources: bool,
    instructions: Option<u64>,
    read_bytes: Option<Option<u64>>,
    disk_read_bytes: Option<u64>,
    write_bytes: Option<u64>,
) -> (r: Result<CliDecodedMetrics, String>)
    ensures
        match metrics_from_fields_spec(has_resources, instructions, read_bytes, disk_read_bytes, write_bytes) {
            Ok(m) => r == Ok::<CliDecodedMetrics, String>(m),
            Err(msg) => r matches Err(x) && x@ == msg,
        },
{
    if !has_resources {
        return Err(String::from_str("CLI output missing 'resources' field"));
    }
    let instructions = match instructions {
        Some(v) => v,
        None => return Err(String::from_str("CLI output missing or invalid 'resources.instructions'")),
    };
    let read = match read_bytes {
        Some(r) => r,
        None => disk_read_bytes,
    };
    let read_bytes = match read {
        Some(v) => v,
        None => return Err(
            String::from_str("CLI output missing 'resources.read_bytes' or 'resources.disk_read_bytes'"),
        ),
    };
    let write_bytes = match write_bytes {
        Some(v) => v,
        None => return Err(String::from_str("CLI output missing or invalid 'resources.write_bytes'")),
    };
    Ok(CliDecodedMetrics { instructions, read_bytes, write_bytes })
}

/// The message of output that is not JSON, before the parser's own message.
pub open spec fn not_json_prefix(output: Seq<char>) -> Seq<char> {
    "CLI xdr decode output is not valid JSON:\n"@ + output + ": "@
}

/// What the CLI's output `text` holds at `resources.<field>`.
pub open spec fn resource_reading(text: Seq<char>, field: Seq<char>) -> Option<Option<u64>> {
    json_u64_at(text, seq!["resources"@, field])
}

/// The metrics that the JSON document `text` describes, or the message of
/// what it lacks.
pub open spec fn decoded_metrics(text: Seq<char>) -> Result<CliDecodedMetrics, Seq<char>> {
    metrics_from_fields_spec(
        json_u64_at(text, seq!["resources"@]) is Some,
        u64_reading(resource_reading(text, "instructions"@)),
        resource_reading(text, "read_bytes"@),
        u64_reading(resource_reading(text, "disk_read_bytes"@)),
        u64_reading(resource_reading(text, "write_bytes"@)),
    )
}

/// Parses the JSON that `stellar xdr decode --type SorobanTransactionData
/// --output json` prints: `resources.instructions`, `resources.read_bytes`
/// (or `resources.disk_read_bytes` when that is absent) and
/// `resources.write_bytes`, each a `u64`.  The error message carries the
/// whole chain of causes.
pub fn parse_xdr_decode_output(output: &str) -> (r: Result<CliDecodedMetrics, String>)
    ensures
        !json_text_parses(output@) ==> (r matches Err(m) && m@ == not_json_prefix(output@)
            + json_error_message(output@)),
        json_text_parses(output@) ==> match decoded_metrics(output@) {
            Ok(m) => r == Ok::<CliDecodedMetrics, String>(m),
            Err(msg) => r matches Err(x) && x@ == msg,
        },
{
    let root = match parse_json(output) {
        Ok(v) => v,
        Err(e) => {
            let mut m = String::new();
            m.append("CLI xdr decode output is not valid JSON:\n");
            m.append(output);
            m.append(": ");
            m.append(e.as_str());
            return Err(m);
        },
    };
    let ghost text = output@;
    proof {
        reveal_strlit("resources");
        reveal_strlit("instructions");
        reveal_strlit("read_bytes");
        reveal_strlit("disk_read_bytes");
        reveal_strlit("write_bytes");
        assert(tree_u64_at(root, seq!["resources"@]) == json_u64_at(text, seq!["resources"@]));
    }
    let resources = member(&root, "resources");
    match resources {
        None => {
            proof {
                assert(json_u64_at(text, seq!["resources"@]) is None);
            }
            metrics_from_fields(false, None, None, None, None)
        },
        Some(res) => {
            proof {
                assert(seq!["resources"@].drop_first() =~= Seq::<Seq<char>>::empty());
                assert(tree_u64_at(*res, Seq::empty()) is Some);
                lemma_resource_path(root, *res, text, "instructions"@);
                lemma_resource_path(root, *res, text, "read_bytes"@);
                lemma_resource_path(root, *res, text, "disk_read_bytes"@);
                lemma_resource_path(root, *res, text, "write_bytes"@);
            }
            let instructions = u64_member(res, "instructions");
            let read_bytes = match member(res, "read_bytes") {
                Some(v) => Some(crate::json::as_u64(v)),
                None => None,
            };
            proof {
                assert(seq!["read_bytes"@].drop_first() =~= Seq::<Seq<char>>::empty());
            }
            let disk_read_bytes = u64_member(res, "disk_read_bytes");
            let write_bytes = u64_member(res, "write_bytes");
            metrics_from_fields(true, instructions, read_bytes, disk_read_bytes, write_bytes)
        },
    }
}

/// A reading below `resources` is the reading of `field` in the member
/// `resources` itself.
proof fn lemma_resource_path(root: JsonTree, res: JsonTree, text: Seq<char>, field: Seq<char>)
    requires
        tree_member(root, "resources"@) == Some(res),
        forall|path: Seq<Seq<char>>| #[trigger]
            tree_u64_at(root, path) == json_u64_at(text, path),
    ensures
        tree_u64_at(res, seq![field]) == resource_reading(text, field),
{
    let path = seq!["resources"@, field];
    assert(path.drop_first() =~= seq![field]);
    assert(tree_u64_at(root, path) == json_u64_at(text, path));
}

} // verus!
