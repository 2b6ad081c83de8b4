use soroban_budget_assert::validate::{
    compare_metrics, metrics_from_fields, parse_xdr_decode_output, validate_metrics,
    CliDecodedMetrics, ValidationResult,
};

const FIXTURE_INSTRUCTIONS: u32 = 1_000_000;
const FIXTURE_READ_BYTES: u32 = 2_048;
const FIXTURE_WRITE_BYTES: u32 = 4_096;

/// What the Stellar CLI decodes from the fixture transaction data.
fn fixture_decoded() -> CliDecodedMetrics {
    CliDecodedMetrics {
        instructions: u64::from(FIXTURE_INSTRUCTIONS),
        read_bytes: u64::from(FIXTURE_READ_BYTES),
        write_bytes: u64::from(FIXTURE_WRITE_BYTES),
    }
}

// ── parse_xdr_decode_output tests ──────────────────────────────────

#[test]
fn parses_matching_metrics_from_cli_json() {
    let json = r#"{
        "resources": {
            "instructions": 1000000,
            "read_bytes": 2048,
            "write_bytes": 4096
        }
    }"#;
    let metrics = parse_xdr_decode_output(json).expect("should parse valid JSON");
    assert_eq!(metrics.instructions, 1_000_000);
    assert_eq!(metrics.read_bytes, 2_048);
    assert_eq!(metrics.write_bytes, 4_096);
}

#[test]
fn parses_disk_read_bytes_alias() {
    let json = r#"{
        "resources": {
            "instructions": 500000,
            "disk_read_bytes": 1024,
            "write_bytes": 2048
        }
    }"#;
    let metrics = parse_xdr_decode_output(json).expect("should parse disk_read_bytes alias");
    assert_eq!(metrics.instructions, 500_000);
    assert_eq!(metrics.read_bytes, 1_024);
    assert_eq!(metrics.write_bytes, 2_048);
}

#[test]
fn parse_fails_on_missing_resources() {
    let result = parse_xdr_decode_output("{}");
    assert!(result.is_err());
}

#[test]
fn parse_fails_on_missing_instructions() {
    let json = r#"{"resources": {"read_bytes": 0, "write_bytes": 0}}"#;
    let result = parse_xdr_decode_output(json);
    assert!(result.is_err());
}

#[test]
fn parse_fails_on_null_instructions() {
    let json = r#"{"resources": {"instructions": null, "read_bytes": 0, "write_bytes": 0}}"#;
    let result = parse_xdr_decode_output(json);
    assert!(result.is_err());
}

#[test]
fn parse_fails_on_non_json_output() {
    let result = parse_xdr_decode_output("not json at all");
    assert!(result.is_err());
}

// ── compare_metrics tests ──────────────────────────────────────────

#[test]
fn compare_metrics_match_returns_match() {
    let cli = CliDecodedMetrics {
        instructions: 1_000_000,
        read_bytes: 2_048,
        write_bytes: 4_096,
    };
    let result = compare_metrics(1_000_000, 2_048, 4_096, &cli);
    assert!(
        matches!(result, ValidationResult::Match),
        "expected Match, got {:?}",
        result
    );
}

#[test]
fn compare_metrics_cpu_mismatch_reports_diagnostic() {
    let cli = CliDecodedMetrics {
        instructions: 999_999,
        read_bytes: 2_048,
        write_bytes: 4_096,
    };
    let result = compare_metrics(1_000_000, 2_048, 4_096, &cli);
    match result {
        ValidationResult::Mismatch { diagnostics } => {
            assert!(!diagnostics.is_empty());
            assert!(diagnostics[0].contains("CPU Instructions"));
            assert!(diagnostics[0].contains("cargo-budget-report"));
            assert!(diagnostics[0].contains("Stellar CLI"));
        }
        other => panic!("expected Mismatch, got {:?}", other),
    }
}

#[test]
fn compare_metrics_read_bytes_mismatch_reports_diagnostic() {
    let cli = CliDecodedMetrics {
        instructions: 1_000_000,
        read_bytes: 2_047,
        write_bytes: 4_096,
    };
    let result = compare_metrics(1_000_000, 2_048, 4_096, &cli);
    match result {
        ValidationResult::Mismatch { diagnostics } => {
            assert!(diagnostics.iter().any(|d| d.contains("Read Bytes")));
        }
        other => panic!("expected Mismatch, got {:?}", other),
    }
}

#[test]
fn compare_metrics_write_bytes_mismatch_reports_diagnostic() {
    let cli = CliDecodedMetrics {
        instructions: 1_000_000,
        read_bytes: 2_048,
        write_bytes: 4_095,
    };
    let result = compare_metrics(1_000_000, 2_048, 4_096, &cli);
    match result {
        ValidationResult::Mismatch { diagnostics } => {
            assert!(diagnostics.iter().any(|d| d.contains("Write Bytes")));
        }
        other => panic!("expected Mismatch, got {:?}", other),
    }
}

#[test]
fn compare_metrics_all_mismatch_reports_three_diagnostics() {
    let cli = CliDecodedMetrics {
        instructions: 0,
        read_bytes: 0,
        write_bytes: 0,
    };
    let result = compare_metrics(1_000_000, 2_048, 4_096, &cli);
    match result {
        ValidationResult::Mismatch { diagnostics } => {
            assert_eq!(diagnostics.len(), 3);
        }
        other => panic!("expected Mismatch, got {:?}", other),
    }
}

#[test]
fn compare_metrics_very_large_values() {
    let cli = CliDecodedMetrics {
        instructions: u64::MAX,
        read_bytes: u64::MAX,
        write_bytes: u64::MAX,
    };
    let result = compare_metrics(u32::MAX, u32::MAX, u32::MAX, &cli);
    assert!(
        matches!(result, ValidationResult::Mismatch { .. }),
        "expected Mismatch for u32::MAX vs u64::MAX, got {:?}",
        result
    );
}

// ── validate_metrics tests ────────────────────────────────────────

#[test]
fn validate_metrics_round_trip_match_or_skip() {
    let result = validate_metrics(
        Ok(fixture_decoded()),
        FIXTURE_INSTRUCTIONS,
        FIXTURE_READ_BYTES,
        FIXTURE_WRITE_BYTES,
    );
    match result {
        ValidationResult::Match => {}
        ValidationResult::Skipped { .. } => {}
        ValidationResult::Mismatch { diagnostics } => {
            panic!("unexpected mismatch in round-trip: {:?}", diagnostics);
        }
    }
}

#[test]
fn validate_metrics_reports_mismatch_or_skip() {
    let result = validate_metrics(Ok(fixture_decoded()), 0, 0, 0);
    match result {
        ValidationResult::Match => {
            panic!("expected mismatch when values differ");
        }
        ValidationResult::Mismatch { diagnostics } => {
            assert!(!diagnostics.is_empty());
            assert!(diagnostics[0].contains("CPU Instructions"));
        }
        ValidationResult::Skipped { .. } => {}
    }
}

#[test]
fn validate_metrics_skips_when_the_cli_fails() {
    match validate_metrics(Err("stellar: not found".to_string()), 1, 2, 3) {
        ValidationResult::Skipped { reason } => {
            assert_eq!(reason, "Stellar CLI xdr decode failed: stellar: not found")
        }
        other => panic!("expected Skipped, got {:?}", other),
    }
}

#[test]
fn compare_metrics_diagnostics_are_exact() {
    let cli = CliDecodedMetrics {
        instructions: 255,
        read_bytes: 7,
        write_bytes: 9,
    };
    match compare_metrics(16, 8, 9, &cli) {
        ValidationResult::Mismatch { diagnostics } => assert_eq!(
            diagnostics,
            vec![
                "CPU Instructions: cargo-budget-report = 16 (0x10), Stellar CLI = 255 (0xff)"
                    .to_string(),
                "Read Bytes: cargo-budget-report = 8, Stellar CLI = 7".to_string(),
            ]
        ),
        other => panic!("expected Mismatch, got {:?}", other),
    }
}

#[test]
fn metrics_from_fields_prefers_read_bytes_and_reports_in_order() {
    let ok = metrics_from_fields(true, Some(1), Some(Some(2)), Some(9), Some(3));
    assert_eq!(
        ok,
        Ok(CliDecodedMetrics {
            instructions: 1,
            read_bytes: 2,
            write_bytes: 3
        })
    );
    // `read_bytes` present but not a u64 does not fall back.
    assert_eq!(
        metrics_from_fields(true, Some(1), Some(None), Some(9), Some(3)),
        Err("CLI output missing 'resources.read_bytes' or 'resources.disk_read_bytes'".to_string())
    );
    assert_eq!(
        metrics_from_fields(true, None, None, None, None),
        Err("CLI output missing or invalid 'resources.instructions'".to_string())
    );
    assert_eq!(
        metrics_from_fields(false, Some(1), None, Some(2), Some(3)),
        Err("CLI output missing 'resources' field".to_string())
    );
    assert_eq!(
        metrics_from_fields(true, Some(1), None, Some(2), None),
        Err("CLI output missing or invalid 'resources.write_bytes'".to_string())
    );
}

#[test]
fn parse_error_for_non_json_names_the_output() {
    let err = parse_xdr_decode_output("nope").unwrap_err();
    assert!(err.starts_with("CLI xdr decode output is not valid JSON:\nnope: "));
}
