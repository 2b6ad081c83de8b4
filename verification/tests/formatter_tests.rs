use soroban_budget_assert::measure::format_with_commas_and_units;

#[test]
fn formatter_exactly_999_no_comma() {
    assert_eq!(
        format_with_commas_and_units(999, "CPU Instructions"),
        "999 inst."
    );
}

#[test]
fn formatter_exactly_1000_inserts_comma() {
    assert_eq!(format_with_commas_and_units(1_000, "Read Bytes"), "1,000 B");
}

#[test]
fn formatter_exactly_999_999_boundary() {
    assert_eq!(
        format_with_commas_and_units(999_999, "Write Bytes"),
        "999,999 B"
    );
}

#[test]
fn formatter_exactly_1_000_000_boundary() {
    assert_eq!(
        format_with_commas_and_units(1_000_000, "CPU Instructions"),
        "1,000,000 inst."
    );
}

#[test]
fn formatter_one_below_billion() {
    assert_eq!(
        format_with_commas_and_units(999_999_999, "CPU Instructions"),
        "999,999,999 inst."
    );
}

#[test]
fn formatter_exactly_one_billion() {
    assert_eq!(
        format_with_commas_and_units(1_000_000_000, "Read Bytes"),
        "1,000,000,000 B"
    );
}

#[test]
fn formatter_one_above_billion() {
    assert_eq!(
        format_with_commas_and_units(1_000_000_001, "Write Bytes"),
        "1,000,000,001 B"
    );
}

#[test]
fn formatter_empty_metric_name_defaults_to_inst() {
    // Empty metric name does not contain "Bytes", so it gets " inst.".
    assert_eq!(format_with_commas_and_units(42, ""), "42 inst.");
}

#[test]
fn formatter_zero_length_value_is_zero() {
    assert_eq!(format_with_commas_and_units(0, "Write Bytes"), "0 B");
    assert_eq!(
        format_with_commas_and_units(0, "CPU Instructions"),
        "0 inst."
    );
}

#[test]
fn formatter_ten_thousand_no_comma() {
    assert_eq!(
        format_with_commas_and_units(10_000, "CPU Instructions"),
        "10,000 inst."
    );
}

#[test]
fn formatter_one_hundred_thousand() {
    assert_eq!(
        format_with_commas_and_units(100_000, "CPU Instructions"),
        "100,000 inst."
    );
}

#[test]
fn formatter_nine_hundred_ninety_nine_thousand_nine_hundred_ninety_nine() {
    assert_eq!(
        format_with_commas_and_units(999_999, "CPU Instructions"),
        "999,999 inst."
    );
}

#[test]
fn formatter_one_million_exactly() {
    assert_eq!(
        format_with_commas_and_units(1_000_000, "CPU Instructions"),
        "1,000,000 inst."
    );
}

#[test]
fn formatter_multi_comma_boundary_ten_million() {
    assert_eq!(
        format_with_commas_and_units(10_000_000, "Read Bytes"),
        "10,000,000 B"
    );
}

#[test]
fn formatter_multi_comma_boundary_one_billion_minus_one() {
    assert_eq!(
        format_with_commas_and_units(999_999_999, "CPU Instructions"),
        "999,999,999 inst."
    );
}

#[test]
fn formatter_metric_contains_bytes_prefix_not_suffix() {
    // "Bytes" appears in the metric name but not as a separate word.
    // The function uses `contains("Bytes")`, so this should still
    // get the byte suffix.
    assert_eq!(format_with_commas_and_units(100, "MyBytesMetric"), "100 B");
}

#[test]
fn formatter_metric_contains_bytes_as_suffix() {
    assert_eq!(format_with_commas_and_units(256, "Some Bytes"), "256 B");
}

#[test]
fn formatter_metric_case_sensitive_no_match() {
    // "bytes" (lowercase) should NOT match due to case-sensitive contains.
    assert_eq!(format_with_commas_and_units(100, "read bytes"), "100 inst.");
}
