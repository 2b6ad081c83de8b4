use soroban_budget_assert::summary::{aggregate_measurements, format_resource_summary};

#[test]
fn format_resource_summary_single_run() {
    let cpu = vec![500_000u64];
    let mem = vec![1_024u64];
    let summary = format_resource_summary(&cpu, &mem, 1, 102_400);
    assert!(summary.contains("500,000"));
    assert!(summary.contains("1,024"));
    assert!(summary.contains("102,400"));
}

#[test]
fn format_resource_summary_multiple_runs() {
    let cpu = vec![100_000u64, 200_000u64, 300_000u64];
    let mem = vec![512u64, 1_024u64, 2_048u64];
    let summary = format_resource_summary(&cpu, &mem, 3, 50_000);
    // Average CPU: (100_000 + 200_000 + 300_000) / 3 = 200_000
    assert!(summary.contains("200,000"));
    // Average mem: (512 + 1_024 + 2_048) / 3 ≈ 1,194 → floor = 1,194
    assert!(summary.contains("1,194"));
}

#[test]
fn format_resource_summary_empty_measurements() {
    let cpu = vec![];
    let mem = vec![];
    let summary = format_resource_summary(&cpu, &mem, 0, 0);
    assert!(summary.contains("0"));
}

#[test]
fn aggregate_measurements_single_package() {
    let data = vec![
        (
            "pkg-a".to_string(),
            "fn1".to_string(),
            "CPU Instructions",
            100,
        ),
        ("pkg-a".to_string(), "fn1".to_string(), "Read Bytes", 200),
    ];
    let result = aggregate_measurements(0, 0, 0, &data);
    assert_eq!(result.get("pkg-a").unwrap().get("fn1").unwrap(), &200);
}

#[test]
fn aggregate_measurements_multiple_packages() {
    let data = vec![
        (
            "pkg-a".to_string(),
            "fn1".to_string(),
            "CPU Instructions",
            100,
        ),
        ("pkg-b".to_string(), "fn2".to_string(), "Read Bytes", 200),
    ];
    let result = aggregate_measurements(0, 0, 0, &data);
    assert_eq!(result.get("pkg-a").unwrap().get("fn1").unwrap(), &100);
    assert_eq!(result.get("pkg-b").unwrap().get("fn2").unwrap(), &200);
}

#[test]
fn aggregate_measurements_tracks_maximum() {
    let data = vec![
        ("pkg".to_string(), "fn".to_string(), "CPU Instructions", 100),
        ("pkg".to_string(), "fn".to_string(), "CPU Instructions", 500),
        ("pkg".to_string(), "fn".to_string(), "CPU Instructions", 300),
    ];
    let result = aggregate_measurements(0, 0, 0, &data);
    assert_eq!(result.get("pkg").unwrap().get("fn").unwrap(), &500);
}

#[test]
fn aggregate_measurements_empty_input() {
    let data = vec![];
    let result = aggregate_measurements(0, 0, 0, &data);
    assert!(result.is_empty());
}

#[test]
fn format_resource_summary_exact_text() {
    let summary = format_resource_summary(&[1_500, 2_500], &[10, 11], 2, 1_234_567);
    assert_eq!(
        summary,
        "CPU: 2,000 inst., Memory: 10 B, WASM: 1,234,567 B"
    );
}

#[test]
fn format_resource_summary_zero_iterations_averages_to_zero() {
    let summary = format_resource_summary(&[5, 6], &[7], 0, 0);
    assert_eq!(summary, "CPU: 0 inst., Memory: 0 B, WASM: 0 B");
}

#[test]
fn aggregate_measurements_keeps_names_sorted_and_separate() {
    let data = vec![
        ("zeta".to_string(), "b".to_string(), "CPU Instructions", 3u64),
        ("alpha".to_string(), "z".to_string(), "CPU Instructions", 9),
        ("alpha".to_string(), "a".to_string(), "Read Bytes", 4),
        ("alpha".to_string(), "z".to_string(), "Write Bytes", 2),
        ("Zed".to_string(), "x".to_string(), "CPU Instructions", 1),
    ];
    let result = aggregate_measurements(1, 2, 3, &data);
    assert_eq!(result.len(), 3);
    assert_eq!(result.keys(), vec!["Zed".to_string(), "alpha".to_string(), "zeta".to_string()]);
    let alpha = result.get("alpha").unwrap();
    assert_eq!(alpha.keys(), vec!["a".to_string(), "z".to_string()]);
    assert_eq!(alpha.get("z"), Some(&9));
    assert_eq!(alpha.get("a"), Some(&4));
    assert_eq!(alpha.get("b"), None);
    assert!(result.get("beta").is_none());
}
