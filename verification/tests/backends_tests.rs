use soroban_budget_assert::tracker::{
    bench_workload, record_all, CostSnapshot, HashedStateTracker, LinearStateTracker, StateTracker,
};
use soroban_budget_assert::validate::parse_xdr_decode_output;

#[test]
fn bench_workload_builds_names_and_snapshots() {
    let (names, snapshots) = bench_workload(3);
    assert_eq!(names, vec!["op_0".to_string(), "op_1".to_string(), "op_2".to_string()]);
    assert_eq!(
        snapshots,
        vec![CostSnapshot::new(0, 0), CostSnapshot::new(10, 4), CostSnapshot::new(20, 8)]
    );
    let (names, snapshots) = bench_workload(0);
    assert!(names.is_empty() && snapshots.is_empty());
}

#[test]
fn backends_agree_over_a_recorded_sequence() {
    let names: Vec<String> = ["swap", "claim", "swap", "mint", "claim"]
        .iter()
        .map(|s| s.to_string())
        .collect();
    let snaps = vec![
        CostSnapshot::new(1, 10),
        CostSnapshot::new(2, 20),
        CostSnapshot::new(3, 30),
        CostSnapshot::new(4, 40),
        CostSnapshot::new(5, 50),
    ];
    let mut lin = LinearStateTracker::new();
    let mut hash = HashedStateTracker::new();
    record_all(&mut lin, &names, &snaps, names.len());
    record_all(&mut hash, &names, &snaps, names.len());
    assert_eq!(lin.len(), 3);
    assert_eq!(hash.len(), 3);
    assert_eq!(lin.ops(), hash.ops());
    assert_eq!(lin.ops(), vec!["swap".to_string(), "claim".to_string(), "mint".to_string()]);
    assert_eq!(lin.total_cpu(), 3 + 5 + 4);
    assert_eq!(hash.total_cpu(), lin.total_cpu());
    assert_eq!(hash.total_memory(), lin.total_memory());
    // Each lookup gives the snapshot last recorded for the name.
    for (op, last) in [("swap", 3), ("claim", 5), ("mint", 4)] {
        assert_eq!(lin.lookup(op), Some(&CostSnapshot::new(last, last * 10)));
        assert_eq!(hash.lookup(op), lin.lookup(op));
    }
    assert_eq!(hash.lookup("burn"), None);
    // Recording only a prefix.
    let mut partial = LinearStateTracker::new();
    record_all(&mut partial, &names, &snaps, 2);
    assert_eq!(partial.len(), 2);
    assert_eq!(partial.lookup("swap"), Some(&CostSnapshot::new(1, 10)));
}

#[test]
fn non_json_output_message_ends_with_the_parser_message() {
    let err = parse_xdr_decode_output("nope").unwrap_err();
    let parser = serde_json::from_str::<serde_json::Value>("nope").unwrap_err().to_string();
    assert_eq!(err, format!("CLI xdr decode output is not valid JSON:\nnope: {}", parser));
}
