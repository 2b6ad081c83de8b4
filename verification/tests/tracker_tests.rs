use soroban_budget_assert::tracker::{
    compare_backends, CostSnapshot, HashedStateTracker, LinearStateTracker, StateTracker,
};
use std::time::Duration;

// ── CostSnapshot ────────────────────────────────────────────────────

#[test]
fn cost_snapshot_new_stores_values() {
    let s = CostSnapshot::new(42, 128);
    assert_eq!(s.cpu, 42);
    assert_eq!(s.memory, 128);
}

#[test]
fn cost_snapshot_zero_is_zero() {
    assert_eq!(CostSnapshot::zero().cpu, 0);
    assert_eq!(CostSnapshot::zero().memory, 0);
}

#[test]
fn cost_snapshot_default_is_zero() {
    assert_eq!(CostSnapshot::default(), CostSnapshot::zero());
}

#[test]
fn cost_snapshot_clone_and_eq() {
    let a = CostSnapshot::new(10, 20);
    let b = a;
    assert_eq!(a, b);
}

// ── LinearStateTracker ──────────────────────────────────────────────

#[test]
fn linear_tracker_starts_empty() {
    let t = LinearStateTracker::new();
    assert!(t.is_empty());
    assert_eq!(t.len(), 0);
    assert_eq!(t.total_cpu(), 0);
    assert_eq!(t.total_memory(), 0);
    assert!(t.lookup("anything").is_none());
}

#[test]
fn linear_tracker_record_inserts_new() {
    let mut t = LinearStateTracker::new();
    t.record("a", CostSnapshot::new(10, 5));
    assert_eq!(t.len(), 1);
    assert_eq!(t.lookup("a"), Some(&CostSnapshot::new(10, 5)));
}

#[test]
fn linear_tracker_record_updates_existing() {
    let mut t = LinearStateTracker::new();
    t.record("a", CostSnapshot::new(10, 5));
    t.record("a", CostSnapshot::new(99, 7));
    assert_eq!(t.len(), 1);
    assert_eq!(t.lookup("a"), Some(&CostSnapshot::new(99, 7)));
}

#[test]
fn linear_tracker_lookup_missing_returns_none() {
    let mut t = LinearStateTracker::new();
    t.record("a", CostSnapshot::new(10, 5));
    assert!(t.lookup("b").is_none());
    assert!(!t.contains("b"));
}

#[test]
fn linear_tracker_total_sums_all_entries() {
    let mut t = LinearStateTracker::new();
    t.record("a", CostSnapshot::new(10, 5));
    t.record("b", CostSnapshot::new(20, 10));
    t.record("c", CostSnapshot::new(30, 15));
    assert_eq!(t.total_cpu(), 60);
    assert_eq!(t.total_memory(), 30);
}

#[test]
fn linear_tracker_ops_returns_all_names() {
    let mut t = LinearStateTracker::new();
    t.record("alpha", CostSnapshot::new(1, 1));
    t.record("beta", CostSnapshot::new(2, 2));
    let ops = t.ops();
    assert_eq!(ops.len(), 2);
    assert!(ops.contains(&"alpha".to_string()));
    assert!(ops.contains(&"beta".to_string()));
}

#[test]
fn linear_tracker_preserves_insertion_order_in_ops() {
    // LinearStateTracker is documented to preserve insertion order in
    // its `ops()` iteration — other backends are explicitly not.
    let mut t = LinearStateTracker::new();
    t.record("first", CostSnapshot::new(1, 1));
    t.record("second", CostSnapshot::new(2, 2));
    t.record("third", CostSnapshot::new(3, 3));
    assert_eq!(
        t.ops(),
        vec![
            "first".to_string(),
            "second".to_string(),
            "third".to_string()
        ]
    );
}

// ── HashedStateTracker ──────────────────────────────────────────────

#[test]
fn hashed_tracker_starts_empty() {
    let t = HashedStateTracker::new();
    assert!(t.is_empty());
    assert_eq!(t.len(), 0);
    assert_eq!(t.total_cpu(), 0);
    assert_eq!(t.total_memory(), 0);
    assert!(t.lookup("anything").is_none());
}

#[test]
fn hashed_tracker_record_inserts_new() {
    let mut t = HashedStateTracker::new();
    t.record("a", CostSnapshot::new(10, 5));
    assert_eq!(t.len(), 1);
    assert_eq!(t.lookup("a"), Some(&CostSnapshot::new(10, 5)));
}

#[test]
fn hashed_tracker_record_updates_existing() {
    let mut t = HashedStateTracker::new();
    t.record("a", CostSnapshot::new(10, 5));
    t.record("a", CostSnapshot::new(99, 7));
    assert_eq!(t.len(), 1);
    assert_eq!(t.lookup("a"), Some(&CostSnapshot::new(99, 7)));
}

#[test]
fn hashed_tracker_lookup_missing_returns_none() {
    let mut t = HashedStateTracker::new();
    t.record("a", CostSnapshot::new(10, 5));
    assert!(t.lookup("b").is_none());
    assert!(!t.contains("b"));
}

#[test]
fn hashed_tracker_total_sums_all_entries() {
    let mut t = HashedStateTracker::new();
    t.record("a", CostSnapshot::new(10, 5));
    t.record("b", CostSnapshot::new(20, 10));
    t.record("c", CostSnapshot::new(30, 15));
    assert_eq!(t.total_cpu(), 60);
    assert_eq!(t.total_memory(), 30);
}

#[test]
fn hashed_tracker_ops_returns_all_names() {
    let mut t = HashedStateTracker::new();
    t.record("alpha", CostSnapshot::new(1, 1));
    t.record("beta", CostSnapshot::new(2, 2));
    let ops = t.ops();
    assert_eq!(ops.len(), 2);
    assert!(ops.contains(&"alpha".to_string()));
    assert!(ops.contains(&"beta".to_string()));
}

#[test]
fn hashed_tracker_clear_empties_state() {
    let mut t = HashedStateTracker::new();
    t.record("a", CostSnapshot::new(10, 5));
    t.record("b", CostSnapshot::new(20, 10));
    assert_eq!(t.len(), 2);
    t.clear();
    assert!(t.is_empty());
    assert!(t.lookup("a").is_none());
}

// ── Parity between backends ─────────────────────────────────────────

#[test]
fn both_trackers_agree_on_record_and_lookup() {
    let ops = ["deposit", "withdraw", "swap", "claim"];
    let snaps = [
        CostSnapshot::new(100, 10),
        CostSnapshot::new(200, 20),
        CostSnapshot::new(300, 30),
        CostSnapshot::new(400, 40),
    ];

    let mut lin = LinearStateTracker::new();
    let mut hash = HashedStateTracker::new();

    for (op, snap) in ops.iter().zip(snaps.iter()) {
        lin.record(op, *snap);
        hash.record(op, *snap);
    }

    assert_eq!(lin.len(), hash.len());
    assert_eq!(lin.total_cpu(), hash.total_cpu());
    assert_eq!(lin.total_memory(), hash.total_memory());
    assert_eq!(lin.len(), ops.len());

    for (op, expected) in ops.iter().zip(snaps.iter()) {
        assert_eq!(lin.lookup(op), Some(expected));
        assert_eq!(hash.lookup(op), Some(expected));
    }
}

#[test]
fn both_trackers_agree_on_upsert() {
    let mut lin = LinearStateTracker::new();
    let mut hash = HashedStateTracker::new();
    lin.record("op", CostSnapshot::new(1, 1));
    hash.record("op", CostSnapshot::new(1, 1));
    lin.record("op", CostSnapshot::new(2, 3));
    hash.record("op", CostSnapshot::new(2, 3));

    assert_eq!(lin.len(), hash.len());
    assert_eq!(lin.lookup("op"), Some(&CostSnapshot::new(2, 3)));
    assert_eq!(hash.lookup("op"), Some(&CostSnapshot::new(2, 3)));
}

#[test]
fn linear_into_hashed_preserves_last_snapshot() {
    let mut lin = LinearStateTracker::new();
    lin.record("a", CostSnapshot::new(1, 1));
    lin.record("a", CostSnapshot::new(2, 2));
    lin.record("b", CostSnapshot::new(3, 3));

    let hash = lin.into_hashed();
    assert_eq!(hash.len(), 2);
    assert_eq!(hash.lookup("a"), Some(&CostSnapshot::new(2, 2)));
    assert_eq!(hash.lookup("b"), Some(&CostSnapshot::new(3, 3)));
}

// ── Benchmarks ──────────────────────────────────────────────────────
//
// We exercise the benchmark harness on a representative input size. The
// exact numbers vary by machine, but on a typical CI runner the hashed
// backend should be substantially faster on both `record` (which
// upserts) and `lookup`. We assert only basic invariants so the test
// does not flake.

#[test]
fn benchmark_handles_empty_input() {
    let report = compare_backends(0, 0);
    assert_eq!(report.n, 0);
    // With no work to do, both backends should report a timing that fits
    // comfortably inside a 1 ms margin (wall-clock jitter may produce a
    // few nanoseconds even for an empty loop).
    let one_ms = Duration::from_millis(1).as_nanos();
    assert!(report.linear_record_time.as_nanos() <= one_ms);
    assert!(report.hashed_record_time.as_nanos() <= one_ms);
    assert!(report.linear_lookup_time.as_nanos() <= one_ms);
    assert!(report.hashed_lookup_time.as_nanos() <= one_ms);
}

#[test]
fn benchmark_hashed_outperforms_linear_at_scale() {
    // Two workload sizes — confirm the optimization holds at both, and
    // that the linear backend actually scales with input size. The
    // cross-size comparison is intentionally absent because absolute
    // timings are noisy on shared CI runners; comparing hashed-vs-linear
    // *at the same scale* is the robust invariant we actually need.
    let small = compare_backends(50, 10);
    let large = compare_backends(2_000, 10);

    assert!(
        large.hashed_lookup_time <= large.linear_lookup_time,
        "hashed should be at least as fast as linear at n=2000 (hashed: {:?}, linear: {:?})",
        large.hashed_lookup_time,
        large.linear_lookup_time
    );
    assert!(
        small.hashed_lookup_time <= small.linear_lookup_time,
        "hashed should be at least as fast as linear at n=50 (hashed: {:?}, linear: {:?})",
        small.hashed_lookup_time,
        small.linear_lookup_time
    );

    // Sanity check the benchmark harness itself: the linear backend
    // must take longer on a larger workload. If this fails we cannot
    // trust the rest of the harness.
    assert!(large.linear_lookup_time >= small.linear_lookup_time);
}

#[test]
fn linear_tracker_clear_and_capacity() {
    let mut t = LinearStateTracker::with_capacity(8);
    assert_eq!(t.capacity(), 0);
    t.record("x", CostSnapshot::new(1, 2));
    t.record("y", CostSnapshot::new(1, 2));
    t.record("x", CostSnapshot::new(3, 4));
    assert_eq!(t.capacity(), 2);
    assert_eq!(t.capacity(), t.len());
    t.clear();
    assert_eq!(t.capacity(), 0);
    assert!(t.is_empty());
    assert!(!t.contains("x"));
}

#[test]
fn hashed_tracker_ops_keep_first_recording_order() {
    let mut t = HashedStateTracker::with_capacity(4);
    assert_eq!(t.capacity(), 0);
    t.record("b", CostSnapshot::new(1, 1));
    t.record("a", CostSnapshot::new(2, 2));
    t.record("b", CostSnapshot::new(3, 3));
    assert_eq!(t.capacity(), 2);
    assert_eq!(t.ops(), vec!["b".to_string(), "a".to_string()]);
    assert_eq!(t.total_cpu(), 5);
    assert_eq!(t.total_memory(), 5);
}

#[test]
fn benchmark_report_echoes_its_sizes() {
    let report = compare_backends(20, 5);
    assert_eq!(report.n, 20);
    assert_eq!(report.warmup, 5);
    assert!(report.linear_record_time >= Duration::ZERO);
}
