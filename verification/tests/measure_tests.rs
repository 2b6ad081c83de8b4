use soroban_budget_assert::measure::{
    format_metric, BudgetAssert, BudgetExceededError, CostMeasurer, ResourceReport,
    ResourceReportable,
};

// ── CostMeasurer tests ──────────────────────────────────────────────

#[test]
fn cost_measurer_returns_cpu_and_memory() {
    struct Dummy;
    impl CostMeasurer for Dummy {
        fn cpu_instructions(&self) -> u64 {
            42
        }
        fn memory_bytes(&self) -> u64 {
            128
        }
    }
    assert_eq!(Dummy.cpu_instructions(), 42);
    assert_eq!(Dummy.memory_bytes(), 128);
}

#[test]
fn cost_measurer_value_for_known_metrics() {
    struct Dummy;
    impl CostMeasurer for Dummy {
        fn cpu_instructions(&self) -> u64 {
            99
        }
        fn memory_bytes(&self) -> u64 {
            200
        }
    }
    assert_eq!(Dummy.value_for("CPU Instructions"), Some(99));
    assert_eq!(Dummy.value_for("Read Bytes"), Some(200));
    assert_eq!(Dummy.value_for("Write Bytes"), Some(200));
    assert_eq!(Dummy.value_for("WASM Bytes"), Some(0));
}

#[test]
fn cost_measurer_value_for_unknown_metric() {
    struct Dummy;
    impl CostMeasurer for Dummy {
        fn cpu_instructions(&self) -> u64 {
            0
        }
        fn memory_bytes(&self) -> u64 {
            0
        }
    }
    assert_eq!(Dummy.value_for("Unknown Metric"), None);
    assert_eq!(Dummy.value_for(""), None);
}

// ── BudgetAssert tests ──────────────────────────────────────────────

struct WithinBudget(u64, u64);

impl CostMeasurer for WithinBudget {
    fn cpu_instructions(&self) -> u64 {
        self.0
    }
    fn memory_bytes(&self) -> u64 {
        self.1
    }
}

// The blanket impl provides BudgetAssert for all CostMeasurer impls.

#[test]
fn cpu_within_passes_when_below_limit() {
    assert!(WithinBudget(100, 0).cpu_within(200).is_ok());
}

#[test]
fn cpu_within_fails_when_at_limit() {
    let result = WithinBudget(200, 0).cpu_within(200);
    assert!(result.is_err());
    let err = result.unwrap_err();
    assert_eq!(err.metric, "CPU Instructions");
    assert_eq!(err.actual, 200);
    assert_eq!(err.limit, 200);
}

#[test]
fn cpu_within_fails_when_above_limit() {
    assert!(WithinBudget(300, 0).cpu_within(200).is_err());
}

#[test]
fn memory_within_passes_when_below_limit() {
    assert!(WithinBudget(0, 100).memory_within(200).is_ok());
}

#[test]
fn memory_within_fails_when_at_limit() {
    assert!(WithinBudget(0, 200).memory_within(200).is_err());
}

#[test]
fn memory_within_fails_when_above_limit() {
    assert!(WithinBudget(0, 300).memory_within(200).is_err());
}

#[test]
fn within_budget_passes_when_both_within() {
    assert!(WithinBudget(100, 200).within_budget(500, 500).is_ok());
}

#[test]
fn within_budget_fails_on_cpu_first() {
    let result = WithinBudget(600, 100).within_budget(500, 500);
    assert!(result.is_err());
    let err = result.unwrap_err();
    assert_eq!(err.metric, "CPU Instructions");
}

#[test]
fn within_budget_fails_on_memory() {
    let result = WithinBudget(100, 600).within_budget(500, 500);
    assert!(result.is_err());
    let err = result.unwrap_err();
    assert_eq!(err.metric, "Memory Bytes");
}

// ── BudgetExceededError tests ───────────────────────────────────────

#[test]
fn budget_exceeded_error_creation() {
    let err = BudgetExceededError::new("CPU Instructions", 1500, 1000);
    assert_eq!(err.metric, "CPU Instructions");
    assert_eq!(err.actual, 1500);
    assert_eq!(err.limit, 1000);
}

#[test]
fn budget_exceeded_error_display() {
    let err = BudgetExceededError::new("CPU Instructions", 1500, 1000);
    let msg = err.to_string();
    assert!(msg.contains("CPU Instructions"));
    assert!(msg.contains("1500"));
    assert!(msg.contains("1000"));
}

#[test]
fn resource_report_construction() {
    let report = ResourceReport {
        package: "my-contract".to_string(),
        function: "do_work".to_string(),
        cpu_instructions: 1_000_000,
        memory_bytes: 2_048,
        wasm_bytes: 102_400,
    };
    assert_eq!(report.package, "my-contract");
    assert_eq!(report.function, "do_work");
    assert_eq!(report.cpu_instructions, 1_000_000);
    assert_eq!(report.memory_bytes, 2_048);
    assert_eq!(report.wasm_bytes, 102_400);
}

// ── format_metric tests ─────────────────────────────────────────────

#[test]
fn format_metric_zero_cpu() {
    assert_eq!(format_metric(0, "CPU Instructions"), "0 inst.");
}

#[test]
fn format_metric_zero_bytes() {
    assert_eq!(format_metric(0, "Read Bytes"), "0 B");
}

#[test]
fn format_metric_with_commas() {
    assert_eq!(
        format_metric(1_000_000, "CPU Instructions"),
        "1,000,000 inst."
    );
}

#[test]
fn format_metric_bytes_unit() {
    assert_eq!(format_metric(4_096, "Write Bytes"), "4,096 B");
}

#[test]
fn budget_exceeded_error_message_is_exact() {
    let err = BudgetExceededError::new("CPU Instructions", 1500, 1000);
    assert_eq!(err.to_string(), "CPU Instructions exceeded limit: value=1500, limit=1000");
}

#[test]
fn report_from_reportable_measurer() {
    struct Measured(u64, u64);
    impl CostMeasurer for Measured {
        fn cpu_instructions(&self) -> u64 {
            self.0
        }
        fn memory_bytes(&self) -> u64 {
            self.1
        }
    }
    impl ResourceReportable for Measured {
        fn to_report(&self, package: &str, function: &str) -> ResourceReport {
            ResourceReport {
                package: package.to_string(),
                function: function.to_string(),
                cpu_instructions: self.0,
                memory_bytes: self.1,
                wasm_bytes: 0,
            }
        }
    }
    let m = Measured(1_500, 900);
    assert!(m.cpu_within(2_000).is_ok());
    assert_eq!(m.memory_within(900), Err(BudgetExceededError::new("Memory Bytes", 900, 900)));
    let report = m.to_report("my_contract", "do_work");
    assert_eq!(report.cpu_instructions, 1_500);
    assert_eq!(format_metric(report.memory_bytes, "Memory Bytes"), "900 B");
}

#[test]
fn within_budget_reports_cpu_when_both_fail() {
    let result = WithinBudget(700, 900).within_budget(500, 500);
    assert_eq!(result, Err(BudgetExceededError::new("CPU Instructions", 700, 500)));
    // Each check reads its own measurement.
    assert_eq!(
        WithinBudget(0, 200).memory_within(200),
        Err(BudgetExceededError::new("Memory Bytes", 200, 200))
    );
    assert_eq!(WithinBudget(0, 200).cpu_within(1), Ok(()));
}
