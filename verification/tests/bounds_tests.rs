use soroban_budget_assert::bounds::{
    costs_within_limits, cost_entry_json_string, BudgetBounds, CostReportable, CpuCost, MemoryCost,
};

// ── CpuCost tests ──────────────────────────────────────────────────────

#[test]
fn cpu_cost_returns_stored_value() {
    struct Fake {
        cpu: u64,
    }
    impl CpuCost for Fake {
        fn cpu_instruction_cost(&self) -> u64 {
            self.cpu
        }
    }
    assert_eq!(Fake { cpu: 0 }.cpu_instruction_cost(), 0);
    assert_eq!(Fake { cpu: 1 }.cpu_instruction_cost(), 1);
    assert_eq!(Fake { cpu: u64::MAX }.cpu_instruction_cost(), u64::MAX);
}

// ── MemoryCost tests ───────────────────────────────────────────────────

#[test]
fn memory_cost_returns_stored_value() {
    struct Fake {
        mem: u64,
    }
    impl MemoryCost for Fake {
        fn memory_bytes_cost(&self) -> u64 {
            self.mem
        }
    }
    assert_eq!(Fake { mem: 0 }.memory_bytes_cost(), 0);
    assert_eq!(Fake { mem: 512 }.memory_bytes_cost(), 512);
    assert_eq!(Fake { mem: u64::MAX }.memory_bytes_cost(), u64::MAX);
}

// ── BudgetBounds tests ─────────────────────────────────────────────────

#[test]
fn is_within_bounds_ok_when_below_limits() {
    struct Bounds {
        cpu: u64,
        mem: u64,
        cpu_limit: Option<u64>,
        mem_limit: Option<u64>,
    }
    impl CpuCost for Bounds {
        fn cpu_instruction_cost(&self) -> u64 {
            self.cpu
        }
    }
    impl MemoryCost for Bounds {
        fn memory_bytes_cost(&self) -> u64 {
            self.mem
        }
    }
    impl BudgetBounds for Bounds {
        fn label(&self) -> &str {
            "test"
        }
        fn cpu_limit(&self) -> Option<u64> {
            self.cpu_limit
        }
        fn memory_limit(&self) -> Option<u64> {
            self.mem_limit
        }
    }

    let b = Bounds {
        cpu: 500,
        mem: 200,
        cpu_limit: Some(1000),
        mem_limit: Some(500),
    };
    assert!(b.is_within_bounds().unwrap());
}

#[test]
fn is_within_bounds_fails_when_cpu_exceeds() {
    struct Bounds {
        cpu: u64,
        mem: u64,
        cpu_limit: Option<u64>,
        mem_limit: Option<u64>,
    }
    impl CpuCost for Bounds {
        fn cpu_instruction_cost(&self) -> u64 {
            self.cpu
        }
    }
    impl MemoryCost for Bounds {
        fn memory_bytes_cost(&self) -> u64 {
            self.mem
        }
    }
    impl BudgetBounds for Bounds {
        fn label(&self) -> &str {
            "test"
        }
        fn cpu_limit(&self) -> Option<u64> {
            self.cpu_limit
        }
        fn memory_limit(&self) -> Option<u64> {
            self.mem_limit
        }
    }

    let b = Bounds {
        cpu: 1500,
        mem: 200,
        cpu_limit: Some(1000),
        mem_limit: Some(500),
    };
    assert!(!b.is_within_bounds().unwrap());
}

#[test]
fn is_within_bounds_passes_when_no_limits() {
    struct Bounds {
        cpu: u64,
        mem: u64,
    }
    impl CpuCost for Bounds {
        fn cpu_instruction_cost(&self) -> u64 {
            self.cpu
        }
    }
    impl MemoryCost for Bounds {
        fn memory_bytes_cost(&self) -> u64 {
            self.mem
        }
    }
    impl BudgetBounds for Bounds {
        fn label(&self) -> &str {
            "test"
        }
        fn cpu_limit(&self) -> Option<u64> {
            None
        }
        fn memory_limit(&self) -> Option<u64> {
            None
        }
    }

    assert!(Bounds {
        cpu: u64::MAX,
        mem: u64::MAX
    }
    .is_within_bounds()
    .unwrap());
}

// ── CostReportable tests ───────────────────────────────────────────────

#[test]
fn cost_reportable_default_to_json() {
    struct Row {
        function: String,
        metric: String,
        value: u64,
    }
    impl CostReportable for Row {
        fn function_name(&self) -> &str {
            &self.function
        }
        fn metric_name(&self) -> &str {
            &self.metric
        }
        fn metric_value(&self) -> u64 {
            self.value
        }
    }

    let r = Row {
        function: "swap".into(),
        metric: "CPU Instructions".into(),
        value: 250_000,
    };
    let json = r.to_json();
    assert!(json.contains(r#""function":"swap""#));
    assert!(json.contains(r#""metric":"CPU Instructions""#));
    assert!(json.contains(r#""value":250000"#));
}

#[test]
fn cost_reportable_custom_to_json() {
    struct CustomRow {
        function: String,
        metric: String,
        value: u64,
        limit: Option<u64>,
        pass: bool,
    }
    impl CostReportable for CustomRow {
        fn function_name(&self) -> &str {
            &self.function
        }
        fn metric_name(&self) -> &str {
            &self.metric
        }
        fn metric_value(&self) -> u64 {
            self.value
        }

        fn to_json(&self) -> String {
            let limit = self
                .limit
                .map(|l| l.to_string())
                .unwrap_or_else(|| "null".into());
            format!(
                r#"{{"function":"{}","metric":"{}","value":{},"limit":{},"pass":{}}}"#,
                self.function_name(),
                self.metric_name(),
                self.metric_value(),
                limit,
                self.pass,
            )
        }
    }

    let r = CustomRow {
        function: "deposit".into(),
        metric: "Read Bytes".into(),
        value: 2048,
        limit: Some(5000),
        pass: true,
    };
    let json = r.to_json();
    assert!(json.contains(r#""function":"deposit""#));
    assert!(json.contains(r#""metric":"Read Bytes""#));
    assert!(json.contains(r#""value":2048"#));
    assert!(json.contains(r#""limit":5000"#));
    assert!(json.contains(r#""pass":true"#));
}

#[test]
fn cost_entry_json_is_exact() {
    assert_eq!(
        cost_entry_json_string("swap", "CPU Instructions", 250_000),
        r#"{"function":"swap","metric":"CPU Instructions","value":250000}"#
    );
}

#[test]
fn limits_are_exclusive_and_optional() {
    assert!(costs_within_limits(999, 499, Some(1_000), Some(500)));
    assert!(!costs_within_limits(1_000, 499, Some(1_000), Some(500)));
    assert!(!costs_within_limits(0, 500, None, Some(500)));
    assert!(costs_within_limits(u64::MAX, u64::MAX, None, None));
}
