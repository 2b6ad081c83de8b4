use soroban_budget_assert::derivation::{
    default_schema_version, env_var_key, env_var_scenario_key, metric_to_env_segment,
};

#[test]
fn metric_to_env_segment_handles_label_variants() {
    assert_eq!(metric_to_env_segment("CPU Instructions"), "CPU");
    assert_eq!(metric_to_env_segment("Memory Bytes"), "MEM");
    assert_eq!(metric_to_env_segment("memory_bytes"), "MEM");
    assert_eq!(metric_to_env_segment("Read Bytes"), "READ");
    assert_eq!(metric_to_env_segment("Write Bytes"), "WRITE");
    // Unknown metrics keep their literal segment — emitting a key
    // would still be useful for callers to grep, but the parser
    // for the env form will skip unknown metrics so the value is
    // effectively ignored at test runtime. Better than silently
    // dropping a metric with no warning.
    assert_eq!(metric_to_env_segment("WASM Bytes"), "UNKNOWN");
}

#[test]
fn env_var_key_uppercases_and_double_underscores() {
    let key = env_var_key("amm-pool-contract", "require_auth_only", "CPU Instructions");
    assert_eq!(key, "TIER_A__AMM_POOL_CONTRACT__REQUIRE_AUTH_ONLY__CPU");
}

#[test]
fn env_var_scenario_key_inserts_scenario_marker() {
    let key = env_var_scenario_key("amm-pool-contract", "full_workflow", "CPU Instructions");
    assert_eq!(
        key,
        "TIER_A__AMM_POOL_CONTRACT__SCENARIO__FULL_WORKFLOW__CPU"
    );
}

#[test]
fn env_var_key_without_function_and_with_odd_characters() {
    assert_eq!(env_var_key("pkg", "", "Memory bytes"), "TIER_A__PKG__MEM");
    // Only ASCII letters change case; dashes become underscores in the
    // package segment only.
    assert_eq!(
        env_var_key("a-b", "fn-é", "Unknown"),
        "TIER_A__A_B__FN-é__UNKNOWN"
    );
    assert_eq!(metric_to_env_segment("cpu instructions"), "UNKNOWN");
}

#[test]
fn wrapped_reports_default_to_the_first_schema() {
    assert_eq!(default_schema_version(), 1);
}
