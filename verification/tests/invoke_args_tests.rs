use soroban_budget_assert::transport::build_invoke_args;

// ── build_invoke_args zero-length / boundary tests ─────────────────

#[test]
fn module_18_build_invoke_args_all_empty_strings() {
    let args = build_invoke_args("", "", "", "", &[]);
    assert_eq!(args.len(), 11);
    assert_eq!(args[3], ""); // contract id
    assert_eq!(args[5], ""); // source
    assert_eq!(args[7], ""); // network
    assert_eq!(args[10], ""); // function
}

#[test]
fn build_invoke_args_empty_string_function_arg() {
    let args = build_invoke_args("C", "alice", "testnet", "f", &["".into()]);
    assert_eq!(args.len(), 12);
    assert_eq!(args.last(), Some(&"".to_string()));
}

#[test]
fn build_invoke_args_whitespace_only_function_arg() {
    let args = build_invoke_args("C", "alice", "testnet", "f", &["   ".into()]);
    assert_eq!(args.last(), Some(&"   ".to_string()));
}

#[test]
fn build_invoke_args_one_arg_boundary_length() {
    let args = build_invoke_args("CID", "src", "net", "fn", &["x".into()]);
    // 11 base args + 1 function arg
    assert_eq!(args.len(), 12);
    assert_eq!(args[10], "fn");
    assert_eq!(args[11], "x");
}

// ── build_invoke_args additional zero-length edge cases ────────────

#[test]
fn module_28_build_invoke_args_all_empty_strings() {
    let args = build_invoke_args("", "", "", "", &[]);
    assert_eq!(args.len(), 11);
    assert_eq!(args[3], ""); // contract id
    assert_eq!(args[5], ""); // source
    assert_eq!(args[7], ""); // network
    assert_eq!(args[10], ""); // function name
}

#[test]
fn build_invoke_args_special_character_in_arg() {
    let args = build_invoke_args(
        "C",
        "alice",
        "testnet",
        "transfer",
        &["--value".into(), "!@#$%^&*()".into()],
    );
    assert_eq!(args[11], "--value");
    assert_eq!(args[12], "!@#$%^&*()");
}

#[test]
fn build_invoke_args_args_with_empty_strings() {
    let args = build_invoke_args("C", "alice", "testnet", "f", &["".into(), "".into()]);
    assert_eq!(args[11], "");
    assert_eq!(args[12], "");
}

#[test]
fn build_invoke_args_function_name_with_special_characters() {
    let args = build_invoke_args("C", "alice", "testnet", "do_work_123!", &[]);
    assert_eq!(args.last(), Some(&"do_work_123!".to_string()));
}

#[test]
fn build_invoke_args_full_layout() {
    let args = build_invoke_args("CID", "alice", "testnet", "swap", &["--a".into(), "1".into()]);
    assert_eq!(
        args,
        vec![
            "contract", "invoke", "--id", "CID", "--source", "alice", "--network", "testnet",
            "--build-only", "--", "swap", "--a", "1",
        ]
    );
}
