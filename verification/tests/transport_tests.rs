use soroban_budget_assert::transport::{
    check_fixture_version, deploy_key, fixture_not_found_message, invoke_key, simulate_key,
    FIXTURE_VERSION,
};

#[test]
fn fixture_keys() {
    assert_eq!(deploy_key("amm"), "deploy:amm");
    assert_eq!(invoke_key("amm", "swap"), "invoke:amm:swap");
    assert_eq!(simulate_key("amm", "swap"), "simulate:amm:swap");
    assert_eq!(
        fixture_not_found_message("deploy:amm"),
        "Fixture not found for deploy:amm"
    );
}

#[test]
fn fixture_version_must_match() {
    assert_eq!(check_fixture_version(FIXTURE_VERSION), Ok(()));
    assert_eq!(
        check_fixture_version(2),
        Err("Fixture version mismatch: expected 1 got 2".to_string())
    );
}
