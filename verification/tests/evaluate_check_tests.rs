use soroban_budget_assert::checks::evaluate_check;

#[test]
fn evaluate_check_value_two_limit_one_fails_off_by_one() {
    // Classic off-by-one: value exceeds inclusive limit by exactly 1.
    let (limit, pass) = evaluate_check(2, Some(1));
    assert_eq!(limit, Some(1));
    assert_eq!(pass, Some(false));
}

#[test]
fn evaluate_check_value_one_limit_one_passes_inclusive() {
    let (limit, pass) = evaluate_check(1, Some(1));
    assert_eq!(limit, Some(1));
    assert_eq!(pass, Some(true));
}

#[test]
fn evaluate_check_value_zero_limit_none_returns_none() {
    let (limit, pass) = evaluate_check(0, None);
    assert_eq!(limit, None);
    assert_eq!(pass, None);
}

#[test]
fn evaluate_check_mid_range_one_below_passes() {
    let (limit, pass) = evaluate_check(49_999, Some(50_000));
    assert_eq!(limit, Some(50_000));
    assert_eq!(pass, Some(true));
}

#[test]
fn evaluate_check_mid_range_exact_passes() {
    let (limit, pass) = evaluate_check(50_000, Some(50_000));
    assert_eq!(limit, Some(50_000));
    assert_eq!(pass, Some(true));
}

#[test]
fn evaluate_check_mid_range_one_above_fails() {
    let (limit, pass) = evaluate_check(50_001, Some(50_000));
    assert_eq!(limit, Some(50_000));
    assert_eq!(pass, Some(false));
}

#[test]
fn evaluate_check_value_u32_max_limit_exactly_u32_max_passes() {
    let (limit, pass) = evaluate_check(u32::MAX, Some(u64::from(u32::MAX)));
    assert_eq!(limit, Some(u64::from(u32::MAX)));
    assert_eq!(pass, Some(true));
}

#[test]
fn evaluate_check_value_u32_max_limit_one_below_fails() {
    let (limit, pass) = evaluate_check(u32::MAX, Some(u64::from(u32::MAX) - 1));
    assert_eq!(limit, Some(u64::from(u32::MAX) - 1));
    assert_eq!(pass, Some(false));
}

#[test]
fn evaluate_check_value_zero_limit_zero_passes() {
    let (limit, pass) = evaluate_check(0, Some(0));
    assert_eq!(limit, Some(0));
    assert_eq!(pass, Some(true));
}

#[test]
fn evaluate_check_value_one_limit_zero_fails() {
    let (limit, pass) = evaluate_check(1, Some(0));
    assert_eq!(limit, Some(0));
    assert_eq!(pass, Some(false));
}

#[test]
fn evaluate_check_value_one_limit_one_passes() {
    let (limit, pass) = evaluate_check(1, Some(1));
    assert_eq!(limit, Some(1));
    assert_eq!(pass, Some(true));
}

#[test]
fn evaluate_check_value_u32_max_minus_one_limit_u32_max_passes() {
    let (limit, pass) = evaluate_check(u32::MAX - 1, Some(u64::from(u32::MAX)));
    assert_eq!(limit, Some(u64::from(u32::MAX)));
    assert_eq!(pass, Some(true));
}

#[test]
fn evaluate_check_value_one_limit_none_returns_none() {
    let (limit, pass) = evaluate_check(1, None);
    assert_eq!(limit, None);
    assert_eq!(pass, None);
}

#[test]
fn evaluate_check_value_u32_max_limit_zero_fails() {
    let (limit, pass) = evaluate_check(u32::MAX, Some(0));
    assert_eq!(limit, Some(0));
    assert_eq!(pass, Some(false));
}
