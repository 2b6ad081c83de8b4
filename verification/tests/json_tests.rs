use soroban_budget_assert::json::{as_u64, member, u64_member, JsonTree};
use soroban_budget_assert::validate::parse_xdr_decode_output;

fn object(members: Vec<(&str, JsonTree)>) -> JsonTree {
    JsonTree::Object(members.into_iter().map(|(k, v)| (k.to_string(), v)).collect())
}

#[test]
fn json_tree_member_reads_the_first_match_only() {
    let tree = object(vec![
        ("a", JsonTree::Number(Some(1))),
        ("b", JsonTree::Number(None)),
        ("a", JsonTree::Number(Some(2))),
    ]);
    assert!(matches!(member(&tree, "a"), Some(JsonTree::Number(Some(1)))));
    assert!(matches!(member(&tree, "b"), Some(JsonTree::Number(None))));
    assert!(member(&tree, "c").is_none());
    assert!(member(&JsonTree::Other, "a").is_none());
    assert!(member(&JsonTree::Number(Some(3)), "a").is_none());
}

#[test]
fn json_tree_u64_readings() {
    let tree = object(vec![
        ("n", JsonTree::Number(Some(42))),
        ("f", JsonTree::Number(None)),
        ("s", JsonTree::Other),
        ("o", object(vec![("n", JsonTree::Number(Some(7)))])),
    ]);
    assert_eq!(u64_member(&tree, "n"), Some(42));
    assert_eq!(u64_member(&tree, "f"), None);
    assert_eq!(u64_member(&tree, "s"), None);
    assert_eq!(u64_member(&tree, "o"), None);
    assert_eq!(u64_member(&tree, "missing"), None);
    assert_eq!(as_u64(&JsonTree::Number(Some(u64::MAX))), Some(u64::MAX));
    assert_eq!(as_u64(&tree), None);
}

#[test]
fn decode_output_reads_each_field_from_its_own_member() {
    let json = r#"{"resources":{"instructions":11,"read_bytes":22,"write_bytes":33}}"#;
    let m = parse_xdr_decode_output(json).unwrap();
    assert_eq!((m.instructions, m.read_bytes, m.write_bytes), (11, 22, 33));
}

#[test]
fn decode_output_does_not_fall_back_past_a_present_read_bytes() {
    // `read_bytes` is present but not a number: the alias is not consulted.
    let json = r#"{"resources":{"instructions":1,"read_bytes":"x","disk_read_bytes":5,"write_bytes":3}}"#;
    assert_eq!(
        parse_xdr_decode_output(json).unwrap_err(),
        "CLI output missing 'resources.read_bytes' or 'resources.disk_read_bytes'"
    );
    let json = r#"{"resources":{"instructions":1,"read_bytes":2,"write_bytes":-3}}"#;
    assert_eq!(
        parse_xdr_decode_output(json).unwrap_err(),
        "CLI output missing or invalid 'resources.write_bytes'"
    );
    let json = r#"{"resources":7}"#;
    assert_eq!(
        parse_xdr_decode_output(json).unwrap_err(),
        "CLI output missing or invalid 'resources.instructions'"
    );
}
