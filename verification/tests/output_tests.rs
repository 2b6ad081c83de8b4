use soroban_budget_assert::output::OutputFormat;
use std::str::FromStr;

#[test]
fn format_parser_accepts_json_only_as_json() {
    assert_eq!(OutputFormat::from_str("json"), Ok(OutputFormat::Json));
    assert_eq!(OutputFormat::from_str("human"), Ok(OutputFormat::Human));
    assert!(OutputFormat::from_str("yaml").is_err());
}

#[test]
fn format_parser_message_and_names() {
    assert_eq!(
        OutputFormat::parse("JSON"),
        Err("unsupported output format `JSON`; expected `human` or `json`".to_string())
    );
    assert_eq!(OutputFormat::default(), OutputFormat::Human);
    assert_eq!(OutputFormat::Human.as_str(), "human");
    assert_eq!(OutputFormat::Json.as_str(), "json");
}

#[test]
fn format_names_parse_back_to_their_format() {
    for f in [OutputFormat::Human, OutputFormat::Json] {
        assert_eq!(OutputFormat::parse(f.as_str()), Ok(f));
    }
}
