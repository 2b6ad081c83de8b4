use soroban_budget_assert::markdown::{
    escape_markdown_cell, format_markdown_table, MarkdownReportRow,
};

#[test]
fn formats_passing_and_failing_rows() {
    let rows = vec![
        MarkdownReportRow::new("token_contract", 1_234, 567, true),
        MarkdownReportRow::new("swap_test", 9_876, 1_024, false),
    ];

    assert_eq!(
        format_markdown_table(&rows),
        "| Contract/Test Name | CPU Cost | Memory Cost | Status |\n\
         | --- | ---: | ---: | --- |\n\
         | token_contract | 1234 | 567 | Pass |\n\
         | swap_test | 9876 | 1024 | Fail |"
    );
}

#[test]
fn formats_empty_reports_with_headers_only() {
    assert_eq!(
        format_markdown_table(&[]),
        "| Contract/Test Name | CPU Cost | Memory Cost | Status |\n\
         | --- | ---: | ---: | --- |"
    );
}

#[test]
fn escapes_markdown_cells() {
    let rows = [MarkdownReportRow::new("contract|with\nseparator", 10, 20, true)];

    assert_eq!(
        format_markdown_table(&rows),
        "| Contract/Test Name | CPU Cost | Memory Cost | Status |\n\
         | --- | ---: | ---: | --- |\n\
         | contract\\|with separator | 10 | 20 | Pass |"
    );
}

#[test]
fn escape_markdown_cell_handles_pipes_and_line_breaks() {
    assert_eq!(escape_markdown_cell("a|b"), "a\\|b");
    assert_eq!(escape_markdown_cell("a\r\nb"), "a  b");
    assert_eq!(escape_markdown_cell("plain"), "plain");
}
