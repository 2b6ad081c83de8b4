use soroban_budget_assert::urls::{
    check_url_scheme_host, is_github_repo_url, is_stellar_docs_url, is_stellar_github_url,
    is_tollcraft_docs_url,
};

#[test]
fn github_repo_url_valid() {
    assert!(is_github_repo_url(
        "https://github.com/Tollcraft/soroban-budget-assert"
    ));
}

#[test]
fn github_repo_url_wrong_host() {
    assert!(!is_github_repo_url(
        "https://gitlab.com/Tollcraft/soroban-budget-assert"
    ));
}

#[test]
fn github_repo_url_missing_org() {
    assert!(!is_github_repo_url("https://github.com/other-org/repo"));
}

#[test]
fn stellar_docs_url_valid() {
    assert!(is_stellar_docs_url(
        "https://developers.stellar.org/docs/learn/fundamentals/fees"
    ));
}

#[test]
fn stellar_docs_url_wrong_domain() {
    assert!(!is_stellar_docs_url("https://stellar.org/docs"));
}

#[test]
fn stellar_docs_url_http_rejected() {
    assert!(!is_stellar_docs_url("http://developers.stellar.org/docs"));
}

#[test]
fn stellar_github_url_valid() {
    assert!(is_stellar_github_url(
        "https://github.com/stellar/stellar-cli"
    ));
}

#[test]
fn tollcraft_docs_url_valid() {
    assert!(is_tollcraft_docs_url(
        "https://tollcraft.gitbook.io/docs/budget-assert"
    ));
}

#[test]
fn tollcraft_docs_url_wrong_host() {
    assert!(!is_tollcraft_docs_url("https://other.gitbook.io/docs"));
}

#[test]
fn invalid_scheme_rejected() {
    assert!(!is_github_repo_url("ftp://github.com/Tollcraft/repo"));
}

#[test]
fn empty_string_rejected() {
    assert!(!is_github_repo_url(""));
    assert!(!is_stellar_docs_url(""));
}

#[test]
fn url_with_trailing_slash() {
    assert!(is_github_repo_url(
        "https://github.com/Tollcraft/soroban-budget-assert/"
    ));
}

#[test]
fn url_host_must_match_exactly_after_trimming() {
    assert!(check_url_scheme_host("  https://github.com/x  ", "https", "github.com"));
    assert!(check_url_scheme_host("https://github.com", "https", "github.com"));
    assert!(!check_url_scheme_host("https://github.com.evil/x", "https", "github.com"));
    assert!(!check_url_scheme_host("https:/github.com/x", "https", "github.com"));
    assert!(!check_url_scheme_host("http://github.com/x", "https", "github.com"));
}
