use github::client::Client;
use github::issues::list_issues;
use github::issues::Issue;
use github::issues::Label;
use github::pulls::list_pull_requests;

fn issue(html_url: &str, labels: &[&str]) -> Issue {
    Issue {
        number: 42,
        url: "https://api.github.com/repos/rust-lang/rfcs/issues/42".to_string(),
        title: "A title".to_string(),
        html_url: html_url.to_string(),
        labels: labels.iter().map(|name| Label { name: name.to_string() }).collect(),
    }
}

#[test]
fn an_address_with_pull_is_a_pull_request() {
    assert!(issue("https://github.com/rust-lang/rfcs/pull/42", &[]).is_pr());
    assert!(issue(".../pull/42", &[]).is_pr());
    assert!(issue("/pull/", &[]).is_pr());
}

#[test]
fn an_address_without_pull_is_no_pull_request() {
    assert!(!issue("https://github.com/rust-lang/rfcs/issues/42", &[]).is_pr());
    assert!(!issue(".../issues/42", &[]).is_pr());
    assert!(!issue("", &[]).is_pr());
    assert!(!issue("https://github.com/rust-lang/pull", &[]).is_pr());
    assert!(!issue("https://github.com/rust-lang/pulls/42", &[]).is_pr());
    assert!(!issue("https://github.com/pull-requests/x", &[]).is_pr());
}

#[test]
fn has_label_looks_at_every_label() {
    let it = issue("h", &["T-libs", "P-high", "final-comment-period"]);
    assert!(it.has_label("T-libs"));
    assert!(it.has_label("P-high"));
    assert!(it.has_label("final-comment-period"));
    assert!(!it.has_label("T-lang"));
    assert!(!it.has_label("P-hig"));
    assert!(!it.has_label("p-high"));
    assert!(!it.has_label(""));
    assert!(!issue("h", &[]).has_label("T-libs"));
}

#[test]
fn client_needs_an_identity() {
    assert!(Client::new("").is_none());
    assert!(Client::with_base_url("http://localhost/", "").is_none());
    let client = Client::new("aturon").unwrap();
    assert_eq!(client.user_agent(), "aturon");
    assert_eq!(client.base_url(), "https://api.github.com/");
    let client = Client::with_base_url("http://localhost:8080/", "tester").unwrap();
    assert_eq!(client.user_agent(), "tester");
    assert_eq!(client.base_url(), "http://localhost:8080/");
}

#[test]
fn list_issues_asks_for_the_labels() {
    let client = Client::new("aturon").unwrap();
    let request = list_issues(&client, "rust-lang", "rfcs", "T-libs,P-high").request();
    assert_eq!(
        request.url,
        "https://api.github.com/repos/rust-lang/rfcs/issues?per_page=100&labels=T-libs%2CP-high"
    );
    assert!(request.url.contains("labels=T-libs%2CP-high"));
    assert!(!request.url.contains("%25"));
    assert_eq!(request.user_agent, "aturon");
    assert_eq!(request.auth_token, None);
}

#[test]
fn list_issues_with_one_label_and_with_none() {
    let client = Client::new("aturon").unwrap();
    assert_eq!(
        list_issues(&client, "rust-lang", "rust", "T-lang").request().url,
        "https://api.github.com/repos/rust-lang/rust/issues?per_page=100&labels=T-lang"
    );
    assert_eq!(
        list_issues(&client, "rust-lang", "rust", "").request().url,
        "https://api.github.com/repos/rust-lang/rust/issues?per_page=100&labels="
    );
}

#[test]
fn list_issues_encodes_what_would_break_the_address() {
    let client = Client::with_base_url("http://localhost/", "tester").unwrap();
    assert_eq!(
        list_issues(&client, "a/b", "c?d", "good first issue,x&y").request().url,
        "http://localhost/repos/a%2Fb/c%3Fd/issues?per_page=100&labels=good%20first%20issue%2Cx%26y"
    );
}

#[test]
fn list_pull_requests_asks_for_the_pulls() {
    let client = Client::new("aturon").unwrap();
    let request = list_pull_requests(&client, "rust-lang", "rfcs").request();
    assert_eq!(request.url, "https://api.github.com/repos/rust-lang/rfcs/pulls?per_page=100");
    assert_eq!(request.user_agent, "aturon");
    assert_eq!(request.auth_token, None);
}

#[test]
fn what_the_caller_supplies_stays_one_part_of_the_address() {
    let client = Client::with_base_url("http://localhost/", "tester").unwrap();
    let url = list_issues(&client, "../x", "r#frag", "a=b&page=9,é").request().url;
    let tail = url.strip_prefix("http://localhost/").unwrap();
    assert_eq!(tail, "repos/..%2Fx/r%23frag/issues?per_page=100&labels=a%3Db%26page%3D9%2C%C3%A9");
    assert_eq!(tail.matches('/').count(), 3);
    assert_eq!(tail.matches('?').count(), 1);
    assert_eq!(tail.matches('&').count(), 1);
    assert_eq!(tail.matches('=').count(), 2);
    assert!(tail.chars().all(|c| c.is_ascii_alphanumeric() || "-._~%/?=&".contains(c)));
}
