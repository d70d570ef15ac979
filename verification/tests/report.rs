use github::client::Client;
use github::issues::Issue;
use github::issues::Label;
use github::report::issue_list;
use github::report::newest_first;
use github::report::parse_teams;
use github::report::pick;
use github::report::push_entries;
use github::report::report_header;
use github::report::rfc_pr_listing;
use github::report::rfcs_section;
use github::report::unrecognized_team;
use github::report::Kind;
use github::report::LabelTest;
use github::report::Query;
use github::report::Section;
use github::team::Team;

fn issue(number: u64, pull: bool, labels: &[&str]) -> Issue {
    let what = if pull { "pull" } else { "issues" };
    Issue {
        number,
        url: format!("https://api/{}", number),
        title: format!("Title {}", number),
        html_url: format!("https://web/{}/{}", what, number),
        labels: labels.iter().map(|name| Label { name: name.to_string() }).collect(),
    }
}

fn sample() -> Vec<Issue> {
    vec![
        issue(1, true, &["T-libs"]),
        issue(2, false, &["T-libs", "P-high"]),
        issue(3, true, &["final-comment-period", "T-libs"]),
        issue(4, false, &["T-libs"]),
        issue(5, true, &["T-libs", "P-high"]),
        issue(6, false, &["P-high", "final-comment-period"]),
        issue(7, true, &["T-libs", "final-comment-period"]),
    ]
}

fn numbers(issues: &Vec<&Issue>) -> Vec<u64> {
    issues.iter().map(|i| i.number).collect()
}

#[test]
fn newest_first_turns_the_listing_round() {
    let issues = sample();
    assert_eq!(numbers(&newest_first(&issues)), vec![7, 6, 5, 4, 3, 2, 1]);
    assert_eq!(numbers(&newest_first(&vec![])), Vec::<u64>::new());
}

#[test]
fn pick_keeps_the_order() {
    let issues = sample();
    let all: Vec<&Issue> = issues.iter().collect();
    assert_eq!(numbers(&pick(&all, Kind::Pulls, LabelTest::With("final-comment-period"))), vec![3, 7]);
    assert_eq!(numbers(&pick(&all, Kind::Pulls, LabelTest::Without("final-comment-period"))), vec![1, 5]);
    assert_eq!(numbers(&pick(&all, Kind::Issues, LabelTest::With("P-high"))), vec![2, 6]);
    assert_eq!(numbers(&pick(&all, Kind::Issues, LabelTest::Without("P-high"))), vec![4]);
    assert_eq!(numbers(&pick(&all, Kind::Any, LabelTest::With("P-high"))), vec![2, 5, 6]);
    assert_eq!(numbers(&pick(&all, Kind::Any, LabelTest::Without("T-libs"))), vec![6]);
    assert_eq!(numbers(&pick(&all, Kind::Any, LabelTest::With("absent"))), Vec::<u64>::new());
}

#[test]
fn entries_are_written_one_after_another() {
    let issues = sample();
    let two: Vec<&Issue> = vec![&issues[1], &issues[0]];
    let mut out = String::from(">");
    push_entries(&mut out, "Thing", &two);
    assert_eq!(
        out,
        ">- [Thing #2](https://web/issues/2):\n  Title 2\n- [Thing #1](https://web/pull/1):\n  Title 1\n"
    );
    let mut out = String::from(">");
    push_entries(&mut out, "Thing", &vec![]);
    assert_eq!(out, ">");
}

#[test]
fn rfcs_section_of_a_listing() {
    assert_eq!(
        rfcs_section(&sample()),
        "### RFC phase\n\n\
         - [FCP PR #7](https://web/pull/7):\n  Title 7\n\
         - [FCP PR #3](https://web/pull/3):\n  Title 3\n\
         - [PR #5](https://web/pull/5):\n  Title 5\n\
         - [PR #1](https://web/pull/1):\n  Title 1\n\
         - [Issue #6](https://web/issues/6):\n  Title 6\n\
         - [Issue #2](https://web/issues/2):\n  Title 2\n"
    );
}

#[test]
fn rfcs_section_of_nothing() {
    assert_eq!(rfcs_section(&vec![]), "### RFC phase\n\n");
    assert_eq!(rfcs_section(&vec![issue(4, false, &["T-libs"])]), "### RFC phase\n\n");
}

#[test]
fn issue_list_without_pull_requests() {
    assert_eq!(
        issue_list(&sample(), "Issue", true),
        "- [FCP Issue #6](https://web/issues/6):\n  Title 6\n\
         - [Issue #4](https://web/issues/4):\n  Title 4\n\
         - [Issue #2](https://web/issues/2):\n  Title 2\n"
    );
}

#[test]
fn issue_list_with_pull_requests() {
    assert_eq!(
        issue_list(&sample(), "Cargo Issue", false),
        "- [FCP Cargo Issue #7](https://web/pull/7):\n  Title 7\n\
         - [FCP Cargo Issue #6](https://web/issues/6):\n  Title 6\n\
         - [FCP Cargo Issue #3](https://web/pull/3):\n  Title 3\n\
         - [Cargo Issue #5](https://web/pull/5):\n  Title 5\n\
         - [Cargo Issue #4](https://web/issues/4):\n  Title 4\n\
         - [Cargo Issue #2](https://web/issues/2):\n  Title 2\n\
         - [Cargo Issue #1](https://web/pull/1):\n  Title 1\n"
    );
    assert_eq!(issue_list(&vec![], "Issue", false), "");
}

#[test]
fn an_entry_names_large_numbers_in_full() {
    assert_eq!(
        issue_list(&vec![issue(u64::MAX, false, &[])], "Issue", true),
        "- [Issue #18446744073709551615](https://web/issues/18446744073709551615):\n  Title 18446744073709551615\n"
    );
}

#[test]
fn sections_come_in_the_order_of_the_dashboard() {
    assert_eq!(
        Section::all(),
        vec![Section::HighIssues, Section::NeedsDecision, Section::Rfcs, Section::ImplPhase, Section::StabPhase]
    );
}

fn query(repo: &str, labels: &str) -> Query {
    Query { repo: repo.to_string(), labels: labels.to_string() }
}

#[test]
fn queries_of_a_team() {
    assert_eq!(Section::HighIssues.queries(Team::Libs), vec![query("rust", "T-libs,P-high")]);
    assert_eq!(Section::NeedsDecision.queries(Team::Libs), vec![query("rust", "T-libs,I-needs-decision")]);
    assert_eq!(Section::Rfcs.queries(Team::Libs), vec![query("rfcs", "T-libs")]);
    assert_eq!(Section::ImplPhase.queries(Team::Lang), vec![query("rust", "T-lang,B-RFC-approved")]);
    assert_eq!(Section::StabPhase.queries(Team::Compiler), vec![query("rust", "T-compiler,B-unstable")]);
}

#[test]
fn queries_of_the_tools_team_look_at_cargo_too() {
    assert_eq!(
        Section::HighIssues.queries(Team::Tools),
        vec![query("rust", "T-tools,P-high"), query("Cargo", "P-high")]
    );
    assert_eq!(Section::NeedsDecision.queries(Team::Tools), vec![query("rust", "T-tools,I-needs-decision")]);
    assert_eq!(Section::Rfcs.queries(Team::Tools), vec![query("rfcs", "T-tools")]);
}

#[test]
fn a_query_lists_issues_of_rust_lang() {
    let client = Client::new("aturon").unwrap();
    assert_eq!(
        query("Cargo", "P-high").listing(&client).request().url,
        "https://api.github.com/repos/rust-lang/Cargo/issues?per_page=100&labels=P-high"
    );
    assert_eq!(
        Section::ImplPhase.queries(Team::Libs)[0].listing(&client).request().url,
        "https://api.github.com/repos/rust-lang/rust/issues?per_page=100&labels=T-libs%2CB-RFC-approved"
    );
}

#[test]
fn section_text_has_a_heading_and_a_blank_line() {
    let none: Vec<Vec<Issue>> = vec![vec![]];
    assert_eq!(Section::HighIssues.text(Team::Libs, &none).unwrap(), "### High priority issues\n\n\n");
    assert_eq!(Section::NeedsDecision.text(Team::Libs, &none).unwrap(), "### Issues needing a decision\n\n\n");
    assert_eq!(Section::Rfcs.text(Team::Libs, &none).unwrap(), "### RFC phase\n\n\n");
    assert_eq!(Section::ImplPhase.text(Team::Libs, &none).unwrap(), "### Implementation phase\n\n\n");
    assert_eq!(Section::StabPhase.text(Team::Libs, &none).unwrap(), "### Stabilization phase\n\n\n");
}

#[test]
fn section_text_lists_the_issues() {
    let listings = vec![sample()];
    assert_eq!(
        Section::ImplPhase.text(Team::Libs, &listings).unwrap(),
        format!("### Implementation phase\n\n{}\n", issue_list(&sample(), "Issue", true))
    );
    assert_eq!(
        Section::NeedsDecision.text(Team::Lang, &listings).unwrap(),
        format!("### Issues needing a decision\n\n{}\n", issue_list(&sample(), "Issue", false))
    );
    assert_eq!(Section::Rfcs.text(Team::Lang, &listings).unwrap(), format!("{}\n", rfcs_section(&sample())));
}

#[test]
fn section_text_of_the_tools_team_names_cargo() {
    let listings = vec![vec![issue(1, false, &[])], vec![issue(2, false, &["final-comment-period"])]];
    assert_eq!(
        Section::HighIssues.text(Team::Tools, &listings).unwrap(),
        "### High priority issues\n\n\
         - [Issue #1](https://web/issues/1):\n  Title 1\n\
         - [FCP Cargo Issue #2](https://web/issues/2):\n  Title 2\n\n"
    );
}

#[test]
fn section_text_wants_one_listing_for_each_query() {
    let one = vec![sample()];
    let two = vec![sample(), sample()];
    assert_eq!(Section::HighIssues.text(Team::Tools, &one), None);
    assert_eq!(Section::HighIssues.text(Team::Libs, &two), None);
    assert_eq!(Section::Rfcs.text(Team::Tools, &two), None);
    assert_eq!(Section::Rfcs.text(Team::Libs, &vec![]), None);
    assert!(Section::HighIssues.text(Team::Tools, &two).is_some());
    for section in Section::all() {
        for team in [Team::Tools, Team::Libs, Team::Compiler, Team::Lang] {
            let listings: Vec<Vec<Issue>> = section.queries(team).iter().map(|_| vec![]).collect();
            assert!(section.text(team, &listings).is_some());
        }
    }
}

#[test]
fn report_header_names_team_and_date() {
    assert_eq!(
        report_header(Team::Libs, "2015-07-01"),
        "# Subteam report: libs 2015-07-01\n\n## Highlights\n\n## Dashboard\n\n"
    );
    assert_eq!(
        report_header(Team::Compiler, ""),
        "# Subteam report: compiler \n\n## Highlights\n\n## Dashboard\n\n"
    );
}

#[test]
fn parse_teams_takes_every_name() {
    let names = vec!["libs".to_string(), "tools".to_string(), "libs".to_string()];
    assert_eq!(parse_teams(&names), Ok(vec![Team::Libs, Team::Tools, Team::Libs]));
    assert_eq!(parse_teams(&vec![]), Ok(vec![]));
}

#[test]
fn parse_teams_fails_with_the_first_unknown_name() {
    let names = vec!["libs".to_string(), "docs".to_string(), "lang".to_string(), "infra".to_string()];
    assert_eq!(parse_teams(&names), Err("docs".to_string()));
    assert_eq!(parse_teams(&vec!["T-libs".to_string()]), Err("T-libs".to_string()));
}

#[test]
fn unrecognized_team_message() {
    assert_eq!(unrecognized_team("docs"), "unrecognized team name `docs`");
    assert_eq!(unrecognized_team(""), "unrecognized team name ``");
}

#[test]
fn rfc_pr_listing_names_the_pull_requests_as_listed() {
    assert_eq!(
        rfc_pr_listing("T-libs", &sample()),
        "T-libs:\n\n\
         - [PR](https://api/1):\n  Title 1\n\
         - [PR](https://api/3):\n  Title 3\n\
         - [PR](https://api/5):\n  Title 5\n\
         - [PR](https://api/7):\n  Title 7\n\n"
    );
    assert_eq!(rfc_pr_listing("T-lang", &vec![]), "T-lang:\n\n\n");
    assert_eq!(rfc_pr_listing("", &vec![issue(2, false, &[])]), ":\n\n\n");
}
