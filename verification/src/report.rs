//! The text of the subteam reports: which issues a section asks the tracker
//! for, which of them it names, and in what words.

use crate::client::Client;
use crate::issues::carries;
use crate::issues::labels_filter;
use crate::issues::list_issues;
use crate::issues::Issue;
use crate::issues::IssueModel;
use crate::listing::fresh;
use crate::listing::repo_url;
use crate::listing::Listing;
use crate::listing::PAGE_SIZE;
use crate::record::collect;
use crate::record::lemma_collect_failure_stays;
use crate::record::views;
use crate::team::dir_of;
use crate::team::label_of;
use crate::team::team_named;
use crate::team::Team;
use crate::text::decimal;
use crate::text::occurs_in;
use crate::text::push_decimal;
use vstd::prelude::*;

verus! {

/// Which of the listed issues a section looks at: the tracker lists pull
/// requests among the issues.
#[derive(Debug, Copy, Clone, PartialEq, Eq, Structural)]
pub enum Kind {
    Any,
    Pulls,
    Issues,
}

/// What a section asks of the labels of an issue.
#[derive(Debug, Copy, Clone)]
pub enum LabelTest<'a> {
    With(&'a str),
    Without(&'a str),
}

/// Whether `issue` is a pull request.
pub open spec fn is_pull(issue: IssueModel) -> bool {
    occurs_in(issue.html_url, "/pull/"@)
}

/// Whether `issue` is of the kind.
pub open spec fn of_kind(kind: Kind, issue: IssueModel) -> bool {
    match kind {
        Kind::Any => true,
        Kind::Pulls => is_pull(issue),
        Kind::Issues => !is_pull(issue),
    }
}

/// Whether the labels of `issue` pass the test.
pub open spec fn passes(test: LabelTest, issue: IssueModel) -> bool {
    match test {
        LabelTest::With(name) => carries(issue, name@),
        LabelTest::Without(name) => !carries(issue, name@),
    }
}

/// The issues of the kind whose labels pass the test, as a predicate.
pub open spec fn picker(kind: Kind, test: LabelTest) -> spec_fn(IssueModel) -> bool {
    |issue: IssueModel| of_kind(kind, issue) && passes(test, issue)
}

/// The entry of `issue` in a report: `what` says what it is.
pub open spec fn entry(what: Seq<char>, issue: IssueModel) -> Seq<char> {
    "- ["@ + what + " #"@ + decimal(issue.number as nat) + "]("@ + issue.html_url + "):\n  "@
        + issue.title + "\n"@
}

/// The entry of an issue, as a function of the issue.
pub open spec fn entry_of(what: Seq<char>) -> spec_fn(IssueModel) -> Seq<char> {
    |issue: IssueModel| entry(what, issue)
}

/// The entries of `issues`, one after another.
pub open spec fn entries_text(what: Seq<char>, issues: Seq<IssueModel>) -> Seq<char> {
    issues.map_values(entry_of(what)).flatten()
}

/// The RFC section of a report, from the issues of the RFC repository that
/// carry the team's label, as the server lists them. The last listed comes
/// first. Pull requests in their final comment period lead, the other pull
/// requests follow, and of the issues only those of high priority are named.
pub open spec fn rfcs_text(issues: Seq<IssueModel>) -> Seq<char> {
    let newest = issues.reverse();
    "### RFC phase\n\n"@ + entries_text(
        "FCP PR"@,
        newest.filter(picker(Kind::Pulls, LabelTest::With("final-comment-period"))),
    ) + entries_text(
        "PR"@,
        newest.filter(picker(Kind::Pulls, LabelTest::Without("final-comment-period"))),
    ) + entries_text("Issue"@, newest.filter(picker(Kind::Issues, LabelTest::With("P-high"))))
}

/// Which issues a list names: every one, or none that is a pull request.
pub open spec fn list_kind(issues_only: bool) -> Kind {
    if issues_only {
        Kind::Issues
    } else {
        Kind::Any
    }
}

/// A list of issues in a report, from the issues as the server lists them.
/// The last listed comes first; those in their final comment period lead and
/// are marked `FCP`.
pub open spec fn issue_list_text(issues: Seq<IssueModel>, desc: Seq<char>, issues_only: bool) -> Seq<
    char,
> {
    let newest = issues.reverse();
    entries_text(
        "FCP "@ + desc,
        newest.filter(picker(list_kind(issues_only), LabelTest::With("final-comment-period"))),
    ) + entries_text(
        desc,
        newest.filter(picker(list_kind(issues_only), LabelTest::Without("final-comment-period"))),
    )
}

/// The issues of a listing, the last listed first.
pub fn newest_first<'a>(issues: &'a Vec<Issue>) -> (r: Vec<&'a Issue>)
    ensures
        views(r@) == views(issues@).reverse(),
{
    let n = issues.len();
    let mut out: Vec<&'a Issue> = Vec::new();
    let mut i: usize = 0;
    while i < n
        invariant
            n == issues.len(),
            i <= n,
            out.len() == i,
            forall|j: int| 0 <= j < i ==> *(#[trigger] out@[j]) == issues@[n - 1 - j],
        decreases n - i,
    {
        out.push(&issues[n - 1 - i]);
        i += 1;
    }
    assert(views(out@) =~= views(issues@).reverse());
    out
}

/// Whether the issue is of the kind.
fn is_of_kind(kind: Kind, issue: &Issue) -> (r: bool)
    ensures
        r == of_kind(kind, issue@),
{
    match kind {
        Kind::Any => true,
        Kind::Pulls => issue.is_pr(),
        Kind::Issues => !issue.is_pr(),
    }
}

/// Whether the labels of the issue pass the test.
fn passes_test(test: LabelTest, issue: &Issue) -> (r: bool)
    ensures
        r == passes(test, issue@),
{
    match test {
        LabelTest::With(name) => issue.has_label(name),
        LabelTest::Without(name) => !issue.has_label(name),
    }
}

/// Those of `issues` that are of the kind and whose labels pass the test, in
/// their order.
pub fn pick<'a>(issues: &Vec<&'a Issue>, kind: Kind, test: LabelTest) -> (r: Vec<&'a Issue>)
    ensures
        views(r@) == views(issues@).filter(picker(kind, test)),
{
    let ghost all = views(issues@);
    let ghost keep = picker(kind, test);
    let mut out: Vec<&'a Issue> = Vec::new();
    let mut i: usize = 0;
    assert(all.take(0).filter(keep) =~= Seq::empty());
    assert(views(out@) =~= Seq::empty());
    while i < issues.len()
        invariant
            i <= issues.len(),
            all == views(issues@),
            keep == picker(kind, test),
            views(out@) == all.take(i as int).filter(keep),
        decreases issues.len() - i,
    {
        let issue = issues[i];
        let ghost before = views(out@);
        proof {
            assert(all.take(i + 1) =~= all.take(i as int).push(issue@));
            all.take(i as int).lemma_filter_push(issue@, keep);
        }
        if is_of_kind(kind, issue) && passes_test(test, issue) {
            out.push(issue);
            assert(views(out@) =~= before.push(issue@));
        }
        i += 1;
    }
    assert(all.take(i as int) =~= all);
    out
}

/// Appends the entry of `issue`.
fn push_entry(out: &mut String, what: &str, issue: &Issue)
    ensures
        final(out)@ == old(out)@ + entry(what@, issue@),
{
    out.append("- [");
    out.append(what);
    out.append(" #");
    push_decimal(out, issue.number as u128);
    out.append("](");
    out.append(issue.html_url.as_str());
    out.append("):\n  ");
    out.append(issue.title.as_str());
    out.append("\n");
    assert(out@ =~= old(out)@ + entry(what@, issue@));
}

/// Appends the entries of `issues`, in their order.
pub fn push_entries(out: &mut String, what: &str, issues: &Vec<&Issue>)
    ensures
        final(out)@ == old(out)@ + entries_text(what@, views(issues@)),
{
    let ghost all = views(issues@);
    let ghost line = entry_of(what@);
    let mut i: usize = 0;
    assert(all.take(0).map_values(line) =~= Seq::<Seq<char>>::empty());
    assert(out@ =~= old(out)@ + Seq::<Seq<char>>::empty().flatten());
    while i < issues.len()
        invariant
            i <= issues.len(),
            all == views(issues@),
            line == entry_of(what@),
            out@ == old(out)@ + all.take(i as int).map_values(line).flatten(),
        decreases issues.len() - i,
    {
        let ghost before = out@;
        push_entry(out, what, issues[i]);
        proof {
            let done = all.take(i as int).map_values(line);
            assert(all.take(i + 1).map_values(line) =~= done.push(entry(what@, issues@[i as int]@)));
            done.lemma_flatten_push(entry(what@, issues@[i as int]@));
            assert(out@ =~= old(out)@ + all.take(i + 1).map_values(line).flatten());
        }
        i += 1;
    }
    assert(all.take(i as int) =~= all);
}

/// Writes the RFC section of a report.
pub fn rfcs_section(issues: &Vec<Issue>) -> (r: String)
    ensures
        r@ == rfcs_text(views(issues@)),
{
    let newest = newest_first(issues);
    let fcps = pick(&newest, Kind::Pulls, LabelTest::With("final-comment-period"));
    let pulls = pick(&newest, Kind::Pulls, LabelTest::Without("final-comment-period"));
    let high = pick(&newest, Kind::Issues, LabelTest::With("P-high"));
    let mut out = String::from_str("### RFC phase\n\n");
    push_entries(&mut out, "FCP PR", &fcps);
    push_entries(&mut out, "PR", &pulls);
    push_entries(&mut out, "Issue", &high);
    out
}

/// Writes a list of issues of a report; `desc` says what an entry is.
pub fn issue_list(issues: &Vec<Issue>, desc: &str, issues_only: bool) -> (r: String)
    ensures
        r@ == issue_list_text(views(issues@), desc@, issues_only),
{
    let kind = if issues_only {
        Kind::Issues
    } else {
        Kind::Any
    };
    let newest = newest_first(issues);
    let fcps = pick(&newest, kind, LabelTest::With("final-comment-period"));
    let others = pick(&newest, kind, LabelTest::Without("final-comment-period"));
    let mut what = String::from_str("FCP ");
    what.append(desc);
    let mut out = String::new();
    push_entries(&mut out, what.as_str(), &fcps);
    push_entries(&mut out, desc, &others);
    assert(out@ =~= issue_list_text(views(issues@), desc@, issues_only));
    out
}

/// The sections of the dashboard of a report.
#[derive(Debug, Copy, Clone, PartialEq, Eq, Structural)]
pub enum Section {
    HighIssues,
    NeedsDecision,
    Rfcs,
    ImplPhase,
    StabPhase,
}

/// One listing that a section asks the tracker for: the issues of a
/// repository of `rust-lang` that carry all of `labels`.
#[derive(Debug, Clone, PartialEq, Eq)]
pub struct Query {
    pub repo: String,
    /// The names of the labels, joined by commas.
    pub labels: String,
}

/// A query as a mathematical value.
pub struct QueryModel {
    pub repo: Seq<char>,
    pub labels: Seq<char>,
}

impl View for Query {
    type V = QueryModel;

    open spec fn view(&self) -> QueryModel {
        QueryModel { repo: self.repo@, labels: self.labels@ }
    }
}

/// The sections of a dashboard, in their order.
pub open spec fn dashboard() -> Seq<Section> {
    seq![
        Section::HighIssues,
        Section::NeedsDecision,
        Section::Rfcs,
        Section::ImplPhase,
        Section::StabPhase,
    ]
}

/// The queries of a section for a team: the team's label and the label of
/// the section, in the main repository; for the RFCs the team's label alone,
/// in the RFC repository. The tools team has the issues of Cargo that are of
/// high priority besides.
pub open spec fn queries_of(section: Section, team: Team) -> Seq<QueryModel> {
    match section {
        Section::HighIssues => {
            let main = QueryModel { repo: "rust"@, labels: label_of(team) + ",P-high"@ };
            if team == Team::Tools {
                seq![main, QueryModel { repo: "Cargo"@, labels: "P-high"@ }]
            } else {
                seq![main]
            }
        },
        Section::NeedsDecision => seq![
            QueryModel { repo: "rust"@, labels: label_of(team) + ",I-needs-decision"@ },
        ],
        Section::Rfcs => seq![QueryModel { repo: "rfcs"@, labels: label_of(team) }],
        Section::ImplPhase => seq![
            QueryModel { repo: "rust"@, labels: label_of(team) + ",B-RFC-approved"@ },
        ],
        Section::StabPhase => seq![
            QueryModel { repo: "rust"@, labels: label_of(team) + ",B-unstable"@ },
        ],
    }
}

/// The text of a section, from the listings that answer its queries, in the
/// order of the queries: the heading, the lists, and an empty line.
pub open spec fn section_text(section: Section, team: Team, listings: Seq<Seq<IssueModel>>) -> Seq<
    char,
> {
    let body = match section {
        Section::HighIssues => "### High priority issues\n\n"@ + issue_list_text(
            listings[0],
            "Issue"@,
            true,
        ) + if team == Team::Tools {
            issue_list_text(listings[1], "Cargo Issue"@, true)
        } else {
            Seq::empty()
        },
        Section::NeedsDecision => "### Issues needing a decision\n\n"@ + issue_list_text(
            listings[0],
            "Issue"@,
            false,
        ),
        Section::Rfcs => rfcs_text(listings[0]),
        Section::ImplPhase => "### Implementation phase\n\n"@ + issue_list_text(
            listings[0],
            "Issue"@,
            true,
        ),
        Section::StabPhase => "### Stabilization phase\n\n"@ + issue_list_text(
            listings[0],
            "Issue"@,
            true,
        ),
    };
    body + "\n"@
}

/// The listings as mathematical values.
pub open spec fn listing_views(listings: Seq<Vec<Issue>>) -> Seq<Seq<IssueModel>> {
    Seq::new(listings.len(), |i: int| views(listings[i]@))
}

/// A query for the team's label and one more label, in the main repository.
fn team_query(team: Team, second: &str) -> (q: Query)
    ensures
        q@ == (QueryModel { repo: "rust"@, labels: label_of(team) + second@ }),
{
    let mut labels = String::from_str(team.label());
    labels.append(second);
    Query { repo: String::from_str("rust"), labels }
}

impl Section {
    /// The sections of a dashboard, in their order.
    pub fn all() -> (r: Vec<Section>)
        ensures
            r@ == dashboard(),
    {
        let mut out: Vec<Section> = Vec::new();
        out.push(Section::HighIssues);
        out.push(Section::NeedsDecision);
        out.push(Section::Rfcs);
        out.push(Section::ImplPhase);
        out.push(Section::StabPhase);
        assert(out@ =~= dashboard());
        out
    }

    /// The listings that this section needs for `team`.
    pub fn queries(self, team: Team) -> (r: Vec<Query>)
        ensures
            views(r@) == queries_of(self, team),
    {
        let mut out: Vec<Query> = Vec::new();
        match self {
            Section::HighIssues => {
                out.push(team_query(team, ",P-high"));
                match team {
                    Team::Tools => {
                        out.push(
                            Query {
                                repo: String::from_str("Cargo"),
                                labels: String::from_str("P-high"),
                            },
                        );
                    },
                    _ => {},
                }
            },
            Section::NeedsDecision => {
                out.push(team_query(team, ",I-needs-decision"));
            },
            Section::Rfcs => {
                out.push(
                    Query {
                        repo: String::from_str("rfcs"),
                        labels: String::from_str(team.label()),
                    },
                );
            },
            Section::ImplPhase => {
                out.push(team_query(team, ",B-RFC-approved"));
            },
            Section::StabPhase => {
                out.push(team_query(team, ",B-unstable"));
            },
        }
        assert(views(out@) =~= queries_of(self, team));
        out
    }

    /// Writes this section from the listings that answer its queries, in the
    /// order of the queries. `None` where there is not one listing for each query.
    pub fn text(self, team: Team, listings: &Vec<Vec<Issue>>) -> (r: Option<String>)
        ensures
            r is Some <==> listings@.len() == queries_of(self, team).len(),
            r matches Some(text) ==> text@ == section_text(self, team, listing_views(listings@)),
    {
        let tools = match team {
            Team::Tools => true,
            _ => false,
        };
        let cargo = match self {
            Section::HighIssues => tools,
            _ => false,
        };
        let wanted: usize = if cargo {
            2
        } else {
            1
        };
        if listings.len() != wanted {
            return None;
        }
        let mut out = match self {
            Section::HighIssues => String::from_str("### High priority issues\n\n"),
            Section::NeedsDecision => String::from_str("### Issues needing a decision\n\n"),
            Section::Rfcs => rfcs_section(&listings[0]),
            Section::ImplPhase => String::from_str("### Implementation phase\n\n"),
            Section::StabPhase => String::from_str("### Stabilization phase\n\n"),
        };
        match self {
            Section::Rfcs => {},
            Section::NeedsDecision => {
                let list = issue_list(&listings[0], "Issue", false);
                out.append(list.as_str());
            },
            _ => {
                let list = issue_list(&listings[0], "Issue", true);
                out.append(list.as_str());
            },
        }
        if cargo {
            let list = issue_list(&listings[1], "Cargo Issue", true);
            out.append(list.as_str());
        }
        out.append("\n");
        assert(out@ =~= section_text(self, team, listing_views(listings@)));
        Some(out)
    }
}

impl Query {
    /// The listing that answers this query, before its first request.
    pub fn listing(&self, client: &Client) -> (r: Listing<Issue>)
        ensures
            r@ == fresh::<IssueModel>(
                client.identity(),
                repo_url(client.base(), "rust-lang"@, self@.repo) + "/issues"@,
                labels_filter(self@.labels),
                PAGE_SIZE as nat,
            ),
    {
        list_issues(client, "rust-lang", self.repo.as_str(), self.labels.as_str())
    }
}

/// What a report starts with: its title, and the headings under which the
/// highlights are written by hand and the dashboard follows.
pub open spec fn header_text(team: Team, date: Seq<char>) -> Seq<char> {
    "# Subteam report: "@ + dir_of(team) + " "@ + date + "\n\n## Highlights\n\n## Dashboard\n\n"@
}

/// Writes the head of the report of `team` for `date`.
pub fn report_header(team: Team, date: &str) -> (r: String)
    ensures
        r@ == header_text(team, date@),
{
    let mut out = String::from_str("# Subteam report: ");
    out.append(team.dir());
    out.append(" ");
    out.append(date);
    out.append("\n\n## Highlights\n\n## Dashboard\n\n");
    out
}

/// The team of a name, or the name.
pub open spec fn team_or_name(name: Seq<char>) -> Result<Team, Seq<char>> {
    match team_named(name) {
        Some(team) => Ok(team),
        None => Err(name),
    }
}

/// The teams of the names, in their order; or the first name that is no team's.
pub open spec fn teams_named(names: Seq<Seq<char>>) -> Result<Seq<Team>, Seq<char>> {
    match collect(names, |name: Seq<char>| team_or_name(name)) {
        Ok(teams) => Ok(teams),
        Err((_, name)) => Err(name),
    }
}

/// The texts of `names`.
pub open spec fn texts(names: Seq<String>) -> Seq<Seq<char>> {
    Seq::new(names.len(), |i: int| names[i]@)
}

/// Looks up the team of each name. The first name that is no team's fails
/// them all, and comes back as the error.
pub fn parse_teams(names: &Vec<String>) -> (r: Result<Vec<Team>, String>)
    ensures
        match r {
            Ok(teams) => teams_named(texts(names@)) == Ok::<Seq<Team>, Seq<char>>(teams@),
            Err(name) => teams_named(texts(names@)) == Err::<Seq<Team>, Seq<char>>(name@),
        },
{
    let ghost all = texts(names@);
    let ghost one = |name: Seq<char>| team_or_name(name);
    let mut teams: Vec<Team> = Vec::new();
    let mut i: usize = 0;
    assert(all.take(0) =~= Seq::empty());
    while i < names.len()
        invariant
            i <= names.len(),
            all == texts(names@),
            one == |name: Seq<char>| team_or_name(name),
            collect(all.take(i as int), one) == Ok::<Seq<Team>, (int, Seq<char>)>(teams@),
        decreases names.len() - i,
    {
        proof {
            assert(all.take(i + 1).drop_last() =~= all.take(i as int));
            assert(all.take(i + 1).last() == names@[i as int]@);
        }
        match Team::with_name(names[i].as_str()) {
            Ok(team) => {
                teams.push(team);
            },
            Err(bad) => {
                proof {
                    lemma_collect_failure_stays(all, one, i + 1);
                }
                return Err(String::from_str(bad));
            },
        }
        i += 1;
    }
    assert(all.take(i as int) =~= all);
    Ok(teams)
}

/// What is said of a name that is no team's.
pub fn unrecognized_team(name: &str) -> (r: String)
    ensures
        r@ == "unrecognized team name `"@ + name@ + "`"@,
{
    let mut out = String::from_str("unrecognized team name `");
    out.append(name);
    out.append("`");
    out
}

/// The line of a pull request in a plain list of the pull requests of a label.
pub open spec fn pull_line(issue: IssueModel) -> Seq<char> {
    "- [PR]("@ + issue.url + "):\n  "@ + issue.title + "\n"@
}

/// A plain list of the pull requests among `issues`, in the order of the
/// server, under the label they were listed for.
pub open spec fn pull_list_text(label: Seq<char>, issues: Seq<IssueModel>) -> Seq<char> {
    label + ":\n\n"@ + issues.filter(|issue: IssueModel| is_pull(issue)).map_values(
        |issue: IssueModel| pull_line(issue),
    ).flatten() + "\n"@
}

/// Writes the plain list of the pull requests among `issues`.
pub fn rfc_pr_listing(label: &str, issues: &Vec<Issue>) -> (r: String)
    ensures
        r@ == pull_list_text(label@, views(issues@)),
{
    let ghost all = views(issues@);
    let ghost keep = |issue: IssueModel| is_pull(issue);
    let ghost line = |issue: IssueModel| pull_line(issue);
    let mut out = String::from_str(label);
    out.append(":\n\n");
    let ghost head = out@;
    let mut i: usize = 0;
    assert(all.take(0).filter(keep).map_values(line) =~= Seq::<Seq<char>>::empty());
    assert(out@ =~= head + Seq::<Seq<char>>::empty().flatten());
    while i < issues.len()
        invariant
            i <= issues.len(),
            all == views(issues@),
            keep == |issue: IssueModel| is_pull(issue),
            line == |issue: IssueModel| pull_line(issue),
            head == label@ + ":\n\n"@,
            out@ == head + all.take(i as int).filter(keep).map_values(line).flatten(),
        decreases issues.len() - i,
    {
        let issue = &issues[i];
        let ghost before = out@;
        proof {
            assert(all.take(i + 1) =~= all.take(i as int).push(issue@));
            all.take(i as int).lemma_filter_push(issue@, keep);
        }
        if issue.is_pr() {
            out.append("- [PR](");
            out.append(issue.url.as_str());
            out.append("):\n  ");
            out.append(issue.title.as_str());
            out.append("\n");
            proof {
                let done = all.take(i as int).filter(keep).map_values(line);
                assert(all.take(i + 1).filter(keep).map_values(line) =~= done.push(
                    pull_line(issue@),
                ));
                done.lemma_flatten_push(pull_line(issue@));
                assert(out@ =~= head + all.take(i + 1).filter(keep).map_values(line).flatten());
            }
        }
        i += 1;
    }
    assert(all.take(i as int) =~= all);
    out.append("\n");
    out
}

} // verus!
