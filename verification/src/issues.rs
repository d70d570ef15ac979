//! Issues as the tracker lists them, and the request that lists them.

use crate::client::Client;
use crate::error::Fault;
use crate::error::Field;
use crate::error::LabelFault;
use crate::json::JsonModel;
use crate::json::JsonValue;
use crate::listing::fresh;
use crate::listing::lemma_repo_url_is_well_formed;
use crate::listing::lemma_request_is_well_formed;
use crate::listing::repo_address;
use crate::listing::repo_path;
use crate::listing::repo_url;
use crate::listing::request_url;
use crate::listing::Listing;
use crate::listing::ListingModel;
use crate::listing::PAGE_SIZE;
use crate::record::collect;
use crate::record::entries;
use crate::record::find;
use crate::record::key_of;
use crate::record::lemma_array_view;
use crate::record::lemma_collect_failure_stays;
use crate::record::lemma_collect_pointwise;
use crate::record::lemma_lookup_skips_other_key;
use crate::record::lemma_object_view;
use crate::record::lemma_page_fails_with_element;
use crate::record::lemma_page_reads_records_only;
use crate::record::page_from;
use crate::record::lookup;
use crate::record::models;
use crate::record::number_at;
use crate::record::read_number;
use crate::record::read_text;
use crate::record::text_at;
use crate::record::views;
use crate::record::Record;
use crate::text::contains;
use crate::text::is_address_text;
use crate::text::lemma_percent_encoded_is_one_part;
use crate::text::occurs_in;
use crate::text::percent_encoded;
use crate::text::push_percent_encoded;
use vstd::prelude::*;
use vstd::utf8::encode_utf8;

verus! {

/// A label of the tracker. Of what the tracker tells about a label only the
/// name is kept.
#[derive(Debug, Clone, PartialEq, Eq)]
pub struct Label {
    pub name: String,
}

/// A label as a mathematical value.
pub struct LabelModel {
    pub name: Seq<char>,
}

impl View for Label {
    type V = LabelModel;

    open spec fn view(&self) -> LabelModel {
        LabelModel { name: self.name@ }
    }
}

/// An issue of the tracker, with the little of it that the reports need.
/// A pull request is listed as an issue too: see `is_pr`.
#[derive(Debug, Clone, PartialEq, Eq)]
pub struct Issue {
    pub number: u64,
    /// Where the API has the issue.
    pub url: String,
    pub title: String,
    /// Where a browser finds the issue.
    pub html_url: String,
    pub labels: Vec<Label>,
}

/// An issue as a mathematical value.
pub struct IssueModel {
    pub number: u64,
    pub url: Seq<char>,
    pub title: Seq<char>,
    pub html_url: Seq<char>,
    pub labels: Seq<LabelModel>,
}

impl View for Issue {
    type V = IssueModel;

    open spec fn view(&self) -> IssueModel {
        IssueModel {
            number: self.number,
            url: self.url@,
            title: self.title@,
            html_url: self.html_url@,
            labels: views(self.labels@),
        }
    }
}

/// Whether an issue is read out of the entry under `key`.
pub open spec fn is_issue_key(key: Seq<char>) -> bool {
    exists|field: Field| key == key_of(field)
}

/// What `v` is as a label.
pub open spec fn label_from(v: JsonModel) -> Result<LabelModel, LabelFault> {
    match v {
        JsonModel::Object(fields) => match text_at(
            fields,
            "name"@,
            LabelFault::MissingName,
            LabelFault::NameNotText,
        ) {
            Ok(name) => Ok(LabelModel { name }),
            Err(fault) => Err(fault),
        },
        _ => Err(LabelFault::NotAnObject),
    }
}

/// The decoding of one label, as a function.
pub open spec fn label_decoder() -> spec_fn(JsonModel) -> Result<LabelModel, LabelFault> {
    |v: JsonModel| label_from(v)
}

/// What `v` is as the labels of an issue.
pub open spec fn labels_from(v: JsonModel) -> Result<Seq<LabelModel>, Fault> {
    match v {
        JsonModel::Array(items) => match collect(items, label_decoder()) {
            Ok(labels) => Ok(labels),
            Err((at, fault)) => Err(Fault::Label { index: at as usize, fault }),
        },
        _ => Err(Fault::WrongType(Field::Labels)),
    }
}

/// What the entries of an object are as an issue. The fields are read in the
/// order number, url, title, html_url, labels, and the first fault is the result.
pub open spec fn issue_from_fields(fields: Seq<(Seq<char>, JsonModel)>) -> Result<
    IssueModel,
    Fault,
> {
    let number = number_at(
        fields,
        key_of(Field::Number),
        Fault::Missing(Field::Number),
        Fault::WrongType(Field::Number),
    );
    let url = text_at(
        fields,
        key_of(Field::Url),
        Fault::Missing(Field::Url),
        Fault::WrongType(Field::Url),
    );
    let title = text_at(
        fields,
        key_of(Field::Title),
        Fault::Missing(Field::Title),
        Fault::WrongType(Field::Title),
    );
    let html_url = text_at(
        fields,
        key_of(Field::HtmlUrl),
        Fault::Missing(Field::HtmlUrl),
        Fault::WrongType(Field::HtmlUrl),
    );
    let labels = match lookup(fields, key_of(Field::Labels)) {
        None => Err(Fault::Missing(Field::Labels)),
        Some(v) => labels_from(v),
    };
    if number is Err {
        Err(number->Err_0)
    } else if url is Err {
        Err(url->Err_0)
    } else if title is Err {
        Err(title->Err_0)
    } else if html_url is Err {
        Err(html_url->Err_0)
    } else if labels is Err {
        Err(labels->Err_0)
    } else {
        Ok(
            IssueModel {
                number: number->Ok_0,
                url: url->Ok_0,
                title: title->Ok_0,
                html_url: html_url->Ok_0,
                labels: labels->Ok_0,
            },
        )
    }
}

/// Whether `issue` carries a label of the given name.
pub open spec fn carries(issue: IssueModel, name: Seq<char>) -> bool {
    exists|i: int| 0 <= i < issue.labels.len() && (#[trigger] issue.labels[i]).name == name
}

impl Label {
    /// Decodes one label: an object with a string under `name`. Other entries
    /// are passed over.
    pub fn decode(v: &JsonValue) -> (r: Result<Label, LabelFault>)
        ensures
            match r {
                Ok(label) => label_from(v@) == Ok::<LabelModel, LabelFault>(label@),
                Err(fault) => label_from(v@) == Err::<LabelModel, LabelFault>(fault),
            },
    {
        match v {
            JsonValue::Object(fields) => {
                proof {
                    lemma_object_view(*fields);
                }
                match read_text(fields, "name", LabelFault::MissingName, LabelFault::NameNotText) {
                    Ok(name) => Ok(Label { name }),
                    Err(fault) => Err(fault),
                }
            },
            _ => Err(LabelFault::NotAnObject),
        }
    }

    /// Decodes the labels of an issue: an array of labels. One that is no
    /// label fails them all.
    pub fn decode_all(v: &JsonValue) -> (r: Result<Vec<Label>, Fault>)
        ensures
            match r {
                Ok(labels) => labels_from(v@) == Ok::<Seq<LabelModel>, Fault>(views(labels@)),
                Err(fault) => labels_from(v@) == Err::<Seq<LabelModel>, Fault>(fault),
            },
    {
        match v {
            JsonValue::Array(items) => {
                let ghost all = models(items@);
                proof {
                    lemma_array_view(*items);
                }
                let mut labels: Vec<Label> = Vec::new();
                let mut i: usize = 0;
                assert(all.take(0) =~= Seq::empty());
                assert(views(labels@) =~= Seq::empty());
                while i < items.len()
                    invariant
                        i <= items.len(),
                        all == models(items@),
                        v@ == JsonModel::Array(all),
                        collect(all.take(i as int), label_decoder()) == Ok::<
                            Seq<LabelModel>,
                            (int, LabelFault),
                        >(views(labels@)),
                    decreases items.len() - i,
                {
                    let ghost before = views(labels@);
                    proof {
                        assert(all.take(i + 1).drop_last() =~= all.take(i as int));
                        assert(all.take(i + 1).last() == items@[i as int]@);
                    }
                    match Label::decode(&items[i]) {
                        Ok(label) => {
                            labels.push(label);
                            assert(views(labels@) =~= before.push(label@));
                        },
                        Err(fault) => {
                            proof {
                                lemma_collect_failure_stays(all, label_decoder(), i + 1);
                            }
                            return Err(Fault::Label { index: i, fault });
                        },
                    }
                    i += 1;
                }
                assert(all.take(i as int) =~= all);
                Ok(labels)
            },
            _ => Err(Fault::WrongType(Field::Labels)),
        }
    }
}

impl Record for Issue {
    open spec fn from_json(v: JsonModel) -> Result<IssueModel, Fault> {
        match v {
            JsonModel::Object(fields) => issue_from_fields(fields),
            _ => Err(Fault::NotAnObject),
        }
    }

    fn decode(v: &JsonValue) -> (r: Result<Issue, Fault>) {
        match v {
            JsonValue::Object(fields) => {
                proof {
                    lemma_object_view(*fields);
                }
                let number = match read_number(
                    fields,
                    "number",
                    Fault::Missing(Field::Number),
                    Fault::WrongType(Field::Number),
                ) {
                    Ok(n) => n,
                    Err(fault) => {
                        return Err(fault);
                    },
                };
                let url = match read_text(
                    fields,
                    "url",
                    Fault::Missing(Field::Url),
                    Fault::WrongType(Field::Url),
                ) {
                    Ok(s) => s,
                    Err(fault) => {
                        return Err(fault);
                    },
                };
                let title = match read_text(
                    fields,
                    "title",
                    Fault::Missing(Field::Title),
                    Fault::WrongType(Field::Title),
                ) {
                    Ok(s) => s,
                    Err(fault) => {
                        return Err(fault);
                    },
                };
                let html_url = match read_text(
                    fields,
                    "html_url",
                    Fault::Missing(Field::HtmlUrl),
                    Fault::WrongType(Field::HtmlUrl),
                ) {
                    Ok(s) => s,
                    Err(fault) => {
                        return Err(fault);
                    },
                };
                let labels = match find(fields, "labels") {
                    None => {
                        return Err(Fault::Missing(Field::Labels));
                    },
                    Some(v) => match Label::decode_all(v) {
                        Ok(labels) => labels,
                        Err(fault) => {
                            return Err(fault);
                        },
                    },
                };
                Ok(Issue { number, url, title, html_url, labels })
            },
            _ => Err(Fault::NotAnObject),
        }
    }
}

impl Issue {
    /// Whether this issue is a pull request: the tracker lists both alike, and
    /// only the address in `html_url` tells them apart.
    pub fn is_pr(&self) -> (r: bool)
        ensures
            r == occurs_in(self@.html_url, "/pull/"@),
    {
        contains(self.html_url.as_str(), "/pull/")
    }

    /// Whether this issue carries a label of the given name.
    pub fn has_label(&self, name: &str) -> (r: bool)
        ensures
            r == carries(self@, name@),
    {
        let wanted = String::from_str(name);
        let mut i: usize = 0;
        while i < self.labels.len()
            invariant
                i <= self.labels.len(),
                wanted@ == name@,
                forall|j: int| 0 <= j < i ==> (#[trigger] self@.labels[j]).name != name@,
            decreases self.labels.len() - i,
        {
            if self.labels[i].name == wanted {
                assert(self@.labels[i as int].name == name@);
                return true;
            }
            i += 1;
        }
        false
    }
}

/// The part of the query that filters by label: the names, joined by commas,
/// percent-encoded as one value. The server lists the issues that carry them
/// all; an empty filter lists every issue.
pub open spec fn labels_filter(labels: Seq<char>) -> Seq<char> {
    "&labels="@ + percent_encoded(encode_utf8(labels))
}

/// The listing of the issues of a repository that carry all of `labels`,
/// before its first request. Pull requests are among them.
pub fn list_issues(client: &Client, user: &str, repo: &str, labels: &str) -> (r: Listing<Issue>)
    ensures
        r@ == fresh::<IssueModel>(
            client.identity(),
            repo_url(client.base(), user@, repo@) + "/issues"@,
            labels_filter(labels@),
            PAGE_SIZE as nat,
        ),
{
    let mut endpoint = repo_address(client, user, repo);
    endpoint.append("/issues");
    let mut filter = String::from_str("&labels=");
    push_percent_encoded(&mut filter, labels);
    Listing::begin(client, endpoint, filter, PAGE_SIZE)
}

/// Every request of a listing of issues goes to an address that starts with
/// the base of the client and holds, behind it, nothing but what may stand in
/// an address: the owner, the name and the labels are encoded, so that none of
/// them can end its part of the address or start another.
pub proof fn lemma_issue_requests_are_well_formed(
    s: ListingModel<IssueModel>,
    base: Seq<char>,
    user: Seq<char>,
    repo: Seq<char>,
    labels: Seq<char>,
)
    requires
        s.endpoint == repo_url(base, user, repo) + "/issues"@,
        s.filter == labels_filter(labels),
    ensures
        request_url(s).take(base.len() as int) == base,
        is_address_text(request_url(s).skip(base.len() as int)),
{
    reveal_strlit("/issues");
    reveal_strlit("&labels=");
    lemma_repo_url_is_well_formed(base, user, repo);
    lemma_percent_encoded_is_one_part(encode_utf8(labels));
    let path = repo_path(user, repo) + "/issues"@;
    assert(s.endpoint =~= base + path);
    lemma_request_is_well_formed(s, base, path);
}

/// An issue is read out of the entries under its five keys, and out of
/// nothing else: objects that hold the same number, addresses and title, and
/// labels that decode alike, are the same issue.
pub proof fn lemma_issue_reads_its_fields_only(
    a: Seq<(Seq<char>, JsonModel)>,
    b: Seq<(Seq<char>, JsonModel)>,
)
    requires
        forall|field: Field|
            field != Field::Labels ==> lookup(a, #[trigger] key_of(field)) == lookup(
                b,
                key_of(field),
            ),
        lookup(a, key_of(Field::Labels)).is_none() == lookup(b, key_of(Field::Labels)).is_none(),
        lookup(a, key_of(Field::Labels)) is Some ==> labels_from(
            lookup(a, key_of(Field::Labels))->Some_0,
        ) == labels_from(lookup(b, key_of(Field::Labels))->Some_0),
    ensures
        Issue::from_json(JsonModel::Object(a)) == Issue::from_json(JsonModel::Object(b)),
{
    assert(lookup(a, key_of(Field::Number)) == lookup(b, key_of(Field::Number)));
    assert(lookup(a, key_of(Field::Url)) == lookup(b, key_of(Field::Url)));
    assert(lookup(a, key_of(Field::Title)) == lookup(b, key_of(Field::Title)));
    assert(lookup(a, key_of(Field::HtmlUrl)) == lookup(b, key_of(Field::HtmlUrl)));
}

/// The labels of an issue are read out of what each of them decodes to:
/// entries that a label does not know change nothing about the issue.
pub proof fn lemma_labels_read_names_only(a: Seq<JsonModel>, b: Seq<JsonModel>)
    requires
        a.len() == b.len(),
        forall|i: int| 0 <= i < a.len() ==> label_from(#[trigger] a[i]) == label_from(b[i]),
    ensures
        labels_from(JsonModel::Array(a)) == labels_from(JsonModel::Array(b)),
{
    lemma_collect_pointwise(a, b, label_decoder());
}

/// An entry that no field of an issue is read from changes nothing: the
/// element decodes to the same issue, or fails with the same fault, with the
/// entry and without it, wherever among the entries it stands.
pub proof fn lemma_issue_ignores_unknown_field(
    fields: Seq<(Seq<char>, JsonModel)>,
    at: int,
    key: Seq<char>,
    value: JsonModel,
)
    requires
        0 <= at <= fields.len(),
        !is_issue_key(key),
    ensures
        Issue::from_json(JsonModel::Object(fields.insert(at, (key, value)))) == Issue::from_json(
            JsonModel::Object(fields),
        ),
{
    assert forall|field: Field|
        lookup(fields.insert(at, (key, value)), #[trigger] key_of(field)) == lookup(
            fields,
            key_of(field),
        ) by {
        assert(key != key_of(field));
        lemma_lookup_skips_other_key(fields, at, (key, value), key_of(field));
    }
}

/// An element that lacks one of the fields of an issue is no issue, whatever
/// else it holds.
pub proof fn lemma_issue_needs_every_field(fields: Seq<(Seq<char>, JsonModel)>, field: Field)
    requires
        lookup(fields, key_of(field)).is_none(),
    ensures
        Issue::from_json(JsonModel::Object(fields)) is Err,
{
}

/// A page decodes alike with and without an entry that no field of an issue
/// is read from, in whichever element the entry stands: to the same issues,
/// or to the same failure.
pub proof fn lemma_page_ignores_unknown_field(
    items: Seq<JsonModel>,
    element: int,
    fields: Seq<(Seq<char>, JsonModel)>,
    at: int,
    key: Seq<char>,
    value: JsonModel,
)
    requires
        0 <= element < items.len(),
        items[element] == JsonModel::Object(fields),
        0 <= at <= fields.len(),
        !is_issue_key(key),
    ensures
        page_from::<Issue>(
            JsonModel::Array(
                items.update(element, JsonModel::Object(fields.insert(at, (key, value)))),
            ),
        ) == page_from::<Issue>(JsonModel::Array(items)),
{
    lemma_issue_ignores_unknown_field(fields, at, key, value);
    lemma_page_reads_records_only::<Issue>(
        items.update(element, JsonModel::Object(fields.insert(at, (key, value)))),
        items,
    );
}

/// A page with an element that lacks one of the fields of an issue fails as
/// a whole: none of its issues is handed out.
pub proof fn lemma_page_needs_every_field(
    items: Seq<JsonModel>,
    element: int,
    fields: Seq<(Seq<char>, JsonModel)>,
    field: Field,
)
    requires
        0 <= element < items.len(),
        items[element] == JsonModel::Object(fields),
        lookup(fields, key_of(field)).is_none(),
    ensures
        page_from::<Issue>(JsonModel::Array(items)) is Err,
{
    lemma_issue_needs_every_field(fields, field);
    lemma_page_fails_with_element::<Issue>(items, element);
}

/// An entry other than `name` changes nothing about a label.
pub proof fn lemma_label_ignores_unknown_field(
    fields: Seq<(Seq<char>, JsonModel)>,
    at: int,
    key: Seq<char>,
    value: JsonModel,
)
    requires
        0 <= at <= fields.len(),
        key != "name"@,
    ensures
        label_from(JsonModel::Object(fields.insert(at, (key, value)))) == label_from(
            JsonModel::Object(fields),
        ),
{
    lemma_lookup_skips_other_key(fields, at, (key, value), "name"@);
}

} // verus!
