//! Pull requests as the tracker lists them, and the request that lists them.

use crate::client::Client;
use crate::error::Fault;
use crate::error::Field;
use crate::json::JsonModel;
use crate::json::JsonValue;
use crate::listing::fresh;
use crate::listing::lemma_repo_url_is_well_formed;
use crate::listing::lemma_request_is_well_formed;
use crate::listing::repo_address;
use crate::listing::repo_path;
use crate::listing::repo_url;
use crate::listing::request_url;
use crate::listing::Listing;
use crate::listing::ListingModel;
use crate::listing::PAGE_SIZE;
use crate::record::key_of;
use crate::record::lemma_lookup_skips_other_key;
use crate::record::lemma_object_view;
use crate::record::lookup;
use crate::record::read_text;
use crate::record::text_at;
use crate::record::Record;
use crate::text::is_address_text;
use vstd::prelude::*;

verus! {

/// A pull request of the tracker: where the API has it, and its title.
#[derive(Debug, Clone, PartialEq, Eq)]
pub struct Pull {
    /// Where the API has the pull request.
    pub url: String,
    pub title: String,
}

/// A pull request as a mathematical value.
pub struct PullModel {
    pub url: Seq<char>,
    pub title: Seq<char>,
}

impl View for Pull {
    type V = PullModel;

    open spec fn view(&self) -> PullModel {
        PullModel { url: self.url@, title: self.title@ }
    }
}

/// What the entries of an object are as a pull request. The fields are read
/// in the order url, title, and the first fault is the result.
pub open spec fn pull_from_fields(fields: Seq<(Seq<char>, JsonModel)>) -> Result<PullModel, Fault> {
    let url = text_at(
        fields,
        key_of(Field::Url),
        Fault::Missing(Field::Url),
        Fault::WrongType(Field::Url),
    );
    let title = text_at(
        fields,
        key_of(Field::Title),
        Fault::Missing(Field::Title),
        Fault::WrongType(Field::Title),
    );
    if url is Err {
        Err(url->Err_0)
    } else if title is Err {
        Err(title->Err_0)
    } else {
        Ok(PullModel { url: url->Ok_0, title: title->Ok_0 })
    }
}

impl Record for Pull {
    open spec fn from_json(v: JsonModel) -> Result<PullModel, Fault> {
        match v {
            JsonModel::Object(fields) => pull_from_fields(fields),
            _ => Err(Fault::NotAnObject),
        }
    }

    fn decode(v: &JsonValue) -> (r: Result<Pull, Fault>) {
        match v {
            JsonValue::Object(fields) => {
                proof {
                    lemma_object_view(*fields);
                }
                let url = match read_text(
                    fields,
                    "url",
                    Fault::Missing(Field::Url),
                    Fault::WrongType(Field::Url),
                ) {
                    Ok(s) => s,
                    Err(fault) => {
                        return Err(fault);
                    },
                };
                let title = match read_text(
                    fields,
                    "title",
                    Fault::Missing(Field::Title),
                    Fault::WrongType(Field::Title),
                ) {
                    Ok(s) => s,
                    Err(fault) => {
                        return Err(fault);
                    },
                };
                Ok(Pull { url, title })
            },
            _ => Err(Fault::NotAnObject),
        }
    }
}

/// The listing of the pull requests of a repository, before its first request.
pub fn list_pull_requests(client: &Client, user: &str, repo: &str) -> (r: Listing<Pull>)
    ensures
        r@ == fresh::<PullModel>(
            client.identity(),
            repo_url(client.base(), user@, repo@) + "/pulls"@,
            Seq::empty(),
            PAGE_SIZE as nat,
        ),
{
    let mut endpoint = repo_address(client, user, repo);
    endpoint.append("/pulls");
    Listing::begin(client, endpoint, String::new(), PAGE_SIZE)
}

/// Every request of a listing of pull requests goes to an address that starts
/// with the base of the client and holds, behind it, nothing but what may
/// stand in an address.
pub proof fn lemma_pull_requests_are_well_formed(
    s: ListingModel<PullModel>,
    base: Seq<char>,
    user: Seq<char>,
    repo: Seq<char>,
)
    requires
        s.endpoint == repo_url(base, user, repo) + "/pulls"@,
        s.filter.len() == 0,
    ensures
        request_url(s).take(base.len() as int) == base,
        is_address_text(request_url(s).skip(base.len() as int)),
{
    reveal_strlit("/pulls");
    lemma_repo_url_is_well_formed(base, user, repo);
    let path = repo_path(user, repo) + "/pulls"@;
    assert(s.endpoint =~= base + path);
    lemma_request_is_well_formed(s, base, path);
}

/// An entry other than `url` and `title` changes nothing about a pull
/// request: it decodes alike, or fails alike, with the entry and without it.
pub proof fn lemma_pull_ignores_unknown_field(
    fields: Seq<(Seq<char>, JsonModel)>,
    at: int,
    key: Seq<char>,
    value: JsonModel,
)
    requires
        0 <= at <= fields.len(),
        key != key_of(Field::Url),
        key != key_of(Field::Title),
    ensures
        Pull::from_json(JsonModel::Object(fields.insert(at, (key, value)))) == Pull::from_json(
            JsonModel::Object(fields),
        ),
{
    lemma_lookup_skips_other_key(fields, at, (key, value), key_of(Field::Url));
    lemma_lookup_skips_other_key(fields, at, (key, value), key_of(Field::Title));
}

/// An element that lacks `url` or `title` is no pull request.
pub proof fn lemma_pull_needs_every_field(fields: Seq<(Seq<char>, JsonModel)>, field: Field)
    requires
        field == Field::Url || field == Field::Title,
        lookup(fields, key_of(field)).is_none(),
    ensures
        Pull::from_json(JsonModel::Object(fields)) is Err,
{
}

} // verus!
