//! Listings that come in pages: which request to make next, and what each
//! answer does to the listing. The requests themselves are made elsewhere.

use crate::client::Client;
use crate::error::classify;
use crate::error::transport_kind;
use crate::error::ClientError;
use crate::error::ClientErrorModel;
use crate::error::DecodeError;
use crate::error::ErrorKind;
use crate::error::TransportError;
use crate::record::body_page;
use crate::record::decode_body;
use crate::record::views;
use crate::record::Record;
use crate::text::decimal;
use crate::text::is_address_text;
use crate::text::lemma_decimal_is_address_text;
use crate::text::lemma_percent_encoded_is_one_part;
use crate::text::percent_encoded;
use crate::text::push_decimal;
use crate::text::push_percent_encoded;
use vstd::prelude::*;
use vstd::utf8::encode_utf8;

verus! {

/// How many records the tracker is asked for with each page.
pub const PAGE_SIZE: usize = 100;

/// One request for the transport to make: a GET of `url`, with `user_agent`
/// as the user agent and, where there is one, the token as the credential.
#[derive(Debug, Clone, PartialEq, Eq)]
pub struct Request {
    pub url: String,
    pub user_agent: String,
    pub auth_token: Option<String>,
}

/// What the transport hands back: the body of a response with a status in
/// 200..=299, or the failure.
pub type Outcome = Result<Vec<u8>, TransportError>;

/// A listing under way, as a mathematical value.
pub struct ListingModel<M> {
    /// The identity that the requests carry.
    pub user_agent: Seq<char>,
    /// The address of the collection, without a query.
    pub endpoint: Seq<char>,
    /// What the query holds besides the page size and the page number.
    pub filter: Seq<char>,
    /// How many records a page is asked to hold.
    pub page_size: nat,
    /// How many pages have been taken in.
    pub pages: nat,
    /// The records of those pages, in the order in which they came.
    pub items: Seq<M>,
    /// The body of the last of those pages.
    pub last_body: Seq<u8>,
}

/// The listing before its first request.
pub open spec fn fresh<M>(
    user_agent: Seq<char>,
    endpoint: Seq<char>,
    filter: Seq<char>,
    page_size: nat,
) -> ListingModel<M> {
    ListingModel {
        user_agent,
        endpoint,
        filter,
        page_size,
        pages: 0,
        items: Seq::empty(),
        last_body: Seq::empty(),
    }
}

/// The address of the next request. The first page is asked for without a
/// page number, each later one with its number, counted from 1.
pub open spec fn request_url<M>(s: ListingModel<M>) -> Seq<char> {
    s.endpoint + "?per_page="@ + decimal(s.page_size) + s.filter + if s.pages == 0 {
        Seq::empty()
    } else {
        "&page="@ + decimal(s.pages + 1)
    }
}

/// The failure of the next request of `s`, of the given kind.
pub open spec fn failure<M>(s: ListingModel<M>, kind: ErrorKind) -> ClientErrorModel {
    ClientErrorModel { kind, url: request_url(s), page: s.pages }
}

/// Whether `body` is the body of the page before, come again.
pub open spec fn is_repeat<M>(s: ListingModel<M>, body: Seq<u8>) -> bool {
    s.pages > 0 && body == s.last_body
}

/// Whether a page of `len` records asks for a page after it: it is full, and
/// not empty.
pub open spec fn asks_for_more(len: nat, page_size: nat) -> bool {
    len == page_size && len > 0
}

/// What an answer makes of a listing, as a mathematical value.
pub enum StepModel<M> {
    /// The page was full: the listing goes on with the next request.
    More(ListingModel<M>),
    /// The listing is complete.
    Done(Seq<M>),
    /// The listing failed, and nothing of it is handed out.
    Failed(ClientErrorModel),
}

/// An outcome as a mathematical value.
pub open spec fn outcome_view(outcome: Outcome) -> Result<Seq<u8>, TransportError> {
    match outcome {
        Ok(body) => Ok(body@),
        Err(e) => Err(e),
    }
}

/// What the answer to the next request of `s` makes of the listing.
///
/// A failure of the transport, or a body that is no page of records, fails
/// the listing. A body that is the one before, come again, ends the listing
/// with what it held. Else the records of the page are added; a page that is
/// full and not empty asks for the next, any other page ends the listing.
pub open spec fn step<T: Record>(
    s: ListingModel<T::V>,
    outcome: Result<Seq<u8>, TransportError>,
) -> StepModel<T::V> {
    match outcome {
        Err(e) => StepModel::Failed(failure(s, transport_kind(e))),
        Ok(body) => if is_repeat(s, body) {
            StepModel::Done(s.items)
        } else {
            match body_page::<T>(body) {
                Err(e) => StepModel::Failed(failure(s, ErrorKind::Decode(e))),
                Ok(page) => if asks_for_more(page.len(), s.page_size) {
                    StepModel::More(
                        ListingModel {
                            pages: s.pages + 1,
                            items: s.items + page,
                            last_body: body,
                            ..s
                        },
                    )
                } else {
                    StepModel::Done(s.items + page)
                },
            }
        },
    }
}

/// A listing under way: the pages taken in so far, and what the next request
/// needs. It is its own continuation: it knows which page comes next.
#[derive(Debug)]
pub struct Listing<T: Record> {
    user_agent: String,
    endpoint: String,
    filter: String,
    page_size: usize,
    pages: usize,
    items: Vec<T>,
    last_body: Vec<u8>,
}

/// What an answer makes of a listing.
#[derive(Debug)]
pub enum Step<T: Record> {
    /// The page was full: make the request of this listing next.
    More(Listing<T>),
    /// The listing is complete: all its records, in the order of the server.
    Done(Vec<T>),
    /// The listing failed.
    Failed(ClientError),
}

impl<T: Record> View for Listing<T> {
    type V = ListingModel<T::V>;

    closed spec fn view(&self) -> ListingModel<T::V> {
        ListingModel {
            user_agent: self.user_agent@,
            endpoint: self.endpoint@,
            filter: self.filter@,
            page_size: self.page_size as nat,
            pages: self.pages as nat,
            items: views(self.items@),
            last_body: self.last_body@,
        }
    }
}

impl<T: Record> View for Step<T> {
    type V = StepModel<T::V>;

    open spec fn view(&self) -> StepModel<T::V> {
        match self {
            Step::More(next) => StepModel::More(next@),
            Step::Done(items) => StepModel::Done(views(items@)),
            Step::Failed(e) => StepModel::Failed(e@),
        }
    }
}

/// Whether two runs of bytes are the same.
fn same_bytes(a: &Vec<u8>, b: &Vec<u8>) -> (r: bool)
    ensures
        r == (a@ == b@),
{
    if a.len() != b.len() {
        return false;
    }
    let mut i: usize = 0;
    while i < a.len()
        invariant
            i <= a.len(),
            a.len() == b.len(),
            forall|j: int| 0 <= j < i ==> a@[j] == b@[j],
        decreases a.len() - i,
    {
        if a[i] != b[i] {
            return false;
        }
        i += 1;
    }
    assert(a@ =~= b@);
    true
}

impl<T: Record> Listing<T> {
    #[verifier::type_invariant]
    spec fn sound(&self) -> bool {
        &&& self.user_agent@.len() > 0
        &&& self.pages <= self.items@.len()
    }

    /// A listing of the collection at `endpoint`, before its first request.
    /// `filter` is what the query holds behind the page size: empty, or
    /// parameters that each start with `&`.
    pub fn begin(client: &Client, endpoint: String, filter: String, page_size: usize) -> (r: Self)
        ensures
            r@ == fresh::<T::V>(client.identity(), endpoint@, filter@, page_size as nat),
    {
        let items: Vec<T> = Vec::new();
        assert(views(items@) =~= Seq::empty());
        Listing {
            user_agent: String::from_str(client.user_agent()),
            endpoint,
            filter,
            page_size,
            pages: 0,
            items,
            last_body: Vec::new(),
        }
    }

    /// The request to make next. It carries the identity of the client, which
    /// is not empty, and no credential.
    pub fn request(&self) -> (r: Request)
        ensures
            r.url@ == request_url(self@),
            r.user_agent@ == self@.user_agent,
            r.user_agent@.len() > 0,
            r.auth_token.is_none(),
    {
        proof {
            use_type_invariant(self);
        }
        Request { url: self.url(), user_agent: self.user_agent.clone(), auth_token: None }
    }

    fn url(&self) -> (r: String)
        ensures
            r@ == request_url(self@),
    {
        let mut url = self.endpoint.clone();
        url.append("?per_page=");
        push_decimal(&mut url, self.page_size as u128);
        url.append(self.filter.as_str());
        if self.pages > 0 {
            let ghost before = url@;
            url.append("&page=");
            push_decimal(&mut url, self.pages as u128 + 1);
            assert(url@ =~= before + ("&page="@ + decimal((self.pages + 1) as nat)));
        } else {
            assert(url@ =~= url@ + Seq::<char>::empty());
        }
        url
    }

    fn fail(&self, kind: ErrorKind) -> (e: ClientError)
        ensures
            e@ == failure(self@, kind),
    {
        ClientError { kind, url: self.url(), page: self.pages }
    }

    /// Takes in the answer to the request of this listing.
    pub fn advance(self, outcome: Outcome) -> (r: Step<T>)
        ensures
            r@ == step::<T>(self@, outcome_view(outcome)),
    {
        proof {
            use_type_invariant(&self);
        }
        match outcome {
            Err(e) => Step::Failed(self.fail(classify(&e))),
            Ok(body) => {
                if self.pages > 0 && same_bytes(&body, &self.last_body) {
                    return Step::Done(self.items);
                }
                match decode_body::<T>(body.as_slice()) {
                    Err(e) => Step::Failed(self.fail(ErrorKind::Decode(e))),
                    Ok(page) => {
                        let ghost before = self@;
                        let ghost added = views(page@);
                        let full = page.len() == self.page_size && page.len() > 0;
                        let Listing { user_agent, endpoint, filter, page_size, pages, items, .. } =
                            self;
                        let mut items = items;
                        let mut page = page;
                        items.append(&mut page);
                        assert(views(items@) =~= before.items + added);
                        if full {
                            assert(pages < items.len());
                            Step::More(
                                Listing {
                                    user_agent,
                                    endpoint,
                                    filter,
                                    page_size,
                                    pages: pages + 1,
                                    items,
                                    last_body: body,
                                },
                            )
                        } else {
                            Step::Done(items)
                        }
                    },
                }
            },
        }
    }
}

/// What a run of answers, taken in one after another, makes of a listing.
/// Answers behind the one that ends the listing are not asked for; a run that
/// is used up before the listing ends leaves it under way.
pub open spec fn run<T: Record>(
    s: ListingModel<T::V>,
    answers: Seq<Result<Seq<u8>, TransportError>>,
) -> StepModel<T::V>
    decreases answers.len(),
{
    if answers.len() == 0 {
        StepModel::More(s)
    } else {
        match step::<T>(s, answers[0]) {
            StepModel::More(next) => run::<T>(next, answers.drop_first()),
            end => end,
        }
    }
}

/// How many requests the listing makes while it takes in `answers`.
pub open spec fn requests<T: Record>(
    s: ListingModel<T::V>,
    answers: Seq<Result<Seq<u8>, TransportError>>,
) -> nat
    decreases answers.len(),
{
    if answers.len() == 0 {
        0
    } else {
        match step::<T>(s, answers[0]) {
            StepModel::More(next) => 1 + requests::<T>(next, answers.drop_first()),
            _ => 1,
        }
    }
}

/// The bodies of successful responses, as answers.
pub open spec fn successes(bodies: Seq<Seq<u8>>) -> Seq<Result<Seq<u8>, TransportError>> {
    Seq::new(bodies.len(), |k: int| Ok(bodies[k]))
}

/// Page `k`, counted from 0, of a collection that is handed out `page_size`
/// records at a time.
pub open spec fn chunk<M>(items: Seq<M>, page_size: nat, k: int) -> Seq<M> {
    let from = if k * page_size <= items.len() {
        k * page_size
    } else {
        items.len() as int
    };
    let to = if from + page_size <= items.len() {
        from + page_size
    } else {
        items.len() as int
    };
    items.subrange(from, to)
}

/// A page with fewer records than were asked for ends the listing, whatever
/// came before it.
pub proof fn lemma_short_page_ends<T: Record>(s: ListingModel<T::V>, body: Seq<u8>)
    requires
        body_page::<T>(body) is Ok,
        body_page::<T>(body)->Ok_0.len() < s.page_size,
    ensures
        step::<T>(s, Ok(body)) is Done,
        !is_repeat(s, body) ==> step::<T>(s, Ok(body)) == StepModel::<T::V>::Done(
            s.items + body_page::<T>(body)->Ok_0,
        ),
{
}

/// An empty page ends the listing, whatever the page size.
pub proof fn lemma_empty_page_ends<T: Record>(s: ListingModel<T::V>, body: Seq<u8>)
    requires
        body_page::<T>(body) is Ok,
        body_page::<T>(body)->Ok_0.len() == 0,
    ensures
        step::<T>(s, Ok(body)) == StepModel::<T::V>::Done(s.items),
{
    assert(s.items + body_page::<T>(body)->Ok_0 =~= s.items);
}

/// A full page that is not the page before, come again, asks for the next
/// page: its records are added and the listing goes on.
pub proof fn lemma_full_page_goes_on<T: Record>(s: ListingModel<T::V>, body: Seq<u8>)
    requires
        s.page_size >= 1,
        body_page::<T>(body) is Ok,
        body_page::<T>(body)->Ok_0.len() == s.page_size,
        !is_repeat(s, body),
    ensures
        step::<T>(s, Ok(body)) matches StepModel::More(next) && next.items == s.items
            + body_page::<T>(body)->Ok_0 && next.pages == s.pages + 1,
{
}

/// A failure on any request fails the listing: no record of the pages before
/// it is handed out.
pub proof fn lemma_failure_hands_out_nothing<T: Record>(
    s: ListingModel<T::V>,
    outcome: Result<Seq<u8>, TransportError>,
)
    requires
        outcome is Err || (!is_repeat(s, outcome->Ok_0) && body_page::<T>(outcome->Ok_0) is Err),
    ensures
        step::<T>(s, outcome) is Failed,
{
}

/// While full pages come, none of them the page before come again, the
/// listing goes on: it asks for every one of them and holds their records in
/// the order in which they came.
pub proof fn lemma_full_pages_go_on<T: Record>(s: ListingModel<T::V>, bodies: Seq<Seq<u8>>)
    requires
        s.page_size >= 1,
        forall|k: int|
            0 <= k < bodies.len() ==> body_page::<T>(#[trigger] bodies[k]) is Ok && body_page::<T>(
                bodies[k],
            )->Ok_0.len() == s.page_size,
        bodies.len() > 0 ==> !is_repeat(s, bodies[0]),
        forall|k: int| 0 < k < bodies.len() ==> #[trigger] bodies[k] != bodies[k - 1],
    ensures
        run::<T>(s, successes(bodies)) is More,
        run::<T>(s, successes(bodies))->More_0.pages == s.pages + bodies.len(),
        run::<T>(s, successes(bodies))->More_0.items.len() == s.items.len() + bodies.len()
            * s.page_size,
        requests::<T>(s, successes(bodies)) == bodies.len(),
    decreases bodies.len(),
{
    if bodies.len() > 0 {
        let next = step::<T>(s, Ok(bodies[0]))->More_0;
        let rest = bodies.drop_first();
        assert(successes(bodies).drop_first() =~= successes(rest));
        assert forall|k: int| 0 <= k < rest.len() implies body_page::<T>(#[trigger] rest[k]) is Ok
            && body_page::<T>(rest[k])->Ok_0.len() == next.page_size by {
            assert(rest[k] == bodies[k + 1]);
        }
        if rest.len() > 0 {
            assert(rest[0] == bodies[1]);
            assert(bodies[1] != bodies[0]);
        }
        assert forall|k: int| 0 < k < rest.len() implies #[trigger] rest[k] != rest[k - 1] by {
            assert(rest[k] == bodies[k + 1]);
            assert(rest[k - 1] == bodies[k]);
            assert(bodies[k + 1] != bodies[k + 1 - 1]);
        }
        lemma_full_pages_go_on::<T>(next, rest);
        assert((1 + rest.len()) * s.page_size == s.page_size + rest.len() * s.page_size)
            by (nonlinear_arith);
    }
}

/// A server that hands a collection out page by page, no body the one before
/// come again, is listed completely: the listing asks for one page more than
/// the collection has full pages, and ends with every record, each once, in
/// the order of the server. Where the page size does not divide the number of
/// records, that is the number of records over the page size, rounded up.
pub proof fn lemma_listing_is_complete<T: Record>(
    s: ListingModel<T::V>,
    items: Seq<T::V>,
    bodies: Seq<Seq<u8>>,
)
    requires
        s.pages == 0,
        s.items.len() == 0,
        s.page_size >= 1,
        bodies.len() == items.len() / s.page_size + 1,
        forall|k: int|
            0 <= k < bodies.len() ==> body_page::<T>(#[trigger] bodies[k]) == Ok::<
                Seq<T::V>,
                DecodeError,
            >(chunk(items, s.page_size, k)),
        forall|k: int| 0 < k < bodies.len() ==> #[trigger] bodies[k] != bodies[k - 1],
    ensures
        run::<T>(s, successes(bodies)) == StepModel::<T::V>::Done(items),
        requests::<T>(s, successes(bodies)) == items.len() / s.page_size + 1,
        items.len() % s.page_size != 0 ==> requests::<T>(s, successes(bodies)) == (items.len()
            + s.page_size - 1) / (s.page_size as int),
{
    let p = s.page_size as int;
    let n = items.len() as int;
    let full = n / p;
    assert(n == p * full + n % p && 0 <= n % p < p) by (nonlinear_arith)
        requires
            p >= 1,
            n >= 0,
            full == n / p,
    ;
    assert(s.items =~= items.take(0));
    assert(bodies.skip(0) =~= bodies);
    lemma_rest_of_listing::<T>(s, items, bodies, 0);
    if n % p != 0 {
        assert((n + p - 1) / p == full + 1) by (nonlinear_arith)
            requires
                p >= 1,
                n == p * full + n % p,
                0 < n % p < p,
        ;
    }
}

/// The listing of a collection from its page `k` on.
proof fn lemma_rest_of_listing<T: Record>(
    s: ListingModel<T::V>,
    items: Seq<T::V>,
    bodies: Seq<Seq<u8>>,
    k: int,
)
    requires
        s.page_size >= 1,
        bodies.len() == items.len() / s.page_size + 1,
        0 <= k < bodies.len(),
        s.pages == k,
        k * s.page_size <= items.len(),
        s.items == items.take(k * s.page_size),
        k > 0 ==> s.last_body == bodies[k - 1],
        forall|j: int|
            0 <= j < bodies.len() ==> body_page::<T>(#[trigger] bodies[j]) == Ok::<
                Seq<T::V>,
                DecodeError,
            >(chunk(items, s.page_size, j)),
        forall|j: int| 0 < j < bodies.len() ==> #[trigger] bodies[j] != bodies[j - 1],
    ensures
        run::<T>(s, successes(bodies.skip(k))) == StepModel::<T::V>::Done(items),
        requests::<T>(s, successes(bodies.skip(k))) == bodies.len() - k,
    decreases bodies.len() - k,
{
    let p = s.page_size as int;
    let n = items.len() as int;
    let full = n / p;
    assert(n == p * full + n % p && 0 <= n % p < p) by (nonlinear_arith)
        requires
            p >= 1,
            n >= 0,
            full == n / p,
    ;
    let rest = bodies.skip(k);
    assert(rest[0] == bodies[k]);
    assert(successes(rest)[0] == Ok::<Seq<u8>, TransportError>(bodies[k]));
    assert(successes(rest).drop_first() =~= successes(bodies.skip(k + 1)));
    assert(!is_repeat(s, bodies[k])) by {
        if k > 0 {
            assert(bodies[k] != bodies[k - 1]);
        }
    }
    let page = chunk(items, s.page_size, k);
    assert(body_page::<T>(bodies[k]) == Ok::<Seq<T::V>, DecodeError>(page));
    if k < full {
        assert((k + 1) * p <= n) by (nonlinear_arith)
            requires
                k + 1 <= full,
                n == p * full + n % p,
                0 <= n % p,
                p >= 1,
        ;
        assert((k + 1) * p == k * p + p) by (nonlinear_arith);
        assert(page.len() == p);
        assert(s.items + page =~= items.take((k + 1) * p));
        let next = step::<T>(s, Ok(bodies[k]))->More_0;
        lemma_rest_of_listing::<T>(next, items, bodies, k + 1);
    } else {
        assert(k * p == full * p) by (nonlinear_arith)
            requires
                k == full,
        ;
        assert(full * p == p * full) by (nonlinear_arith);
        assert(page.len() == n % p);
        assert(s.items + page =~= items);
        assert(bodies.skip(k + 1).len() == 0);
    }
}

/// The address of a repository: the base, `repos/`, the owner, `/` and the
/// name, the two percent-encoded.
pub open spec fn repo_url(base: Seq<char>, user: Seq<char>, repo: Seq<char>) -> Seq<char> {
    base + "repos/"@ + percent_encoded(encode_utf8(user)) + "/"@ + percent_encoded(
        encode_utf8(repo),
    )
}

/// The address of a repository behind the base.
pub open spec fn repo_path(user: Seq<char>, repo: Seq<char>) -> Seq<char> {
    "repos/"@ + percent_encoded(encode_utf8(user)) + "/"@ + percent_encoded(encode_utf8(repo))
}

/// Behind the base, the address of a repository holds nothing but what may
/// stand in an address, whatever the owner and the name are.
pub proof fn lemma_repo_url_is_well_formed(base: Seq<char>, user: Seq<char>, repo: Seq<char>)
    ensures
        repo_url(base, user, repo) == base + repo_path(user, repo),
        is_address_text(repo_path(user, repo)),
{
    reveal_strlit("repos/");
    reveal_strlit("/");
    lemma_percent_encoded_is_one_part(encode_utf8(user));
    lemma_percent_encoded_is_one_part(encode_utf8(repo));
    assert(repo_url(base, user, repo) =~= base + repo_path(user, repo));
}

/// Every request of a listing goes to an address that starts with the base
/// and holds, behind it, nothing but what may stand in an address, if the
/// path and the filter of the listing do.
pub proof fn lemma_request_is_well_formed<M>(s: ListingModel<M>, base: Seq<char>, path: Seq<char>)
    requires
        s.endpoint == base + path,
        is_address_text(path),
        is_address_text(s.filter),
    ensures
        request_url(s).take(base.len() as int) == base,
        is_address_text(request_url(s).skip(base.len() as int)),
{
    reveal_strlit("?per_page=");
    reveal_strlit("&page=");
    lemma_decimal_is_address_text(s.page_size);
    lemma_decimal_is_address_text(s.pages + 1);
    let page = if s.pages == 0 {
        Seq::<char>::empty()
    } else {
        "&page="@ + decimal(s.pages + 1)
    };
    let tail = path + "?per_page="@ + decimal(s.page_size) + s.filter + page;
    assert(request_url(s) =~= base + tail);
    assert(request_url(s).take(base.len() as int) =~= base);
    assert(request_url(s).skip(base.len() as int) =~= tail);
}

/// Builds the address of a repository.
pub fn repo_address(client: &Client, user: &str, repo: &str) -> (r: String)
    ensures
        r@ == repo_url(client.base(), user@, repo@),
{
    let mut url = String::from_str(client.base_url());
    url.append("repos/");
    push_percent_encoded(&mut url, user);
    url.append("/");
    push_percent_encoded(&mut url, repo);
    url
}

} // verus!
