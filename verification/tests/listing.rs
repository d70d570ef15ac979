use github::client::Client;
use github::error::ClientError;
use github::error::DecodeError;
use github::error::ErrorKind;
use github::error::Fault;
use github::error::Field;
use github::error::TransportError;
use github::error::classify;
use github::error::classify_status;
use github::issues::list_issues;
use github::issues::Issue;
use github::listing::Listing;
use github::listing::Outcome;
use github::listing::Request;
use github::listing::Step;
use github::listing::PAGE_SIZE;
use github::pulls::list_pull_requests;
use github::pulls::Pull;
use github::record::Record;

fn client() -> Client {
    Client::with_base_url("https://tracker.test/", "tester").unwrap()
}

fn issue_json(number: u64) -> String {
    format!(
        "{{\"number\": {n}, \"url\": \"https://tracker.test/repos/o/r/issues/{n}\", \"title\": \"Issue {n}\", \
         \"html_url\": \"https://tracker.test/o/r/issues/{n}\", \"labels\": [{{\"name\": \"T-libs\"}}], \"state\": \"open\"}}",
        n = number
    )
}

fn issues_body(numbers: std::ops::Range<u64>) -> Vec<u8> {
    let items: Vec<String> = numbers.map(issue_json).collect();
    format!("[{}]", items.join(",")).into_bytes()
}

fn pulls_body(numbers: std::ops::Range<u64>) -> Vec<u8> {
    let items: Vec<String> =
        numbers.map(|n| format!("{{\"url\": \"u{n}\", \"title\": \"t{n}\", \"id\": {n}}}", n = n)).collect();
    format!("[{}]", items.join(",")).into_bytes()
}

/// The page that a request asks for, counted from 1.
fn page_of(request: &Request) -> u64 {
    match request.url.split("&page=").nth(1) {
        Some(n) => n.parse().unwrap(),
        None => 1,
    }
}

/// A server that holds `total` issues, numbered from 1, and hands them out `page_size` at a time.
fn serve(total: u64, page_size: u64, request: &Request) -> Outcome {
    let page = page_of(request);
    let from = ((page - 1) * page_size).min(total);
    let to = (from + page_size).min(total);
    Ok(issues_body(from + 1..to + 1))
}

/// Runs a listing against a transport, and counts the requests.
fn fetch<T: Record>(
    listing: Listing<T>,
    transport: &mut dyn FnMut(&Request) -> Outcome,
) -> (Result<Vec<T>, ClientError>, Vec<String>) {
    let mut listing = listing;
    let mut asked = Vec::new();
    loop {
        let request = listing.request();
        asked.push(request.url.clone());
        assert!(asked.len() < 1000, "the listing does not end");
        match listing.advance(transport(&request)) {
            Step::More(next) => listing = next,
            Step::Done(items) => return (Ok(items), asked),
            Step::Failed(e) => return (Err(e), asked),
        }
    }
}

const FIRST: &str = "https://tracker.test/repos/o/r/issues?per_page=100&labels=T-libs";

#[test]
fn page_size_is_one_hundred() {
    assert_eq!(PAGE_SIZE, 100);
}

#[test]
fn two_pages_of_100_and_37_make_137_issues() {
    let (result, asked) = fetch(list_issues(&client(), "o", "r", "T-libs"), &mut |req| match page_of(req) {
        1 => Ok(issues_body(1..101)),
        2 => Ok(issues_body(101..138)),
        n => panic!("page {} was asked for", n),
    });
    let issues = result.unwrap();
    assert_eq!(issues.len(), 137);
    let numbers: Vec<u64> = issues.iter().map(|i| i.number).collect();
    assert_eq!(numbers, (1..138).collect::<Vec<u64>>());
    let mut unique = numbers.clone();
    unique.sort();
    unique.dedup();
    assert_eq!(unique.len(), 137);
    assert_eq!(issues[0].title, "Issue 1");
    assert_eq!(issues[136].html_url, "https://tracker.test/o/r/issues/137");
    assert_eq!(asked, vec![FIRST.to_string(), format!("{}&page=2", FIRST)]);
}

#[test]
fn status_403_on_the_first_page_fails_the_listing() {
    let (result, asked) = fetch(list_issues(&client(), "o", "r", "T-libs"), &mut |_| {
        Err(TransportError::HttpError(403, b"{\"message\": \"rate limit\"}".to_vec()))
    });
    assert_eq!(
        result,
        Err(ClientError { kind: ErrorKind::AuthenticationRequired, url: FIRST.to_string(), page: 0 })
    );
    assert_eq!(asked.len(), 1);
}

#[test]
fn a_failure_on_a_later_page_hands_out_nothing() {
    let (result, asked) = fetch(list_issues(&client(), "o", "r", "T-libs"), &mut |req| match page_of(req) {
        1 => Ok(issues_body(1..101)),
        2 => Ok(issues_body(101..201)),
        _ => Err(TransportError::Timeout),
    });
    assert_eq!(
        result,
        Err(ClientError { kind: ErrorKind::Timeout, url: format!("{}&page=3", FIRST), page: 2 })
    );
    assert_eq!(asked.len(), 3);
}

#[test]
fn every_kind_of_transport_failure() {
    let cases = vec![
        (TransportError::ConnectionFailure, ErrorKind::ConnectionFailure),
        (TransportError::Timeout, ErrorKind::Timeout),
        (TransportError::HttpError(401, vec![]), ErrorKind::AuthenticationRequired),
        (TransportError::HttpError(403, vec![]), ErrorKind::AuthenticationRequired),
        (TransportError::HttpError(404, vec![]), ErrorKind::NotFound),
        (TransportError::HttpError(500, vec![]), ErrorKind::UnexpectedStatus(500)),
        (TransportError::HttpError(301, vec![]), ErrorKind::UnexpectedStatus(301)),
        (TransportError::HttpError(422, b"x".to_vec()), ErrorKind::UnexpectedStatus(422)),
        (TransportError::HttpError(200, vec![]), ErrorKind::UnexpectedStatus(200)),
    ];
    for (error, kind) in cases {
        assert_eq!(classify(&error), kind);
        let (result, _) = fetch(list_pull_requests(&client(), "o", "r"), &mut |_| Err(error.clone()));
        assert_eq!(
            result,
            Err(ClientError {
                kind,
                url: "https://tracker.test/repos/o/r/pulls?per_page=100".to_string(),
                page: 0
            })
        );
    }
}

#[test]
fn classify_status_by_code() {
    assert_eq!(classify_status(401), ErrorKind::AuthenticationRequired);
    assert_eq!(classify_status(403), ErrorKind::AuthenticationRequired);
    assert_eq!(classify_status(404), ErrorKind::NotFound);
    assert_eq!(classify_status(400), ErrorKind::UnexpectedStatus(400));
    assert_eq!(classify_status(402), ErrorKind::UnexpectedStatus(402));
    assert_eq!(classify_status(405), ErrorKind::UnexpectedStatus(405));
    assert_eq!(classify_status(503), ErrorKind::UnexpectedStatus(503));
    assert_eq!(classify_status(0), ErrorKind::UnexpectedStatus(0));
}

#[test]
fn a_page_that_does_not_decode_fails_the_listing() {
    let (result, asked) = fetch(list_issues(&client(), "o", "r", "T-libs"), &mut |req| match page_of(req) {
        1 => Ok(issues_body(1..101)),
        _ => Ok(b"[{\"number\": 101, \"url\": \"u\", \"html_url\": \"h\", \"labels\": []}]".to_vec()),
    });
    assert_eq!(
        result,
        Err(ClientError {
            kind: ErrorKind::Decode(DecodeError::Element { index: 0, fault: Fault::Missing(Field::Title) }),
            url: format!("{}&page=2", FIRST),
            page: 1
        })
    );
    assert_eq!(asked.len(), 2);
}

#[test]
fn a_body_that_is_no_json_fails_the_listing() {
    let (result, _) = fetch(list_issues(&client(), "o", "r", "T-libs"), &mut |_| Ok(b"<html>".to_vec()));
    assert_eq!(
        result,
        Err(ClientError { kind: ErrorKind::Decode(DecodeError::Syntax), url: FIRST.to_string(), page: 0 })
    );
    let (result, _) = fetch(list_issues(&client(), "o", "r", "T-libs"), &mut |_| Ok(b"{}".to_vec()));
    assert_eq!(
        result,
        Err(ClientError { kind: ErrorKind::Decode(DecodeError::NotAnArray), url: FIRST.to_string(), page: 0 })
    );
}

#[test]
fn an_empty_collection_takes_one_request() {
    let (result, asked) = fetch(list_issues(&client(), "o", "r", "T-libs"), &mut |req| serve(0, 100, req));
    assert_eq!(result, Ok(vec![]));
    assert_eq!(asked, vec![FIRST.to_string()]);
}

#[test]
fn a_short_first_page_ends_the_listing() {
    let (result, asked) = fetch(list_issues(&client(), "o", "r", "T-libs"), &mut |req| serve(99, 100, req));
    assert_eq!(result.unwrap().len(), 99);
    assert_eq!(asked.len(), 1);
}

#[test]
fn full_pages_end_with_an_empty_page() {
    let (result, asked) = fetch(list_issues(&client(), "o", "r", "T-libs"), &mut |req| serve(200, 100, req));
    let numbers: Vec<u64> = result.unwrap().iter().map(|i| i.number).collect();
    assert_eq!(numbers, (1..201).collect::<Vec<u64>>());
    assert_eq!(asked, vec![FIRST.to_string(), format!("{}&page=2", FIRST), format!("{}&page=3", FIRST)]);
}

#[test]
fn every_record_comes_once_and_in_order() {
    for page_size in [1u64, 2, 3, 7, 100] {
        for total in [0u64, 1, 2, 3, 6, 7, 8, 20, 21] {
            let listing: Listing<Issue> = Listing::begin(
                &client(),
                "https://tracker.test/repos/o/r/issues".to_string(),
                String::new(),
                page_size as usize,
            );
            let (result, asked) = fetch(listing, &mut |req| {
                assert!(req.url.starts_with(&format!("https://tracker.test/repos/o/r/issues?per_page={}", page_size)));
                serve(total, page_size, req)
            });
            let numbers: Vec<u64> = result.unwrap().iter().map(|i| i.number).collect();
            assert_eq!(numbers, (1..total + 1).collect::<Vec<u64>>(), "{} by {}", total, page_size);
            assert_eq!(asked.len() as u64, total / page_size + 1, "{} by {}", total, page_size);
            if total % page_size != 0 {
                assert_eq!(asked.len() as u64, (total + page_size - 1) / page_size);
            }
        }
    }
}

#[test]
fn a_page_that_comes_again_ends_the_listing() {
    let (result, asked) =
        fetch(list_issues(&client(), "o", "r", "T-libs"), &mut |_| Ok(issues_body(1..101)));
    let numbers: Vec<u64> = result.unwrap().iter().map(|i| i.number).collect();
    assert_eq!(numbers, (1..101).collect::<Vec<u64>>());
    assert_eq!(asked.len(), 2);
}

#[test]
fn a_page_size_of_zero_takes_one_request() {
    let listing: Listing<Pull> =
        Listing::begin(&client(), "https://tracker.test/x".to_string(), "&a=b".to_string(), 0);
    assert_eq!(listing.request().url, "https://tracker.test/x?per_page=0&a=b");
    let (result, asked) = fetch(listing, &mut |_| Ok(b"[]".to_vec()));
    assert_eq!(result, Ok(vec![]));
    assert_eq!(asked.len(), 1);
}

#[test]
fn a_page_longer_than_asked_for_ends_the_listing() {
    let listing: Listing<Pull> =
        Listing::begin(&client(), "https://tracker.test/x".to_string(), String::new(), 2);
    let (result, asked) = fetch(listing, &mut |_| Ok(pulls_body(0..3)));
    assert_eq!(result.unwrap().len(), 3);
    assert_eq!(asked.len(), 1);
}

#[test]
fn pulls_come_in_pages_too() {
    let (result, asked) = fetch(list_pull_requests(&client(), "o", "r"), &mut |req| match page_of(req) {
        1 => Ok(pulls_body(0..100)),
        2 => Ok(pulls_body(100..200)),
        _ => Ok(pulls_body(200..205)),
    });
    let pulls = result.unwrap();
    assert_eq!(pulls.len(), 205);
    assert_eq!(pulls[0], Pull { url: "u0".to_string(), title: "t0".to_string() });
    assert_eq!(pulls[204], Pull { url: "u204".to_string(), title: "t204".to_string() });
    assert_eq!(
        asked,
        vec![
            "https://tracker.test/repos/o/r/pulls?per_page=100".to_string(),
            "https://tracker.test/repos/o/r/pulls?per_page=100&page=2".to_string(),
            "https://tracker.test/repos/o/r/pulls?per_page=100&page=3".to_string(),
        ]
    );
}

#[test]
fn every_request_carries_the_identity() {
    let (_, _) = fetch(list_issues(&client(), "o", "r", ""), &mut |req| {
        assert_eq!(req.user_agent, "tester");
        assert_eq!(req.auth_token, None);
        serve(250, 100, req)
    });
}

#[test]
fn advance_steps_one_page_at_a_time() {
    let listing = list_issues(&client(), "o", "r", "T-libs");
    let next = match listing.advance(Ok(issues_body(1..101))) {
        Step::More(next) => next,
        _ => panic!("a full page asks for more"),
    };
    assert_eq!(next.request().url, format!("{}&page=2", FIRST));
    match next.advance(Ok(issues_body(101..103))) {
        Step::Done(issues) => assert_eq!(issues.len(), 102),
        _ => panic!("a short page ends the listing"),
    }
}
