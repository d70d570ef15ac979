//! What can go wrong between a request and a typed listing.

use vstd::prelude::*;

verus! {

/// A required field of an issue or of a pull request.
#[derive(Debug, Copy, Clone, PartialEq, Eq, Structural)]
pub enum Field {
    Number,
    Url,
    Title,
    HtmlUrl,
    Labels,
}

/// Why a value is no label.
#[derive(Debug, Copy, Clone, PartialEq, Eq, Structural)]
pub enum LabelFault {
    /// The value is no object.
    NotAnObject,
    /// The object has no `name`.
    MissingName,
    /// The `name` is no string.
    NameNotText,
}

/// Why one element of a page is no record.
#[derive(Debug, Copy, Clone, PartialEq, Eq, Structural)]
pub enum Fault {
    /// The element is no object.
    NotAnObject,
    /// The object lacks the field.
    Missing(Field),
    /// The field is there, with a value of another type than the record asks for.
    WrongType(Field),
    /// The label at `index` of the element's labels is none.
    Label { index: usize, fault: LabelFault },
}

/// Why a response body is no page of records.
#[derive(Debug, Copy, Clone, PartialEq, Eq, Structural)]
pub enum DecodeError {
    /// The body is nested deeper, or has longer keys or exponents, than the
    /// parser is trusted with.
    BeyondLimits,
    /// The body is no JSON document.
    Syntax,
    /// The document is no array.
    NotAnArray,
    /// The element at `index` of the array is no record.
    Element { index: usize, fault: Fault },
}

/// How a request failed before any body could be read.
#[derive(Debug, Clone, PartialEq, Eq)]
pub enum TransportError {
    /// No connection: name lookup, TCP or TLS failed.
    ConnectionFailure,
    /// The server answered with a status outside 200..=299; the body is kept as it came.
    HttpError(u16, Vec<u8>),
    /// The server did not answer in time.
    Timeout,
}

/// The kinds of failure of a listing.
#[derive(Debug, Copy, Clone, PartialEq, Eq, Structural)]
pub enum ErrorKind {
    ConnectionFailure,
    Timeout,
    /// Status 401 or 403: the identity is missing, refused or rate-limited.
    AuthenticationRequired,
    /// Status 404: no such owner or repository.
    NotFound,
    /// Any other status that came as a failure.
    UnexpectedStatus(u16),
    /// The body of a page could not be decoded.
    Decode(DecodeError),
}

/// A failed listing: what failed, and on which request.
#[derive(Debug, Clone, PartialEq, Eq)]
pub struct ClientError {
    pub kind: ErrorKind,
    /// The URL of the request that failed.
    pub url: String,
    /// How many pages had been taken in before that request.
    pub page: usize,
}

/// A failed listing as a mathematical value.
pub struct ClientErrorModel {
    pub kind: ErrorKind,
    pub url: Seq<char>,
    pub page: nat,
}

impl View for ClientError {
    type V = ClientErrorModel;

    open spec fn view(&self) -> ClientErrorModel {
        ClientErrorModel { kind: self.kind, url: self.url@, page: self.page as nat }
    }
}

/// The kind of failure that a status code stands for.
pub open spec fn status_kind(status: u16) -> ErrorKind {
    if status == 401 || status == 403 {
        ErrorKind::AuthenticationRequired
    } else if status == 404 {
        ErrorKind::NotFound
    } else {
        ErrorKind::UnexpectedStatus(status)
    }
}

/// The kind of failure that a transport error stands for.
pub open spec fn transport_kind(e: TransportError) -> ErrorKind {
    match e {
        TransportError::ConnectionFailure => ErrorKind::ConnectionFailure,
        TransportError::Timeout => ErrorKind::Timeout,
        TransportError::HttpError(status, _) => status_kind(status),
    }
}

/// Classifies a status code that came as a failure.
pub fn classify_status(status: u16) -> (kind: ErrorKind)
    ensures
        kind == status_kind(status),
{
    if status == 401 || status == 403 {
        ErrorKind::AuthenticationRequired
    } else if status == 404 {
        ErrorKind::NotFound
    } else {
        ErrorKind::UnexpectedStatus(status)
    }
}

/// Classifies a transport error.
pub fn classify(e: &TransportError) -> (kind: ErrorKind)
    ensures
        kind == transport_kind(*e),
{
    match e {
        TransportError::ConnectionFailure => ErrorKind::ConnectionFailure,
        TransportError::Timeout => ErrorKind::Timeout,
        TransportError::HttpError(status, _) => classify_status(*status),
    }
}

} // verus!
