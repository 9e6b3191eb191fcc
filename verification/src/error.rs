//! Error taxonomy of the synchronization pipeline. Failures coming from the
//! network or from decoding carry the offending message as text.

use vstd::prelude::*;

verus! {

/// Failure to turn raw cookie records into a usable store.
#[derive(Debug)]
pub enum CookieJsonParsingError {
    InvalidUrlProvided(String),
    CookieParsingError(String),
    JsonParsingError(String),
}

/// Failure to build the authenticated client context.
#[derive(Debug)]
pub enum ContextCreationError {
    CookieParsingError(CookieJsonParsingError),
    ClientCreationError(String),
}

/// Failure to retrieve or decode per-item information.
#[derive(Debug)]
pub enum InformationRetrievalError {
    HttpRequestError(String),
    HttpMiddlewareRequestError(String),
    JsonParseError(String),
    DataBlobNotFound,
}

/// Failure to enumerate the collection.
#[derive(Debug)]
pub enum ReleaseRetrievalError {
    HttpRequestError(String),
    HttpMiddlewareRequestError(String),
    JsonParseError(String),
    NoDownloadLinksFound,
    /// A page claimed more items were available but carried no continuation
    /// token to fetch them with.
    MissingContinuationToken,
}

/// Failure to resolve a digital download to a qualified URL.
#[derive(Debug)]
pub enum DigitalDownloadError {
    /// The stat endpoint signalled a transient error; the payload is the
    /// retry URL to poll next.
    JsonResponseErrorCode(String),
    HttpRequestError(String),
    HttpMiddlewareRequestError(String),
    JsonParseError(String),
    JsonBodyNotFound,
    NoDownloadLinksFound,
    NoLinkFound,
    RequestedFormatLinkNotFound,
}

} // verus!
