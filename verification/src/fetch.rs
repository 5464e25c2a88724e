//! Talking to the data service: request addresses and headers, how a
//! response status is read, and the decisions of a cached, revalidated
//! download.
//!
//! A download first looks in the cache. With a cached copy it asks the
//! service again, sending the copy's entity tag; a fresh answer is stored
//! and returned, any failure falls back to the cached copy. Without a copy
//! it downloads, stores and returns the answer, and a failure is an error.

use vstd::prelude::*;
use crate::text::{text_of, trim, trim_text};

verus! {

/// The address of the data service's API.
pub open spec fn base_url() -> Seq<char> {
    "https://www.thebluealliance.com/api/v3"@
}

/// Requests go to version 3 of The Blue Alliance's API over HTTPS.
pub proof fn lemma_service_address()
    ensures
        base_url() == "https://www.thebluealliance.com/api/v3"@,
{
}

/// The address of an endpoint of the service.
pub fn request_url(endpoint: &str) -> (r: String)
    ensures
        r@ == base_url() + endpoint@,
{
    proof {
        reveal_strlit("https://www.thebluealliance.com/api/v3");
    }
    let mut s = text_of("https://www.thebluealliance.com/api/v3");
    s.append(endpoint);
    s
}

/// The value of the authentication header: the key without surrounding
/// whitespace; no header is sent for an empty key.
pub fn auth_header_value(api_key: &str) -> (r: Option<String>)
    ensures
        match r {
            Some(v) => api_key@.len() > 0 && v@ == trim_text(api_key@),
            None => api_key@.len() == 0,
        },
{
    if api_key.unicode_len() == 0 {
        None
    } else {
        Some(trim(api_key))
    }
}

/// How a response status is read.
#[derive(Debug, Clone, Copy, PartialEq, Eq, Structural)]
pub enum ResponseClass {
    /// 304: the cached copy is still current.
    NotModified,
    /// 2xx: the body holds the data.
    Success,
    /// Anything else: the request failed.
    Failed,
}

/// Reads a response status.
pub fn classify_status(status: u16) -> (r: ResponseClass)
    ensures
        r == (if status == 304 {
            ResponseClass::NotModified
        } else if 200 <= status <= 299 {
            ResponseClass::Success
        } else {
            ResponseClass::Failed
        }),
{
    if status == 304 {
        ResponseClass::NotModified
    } else if 200 <= status && status <= 299 {
        ResponseClass::Success
    } else {
        ResponseClass::Failed
    }
}

/// Where a cached download stands.
#[derive(Debug, Clone, Copy, PartialEq, Eq, Structural)]
pub enum FetchState {
    /// The cache has not been looked at yet.
    Start,
    /// A cached copy exists and the service is being asked again.
    Revalidating,
    /// There is no cached copy and the data is being downloaded.
    Downloading,
    /// A fresh answer is being stored in the cache.
    Storing,
    /// The download is over.
    Finished,
}

/// What happened since the last step.
#[derive(Debug, Clone)]
pub enum FetchEvent {
    /// The cache holds a copy, with the entity tag it was stored with.
    Cached { etag: Option<String> },
    /// The cache holds no copy.
    NotCached,
    /// The service answered with data.
    Received,
    /// The request failed, or the service had nothing new.
    RequestFailed,
    /// The answer was stored in the cache.
    Stored,
    /// Storing the answer failed.
    StoreFailed,
}

/// What the caller does next.
#[derive(Debug, Clone)]
pub enum FetchAction {
    /// Send the request, with this entity tag if there is one.
    Request { if_none_match: Option<String> },
    /// Store the received answer, with its entity tag.
    Store,
    /// Return the cached copy.
    ReturnCached,
    /// Return the received answer.
    ReturnFetched,
    /// Return the error that occurred.
    ReturnError,
    /// Nothing: the event does not belong to this state.
    Ignore,
}

/// The content of a `FetchEvent`.
pub enum FetchEventModel {
    Cached { etag: Option<Seq<char>> },
    NotCached,
    Received,
    RequestFailed,
    Stored,
    StoreFailed,
}

/// The content of a `FetchAction`.
pub enum FetchActionModel {
    Request { if_none_match: Option<Seq<char>> },
    Store,
    ReturnCached,
    ReturnFetched,
    ReturnError,
    Ignore,
}

/// The characters of an optional string.
pub open spec fn opt_text(s: Option<String>) -> Option<Seq<char>> {
    match s {
        Some(t) => Some(t@),
        None => None,
    }
}

impl FetchEvent {
    pub open spec fn model(&self) -> FetchEventModel {
        match self {
            FetchEvent::Cached { etag } => FetchEventModel::Cached { etag: opt_text(*etag) },
            FetchEvent::NotCached => FetchEventModel::NotCached,
            FetchEvent::Received => FetchEventModel::Received,
            FetchEvent::RequestFailed => FetchEventModel::RequestFailed,
            FetchEvent::Stored => FetchEventModel::Stored,
            FetchEvent::StoreFailed => FetchEventModel::StoreFailed,
        }
    }
}

impl FetchAction {
    pub open spec fn model(&self) -> FetchActionModel {
        match self {
            FetchAction::Request { if_none_match } => FetchActionModel::Request { if_none_match: opt_text(*if_none_match) },
            FetchAction::Store => FetchActionModel::Store,
            FetchAction::ReturnCached => FetchActionModel::ReturnCached,
            FetchAction::ReturnFetched => FetchActionModel::ReturnFetched,
            FetchAction::ReturnError => FetchActionModel::ReturnError,
            FetchAction::Ignore => FetchActionModel::Ignore,
        }
    }
}

/// One step of a cached download.
pub open spec fn fetch_next(state: FetchState, event: FetchEventModel) -> (FetchState, FetchActionModel) {
    match (state, event) {
        (FetchState::Start, FetchEventModel::Cached { etag }) => (
            FetchState::Revalidating,
            FetchActionModel::Request { if_none_match: etag },
        ),
        (FetchState::Start, FetchEventModel::NotCached) => (
            FetchState::Downloading,
            FetchActionModel::Request { if_none_match: None },
        ),
        (FetchState::Revalidating, FetchEventModel::Received) => (FetchState::Storing, FetchActionModel::Store),
        (FetchState::Revalidating, FetchEventModel::RequestFailed) => (
            FetchState::Finished,
            FetchActionModel::ReturnCached,
        ),
        (FetchState::Downloading, FetchEventModel::Received) => (FetchState::Storing, FetchActionModel::Store),
        (FetchState::Downloading, FetchEventModel::RequestFailed) => (
            FetchState::Finished,
            FetchActionModel::ReturnError,
        ),
        (FetchState::Storing, FetchEventModel::Stored) => (FetchState::Finished, FetchActionModel::ReturnFetched),
        (FetchState::Storing, FetchEventModel::StoreFailed) => (FetchState::Finished, FetchActionModel::ReturnError),
        _ => (state, FetchActionModel::Ignore),
    }
}

/// Decides the next step of a cached download.
pub fn fetch_step(state: FetchState, event: FetchEvent) -> (r: (FetchState, FetchAction))
    ensures
        (r.0, r.1.model()) == fetch_next(state, event.model()),
{
    match (state, event) {
        (FetchState::Start, FetchEvent::Cached { etag }) => (
            FetchState::Revalidating,
            FetchAction::Request { if_none_match: etag },
        ),
        (FetchState::Start, FetchEvent::NotCached) => (
            FetchState::Downloading,
            FetchAction::Request { if_none_match: None },
        ),
        (FetchState::Revalidating, FetchEvent::Received) => (FetchState::Storing, FetchAction::Store),
        (FetchState::Revalidating, FetchEvent::RequestFailed) => (FetchState::Finished, FetchAction::ReturnCached),
        (FetchState::Downloading, FetchEvent::Received) => (FetchState::Storing, FetchAction::Store),
        (FetchState::Downloading, FetchEvent::RequestFailed) => (FetchState::Finished, FetchAction::ReturnError),
        (FetchState::Storing, FetchEvent::Stored) => (FetchState::Finished, FetchAction::ReturnFetched),
        (FetchState::Storing, FetchEvent::StoreFailed) => (FetchState::Finished, FetchAction::ReturnError),
        (s, _) => (s, FetchAction::Ignore),
    }
}

/// The outcome of a whole download, given whether the cache held a copy,
/// whether the request brought data, and whether storing it worked.
pub open spec fn download_outcome(cached: bool, received: bool, stored: bool) -> FetchActionModel {
    let first = fetch_next(
        FetchState::Start,
        if cached {
            FetchEventModel::Cached { etag: None }
        } else {
            FetchEventModel::NotCached
        },
    );
    let second = fetch_next(
        first.0,
        if received {
            FetchEventModel::Received
        } else {
            FetchEventModel::RequestFailed
        },
    );
    if second.0 == FetchState::Storing {
        fetch_next(
            second.0,
            if stored {
                FetchEventModel::Stored
            } else {
                FetchEventModel::StoreFailed
            },
        ).1
    } else {
        second.1
    }
}

/// A download ends with the fresh answer when one arrives and is stored;
/// when the service gives nothing new or fails, it ends with the cached
/// copy if there is one and with an error otherwise; a failure to store a
/// fresh answer is an error.
pub proof fn lemma_download_outcome(cached: bool, received: bool, stored: bool)
    ensures
        download_outcome(cached, received, stored) == (if received {
            if stored {
                FetchActionModel::ReturnFetched
            } else {
                FetchActionModel::ReturnError
            }
        } else if cached {
            FetchActionModel::ReturnCached
        } else {
            FetchActionModel::ReturnError
        }),
{
}

/// Revalidation sends the cached copy's entity tag; a fresh download sends none.
pub proof fn lemma_request_tag(etag: Option<Seq<char>>)
    ensures
        fetch_next(FetchState::Start, FetchEventModel::Cached { etag }).1 == (FetchActionModel::Request { if_none_match: etag }),
        fetch_next(FetchState::Start, FetchEventModel::NotCached).1 == (FetchActionModel::Request { if_none_match: None }),
{
}

} // verus!
