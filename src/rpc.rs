//! The request/response surface of the data server and the client-side
//! decisions around it: matching responses to requests and when to retry.
use vstd::prelude::*;

use crate::affector::Affector;
use crate::subscriber::{SubMessage, SubscribeError};

verus! {

/// First wait before reconnecting, in milliseconds.
pub const INITIAL_BACKOFF_MS: u64 = 5000;

/// Longest wait between reconnects, in milliseconds.
pub const MAX_BACKOFF_MS: u64 = 80_000;

/// Why the server could not carry out an order.
#[derive(Clone, Copy, Debug, PartialEq, Eq, Structural)]
pub enum AffectorError {
    /// No connected node controls the affector.
    Offline,
}

pub enum Request {
    Actuate(Affector),
    ListAffectors,
    Subscribe,
}

pub enum Response {
    Actuate(Result<(), AffectorError>),
    ListAffectors(Vec<Affector>),
    SubUpdate(SubMessage),
}

/// Which request or response a message was, without its content.
#[derive(Clone, Copy, Debug, PartialEq, Eq, Structural)]
pub enum Kind {
    Actuate,
    ListAffectors,
    Subscribe,
    SubUpdate,
}

/// What went wrong with a request, as far as the exchange itself goes.
#[derive(Clone, Copy, Debug, PartialEq, Eq, Structural)]
pub enum ClientError<T> {
    /// The server answered with another kind of response: a bug on the
    /// client's side, not an error of the server.
    IncorrectResponse { request: Kind, response: Kind },
    /// The server could not carry out the request.
    Request(T),
}

impl Request {
    pub open spec fn spec_kind(&self) -> Kind {
        match self {
            Request::Actuate(_) => Kind::Actuate,
            Request::ListAffectors => Kind::ListAffectors,
            Request::Subscribe => Kind::Subscribe,
        }
    }

    pub fn kind(&self) -> (r: Kind)
        ensures
            r == self.spec_kind(),
    {
        match self {
            Request::Actuate(_) => Kind::Actuate,
            Request::ListAffectors => Kind::ListAffectors,
            Request::Subscribe => Kind::Subscribe,
        }
    }
}

impl Response {
    pub open spec fn spec_kind(&self) -> Kind {
        match self {
            Response::Actuate(_) => Kind::Actuate,
            Response::ListAffectors(_) => Kind::ListAffectors,
            Response::SubUpdate(_) => Kind::SubUpdate,
        }
    }

    pub fn kind(&self) -> (r: Kind)
        ensures
            r == self.spec_kind(),
    {
        match self {
            Response::Actuate(_) => Kind::Actuate,
            Response::ListAffectors(_) => Kind::ListAffectors,
            Response::SubUpdate(_) => Kind::SubUpdate,
        }
    }
}

/// The outcome of an `Actuate` request given the server's response.
pub fn actuate_outcome(response: Response) -> (r: Result<(), ClientError<AffectorError>>)
    ensures
        match response {
            Response::Actuate(res) => match res {
                Ok(()) => r == Ok::<(), ClientError<AffectorError>>(()),
                Err(e) => r == Err::<(), ClientError<AffectorError>>(ClientError::Request(e)),
            },
            _ => r == Err::<(), ClientError<AffectorError>>(
                ClientError::IncorrectResponse { request: Kind::Actuate, response: response.spec_kind() },
            ),
        },
{
    let kind = response.kind();
    match response {
        Response::Actuate(res) => match res {
            Ok(()) => Ok(()),
            Err(e) => Err(ClientError::Request(e)),
        },
        _ => Err(ClientError::IncorrectResponse { request: Kind::Actuate, response: kind }),
    }
}

/// The affectors listed in the response to a `ListAffectors` request.
pub fn list_outcome(response: Response) -> (r: Result<Vec<Affector>, ClientError<AffectorError>>)
    ensures
        match response {
            Response::ListAffectors(list) => r is Ok && r->Ok_0@ == list@,
            _ => r is Err && r->Err_0 == ClientError::<AffectorError>::IncorrectResponse {
                request: Kind::ListAffectors,
                response: response.spec_kind(),
            },
        },
{
    let kind = response.kind();
    match response {
        Response::ListAffectors(list) => Ok(list),
        _ => Err(ClientError::IncorrectResponse { request: Kind::ListAffectors, response: kind }),
    }
}

/// The update a subscribed client received; any other response is a
/// mismatch.
pub fn update_outcome(response: Response) -> (r: Result<SubMessage, ClientError<AffectorError>>)
    ensures
        match response {
            Response::SubUpdate(m) => r == Ok::<SubMessage, ClientError<AffectorError>>(m),
            _ => r == Err::<SubMessage, ClientError<AffectorError>>(
                ClientError::IncorrectResponse { request: Kind::Subscribe, response: response.spec_kind() },
            ),
        },
{
    let kind = response.kind();
    match response {
        Response::SubUpdate(m) => Ok(m),
        _ => Err(ClientError::IncorrectResponse { request: Kind::Subscribe, response: kind }),
    }
}

/// Whether a subscriber should reconnect after this error. A message that
/// cannot be decoded means client and server disagree on the format, and
/// retrying would fail forever.
pub fn should_retry(error: &SubscribeError) -> (r: bool)
    ensures
        r == !(error is DecodeFailed),
{
    match error {
        SubscribeError::DecodeFailed(_) => false,
        _ => true,
    }
}

/// The wait before the next reconnect: twice the last one, at most
/// [`MAX_BACKOFF_MS`], and [`INITIAL_BACKOFF_MS`] after a success.
pub fn next_backoff(last: Option<u64>) -> (r: u64)
    ensures
        last.is_none() ==> r == INITIAL_BACKOFF_MS,
        last.is_some() ==> r as int == if 2 * last.unwrap() < MAX_BACKOFF_MS {
            2 * last.unwrap()
        } else {
            MAX_BACKOFF_MS as int
        },
{
    match last {
        None => INITIAL_BACKOFF_MS,
        Some(ms) => if ms < MAX_BACKOFF_MS / 2 {
            2 * ms
        } else {
            MAX_BACKOFF_MS
        },
    }
}

} // verus!
