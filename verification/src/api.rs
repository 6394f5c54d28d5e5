//! The decisions of the API service: health, pagination defaults, lookup
//! answers and the websocket forwarding loop.

use vstd::prelude::*;
use crate::transaction::Transaction;

verus! {

/// Page size when the request gives none.
pub const DEFAULT_LIMIT: i64 = 10;

/// Offset when the request gives none.
pub const DEFAULT_OFFSET: i64 = 0;

/// The body of the health check.
pub struct HealthResponse {
    pub status: String,
}

/// The health check's answer: status `Ok`.
pub fn health() -> (r: HealthResponse)
    ensures
        r.status@ == "Ok"@,
{
    HealthResponse { status: String::from_str("Ok") }
}

/// The paging parameters of a transaction listing request.
pub struct PaginationParams {
    pub limit: Option<i64>,
    pub offset: Option<i64>,
}

/// The limit and offset to query with: those given, else `DEFAULT_LIMIT`
/// and `DEFAULT_OFFSET`.
pub fn resolve_pagination(params: &PaginationParams) -> (r: (i64, i64))
    ensures
        r.0 == match params.limit { Some(l) => l, None => DEFAULT_LIMIT },
        r.1 == match params.offset { Some(o) => o, None => DEFAULT_OFFSET },
{
    let limit = match params.limit {
        Some(l) => l,
        None => DEFAULT_LIMIT,
    };
    let offset = match params.offset {
        Some(o) => o,
        None => DEFAULT_OFFSET,
    };
    (limit, offset)
}

/// The error answers of a transaction lookup.
#[derive(Clone, Copy, Debug, PartialEq, Eq, Structural)]
pub enum ApiError {
    /// The store could not be queried.
    InternalServerError,
    /// No transaction has the hash asked for.
    NotFound,
}

impl ApiError {
    /// The HTTP status code of the error.
    pub fn status_code(&self) -> (r: u16)
        ensures
            r == match self { ApiError::InternalServerError => 500u16, ApiError::NotFound => 404u16 },
    {
        match self {
            ApiError::InternalServerError => 500,
            ApiError::NotFound => 404,
        }
    }
}

/// The answer to a lookup by hash, from what the store returned: the
/// transaction when found, `NotFound` when absent, `InternalServerError` when
/// the query failed.
pub fn lookup_response<T, E>(fetched: Result<Option<T>, E>) -> (r: Result<T, ApiError>)
    ensures
        match fetched {
            Ok(Some(t)) => r == Ok::<T, ApiError>(t),
            Ok(None) => r == Err::<T, ApiError>(ApiError::NotFound),
            Err(_) => r == Err::<T, ApiError>(ApiError::InternalServerError),
        },
{
    match fetched {
        Ok(Some(t)) => Ok(t),
        Ok(None) => Err(ApiError::NotFound),
        Err(_) => Err(ApiError::InternalServerError),
    }
}

/// What a websocket session sees next.
pub enum SocketEvent {
    /// A transaction arrived on the broadcast stream.
    Broadcast(Transaction),
    /// The broadcast stream lagged or closed.
    BroadcastFailed,
    /// The client sent a message.
    ClientMessage,
    /// The client closed the connection, or reading from it failed.
    ClientGone,
    /// Sending to the client failed.
    SendFailed,
}

/// What a websocket session does next.
pub enum SocketAction {
    /// Send the transaction to the client as JSON, then keep going.
    Forward(Transaction),
    /// Keep going.
    Listen,
    /// End the session.
    Disconnect,
}

/// One step of a websocket session: transactions from the stream are
/// forwarded, client messages are ignored, and any failure on either side
/// ends the session.
pub fn socket_step(event: SocketEvent) -> (r: SocketAction)
    ensures
        match event {
            SocketEvent::Broadcast(tx) => r == SocketAction::Forward(tx),
            SocketEvent::ClientMessage => r is Listen,
            _ => r is Disconnect,
        },
{
    match event {
        SocketEvent::Broadcast(tx) => SocketAction::Forward(tx),
        SocketEvent::ClientMessage => SocketAction::Listen,
        SocketEvent::BroadcastFailed => SocketAction::Disconnect,
        SocketEvent::ClientGone => SocketAction::Disconnect,
        SocketEvent::SendFailed => SocketAction::Disconnect,
    }
}

} // verus!
