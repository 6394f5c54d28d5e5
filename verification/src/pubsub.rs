//! The Redis client of the transaction event channel.

use vstd::prelude::*;

verus! {

/// `redis::Client`, carried through unopened.
#[verifier::external_type_specification]
#[verifier::external_body]
pub struct ExRedisClient(redis::Client);

/// `redis::RedisError`, carried through unopened.
#[verifier::external_type_specification]
#[verifier::external_body]
pub struct ExRedisError(redis::RedisError);

/// Whether `redis::Client::open` accepts the URL with these characters: it
/// parses as a URL whose scheme is `redis`, `rediss`, `unix` or `redis+unix`
/// and whose connection details are complete and supported by this build.
pub uninterp spec fn redis_url_accepted(url: Seq<char>) -> bool;

/// `redis::Client::open(url)`. It parses the URL into connection details and
/// opens no connection. Trusted: it succeeds exactly when the URL is accepted
/// (`redis_url_accepted`), which depends on the URL's characters alone; which
/// URLs those are is not stated.
#[verifier::external_body]
fn open_redis_client(url: &str) -> (r: Result<redis::Client, redis::RedisError>)
    ensures
        r is Ok <==> redis_url_accepted(url@),
{
    redis::Client::open(url)
}

/// A client for the Redis server at `url`; no connection is opened yet.
pub fn connect(url: &str) -> (r: Result<redis::Client, redis::RedisError>)
    ensures
        r is Ok <==> redis_url_accepted(url@),
{
    open_redis_client(url)
}

} // verus!
