//! The Redis-backed tick buffer: during a run, tick batches are parked in
//! a sorted set under the run's id, and the run's start time under a plain
//! key.  Every operation opens a fresh connection to the store at the
//! local default address, runs one command, and maps the store's error
//! into [`CacheError`].  What the store answers depends on its state, so
//! the contracts promise nothing of the values that come back.

use redis::Commands;
use vstd::prelude::*;

verus! {

/// An error from the tick buffer, carrying the underlying message.
#[derive(Debug)]
pub struct CacheError {
    pub msg: String,
}

#[verifier::external_type_specification]
#[verifier::external_body]
pub struct ExRedisClient(redis::Client);

#[verifier::external_type_specification]
#[verifier::external_body]
pub struct ExRedisConnection(redis::Connection);

/// Relies on redis::Client::open: parses the URL into a client handle
/// without touching the network.
#[verifier::external_body]
fn redis_open(url: &str) -> (r: Result<redis::Client, String>) {
    match redis::Client::open(url) {
        Ok(c) => Ok(c),
        Err(e) => Err(e.to_string()),
    }
}

/// Relies on redis::Client::get_connection: opens one connection to the
/// store.
#[verifier::external_body]
fn redis_connect(client: &redis::Client) -> (r: Result<redis::Connection, String>) {
    match client.get_connection() {
        Ok(c) => Ok(c),
        Err(e) => Err(e.to_string()),
    }
}

/// Relies on redis::Commands::get, the GET command.
#[verifier::external_body]
fn redis_get(conn: &mut redis::Connection, key: &str) -> (r: Result<String, String>) {
    let res: Result<String, redis::RedisError> = conn.get(key);
    match res {
        Ok(v) => Ok(v),
        Err(e) => Err(e.to_string()),
    }
}

/// Relies on redis::Commands::set, the SET command.
#[verifier::external_body]
fn redis_set(conn: &mut redis::Connection, key: &str, value: &str) -> (r: Result<(), String>) {
    let res: Result<(), redis::RedisError> = conn.set(key, value);
    match res {
        Ok(v) => Ok(v),
        Err(e) => Err(e.to_string()),
    }
}

/// Relies on redis::Commands::zadd_multiple, the multi-member ZADD
/// command.
#[verifier::external_body]
fn redis_zadd_multiple(
    conn: &mut redis::Connection,
    key: &str,
    item_pairs: &Vec<(&str, u64)>,
) -> (r: Result<(), String>) {
    let res: Result<(), redis::RedisError> = conn.zadd_multiple(key, item_pairs);
    match res {
        Ok(v) => Ok(v),
        Err(e) => Err(e.to_string()),
    }
}

/// Relies on redis::Commands::del, the DEL command.
#[verifier::external_body]
fn redis_del(conn: &mut redis::Connection, key: &str) -> (r: Result<(), String>) {
    let res: Result<(), redis::RedisError> = conn.del(key);
    match res {
        Ok(v) => Ok(v),
        Err(e) => Err(e.to_string()),
    }
}

/// Relies on redis::Commands::zrembyscore, the ZREMRANGEBYSCORE command,
/// over the full score range.
#[verifier::external_body]
fn redis_zrembyscore_all(conn: &mut redis::Connection, key: &str) -> (r: Result<(), String>) {
    let res: Result<(), redis::RedisError> = conn.zrembyscore(key, "-inf", "+inf");
    match res {
        Ok(v) => Ok(v),
        Err(e) => Err(e.to_string()),
    }
}

/// Relies on redis::Commands::zrangebyscore, the ZRANGEBYSCORE command,
/// over the full score range.
#[verifier::external_body]
fn redis_zrangebyscore_all(conn: &mut redis::Connection, key: &str) -> (r: Result<
    Vec<String>,
    String,
>) {
    let res: Result<Vec<String>, redis::RedisError> = conn.zrangebyscore(key, "-inf", "+inf");
    match res {
        Ok(v) => Ok(v),
        Err(e) => Err(e.to_string()),
    }
}

/// Open a fresh connection to the store at the local default address.
fn redis_connection() -> Result<redis::Connection, CacheError> {
    let client = match redis_open("redis://127.0.0.1:6379") {
        Ok(c) => c,
        Err(e) => {
            return Err(CacheError { msg: e });
        },
    };
    match redis_connect(&client) {
        Ok(conn) => Ok(conn),
        Err(e) => Err(CacheError { msg: e }),
    }
}

/// Fetch the string stored under `key`.
pub fn get(key: String) -> Result<String, CacheError> {
    let mut connection = match redis_connection() {
        Ok(c) => c,
        Err(e) => {
            return Err(e);
        },
    };
    match redis_get(&mut connection, key.as_str()) {
        Ok(res) => Ok(res),
        Err(e) => Err(CacheError { msg: e }),
    }
}

/// Store `value` under `key`.
pub fn set(key: String, value: String) -> Result<(), CacheError> {
    let mut connection = match redis_connection() {
        Ok(c) => c,
        Err(e) => {
            return Err(e);
        },
    };
    match redis_set(&mut connection, key.as_str(), value.as_str()) {
        Ok(x) => Ok(x),
        Err(e) => Err(CacheError { msg: e }),
    }
}

/// Add each `(member, score)` pair to the sorted set under `key`.
pub fn zadd_multiple(key: &str, item_pairs: Vec<(&str, u64)>) -> Result<(), CacheError> {
    let mut connection = match redis_connection() {
        Ok(c) => c,
        Err(e) => {
            return Err(e);
        },
    };
    match redis_zadd_multiple(&mut connection, key, &item_pairs) {
        Ok(x) => Ok(x),
        Err(e) => Err(CacheError { msg: e }),
    }
}

/// Delete the value stored under `key`.
pub fn del(key: &str) -> Result<(), CacheError> {
    let mut connection = match redis_connection() {
        Ok(c) => c,
        Err(e) => {
            return Err(e);
        },
    };
    match redis_del(&mut connection, key) {
        Ok(res) => Ok(res),
        Err(e) => Err(CacheError { msg: e }),
    }
}

/// Remove every member of the sorted set under `key`.
pub fn zrem(key: &str) -> Result<(), CacheError> {
    let mut connection = match redis_connection() {
        Ok(c) => c,
        Err(e) => {
            return Err(e);
        },
    };
    match redis_zrembyscore_all(&mut connection, key) {
        Ok(res) => Ok(res),
        Err(e) => Err(CacheError { msg: e }),
    }
}

/// Fetch every member of the sorted set under `key`, in score order.
pub fn fullzrange(key: &str) -> Result<Vec<String>, CacheError> {
    let mut connection = match redis_connection() {
        Ok(c) => c,
        Err(e) => {
            return Err(e);
        },
    };
    match redis_zrangebyscore_all(&mut connection, key) {
        Ok(res) => Ok(res),
        Err(e) => Err(CacheError { msg: e }),
    }
}

} // verus!
