//! Replies with a status.
use vstd::prelude::*;

use crate::json;

verus! {

/// The status of a reply to a request that succeeded.
pub const OK: u16 = 200;

/// The status of a reply to a request for what is not there.
pub const NOT_FOUND: u16 = 404;

/// The status of a reply to a request that failed.
pub const INTERNAL_SERVER_ERROR: u16 = 500;

/// A reply that is a JSON text.
#[derive(Debug)]
pub struct Json {
    /// The text.
    pub body: String,
}

/// A reply together with its status.
#[derive(Debug)]
pub struct WithStatus<A> {
    /// The reply.
    pub reply: A,
    /// The status.
    pub status: u16,
}

/// A reply for what is not there.
pub fn wrap_404<A>(reply: A) -> (r: WithStatus<A>)
    ensures
        r.reply == reply,
        r.status == NOT_FOUND,
        r.status == 404,
{
    WithStatus { reply, status: NOT_FOUND }
}

/// A reply for a request that succeeded.
pub fn wrap_200<A>(reply: A) -> (r: WithStatus<A>)
    ensures
        r.reply == reply,
        r.status == OK,
        r.status == 200,
{
    WithStatus { reply, status: OK }
}

/// A reply for a request that failed.
pub fn wrap_500<A>(reply: A) -> (r: WithStatus<A>)
    ensures
        r.reply == reply,
        r.status == INTERNAL_SERVER_ERROR,
        r.status == 500,
{
    WithStatus { reply, status: INTERNAL_SERVER_ERROR }
}

/// The reply `null` for what is not there.
fn not_there() -> (r: WithStatus<Json>)
    ensures
        r.reply.body@ == "null"@,
        r.status == NOT_FOUND,
{
    wrap_404(Json { body: "null".to_owned() })
}

/// The reply with the message of an error as a JSON string.
fn failed(message: &str) -> (r: WithStatus<Json>)
    ensures
        r.reply.body@ == json::quoted(message@),
        r.status == INTERNAL_SERVER_ERROR,
{
    wrap_500(Json { body: json::json_string(message) })
}

/// The reply for a result: the result itself, or the message of the error.
pub fn map_res(v: Result<Json, String>) -> (r: WithStatus<Json>)
    ensures
        match v {
            Ok(res) => r.reply == res && r.status == OK,
            Err(e) => r.reply.body@ == json::quoted(e@) && r.status == INTERNAL_SERVER_ERROR,
        },
        r.status == 200 <==> v is Ok,
        r.status == 500 <==> v is Err,
{
    match v {
        Ok(res) => wrap_200(res),
        Err(e) => failed(e.as_str()),
    }
}

/// The reply for a result that may be missing: the result itself, `null` where it is missing, or
/// the message of the error.
pub fn map_opt_res(v: Result<Option<Json>, String>) -> (r: WithStatus<Json>)
    ensures
        match v {
            Ok(Some(res)) => r.reply == res && r.status == OK,
            Ok(None) => r.reply.body@ == "null"@ && r.status == NOT_FOUND,
            Err(e) => r.reply.body@ == json::quoted(e@) && r.status == INTERNAL_SERVER_ERROR,
        },
        r.status == 200 <==> (v matches Ok(Some(_))),
        r.status == 404 <==> (v matches Ok(None)),
        r.status == 500 <==> v is Err,
{
    match v {
        Ok(Some(res)) => wrap_200(res),
        Ok(None) => not_there(),
        Err(e) => failed(e.as_str()),
    }
}

/// The reply for what may be missing: the thing itself, or `null`.
pub fn map_opt(v: Option<Json>) -> (r: WithStatus<Json>)
    ensures
        match v {
            Some(res) => r.reply == res && r.status == OK,
            None => r.reply.body@ == "null"@ && r.status == NOT_FOUND,
        },
        r.status == 200 <==> v is Some,
        r.status == 404 <==> v is None,
{
    match v {
        Some(res) => wrap_200(res),
        None => not_there(),
    }
}

/// The reply to a request that nothing else answers: the number of its status.
pub fn make_api_catch_all() -> (r: WithStatus<Json>)
    ensures
        r.reply.body@ == "404"@,
        r.status == NOT_FOUND,
        r.status == 404,
{
    wrap_404(Json { body: "404".to_owned() })
}

/// The reply of the part of the API that a request leads to, or the reply to a request that nothing
/// answers.
pub fn make_api(found: Option<WithStatus<Json>>) -> (r: WithStatus<Json>)
    ensures
        match found {
            Some(reply) => r == reply,
            None => r.reply.body@ == "404"@ && r.status == NOT_FOUND && r.status == 404,
        },
{
    match found {
        Some(reply) => reply,
        None => make_api_catch_all(),
    }
}

} // verus!
