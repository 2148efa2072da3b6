//! HTTP responses with a JSON body.
use vstd::prelude::*;
use vstd::utf8;

use crate::json;
use crate::path;
use crate::reply;

verus! {

/// The kind of an I/O error.
#[derive(Clone, Copy, Debug, PartialEq, Eq, Structural)]
pub enum ErrorKind {
    /// An error of no other kind.
    Other,
}

/// An I/O error that some other error caused.
#[derive(Debug)]
pub struct IoError<E> {
    /// The kind of the error.
    pub kind: ErrorKind,
    /// What caused it.
    pub error: E,
}

/// The I/O error, of no particular kind, that `error` causes.
pub fn into_other_io_error<E>(error: E) -> (r: IoError<E>)
    ensures
        r.kind == ErrorKind::Other,
        r.error == error,
{
    IoError { kind: ErrorKind::Other, error }
}

/// The headers that a response has.
#[derive(Clone, Copy, Debug, PartialEq, Eq, Structural)]
pub enum HeaderName {
    /// `content-length`
    ContentLength,
    /// `content-type`
    ContentType,
}

/// A response.
#[derive(Debug)]
pub struct Response {
    /// The status.
    pub status: u16,
    /// The headers, in order.
    pub headers: Vec<(HeaderName, String)>,
    /// The body.
    pub body: String,
}

/// Headers over the characters of their values.
pub open spec fn headers_view(headers: Seq<(HeaderName, String)>) -> Seq<(HeaderName, Seq<char>)> {
    headers.map_values(|h: (HeaderName, String)| (h.0, h.1@))
}

/// The headers of a response with this body: its length in bytes, in decimal, and the type.
pub open spec fn json_headers(body: Seq<char>) -> Seq<(HeaderName, Seq<char>)> {
    seq![
        (HeaderName::ContentLength, json::decimal(utf8::encode_utf8(body).len())),
        (HeaderName::ContentType, "application/json; charset=utf-8"@),
    ]
}

/// Whether `r` is the response with this status and this JSON body.
pub open spec fn is_json(r: Response, status: u16, body: Seq<char>) -> bool {
    &&& r.status == status
    &&& r.body@ == body
    &&& headers_view(r.headers@) == json_headers(body)
}

/// The status of the response with this JSON body: `null` stands for what is not there.
pub open spec fn json_status(body: Seq<char>) -> u16 {
    if body == "null"@ {
        reply::NOT_FOUND
    } else {
        reply::OK
    }
}

/// Calls `http::HeaderValue::from` on a number and `to_str` on what it returns: the number in
/// decimal. A header value of digits is always a text.
#[verifier::external_body]
fn number_value(n: usize) -> (value: String)
    ensures
        value@ == json::decimal(n as nat),
{
    http::HeaderValue::from(n).to_str().unwrap().to_owned()
}

/// The response with this status and this JSON body.
fn json_response(status: u16, body: String) -> (r: Response)
    ensures
        is_json(r, status, body@),
{
    let length: usize = body.as_str().as_bytes().len();
    let mut headers: Vec<(HeaderName, String)> = Vec::new();
    headers.push((HeaderName::ContentLength, number_value(length)));
    headers.push((HeaderName::ContentType, "application/json; charset=utf-8".to_owned()));
    assert(headers_view(headers@) =~= json_headers(body@));
    Response { status, headers, body }
}

/// The response with a JSON text as its body. The text `null` stands for what is not there.
pub fn reply_json_string(body: String) -> (r: Response)
    ensures
        is_json(r, json_status(body@), body@),
        r.body@ == body@,
        r.status == 404 <==> body@ == "null"@,
        r.status == 200 <==> body@ != "null"@,
        r.headers@.len() == 2,
        r.headers@[0].0 == HeaderName::ContentLength,
        r.headers@[0].1@ == json::decimal(utf8::encode_utf8(body@).len()),
        r.headers@[1].0 == HeaderName::ContentType,
        r.headers@[1].1@ == "application/json; charset=utf-8"@,
{
    let status: u16 = if path::same_text(body.as_str(), "null") {
        reply::NOT_FOUND
    } else {
        reply::OK
    };
    let r: Response = json_response(status, body);
    proof {
        lemma_headers(r.headers@, r.body@);
    }
    r
}

proof fn lemma_headers(headers: Seq<(HeaderName, String)>, body: Seq<char>)
    requires
        headers_view(headers) == json_headers(body),
    ensures
        headers.len() == 2,
        headers[0].0 == HeaderName::ContentLength,
        headers[0].1@ == json::decimal(utf8::encode_utf8(body).len()),
        headers[1].0 == HeaderName::ContentType,
        headers[1].1@ == "application/json; charset=utf-8"@,
{
    assert(headers_view(headers).len() == headers.len());
    assert(headers_view(headers)[0] == (headers[0].0, headers[0].1@));
    assert(headers_view(headers)[1] == (headers[1].0, headers[1].1@));
}

/// The response with what came of writing a value as JSON: its text as the body, or an error where
/// the value could not be written.
pub fn reply_json<E>(json: Result<String, E>) -> (r: Result<Response, IoError<E>>)
    ensures
        match json {
            Ok(body) => {
                &&& r matches Ok(response)
                &&& is_json(response, json_status(body@), body@)
                &&& response.body@ == body@
                &&& response.status == 404 <==> body@ == "null"@
                &&& response.status == 200 <==> body@ != "null"@
            },
            Err(e) => r matches Err(error) && error.kind == ErrorKind::Other && error.error == e,
        },
{
    match json {
        Ok(body) => Ok(reply_json_string(body)),
        Err(e) => Err(into_other_io_error(e)),
    }
}

/// The response to a request for what is not there.
pub fn reply_404() -> (r: Response)
    ensures
        is_json(r, reply::NOT_FOUND, "404"@),
        r.status == 404,
        r.body@ == "404"@,
{
    json_response(reply::NOT_FOUND, "404".to_owned())
}

} // verus!
