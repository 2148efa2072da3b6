use std::borrow::Borrow;

use paradox_api::percent::PercentDecoded;
use paradox_api::reply::{
    make_api, make_api_catch_all, map_opt, map_opt_res, map_res, wrap_200, wrap_404, wrap_500, Json,
};
use paradox_api::response::{
    into_other_io_error, reply_404, reply_json, reply_json_string, ErrorKind, HeaderName, Response,
};

fn decoded(s: &str) -> String {
    PercentDecoded::from_str(s).unwrap().0
}

#[test]
fn escapes_are_replaced() {
    assert_eq!(decoded("a%20b"), "a b");
    assert_eq!(decoded("%C3%A4%e2%82%ac"), "ä€");
    assert_eq!(decoded("%2525"), "%25");
    assert_eq!(decoded("%2F"), "/");
}

#[test]
fn text_without_escapes_is_kept() {
    assert_eq!(decoded(""), "");
    assert_eq!(decoded("Objects"), "Objects");
    assert_eq!(decoded("größe+1"), "größe+1");
}

#[test]
fn incomplete_escapes_are_kept() {
    assert_eq!(decoded("100%"), "100%");
    assert_eq!(decoded("%4"), "%4");
    assert_eq!(decoded("%zz%41"), "%zzA");
    assert_eq!(decoded("%%41"), "%A");
}

#[test]
fn every_escaped_byte_of_a_text_is_read() {
    let text = "50% ä/€";
    let mut escaped = String::new();
    for b in text.bytes() {
        escaped.push_str(&format!("%{:02X}", b));
    }
    assert_eq!(decoded(&escaped), text);
}

#[test]
fn bytes_that_are_no_text_are_refused() {
    assert!(PercentDecoded::from_str("%FF").is_err());
    assert!(PercentDecoded::from_str("%C3").is_err());
    assert!(PercentDecoded::from_str("ok%ED%A0%80").is_err());
}

#[test]
fn decoded_text_can_be_parsed_borrowed_and_copied() {
    let p: PercentDecoded = "x%41".parse().unwrap();
    assert_eq!(p.to_string(), "xA");
    assert_eq!(p.borrow(), "xA");
    let text: &String = Borrow::<String>::borrow(&p);
    assert_eq!(text, "xA");
    assert_eq!(p.clone().0, "xA");
    assert!("%80".parse::<PercentDecoded>().is_err());
}

fn json(body: &str) -> Json {
    Json { body: body.to_owned() }
}

#[test]
fn replies_are_wrapped_with_their_status() {
    assert_eq!((wrap_200(1).reply, wrap_200(1).status), (1, 200));
    assert_eq!((wrap_404(2).reply, wrap_404(2).status), (2, 404));
    assert_eq!((wrap_500(3).reply, wrap_500(3).status), (3, 500));
}

#[test]
fn results_become_replies() {
    let r = map_res(Ok(json("[1]")));
    assert_eq!((r.reply.body.as_str(), r.status), ("[1]", 200));
    let r = map_res(Err("out of \"bounds\"\n".to_owned()));
    assert_eq!((r.reply.body.as_str(), r.status), ("\"out of \\\"bounds\\\"\\n\"", 500));
}

#[test]
fn optional_results_become_replies() {
    let r = map_opt_res(Ok(Some(json("{}"))));
    assert_eq!((r.reply.body.as_str(), r.status), ("{}", 200));
    let r = map_opt_res(Ok(None));
    assert_eq!((r.reply.body.as_str(), r.status), ("null", 404));
    let r = map_opt_res(Err("a\\b\u{1}\u{1f}\u{8}\u{9}\u{c}\u{d}/ä\u{7f}".to_owned()));
    assert_eq!(
        (r.reply.body.as_str(), r.status),
        ("\"a\\\\b\\u0001\\u001f\\b\\t\\f\\r/ä\u{7f}\"", 500)
    );
    let r = map_opt(Some(json("0")));
    assert_eq!((r.reply.body.as_str(), r.status), ("0", 200));
    let r = map_opt(None);
    assert_eq!((r.reply.body.as_str(), r.status), ("null", 404));
}

#[test]
fn different_messages_are_different_replies() {
    let messages = ["", "\\", "\\\\", "\"", "n", "\n", "\\n", "\u{1}", "u0001", "\\u0001"];
    for a in messages {
        for b in messages {
            let x = map_res(Err(a.to_owned())).reply.body;
            let y = map_res(Err(b.to_owned())).reply.body;
            assert_eq!(x == y, a == b);
            assert_ne!(x, "null");
        }
    }
}

#[test]
fn what_nothing_answers_is_caught() {
    let r = make_api_catch_all();
    assert_eq!((r.reply.body.as_str(), r.status), ("404", 404));
    let r = make_api(None);
    assert_eq!((r.reply.body.as_str(), r.status), ("404", 404));
    let r = make_api(Some(wrap_200(json("7"))));
    assert_eq!((r.reply.body.as_str(), r.status), ("7", 200));
}

fn headers(r: &Response) -> Vec<(HeaderName, &str)> {
    let mut all = Vec::new();
    for (name, value) in &r.headers {
        all.push((*name, value.as_str()));
    }
    all
}

const TYPE: (HeaderName, &str) = (HeaderName::ContentType, "application/json; charset=utf-8");

#[test]
fn responses_hold_the_body_and_its_length_in_bytes() {
    let r = reply_json_string("[\"ä\"]".to_owned());
    assert_eq!((r.status, r.body.as_str()), (200, "[\"ä\"]"));
    assert_eq!(headers(&r), vec![(HeaderName::ContentLength, "6"), TYPE]);
    let r = reply_json_string("x".repeat(1203));
    assert_eq!(headers(&r), vec![(HeaderName::ContentLength, "1203"), TYPE]);
    let r = reply_json_string(String::new());
    assert_eq!((r.status, r.body.as_str()), (200, ""));
    assert_eq!(headers(&r), vec![(HeaderName::ContentLength, "0"), TYPE]);
}

#[test]
fn null_is_not_there() {
    let r = reply_json_string("null".to_owned());
    assert_eq!((r.status, r.body.as_str()), (404, "null"));
    assert_eq!(headers(&r), vec![(HeaderName::ContentLength, "4"), TYPE]);
    assert_eq!(reply_json_string("null ".to_owned()).status, 200);
    assert_eq!(reply_json_string("\"null\"".to_owned()).status, 200);
    let r = reply_404();
    assert_eq!((r.status, r.body.as_str()), (404, "404"));
    assert_eq!(headers(&r), vec![(HeaderName::ContentLength, "3"), TYPE]);
}

#[test]
fn values_that_cannot_be_written_are_errors() {
    let r = reply_json::<u8>(Ok("{}".to_owned())).unwrap();
    assert_eq!((r.status, r.body.as_str()), (200, "{}"));
    let e = reply_json(Err(5u8)).unwrap_err();
    assert_eq!((e.kind, e.error), (ErrorKind::Other, 5));
    let e = into_other_io_error("broken");
    assert_eq!((e.kind, e.error), (ErrorKind::Other, "broken"));
}
