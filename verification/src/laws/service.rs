//! Laws of the answers to requests.
use vstd::prelude::*;
use vstd::utf8;

use crate::file;
use crate::file::CastError;
use crate::json;
use crate::reply;
use crate::response;
use crate::route::ApiRouteView;
use crate::rows::RowIter;
use crate::service;
use crate::service::Answer;
use crate::tables;
use crate::tables::TableDef;

verus! {

/// Whether a route is about tables.
pub open spec fn about_tables(found: ApiRouteView) -> bool {
    !(found is Locale || found is OpenApiV0)
}

/// The table that a route is about, if it is about one.
pub open spec fn table_of(found: ApiRouteView) -> Option<Seq<char>> {
    match found {
        ApiRouteView::TableByName(name) => Some(name),
        ApiRouteView::AllTableRows(name) => Some(name),
        ApiRouteView::TableRowsByPK(name, _) => Some(name),
        _ => None,
    }
}

/// A complete response has either the status of success or that of what is not there, and the
/// latter just where its body is `null` or `404`. Its headers give the length of its body and say
/// that it is JSON.
pub proof fn responses_are_json(
    f: Seq<u8>,
    found: Option<ApiRouteView>,
    float: Option<u32>,
    a: Answer<'_, '_>,
)
    requires
        service::answered(f, found, float, a),
    ensures
        a matches Answer::Reply(r) ==> {
            &&& response::is_json(r, r.status, r.body@)
            &&& r.status == reply::OK || r.status == reply::NOT_FOUND
            &&& r.status == reply::NOT_FOUND <==> r.body@ == "null"@ || r.body@ == "404"@
        },
{
    reveal_strlit("404");
    reveal_strlit("null");
    if a is Reply && found == Some(ApiRouteView::Tables) {
        assert(a->Reply_0.body@[0] == '[');
    }
}

/// A request for what no route stands for is answered with `404`, whatever the database holds.
pub proof fn unknown_paths(f: Seq<u8>, float: Option<u32>, a: Answer<'_, '_>)
    requires
        service::answered(f, None, float, a),
    ensures
        service::answerable(f, None, float),
        a matches Answer::Reply(r) && response::is_json(r, reply::NOT_FOUND, "404"@),
{
}

/// Where the array of tables cannot be read, every request about tables fails with the same error.
pub proof fn broken_files(
    f: Seq<u8>,
    found: ApiRouteView,
    float: Option<u32>,
    a: Answer<'_, '_>,
    e: CastError,
)
    requires
        file::tables_error(f) == Some(e),
        about_tables(found),
        service::answered(f, Some(found), float, a),
    ensures
        service::answers_error(a, e),
{
}

/// In a file whose tables are in order, every request about a table that is not there is answered
/// with `null` and the status of what is not there.
pub proof fn missing_tables(
    f: Seq<u8>,
    found: ApiRouteView,
    name: Seq<char>,
    float: Option<u32>,
    a: Answer<'_, '_>,
)
    requires
        file::tables_error(f) is None,
        table_of(found) == Some(name),
        file::sorted(f, utf8::encode_utf8(name)),
        forall|i: int|
            0 <= i < file::table_count(f) ==> #[trigger] file::order(f, utf8::encode_utf8(name), i)
                != 0,
        service::answered(f, Some(found), float, a),
    ensures
        service::answers_null(a),
{
    let q = utf8::encode_utf8(name);
    assert forall|i: int| !file::candidate(f, q, i) by {
        if file::candidate(f, q, i) {
            assert(file::order(f, q, i) == 0);
        }
    }
}

/// A request for the list of tables is answered with the names of all tables as a JSON array and
/// status 200, or fails with the error of the listing.
pub proof fn the_list_is_answered(f: Seq<u8>, float: Option<u32>, a: Answer<'_, '_>)
    requires
        service::answered(f, Some(ApiRouteView::Tables), float, a),
    ensures
        match tables::listing(f) {
            Ok(names) => {
                &&& a matches Answer::Reply(r)
                &&& r.status == 200
                &&& r.body@ == json::quoted_list(names)
                &&& tables::lists(f, names)
            },
            Err(e) => a matches Answer::Failed(x) && x.error == e,
        },
{
}

/// A request for a definition is answered with what is found of it: the definition itself, `null` and
/// status 404 where nothing is found, or the error.
pub proof fn definitions_are_answered(
    f: Seq<u8>,
    name: Seq<char>,
    float: Option<u32>,
    a: Answer<'_, '_>,
)
    requires
        service::answered(f, Some(ApiRouteView::TableByName(name)), float, a),
    ensures
        match a {
            Answer::Definition(def) => tables::finds_definition(f, name, Ok(Some(def))),
            Answer::Reply(r) => tables::finds_definition(f, name, Ok(None)) && r.status == 404
                && r.body@ == "null"@,
            Answer::Failed(x) => tables::finds_definition(f, name, Err(x.error)),
            _ => false,
        },
{
    let v = choose|v: Result<Option<TableDef>, CastError>| #[trigger]
        service::answers_definition(a, v) && tables::finds_definition(f, name, v);
    match v {
        Ok(Some(def)) => {},
        Ok(None) => {},
        Err(e) => {},
    }
}

/// A request for all rows, or for those with a key, is answered with what is found of them: the rows
/// themselves, `null` and status 404 where nothing is found, or the error.
pub proof fn rows_are_answered<'a>(
    f: Seq<u8>,
    name: Seq<char>,
    key: Seq<char>,
    float: Option<u32>,
    a: Answer<'a, '_>,
)
    ensures
        service::answered(f, Some(ApiRouteView::AllTableRows(name)), float, a) ==> match a {
            Answer::Rows(iter) => tables::finds_rows(f, name, Ok(Some(iter))),
            Answer::Reply(r) => tables::finds_rows(f, name, Ok(None)) && r.status == 404 && r.body@
                == "null"@,
            Answer::Failed(x) => tables::finds_rows(f, name, Err(x.error)),
            _ => false,
        },
        service::answered(f, Some(ApiRouteView::TableRowsByPK(name, key)), float, a) ==> match a {
            Answer::Rows(iter) => tables::finds_keyed(f, name, key, float, Ok(Some(iter))),
            Answer::Reply(r) => tables::finds_keyed(f, name, key, float, Ok(None)) && r.status
                == 404 && r.body@ == "null"@,
            Answer::Failed(x) => tables::finds_keyed(f, name, key, float, Err(x.error)),
            _ => false,
        },
{
    if service::answered(f, Some(ApiRouteView::AllTableRows(name)), float, a) {
        let v = choose|v: Result<Option<RowIter<'a, Vec<String>>>, CastError>| #[trigger]
            service::answers_rows(a, v) && tables::finds_rows(f, name, v);
        match v {
            Ok(Some(iter)) => {},
            Ok(None) => {},
            Err(e) => {},
        }
    }
    if service::answered(f, Some(ApiRouteView::TableRowsByPK(name, key)), float, a) {
        let v = choose|v: Result<Option<RowIter<'a, Vec<String>>>, CastError>| #[trigger]
            service::answers_rows(a, v) && tables::finds_keyed(f, name, key, float, v);
        match v {
            Ok(Some(iter)) => {},
            Ok(None) => {},
            Err(e) => {},
        }
    }
}

/// A request for a node of the locale tree or for the description of the API asks for just that,
/// whatever the database holds. A request that no route stands for is answered with status 404.
pub proof fn other_requests(
    f: Seq<u8>,
    rest: Seq<Seq<char>>,
    float: Option<u32>,
    a: Answer<'_, '_>,
)
    ensures
        service::answered(f, Some(ApiRouteView::Locale(rest)), float, a) ==> (
        a matches Answer::Locale(parts) && parts@ == rest),
        service::answered(f, Some(ApiRouteView::OpenApiV0), float, a) ==> a is OpenApi,
        service::answered(f, None, float, a) ==> (a matches Answer::Reply(r) && r.status == 404
            && r.body@ == "404"@),
{
}

} // verus!
