//! Laws of several calls on one database.
//!
//! Each call searches for its table anew. What two calls give is compared where the tables of the
//! file are in order or cannot be read at all: elsewhere it is open where a search ends.
use vstd::prelude::*;
use vstd::utf8;

use crate::fdb;
use crate::file;
use crate::file::{CastError, Cells};
use crate::laws::paths;
use crate::laws::rows as rows_laws;
use crate::laws::service as service_laws;
use crate::laws::tables as tables_laws;
use crate::response;
use crate::route;
use crate::route::ApiRouteView;
use crate::rows;
use crate::rows::{AsColValIter, PartialColValIterSpec, RowIter};
use crate::service;
use crate::service::Answer;
use crate::tables;
use crate::tables::TableDef;
use crate::value;

verus! {

// ---- Requests ----
/// Whether two definitions show the same.
pub open spec fn same_definition(a: TableDef, b: TableDef) -> bool {
    &&& a.name@ == b.name@
    &&& a.columns@.len() == b.columns@.len()
    &&& forall|k: int|
        0 <= k < a.columns@.len() ==> {
            &&& (#[trigger] a.columns@[k]).name@ == b.columns@[k].name@
            &&& a.columns@[k].data_type == b.columns@[k].data_type
        }
}

/// Whether two lots of rows hold the same, under the same names, and are shown as the same objects.
pub open spec fn same_rows(a: RowIter<'_, Vec<String>>, b: RowIter<'_, Vec<String>>) -> bool {
    &&& fdb::rows_view(a.rows@) == fdb::rows_view(b.rows@)
    &&& rows::texts_view(a.to_cols@) == rows::texts_view(b.to_cols@)
    &&& a.objects_view() == b.objects_view()
}

/// Whether two answers have the same outcome.
pub open spec fn same_answer(a: Answer<'_, '_>, b: Answer<'_, '_>) -> bool {
    match (a, b) {
        (Answer::Reply(x), Answer::Reply(y)) => {
            &&& x.status == y.status
            &&& x.body@ == y.body@
            &&& response::headers_view(x.headers@) == response::headers_view(y.headers@)
        },
        (Answer::Failed(x), Answer::Failed(y)) => x == y,
        (Answer::Definition(x), Answer::Definition(y)) => same_definition(x, y),
        (Answer::Rows(x), Answer::Rows(y)) => same_rows(x, y),
        (Answer::Locale(x), Answer::Locale(y)) => x@ == y@,
        (Answer::OpenApi, Answer::OpenApi) => true,
        _ => false,
    }
}

/// Whether the tables are in order for the search that a request with this route makes, if any.
pub open spec fn request_in_order(f: Seq<u8>, found: Option<ApiRouteView>) -> bool {
    found matches Some(r) ==> (service_laws::table_of(r) matches Some(name)
        ==> tables_laws::in_order(f, name))
}

proof fn lemma_same_rows(a: RowIter<'_, Vec<String>>, b: RowIter<'_, Vec<String>>)
    requires
        fdb::rows_view(a.rows@) == fdb::rows_view(b.rows@),
        rows::texts_view(a.to_cols@) == rows::texts_view(b.to_cols@),
    ensures
        same_rows(a, b),
{
    assert(a.objects_view() =~= b.objects_view());
}

/// Two requests for one path, with one key, have the same outcome.
pub proof fn one_path_one_answer(
    f: Seq<u8>,
    path: Seq<char>,
    float: Option<u32>,
    a: Answer<'_, '_>,
    b: Answer<'_, '_>,
)
    requires
        request_in_order(f, route::route(path)),
        service::answered(f, route::route(path), float, a),
        service::answered(f, route::route(path), float, b),
    ensures
        same_answer(a, b),
{
    one_route_one_answer(f, route::route(path), float, float, a, b);
}

/// Two requests whose paths stand for the same route have the same outcome. What a key is as an
/// IEEE number matters only where the route has a key.
pub proof fn one_route_one_answer(
    f: Seq<u8>,
    found: Option<ApiRouteView>,
    x: Option<u32>,
    y: Option<u32>,
    a: Answer<'_, '_>,
    b: Answer<'_, '_>,
)
    requires
        request_in_order(f, found),
        found matches Some(ApiRouteView::TableRowsByPK(_, _)) ==> x == y,
        service::answered(f, found, x, a),
        service::answered(f, found, y, b),
    ensures
        same_answer(a, b),
{
    if a is Rows && b is Rows {
        let (p, q) = (a->Rows_0, b->Rows_0);
        assert(fdb::rows_view(p.rows@) == fdb::rows_view(q.rows@) && rows::texts_view(p.to_cols@)
            == rows::texts_view(q.to_cols@));
        lemma_same_rows(p, q);
    }
}

/// A request for the definition of a table has the same outcome with `def` and without, and one for
/// the list of tables the same under both versions.
pub proof fn paths_that_answer_alike(
    f: Seq<u8>,
    name: Seq<char>,
    x: Option<u32>,
    y: Option<u32>,
    a: Answer<'_, '_>,
    b: Answer<'_, '_>,
)
    requires
        paths::slash_free(name),
    ensures
        tables_laws::in_order(f, name) && service::answered(
            f,
            route::route("/v0/tables/"@ + name),
            x,
            a,
        ) && service::answered(f, route::route("/v0/tables/"@ + name + "/def"@), y, b)
            ==> same_answer(a, b),
        service::answered(f, route::route("/v0/tables"@), x, a) && service::answered(
            f,
            route::route("/v1/tables"@),
            y,
            b,
        ) ==> same_answer(a, b),
{
    paths::paths_of_tables(name, seq![]);
    let def = Some(ApiRouteView::TableByName(name));
    let list = Some(ApiRouteView::Tables);
    if tables_laws::in_order(f, name) && service::answered(f, def, x, a) && service::answered(
        f,
        def,
        y,
        b,
    ) {
        one_route_one_answer(f, def, x, y, a, b);
    }
    if service::answered(f, list, x, a) && service::answered(f, list, y, b) {
        one_route_one_answer(f, list, x, y, a, b);
    }
}

// ---- Calls about one table ----
/// The definition, all rows and the rows by key of a table agree on errors and on what is missing.
pub proof fn calls_agree(
    f: Seq<u8>,
    name: Seq<char>,
    key: Seq<char>,
    float: Option<u32>,
    all: Result<Option<RowIter<'_, Vec<String>>>, CastError>,
    def: Result<Option<TableDef>, CastError>,
    keyed: Result<Option<RowIter<'_, Vec<String>>>, CastError>,
)
    requires
        tables_laws::in_order(f, name),
        tables::finds_rows(f, name, all),
        tables::finds_definition(f, name, def),
        tables::finds_keyed(f, name, key, float, keyed),
    ensures
        all is Err <==> def is Err,
        all is Err <==> keyed is Err,
        all is Err ==> all->Err_0 == def->Err_0 && all->Err_0 == keyed->Err_0,
        all matches Ok(None) <==> def matches Ok(None),
        all matches Ok(None) ==> keyed matches Ok(None),
{
}

/// A query for all columns of a table shows what all its rows show.
pub proof fn query_for_all_shows_all(
    f: Seq<u8>,
    name: Seq<char>,
    wanted: &Vec<String>,
    all: RowIter<'_, Vec<String>>,
    queried: Result<Option<RowIter<'_, PartialColValIterSpec>>, CastError>,
)
    requires
        tables_laws::in_order(f, name),
        tables::finds_rows(f, name, Ok(Some(all))),
        tables::finds_query(f, name, Some(wanted), queried),
        forall|k: int|
            0 <= k < all.to_cols@.len() ==> rows::texts_view(wanted@).contains(
                (#[trigger] all.to_cols@[k])@,
            ),
    ensures
        queried matches Ok(Some(x)) && x.objects_view() == all.objects_view(),
{
    assert(queried is Ok && queried->Ok_0 is Some);
    let x = queried->Ok_0->0;
    let names = rows::texts_view(all.to_cols@);
    let texts = rows::texts_view(wanted@);
    assert(fdb::rows_view(x.rows@) == fdb::rows_view(all.rows@));
    assert(rows::texts_view(x.to_cols.names@) == names);
    assert(x.to_cols.indices@ == tables::chosen(names, texts, names.len() as int));
    assert(names.len() == all.to_cols.len());
    assert forall|k: int| 0 <= k < names.len() implies texts.contains(#[trigger] names[k]) by {
        assert(names[k] == all.to_cols@[k]@);
    }
    assert forall|i: int| 0 <= i < x.objects_view().len() implies x.objects_view()[i]
        == all.objects_view()[i] by {
        rows_laws::query_for_all(names, texts, fdb::rows_view(x.rows@)[i]);
    }
    assert(x.objects_view() =~= all.objects_view());
}

/// Whether two lists of wanted names hold the same names of columns.
pub open spec fn same_wanted(
    names: Seq<Seq<char>>,
    v: Seq<Seq<char>>,
    w: Seq<Seq<char>>,
) -> bool {
    forall|k: int| 0 <= k < names.len() ==> v.contains(#[trigger] names[k]) == w.contains(names[k])
}

proof fn lemma_chosen_same(
    names: Seq<Seq<char>>,
    v: Seq<Seq<char>>,
    w: Seq<Seq<char>>,
    n: int,
)
    requires
        n <= names.len(),
        same_wanted(names, v, w),
    ensures
        tables::chosen(names, v, n) == tables::chosen(names, w, n),
    decreases n,
{
    if n > 0 {
        lemma_chosen_same(names, v, w, n - 1);
        assert(v.contains(names[n - 1]) == w.contains(names[n - 1]));
    }
}

/// Two queries on a table that want the same of its columns, in whatever order and with whatever
/// other names, have the same outcome.
pub proof fn other_names_do_not_matter(
    f: Seq<u8>,
    name: Seq<char>,
    v: &Vec<String>,
    w: &Vec<String>,
    a: Result<Option<RowIter<'_, PartialColValIterSpec>>, CastError>,
    b: Result<Option<RowIter<'_, PartialColValIterSpec>>, CastError>,
)
    requires
        tables_laws::in_order(f, name),
        tables::finds_query(f, name, Some(v), a),
        tables::finds_query(f, name, Some(w), b),
        a matches Ok(Some(x)) ==> same_wanted(
            rows::texts_view(x.to_cols.names@),
            rows::texts_view(v@),
            rows::texts_view(w@),
        ),
    ensures
        match (a, b) {
            (Ok(Some(x)), Ok(Some(y))) => x.objects_view() == y.objects_view(),
            (Ok(None), Ok(None)) => true,
            (Err(d), Err(e)) => d == e,
            _ => false,
        },
{
    if a is Ok && a->Ok_0 is Some {
        assert(b is Ok && b->Ok_0 is Some);
        let x = a->Ok_0->0;
        let y = b->Ok_0->0;
        let names = rows::texts_view(x.to_cols.names@);
        assert(fdb::rows_view(x.rows@) == fdb::rows_view(y.rows@));
        assert(rows::texts_view(y.to_cols.names@) == names);
        lemma_chosen_same(
            names,
            rows::texts_view(v@),
            rows::texts_view(w@),
            names.len() as int,
        );
        assert(x.to_cols.indices@ == y.to_cols.indices@);
        assert(x.objects_view() =~= y.objects_view());
    }
}

/// A query shows as many objects as the table has rows. Where it wants none of the columns, each
/// of them is empty.
pub proof fn queries_keep_the_rows(
    f: Seq<u8>,
    name: Seq<char>,
    wanted: &Vec<String>,
    all: RowIter<'_, Vec<String>>,
    queried: Result<Option<RowIter<'_, PartialColValIterSpec>>, CastError>,
)
    requires
        tables_laws::in_order(f, name),
        tables::finds_rows(f, name, Ok(Some(all))),
        tables::finds_query(f, name, Some(wanted), queried),
    ensures
        queried matches Ok(Some(x)) && x.objects_view().len() == all.objects_view().len() && (
        (forall|k: int|
            0 <= k < all.to_cols@.len() ==> !rows::texts_view(wanted@).contains(
                (#[trigger] all.to_cols@[k])@,
            )) ==> forall|i: int|
            0 <= i < x.objects_view().len() ==> (#[trigger] x.objects_view()[i]).len() == 0),
{
    assert(queried is Ok && queried->Ok_0 is Some);
    let x = queried->Ok_0->0;
    let names = rows::texts_view(all.to_cols@);
    let texts = rows::texts_view(wanted@);
    assert(fdb::rows_view(x.rows@) == fdb::rows_view(all.rows@));
    assert(fdb::rows_view(x.rows@).len() == fdb::rows_view(all.rows@).len());
    assert(rows::texts_view(x.to_cols.names@) == names);
    if forall|k: int|
        0 <= k < all.to_cols@.len() ==> !texts.contains((#[trigger] all.to_cols@[k])@) {
        assert forall|k: int| 0 <= k < names.len() implies !texts.contains(
            #[trigger] names[k],
        ) by {
            assert(names[k] == all.to_cols@[k]@);
        }
        lemma_chosen_none(names, texts, names.len() as int);
        assert(x.to_cols.indices@.len() == 0);
        assert forall|i: int| 0 <= i < x.objects_view().len() implies (
        #[trigger] x.objects_view()[i]).len() == 0 by {
            assert(x.to_cols.pairs(fdb::rows_view(x.rows@)[i]).len() == 0);
        }
    }
}

proof fn lemma_chosen_none(names: Seq<Seq<char>>, wanted: Seq<Seq<char>>, n: int)
    requires
        n <= names.len(),
        forall|k: int| 0 <= k < names.len() ==> !wanted.contains(#[trigger] names[k]),
    ensures
        tables::chosen(names, wanted, n).len() == 0,
    decreases n,
{
    if n > 0 {
        lemma_chosen_none(names, wanted, n - 1);
        assert(!wanted.contains(names[n - 1]));
    }
}

/// Where every row is in the bucket of its key, the rows by key are those of all rows whose key is
/// equal: all of them and no others, in the same order and with all columns. Left out are tables
/// where a row with the other zero among IEEE numbers is in another bucket.
pub proof fn rows_by_key_are_all_with_that_key(
    f: Seq<u8>,
    name: Seq<char>,
    i: int,
    key: Seq<char>,
    float: Option<u32>,
    all: RowIter<'_, Vec<String>>,
    keyed: Result<Option<RowIter<'_, Vec<String>>>, CastError>,
)
    requires
        tables_laws::in_order(f, name),
        file::search_ends(f, utf8::encode_utf8(name), Some(i)),
        tables::finds_rows(f, name, Ok(Some(all))),
        tables::finds_keyed(f, name, key, float, keyed),
        ({
            let t = file::table_at(f, file::table_header(f, i));
            &&& tables_laws::well_hashed(t)
            &&& t.chains.len() > 0
            &&& value::parsed(key, tables::key_type(t), float) matches Some(gate)
                ==> tables_laws::zeros_together(t, gate)
        }),
    ensures
        ({
            let t = file::table_at(f, file::table_header(f, i));
            match value::parsed(key, tables::key_type(t), float) {
                None => keyed matches Ok(None),
                Some(gate) => {
                    &&& keyed matches Ok(Some(x))
                    &&& fdb::rows_view(x.rows@) == rows::matching(fdb::rows_view(all.rows@), gate)
                    &&& rows::texts_view(x.to_cols@) == rows::texts_view(all.to_cols@)
                    &&& x.objects_view() == rows::matching(
                        fdb::rows_view(all.rows@),
                        gate,
                    ).map_values(|cells: Cells| rows::object_of(all.to_cols.pairs(cells)))
                },
            }
        }),
{
    let t = file::table_at(f, file::table_header(f, i));
    tables_laws::key_search_is_complete(t, key, float);
    assert(tables::gives_rows(t, Some(all)));
    assert(keyed is Ok && tables::gives_keyed(t, key, float, keyed->Ok_0));
    if let Some(gate) = value::parsed(key, tables::key_type(t), float) {
        let x = keyed->Ok_0->0;
        assert(x.objects_view() =~= rows::matching(fdb::rows_view(all.rows@), gate).map_values(
            |cells: Cells| rows::object_of(all.to_cols.pairs(cells)),
        ));
    }
}

} // verus!
