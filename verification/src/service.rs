//! The service: from a request path to what is sent back.
use vstd::prelude::*;

use crate::damage;
use crate::damage::Part;
use crate::fdb;
use crate::fdb::Database;
use crate::file::{CastError, Cells, TableView};
use crate::json;
use crate::path::Parts;
use crate::reply;
use crate::response;
use crate::response::{ErrorKind, IoError, Response};
use crate::route;
use crate::route::{ApiRoute, ApiRouteView};
use crate::rows;
use crate::rows::{AsColValIter, PartialColValIterSpec, RowIter};
use crate::tables;
use crate::tables::TableDef;
use crate::value;
use crate::value::ValueType;

verus! {

/// The service, with the database that it shows, the root of the locale tree and the description
/// of the API.
#[derive(Clone)]
pub struct ApiService<'a, L, O> {
    /// The database.
    pub db: Database<'a>,
    /// The root of the locale tree.
    pub locale_root: L,
    /// The description of the API.
    pub openapi: O,
}

/// What the service does about a request: it sends a response, it fails, or it sends something
/// once that is written as JSON, by [`response::reply_json`].
pub enum Answer<'a, 'r> {
    /// The response is complete.
    Reply(Response),
    /// The database file is broken.
    Failed(IoError<CastError>),
    /// The definition of a table is to be sent.
    Definition(TableDef),
    /// Rows of a table are to be sent.
    Rows(RowIter<'a, Vec<String>>),
    /// The node of the locale tree that these parts lead to is to be sent.
    Locale(Parts<'r>),
    /// The description of the API is to be sent.
    OpenApi,
}

/// What is sent of a node of the locale tree.
#[derive(Clone, Copy, Debug, PartialEq, Eq, Structural)]
pub enum Mode {
    /// The node with all that is below it.
    All,
    /// The node alone.
    Pod,
}

/// What the service does about a request for a node of the locale tree.
pub enum LocaleAnswer<N> {
    /// The node with all that is below it is to be sent.
    All(N),
    /// The node alone is to be sent.
    Pod(N),
    /// The response is complete.
    Reply(Response),
}

/// Whether the answer is the response for what is not there.
pub open spec fn answers_null(a: Answer<'_, '_>) -> bool {
    a matches Answer::Reply(r) && response::is_json(r, reply::NOT_FOUND, "null"@)
}

/// Whether the answer is the failure that this error causes.
pub open spec fn answers_error(a: Answer<'_, '_>, e: CastError) -> bool {
    a matches Answer::Failed(error) && error.kind == ErrorKind::Other && error.error == e
}

/// Whether `a` is the answer where `v` is what was read of the database: the rows, the response
/// for what is not there, or a failure.
pub open spec fn answers_rows<'a>(
    a: Answer<'a, '_>,
    v: Result<Option<RowIter<'a, Vec<String>>>, CastError>,
) -> bool {
    match v {
        Ok(Some(iter)) => a matches Answer::Rows(x) && x == iter,
        Ok(None) => answers_null(a),
        Err(e) => answers_error(a, e),
    }
}

/// Whether `a` is the answer where `v` is what was read of the database: the definition, the
/// response for what is not there, or a failure.
pub open spec fn answers_definition(
    a: Answer<'_, '_>,
    v: Result<Option<TableDef>, CastError>,
) -> bool {
    match v {
        Ok(Some(def)) => a matches Answer::Definition(x) && x == def,
        Ok(None) => answers_null(a),
        Err(e) => answers_error(a, e),
    }
}

/// Whether all that a request with this route looks at stays within the file.
pub open spec fn answerable(
    f: Seq<u8>,
    found: Option<ApiRouteView>,
    float: Option<u32>,
) -> bool {
    match found {
        Some(ApiRouteView::Tables) => tables::listable(f),
        Some(ApiRouteView::TableByName(name)) => tables::findable(f, name)
            && tables::each_candidate(f, name, |t: TableView| tables::columns_readable(t)),
        Some(ApiRouteView::AllTableRows(name)) => tables::findable(f, name)
            && tables::each_candidate(
            f,
            name,
            |t: TableView| tables::columns_readable(t) && tables::rows_readable(t),
        ),
        Some(ApiRouteView::TableRowsByPK(name, key)) => tables::findable(f, name)
            && tables::each_candidate(f, name, |t: TableView| tables::key_readable(t, key, float)),
        _ => true,
    }
}

/// Whether nothing that the answer to a request with this route shows is damaged, nor anything
/// that is looked at on the way.
pub open spec fn intact(f: Seq<u8>, found: Option<ApiRouteView>, float: Option<u32>) -> bool {
    match found {
        Some(ApiRouteView::Tables) => tables::listable(f),
        Some(ApiRouteView::TableByName(name)) => tables::findable(f, name)
            && tables::each_candidate(f, name, |t: TableView| tables::columns_readable(t)),
        Some(ApiRouteView::AllTableRows(name)) => tables::findable(f, name)
            && tables::each_candidate(f, name, |t: TableView| damage::table_shown(t)),
        Some(ApiRouteView::TableRowsByPK(name, key)) => tables::findable(f, name)
            && tables::each_candidate(f, name, |t: TableView| damage::key_shown(t, key, float)),
        _ => true,
    }
}

/// Whether `a` is the answer to a request with this route.
pub open spec fn answered<'a>(
    f: Seq<u8>,
    found: Option<ApiRouteView>,
    float: Option<u32>,
    a: Answer<'a, '_>,
) -> bool {
    match found {
        None => a matches Answer::Reply(r) && response::is_json(r, reply::NOT_FOUND, "404"@),
        Some(ApiRouteView::Tables) => match tables::listing(f) {
            Ok(names) => {
                &&& a matches Answer::Reply(r)
                &&& response::is_json(r, reply::OK, json::quoted_list(names))
                &&& tables::lists(f, names)
            },
            Err(e) => answers_error(a, e),
        },
        Some(ApiRouteView::TableByName(name)) => exists|v: Result<Option<TableDef>, CastError>|
            #[trigger]
            answers_definition(a, v) && tables::finds_definition(f, name, v),
        Some(ApiRouteView::AllTableRows(name)) => exists|
            v: Result<Option<RowIter<'a, Vec<String>>>, CastError>,
        | #[trigger]
            answers_rows(a, v) && tables::finds_rows(f, name, v),
        Some(ApiRouteView::TableRowsByPK(name, key)) => exists|
            v: Result<Option<RowIter<'a, Vec<String>>>, CastError>,
        | #[trigger]
            answers_rows(a, v) && tables::finds_keyed(f, name, key, float, v),
        Some(ApiRouteView::Locale(rest)) => a matches Answer::Locale(parts) && parts@ == rest,
        Some(ApiRouteView::OpenApiV0) => a is OpenApi,
    }
}

/// What a query looks at: the type of the key, and the wanted columns where the query could be read.
pub open spec fn query_part(wanted: Option<&Vec<String>>) -> Part<'_> {
    match wanted {
        None => Part::KeyType,
        Some(wanted) => Part::Query(wanted),
    }
}

/// What was read of the database, or the I/O error that a broken file causes.
pub fn db_api<T>(v: Result<T, CastError>) -> (r: Result<T, IoError<CastError>>)
    ensures
        match v {
            Ok(x) => r matches Ok(y) && y == x,
            Err(e) => r matches Err(error) && error.kind == ErrorKind::Other && error.error == e,
        },
{
    match v {
        Ok(x) => Ok(x),
        Err(e) => Err(response::into_other_io_error(e)),
    }
}

/// The response for what is not in the database: `null`.
fn null_response() -> (r: Response)
    ensures
        response::is_json(r, reply::NOT_FOUND, "null"@),
{
    response::reply_json_string("null".to_owned())
}

fn answer_rows<'a, 'r>(v: Result<Option<RowIter<'a, Vec<String>>>, CastError>) -> (a: Answer<
    'a,
    'r,
>)
    ensures
        answers_rows(a, v),
{
    match db_api(v) {
        Ok(Some(iter)) => Answer::Rows(iter),
        Ok(None) => Answer::Reply(null_response()),
        Err(e) => Answer::Failed(e),
    }
}

fn answer_definition<'a, 'r>(v: Result<Option<TableDef>, CastError>) -> (a: Answer<'a, 'r>)
    ensures
        answers_definition(a, v),
{
    match db_api(v) {
        Ok(Some(def)) => Answer::Definition(def),
        Ok(None) => Answer::Reply(null_response()),
        Err(e) => Answer::Failed(e),
    }
}

impl<'a, L, O> ApiService<'a, L, O> {
    /// The service that shows these.
    pub fn new(db: Database<'a>, locale_root: L, openapi: O) -> (service: Self)
        ensures
            service.db == db,
            service.locale_root == locale_root,
            service.openapi == openapi,
    {
        ApiService { db, locale_root, openapi }
    }

    /// What is sent of a node of the locale tree, where the path leads to one.
    pub fn locale<N>(selected: Option<(N, Mode)>) -> (a: LocaleAnswer<N>)
        ensures
            match selected {
                Some((node, Mode::All)) => a matches LocaleAnswer::All(n) && n == node,
                Some((node, Mode::Pod)) => a matches LocaleAnswer::Pod(n) && n == node,
                None => a matches LocaleAnswer::Reply(r) && response::is_json(
                    r,
                    reply::NOT_FOUND,
                    "404"@,
                ),
            },
    {
        match selected {
            Some((node, Mode::All)) => LocaleAnswer::All(node),
            Some((node, Mode::Pod)) => LocaleAnswer::Pod(node),
            None => LocaleAnswer::Reply(response::reply_404()),
        }
    }

    /// The answer to a request for `path`.
    ///
    /// `float` holds the bits of the key in `path`, as [`route::key_text`] gives it, read as a 32-bit
    /// IEEE number, or nothing where there is no key or it is no such number.
    pub fn call<'r>(&self, path: &'r str, float: Option<u32>) -> (a: Answer<'a, 'r>)
        requires
            answerable(self.db@, route::route(path@), float),
        ensures
            answered(self.db@, route::route(path@), float, a),
    {
        match ApiRoute::from_str(path) {
            Err(_) => Answer::Reply(response::reply_404()),
            Ok(ApiRoute::Tables) => match db_api(tables::tables_json(self.db)) {
                Err(e) => Answer::Failed(e),
                Ok(names) => {
                    let body: String = json::json_list(&names);
                    proof {
                        reveal_strlit("null");
                        assert(body@[0] == '[');
                    }
                    Answer::Reply(response::reply_json_string(body))
                },
            },
            Ok(ApiRoute::TableByName(name)) => {
                answer_definition(tables::table_def_json(self.db, name))
            },
            Ok(ApiRoute::AllTableRows(name)) => answer_rows(tables::table_all_get(self.db, name)),
            Ok(ApiRoute::TableRowsByPK(name, key)) => {
                answer_rows(tables::table_key_json(self.db, name, key, float))
            },
            Ok(ApiRoute::Locale(rest)) => Answer::Locale(rest),
            Ok(ApiRoute::OpenApiV0) => Answer::OpenApi,
        }
    }

    /// The answer to a request for `path`, where nothing that is looked at on the way is damaged.
    /// Rows in it can be shown.
    pub fn try_call<'r>(&self, path: &'r str, float: Option<u32>) -> (a: Option<Answer<'a, 'r>>)
        ensures
            a is Some <==> intact(self.db@, route::route(path@), float),
            a matches Some(x) ==> answered(self.db@, route::route(path@), float, x),
            a matches Some(Answer::Rows(iter)) ==> iter.readable(),
    {
        let ghost f = self.db@;
        let ghost found = route::route(path@);
        let ok: bool = match ApiRoute::from_str(path) {
            Ok(ApiRoute::Tables) => damage::listable(self.db),
            Ok(ApiRoute::TableByName(name)) => damage::is_sound(self.db, name, Part::Definition),
            Ok(ApiRoute::AllTableRows(name)) => damage::is_sound(self.db, name, Part::Rows),
            Ok(ApiRoute::TableRowsByPK(name, key)) => {
                damage::is_sound(self.db, name, Part::Key(key, float))
            },
            _ => true,
        };
        assert(ok == intact(f, found, float));
        if !ok {
            return None;
        }
        proof {
            lemma_intact(f, found, float);
        }
        let a: Answer<'a, 'r> = self.call(path, float);
        proof {
            if a is Rows {
                lemma_answer_readable(f, found, float, a, a->Rows_0);
            }
        }
        Some(a)
    }

    /// The type of the primary key of the table `name`, where nothing that is looked at for it is
    /// damaged.
    pub fn query_type(&self, name: &str) -> (r: Option<Result<Option<ValueType>, CastError>>)
        ensures
            r is Some <==> damage::sound(self.db@, name@, Part::KeyType),
            r matches Some(v) ==> tables::finds_key_type(self.db@, name@, v),
    {
        if damage::is_sound(self.db, name, Part::KeyType) {
            Some(tables::table_key_type(self.db, name))
        } else {
            None
        }
    }

    /// The wanted columns of all rows of the table `name`, where nothing that a query looks at is
    /// damaged. The rows can be shown.
    pub fn query(&self, name: &str, wanted: Option<&Vec<String>>) -> (r: Option<
        Result<Option<RowIter<'a, PartialColValIterSpec>>, CastError>,
    >)
        ensures
            r is Some <==> damage::sound(self.db@, name@, query_part(wanted)),
            r matches Some(v) ==> tables::finds_query(self.db@, name@, wanted, v),
            r matches Some(Ok(Some(iter))) ==> iter.readable(),
    {
        let part: Part<'_> = match wanted {
            None => Part::KeyType,
            Some(wanted) => Part::Query(wanted),
        };
        if !damage::is_sound(self.db, name, part) {
            return None;
        }
        proof {
            assert forall|t: TableView, choice: Seq<bool>| #[trigger]
                damage::rows_shown(t, choice) implies tables::rows_readable(t) by {
                lemma_rows_shown(t, choice);
            }
        }
        let v: Result<Option<RowIter<'a, PartialColValIterSpec>>, CastError> =
            tables::table_all_query(self.db, name, wanted);
        proof {
            assert forall|t: TableView, iter: RowIter<'a, PartialColValIterSpec>|
                damage::part_sound(part, t) && #[trigger] tables::gives_query(
                    t,
                    wanted,
                    Some(iter),
                ) implies iter.readable() by {
                lemma_query_readable(t, wanted->0, iter);
            }
        }
        Some(v)
    }
}

proof fn lemma_rows_shown(t: TableView, choice: Seq<bool>)
    requires
        damage::rows_shown(t, choice),
    ensures
        tables::rows_readable(t),
{
    assert forall|j: int| 0 <= j < t.chains.len() implies #[trigger] t.chains[j] is Some by {
        assert(damage::chain_shown(t.chains[j], choice, None));
    }
}

proof fn lemma_key_shown(t: TableView, key: Seq<char>, float: Option<u32>)
    requires
        damage::key_shown(t, key, float),
    ensures
        tables::key_readable(t, key, float),
{
    if let Some(gate) = value::parsed(key, tables::key_type(t), float) {
        let chain = t.chains[tables::bucket_of(gate, t.chains.len() as int)]->0;
        let choice = damage::all_columns(t.columns.len());
        assert forall|i: int| 0 <= i < chain.len() implies rows::has_key(#[trigger] chain[i]) by {
            assert(damage::row_shown(chain[i], choice, Some(gate)));
        }
    }
}

proof fn lemma_intact(f: Seq<u8>, found: Option<ApiRouteView>, float: Option<u32>)
    requires
        intact(f, found, float),
    ensures
        answerable(f, found, float),
{
    assert forall|t: TableView, choice: Seq<bool>| #[trigger]
        damage::rows_shown(t, choice) implies tables::rows_readable(t) by {
        lemma_rows_shown(t, choice);
    }
    assert forall|t: TableView, key: Seq<char>| #[trigger]
        damage::key_shown(t, key, float) implies tables::key_readable(t, key, float) by {
        lemma_key_shown(t, key, float);
    }
}

/// What holds of the rows of every bucket holds of all rows.
proof fn lemma_all_rows(chains: Seq<Option<Seq<Cells>>>, choice: Seq<bool>)
    requires
        forall|j: int|
            0 <= j < chains.len() ==> damage::chain_shown(#[trigger] chains[j], choice, None),
    ensures
        forall|i: int|
            0 <= i < fdb::all_rows(chains).len() ==> damage::cells_shown(
                #[trigger] fdb::all_rows(chains)[i],
                choice,
            ),
    decreases chains.len(),
{
    if chains.len() > 0 {
        let init = chains.drop_last();
        let last = chains.last()->0;
        assert forall|j: int| 0 <= j < init.len() implies damage::chain_shown(
            #[trigger] init[j],
            choice,
            None,
        ) by {
            assert(init[j] == chains[j]);
        }
        lemma_all_rows(init, choice);
        assert(damage::chain_shown(chains[chains.len() - 1], choice, None));
        assert forall|i: int| 0 <= i < fdb::all_rows(chains).len() implies damage::cells_shown(
            #[trigger] fdb::all_rows(chains)[i],
            choice,
        ) by {
            let before = fdb::all_rows(init);
            if i < before.len() {
                assert(fdb::all_rows(chains)[i] == before[i]);
            } else {
                assert(fdb::all_rows(chains)[i] == last[i - before.len()]);
                assert(damage::row_shown(last[i - before.len()], choice, None));
            }
        }
    }
}

proof fn lemma_rows_readable(iter: RowIter<'_, Vec<String>>, n: nat)
    requires
        iter.to_cols@.len() == n,
        forall|i: int|
            0 <= i < iter.rows@.len() ==> damage::cells_shown(
                #[trigger] fdb::rows_view(iter.rows@)[i],
                damage::all_columns(n),
            ),
    ensures
        iter.readable(),
{
    assert forall|i: int| 0 <= i < iter.rows@.len() implies iter.to_cols.readable(
        fdb::row_cells(#[trigger] iter.rows@[i]),
    ) by {
        assert(damage::cells_shown(fdb::rows_view(iter.rows@)[i], damage::all_columns(n)));
    }
}

proof fn lemma_table_readable(t: TableView, iter: RowIter<'_, Vec<String>>)
    requires
        damage::table_shown(t),
        tables::gives_rows(t, Some(iter)),
    ensures
        iter.readable(),
{
    lemma_all_rows(t.chains, damage::all_columns(t.columns.len()));
    assert(rows::texts_view(iter.to_cols@).len() == tables::names_of(t).len());
    lemma_rows_readable(iter, t.columns.len());
}

proof fn lemma_key_readable(
    t: TableView,
    key: Seq<char>,
    float: Option<u32>,
    iter: RowIter<'_, Vec<String>>,
)
    requires
        damage::key_shown(t, key, float),
        tables::gives_keyed(t, key, float, Some(iter)),
    ensures
        iter.readable(),
{
    let choice = damage::all_columns(t.columns.len());
    let gate = value::parsed(key, tables::key_type(t), float)->0;
    let bucket = t.chains[tables::bucket_of(gate, t.chains.len() as int)]->0;
    assert forall|i: int|
        0 <= i < bucket.len() && value::field_eq(
            gate,
            (#[trigger] bucket[i])[0]->0,
        ) implies damage::cells_shown(bucket[i], choice) by {
        assert(damage::row_shown(bucket[i], choice, Some(gate)));
    }
    rows::lemma_matching_all(bucket, gate, |cells: Cells| damage::cells_shown(cells, choice));
    assert(rows::texts_view(iter.to_cols@).len() == tables::names_of(t).len());
    lemma_rows_readable(iter, t.columns.len());
}

proof fn lemma_query_readable(
    t: TableView,
    wanted: &Vec<String>,
    iter: RowIter<'_, PartialColValIterSpec>,
)
    requires
        damage::query_shown(t, rows::texts_view(wanted@)),
        tables::gives_query(t, Some(wanted), Some(iter)),
    ensures
        iter.readable(),
{
    let n = t.columns.len() as int;
    let names = tables::names_of(t);
    let wanted_names = rows::texts_view(wanted@);
    let choice = damage::wanted_columns(t, wanted_names);
    lemma_all_rows(t.chains, choice);
    assert(rows::texts_view(iter.to_cols.names@).len() == iter.to_cols.names.len());
    tables::lemma_chosen_bounded(names, wanted_names, n);
    assert forall|i: int| 0 <= i < iter.rows@.len() implies iter.to_cols.readable(
        fdb::row_cells(#[trigger] iter.rows@[i]),
    ) by {
        assert(damage::cells_shown(fdb::rows_view(iter.rows@)[i], choice));
        lemma_pickable(iter.to_cols.indices@, names, choice, fdb::row_cells(iter.rows@[i]));
    }
}

proof fn lemma_pickable(
    indices: Seq<usize>,
    names: Seq<Seq<char>>,
    choice: Seq<bool>,
    cells: Cells,
)
    requires
        choice.len() == names.len(),
        forall|k: int|
            0 <= k < indices.len() ==> #[trigger] indices[k] < names.len()
                && choice[indices[k] as int],
        damage::cells_shown(cells, choice),
    ensures
        rows::pickable(indices, names, cells),
    decreases indices.len(),
{
    if indices.len() > 0 {
        lemma_pickable(indices.drop_first(), names, choice, cells);
    }
}

proof fn lemma_answer_readable<'a>(
    f: Seq<u8>,
    found: Option<ApiRouteView>,
    float: Option<u32>,
    a: Answer<'a, '_>,
    iter: RowIter<'a, Vec<String>>,
)
    requires
        intact(f, found, float),
        answered(f, found, float, a),
        a == Answer::Rows(iter),
    ensures
        iter.readable(),
{
    match found {
        Some(ApiRouteView::AllTableRows(name)) => {
            assert forall|t: TableView|
                damage::table_shown(t) && #[trigger] tables::gives_rows(
                    t,
                    Some(iter),
                ) implies iter.readable() by {
                lemma_table_readable(t, iter);
            }
        },
        Some(ApiRouteView::TableRowsByPK(name, key)) => {
            assert forall|t: TableView|
                damage::key_shown(t, key, float) && #[trigger] tables::gives_keyed(
                    t,
                    key,
                    float,
                    Some(iter),
                ) implies iter.readable() by {
                lemma_key_readable(t, key, float, iter);
            }
        },
        _ => {},
    }
}

} // verus!
