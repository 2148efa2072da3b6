//! What the API shows of the tables of a database.
use vstd::prelude::*;
use vstd::utf8;

use assembly_fdb::mem::{Row, Table, Tables};

use crate::fdb;
use crate::fdb::{Database, TableCol};
use crate::file;
use crate::file::{CastError, Cells, ColumnView, TableView};
use crate::path;
use crate::rows;
use crate::rows::{FilteredRowIter, PartialColValIterSpec, RowIter};
use crate::value;
use crate::value::{FastContext, Field, FieldView, ValueType};

verus! {

/// The definition of a table.
#[derive(Debug)]
pub struct TableDef {
    /// The name of the table.
    pub name: String,
    /// Its columns, in order.
    pub columns: Vec<TableCol>,
}

// ---- Parts of a table ----
/// Whether no column of a table is damaged.
pub open spec fn columns_readable(t: TableView) -> bool {
    forall|k: int| 0 <= k < t.columns.len() ==> #[trigger] t.columns[k] is Some
}

/// Whether no bucket of a table is damaged.
pub open spec fn rows_readable(t: TableView) -> bool {
    forall|j: int| 0 <= j < t.chains.len() ==> #[trigger] t.chains[j] is Some
}

/// Whether a table has a first column that is not damaged.
pub open spec fn has_key_column(t: TableView) -> bool {
    t.columns.len() > 0 && t.columns[0] is Some
}

/// The type of a table's first column, which holds the primary key.
pub open spec fn key_type(t: TableView) -> ValueType {
    (t.columns[0]->0).data_type
}

/// The names of a table's columns.
pub open spec fn names_of(t: TableView) -> Seq<Seq<char>> {
    t.columns.map_values(|c: Option<ColumnView>| file::latin1_decoded((c->0).label))
}

/// Whether `names` are the names of a table's columns, in order.
pub open spec fn gives_names(t: TableView, names: Seq<Seq<char>>) -> bool {
    &&& names == names_of(t)
    &&& forall|k: int|
        0 <= k < names.len() ==> file::reads_as((t.columns[k]->0).label, #[trigger] names[k])
}

/// Whether `x` is the definition of a table.
pub open spec fn gives_definition(t: TableView, x: Option<TableDef>) -> bool {
    &&& x matches Some(def)
    &&& file::reads_as(t.label, def.name@)
    &&& def.columns@.len() == t.columns.len()
    &&& forall|k: int|
        0 <= k < t.columns.len() ==> fdb::gives_column(t.columns[k]->0, #[trigger] def.columns@[k])
}

/// Whether `x` holds all rows of a table with all its columns.
pub open spec fn gives_rows(t: TableView, x: Option<RowIter<'_, Vec<String>>>) -> bool {
    &&& x matches Some(iter)
    &&& fdb::rows_view(iter.rows@) == fdb::all_rows(t.chains)
    &&& gives_names(t, rows::texts_view(iter.to_cols@))
}

/// The columns of a table, in order.
fn columns(table: &Table<'_>) -> (columns: Vec<TableCol>)
    requires
        columns_readable(fdb::table_view(*table)),
    ensures
        columns@.len() == fdb::table_columns(*table).len(),
        forall|k: int|
            0 <= k < columns@.len() ==> fdb::gives_column(
                fdb::table_columns(*table)[k]->0,
                #[trigger] columns@[k],
            ),
{
    let ghost all = fdb::table_columns(*table);
    let mut columns: Vec<TableCol> = Vec::new();
    let n: usize = fdb::table_column_count(table);
    for k in 0..n
        invariant
            n == all.len(),
            all == fdb::table_columns(*table),
            columns_readable(fdb::table_view(*table)),
            columns@.len() == k,
            forall|i: int| 0 <= i < k ==> fdb::gives_column(all[i]->0, #[trigger] columns@[i]),
    {
        assert(fdb::table_view(*table).columns[k as int] is Some);
        if let Some(column) = fdb::table_column(table, k) {
            columns.push(column);
        }
    }
    columns
}

/// The names of a table's columns, in order.
fn column_names(table: &Table<'_>) -> (names: Vec<String>)
    requires
        columns_readable(fdb::table_view(*table)),
    ensures
        gives_names(fdb::table_view(*table), rows::texts_view(names@)),
{
    let ghost all = fdb::table_columns(*table);
    let mut names: Vec<String> = Vec::new();
    let n: usize = fdb::table_column_count(table);
    for k in 0..n
        invariant
            n == all.len(),
            all == fdb::table_columns(*table),
            columns_readable(fdb::table_view(*table)),
            names@.len() == k,
            forall|i: int| 0 <= i < k ==> file::reads_as((all[i]->0).label, (#[trigger] names@[i])@),
    {
        assert(fdb::table_view(*table).columns[k as int] is Some);
        if let Some(column) = fdb::table_column(table, k) {
            names.push(column.name);
        }
    }
    assert(rows::texts_view(names@) =~= names_of(fdb::table_view(*table)));
    names
}

// ---- The list of tables ----
/// The first reason why one of the first `n` tables cannot be opened, if there is one.
pub open spec fn first_error(f: Seq<u8>, n: int) -> Option<CastError>
    decreases n,
{
    if n <= 0 {
        None
    } else {
        match first_error(f, n - 1) {
            Some(e) => Some(e),
            None => file::table_error(f, file::table_header(f, n - 1)),
        }
    }
}

/// The names of all tables of a file, or why they cannot be read.
pub open spec fn listing(f: Seq<u8>) -> Result<Seq<Seq<char>>, CastError> {
    match file::tables_error(f) {
        Some(e) => Err(e),
        None => match first_error(f, file::table_count(f)) {
            Some(e) => Err(e),
            None => Ok(
                Seq::new(
                    file::table_count(f) as nat,
                    |i: int| file::latin1_decoded(file::table_at(f, file::table_header(f, i)).label),
                ),
            ),
        },
    }
}

/// Whether `names` are what the names of all tables are read as.
pub open spec fn lists(f: Seq<u8>, names: Seq<Seq<char>>) -> bool {
    &&& listing(f) == Ok::<Seq<Seq<char>>, CastError>(names)
    &&& forall|i: int|
        0 <= i < names.len() ==> file::reads_as(
            file::table_at(f, file::table_header(f, i)).label,
            #[trigger] names[i],
        )
}

/// Whether reading the names of all tables stays within the file: each table before the first
/// one that cannot be opened, and that one, is [`file::openable`].
pub open spec fn listable(f: Seq<u8>) -> bool {
    &&& file::tables_countable(f)
    &&& file::tables_error(f) is None ==> forall|i: int|
        0 <= i < file::table_count(f) && first_error(f, i) is None ==> file::openable(
            f,
            #[trigger] file::table_header(f, i),
        )
}

/// The names of all tables, in the order of the file. Fails at the first table that cannot be
/// opened.
pub fn tables_json(db: Database<'_>) -> (r: Result<Vec<String>, CastError>)
    requires
        listable(db@),
    ensures
        match r {
            Ok(names) => {
                &&& lists(db@, rows::texts_view(names@))
                &&& names@.len() == file::table_count(db@)
                &&& forall|i: int|
                    0 <= i < file::table_count(db@) ==> file::reads_as(
                        file::table_at(db@, file::table_header(db@, i)).label,
                        (#[trigger] names@[i])@,
                    )
            },
            Err(e) => listing(db@) == Err::<Seq<Seq<char>>, CastError>(e),
        },
{
    let ghost f = db@;
    let tables: Tables<'_> = match fdb::tables(db) {
        Ok(tables) => tables,
        Err(e) => {
            return Err(e);
        },
    };
    let mut names: Vec<String> = Vec::new();
    let n: usize = fdb::tables_len(&tables);
    for i in 0..n
        invariant
            f == db@,
            f == fdb::tables_file(tables),
            n == file::table_count(f),
            listable(f),
            file::tables_error(f) is None,
            first_error(f, i as int) is None,
            names@.len() == i,
            forall|j: int|
                0 <= j < i ==> file::reads_as(
                    file::table_at(f, file::table_header(f, j)).label,
                    (#[trigger] names@[j])@,
                ),
    {
        match fdb::table_get(&tables, i) {
            None => {},
            Some(Err(e)) => {
                proof {
                    lemma_first_error(f, i + 1, n as int);
                }
                return Err(e);
            },
            Some(Ok(table)) => {
                names.push(fdb::table_name(&table));
            },
        }
    }
    assert(rows::texts_view(names@) =~= listing(f)->Ok_0);
    Ok(names)
}

/// An error among the first tables stays the first one.
pub(crate) proof fn lemma_first_error(f: Seq<u8>, m: int, n: int)
    requires
        m <= n,
        first_error(f, m) is Some,
    ensures
        first_error(f, n) == first_error(f, m),
    decreases n - m,
{
    if m < n {
        lemma_first_error(f, m, n - 1);
    }
}

// ---- The search for a table ----
/// Whether a search for the table `name` stays within the file.
pub open spec fn findable(f: Seq<u8>, name: Seq<char>) -> bool {
    &&& file::tables_countable(f)
    &&& file::tables_error(f) is None ==> file::searchable(f, utf8::encode_utf8(name))
}

/// Whether `ok` holds of every table that a search for `name` may end at.
pub open spec fn each_candidate(
    f: Seq<u8>,
    name: Seq<char>,
    ok: spec_fn(TableView) -> bool,
) -> bool {
    file::tables_error(f) is None ==> forall|i: int| #[trigger]
        file::candidate(f, utf8::encode_utf8(name), i) && file::table_error(
            f,
            file::table_header(f, i),
        ) is None ==> ok(file::table_at(f, file::table_header(f, i)))
}

/// Whether `r` is the outcome of a search for the table `name` where `ok` says what is made of the
/// table: the error of the file or of the table that the search ends at, nothing where it ends at
/// none, and otherwise what `ok` allows.
pub open spec fn lookup<T>(
    f: Seq<u8>,
    name: Seq<char>,
    r: Result<Option<T>, CastError>,
    ok: spec_fn(TableView, Option<T>) -> bool,
) -> bool {
    match file::tables_error(f) {
        Some(e) => r == Err::<Option<T>, CastError>(e),
        None => exists|hit: Option<int>| #[trigger]
            file::search_ends(f, utf8::encode_utf8(name), hit) && match hit {
                None => r == Ok::<Option<T>, CastError>(None),
                Some(i) => match file::table_error(f, file::table_header(f, i)) {
                    Some(e) => r == Err::<Option<T>, CastError>(e),
                    None => r matches Ok(x) && ok(file::table_at(f, file::table_header(f, i)), x),
                },
            },
    }
}

/// Whether `r` is the outcome of asking for the definition of the table `name`.
pub open spec fn finds_definition(
    f: Seq<u8>,
    name: Seq<char>,
    r: Result<Option<TableDef>, CastError>,
) -> bool {
    lookup(f, name, r, |t: TableView, x: Option<TableDef>| gives_definition(t, x))
}

/// Whether `r` is the outcome of asking for all rows of the table `name`.
pub open spec fn finds_rows(
    f: Seq<u8>,
    name: Seq<char>,
    r: Result<Option<RowIter<'_, Vec<String>>>, CastError>,
) -> bool {
    lookup(f, name, r, |t: TableView, x: Option<RowIter<'_, Vec<String>>>| gives_rows(t, x))
}

/// Whether `r` is the outcome of asking for the type of the primary key of the table `name`.
pub open spec fn finds_key_type(
    f: Seq<u8>,
    name: Seq<char>,
    r: Result<Option<ValueType>, CastError>,
) -> bool {
    lookup(f, name, r, |t: TableView, x: Option<ValueType>| x == Some(key_type(t)))
}

/// Whether `r` is the outcome of asking for the wanted columns of all rows of the table `name`.
pub open spec fn finds_query(
    f: Seq<u8>,
    name: Seq<char>,
    wanted: Option<&Vec<String>>,
    r: Result<Option<RowIter<'_, PartialColValIterSpec>>, CastError>,
) -> bool {
    lookup(
        f,
        name,
        r,
        |t: TableView, x: Option<RowIter<'_, PartialColValIterSpec>>| gives_query(t, wanted, x),
    )
}

/// Whether `r` is the outcome of asking for the rows of the table `name` with this key.
pub open spec fn finds_keyed(
    f: Seq<u8>,
    name: Seq<char>,
    key: Seq<char>,
    float: Option<u32>,
    r: Result<Option<RowIter<'_, Vec<String>>>, CastError>,
) -> bool {
    lookup(
        f,
        name,
        r,
        |t: TableView, x: Option<RowIter<'_, Vec<String>>>| gives_keyed(t, key, float, x),
    )
}

/// The table `name`, where there is one.
fn find<'a>(db: Database<'a>, name: &str) -> (r: Result<Option<Table<'a>>, CastError>)
    requires
        findable(db@, name@),
    ensures
        lookup(
            db@,
            name@,
            r,
            |t: TableView, x: Option<Table<'a>>| x matches Some(table) && fdb::table_view(table)
                == t,
        ),
        r matches Ok(Some(table)) ==> file::tables_error(db@) is None && exists|i: int| #[trigger]
            file::candidate(db@, utf8::encode_utf8(name@), i) && file::table_error(
                db@,
                file::table_header(db@, i),
            ) is None && fdb::table_view(table) == file::table_at(
                db@,
                file::table_header(db@, i),
            ),
{
    let tables: Tables<'a> = match fdb::tables(db) {
        Ok(tables) => tables,
        Err(e) => {
            return Err(e);
        },
    };
    match fdb::table_by_name(&tables, name) {
        None => Ok(None),
        Some(Err(e)) => Err(e),
        Some(Ok(table)) => Ok(Some(table)),
    }
}

/// The definition of the table `name`, where there is such a table.
pub fn table_def_json(db: Database<'_>, name: &str) -> (r: Result<Option<TableDef>, CastError>)
    requires
        findable(db@, name@),
        each_candidate(db@, name@, |t: TableView| columns_readable(t)),
    ensures
        finds_definition(db@, name@, r),
{
    match find(db, name) {
        Err(e) => Err(e),
        Ok(None) => Ok(None),
        Ok(Some(table)) => {
            let def: TableDef = TableDef {
                name: fdb::table_name(&table),
                columns: columns(&table),
            };
            Ok(Some(def))
        },
    }
}

/// All rows of the table `name` with all their columns, where there is such a table.
pub fn table_all_get<'a>(db: Database<'a>, name: &str) -> (r: Result<
    Option<RowIter<'a, Vec<String>>>,
    CastError,
>)
    requires
        findable(db@, name@),
        each_candidate(db@, name@, |t: TableView| columns_readable(t) && rows_readable(t)),
    ensures
        finds_rows(db@, name@, r),
{
    match find(db, name) {
        Err(e) => Err(e),
        Ok(None) => Ok(None),
        Ok(Some(table)) => {
            let to_cols: Vec<String> = column_names(&table);
            let rows: Vec<Row<'a>> = fdb::table_rows(&table);
            Ok(Some(RowIter { rows, to_cols }))
        },
    }
}

// ---- Some columns of all rows ----
/// The places among the first `n` of `names` whose name is in `wanted`, in order.
pub open spec fn chosen(names: Seq<Seq<char>>, wanted: Seq<Seq<char>>, n: int) -> Seq<usize>
    decreases n,
{
    if n <= 0 {
        seq![]
    } else if wanted.contains(names[n - 1]) {
        chosen(names, wanted, n - 1).push((n - 1) as usize)
    } else {
        chosen(names, wanted, n - 1)
    }
}

/// Every chosen place is one of the first `n`, and its name is wanted.
pub(crate) proof fn lemma_chosen_bounded(names: Seq<Seq<char>>, wanted: Seq<Seq<char>>, n: int)
    requires
        n <= usize::MAX,
    ensures
        forall|k: int|
            0 <= k < chosen(names, wanted, n).len() ==> #[trigger] chosen(names, wanted, n)[k] < n
                && wanted.contains(names[chosen(names, wanted, n)[k] as int]),
    decreases n,
{
    if n > 0 {
        lemma_chosen_bounded(names, wanted, n - 1);
        let before = chosen(names, wanted, n - 1);
        assert forall|k: int| 0 <= k < chosen(names, wanted, n).len() implies #[trigger] chosen(
            names,
            wanted,
            n,
        )[k] < n && wanted.contains(names[chosen(names, wanted, n)[k] as int]) by {
            assert(k < before.len() ==> chosen(names, wanted, n)[k] == before[k]);
        }
    }
}

/// Whether `x` holds all rows of a table with the wanted columns, and nothing where no query could
/// be read.
pub open spec fn gives_query(
    t: TableView,
    wanted: Option<&Vec<String>>,
    x: Option<RowIter<'_, PartialColValIterSpec>>,
) -> bool {
    match wanted {
        None => x is None,
        Some(wanted) => {
            &&& x matches Some(iter)
            &&& fdb::rows_view(iter.rows@) == fdb::all_rows(t.chains)
            &&& gives_names(t, rows::texts_view(iter.to_cols.names@))
            &&& iter.to_cols.indices@ == chosen(
                names_of(t),
                rows::texts_view(wanted@),
                names_of(t).len() as int,
            )
        },
    }
}

/// Whether `name` is one of `wanted`.
pub(crate) fn is_wanted(wanted: &Vec<String>, name: &String) -> (r: bool)
    ensures
        r == rows::texts_view(wanted@).contains(name@),
{
    let n: usize = wanted.len();
    for i in 0..n
        invariant
            n == wanted@.len(),
            forall|j: int| 0 <= j < i ==> (#[trigger] wanted@[j])@ != name@,
    {
        if path::same_text(wanted[i].as_str(), name.as_str()) {
            assert(rows::texts_view(wanted@)[i as int] == name@);
            return true;
        }
    }
    assert forall|j: int| 0 <= j < rows::texts_view(wanted@).len() implies rows::texts_view(
        wanted@,
    )[j] != name@ by {
        assert(wanted@[j]@ != name@);
    }
    false
}

/// The choice of the columns that are wanted, in the order of the table.
fn choose_columns(names: Vec<String>, wanted: &Vec<String>) -> (spec: PartialColValIterSpec)
    ensures
        spec.names == names,
        spec.indices@ == chosen(
            rows::texts_view(names@),
            rows::texts_view(wanted@),
            names@.len() as int,
        ),
{
    let mut indices: Vec<usize> = Vec::new();
    let n: usize = names.len();
    for i in 0..n
        invariant
            n == names@.len(),
            indices@ == chosen(rows::texts_view(names@), rows::texts_view(wanted@), i as int),
    {
        assert(rows::texts_view(names@)[i as int] == names@[i as int]@);
        if is_wanted(wanted, &names[i]) {
            indices.push(i);
        }
    }
    PartialColValIterSpec { indices, names }
}

/// The type of the primary key of the table `name`, where there is such a table. A query for some
/// of its columns is read with this type in hand.
pub fn table_key_type(db: Database<'_>, name: &str) -> (r: Result<Option<ValueType>, CastError>)
    requires
        findable(db@, name@),
        each_candidate(db@, name@, |t: TableView| has_key_column(t)),
    ensures
        finds_key_type(db@, name@, r),
{
    match find(db, name) {
        Err(e) => Err(e),
        Ok(None) => Ok(None),
        Ok(Some(table)) => {
            assert(has_key_column(fdb::table_view(table)));
            match fdb::table_column(&table, 0) {
                None => Ok(None),
                Some(column) => Ok(Some(column.data_type)),
            }
        },
    }
}

/// The wanted columns of all rows of the table `name`, where there is such a table. Nothing where
/// the request did not hold a query that could be read.
pub fn table_all_query<'a>(
    db: Database<'a>,
    name: &str,
    wanted: Option<&Vec<String>>,
) -> (r: Result<Option<RowIter<'a, PartialColValIterSpec>>, CastError>)
    requires
        findable(db@, name@),
        each_candidate(
            db@,
            name@,
            |t: TableView|
                {
                    &&& has_key_column(t)
                    &&& wanted is Some ==> columns_readable(t) && rows_readable(t)
                },
        ),
    ensures
        finds_query(db@, name@, wanted, r),
{
    match find(db, name) {
        Err(e) => Err(e),
        Ok(None) => Ok(None),
        Ok(Some(table)) => match wanted {
            None => Ok(None),
            Some(wanted) => {
                let to_cols: PartialColValIterSpec = choose_columns(column_names(&table), wanted);
                let rows: Vec<Row<'a>> = fdb::table_rows(&table);
                Ok(Some(RowIter { rows, to_cols }))
            },
        },
    }
}

// ---- The rows with a key ----
/// The bucket of the rows whose key is `gate`, in a table with `n` buckets.
pub open spec fn bucket_of(gate: FieldView, n: int) -> int {
    value::field_hash(gate) as int % n
}

/// The rows of a table that are shown for `key`: those of the key's bucket whose first field
/// equals the key. Nothing where `key` is no value of the first column's type.
pub open spec fn keyed(t: TableView, key: Seq<char>, float: Option<u32>) -> Option<Seq<Cells>> {
    match value::parsed(key, key_type(t), float) {
        None => None,
        Some(gate) => Some(rows::matching(t.chains[bucket_of(gate, t.chains.len() as int)]->0, gate)),
    }
}

/// Whether `x` holds the rows of a table that are shown for `key`, with all its columns.
pub open spec fn gives_keyed(
    t: TableView,
    key: Seq<char>,
    float: Option<u32>,
    x: Option<RowIter<'_, Vec<String>>>,
) -> bool {
    match keyed(t, key, float) {
        None => x is None,
        Some(cells) => {
            &&& x matches Some(iter)
            &&& fdb::rows_view(iter.rows@) == cells
            &&& gives_names(t, rows::texts_view(iter.to_cols@))
        },
    }
}

/// Whether the search for `key` stays within the file: the table has a key column, and where `key`
/// is a value of its type, the table has a bucket for it that is not damaged, whose rows all have a
/// first field, and no column is damaged.
pub open spec fn key_readable(t: TableView, key: Seq<char>, float: Option<u32>) -> bool {
    &&& has_key_column(t)
    &&& value::parsed(key, key_type(t), float) matches Some(gate) ==> {
        let j = bucket_of(gate, t.chains.len() as int);
        &&& t.chains.len() > 0
        &&& t.chains[j] matches Some(chain)
        &&& forall|i: int| 0 <= i < chain.len() ==> rows::has_key(#[trigger] chain[i])
        &&& columns_readable(t)
    }
}

/// The rows of the table `name` whose primary key is `key`, with all their columns. Nothing where
/// there is no such table or `key` is no value of the type of its first column.
///
/// `float` holds the bits of `key` read as a 32-bit IEEE number, or nothing where `key` is none.
pub fn table_key_json<'a>(
    db: Database<'a>,
    name: &str,
    key: &str,
    float: Option<u32>,
) -> (r: Result<Option<RowIter<'a, Vec<String>>>, CastError>)
    requires
        findable(db@, name@),
        each_candidate(db@, name@, |t: TableView| key_readable(t, key@, float)),
    ensures
        finds_keyed(db@, name@, key@, float, r),
{
    let table: Table<'a> = match find(db, name) {
        Err(e) => {
            return Err(e);
        },
        Ok(None) => {
            return Ok(None);
        },
        Ok(Some(table)) => table,
    };
    let ghost t = fdb::table_view(table);
    assert(key_readable(t, key@, float));
    match rows_by_key(&table, key, float) {
        None => Ok(None),
        Some(iter) => Ok(Some(iter)),
    }
}

/// The rows of a table whose primary key is `key`, with all their columns.
fn rows_by_key<'a>(table: &Table<'a>, key: &str, float: Option<u32>) -> (x: Option<
    RowIter<'a, Vec<String>>,
>)
    requires
        key_readable(fdb::table_view(*table), key@, float),
    ensures
        gives_keyed(fdb::table_view(*table), key@, float, x),
{
    let ghost t = fdb::table_view(*table);
    assert(has_key_column(t));
    let ty: ValueType = match fdb::table_column(table, 0) {
        None => {
            return None;
        },
        Some(column) => column.data_type,
    };
    let gate: Field = match FastContext::parse_as(key, ty, float) {
        Err(_) => {
            return None;
        },
        Ok(gate) => gate,
    };
    let hash: u32 = value::key_hash(key, ty, &gate);
    let n: usize = fdb::table_bucket_count(table);
    let j: usize = hash as usize % n;
    assert(j == bucket_of(gate@, t.chains.len() as int));
    match fdb::table_bucket(table, j) {
        None => None,
        Some(bucket) => {
            let ghost chain = fdb::rows_view(bucket@);
            assert(t.chains[j as int] == Some(chain));
            assert(t.chains[j as int]->0 == chain);
            assert(forall|i: int| 0 <= i < chain.len() ==> rows::has_key(#[trigger] chain[i]));
            let rows: Vec<Row<'a>> = FilteredRowIter::new(bucket, gate).collect();
            Some(RowIter { rows, to_cols: column_names(table) })
        },
    }
}

} // verus!
