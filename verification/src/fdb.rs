//! Database files, as the `assembly_fdb` crate reads them.
use vstd::prelude::*;
use vstd::utf8;

use assembly_fdb::mem::{Row, Table, Tables};

use crate::file;
use crate::file::{CastError, Cells, ColumnView, TableView};
use crate::value::{Field, ValueType};

verus! {

/// Declares `assembly_fdb::mem::Tables`, the array of tables of a file.
#[verifier::external_type_specification]
#[verifier::external_body]
pub struct ExTables<'a>(Tables<'a>);

/// Declares `assembly_fdb::mem::Table`, one table of a file.
#[verifier::external_type_specification]
#[verifier::external_body]
pub struct ExTable<'a>(Table<'a>);

/// Declares `assembly_fdb::mem::Row`, one row of a table.
#[verifier::external_type_specification]
#[verifier::external_body]
pub struct ExRow<'a>(Row<'a>);

/// A database file in memory.
#[derive(Clone, Copy, Debug)]
pub struct Database<'a> {
    /// The bytes of the file.
    pub file: &'a [u8],
}

impl<'a> View for Database<'a> {
    type V = Seq<u8>;

    open spec fn view(&self) -> Seq<u8> {
        self.file@
    }
}

/// A column of a table.
#[derive(Debug)]
pub struct TableCol {
    /// The name of the column.
    pub name: String,
    /// The type of its fields.
    pub data_type: ValueType,
}

/// Whether `col` is a column of the file, with its name decoded.
pub open spec fn gives_column(column: ColumnView, col: TableCol) -> bool {
    file::reads_as(column.label, col.name@) && col.data_type == column.data_type
}

/// The bytes of the file that an array of tables belongs to.
pub uninterp spec fn tables_file(tables: Tables<'_>) -> Seq<u8>;

/// The bytes of a table's name.
pub uninterp spec fn table_label(table: Table<'_>) -> Seq<u8>;

/// The columns of a table, `None` for each that is damaged.
pub uninterp spec fn table_columns(table: Table<'_>) -> Seq<Option<ColumnView>>;

/// The rows of a table by bucket, `None` for each bucket that is damaged.
pub uninterp spec fn table_chains(table: Table<'_>) -> Seq<Option<Seq<Cells>>>;

/// The fields of a row, `None` for each that is damaged.
pub uninterp spec fn row_cells(row: Row<'_>) -> Cells;

/// All that a table holds.
pub open spec fn table_view(table: Table<'_>) -> TableView {
    TableView {
        label: table_label(table),
        columns: table_columns(table),
        chains: table_chains(table),
    }
}

/// Whether `r` is what opening the table at `h` gives.
pub open spec fn opened(f: Seq<u8>, h: int, r: Result<Table<'_>, CastError>) -> bool {
    match file::table_error(f, h) {
        Some(e) => r == Err::<Table<'_>, CastError>(e),
        None => r matches Ok(table) && table_view(table) == file::table_at(f, h),
    }
}

/// Whether `r` is what a search for `q` gives that ends with `hit`.
pub open spec fn found_at(
    f: Seq<u8>,
    q: Seq<u8>,
    hit: Option<int>,
    r: Option<Result<Table<'_>, CastError>>,
) -> bool {
    &&& file::search_ends(f, q, hit)
    &&& match hit {
        None => r is None,
        Some(i) => r matches Some(x) && opened(f, file::table_header(f, i), x),
    }
}

/// Whether `r` is what the end of a search for `q` gives.
pub open spec fn found(
    f: Seq<u8>,
    q: Seq<u8>,
    r: Option<Result<Table<'_>, CastError>>,
) -> bool {
    exists|hit: Option<int>| #[trigger] found_at(f, q, hit, r)
}

/// Calls `assembly_fdb::mem::Database::new` and its `tables`: the array of tables, or the offset
/// of the header or of the array where that is not within the file.
#[verifier::external_body]
pub(crate) fn tables<'a>(db: Database<'a>) -> (r: Result<Tables<'a>, CastError>)
    requires
        file::tables_countable(db@),
    ensures
        match file::tables_error(db@) {
            Some(e) => r == Err::<Tables<'a>, CastError>(e),
            None => r matches Ok(tables) && tables_file(tables) == db@,
        },
{
    assembly_fdb::mem::Database::new(db.file).tables().map_err(
        |assembly_core::buffer::CastError::OutOfBounds { offset }| CastError::OutOfBounds { offset },
    )
}

/// Calls `assembly_fdb::mem::Tables::len`: the number of tables.
#[verifier::external_body]
pub(crate) fn tables_len(tables: &Tables<'_>) -> (n: usize)
    ensures
        n == file::table_count(tables_file(*tables)),
{
    tables.len()
}

/// Calls `assembly_fdb::mem::Tables::get`: nothing behind the last table, and otherwise the table
/// at that place or the offset of the first of its parts that is not within the file.
#[verifier::external_body]
pub(crate) fn table_get<'a>(tables: &Tables<'a>, i: usize) -> (r: Option<
    Result<Table<'a>, CastError>,
>)
    requires
        i < file::table_count(tables_file(*tables)) ==> file::openable(
            tables_file(*tables),
            file::table_header(tables_file(*tables), i as int),
        ),
    ensures
        r is Some <==> i < file::table_count(tables_file(*tables)),
        r matches Some(x) ==> opened(
            tables_file(*tables),
            file::table_header(tables_file(*tables), i as int),
            x,
        ),
{
    tables.get(i).map(|table| table.map_err(
        |assembly_core::buffer::CastError::OutOfBounds { offset }| CastError::OutOfBounds { offset },
    ))
}

/// Calls `assembly_fdb::mem::Tables::by_name`: a binary search for the UTF-8 bytes of `name`, which
/// compares them with the names of tables and opens the table that it ends at. Where the tables are
/// in order it ends at one that has the name, if there is one, and always at the same. In a file
/// whose tables are out of order nothing is stated of where it ends.
#[verifier::external_body]
pub(crate) fn table_by_name<'a>(tables: &Tables<'a>, name: &str) -> (r: Option<
    Result<Table<'a>, CastError>,
>)
    requires
        file::searchable(tables_file(*tables), utf8::encode_utf8(name@)),
    ensures
        found(tables_file(*tables), utf8::encode_utf8(name@), r),
        file::sorted(tables_file(*tables), utf8::encode_utf8(name@)) ==> found_at(
            tables_file(*tables),
            utf8::encode_utf8(name@),
            file::search_end(tables_file(*tables), utf8::encode_utf8(name@)),
            r,
        ),
{
    tables.by_name(name).map(|table| table.map_err(
        |assembly_core::buffer::CastError::OutOfBounds { offset }| CastError::OutOfBounds { offset },
    ))
}

/// Calls `assembly_fdb::mem::Table::name`: the name of the table, decoded from Latin-1. ASCII bytes
/// alone stay as they are, one character for each byte.
#[verifier::external_body]
pub(crate) fn table_name(table: &Table<'_>) -> (name: String)
    ensures
        name@ == file::latin1_decoded(table_label(*table)),
        file::reads_as(table_label(*table), name@),
{
    table.name().into_owned()
}

/// Calls `assembly_fdb::mem::Table::column_count`: the number of columns.
#[verifier::external_body]
pub(crate) fn table_column_count(table: &Table<'_>) -> (n: usize)
    ensures
        n == table_columns(*table).len(),
{
    table.column_count()
}

/// Calls `assembly_fdb::mem::Table::column_at`: the name of a column, decoded from Latin-1, and its
/// type, and nothing behind the last column.
#[verifier::external_body]
pub(crate) fn table_column(table: &Table<'_>, k: usize) -> (r: Option<TableCol>)
    requires
        k < table_columns(*table).len() ==> table_columns(*table)[k as int] is Some,
    ensures
        r is Some <==> k < table_columns(*table).len(),
        r matches Some(col) ==> gives_column(table_columns(*table)[k as int]->0, col),
{
    table.column_at(k).map(|column| TableCol {
        name: column.name().into_owned(),
        data_type: match column.value_type() {
            assembly_fdb::value::ValueType::Nothing => ValueType::Nothing,
            assembly_fdb::value::ValueType::Integer => ValueType::Integer,
            assembly_fdb::value::ValueType::Float => ValueType::Float,
            assembly_fdb::value::ValueType::Text => ValueType::Text,
            assembly_fdb::value::ValueType::Boolean => ValueType::Boolean,
            assembly_fdb::value::ValueType::BigInt => ValueType::BigInt,
            assembly_fdb::value::ValueType::VarChar => ValueType::VarChar,
        },
    })
}

/// Calls `assembly_fdb::mem::Table::bucket_count`: the number of buckets.
#[verifier::external_body]
pub(crate) fn table_bucket_count(table: &Table<'_>) -> (n: usize)
    ensures
        n == table_chains(*table).len(),
{
    table.bucket_count()
}

/// The fields of each of some rows.
pub open spec fn rows_view(rows: Seq<Row<'_>>) -> Seq<Cells> {
    rows.map_values(|row: Row<'_>| row_cells(row))
}

/// Calls `assembly_fdb::mem::Table::bucket_at` and `row_iter` on the bucket: its rows in the order
/// of the list, and nothing behind the last bucket.
#[verifier::external_body]
pub(crate) fn table_bucket<'a>(table: &Table<'a>, j: usize) -> (r: Option<Vec<Row<'a>>>)
    requires
        j < table_chains(*table).len() ==> table_chains(*table)[j as int] is Some,
    ensures
        r is Some <==> j < table_chains(*table).len(),
        r matches Some(rows) ==> table_chains(*table)[j as int] == Some(rows_view(rows@)),
{
    table.bucket_at(j).map(|bucket| bucket.row_iter().collect())
}

/// The rows of all buckets, one bucket after the other.
pub open spec fn all_rows(chains: Seq<Option<Seq<Cells>>>) -> Seq<Cells>
    decreases chains.len(),
{
    if chains.len() == 0 {
        seq![]
    } else {
        all_rows(chains.drop_last()) + chains.last()->0
    }
}

/// Calls `assembly_fdb::mem::Table::row_iter`: the rows of all buckets, one bucket after the other.
#[verifier::external_body]
pub(crate) fn table_rows<'a>(table: &Table<'a>) -> (rows: Vec<Row<'a>>)
    requires
        forall|j: int|
            0 <= j < table_chains(*table).len() ==> #[trigger] table_chains(*table)[j] is Some,
    ensures
        rows_view(rows@) == all_rows(table_chains(*table)),
{
    table.row_iter().collect()
}

/// Calls `assembly_fdb::mem::Row::field_at`: a field of a row, and nothing behind the last one. An
/// IEEE number is given by its bits, a text by its bytes.
#[verifier::external_body]
pub(crate) fn row_field(row: &Row<'_>, k: usize) -> (r: Option<Field>)
    requires
        k < row_cells(*row).len() ==> row_cells(*row)[k as int] is Some,
    ensures
        r is Some <==> k < row_cells(*row).len(),
        r matches Some(field) ==> row_cells(*row)[k as int] == Some(field@),
{
    row.field_at(k).map(|field| match field {
        assembly_fdb::mem::Field::Nothing => Field::Nothing,
        assembly_fdb::mem::Field::Integer(i) => Field::Integer(i),
        assembly_fdb::mem::Field::Float(x) => Field::Float(x.to_bits()),
        assembly_fdb::mem::Field::Text(s) => Field::Text(s.as_bytes().to_vec()),
        assembly_fdb::mem::Field::Boolean(b) => Field::Boolean(b),
        assembly_fdb::mem::Field::BigInt(i) => Field::BigInt(i),
        assembly_fdb::mem::Field::VarChar(s) => Field::VarChar(s.as_bytes().to_vec()),
    })
}

} // verus!
