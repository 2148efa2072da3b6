//! Laws of the search for tables and rows.
use vstd::prelude::*;
use vstd::utf8;

use crate::fdb;
use crate::fdb::TableCol;
use crate::file;
use crate::file::{CastError, Cells, ColumnView, TableView};
use crate::laws::values;
use crate::rows;
use crate::rows::{PartialColValIterSpec, RowIter};
use crate::tables;
use crate::tables::TableDef;
use crate::value;
use crate::value::{FieldView, ValueType};

verus! {

// ---- Tables by name ----
/// Whether no byte is zero.
pub open spec fn zero_free(bytes: Seq<u8>) -> bool {
    forall|i: int| 0 <= i < bytes.len() ==> #[trigger] bytes[i] != 0
}

/// Whether the name at `at` and the zero that ends it are in the file.
pub open spec fn label_ends(f: Seq<u8>, at: int) -> bool {
    0 <= at && at + file::text_at(f, at).len() < f.len()
}

proof fn lemma_label(f: Seq<u8>, at: int, q: Seq<u8>, i: int)
    requires
        0 <= at,
        0 <= i <= q.len(),
        zero_free(q),
    ensures
        file::label_comparable(f, at, q, i) && file::label_order(f, at, q, i) == 0
            ==> file::text_at(f, at + i) == q.skip(i),
        label_ends(f, at + i) && file::text_at(f, at + i) == q.skip(i) ==> file::label_order(
            f,
            at,
            q,
            i,
        ) == 0,
    decreases q.len() - i,
{
    let text = file::text_at(f, at + i);
    if i < q.len() {
        lemma_label(f, at, q, i + 1);
        let rest = file::text_at(f, at + i + 1);
        assert(q.skip(i) =~= seq![q[i]] + q.skip(i + 1));
        if text == q.skip(i) && label_ends(f, at + i) {
            assert(text.len() > 0);
            assert(text[0] == q[i]);
            assert(rest =~= text.drop_first());
            assert(q.skip(i + 1) =~= q.skip(i).drop_first());
        }
    } else {
        assert(q.skip(i) =~= Seq::<u8>::empty());
    }
}

/// In a file whose tables are in order, a search by name ends at a table of just that name. A name
/// with a zero character in it cannot be told from the bytes behind a name in the file.
pub proof fn search_finds_the_name(f: Seq<u8>, q: Seq<u8>, i: int)
    requires
        zero_free(q),
        file::searchable(f, q),
        file::sorted(f, q),
        file::search_ends(f, q, Some(i)),
    ensures
        file::table_at(f, file::table_header(f, i)).label == q,
{
    let at = file::label_at(f, file::table_header(f, i));
    lemma_label(f, at, q, 0);
    assert(q.skip(0) =~= q);
}

/// In a file whose tables are in order, a search for the name of a table that is there does not end
/// with nothing.
pub proof fn search_misses_nothing(f: Seq<u8>, q: Seq<u8>, i: int)
    requires
        zero_free(q),
        file::sorted(f, q),
        0 <= i < file::table_count(f),
        file::table_at(f, file::table_header(f, i)).label == q,
        label_ends(f, file::label_at(f, file::table_header(f, i))),
    ensures
        !file::search_ends(f, q, None),
{
    let at = file::label_at(f, file::table_header(f, i));
    lemma_label(f, at, q, 0);
    assert(q.skip(0) =~= q);
    assert(file::order(f, q, i) == 0);
}

/// Whether there is but one way for a search for the table `name` to end, if one is made: the
/// tables are in order, or their array cannot be read.
pub open spec fn in_order(f: Seq<u8>, name: Seq<char>) -> bool {
    file::tables_error(f) is None ==> file::sorted(f, utf8::encode_utf8(name))
}

/// In a file whose tables are in order there is but one way for a search to end. Where one table
/// alone has the name, it is at that table.
pub proof fn search_is_settled(f: Seq<u8>, q: Seq<u8>, a: Option<int>, b: Option<int>)
    requires
        file::sorted(f, q),
        file::search_ends(f, q, a),
        file::search_ends(f, q, b),
    ensures
        a == b,
        forall|i: int|
            0 <= i < file::table_count(f) && #[trigger] file::order(f, q, i) == 0 && (forall|
                j: int,
            |
                0 <= j < file::table_count(f) && #[trigger] file::order(f, q, j) == 0 ==> j == i)
                ==> a == Some(i),
{
}

/// The definition that comes of a search for an ASCII name, in a file whose tables are in order,
/// has that name.
pub proof fn definition_has_the_name(f: Seq<u8>, name: Seq<char>, i: int, def: TableDef)
    requires
        utf8::is_ascii_chars(name),
        !name.contains('\0'),
        file::searchable(f, utf8::encode_utf8(name)),
        file::sorted(f, utf8::encode_utf8(name)),
        file::search_ends(f, utf8::encode_utf8(name), Some(i)),
        tables::gives_definition(file::table_at(f, file::table_header(f, i)), Some(def)),
    ensures
        def.name@ == name,
{
    let q = utf8::encode_utf8(name);
    utf8::is_ascii_chars_encode_utf8(name);
    utf8::is_ascii_chars_nat_bound(name);
    assert forall|k: int| 0 <= k < q.len() implies #[trigger] q[k] != 0 && q[k] < 0x80 by {
        assert(name.contains(name[k]));
        assert(name[k] as u8 == q[k]);
    }
    search_finds_the_name(f, q, i);
    assert(file::widened(q) =~= name) by {
        assert forall|k: int| 0 <= k < q.len() implies file::widened(q)[k] == name[k] by {
            assert(name[k] as u8 == q[k]);
        }
    }
}

// ---- Rows by key ----
/// Whether every row of a table is in the bucket of its key.
pub open spec fn well_hashed(t: TableView) -> bool {
    forall|j: int, i: int|
        0 <= j < t.chains.len() && 0 <= i < (t.chains[j]->0).len() ==> tables::bucket_of(
            (#[trigger] (t.chains[j]->0)[i])[0]->0,
            t.chains.len() as int,
        ) == j
}

/// Whether no row that holds the other zero than the key, where the key is a zero among IEEE numbers,
/// is in another bucket than the key's.
pub open spec fn zeros_together(t: TableView, gate: FieldView) -> bool {
    values::is_float_zero(gate) ==> forall|j: int, i: int|
        0 <= j < t.chains.len() && 0 <= i < (t.chains[j]->0).len() && values::is_float_zero(
            (#[trigger] (t.chains[j]->0)[i])[0]->0,
        ) ==> j == tables::bucket_of(gate, t.chains.len() as int)
}

proof fn lemma_no_match(chain: Seq<Cells>, gate: FieldView)
    requires
        forall|i: int| 0 <= i < chain.len() ==> !value::field_eq(gate, (#[trigger] chain[i])[0]->0),
    ensures
        rows::matching(chain, gate) == Seq::<Cells>::empty(),
    decreases chain.len(),
{
    reveal(Seq::filter);
    if chain.len() > 0 {
        lemma_no_match(chain.drop_last(), gate);
    }
}

proof fn lemma_scan(t: TableView, gate: FieldView, n: int)
    requires
        well_hashed(t),
        zeros_together(t, gate),
        0 <= n <= t.chains.len(),
        t.chains.len() > 0,
    ensures
        rows::matching(fdb::all_rows(t.chains.take(n)), gate) == {
            let j = tables::bucket_of(gate, t.chains.len() as int);
            if j < n {
                rows::matching(t.chains[j]->0, gate)
            } else {
                seq![]
            }
        },
    decreases n,
{
    let j = tables::bucket_of(gate, t.chains.len() as int);
    let chains = t.chains.take(n);
    assert(j >= 0);
    if n > 0 {
        lemma_scan(t, gate, n - 1);
        let before = fdb::all_rows(t.chains.take(n - 1));
        let chain = t.chains[n - 1]->0;
        assert(chains.drop_last() =~= t.chains.take(n - 1));
        assert(chains.last() == t.chains[n - 1]);
        assert(fdb::all_rows(chains) == before + chain);
        Seq::filter_distributes_over_add(
            before,
            chain,
            |cells: Cells| value::field_eq(gate, cells[0]->0),
        );
        assert(rows::matching(before + chain, gate) == rows::matching(before, gate)
            + rows::matching(chain, gate));
        if n - 1 == j {
            assert(seq![] + rows::matching(chain, gate) =~= rows::matching(chain, gate));
        } else {
            assert forall|i: int| 0 <= i < chain.len() implies !value::field_eq(
                gate,
                (#[trigger] chain[i])[0]->0,
            ) by {
                assert((t.chains[n - 1]->0)[i] == chain[i]);
                if value::field_eq(gate, chain[i][0]->0) && !values::is_float_zero(gate) {
                    values::equal_values_hash_alike(gate, chain[i][0]->0);
                }
            }
            lemma_no_match(chain, gate);
            assert(rows::matching(before, gate) + Seq::<Cells>::empty() =~= rows::matching(
                before,
                gate,
            ));
        }
    } else {
        assert(chains =~= Seq::empty());
        reveal(Seq::filter);
        assert(rows::matching(fdb::all_rows(chains), gate) =~= seq![]);
    }
}

/// Where every row is in the bucket of its key, the rows shown for a key are those of all rows whose
/// key is equal, in the same order. Left out are tables where a row with the other zero among IEEE
/// numbers is in another bucket: the two zeros are equal, and it is not found.
pub proof fn key_search_is_complete(t: TableView, key: Seq<char>, float: Option<u32>)
    requires
        well_hashed(t),
        t.chains.len() > 0,
        value::parsed(key, tables::key_type(t), float) matches Some(gate)
            ==> zeros_together(t, gate),
    ensures
        tables::keyed(t, key, float) == match value::parsed(key, tables::key_type(t), float) {
            None => None,
            Some(gate) => Some(rows::matching(fdb::all_rows(t.chains), gate)),
        },
{
    if let Some(gate) = value::parsed(key, tables::key_type(t), float) {
        lemma_scan(t, gate, t.chains.len() as int);
        assert(t.chains.take(t.chains.len() as int) =~= t.chains);
    }
}

proof fn lemma_in_all(chains: Seq<Option<Seq<Cells>>>, j: int, i: int)
    requires
        0 <= j < chains.len(),
        0 <= i < (chains[j]->0).len(),
    ensures
        fdb::all_rows(chains).contains((chains[j]->0)[i]),
    decreases chains.len(),
{
    let before = fdb::all_rows(chains.drop_last());
    let last = chains.last()->0;
    let all = fdb::all_rows(chains);
    assert(all == before + last);
    if j == chains.len() - 1 {
        assert(all[before.len() + i] == last[i]);
    } else {
        lemma_in_all(chains.drop_last(), j, i);
        let k = choose|k: int| 0 <= k < before.len() && before[k] == (chains[j]->0)[i];
        assert(all[k] == before[k]);
    }
}

/// Every row that is shown for a key is a row of the table, and its key is equal to the one that
/// was asked for.
pub proof fn keyed_rows_are_rows(t: TableView, key: Seq<char>, float: Option<u32>, cells: Cells)
    requires
        t.chains.len() > 0,
        tables::keyed(t, key, float) matches Some(shown) && shown.contains(cells),
    ensures
        fdb::all_rows(t.chains).contains(cells),
        value::parsed(key, tables::key_type(t), float) matches Some(gate) && value::field_eq(
            gate,
            cells[0]->0,
        ),
{
    let gate = value::parsed(key, tables::key_type(t), float)->0;
    let j = tables::bucket_of(gate, t.chains.len() as int);
    let chain = t.chains[j]->0;
    let shown = rows::matching(chain, gate);
    let k = choose|k: int| 0 <= k < shown.len() && shown[k] == cells;
    assert(0 <= j < t.chains.len());
    let ok = |c: Cells| chain.contains(c);
    assert forall|i: int| 0 <= i < chain.len() implies ok(#[trigger] chain[i]) by {
        assert(chain.contains(chain[i]));
    }
    rows::lemma_matching_all(chain, gate, ok);
    assert(ok(shown[k]));
    let i = choose|i: int| 0 <= i < chain.len() && chain[i] == cells;
    lemma_in_all(t.chains, j, i);
    chain.lemma_filter_pred(|c: Cells| value::field_eq(gate, c[0]->0), k);
}

// ---- The list of tables ----
proof fn lemma_first_error(f: Seq<u8>, n: int)
    requires
        0 <= n,
    ensures
        tables::first_error(f, n) is None <==> forall|i: int|
            0 <= i < n ==> file::table_error(f, #[trigger] file::table_header(f, i)) is None,
        tables::first_error(f, n) matches Some(e) ==> is_first_error(f, n, e),
    decreases n,
{
    if n > 0 {
        lemma_first_error(f, n - 1);
        match tables::first_error(f, n - 1) {
            Some(e) => {
                let i = choose|i: int|
                    0 <= i < n - 1 && file::table_error(f, #[trigger] file::table_header(f, i))
                        == Some(e) && forall|j: int|
                        0 <= j < i ==> file::table_error(
                            f,
                            #[trigger] file::table_header(f, j),
                        ) is None;
                assert(file::table_error(f, file::table_header(f, i)) == Some(e));
                assert(is_first_error(f, n, e));
            },
            None => {
                let h = file::table_header(f, n - 1);
                assert(file::table_error(f, h) is Some ==> is_first_error(
                    f,
                    n,
                    file::table_error(f, h)->0,
                ));
            },
        }
    }
}

/// Whether `e` is the reason why the first of `n` tables that cannot be opened cannot.
pub open spec fn is_first_error(f: Seq<u8>, n: int, e: CastError) -> bool {
    exists|i: int|
        0 <= i < n && file::table_error(f, #[trigger] file::table_header(f, i)) == Some(e)
            && forall|j: int|
            0 <= j < i ==> file::table_error(f, #[trigger] file::table_header(f, j)) is None
}

/// Where the listing succeeds, it has one name for each table of the file, in the order of the file:
/// what the table's label is read as.
pub proof fn list_has_every_table(f: Seq<u8>, names: Seq<Seq<char>>)
    requires
        tables::lists(f, names),
    ensures
        names.len() == file::table_count(f),
        names.len() == file::word(f, 0),
        forall|i: int|
            0 <= i < file::table_count(f) ==> file::reads_as(
                file::text_at(f, file::label_at(f, file::table_header(f, i))),
                #[trigger] names[i],
            ),
        forall|i: int|
            0 <= i < file::table_count(f) ==> file::table_error(
                f,
                #[trigger] file::table_header(f, i),
            ) is None,
        file::tables_error(f) is None,
{
    lemma_first_error(f, file::table_count(f));
    assert forall|i: int| 0 <= i < file::table_count(f) implies file::reads_as(
        file::text_at(f, file::label_at(f, file::table_header(f, i))),
        #[trigger] names[i],
    ) by {
        assert(file::reads_as(file::table_at(f, file::table_header(f, i)).label, names[i]));
    }
}

/// The listing succeeds where the array of tables can be read and every table be opened. Otherwise
/// it fails with the error of the array, or of the first table that cannot be opened.
pub proof fn list_of_tables(f: Seq<u8>)
    ensures
        tables::listing(f) is Ok <==> file::tables_error(f) is None && forall|i: int|
            0 <= i < file::word(f, 0) ==> file::table_error(
                f,
                #[trigger] file::table_header(f, i),
            ) is None,
        tables::listing(f) matches Ok(names) ==> names.len() == file::word(f, 0),
        tables::listing(f) matches Err(e) ==> file::tables_error(f) == Some(e) || (
        file::tables_error(f) is None && is_first_error(f, file::word(f, 0), e)),
{
    lemma_first_error(f, file::table_count(f));
}

/// The names of all tables can be read where every table up to the first that cannot be opened can be
/// opened or be told that it cannot.
pub proof fn lists_that_can_be_read(f: Seq<u8>)
    ensures
        tables::listable(f) <==> file::tables_countable(f) && (file::tables_error(f) is None
            ==> forall|i: int|
            0 <= i < file::word(f, 0) && (forall|j: int|
                0 <= j < i ==> file::table_error(f, #[trigger] file::table_header(f, j)) is None)
                ==> file::openable(f, #[trigger] file::table_header(f, i))),
{
    assert forall|i: int| 0 <= i implies (tables::first_error(f, i) is None) == (forall|j: int|
        0 <= j < i ==> file::table_error(f, #[trigger] file::table_header(f, j)) is None) by {
        lemma_first_error(f, i);
    }
}

// ---- What comes of a search ----
/// Whether `def` is the definition of the table whose header is at `h`: its name, and each of its
/// columns that is not damaged with its name and type, in order.
pub open spec fn defines(f: Seq<u8>, h: int, def: TableDef) -> bool {
    &&& file::reads_as(file::text_at(f, file::label_at(f, h)), def.name@)
    &&& def.columns@.len() == file::column_count(f, h)
    &&& forall|k: int|
        0 <= k < def.columns@.len() ==> {
            let at = file::columns_at(f, h) + 8 * k;
            file::column_at(f, at) is Some ==> {
                &&& Some((#[trigger] def.columns@[k]).data_type) == file::type_of(file::word(f, at))
                &&& file::reads_as(
                    file::text_at(f, file::word(f, at + 4)),
                    def.columns@[k].name@,
                )
            }
        }
}

/// Whether `names` are the names of the columns of the table whose header is at `h`, of each that is
/// not damaged, in order.
pub open spec fn names_columns(f: Seq<u8>, h: int, names: Seq<String>) -> bool {
    &&& names.len() == file::column_count(f, h)
    &&& forall|k: int|
        0 <= k < names.len() ==> {
            let at = file::columns_at(f, h) + 8 * k;
            file::column_at(f, at) is Some ==> file::reads_as(
                file::text_at(f, file::word(f, at + 4)),
                (#[trigger] names[k])@,
            )
        }
}

/// Whether `r` is the error of the table at `h`, where it has one, and otherwise what `ok` says.
pub open spec fn outcome<T>(f: Seq<u8>, h: int, r: Result<Option<T>, CastError>, ok: bool) -> bool {
    match file::table_error(f, h) {
        Some(e) => r == Err::<Option<T>, CastError>(e),
        None => ok,
    }
}

proof fn lemma_defines(f: Seq<u8>, h: int, def: TableDef)
    requires
        tables::gives_definition(file::table_at(f, h), Some(def)),
    ensures
        defines(f, h, def),
{
    let t = file::table_at(f, h);
    assert forall|k: int| 0 <= k < def.columns@.len() implies {
        let at = file::columns_at(f, h) + 8 * k;
        file::column_at(f, at) is Some ==> {
            &&& Some((#[trigger] def.columns@[k]).data_type) == file::type_of(file::word(f, at))
            &&& file::reads_as(file::text_at(f, file::word(f, at + 4)), def.columns@[k].name@)
        }
    } by {
        assert(fdb::gives_column(t.columns[k]->0, def.columns@[k]));
    }
}

proof fn lemma_names_columns(f: Seq<u8>, h: int, names: Seq<String>)
    requires
        tables::gives_names(file::table_at(f, h), rows::texts_view(names)),
    ensures
        names_columns(f, h, names),
{
    let t = file::table_at(f, h);
    let texts = rows::texts_view(names);
    assert(texts.len() == tables::names_of(t).len());
    assert forall|k: int| 0 <= k < names.len() implies {
        let at = file::columns_at(f, h) + 8 * k;
        file::column_at(f, at) is Some ==> file::reads_as(
            file::text_at(f, file::word(f, at + 4)),
            (#[trigger] names[k])@,
        )
    } by {
        assert(texts[k] == names[k]@);
        assert(file::reads_as((t.columns[k]->0).label, texts[k]));
    }
}

/// A search that ends at a table gives the definition of that table, or the table's error; one that
/// ends nowhere gives nothing.
pub proof fn definitions_are_of_the_table(
    f: Seq<u8>,
    name: Seq<char>,
    hit: Option<int>,
    r: Result<Option<TableDef>, CastError>,
)
    requires
        file::tables_error(f) is None,
        file::sorted(f, utf8::encode_utf8(name)),
        file::search_ends(f, utf8::encode_utf8(name), hit),
        tables::finds_definition(f, name, r),
    ensures
        match hit {
            None => r matches Ok(None),
            Some(i) => outcome(
                f,
                file::table_header(f, i),
                r,
                r matches Ok(Some(def)) && defines(f, file::table_header(f, i), def),
            ),
        },
{
    if let Ok(Some(def)) = r {
        if let Some(i) = hit {
            assert(tables::gives_definition(
                file::table_at(f, file::table_header(f, i)),
                Some(def),
            ));
            lemma_defines(f, file::table_header(f, i), def);
        }
    }
}

/// A search that ends at a table gives all rows of that table, bucket by bucket, under the names of
/// all its columns.
pub proof fn rows_are_of_the_table(
    f: Seq<u8>,
    name: Seq<char>,
    hit: Option<int>,
    r: Result<Option<RowIter<'_, Vec<String>>>, CastError>,
)
    requires
        file::tables_error(f) is None,
        file::sorted(f, utf8::encode_utf8(name)),
        file::search_ends(f, utf8::encode_utf8(name), hit),
        tables::finds_rows(f, name, r),
    ensures
        match hit {
            None => r matches Ok(None),
            Some(i) => outcome(
                f,
                file::table_header(f, i),
                r,
                r matches Ok(Some(iter)) && names_columns(
                    f,
                    file::table_header(f, i),
                    iter.to_cols@,
                ) && fdb::rows_view(iter.rows@) == fdb::all_rows(
                    file::table_at(f, file::table_header(f, i)).chains,
                ),
            ),
        },
{
    if let Ok(Some(iter)) = r {
        if let Some(i) = hit {
            lemma_names_columns(f, file::table_header(f, i), iter.to_cols@);
        }
    }
}

/// A search that ends at a table gives the rows of that table with the key: those of the key's bucket
/// whose first field is equal, under the names of all columns. It gives nothing where the key is no
/// value of the type of the first column.
pub proof fn keyed_rows_are_of_the_table(
    f: Seq<u8>,
    name: Seq<char>,
    hit: Option<int>,
    key: Seq<char>,
    float: Option<u32>,
    r: Result<Option<RowIter<'_, Vec<String>>>, CastError>,
)
    requires
        file::tables_error(f) is None,
        file::sorted(f, utf8::encode_utf8(name)),
        file::search_ends(f, utf8::encode_utf8(name), hit),
        tables::finds_keyed(f, name, key, float, r),
    ensures
        match hit {
            None => r matches Ok(None),
            Some(i) => {
                let h = file::table_header(f, i);
                let chains = file::table_at(f, h).chains;
                file::table_error(f, h) is None && file::column_count(f, h) > 0
                    && file::column_at(f, file::columns_at(f, h)) is Some ==> match value::parsed(
                    key,
                    file::type_of(file::word(f, file::columns_at(f, h)))->0,
                    float,
                ) {
                    None => r matches Ok(None),
                    Some(gate) => {
                        &&& r matches Ok(Some(iter))
                        &&& names_columns(f, h, iter.to_cols@)
                        &&& fdb::rows_view(iter.rows@) == rows::matching(
                            chains[tables::bucket_of(gate, chains.len() as int)]->0,
                            gate,
                        )
                    },
                }
            },
        },
        hit matches Some(i) ==> (file::table_error(f, file::table_header(f, i)) matches Some(e) ==> r
            == Err::<Option<RowIter<'_, Vec<String>>>, CastError>(e)),
{
    if let Some(i) = hit {
        let h = file::table_header(f, i);
        let t = file::table_at(f, h);
        if file::table_error(f, h) is None {
            assert(r is Ok && tables::gives_keyed(t, key, float, r->Ok_0));
            if file::column_count(f, h) > 0 && file::column_at(f, file::columns_at(f, h)) is Some {
                assert(t.columns[0] == file::column_at(f, file::columns_at(f, h)));
                if let Ok(Some(iter)) = r {
                    lemma_names_columns(f, h, iter.to_cols@);
                }
            }
        }
    }
}

/// A search that ends at a table gives the type of the table's first column.
pub proof fn key_types_are_of_the_table(
    f: Seq<u8>,
    name: Seq<char>,
    hit: Option<int>,
    r: Result<Option<ValueType>, CastError>,
)
    requires
        file::tables_error(f) is None,
        file::sorted(f, utf8::encode_utf8(name)),
        file::search_ends(f, utf8::encode_utf8(name), hit),
        tables::finds_key_type(f, name, r),
    ensures
        match hit {
            None => r matches Ok(None),
            Some(i) => {
                let h = file::table_header(f, i);
                file::column_count(f, h) > 0 && file::column_at(
                    f,
                    file::columns_at(f, h),
                ) is Some ==> outcome(
                    f,
                    h,
                    r,
                    r == Ok::<Option<ValueType>, CastError>(
                        file::type_of(file::word(f, file::columns_at(f, h))),
                    ),
                )
            },
        },
{
    if let Some(i) = hit {
        let h = file::table_header(f, i);
        let t = file::table_at(f, h);
        if file::column_count(f, h) > 0 {
            assert(t.columns[0] == file::column_at(f, file::columns_at(f, h)));
        }
    }
}

/// A search that ends at a table gives all rows of that table, with the columns whose names are
/// wanted. It gives nothing where no query could be read.
pub proof fn queries_are_of_the_table(
    f: Seq<u8>,
    name: Seq<char>,
    hit: Option<int>,
    wanted: Option<&Vec<String>>,
    r: Result<Option<RowIter<'_, PartialColValIterSpec>>, CastError>,
)
    requires
        file::tables_error(f) is None,
        file::sorted(f, utf8::encode_utf8(name)),
        file::search_ends(f, utf8::encode_utf8(name), hit),
        tables::finds_query(f, name, wanted, r),
    ensures
        match hit {
            None => r matches Ok(None),
            Some(i) => outcome(
                f,
                file::table_header(f, i),
                r,
                match wanted {
                    None => r matches Ok(None),
                    Some(wanted) => {
                        &&& r matches Ok(Some(iter))
                        &&& names_columns(f, file::table_header(f, i), iter.to_cols.names@)
                        &&& fdb::rows_view(iter.rows@) == fdb::all_rows(
                            file::table_at(f, file::table_header(f, i)).chains,
                        )
                        &&& iter.to_cols.indices@ == tables::chosen(
                            rows::texts_view(iter.to_cols.names@),
                            rows::texts_view(wanted@),
                            iter.to_cols.names@.len() as int,
                        )
                    },
                },
            ),
        },
{
    if let Ok(Some(iter)) = r {
        if let Some(i) = hit {
            if file::table_error(f, file::table_header(f, i)) is None {
                let t = file::table_at(f, file::table_header(f, i));
                assert(tables::gives_query(t, wanted, Some(iter)));
                lemma_names_columns(f, file::table_header(f, i), iter.to_cols.names@);
                assert(rows::texts_view(iter.to_cols.names@).len() == iter.to_cols.names@.len());
            }
        }
    }
}

/// Where the array of tables cannot be read, everything that is asked of a table fails with that
/// error.
pub proof fn broken_arrays(
    f: Seq<u8>,
    name: Seq<char>,
    key: Seq<char>,
    float: Option<u32>,
    wanted: Option<&Vec<String>>,
    def: Result<Option<TableDef>, CastError>,
    all: Result<Option<RowIter<'_, Vec<String>>>, CastError>,
    keyed: Result<Option<RowIter<'_, Vec<String>>>, CastError>,
    ty: Result<Option<ValueType>, CastError>,
    queried: Result<Option<RowIter<'_, PartialColValIterSpec>>, CastError>,
    e: CastError,
)
    requires
        file::tables_error(f) == Some(e),
    ensures
        tables::listing(f) == Err::<Seq<Seq<char>>, CastError>(e),
        tables::finds_definition(f, name, def) ==> def == Err::<Option<TableDef>, CastError>(e),
        tables::finds_rows(f, name, all) ==> (all matches Err(x) && x == e),
        tables::finds_keyed(f, name, key, float, keyed) ==> (keyed matches Err(x) && x == e),
        tables::finds_key_type(f, name, ty) ==> ty == Err::<Option<ValueType>, CastError>(e),
        tables::finds_query(f, name, wanted, queried) ==> (queried matches Err(x) && x == e),
{
}

/// A column of a definition has the type of the file's column, and its name as it is read.
pub proof fn columns_are_of_the_file(column: ColumnView, col: TableCol)
    ensures
        fdb::gives_column(column, col) ==> col.data_type == column.data_type && col.name@
            == file::latin1_decoded(column.label),
{
}

// ---- Keys of numbers ----
/// The rows for a whole number are looked for in the bucket of that number: the remainder that it
/// leaves, 2^32 being added where it is below zero.
pub proof fn rows_for_a_number(t: TableView, key: Seq<char>, float: Option<u32>, i: int)
    requires
        t.columns.len() > 0,
        t.columns[0] matches Some(column) && column.data_type == ValueType::Integer,
        t.chains.len() > 0,
        value::written_integer(key) == Some(i),
        -0x8000_0000 <= i <= 0x7fff_ffff,
    ensures
        i >= 0 ==> tables::keyed(t, key, float) == Some(
            rows::matching(t.chains[i % t.chains.len() as int]->0, FieldView::Integer(i as i32)),
        ),
        i < 0 ==> tables::keyed(t, key, float) == Some(
            rows::matching(
                t.chains[(i + 0x1_0000_0000) % t.chains.len() as int]->0,
                FieldView::Integer(i as i32),
            ),
        ),
{
    values::buckets(i as i32, 0, seq![], false, 0, t.chains.len() as int);
    values::keys(key, float);
}

/// A table with whole numbers as its keys, each row in the bucket of its number, shows for a number
/// just the rows that have it.
pub proof fn rows_for_a_number_are_found(
    t: TableView,
    key: Seq<char>,
    float: Option<u32>,
    i: int,
)
    requires
        t.columns.len() > 0,
        t.columns[0] matches Some(column) && column.data_type == ValueType::Integer,
        t.chains.len() > 0,
        value::written_integer(key) == Some(i),
        -0x8000_0000 <= i <= 0x7fff_ffff,
        forall|j: int, k: int|
            0 <= j < t.chains.len() && 0 <= k < (t.chains[j]->0).len() ==> ((
            #[trigger] (t.chains[j]->0)[k])[0]->0 matches FieldView::Integer(x) && j == (if x < 0 {
                x + 0x1_0000_0000
            } else {
                x as int
            }) % t.chains.len() as int),
    ensures
        tables::keyed(t, key, float) == Some(
            rows::matching(fdb::all_rows(t.chains), FieldView::Integer(i as i32)),
        ),
{
    let n = t.chains.len() as int;
    assert forall|j: int, k: int|
        0 <= j < t.chains.len() && 0 <= k < (t.chains[j]->0).len() implies tables::bucket_of(
        (#[trigger] (t.chains[j]->0)[k])[0]->0,
        n,
    ) == j by {
        let cell = (t.chains[j]->0)[k][0]->0;
        values::buckets(cell->Integer_0, 0, seq![], false, 0, n);
    }
    values::keys(key, float);
    key_search_is_complete(t, key, float);
}

} // verus!
