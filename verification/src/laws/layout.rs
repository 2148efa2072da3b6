//! Laws of the layout of a database file.
use vstd::prelude::*;

use crate::file;
use crate::file::{CastError, Cells};
use crate::value::{FieldView, ValueType};

verus! {

// ---- Numbers, types and texts ----
/// Numbers are little-endian, and those below zero are in two's complement.
pub proof fn numbers(f: Seq<u8>, at: int, n: int, low: int, high: int)
    requires
        0 <= n < 0x1_0000_0000,
        0 <= low < 0x1_0000_0000,
        0 <= high < 0x1_0000_0000,
    ensures
        file::word(f, at) == f[at] + 256 * f[at + 1] + 65536 * f[at + 2] + 16777216 * f[at + 3],
        0 <= file::word(f, at) < 0x1_0000_0000,
        n < 0x8000_0000 ==> file::signed32(n) == n,
        n >= 0x8000_0000 ==> file::signed32(n) == n - 0x1_0000_0000,
        high < 0x8000_0000 ==> file::signed64(low, high) == low + 0x1_0000_0000 * high,
        high >= 0x8000_0000 ==> file::signed64(low, high) == low + 0x1_0000_0000 * (high
            - 0x1_0000_0000),
{
}

/// The numbers of the types; no other number stands for one.
pub proof fn types(n: int)
    ensures
        file::type_of(0) == Some(ValueType::Nothing),
        file::type_of(1) == Some(ValueType::Integer),
        file::type_of(3) == Some(ValueType::Float),
        file::type_of(4) == Some(ValueType::Text),
        file::type_of(5) == Some(ValueType::Boolean),
        file::type_of(6) == Some(ValueType::BigInt),
        file::type_of(8) == Some(ValueType::VarChar),
        file::type_of(n) is Some <==> n == 0 || n == 1 || n == 3 || n == 4 || n == 5 || n == 6 || n
            == 8,
{
}

/// A text goes up to the first zero or to the end of the file.
pub proof fn texts(f: Seq<u8>, at: int)
    requires
        0 <= at <= f.len(),
    ensures
        ({
            let n = file::text_at(f, at).len() as int;
            &&& at + n <= f.len()
            &&& file::text_at(f, at) == f.subrange(at, at + n)
            &&& forall|k: int| at <= k < at + n ==> #[trigger] f[k] != 0
            &&& at + n < f.len() ==> f[at + n] == 0
        }),
    decreases f.len() - at,
{
    if at < f.len() && f[at] != 0 {
        texts(f, at + 1);
        let n = file::text_at(f, at).len() as int;
        assert(file::text_at(f, at) =~= f.subrange(at, at + n));
    } else {
        assert(file::text_at(f, at) =~= f.subrange(at, at));
    }
}

/// ASCII bytes are read as the characters of the same numbers, and all bytes as Latin-1.
pub proof fn readings(bytes: Seq<u8>, text: Seq<char>)
    ensures
        file::reads_as(bytes, text) ==> text == file::latin1_decoded(bytes),
        file::reads_as(bytes, text) && (forall|k: int|
            0 <= k < bytes.len() ==> #[trigger] bytes[k] < 128) ==> text.len() == bytes.len()
            && forall|k: int| 0 <= k < bytes.len() ==> #[trigger] text[k] as int == bytes[k],
{
}

/// The machine's limits and the end of the file.
pub proof fn bounds(f: Seq<u8>, at: int, n: int)
    ensures
        file::within(f, at, n) <==> at + n <= f.len(),
        file::countable(at, n) <==> at + n <= usize::MAX,
{
}

// ---- The parts of a file ----
/// Where the parts of a file and of a table are.
pub proof fn places(f: Seq<u8>, i: int, h: int)
    ensures
        file::table_count(f) == file::word(f, 0),
        file::table_header(f, i) == file::word(f, 4) + 8 * i,
        file::def_at(f, h) == file::word(f, h),
        file::data_at(f, h) == file::word(f, h + 4),
        file::column_count(f, h) == file::word(f, file::word(f, h)),
        file::label_at(f, h) == file::word(f, file::word(f, h) + 4),
        file::columns_at(f, h) == file::word(f, file::word(f, h) + 8),
        file::bucket_count(f, h) == file::word(f, file::word(f, h + 4)),
        file::buckets_at(f, h) == file::word(f, file::word(f, h + 4) + 4),
{
}

/// When the array of tables can be read, and the offset that is reported where it cannot.
pub proof fn array_errors(f: Seq<u8>)
    ensures
        f.len() < 8 ==> file::tables_error(f) == Some(CastError::OutOfBounds { offset: 0 }),
        f.len() >= 8 && file::word(f, 4) + 8 * file::word(f, 0) > f.len() ==> (file::tables_error(
            f,
        ) matches Some(CastError::OutOfBounds { offset }) && offset == file::word(f, 4)),
        f.len() >= 8 && file::word(f, 4) + 8 * file::word(f, 0) <= f.len() ==> file::tables_error(
            f,
        ) is None,
        file::tables_countable(f) <==> (f.len() >= 8 ==> file::word(f, 4) + 8 * file::word(f, 0)
            <= usize::MAX),
{
}

/// A part that leads out of the file is reported by its offset: the first of the definition, the
/// data, the columns and the buckets.
pub proof fn table_errors(f: Seq<u8>, h: int)
    ensures
        ({
            let def = file::word(f, h);
            let data = file::word(f, h + 4);
            let columns = file::word(f, def + 8);
            let buckets = file::word(f, data + 4);
            let columns_end = columns + 8 * file::word(f, def);
            let buckets_end = buckets + 4 * file::word(f, data);
            match file::table_error(f, h) {
                Some(CastError::OutOfBounds { offset }) => {
                    ||| offset == def && def + 12 > f.len()
                    ||| offset == data && def + 12 <= f.len() && data + 8 > f.len()
                    ||| offset == columns && def + 12 <= f.len() && data + 8 <= f.len()
                        && columns_end > f.len()
                    ||| offset == buckets && def + 12 <= f.len() && data + 8 <= f.len()
                        && columns_end <= f.len() && buckets_end > f.len()
                },
                None => def + 12 <= f.len() && data + 8 <= f.len() && columns_end <= f.len()
                    && buckets_end <= f.len(),
            }
        }),
{
}

/// When a table can be opened, or at least be told that it cannot: its name starts in the file, and
/// the machine can count to the ends of its parts, as it can in a file that fits in memory.
pub proof fn openable_tables(f: Seq<u8>, h: int)
    ensures
        ({
            let def = file::word(f, h);
            let data = file::word(f, h + 4);
            file::openable(f, h) <==> {
                &&& def + 12 <= usize::MAX
                &&& data + 8 <= usize::MAX
                &&& def + 12 <= f.len() && data + 8 <= f.len() ==> {
                    &&& file::word(f, def + 4) <= f.len()
                    &&& file::word(f, def + 8) + 8 * file::word(f, def) <= usize::MAX
                    &&& file::word(f, data + 4) + 4 * file::word(f, data) <= usize::MAX
                }
            }
        }),
        f.len() <= usize::MAX && file::table_error(f, h) is None && file::label_at(f, h) <= f.len()
            ==> file::openable(f, h),
{
}

/// A column is a type and a place of a name. It is damaged where the type is unknown or the name
/// starts behind the file.
pub proof fn columns(f: Seq<u8>, at: int)
    ensures
        file::column_at(f, at) is Some <==> file::type_of(file::word(f, at)) is Some && file::word(
            f,
            at + 4,
        ) <= f.len(),
        file::column_at(f, at) matches Some(c) ==> Some(c.data_type) == file::type_of(
            file::word(f, at),
        ) && c.label == file::text_at(f, file::word(f, at + 4)),
{
}

/// A field is a type and a number, which is the value or the place of it. It is damaged where the
/// type is unknown or the value leads out of the file.
pub proof fn cells(f: Seq<u8>, at: int)
    ensures
        ({
            let ty = file::word(f, at);
            let n = file::word(f, at + 4);
            &&& ty == 0 ==> file::cell_at(f, at) == Some(FieldView::Nothing)
            &&& ty == 1 ==> file::cell_at(f, at) == Some(FieldView::Integer(file::signed32(n)))
            &&& ty == 3 ==> (file::cell_at(f, at) matches Some(FieldView::Float(bits)) && bits == n)
            &&& ty == 4 && n <= f.len() ==> file::cell_at(f, at) == Some(
                FieldView::Text(file::text_at(f, n)),
            )
            &&& ty == 5 ==> file::cell_at(f, at) == Some(FieldView::Boolean(n != 0))
            &&& ty == 6 && n + 8 <= f.len() ==> file::cell_at(f, at) == Some(
                FieldView::BigInt(file::signed64(file::word(f, n), file::word(f, n + 4))),
            )
            &&& ty == 8 && n <= f.len() ==> file::cell_at(f, at) == Some(
                FieldView::VarChar(file::text_at(f, n)),
            )
            &&& file::cell_at(f, at) is None <==> file::type_of(ty) is None || ((ty == 4 || ty == 8)
                && n > f.len()) || (ty == 6 && n + 8 > f.len())
        }),
{
}

/// A row is a number of fields and a place of them, one behind the other. It is damaged where they
/// lead out of the file.
pub proof fn rows(f: Seq<u8>, at: int, k: int)
    ensures
        file::row_at(f, at) is Some <==> at + 8 <= f.len() && file::word(f, at + 4) + 8
            * file::word(f, at) <= f.len(),
        file::row_at(f, at) matches Some(row) ==> row.len() == file::word(f, at) && (0 <= k
            < row.len() ==> row[k] == file::cell_at(f, file::word(f, at + 4) + 8 * k)),
{
}

/// A table has the label, the columns and the buckets that its header leads to, all of them in
/// order.
pub proof fn tables(f: Seq<u8>, h: int, k: int, j: int)
    ensures
        ({
            let t = file::table_at(f, h);
            &&& t.label == file::text_at(f, file::label_at(f, h))
            &&& t.columns.len() == file::column_count(f, h)
            &&& 0 <= k < t.columns.len() ==> t.columns[k] == file::column_at(
                f,
                file::columns_at(f, h) + 8 * k,
            )
            &&& t.chains.len() == file::bucket_count(f, h)
            &&& 0 <= j < t.chains.len() ==> t.chains[j] == file::bucket_at(f, h, j)
        }),
{
}

// ---- The lists of rows ----
/// Whether `entries` are the places of the entries of the linked list that starts at `start`.
pub open spec fn is_list(f: Seq<u8>, start: int, entries: Seq<int>) -> bool {
    &&& forall|k: int|
        0 <= k < entries.len() ==> #[trigger] entries[k] != 0xffff_ffff && entries[k] + 8
            <= f.len()
    &&& forall|k: int|
        0 <= k < entries.len() ==> #[trigger] entries[k] == if k == 0 {
            start
        } else {
            file::word(f, entries[k - 1] + 4)
        }
    &&& 0xffff_ffff == if entries.len() == 0 {
        start
    } else {
        file::word(f, entries[entries.len() - 1] + 4)
    }
}

/// Whether `rows` are the rows of the entries at these places.
pub open spec fn list_rows(f: Seq<u8>, entries: Seq<int>, rows: Seq<Cells>) -> bool {
    &&& rows.len() == entries.len()
    &&& forall|k: int|
        0 <= k < entries.len() ==> file::row_at(f, file::word(f, #[trigger] entries[k])) == Some(
            rows[k],
        )
}

proof fn lemma_chain(f: Seq<u8>, start: int, fuel: nat, entries: Seq<int>, rows: Seq<Cells>)
    requires
        is_list(f, start, entries),
        list_rows(f, entries, rows),
        entries.len() <= fuel,
    ensures
        file::chain_at(f, start, fuel) == Some(rows),
    decreases entries.len(),
{
    if entries.len() == 0 {
        assert(rows =~= Seq::<Cells>::empty());
    } else {
        let next = file::word(f, start + 4);
        let tail = entries.drop_first();
        assert(entries[0] == start);
        assert forall|k: int| 0 <= k < tail.len() implies #[trigger] tail[k] != 0xffff_ffff
            && tail[k] + 8 <= f.len() by {
            assert(tail[k] == entries[k + 1]);
        }
        assert forall|k: int| 0 <= k < tail.len() implies #[trigger] tail[k] == if k == 0 {
            next
        } else {
            file::word(f, tail[k - 1] + 4)
        } by {
            assert(tail[k] == entries[k + 1]);
            assert(k > 0 ==> tail[k - 1] == entries[k]);
        }
        if tail.len() > 0 {
            assert(tail[tail.len() - 1] == entries[entries.len() - 1]);
        }
        let rest = rows.drop_first();
        assert forall|k: int| 0 <= k < tail.len() implies file::row_at(
            f,
            file::word(f, #[trigger] tail[k]),
        ) == Some(rest[k]) by {
            assert(tail[k] == entries[k + 1]);
        }
        lemma_chain(f, next, (fuel - 1) as nat, tail, rest);
        assert(file::row_at(f, file::word(f, entries[0])) == Some(rows[0]));
        assert(rows =~= seq![rows[0]] + rest);
    }
}

proof fn lemma_entries(f: Seq<u8>, start: int, fuel: nat) -> (entries: Seq<int>)
    requires
        file::chain_at(f, start, fuel) is Some,
    ensures
        is_list(f, start, entries),
        list_rows(f, entries, file::chain_at(f, start, fuel)->0),
    decreases fuel,
{
    if start == 0xffff_ffff {
        seq![]
    } else {
        let next = file::word(f, start + 4);
        let tail = lemma_entries(f, next, (fuel - 1) as nat);
        let rest = file::chain_at(f, next, (fuel - 1) as nat)->0;
        let rows = file::chain_at(f, start, fuel)->0;
        let entries = seq![start] + tail;
        assert(rows == seq![rows[0]] + rest);
        assert forall|k: int| 0 <= k < entries.len() implies #[trigger] entries[k] != 0xffff_ffff
            && entries[k] + 8 <= f.len() by {
            if k > 0 {
                assert(entries[k] == tail[k - 1]);
            }
        }
        assert forall|k: int| 0 <= k < entries.len() implies #[trigger] entries[k] == if k == 0 {
            start
        } else {
            file::word(f, entries[k - 1] + 4)
        } by {
            if k > 0 {
                assert(entries[k] == tail[k - 1]);
                if k > 1 {
                    assert(entries[k - 1] == tail[k - 2]);
                }
            }
        }
        if tail.len() > 0 {
            assert(entries[entries.len() - 1] == tail[tail.len() - 1]);
        }
        assert forall|k: int| 0 <= k < entries.len() implies file::row_at(
            f,
            file::word(f, #[trigger] entries[k]),
        ) == Some(rows[k]) by {
            if k > 0 {
                assert(entries[k] == tail[k - 1]);
            }
        }
        entries
    }
}

/// A bucket holds the rows of its list, all of them in order. A list visits no more entries than the
/// file has bytes.
pub proof fn buckets_hold_their_lists(
    f: Seq<u8>,
    h: int,
    j: int,
    entries: Seq<int>,
    rows: Seq<Cells>,
)
    requires
        is_list(f, file::word(f, file::buckets_at(f, h) + 4 * j), entries),
        list_rows(f, entries, rows),
        entries.len() <= f.len(),
    ensures
        file::bucket_at(f, h, j) == Some(rows),
{
    lemma_chain(f, file::word(f, file::buckets_at(f, h) + 4 * j), f.len(), entries, rows);
}

/// A bucket that is not damaged has a list that ends, and holds the rows of that list.
pub proof fn lists_end(f: Seq<u8>, h: int, j: int)
    requires
        file::bucket_at(f, h, j) is Some,
    ensures
        exists|entries: Seq<int>| #[trigger]
            is_list(f, file::word(f, file::buckets_at(f, h) + 4 * j), entries) && list_rows(
                f,
                entries,
                file::bucket_at(f, h, j)->0,
            ),
{
    let entries = lemma_entries(f, file::word(f, file::buckets_at(f, h) + 4 * j), f.len());
}

// ---- The order of names ----
/// Whether the first `k` bytes at `at` are those of `q`.
pub open spec fn agrees(f: Seq<u8>, at: int, q: Seq<u8>, i: int, k: int) -> bool {
    forall|j: int| i <= j < k ==> f[at + j] == #[trigger] q[j]
}

proof fn lemma_order(f: Seq<u8>, at: int, q: Seq<u8>, i: int) -> (k: int)
    requires
        0 <= i <= q.len(),
    ensures
        i <= k <= q.len(),
        agrees(f, at, q, i, k),
        k < q.len() ==> f[at + k] != q[k],
        file::label_order(f, at, q, i) == if k == q.len() {
            if f[at + k] == 0 {
                0int
            } else {
                1
            }
        } else if f[at + k] < q[k] {
            -1
        } else {
            1
        },
        file::label_comparable(f, at, q, i) <==> at + k < f.len(),
    decreases q.len() - i,
{
    if i < q.len() && f[at + i] == q[i] {
        let k = lemma_order(f, at, q, i + 1);
        assert(agrees(f, at, q, i, k));
        k
    } else {
        i
    }
}

/// Names are compared byte by byte: the first byte that differs decides, and a name that goes on
/// behind the last byte that is asked for comes after. The comparison can be made where that byte
/// is in the file.
pub proof fn order_of_names(f: Seq<u8>, q: Seq<u8>, i: int)
    ensures
        ({
            let at = file::label_at(f, file::table_header(f, i));
            exists|k: int| #[trigger]
                agrees(f, at, q, 0, k) && 0 <= k <= q.len() && (k < q.len() ==> f[at + k] != q[k])
                    && (file::order(f, q, i) < 0 <==> k < q.len() && f[at + k] < q[k]) && (
                file::order(f, q, i) == 0 <==> k == q.len() && f[at + k] == 0) && (
                file::label_comparable(f, at, q, 0) <==> at + k < f.len())
        }),
        -1 <= file::order(f, q, i) <= 1,
{
    let k = lemma_order(f, file::label_at(f, file::table_header(f, i)), q, 0);
}

/// The tables are in order for a name where no table that comes after it stands before one that is
/// equal or comes before, nor one that is equal before one that comes before.
pub proof fn order_of_tables(f: Seq<u8>, q: Seq<u8>)
    ensures
        file::sorted(f, q) <==> forall|i: int, j: int|
            0 <= i < j < file::word(f, 0) ==> #[trigger] file::order(f, q, i)
                <= #[trigger] file::order(f, q, j),
        forall|i: int|
            file::candidate(f, q, i) <==> 0 <= i < file::word(f, 0) && (file::sorted(f, q)
                ==> #[trigger] file::order(f, q, i) == 0),
{
}

/// A search ends at a table that it may end at, or nowhere. Where the tables are in order it ends at
/// one that has the name if there is one, and always at the same.
pub proof fn ends_of_searches(f: Seq<u8>, q: Seq<u8>, hit: Option<int>)
    ensures
        file::search_ends(f, q, hit) && file::sorted(f, q) ==> hit == file::search_end(f, q),
        file::search_ends(f, q, hit) && hit is Some ==> 0 <= hit->0 < file::word(f, 0),
        file::search_ends(f, q, hit) && file::sorted(f, q) ==> (hit is Some <==> exists|i: int|
            0 <= i < file::word(f, 0) && #[trigger] file::order(f, q, i) == 0),
        file::search_ends(f, q, hit) && file::sorted(f, q) && hit is Some ==> file::order(
            f,
            q,
            hit->0,
        ) == 0,
{
}

/// In a file whose tables have their definitions and the ends of their names within it, every name
/// without a zero in it can be searched for.
pub proof fn whole_files_can_be_searched(f: Seq<u8>, q: Seq<u8>)
    requires
        f.len() <= usize::MAX,
        forall|k: int| 0 <= k < q.len() ==> #[trigger] q[k] != 0,
        forall|i: int|
            0 <= i < file::word(f, 0) ==> {
                let h = #[trigger] file::table_header(f, i);
                let label = file::label_at(f, h);
                &&& file::table_error(f, h) is None
                &&& label + file::text_at(f, label).len() < f.len()
            },
    ensures
        file::searchable(f, q),
{
    assert forall|i: int| 0 <= i < file::table_count(f) implies {
        &&& file::within(f, file::def_at(f, #[trigger] file::table_header(f, i)), 12)
        &&& file::label_comparable(f, file::label_at(f, file::table_header(f, i)), q, 0)
    } by {
        let h = file::table_header(f, i);
        let label = file::label_at(f, h);
        texts(f, label);
        let n = file::text_at(f, label).len() as int;
        let k = lemma_order(f, label, q, 0);
        if k > n {
            assert(f[label + n] == q[n]);
        }
    }
    assert forall|i: int| #[trigger] file::candidate(f, q, i) implies file::openable(
        f,
        file::table_header(f, i),
    ) by {
        openable_tables(f, file::table_header(f, i));
    }
}

} // verus!
