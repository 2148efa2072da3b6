//! Tests for damage in a database file, so that nothing is read that leads out of it.
use vstd::prelude::*;
use vstd::utf8;

use crate::fdb::Database;
use crate::file;
use crate::file::{Cells, TableView};
use crate::rows;
use crate::tables;
use crate::value;
use crate::value::{FastContext, Field, FieldView, ValueType};

verus! {

/// The number of 32 bits at `at`.
fn word(f: &[u8], at: u64) -> (n: u32)
    requires
        at + 4 <= f@.len(),
    ensures
        n == file::word(f@, at as int),
{
    let i: usize = at as usize;
    let a: u32 = f[i] as u32;
    let b: u32 = f[i + 1] as u32;
    let c: u32 = f[i + 2] as u32;
    let d: u32 = f[i + 3] as u32;
    a + 0x100 * b + 0x1_0000 * c + 0x100_0000 * d
}

/// Whether the `n` bytes from `at` on are in the file.
fn within(f: &[u8], at: u64, n: u64) -> (r: bool)
    requires
        at + n <= u64::MAX,
    ensures
        r == file::within(f@, at as int, n as int),
{
    at + n <= f.len() as u64
}

/// Whether the machine can count to the end of the `n` bytes from `at` on.
fn countable(at: u64, n: u64) -> (r: bool)
    requires
        at + n <= u64::MAX,
    ensures
        r == file::countable(at as int, n as int),
{
    at + n <= usize::MAX as u64
}

/// Whether the machine can count to the end of the array of table headers, and whether the array
/// can be read.
fn tables_status(f: &[u8]) -> (r: (bool, bool))
    ensures
        r.0 == file::tables_countable(f@),
        r.1 == (file::tables_error(f@) is None),
{
    if f.len() < 8 {
        return (true, false);
    }
    let at: u64 = word(f, 4) as u64;
    let n: u64 = 8 * (word(f, 0) as u64);
    (countable(at, n), within(f, at, n))
}

/// Whether an attempt to open the table at `h` ends well or with an error, and whether it ends
/// well.
fn table_status(f: &[u8], h: u64) -> (r: (bool, bool))
    requires
        h + 8 <= f@.len(),
    ensures
        r.0 == file::openable(f@, h as int),
        r.1 == (file::table_error(f@, h as int) is None),
{
    let len: u64 = f.len() as u64;
    let def: u64 = word(f, h) as u64;
    let data: u64 = word(f, h + 4) as u64;
    let heads: bool = countable(def, 12) && countable(data, 8);
    if !within(f, def, 12) || !within(f, data, 8) {
        return (heads, false);
    }
    let label: u64 = word(f, def + 4) as u64;
    let columns: u64 = word(f, def + 8) as u64;
    let columns_len: u64 = 8 * (word(f, def) as u64);
    let buckets: u64 = word(f, data + 4) as u64;
    let buckets_len: u64 = 4 * (word(f, data) as u64);
    let openable: bool = heads && label <= len && countable(columns, columns_len)
        && countable(buckets, buckets_len);
    (openable, within(f, columns, columns_len) && within(f, buckets, buckets_len))
}

/// Whether reading the names of all tables stays within the file.
pub fn listable(db: Database<'_>) -> (r: bool)
    ensures
        r == tables::listable(db@),
{
    let f: &[u8] = db.file;
    let (can_count, can_read) = tables_status(f);
    if !can_count || !can_read {
        return can_count;
    }
    let at: u64 = word(f, 4) as u64;
    let n: u64 = word(f, 0) as u64;
    let mut i: u64 = 0;
    while i < n
        invariant
            f@ == db@,
            i <= n,
            n == file::table_count(f@),
            at == file::word(f@, 4),
            at <= u32::MAX,
            n <= u32::MAX,
            file::tables_countable(f@),
            file::tables_error(f@) is None,
            tables::first_error(f@, i as int) is None,
            forall|j: int|
                0 <= j < i ==> file::openable(f@, #[trigger] file::table_header(f@, j)),
        decreases n - i,
    {
        let h: u64 = at + 8 * i;
        assert(h == file::table_header(f@, i as int));
        let (can_open, opens) = table_status(f, h);
        if !can_open {
            return false;
        }
        if !opens {
            assert forall|j: int|
                0 <= j < file::table_count(f@) && tables::first_error(
                    f@,
                    j,
                ) is None implies file::openable(f@, #[trigger] file::table_header(f@, j)) by {
                if j > i {
                    tables::lemma_first_error(f@, i + 1, j);
                }
            }
            return true;
        }
        i = i + 1;
    }
    true
}

/// How the name at `at` compares with `q`, where that can be told without leaving the file.
fn compare_label(f: &[u8], at: u64, q: &[u8]) -> (r: Option<i8>)
    requires
        at <= u32::MAX,
    ensures
        r is Some <==> file::label_comparable(f@, at as int, q@, 0),
        r matches Some(o) ==> o == file::label_order(f@, at as int, q@, 0),
{
    let len: u64 = f.len() as u64;
    let n: usize = q.len();
    let mut i: usize = 0;
    loop
        invariant
            len == f@.len(),
            len <= usize::MAX,
            n == q@.len(),
            at <= u32::MAX,
            i <= n,
            file::label_comparable(f@, at as int, q@, 0) == file::label_comparable(
                f@,
                at as int,
                q@,
                i as int,
            ),
            file::label_order(f@, at as int, q@, 0) == file::label_order(
                f@,
                at as int,
                q@,
                i as int,
            ),
        decreases n - i,
    {
        if at >= len || (i as u64) >= len - at {
            return None;
        }
        let b: u8 = f[at as usize + i];
        if i == n {
            return Some(if b == 0 { 0i8 } else { 1i8 });
        }
        if b < q[i] {
            return Some(-1i8);
        }
        if b > q[i] {
            return Some(1i8);
        }
        i = i + 1;
    }
}

/// Where the headers of the tables are that a search for `name` may end at and that can be opened;
/// nothing where the search does not stay within the file.
fn candidates(db: Database<'_>, name: &str) -> (r: Option<Vec<u64>>)
    ensures
        r is Some <==> tables::findable(db@, name@),
        r matches Some(found) ==> candidates_are(db@, utf8::encode_utf8(name@), found@),
{
    let f: &[u8] = db.file;
    let q: &[u8] = name.as_bytes();
    let (can_count, can_read) = tables_status(f);
    let mut found: Vec<u64> = Vec::new();
    if !can_count {
        return None;
    }
    if !can_read {
        return Some(found);
    }
    let at: u64 = word(f, 4) as u64;
    let n: u64 = word(f, 0) as u64;
    let mut orders: Vec<i8> = Vec::new();
    let mut in_order: bool = true;
    let mut i: u64 = 0;
    while i < n
        invariant
            f@ == db@,
            q@ == utf8::encode_utf8(name@),
            i <= n,
            n == file::table_count(f@),
            at == file::word(f@, 4),
            at <= u32::MAX,
            n <= u32::MAX,
            file::tables_error(f@) is None,
            orders@.len() == i,
            forall|j: int|
                0 <= j < i ==> {
                    &&& file::within(f@, file::def_at(f@, #[trigger] file::table_header(f@, j)), 12)
                    &&& file::label_comparable(
                        f@,
                        file::label_at(f@, file::table_header(f@, j)),
                        q@,
                        0,
                    )
                },
            forall|j: int| 0 <= j < i ==> #[trigger] orders@[j] == file::order(f@, q@, j),
            in_order == nondecreasing(orders@),
        decreases n - i,
    {
        let h: u64 = at + 8 * i;
        assert(h == file::table_header(f@, i as int));
        let def: u64 = word(f, h) as u64;
        if !within(f, def, 12) {
            return None;
        }
        match compare_label(f, word(f, def + 4) as u64, q) {
            None => {
                return None;
            },
            Some(o) => {
                proof {
                    lemma_nondecreasing_push(orders@, o);
                }
                if i > 0 && orders[i as usize - 1] > o {
                    in_order = false;
                }
                orders.push(o);
            },
        }
        i = i + 1;
    }
    proof {
        lemma_sorted(f@, q@, orders@);
    }
    i = 0;
    while i < n
        invariant
            f@ == db@,
            q@ == utf8::encode_utf8(name@),
            i <= n,
            n == file::table_count(f@),
            at == file::word(f@, 4),
            at <= u32::MAX,
            n <= u32::MAX,
            file::tables_error(f@) is None,
            orders@.len() == n,
            in_order == file::sorted(f@, q@),
            forall|j: int| 0 <= j < n ==> #[trigger] orders@[j] == file::order(f@, q@, j),
            forall|j: int|
                0 <= j < i && #[trigger] file::candidate(f@, q@, j) ==> {
                    &&& file::openable(f@, file::table_header(f@, j))
                    &&& file::table_error(f@, file::table_header(f@, j)) is None ==> found@.contains(
                        file::table_header(f@, j) as u64,
                    )
                },
            forall|k: int|
                0 <= k < found@.len() ==> candidate_header(f@, q@, #[trigger] found@[k] as int),
        decreases n - i,
    {
        assert(orders@[i as int] == file::order(f@, q@, i as int));
        if !in_order || orders[i as usize] == 0 {
            assert(file::candidate(f@, q@, i as int));
            let h: u64 = at + 8 * i;
            assert(h == file::table_header(f@, i as int));
            let (can_open, opens) = table_status(f, h);
            if !can_open {
                return None;
            }
            if opens {
                let ghost before = found@;
                found.push(h);
                assert(found@[before.len() as int] == h);
                assert forall|x: u64| before.contains(x) implies found@.contains(x) by {
                    let k = before.index_of(x);
                    assert(found@[k] == x);
                }
            }
        }
        i = i + 1;
    }
    Some(found)
}

/// Whether the table at `h` can be opened and a search for `q` may end at it.
pub open spec fn candidate_header(f: Seq<u8>, q: Seq<u8>, h: int) -> bool {
    &&& file::tables_error(f) is None
    &&& h + 8 <= f.len()
    &&& file::table_error(f, h) is None
    &&& exists|i: int| #[trigger] file::candidate(f, q, i) && h == file::table_header(f, i)
}

/// Whether `found` are the places of all tables that can be opened and that a search for `q` may
/// end at.
pub open spec fn candidates_are(f: Seq<u8>, q: Seq<u8>, found: Seq<u64>) -> bool {
    &&& forall|k: int| 0 <= k < found.len() ==> candidate_header(f, q, #[trigger] found[k] as int)
    &&& file::tables_error(f) is None ==> forall|i: int| #[trigger]
        file::candidate(f, q, i) && file::table_error(f, file::table_header(f, i)) is None
            ==> found.contains(file::table_header(f, i) as u64)
}

spec fn nondecreasing(s: Seq<i8>) -> bool {
    forall|j: int, k: int| 0 <= j < k < s.len() ==> #[trigger] s[j] <= #[trigger] s[k]
}

proof fn lemma_nondecreasing_push(s: Seq<i8>, o: i8)
    ensures
        nondecreasing(s.push(o)) == (nondecreasing(s) && (s.len() > 0 ==> s.last() <= o)),
{
    let t = s.push(o);
    if nondecreasing(t) {
        assert forall|j: int, k: int| 0 <= j < k < s.len() implies #[trigger] s[j]
            <= #[trigger] s[k] by {
            assert(t[j] <= t[k]);
        }
        if s.len() > 0 {
            assert(t[s.len() - 1] <= t[s.len() as int]);
        }
    }
}

proof fn lemma_sorted(f: Seq<u8>, q: Seq<u8>, orders: Seq<i8>)
    requires
        orders.len() == file::table_count(f),
        forall|j: int| 0 <= j < orders.len() ==> #[trigger] orders[j] == file::order(f, q, j),
    ensures
        file::sorted(f, q) == nondecreasing(orders),
{
    if file::sorted(f, q) {
        assert forall|j: int, k: int| 0 <= j < k < orders.len() implies #[trigger] orders[j]
            <= #[trigger] orders[k] by {
            assert(file::order(f, q, j) <= file::order(f, q, k));
        }
    }
    if nondecreasing(orders) {
        assert forall|i: int, j: int| 0 <= i < j < file::table_count(f) implies #[trigger]
            file::order(f, q, i) <= #[trigger] file::order(f, q, j) by {
            assert(orders[i] <= orders[j]);
        }
    }
}

/// The type that a number stands for.
fn type_at(n: u32) -> (r: Option<ValueType>)
    ensures
        r == file::type_of(n as int),
{
    match n {
        0 => Some(ValueType::Nothing),
        1 => Some(ValueType::Integer),
        3 => Some(ValueType::Float),
        4 => Some(ValueType::Text),
        5 => Some(ValueType::Boolean),
        6 => Some(ValueType::BigInt),
        8 => Some(ValueType::VarChar),
        _ => None,
    }
}

/// The type of the column at `at`; nothing where the column is damaged.
fn column_type(f: &[u8], at: u64) -> (r: Option<ValueType>)
    requires
        at + 8 <= f@.len(),
        at <= 0xf_0000_0000,
    ensures
        match file::column_at(f@, at as int) {
            None => r is None,
            Some(column) => r == Some(column.data_type),
        },
{
    if word(f, at + 4) as u64 <= f.len() as u64 {
        type_at(word(f, at))
    } else {
        None
    }
}

/// Whether no column of the table at `h` is damaged.
fn columns_ok(f: &[u8], h: u64) -> (r: bool)
    requires
        h + 8 <= f@.len(),
        h <= 0xf_0000_0000,
        file::table_error(f@, h as int) is None,
    ensures
        r == tables::columns_readable(file::table_at(f@, h as int)),
{
    let ghost t = file::table_at(f@, h as int);
    let def: u64 = word(f, h) as u64;
    let at: u64 = word(f, def + 8) as u64;
    let n: u64 = word(f, def) as u64;
    let mut k: u64 = 0;
    while k < n
        invariant
            h + 8 <= f@.len(),
            file::table_error(f@, h as int) is None,
            t == file::table_at(f@, h as int),
            at == file::columns_at(f@, h as int),
            n == file::column_count(f@, h as int),
            n == t.columns.len(),
            at <= u32::MAX,
            n <= u32::MAX,
            k <= n,
            forall|i: int| 0 <= i < k ==> #[trigger] t.columns[i] is Some,
        decreases n - k,
    {
        let place: u64 = at + 8 * k;
        assert(t.columns[k as int] == file::column_at(f@, place as int));
        if column_type(f, place).is_none() {
            return false;
        }
        k = k + 1;
    }
    true
}

/// The type of the first column of the table at `h`; nothing where there is none or it is damaged.
fn key_column(f: &[u8], h: u64) -> (r: Option<ValueType>)
    requires
        h + 8 <= f@.len(),
        h <= 0xf_0000_0000,
        file::table_error(f@, h as int) is None,
    ensures
        r is Some <==> tables::has_key_column(file::table_at(f@, h as int)),
        r matches Some(ty) ==> ty == tables::key_type(file::table_at(f@, h as int)),
{
    let ghost t = file::table_at(f@, h as int);
    let def: u64 = word(f, h) as u64;
    let at: u64 = word(f, def + 8) as u64;
    if word(f, def) == 0 {
        return None;
    }
    assert(t.columns[0] == file::column_at(f@, at as int));
    column_type(f, at)
}

/// Whether the field at `at` is not damaged.
fn cell_ok(f: &[u8], at: u64) -> (r: bool)
    requires
        at + 8 <= f@.len(),
        at <= 0xf_0000_0000,
    ensures
        r == (file::cell_at(f@, at as int) is Some),
{
    let n: u64 = word(f, at + 4) as u64;
    match type_at(word(f, at)) {
        None => false,
        Some(ValueType::Text) => n <= f.len() as u64,
        Some(ValueType::VarChar) => n <= f.len() as u64,
        Some(ValueType::BigInt) => within(f, n, 8),
        Some(_) => true,
    }
}

/// The bytes from `at` up to the first zero, or to the end of the file.
fn text_at(f: &[u8], at: u64) -> (r: Vec<u8>)
    requires
        at <= f@.len(),
    ensures
        r@ == file::text_at(f@, at as int),
        file::text_at(r@, 0) == r@,
{
    let n: usize = f.len();
    let mut bytes: Vec<u8> = Vec::new();
    let mut i: usize = at as usize;
    assert(bytes@ + file::text_at(f@, i as int) =~= file::text_at(f@, at as int));
    while i < n && f[i] != 0
        invariant
            n == f@.len(),
            at <= i <= n,
            bytes@ + file::text_at(f@, i as int) == file::text_at(f@, at as int),
            forall|k: int| 0 <= k < bytes@.len() ==> #[trigger] bytes@[k] != 0,
        decreases n - i,
    {
        let ghost before = bytes@;
        bytes.push(f[i]);
        assert(bytes@ + file::text_at(f@, i + 1) =~= before + file::text_at(f@, i as int));
        i = i + 1;
    }
    assert(bytes@ + file::text_at(f@, i as int) =~= bytes@);
    proof {
        lemma_whole_text(bytes@, 0);
        assert(bytes@.skip(0) =~= bytes@);
    }
    bytes
}

/// A text without zeros is as long as its bytes.
proof fn lemma_whole_text(bytes: Seq<u8>, i: int)
    requires
        0 <= i <= bytes.len(),
        forall|k: int| 0 <= k < bytes.len() ==> #[trigger] bytes[k] != 0,
    ensures
        file::text_at(bytes, i) == bytes.skip(i),
    decreases bytes.len() - i,
{
    if i < bytes.len() {
        lemma_whole_text(bytes, i + 1);
        assert(bytes.skip(i) =~= seq![bytes[i]] + bytes.skip(i + 1));
    } else {
        assert(bytes.skip(i) =~= Seq::<u8>::empty());
    }
}

/// The number that 32 bits stand for in two's complement.
fn signed32(n: u32) -> (r: i32)
    ensures
        r == file::signed32(n as int),
{
    let r: i32 = n as i32;
    assert(n < 0x8000_0000 ==> r == n) by (bit_vector)
        requires r == n as i32;
    assert(n >= 0x8000_0000 ==> r == n - 0x1_0000_0000) by (bit_vector)
        requires r == n as i32;
    r
}

/// The number that 64 bits, given in two halves, stand for in two's complement.
fn signed64(low: u32, high: u32) -> (r: i64)
    ensures
        r == file::signed64(low as int, high as int),
{
    let h: i32 = signed32(high);
    0x1_0000_0000 * (h as i64) + (low as i64)
}

/// The field at `at`.
fn cell(f: &[u8], at: u64) -> (r: Field)
    requires
        at + 8 <= f@.len(),
        at <= 0xf_0000_0000,
        file::cell_at(f@, at as int) is Some,
    ensures
        file::cell_at(f@, at as int) == Some(r@),
{
    let n: u32 = word(f, at + 4);
    match type_at(word(f, at)) {
        None => Field::Nothing,
        Some(ValueType::Nothing) => Field::Nothing,
        Some(ValueType::Integer) => Field::Integer(signed32(n)),
        Some(ValueType::Float) => Field::Float(n),
        Some(ValueType::Text) => Field::Text(text_at(f, n as u64)),
        Some(ValueType::Boolean) => Field::Boolean(n != 0),
        Some(ValueType::BigInt) => {
            let low: u32 = word(f, n as u64);
            let high: u32 = word(f, n as u64 + 4);
            Field::BigInt(signed64(low, high))
        },
        Some(ValueType::VarChar) => Field::VarChar(text_at(f, n as u64)),
    }
}

/// The choice of all of `n` columns.
pub open spec fn all_columns(n: nat) -> Seq<bool> {
    Seq::new(n, |k: int| true)
}

/// The choice of those columns of a table whose name is wanted.
pub open spec fn wanted_columns(t: TableView, wanted: Seq<Seq<char>>) -> Seq<bool> {
    tables::names_of(t).map_values(|name: Seq<char>| wanted.contains(name))
}

/// Whether none of the fields of a row in the chosen columns is damaged.
pub open spec fn cells_shown(cells: Cells, choice: Seq<bool>) -> bool {
    forall|k: int|
        0 <= k < choice.len() && k < cells.len() && choice[k] ==> #[trigger] cells[k] is Some
}

/// Whether a row can be shown with the chosen columns. Where there is a key, the row must have a
/// first field, and it is shown only where that equals the key.
pub open spec fn row_shown(cells: Cells, choice: Seq<bool>, key: Option<FieldView>) -> bool {
    match key {
        None => cells_shown(cells, choice),
        Some(gate) => {
            &&& rows::has_key(cells)
            &&& value::field_eq(gate, cells[0]->0) ==> cells_shown(cells, choice)
        },
    }
}

/// Whether a bucket is not damaged, and all its rows can be shown so.
pub open spec fn chain_shown(
    chain: Option<Seq<Cells>>,
    choice: Seq<bool>,
    key: Option<FieldView>,
) -> bool {
    &&& chain matches Some(rows)
    &&& forall|i: int| 0 <= i < rows.len() ==> row_shown(#[trigger] rows[i], choice, key)
}

/// [`Field`] of a key over the bytes of its texts.
pub open spec fn key_view(key: Option<&Field>) -> Option<FieldView> {
    match key {
        None => None,
        Some(gate) => Some(gate@),
    }
}

/// Whether the row whose header is at `at` is not damaged and can be shown with the chosen columns.
fn row_ok(f: &[u8], at: u64, choice: &Vec<bool>, key: Option<&Field>) -> (r: bool)
    requires
        at <= u32::MAX,
    ensures
        r == (file::row_at(f@, at as int) matches Some(cells) && row_shown(
            cells,
            choice@,
            key_view(key),
        )),
{
    if !within(f, at, 8) {
        return false;
    }
    let count: u64 = word(f, at) as u64;
    let first: u64 = word(f, at + 4) as u64;
    if !within(f, first, 8 * count) {
        return false;
    }
    let ghost cells = file::row_at(f@, at as int)->0;
    if let Some(gate) = key {
        if count == 0 {
            return false;
        }
        assert(cells[0] == file::cell_at(f@, first as int));
        if !cell_ok(f, first) {
            return false;
        }
        if !gate.same(&cell(f, first)) {
            return true;
        }
    }
    let n: u64 = choice.len() as u64;
    let mut k: u64 = 0;
    while k < count && k < n
        invariant
            file::row_at(f@, at as int) == Some(cells),
            cells.len() == count,
            n == choice@.len(),
            first == file::word(f@, at + 4),
            count == file::word(f@, at as int),
            first + 8 * count <= f@.len(),
            first <= u32::MAX,
            count <= u32::MAX,
            k <= count,
            k <= n,
            row_shown(cells, choice@, key_view(key)) == cells_shown(cells, choice@),
            forall|i: int| 0 <= i < k && choice@[i] ==> #[trigger] cells[i] is Some,
        decreases count - k,
    {
        assert(cells[k as int] == file::cell_at(f@, first + 8 * k));
        if choice[k as usize] && !cell_ok(f, first + 8 * k) {
            return false;
        }
        k = k + 1;
    }
    true
}

proof fn lemma_chain_step(
    f: Seq<u8>,
    at: int,
    fuel: nat,
    choice: Seq<bool>,
    key: Option<FieldView>,
)
    requires
        at != 0xffff_ffff,
        fuel > 0,
        file::within(f, at, 8),
    ensures
        chain_shown(file::chain_at(f, at, fuel), choice, key) == (match file::row_at(
            f,
            file::word(f, at),
        ) {
            None => false,
            Some(cells) => row_shown(cells, choice, key) && chain_shown(
                file::chain_at(f, file::word(f, at + 4), (fuel - 1) as nat),
                choice,
                key,
            ),
        }),
{
    let rest = file::chain_at(f, file::word(f, at + 4), (fuel - 1) as nat);
    if let (Some(cells), Some(tail)) = (file::row_at(f, file::word(f, at)), rest) {
        let all = seq![cells] + tail;
        let shown: Option<Seq<Cells>> = Some(all);
        assert(file::chain_at(f, at, fuel) == shown);
        assert(shown->0 == all);
        if chain_shown(shown, choice, key) {
            assert(row_shown(all[0], choice, key));
            assert forall|i: int| 0 <= i < tail.len() implies row_shown(
                #[trigger] tail[i],
                choice,
                key,
            ) by {
                assert(all[i + 1] == tail[i]);
            }
        }
        if row_shown(cells, choice, key) && chain_shown(rest, choice, key) {
            assert forall|i: int| 0 <= i < all.len() implies row_shown(
                #[trigger] all[i],
                choice,
                key,
            ) by {
                if i > 0 {
                    assert(all[i] == tail[i - 1]);
                }
            }
        }
    }
}

/// Whether the bucket whose list starts at `start` is not damaged, and all its rows can be shown
/// so.
fn chain_ok(f: &[u8], start: u32, choice: &Vec<bool>, key: Option<&Field>) -> (r: bool)
    ensures
        r == chain_shown(file::chain_at(f@, start as int, f@.len()), choice@, key_view(key)),
{
    let mut fuel: usize = f.len();
    let mut at: u32 = start;
    loop
        invariant
            chain_shown(file::chain_at(f@, start as int, f@.len()), choice@, key_view(key))
                == chain_shown(
                file::chain_at(f@, at as int, fuel as nat),
                choice@,
                key_view(key),
            ),
        decreases fuel,
    {
        if at == 0xffff_ffff {
            return true;
        }
        if fuel == 0 || !within(f, at as u64, 8) {
            return false;
        }
        let row: u64 = word(f, at as u64) as u64;
        let next: u32 = word(f, at as u64 + 4);
        let ok: bool = row_ok(f, row, choice, key);
        proof {
            lemma_chain_step(f@, at as int, fuel as nat, choice@, key_view(key));
        }
        if !ok {
            return false;
        }
        at = next;
        fuel = fuel - 1;
    }
}

/// Whether no bucket of a table is damaged, and all rows can be shown with the chosen columns.
pub open spec fn rows_shown(t: TableView, choice: Seq<bool>) -> bool {
    forall|j: int|
        0 <= j < t.chains.len() ==> chain_shown(#[trigger] t.chains[j], choice, None)
}

/// Whether no bucket of the table at `h` is damaged, and all its rows can be shown with the chosen
/// columns.
fn chains_ok(f: &[u8], h: u64, choice: &Vec<bool>) -> (r: bool)
    requires
        h + 8 <= f@.len(),
        h <= 0xf_0000_0000,
        file::table_error(f@, h as int) is None,
    ensures
        r == rows_shown(file::table_at(f@, h as int), choice@),
{
    let ghost t = file::table_at(f@, h as int);
    let data: u64 = word(f, h + 4) as u64;
    let at: u64 = word(f, data + 4) as u64;
    let n: u64 = word(f, data) as u64;
    let mut j: u64 = 0;
    while j < n
        invariant
            h + 8 <= f@.len(),
            file::table_error(f@, h as int) is None,
            t == file::table_at(f@, h as int),
            at == file::buckets_at(f@, h as int),
            n == file::bucket_count(f@, h as int),
            n == t.chains.len(),
            at <= u32::MAX,
            n <= u32::MAX,
            j <= n,
            forall|i: int| 0 <= i < j ==> chain_shown(#[trigger] t.chains[i], choice@, None),
        decreases n - j,
    {
        assert(t.chains[j as int] == file::bucket_at(f@, h as int, j as int));
        if !chain_ok(f, word(f, at + 4 * j), choice, None) {
            return false;
        }
        j = j + 1;
    }
    true
}

/// The choice of all columns of the table at `h`.
fn choose_all(f: &[u8], h: u64) -> (choice: Vec<bool>)
    requires
        h + 8 <= f@.len(),
        h <= 0xf_0000_0000,
        file::table_error(f@, h as int) is None,
    ensures
        choice@ == all_columns(file::table_at(f@, h as int).columns.len()),
{
    let def: u64 = word(f, h) as u64;
    let n: u32 = word(f, def);
    let mut choice: Vec<bool> = Vec::new();
    for k in 0..n
        invariant
            choice@ == all_columns(k as nat),
    {
        choice.push(true);
        assert(choice@ =~= all_columns((k + 1) as nat));
    }
    choice
}

/// The choice of the columns of the table at `h` whose name is wanted.
fn choose_wanted(f: &[u8], h: u64, wanted: &Vec<String>) -> (choice: Vec<bool>)
    requires
        h + 8 <= f@.len(),
        h <= 0xf_0000_0000,
        file::table_error(f@, h as int) is None,
        tables::columns_readable(file::table_at(f@, h as int)),
    ensures
        choice@ == wanted_columns(file::table_at(f@, h as int), rows::texts_view(wanted@)),
{
    let ghost t = file::table_at(f@, h as int);
    let ghost all = wanted_columns(t, rows::texts_view(wanted@));
    let def: u64 = word(f, h) as u64;
    let at: u64 = word(f, def + 8) as u64;
    let n: u32 = word(f, def);
    let mut choice: Vec<bool> = Vec::new();
    for k in 0..n
        invariant
            h + 8 <= f@.len(),
            file::table_error(f@, h as int) is None,
            t == file::table_at(f@, h as int),
            tables::columns_readable(t),
            all == wanted_columns(t, rows::texts_view(wanted@)),
            at == file::columns_at(f@, h as int),
            n == file::column_count(f@, h as int),
            n == t.columns.len(),
            at <= u32::MAX,
            choice@ == all.take(k as int),
    {
        let place: u64 = at + 8 * (k as u64);
        assert(t.columns[k as int] == file::column_at(f@, place as int));
        assert(t.columns[k as int] is Some);
        let label: Vec<u8> = text_at(f, word(f, place + 4) as u64);
        let name: String = value::latin1_decode(label.as_slice());
        assert(tables::names_of(t)[k as int] == name@);
        choice.push(tables::is_wanted(wanted, &name));
        assert(choice@ =~= all.take(k + 1));
    }
    assert(all.take(n as int) =~= all);
    choice
}

/// Whether nothing that all rows of a table show is damaged.
pub open spec fn table_shown(t: TableView) -> bool {
    tables::columns_readable(t) && rows_shown(t, all_columns(t.columns.len()))
}

/// Whether nothing that all rows of the table at `h` show is damaged.
fn table_ok(f: &[u8], h: u64) -> (r: bool)
    requires
        h + 8 <= f@.len(),
        h <= 0xf_0000_0000,
        file::table_error(f@, h as int) is None,
    ensures
        r == table_shown(file::table_at(f@, h as int)),
{
    columns_ok(f, h) && chains_ok(f, h, &choose_all(f, h))
}

/// Whether nothing that a query for some columns of a table looks at is damaged: the table has a
/// key column, its columns and buckets are not damaged, nor is any field in a wanted column.
pub open spec fn query_shown(t: TableView, wanted: Seq<Seq<char>>) -> bool {
    &&& tables::has_key_column(t)
    &&& tables::columns_readable(t)
    &&& rows_shown(t, wanted_columns(t, wanted))
}

/// Whether nothing that a query for some columns of the table at `h` looks at is damaged.
fn query_ok(f: &[u8], h: u64, wanted: &Vec<String>) -> (r: bool)
    requires
        h + 8 <= f@.len(),
        h <= 0xf_0000_0000,
        file::table_error(f@, h as int) is None,
    ensures
        r == query_shown(file::table_at(f@, h as int), rows::texts_view(wanted@)),
{
    if key_column(f, h).is_none() || !columns_ok(f, h) {
        return false;
    }
    chains_ok(f, h, &choose_wanted(f, h, wanted))
}

/// Whether nothing that the rows of a table with this key show is damaged, nor anything that the
/// search for them looks at: the first field of every row of the key's bucket.
pub open spec fn key_shown(t: TableView, key: Seq<char>, float: Option<u32>) -> bool {
    &&& tables::has_key_column(t)
    &&& value::parsed(key, tables::key_type(t), float) matches Some(gate) ==> {
        &&& tables::columns_readable(t)
        &&& t.chains.len() > 0
        &&& chain_shown(
            t.chains[tables::bucket_of(gate, t.chains.len() as int)],
            all_columns(t.columns.len()),
            Some(gate),
        )
    }
}

/// Whether nothing that the rows of the table at `h` with this key show is damaged, nor anything
/// that the search for them looks at.
fn key_ok(f: &[u8], h: u64, key: &str, float: Option<u32>) -> (r: bool)
    requires
        h + 8 <= f@.len(),
        h <= 0xf_0000_0000,
        file::table_error(f@, h as int) is None,
    ensures
        r == key_shown(file::table_at(f@, h as int), key@, float),
{
    let ghost t = file::table_at(f@, h as int);
    let ty: ValueType = match key_column(f, h) {
        None => {
            return false;
        },
        Some(ty) => ty,
    };
    let gate: Field = match FastContext::parse_as(key, ty, float) {
        Err(_) => {
            return true;
        },
        Ok(gate) => gate,
    };
    if !columns_ok(f, h) {
        return false;
    }
    let data: u64 = word(f, h + 4) as u64;
    let at: u64 = word(f, data + 4) as u64;
    let n: u64 = word(f, data) as u64;
    if n == 0 {
        return false;
    }
    let hash: u32 = value::key_hash(key, ty, &gate);
    let j: u64 = hash as u64 % n;
    assert(j == tables::bucket_of(gate@, t.chains.len() as int));
    assert(t.chains[j as int] == file::bucket_at(f@, h as int, j as int));
    chain_ok(f, word(f, at + 4 * j), &choose_all(f, h), Some(&gate))
}

proof fn lemma_each(f: Seq<u8>, name: Seq<char>, found: Seq<u64>, ok: spec_fn(TableView) -> bool)
    requires
        candidates_are(f, utf8::encode_utf8(name), found),
    ensures
        tables::each_candidate(f, name, ok) == (forall|k: int|
            0 <= k < found.len() ==> ok(file::table_at(f, #[trigger] found[k] as int))),
{
    let q = utf8::encode_utf8(name);
    if tables::each_candidate(f, name, ok) {
        assert forall|k: int| 0 <= k < found.len() implies ok(
            file::table_at(f, #[trigger] found[k] as int),
        ) by {
            assert(candidate_header(f, q, found[k] as int));
            let i = choose|i: int| #[trigger]
                file::candidate(f, q, i) && found[k] as int == file::table_header(f, i);
            assert(file::candidate(f, q, i));
        }
    }
    if forall|k: int|
        0 <= k < found.len() ==> ok(file::table_at(f, #[trigger] found[k] as int)) {
        if file::tables_error(f) is None {
            assert forall|i: int| #[trigger]
                file::candidate(f, q, i) && file::table_error(
                    f,
                    file::table_header(f, i),
                ) is None implies ok(file::table_at(f, file::table_header(f, i))) by {
                let h = file::table_header(f, i) as u64;
                assert(found.contains(h));
                let k = found.index_of(h);
                assert(found[k] as int == file::table_header(f, i));
            }
        }
    }
}

/// What a request looks at in a table.
#[derive(Clone, Copy, Debug)]
pub enum Part<'k> {
    /// The definition.
    Definition,
    /// All rows.
    Rows,
    /// The type of the key.
    KeyType,
    /// The type of the key, and these columns of all rows.
    Query(&'k Vec<String>),
    /// The rows with this key, where the number is what the key is as an IEEE number.
    Key(&'k str, Option<u32>),
}

/// Whether nothing of this part of a table is damaged.
pub open spec fn part_sound(part: Part<'_>, t: TableView) -> bool {
    match part {
        Part::Definition => tables::columns_readable(t),
        Part::Rows => table_shown(t),
        Part::KeyType => tables::has_key_column(t),
        Part::Query(wanted) => query_shown(t, rows::texts_view(wanted@)),
        Part::Key(key, float) => key_shown(t, key@, float),
    }
}

/// Whether a search for the table `name` stays within the file, and nothing of this part of the
/// tables that it may end at is damaged.
pub open spec fn sound(f: Seq<u8>, name: Seq<char>, part: Part<'_>) -> bool {
    &&& tables::findable(f, name)
    &&& tables::each_candidate(f, name, |t: TableView| part_sound(part, t))
}

/// Whether nothing of this part of the table at `h` is damaged.
fn part_ok(f: &[u8], h: u64, part: Part<'_>) -> (r: bool)
    requires
        h + 8 <= f@.len(),
        h <= 0xf_0000_0000,
        file::table_error(f@, h as int) is None,
    ensures
        r == part_sound(part, file::table_at(f@, h as int)),
{
    match part {
        Part::Definition => columns_ok(f, h),
        Part::Rows => table_ok(f, h),
        Part::KeyType => key_column(f, h).is_some(),
        Part::Query(wanted) => query_ok(f, h, wanted),
        Part::Key(key, float) => key_ok(f, h, key, float),
    }
}

/// Whether a search for the table `name` stays within the file, and nothing of this part of the
/// tables that it may end at is damaged.
pub fn is_sound(db: Database<'_>, name: &str, part: Part<'_>) -> (r: bool)
    ensures
        r == sound(db@, name@, part),
{
    let f: &[u8] = db.file;
    let found: Vec<u64> = match candidates(db, name) {
        None => {
            return false;
        },
        Some(found) => found,
    };
    let ghost q = utf8::encode_utf8(name@);
    let mut ok: bool = true;
    let n: usize = found.len();
    for k in 0..n
        invariant
            n == found@.len(),
            candidates_are(f@, q, found@),
            ok == (forall|i: int|
                0 <= i < k ==> part_sound(part, file::table_at(f@, #[trigger] found@[i] as int))),
    {
        assert(candidate_header(f@, q, found@[k as int] as int));
        ok = part_ok(f, found[k], part) && ok;
    }
    proof {
        lemma_each(f@, name@, found@, |t: TableView| part_sound(part, t));
    }
    ok
}

} // verus!
