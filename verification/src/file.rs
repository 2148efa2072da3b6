//! The layout of a database file.
//!
//! A file is a header, an array of table headers, and structures that refer to each other by
//! their offset from the start of the file. All numbers are little-endian. A part of a file can
//! be damaged: where an offset leads out of the file or a type is unknown, the value that stands
//! there has no meaning, and the functions below give `None` for it.
use vstd::prelude::*;

use crate::value::{FieldView, ValueType};

verus! {

/// An offset that leads out of the file.
#[derive(Clone, Copy, Debug, PartialEq, Eq, Structural)]
pub enum CastError {
    /// What starts at `offset` does not end within the file.
    OutOfBounds {
        /// Where it starts.
        offset: u32,
    },
}

/// A column: its name in Latin-1 and the type of its fields.
#[verifier::ext_equal]
pub ghost struct ColumnView {
    pub label: Seq<u8>,
    pub data_type: ValueType,
}

/// The fields of a row, `None` for each that is damaged.
pub type Cells = Seq<Option<FieldView>>;

/// A table: its name in Latin-1, its columns, and its rows by bucket.
#[verifier::ext_equal]
pub ghost struct TableView {
    pub label: Seq<u8>,
    pub columns: Seq<Option<ColumnView>>,
    pub chains: Seq<Option<Seq<Cells>>>,
}

/// The text that `latin1str::Latin1Str::decode` gives for Latin-1 bytes.
pub uninterp spec fn latin1_decoded(bytes: Seq<u8>) -> Seq<char>;

/// Whether all bytes are ASCII.
pub open spec fn is_ascii_bytes(bytes: Seq<u8>) -> bool {
    forall|i: int| 0 <= i < bytes.len() ==> #[trigger] bytes[i] < 0x80
}

/// Bytes taken as characters, one for one.
pub open spec fn widened(bytes: Seq<u8>) -> Seq<char> {
    bytes.map_values(|b: u8| b as char)
}

/// Whether `text` is what decoding the bytes gives. ASCII bytes alone stay as they are, one
/// character for each byte.
pub open spec fn reads_as(bytes: Seq<u8>, text: Seq<char>) -> bool {
    &&& text == latin1_decoded(bytes)
    &&& is_ascii_bytes(bytes) ==> text == widened(bytes)
}

/// The number of 32 bits at `at`.
pub open spec fn word(f: Seq<u8>, at: int) -> int {
    f[at] + 0x100 * f[at + 1] + 0x1_0000 * f[at + 2] + 0x100_0000 * f[at + 3]
}

/// Whether the `n` bytes from `at` on are in the file.
pub open spec fn within(f: Seq<u8>, at: int, n: int) -> bool {
    at + n <= f.len()
}

/// Whether the machine can count to the end of the `n` bytes from `at` on.
pub open spec fn countable(at: int, n: int) -> bool {
    at + n <= usize::MAX
}

/// The bytes from `at` up to the first zero, or to the end of the file.
pub open spec fn text_at(f: Seq<u8>, at: int) -> Seq<u8>
    decreases f.len() - at,
{
    if at >= f.len() || f[at] == 0 {
        seq![]
    } else {
        seq![f[at]] + text_at(f, at + 1)
    }
}

/// The type that a number stands for.
pub open spec fn type_of(n: int) -> Option<ValueType> {
    if n == 0 {
        Some(ValueType::Nothing)
    } else if n == 1 {
        Some(ValueType::Integer)
    } else if n == 3 {
        Some(ValueType::Float)
    } else if n == 4 {
        Some(ValueType::Text)
    } else if n == 5 {
        Some(ValueType::Boolean)
    } else if n == 6 {
        Some(ValueType::BigInt)
    } else if n == 8 {
        Some(ValueType::VarChar)
    } else {
        None
    }
}

/// The number that 32 bits stand for in two's complement.
pub open spec fn signed32(n: int) -> i32 {
    (if n < 0x8000_0000 {
        n
    } else {
        n - 0x1_0000_0000
    }) as i32
}

/// The number that 64 bits, given in two halves, stand for in two's complement.
pub open spec fn signed64(low: int, high: int) -> i64 {
    (low + 0x1_0000_0000 * signed32(high)) as i64
}

// ---- The array of table headers ----
/// How many tables the file has.
pub open spec fn table_count(f: Seq<u8>) -> int {
    word(f, 0)
}

/// Where the header of table `i` is.
pub open spec fn table_header(f: Seq<u8>, i: int) -> int {
    word(f, 4) + 8 * i
}

/// Why the array of table headers cannot be read, if it cannot.
pub open spec fn tables_error(f: Seq<u8>) -> Option<CastError> {
    if f.len() < 8 {
        Some(CastError::OutOfBounds { offset: 0 })
    } else if !within(f, word(f, 4), 8 * word(f, 0)) {
        Some(CastError::OutOfBounds { offset: word(f, 4) as u32 })
    } else {
        None
    }
}

/// Whether the machine can count to the end of the array of table headers.
pub open spec fn tables_countable(f: Seq<u8>) -> bool {
    f.len() >= 8 ==> countable(word(f, 4), 8 * word(f, 0))
}

// ---- One table, by the place `h` of its header ----
/// Where the definition of the table is.
pub open spec fn def_at(f: Seq<u8>, h: int) -> int {
    word(f, h)
}

/// Where the head of the table's data is.
pub open spec fn data_at(f: Seq<u8>, h: int) -> int {
    word(f, h + 4)
}

/// How many columns the table has.
pub open spec fn column_count(f: Seq<u8>, h: int) -> int {
    word(f, def_at(f, h))
}

/// Where the table's name is.
pub open spec fn label_at(f: Seq<u8>, h: int) -> int {
    word(f, def_at(f, h) + 4)
}

/// Where the table's columns are.
pub open spec fn columns_at(f: Seq<u8>, h: int) -> int {
    word(f, def_at(f, h) + 8)
}

/// How many buckets the table has.
pub open spec fn bucket_count(f: Seq<u8>, h: int) -> int {
    word(f, data_at(f, h))
}

/// Where the table's buckets are.
pub open spec fn buckets_at(f: Seq<u8>, h: int) -> int {
    word(f, data_at(f, h) + 4)
}

/// Why the table cannot be opened, if it cannot.
pub open spec fn table_error(f: Seq<u8>, h: int) -> Option<CastError> {
    if !within(f, def_at(f, h), 12) {
        Some(CastError::OutOfBounds { offset: def_at(f, h) as u32 })
    } else if !within(f, data_at(f, h), 8) {
        Some(CastError::OutOfBounds { offset: data_at(f, h) as u32 })
    } else if !within(f, columns_at(f, h), 8 * column_count(f, h)) {
        Some(CastError::OutOfBounds { offset: columns_at(f, h) as u32 })
    } else if !within(f, buckets_at(f, h), 4 * bucket_count(f, h)) {
        Some(CastError::OutOfBounds { offset: buckets_at(f, h) as u32 })
    } else {
        None
    }
}

/// Whether an attempt to open the table ends well or with [`table_error`]: its name starts within
/// the file, and the machine can count to the end of each part.
pub open spec fn openable(f: Seq<u8>, h: int) -> bool {
    &&& countable(def_at(f, h), 12)
    &&& countable(data_at(f, h), 8)
    &&& within(f, def_at(f, h), 12) && within(f, data_at(f, h), 8) ==> {
        &&& label_at(f, h) <= f.len()
        &&& countable(columns_at(f, h), 8 * column_count(f, h))
        &&& countable(buckets_at(f, h), 4 * bucket_count(f, h))
    }
}

/// The column at `at`.
pub open spec fn column_at(f: Seq<u8>, at: int) -> Option<ColumnView> {
    match type_of(word(f, at)) {
        Some(data_type) if word(f, at + 4) <= f.len() => Some(
            ColumnView { label: text_at(f, word(f, at + 4)), data_type },
        ),
        _ => None,
    }
}

/// The field at `at`.
pub open spec fn cell_at(f: Seq<u8>, at: int) -> Option<FieldView> {
    let n = word(f, at + 4);
    match type_of(word(f, at)) {
        None => None,
        Some(ValueType::Nothing) => Some(FieldView::Nothing),
        Some(ValueType::Integer) => Some(FieldView::Integer(signed32(n))),
        Some(ValueType::Float) => Some(FieldView::Float(n as u32)),
        Some(ValueType::Text) => if n <= f.len() {
            Some(FieldView::Text(text_at(f, n)))
        } else {
            None
        },
        Some(ValueType::Boolean) => Some(FieldView::Boolean(n != 0)),
        Some(ValueType::BigInt) => if within(f, n, 8) {
            Some(FieldView::BigInt(signed64(word(f, n), word(f, n + 4))))
        } else {
            None
        },
        Some(ValueType::VarChar) => if n <= f.len() {
            Some(FieldView::VarChar(text_at(f, n)))
        } else {
            None
        },
    }
}

/// The fields of the row whose header is at `at`, where they are in the file.
pub open spec fn row_at(f: Seq<u8>, at: int) -> Option<Cells> {
    if within(f, at, 8) && within(f, word(f, at + 4), 8 * word(f, at)) {
        Some(Seq::new(word(f, at) as nat, |k: int| cell_at(f, word(f, at + 4) + 8 * k)))
    } else {
        None
    }
}

/// The rows of the linked list that starts with the entry at `at`. The offset of all ones ends a
/// list. There are none where the list leads out of the file or has more than `fuel` entries.
pub open spec fn chain_at(f: Seq<u8>, at: int, fuel: nat) -> Option<Seq<Cells>>
    decreases fuel,
{
    if at == 0xffff_ffff {
        Some(seq![])
    } else if fuel == 0 || !within(f, at, 8) {
        None
    } else {
        match (row_at(f, word(f, at)), chain_at(f, word(f, at + 4), (fuel - 1) as nat)) {
            (Some(row), Some(rest)) => Some(seq![row] + rest),
            _ => None,
        }
    }
}

/// The rows of bucket `j`. A list without end visits more entries than the file has bytes.
pub open spec fn bucket_at(f: Seq<u8>, h: int, j: int) -> Option<Seq<Cells>> {
    chain_at(f, word(f, buckets_at(f, h) + 4 * j), f.len())
}

/// The table whose header is at `h`.
pub open spec fn table_at(f: Seq<u8>, h: int) -> TableView {
    TableView {
        label: text_at(f, label_at(f, h)),
        columns: Seq::new(
            column_count(f, h) as nat,
            |k: int| column_at(f, columns_at(f, h) + 8 * k),
        ),
        chains: Seq::new(bucket_count(f, h) as nat, |j: int| bucket_at(f, h, j)),
    }
}

// ---- The search for a table by its name ----
/// How the name at `at`, with the zero that ends it, compares with `q` from byte `i` on: negative
/// where it comes before `q`, zero where they are equal, positive where it comes after.
pub open spec fn label_order(f: Seq<u8>, at: int, q: Seq<u8>, i: int) -> int
    decreases q.len() - i,
{
    if i >= q.len() {
        if f[at + i] == 0 {
            0
        } else {
            1
        }
    } else if f[at + i] < q[i] {
        -1
    } else if f[at + i] > q[i] {
        1
    } else {
        label_order(f, at, q, i + 1)
    }
}

/// Whether that comparison ends within the file.
pub open spec fn label_comparable(f: Seq<u8>, at: int, q: Seq<u8>, i: int) -> bool
    decreases q.len() - i,
{
    at + i < f.len() && (i < q.len() && f[at + i] == q[i] ==> label_comparable(f, at, q, i + 1))
}

/// How the name of table `i` compares with `q`.
pub open spec fn order(f: Seq<u8>, q: Seq<u8>, i: int) -> int {
    label_order(f, label_at(f, table_header(f, i)), q, 0)
}

/// Whether the tables are in the order of their names, as far as `q` can tell.
pub open spec fn sorted(f: Seq<u8>, q: Seq<u8>) -> bool {
    forall|i: int, j: int|
        0 <= i < j < table_count(f) ==> #[trigger] order(f, q, i) <= #[trigger] order(f, q, j)
}

/// Whether a search for `q` may end at table `i`. In a file whose tables are out of order it may
/// end anywhere.
pub open spec fn candidate(f: Seq<u8>, q: Seq<u8>, i: int) -> bool {
    0 <= i < table_count(f) && (sorted(f, q) ==> order(f, q, i) == 0)
}

/// Where `assembly_fdb::mem::Tables::by_name` ends its search for `q` in a file whose tables are in
/// order: at a table, or nowhere. Where several tables have the name, it is always the same one of
/// them.
pub uninterp spec fn search_end(f: Seq<u8>, q: Seq<u8>) -> Option<int>;

/// Whether a search for `q` may end with `hit`: a candidate, or nothing where no table has that
/// name. In a file whose tables are in order there is one end. In one whose tables are out of order
/// it may also miss a table that is there.
pub open spec fn search_ends(f: Seq<u8>, q: Seq<u8>, hit: Option<int>) -> bool {
    &&& sorted(f, q) ==> hit == search_end(f, q)
    &&& match hit {
        Some(i) => candidate(f, q, i),
        None => sorted(f, q) ==> forall|i: int|
            0 <= i < table_count(f) ==> #[trigger] order(f, q, i) != 0,
    }
}

/// Whether a search for `q` stays within the file: every name can be compared with `q`, and
/// every candidate can be opened.
pub open spec fn searchable(f: Seq<u8>, q: Seq<u8>) -> bool {
    &&& forall|i: int|
        0 <= i < table_count(f) ==> {
            &&& within(f, def_at(f, #[trigger] table_header(f, i)), 12)
            &&& label_comparable(f, label_at(f, table_header(f, i)), q, 0)
        }
    &&& forall|i: int| #[trigger] candidate(f, q, i) ==> openable(f, table_header(f, i))
}

} // verus!
