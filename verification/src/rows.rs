//! Rows as objects: for each row, the names of columns with the values of its fields.
use vstd::prelude::*;

use assembly_fdb::mem::Row;
use linked_hash_map::LinkedHashMap;

use crate::fdb;
use crate::file::Cells;
use crate::value;
use crate::value::{Field, FieldView};

verus! {

/// Declares `linked_hash_map::LinkedHashMap`, a map that keeps the order of insertion.
#[verifier::external_type_specification]
#[verifier::external_body]
#[verifier::reject_recursive_types(K)]
#[verifier::reject_recursive_types(V)]
#[verifier::reject_recursive_types(S)]
pub struct ExLinkedHashMap<K, V, S>(LinkedHashMap<K, V, S>);

/// Names with values, in order.
pub type Pairs = Seq<(Seq<char>, FieldView)>;

/// The characters and field values of some pairs.
pub open spec fn pairs_view(pairs: Seq<(String, Field)>) -> Pairs {
    pairs.map_values(|p: (String, Field)| (p.0@, p.1@))
}

/// The characters of some texts.
pub open spec fn texts_view(texts: Seq<String>) -> Seq<Seq<char>> {
    texts.map_values(|t: String| t@)
}

/// Says of an entry whether it is for another key.
pub open spec fn other_than(key: Seq<char>) -> spec_fn((Seq<char>, FieldView)) -> bool {
    |e: (Seq<char>, FieldView)| e.0 != key
}

/// `entries` with the value of `key` set to `value`. The entry goes to the end, also where there
/// was one for that key before.
pub open spec fn put(entries: Pairs, key: Seq<char>, value: FieldView) -> Pairs {
    entries.filter(other_than(key)).push((key, value))
}

/// The object that comes of putting in some pairs, one after the other.
pub open spec fn object_of(pairs: Pairs) -> Pairs
    decreases pairs.len(),
{
    if pairs.len() == 0 {
        seq![]
    } else {
        put(object_of(pairs.drop_last()), pairs.last().0, pairs.last().1)
    }
}

/// The entries of a map, in its order.
pub uninterp spec fn map_entries(map: LinkedHashMap<String, Field>) -> Seq<(Seq<char>, FieldView)>;

/// Calls `linked_hash_map::LinkedHashMap::new`: a map without entries.
#[verifier::external_body]
fn map_new() -> (map: LinkedHashMap<String, Field>)
    ensures
        map_entries(map) == Seq::<(Seq<char>, FieldView)>::empty(),
{
    LinkedHashMap::new()
}

/// Calls `linked_hash_map::LinkedHashMap::insert`: sets the value of a key and moves its entry to
/// the end.
#[verifier::external_body]
fn map_insert(map: &mut LinkedHashMap<String, Field>, key: String, value: Field)
    ensures
        map_entries(*final(map)) == put(map_entries(*old(map)), key@, value@),
{
    map.insert(key, value);
}

/// Calls `into_iter` of `linked_hash_map::LinkedHashMap`: the entries, in order.
#[verifier::external_body]
fn map_into_pairs(map: LinkedHashMap<String, Field>) -> (pairs: Vec<(String, Field)>)
    ensures
        pairs_view(pairs@) == map_entries(map),
{
    map.into_iter().collect()
}

/// A choice of columns: gives the names and values that a row shows.
pub trait AsColValIter {
    /// The names and values that a row with these fields shows.
    spec fn pairs(&self, cells: Cells) -> Pairs;

    /// Whether none of the fields that are looked at is damaged.
    spec fn readable(&self, cells: Cells) -> bool;

    /// The names and values that a row shows.
    fn as_cv_iter(&self, row: &Row<'_>) -> (pairs: Vec<(String, Field)>)
        requires
            self.readable(fdb::row_cells(*row)),
        ensures
            pairs_view(pairs@) == self.pairs(fdb::row_cells(*row)),
    ;
}

/// Names and fields side by side, as far as there are both.
pub open spec fn zipped(names: Seq<Seq<char>>, cells: Cells) -> Pairs {
    let n = if names.len() <= cells.len() {
        names.len()
    } else {
        cells.len()
    };
    Seq::new(n, |i: int| (names[i], cells[i]->0))
}

impl AsColValIter for Vec<String> {
    open spec fn pairs(&self, cells: Cells) -> Pairs {
        zipped(texts_view(self@), cells)
    }

    open spec fn readable(&self, cells: Cells) -> bool {
        forall|i: int| 0 <= i < self@.len() && i < cells.len() ==> #[trigger] cells[i] is Some
    }

    fn as_cv_iter(&self, row: &Row<'_>) -> (pairs: Vec<(String, Field)>) {
        let ghost cells = fdb::row_cells(*row);
        let mut pairs: Vec<(String, Field)> = Vec::new();
        let mut i: usize = 0;
        while i < self.len()
            invariant
                cells == fdb::row_cells(*row),
                self.readable(cells),
                i <= self@.len(),
                i <= cells.len(),
                pairs@.len() == i,
                forall|j: int|
                    0 <= j < i ==> (#[trigger] pairs@[j]).0@ == self@[j]@ && cells[j] == Some(
                        pairs@[j].1@,
                    ),
            decreases self@.len() - i,
        {
            match fdb::row_field(row, i) {
                None => {
                    assert(pairs_view(pairs@) =~= zipped(texts_view(self@), cells));
                    return pairs;
                },
                Some(field) => {
                    pairs.push((self[i].clone(), field));
                    i = i + 1;
                },
            }
        }
        assert(pairs_view(pairs@) =~= zipped(texts_view(self@), cells));
        pairs
    }
}

/// A choice of some columns, by their places.
pub struct PartialColValIterSpec {
    /// The places of the chosen columns.
    pub indices: Vec<usize>,
    /// The names of all columns.
    pub names: Vec<String>,
}

/// The names and fields at some places, up to the first place where there are not both.
pub open spec fn picked(indices: Seq<usize>, names: Seq<Seq<char>>, cells: Cells) -> Pairs
    decreases indices.len(),
{
    if indices.len() == 0 || indices[0] >= names.len() || indices[0] >= cells.len() {
        seq![]
    } else {
        seq![(names[indices[0] as int], cells[indices[0] as int]->0)] + picked(
            indices.drop_first(),
            names,
            cells,
        )
    }
}

/// Whether no field at these places is damaged, up to the first place where there are not both a
/// name and a field.
pub open spec fn pickable(indices: Seq<usize>, names: Seq<Seq<char>>, cells: Cells) -> bool
    decreases indices.len(),
{
    indices.len() > 0 && indices[0] < cells.len() ==> {
        &&& cells[indices[0] as int] is Some
        &&& indices[0] < names.len() ==> pickable(indices.drop_first(), names, cells)
    }
}

impl AsColValIter for PartialColValIterSpec {
    open spec fn pairs(&self, cells: Cells) -> Pairs {
        picked(self.indices@, texts_view(self.names@), cells)
    }

    open spec fn readable(&self, cells: Cells) -> bool {
        pickable(self.indices@, texts_view(self.names@), cells)
    }

    fn as_cv_iter(&self, row: &Row<'_>) -> (pairs: Vec<(String, Field)>) {
        let ghost cells = fdb::row_cells(*row);
        let ghost names = texts_view(self.names@);
        let mut pairs: Vec<(String, Field)> = Vec::new();
        let mut k: usize = 0;
        assert(self.indices@.skip(0) =~= self.indices@);
        assert(pairs_view(pairs@) + picked(self.indices@, names, cells) =~= picked(
            self.indices@,
            names,
            cells,
        ));
        while k < self.indices.len()
            invariant
                cells == fdb::row_cells(*row),
                names == texts_view(self.names@),
                k <= self.indices@.len(),
                pickable(self.indices@.skip(k as int), names, cells),
                pairs_view(pairs@) + picked(self.indices@.skip(k as int), names, cells) == picked(
                    self.indices@,
                    names,
                    cells,
                ),
            decreases self.indices@.len() - k,
        {
            let ghost rest = self.indices@.skip(k as int);
            let ghost before = pairs_view(pairs@);
            let i: usize = self.indices[k];
            match fdb::row_field(row, i) {
                None => {
                    assert(before + picked(rest, names, cells) =~= before);
                    return pairs;
                },
                Some(field) => {
                    if i >= self.names.len() {
                        assert(before + picked(rest, names, cells) =~= before);
                        return pairs;
                    }
                    pairs.push((self.names[i].clone(), field));
                    assert(rest.drop_first() =~= self.indices@.skip(k + 1));
                    assert(pairs_view(pairs@) =~= before.push((names[i as int], field@)));
                    assert(pairs_view(pairs@) + picked(rest.drop_first(), names, cells) =~= before
                        + picked(rest, names, cells));
                    k = k + 1;
                },
            }
        }
        assert(pairs_view(pairs@) + picked(
            self.indices@.skip(k as int),
            names,
            cells,
        ) =~= pairs_view(pairs@));
        pairs
    }
}

/// Rows to be shown, with a choice of columns.
pub struct RowIter<'a, FC: AsColValIter> {
    /// The rows.
    pub rows: Vec<Row<'a>>,
    /// The choice of columns.
    pub to_cols: FC,
}

impl<'a, FC: AsColValIter> RowIter<'a, FC> {
    /// Whether all rows can be shown: no field that is looked at is damaged.
    pub open spec fn readable(&self) -> bool {
        forall|i: int|
            0 <= i < self.rows@.len() ==> self.to_cols.readable(
                fdb::row_cells(#[trigger] self.rows@[i]),
            )
    }

    /// The objects that the rows are shown as.
    pub open spec fn objects_view(&self) -> Seq<Pairs> {
        fdb::rows_view(self.rows@).map_values(
            |cells: Cells| object_of(self.to_cols.pairs(cells)),
        )
    }

    /// The rows as objects, in order: for each row the names and values that the choice of columns
    /// gives. Where a name comes twice, the later value stands, at the later place.
    pub fn serialize(&self) -> (objects: Vec<Vec<(String, Field)>>)
        requires
            self.readable(),
        ensures
            objects@.map_values(|o: Vec<(String, Field)>| pairs_view(o@)) == self.objects_view(),
    {
        let mut objects: Vec<Vec<(String, Field)>> = Vec::new();
        let n: usize = self.rows.len();
        for i in 0..n
            invariant
                n == self.rows@.len(),
                self.readable(),
                objects@.len() == i,
                forall|j: int|
                    0 <= j < i ==> pairs_view(#[trigger] objects@[j]@) == self.objects_view()[j],
        {
            let pairs: Vec<(String, Field)> = self.to_cols.as_cv_iter(&self.rows[i]);
            let object: Vec<(String, Field)> = object(pairs);
            objects.push(object);
        }
        assert(objects@.map_values(|o: Vec<(String, Field)>| pairs_view(o@))
            =~= self.objects_view());
        objects
    }
}

/// The object that comes of putting in some pairs, one after the other.
fn object(pairs: Vec<(String, Field)>) -> (object: Vec<(String, Field)>)
    ensures
        pairs_view(object@) == object_of(pairs_view(pairs@)),
{
    let ghost all = pairs_view(pairs@);
    let mut map: LinkedHashMap<String, Field> = map_new();
    assert(all.take(0) =~= Seq::<(Seq<char>, FieldView)>::empty());
    for (key, value) in it: pairs
        invariant
            it.seq() == pairs@,
            all == pairs_view(pairs@),
            map_entries(map) == object_of(all.take(it.index() as int)),
    {
        proof {
            let i = it.index() as int;
            assert(all.take(i + 1).drop_last() =~= all.take(i));
        }
        map_insert(&mut map, key, value);
    }
    assert(all.take(all.len() as int) =~= all);
    map_into_pairs(map)
}

/// Whether a row has a first field that is not damaged.
pub open spec fn has_key(cells: Cells) -> bool {
    cells.len() > 0 && cells[0] is Some
}

/// Those of some rows whose first field equals `gate`, in order.
pub open spec fn matching(rows: Seq<Cells>, gate: FieldView) -> Seq<Cells> {
    rows.filter(|cells: Cells| value::field_eq(gate, cells[0]->0))
}

pub(crate) proof fn lemma_matching_first(rows: Seq<Cells>, gate: FieldView)
    requires
        rows.len() > 0,
    ensures
        value::field_eq(gate, rows[0][0]->0) ==> matching(rows, gate) == seq![rows[0]] + matching(
            rows.drop_first(),
            gate,
        ),
        !value::field_eq(gate, rows[0][0]->0) ==> matching(rows, gate) == matching(
            rows.drop_first(),
            gate,
        ),
{
    let pred = |cells: Cells| value::field_eq(gate, cells[0]->0);
    let first = seq![rows[0]];
    assert(rows =~= first + rows.drop_first());
    Seq::filter_distributes_over_add(first, rows.drop_first(), pred);
    reveal_with_fuel(Seq::filter, 2);
    assert(first.drop_last() =~= Seq::<Cells>::empty());
    assert(pred(first.last()) ==> first.filter(pred) =~= first);
    assert(!pred(first.last()) ==> first.filter(pred) =~= Seq::<Cells>::empty());
    assert(Seq::<Cells>::empty() + rows.drop_first().filter(pred) =~= rows.drop_first().filter(
        pred,
    ));
}

/// What holds of all rows whose first field equals `gate` holds of those that match.
pub(crate) proof fn lemma_matching_all(
    rows: Seq<Cells>,
    gate: FieldView,
    ok: spec_fn(Cells) -> bool,
)
    requires
        forall|i: int|
            0 <= i < rows.len() && value::field_eq(gate, (#[trigger] rows[i])[0]->0) ==> ok(
                rows[i],
            ),
    ensures
        forall|i: int|
            0 <= i < matching(rows, gate).len() ==> ok(#[trigger] matching(rows, gate)[i]),
    decreases rows.len(),
{
    reveal(Seq::filter);
    if rows.len() > 0 {
        lemma_matching_all(rows.drop_last(), gate, ok);
        let before = matching(rows.drop_last(), gate);
        assert forall|i: int| 0 <= i < matching(rows, gate).len() implies ok(
            #[trigger] matching(rows, gate)[i],
        ) by {
            assert(i < before.len() ==> matching(rows, gate)[i] == before[i]);
        }
    }
}

/// Whether `row` is one of the rows before, and those after are all that come behind it.
pub open spec fn hands_out(before: Seq<Cells>, row: Row<'_>, after: Seq<Cells>) -> bool {
    exists|k: int|
        0 <= k < before.len() && #[trigger] before[k] == fdb::row_cells(row) && after
            == before.skip(k + 1)
}

/// The rows of a bucket whose first field equals a key, handed out from the front.
pub struct FilteredRowIter<'a> {
    inner: Vec<Row<'a>>,
    at: usize,
    gate: Field,
}

impl<'a> FilteredRowIter<'a> {
    /// The rows that are still to be looked at.
    pub closed spec fn rest(&self) -> Seq<Cells> {
        fdb::rows_view(self.inner@).skip(self.at as int)
    }

    /// The key.
    pub closed spec fn key(&self) -> FieldView {
        self.gate@
    }

    /// Whether the place is within the rows, and every row has a key.
    pub closed spec fn well_formed(&self) -> bool {
        &&& self.at <= self.inner@.len()
        &&& forall|i: int|
            0 <= i < self.inner@.len() ==> has_key(fdb::row_cells(#[trigger] self.inner@[i]))
    }

    /// All of `rows` whose first field equals `gate`.
    pub fn new(rows: Vec<Row<'a>>, gate: Field) -> (iter: Self)
        requires
            forall|i: int|
                0 <= i < rows@.len() ==> has_key(#[trigger] fdb::rows_view(rows@)[i]),
        ensures
            iter.well_formed(),
            iter.rest() == fdb::rows_view(rows@),
            iter.key() == gate@,
    {
        proof {
            assert(fdb::rows_view(rows@).skip(0) =~= fdb::rows_view(rows@));
            assert forall|i: int| 0 <= i < rows@.len() implies has_key(
                fdb::row_cells(#[trigger] rows@[i]),
            ) by {
                assert(has_key(fdb::rows_view(rows@)[i]));
            }
        }
        FilteredRowIter { inner: rows, at: 0, gate }
    }

    /// Takes the next row that matches, where one is left.
    pub fn next(&mut self) -> (row: Option<Row<'a>>)
        requires
            old(self).well_formed(),
        ensures
            final(self).well_formed(),
            final(self).key() == old(self).key(),
            match row {
                Some(row) => {
                    &&& matching(old(self).rest(), old(self).key()) == seq![fdb::row_cells(row)]
                        + matching(final(self).rest(), old(self).key())
                    &&& hands_out(old(self).rest(), row, final(self).rest())
                },
                None => {
                    &&& matching(old(self).rest(), old(self).key()) == Seq::<Cells>::empty()
                    &&& final(self).rest().len() == 0
                },
            },
    {
        while self.at < self.inner.len()
            invariant
                self.well_formed(),
                self.inner == old(self).inner,
                self.gate == old(self).gate,
                old(self).at <= self.at,
                matching(self.rest(), old(self).key()) == matching(
                    old(self).rest(),
                    old(self).key(),
                ),
            decreases self.inner@.len() - self.at,
        {
            let ghost before = self.rest();
            let row: Row<'a> = self.inner[self.at];
            assert(has_key(fdb::row_cells(self.inner@[self.at as int])));
            self.at = self.at + 1;
            assert(self.rest() =~= before.drop_first());
            proof {
                lemma_matching_first(before, self.gate@);
            }
            if let Some(field) = fdb::row_field(&row, 0) {
                if self.gate.same(&field) {
                    proof {
                        let all = old(self).rest();
                        let k = self.at - 1 - old(self).at;
                        assert(all[k] == fdb::row_cells(row));
                        assert(self.rest() =~= all.skip(k + 1));
                    }
                    return Some(row);
                }
            }
        }
        assert(self.rest() =~= Seq::<Cells>::empty());
        reveal(Seq::filter);
        None
    }

    /// All rows that match, in order.
    pub fn collect(self) -> (rows: Vec<Row<'a>>)
        requires
            self.well_formed(),
        ensures
            fdb::rows_view(rows@) == matching(self.rest(), self.key()),
    {
        let mut iter: Self = self;
        let ghost all = matching(self.rest(), self.key());
        let mut rows: Vec<Row<'a>> = Vec::new();
        assert(fdb::rows_view(rows@) + all =~= all);
        loop
            invariant
                iter.well_formed(),
                iter.key() == self.key(),
                fdb::rows_view(rows@) + matching(iter.rest(), iter.key()) == all,
                all == matching(self.rest(), self.key()),
            decreases iter.rest().len(),
        {
            let ghost before = fdb::rows_view(rows@);
            match iter.next() {
                None => {
                    assert(before + Seq::<Cells>::empty() =~= before);
                    return rows;
                },
                Some(row) => {
                    rows.push(row);
                    assert(fdb::rows_view(rows@) =~= before + seq![fdb::row_cells(row)]);
                    assert(before + (seq![fdb::row_cells(row)] + matching(
                        iter.rest(),
                        iter.key(),
                    )) =~= fdb::rows_view(rows@) + matching(iter.rest(), iter.key()));
                },
            }
        }
    }
}

} // verus!
