//! Laws of rows as objects.
use vstd::prelude::*;

use assembly_fdb::mem::Row;

use crate::fdb;
use crate::file::Cells;
use crate::rows;
use crate::rows::{AsColValIter, Pairs, PartialColValIterSpec, RowIter};
use crate::tables;
use crate::value;
use crate::value::{Field, FieldView};

verus! {

/// Whether no name occurs twice.
pub open spec fn distinct_names(pairs: Pairs) -> bool {
    forall|i: int, j: int|
        0 <= i < j < pairs.len() ==> (#[trigger] pairs[i]).0 != (#[trigger] pairs[j]).0
}

/// Whether `e` is among the pairs, and none behind it has the same name.
pub open spec fn stands(pairs: Pairs, e: (Seq<char>, FieldView)) -> bool {
    exists|i: int|
        0 <= i < pairs.len() && #[trigger] pairs[i] == e && forall|j: int|
            i < j < pairs.len() ==> (#[trigger] pairs[j]).0 != e.0
}

proof fn lemma_put(entries: Pairs, key: Seq<char>, v: FieldView)
    requires
        distinct_names(entries),
    ensures
        distinct_names(rows::put(entries, key, v)),
        forall|e: (Seq<char>, FieldView)|
            #![trigger rows::put(entries, key, v).contains(e)]
            rows::put(entries, key, v).contains(e) <==> e == (key, v) || (entries.contains(e) && e.0
                != key),
{
    let pred = rows::other_than(key);
    let kept = entries.filter(pred);
    lemma_filter(entries, pred);
    let after = rows::put(entries, key, v);
    assert forall|i: int, j: int| 0 <= i < j < after.len() implies (#[trigger] after[i]).0 != (
    #[trigger] after[j]).0 by {
        assert(after[i] == kept[i]);
        assert(kept.contains(kept[i]));
        if j < kept.len() {
            assert(after[j] == kept[j]);
        }
    }
    assert forall|e: (Seq<char>, FieldView)|
        after.contains(e) <==> e == (key, v) || (entries.contains(e) && e.0 != key) by {
        if after.contains(e) {
            let i = choose|i: int| 0 <= i < after.len() && after[i] == e;
            if i < kept.len() {
                assert(kept[i] == e);
                assert(kept.contains(e));
            }
        }
        if e == (key, v) {
            assert(after[after.len() - 1] == e);
        } else if entries.contains(e) && e.0 != key {
            assert(kept.contains(e));
            let i = choose|i: int| 0 <= i < kept.len() && kept[i] == e;
            assert(after[i] == e);
        }
    }
}

proof fn lemma_filter(entries: Pairs, pred: spec_fn((Seq<char>, FieldView)) -> bool)
    requires
        distinct_names(entries),
    ensures
        distinct_names(entries.filter(pred)),
        forall|e: (Seq<char>, FieldView)|
            #![trigger entries.filter(pred).contains(e)]
            entries.filter(pred).contains(e) <==> entries.contains(e) && pred(e),
    decreases entries.len(),
{
    reveal(Seq::filter);
    let kept = entries.filter(pred);
    if entries.len() > 0 {
        let init = entries.drop_last();
        let last = entries.last();
        let before = init.filter(pred);
        lemma_filter(init, pred);
        assert forall|i: int, j: int| 0 <= i < j < kept.len() implies (#[trigger] kept[i]).0 != (
        #[trigger] kept[j]).0 by {
            assert(kept[i] == before[i]);
            assert(before.contains(before[i]));
            if j < before.len() {
                assert(kept[j] == before[j]);
            } else {
                let k = choose|k: int| 0 <= k < init.len() && init[k] == before[i];
                assert(entries[k] == before[i]);
                assert(kept[j] == entries[entries.len() - 1]);
            }
        }
        assert forall|e: (Seq<char>, FieldView)|
            #![trigger kept.contains(e)]
            kept.contains(e) <==> entries.contains(e) && pred(e) by {
            if kept.contains(e) {
                let i = choose|i: int| 0 <= i < kept.len() && kept[i] == e;
                if i < before.len() {
                    assert(before[i] == e);
                    assert(before.contains(e));
                    let k = choose|k: int| 0 <= k < init.len() && init[k] == e;
                    assert(entries[k] == e);
                } else {
                    assert(entries[entries.len() - 1] == e);
                }
            }
            if entries.contains(e) && pred(e) {
                let k = choose|k: int| 0 <= k < entries.len() && entries[k] == e;
                if k < init.len() {
                    assert(init[k] == e);
                    assert(before.contains(e));
                    let i = choose|i: int| 0 <= i < before.len() && before[i] == e;
                    assert(kept[i] == e);
                } else {
                    assert(kept[kept.len() - 1] == e);
                }
            }
        }
    }
}

/// In an object no name occurs twice, and it holds just those pairs that no later pair of the same
/// name replaces.
pub proof fn objects_keep_the_last(pairs: Pairs)
    ensures
        distinct_names(rows::object_of(pairs)),
        forall|e: (Seq<char>, FieldView)|
            #![trigger rows::object_of(pairs).contains(e)]
            rows::object_of(pairs).contains(e) <==> stands(pairs, e),
    decreases pairs.len(),
{
    if pairs.len() > 0 {
        let init = pairs.drop_last();
        let last = pairs.last();
        objects_keep_the_last(init);
        lemma_put(rows::object_of(init), last.0, last.1);
        assert forall|e: (Seq<char>, FieldView)|
            #![trigger rows::object_of(pairs).contains(e)]
            rows::object_of(pairs).contains(e) <==> stands(pairs, e) by {
            assert(rows::object_of(pairs) == rows::put(rows::object_of(init), last.0, last.1));
            assert(rows::object_of(pairs).contains(e) <==> e == last || (rows::object_of(
                init,
            ).contains(e) && e.0 != last.0));
            if stands(init, e) && e.0 != last.0 {
                let i = choose|i: int|
                    0 <= i < init.len() && #[trigger] init[i] == e && forall|j: int|
                        i < j < init.len() ==> (#[trigger] init[j]).0 != e.0;
                assert(pairs[i] == e);
                assert forall|j: int| i < j < pairs.len() implies (#[trigger] pairs[j]).0
                    != e.0 by {
                    assert(j < init.len() ==> init[j] == pairs[j]);
                }
            }
            if e == last {
                assert(pairs[pairs.len() - 1] == e);
            }
            if stands(pairs, e) {
                let i = choose|i: int|
                    0 <= i < pairs.len() && #[trigger] pairs[i] == e && forall|j: int|
                        i < j < pairs.len() ==> (#[trigger] pairs[j]).0 != e.0;
                if i < init.len() {
                    assert(pairs[pairs.len() - 1].0 != e.0);
                    assert(init[i] == e);
                    assert forall|j: int| i < j < init.len() implies (#[trigger] init[j]).0
                        != e.0 by {
                        assert(pairs[j].0 != e.0);
                    }
                    assert(stands(init, e));
                }
            }
        }
    }
}

proof fn lemma_filter_all(entries: Pairs, pred: spec_fn((Seq<char>, FieldView)) -> bool)
    requires
        forall|i: int| 0 <= i < entries.len() ==> pred(#[trigger] entries[i]),
    ensures
        entries.filter(pred) == entries,
    decreases entries.len(),
{
    reveal(Seq::filter);
    if entries.len() > 0 {
        lemma_filter_all(entries.drop_last(), pred);
        assert(entries.drop_last().push(entries.last()) =~= entries);
    }
}

/// Where no name occurs twice, an object shows all pairs in their order.
pub proof fn distinct_names_are_kept(pairs: Pairs)
    requires
        distinct_names(pairs),
    ensures
        rows::object_of(pairs) == pairs,
    decreases pairs.len(),
{
    if pairs.len() > 0 {
        let init = pairs.drop_last();
        distinct_names_are_kept(init);
        lemma_filter_all(init, rows::other_than(pairs.last().0));
        assert(init.push((pairs.last().0, pairs.last().1)) =~= pairs);
    }
}

/// The pairs whose name is wanted.
pub open spec fn only(pairs: Pairs, wanted: Seq<Seq<char>>) -> Pairs {
    pairs.filter(|p: (Seq<char>, FieldView)| wanted.contains(p.0))
}

proof fn lemma_picked_push(indices: Seq<usize>, i: usize, names: Seq<Seq<char>>, cells: Cells)
    requires
        forall|k: int|
            0 <= k < indices.len() ==> #[trigger] indices[k] < names.len() && indices[k]
                < cells.len(),
    ensures
        rows::picked(indices.push(i), names, cells) == if i < names.len() && i < cells.len() {
            rows::picked(indices, names, cells).push((names[i as int], cells[i as int]->0))
        } else {
            rows::picked(indices, names, cells)
        },
    decreases indices.len(),
{
    let all = indices.push(i);
    if indices.len() == 0 {
        assert(all.drop_first() =~= Seq::<usize>::empty());
        assert(rows::picked(all.drop_first(), names, cells) =~= seq![]);
        assert(rows::picked(indices, names, cells) =~= seq![]);
        assert(rows::picked(all, names, cells) =~= if i < names.len() && i < cells.len() {
            seq![(names[i as int], cells[i as int]->0)]
        } else {
            seq![]
        });
    } else {
        assert(all.drop_first() =~= indices.drop_first().push(i));
        assert(indices[0] < names.len());
        assert(all[0] == indices[0]);
        lemma_picked_push(indices.drop_first(), i, names, cells);
        let head = seq![(names[indices[0] as int], cells[indices[0] as int]->0)];
        let tail = rows::picked(indices.drop_first(), names, cells);
        if i < names.len() && i < cells.len() {
            assert(head + tail.push((names[i as int], cells[i as int]->0)) =~= (head + tail).push(
                (names[i as int], cells[i as int]->0),
            ));
        }
    }
}

proof fn lemma_picked_short(indices: Seq<usize>, more: Seq<usize>, names: Seq<Seq<char>>, cells: Cells)
    requires
        forall|k: int| 0 <= k < more.len() ==> #[trigger] more[k] >= cells.len(),
    ensures
        rows::picked(indices + more, names, cells) == rows::picked(indices, names, cells),
    decreases indices.len(),
{
    let all = indices + more;
    if indices.len() == 0 {
        assert(all =~= more);
        assert(more.len() > 0 ==> more[0] >= cells.len());
    } else {
        assert(all.drop_first() =~= indices.drop_first() + more);
        assert(all[0] == indices[0]);
        lemma_picked_short(indices.drop_first(), more, names, cells);
    }
}

proof fn lemma_chosen_more(names: Seq<Seq<char>>, wanted: Seq<Seq<char>>, m: int, n: int)
    requires
        0 <= m <= n <= usize::MAX,
    ensures
        exists|more: Seq<usize>|
            #![trigger tables::chosen(names, wanted, m) + more]
            tables::chosen(names, wanted, n) == tables::chosen(names, wanted, m) + more && forall|
                k: int,
            |
                0 <= k < more.len() ==> #[trigger] more[k] >= m,
    decreases n - m,
{
    let base = tables::chosen(names, wanted, m);
    if m == n {
        let more = Seq::<usize>::empty();
        assert(base + more =~= base);
    } else {
        lemma_chosen_more(names, wanted, m, n - 1);
        let more = choose|more: Seq<usize>|
            #![trigger base + more]
            tables::chosen(names, wanted, n - 1) == base + more && forall|k: int|
                0 <= k < more.len() ==> #[trigger] more[k] >= m;
        if wanted.contains(names[n - 1]) {
            let longer = more.push((n - 1) as usize);
            assert(base + longer =~= (base + more).push((n - 1) as usize));
            assert(tables::chosen(names, wanted, n) == base + longer);
        }
    }
}

proof fn lemma_chosen_prefix(
    names: Seq<Seq<char>>,
    wanted: Seq<Seq<char>>,
    cells: Cells,
    n: int,
)
    requires
        0 <= n <= names.len() <= usize::MAX,
        n <= cells.len(),
    ensures
        rows::picked(tables::chosen(names, wanted, n), names, cells) == only(
            rows::zipped(names, cells).take(n),
            wanted,
        ),
    decreases n,
{
    reveal(Seq::filter);
    let pairs = rows::zipped(names, cells);
    if n > 0 {
        lemma_chosen_prefix(names, wanted, cells, n - 1);
        tables::lemma_chosen_bounded(names, wanted, n - 1);
        assert(pairs.take(n).drop_last() =~= pairs.take(n - 1));
        assert(pairs.take(n).last() == (names[n - 1], cells[n - 1]->0));
        lemma_picked_push(tables::chosen(names, wanted, n - 1), (n - 1) as usize, names, cells);
    } else {
        assert(pairs.take(0) =~= Seq::<(Seq<char>, FieldView)>::empty());
    }
}

/// A query for some columns gives just those pairs of a full row whose name is wanted.
pub proof fn query_is_part_of_row(names: Seq<Seq<char>>, wanted: Seq<Seq<char>>, cells: Cells)
    requires
        names.len() <= usize::MAX,
    ensures
        rows::picked(
            tables::chosen(names, wanted, names.len() as int),
            names,
            cells,
        ) == only(rows::zipped(names, cells), wanted),
{
    let n = rows::zipped(names, cells).len() as int;
    lemma_chosen_prefix(names, wanted, cells, n);
    assert(rows::zipped(names, cells).take(n) =~= rows::zipped(names, cells));
    let base = tables::chosen(names, wanted, n);
    lemma_chosen_more(names, wanted, n, names.len() as int);
    let more = choose|more: Seq<usize>|
        #![trigger base + more]
        tables::chosen(names, wanted, names.len() as int) == base + more && forall|k: int|
            0 <= k < more.len() ==> #[trigger] more[k] >= n;
    if n == names.len() {
        assert(more.len() == 0) by {
            tables::lemma_chosen_bounded(names, wanted, n);
            if more.len() > 0 {
                let k = base.len() as int;
                assert((base + more)[k] == more[0]);
                assert(tables::chosen(names, wanted, n)[k] < n);
            }
        }
        assert(base + more =~= base);
    } else {
        lemma_picked_short(base, more, names, cells);
    }
}

/// A query for all columns gives full rows.
pub proof fn query_for_all(names: Seq<Seq<char>>, wanted: Seq<Seq<char>>, cells: Cells)
    requires
        names.len() <= usize::MAX,
        forall|k: int| 0 <= k < names.len() ==> wanted.contains(#[trigger] names[k]),
    ensures
        rows::picked(
            tables::chosen(names, wanted, names.len() as int),
            names,
            cells,
        ) == rows::zipped(names, cells),
{
    query_is_part_of_row(names, wanted, cells);
    lemma_filter_all(
        rows::zipped(names, cells),
        |p: (Seq<char>, FieldView)| wanted.contains(p.0),
    );
}

/// An object is built up pair by pair: a pair with a new name goes to the end, and one with a name
/// that is there already takes the place of it at the end.
pub proof fn objects_grow(pairs: Pairs, name: Seq<char>, v: FieldView)
    ensures
        rows::object_of(Seq::<(Seq<char>, FieldView)>::empty()) == Seq::<
            (Seq<char>, FieldView),
        >::empty(),
        ({
            let before = rows::object_of(pairs);
            let after = rows::object_of(pairs.push((name, v)));
            &&& after.len() > 0
            &&& after[after.len() - 1] == (name, v)
            &&& (forall|k: int| 0 <= k < before.len() ==> (#[trigger] before[k]).0 != name)
                ==> after == before.push((name, v))
            &&& forall|at: int|
                0 <= at < before.len() && (#[trigger] before[at]).0 == name ==> after
                    == before.remove(at).push((name, v))
        }),
{
    let before = rows::object_of(pairs);
    let more = pairs.push((name, v));
    let after = rows::object_of(more);
    let pred = rows::other_than(name);
    assert(more.drop_last() =~= pairs);
    assert(after == rows::put(before, name, v));
    objects_keep_the_last(pairs);
    if forall|k: int| 0 <= k < before.len() ==> (#[trigger] before[k]).0 != name {
        lemma_filter_all(before, pred);
    }
    assert forall|at: int| 0 <= at < before.len() && (#[trigger] before[at]).0 == name implies after
        == before.remove(at).push((name, v)) by {
        let head = before.take(at);
        let tail = before.skip(at + 1);
        let one = seq![before[at]];
        assert(before =~= head + (one + tail));
        assert forall|k: int| 0 <= k < head.len() implies pred(#[trigger] head[k]) by {
            assert(before[k].0 != before[at].0);
        }
        assert forall|k: int| 0 <= k < tail.len() implies pred(#[trigger] tail[k]) by {
            assert(tail[k] == before[at + 1 + k]);
            assert(before[at].0 != before[at + 1 + k].0);
        }
        lemma_filter_all(head, pred);
        lemma_filter_all(tail, pred);
        Seq::filter_distributes_over_add(head, one + tail, pred);
        Seq::filter_distributes_over_add(one, tail, pred);
        reveal_with_fuel(Seq::filter, 2);
        assert(one.drop_last() =~= Seq::<(Seq<char>, FieldView)>::empty());
        assert(one.filter(pred) =~= Seq::<(Seq<char>, FieldView)>::empty());
        assert(head + tail =~= before.remove(at));
        assert(Seq::<(Seq<char>, FieldView)>::empty() + tail =~= tail);
    }
}

/// Names and fields stand side by side, as far as there are both: name `k` with field `k`.
pub proof fn names_meet_fields(names: Seq<Seq<char>>, cells: Cells)
    ensures
        rows::zipped(names, cells).len() <= names.len(),
        rows::zipped(names, cells).len() <= cells.len(),
        rows::zipped(names, cells).len() == names.len() || rows::zipped(names, cells).len()
            == cells.len(),
        forall|k: int|
            0 <= k < names.len() && k < cells.len() ==> #[trigger] rows::zipped(names, cells)[k]
                == (names[k], cells[k]->0),
{
}

/// Rows are shown as one object each, in order. Where no two columns have one name, field `k` of a
/// row is shown under name `k`, and fields without a name, or names without a field, are not shown.
pub proof fn rows_show_their_fields(iter: RowIter<'_, Vec<String>>, i: int, k: int)
    requires
        0 <= i < iter.rows@.len(),
    ensures
        iter.objects_view().len() == iter.rows@.len(),
        iter.objects_view()[i] == rows::object_of(
            rows::zipped(rows::texts_view(iter.to_cols@), fdb::row_cells(iter.rows@[i])),
        ),
        (forall|a: int, b: int|
            0 <= a < b < iter.to_cols@.len() ==> (#[trigger] iter.to_cols@[a])@ != (
            #[trigger] iter.to_cols@[b])@) ==> {
            let cells = fdb::row_cells(iter.rows@[i]);
            let object = iter.objects_view()[i];
            &&& object.len() <= cells.len()
            &&& object.len() <= iter.to_cols@.len()
            &&& 0 <= k < cells.len() && k < iter.to_cols@.len() ==> k < object.len() && object[k]
                == (iter.to_cols@[k]@, cells[k]->0)
        },
{
    let names = rows::texts_view(iter.to_cols@);
    let cells = fdb::row_cells(iter.rows@[i]);
    let pairs = rows::zipped(names, cells);
    assert(fdb::rows_view(iter.rows@)[i] == cells);
    assert(iter.objects_view()[i] == rows::object_of(pairs));
    if forall|a: int, b: int|
        0 <= a < b < iter.to_cols@.len() ==> (#[trigger] iter.to_cols@[a])@ != (
        #[trigger] iter.to_cols@[b])@ {
        assert forall|a: int, b: int| 0 <= a < b < pairs.len() implies (#[trigger] pairs[a]).0 != (
        #[trigger] pairs[b]).0 by {
            assert(iter.to_cols@[a]@ != iter.to_cols@[b]@);
        }
        distinct_names_are_kept(pairs);
    }
}

/// Rows of some columns are shown as one object each, in order, of the pairs at the chosen places.
pub proof fn chosen_rows_show_their_fields(
    iter: RowIter<'_, PartialColValIterSpec>,
    i: int,
    wanted: Seq<Seq<char>>,
)
    requires
        0 <= i < iter.rows@.len(),
        iter.to_cols.indices@ == tables::chosen(
            rows::texts_view(iter.to_cols.names@),
            wanted,
            iter.to_cols.names@.len() as int,
        ),
    ensures
        iter.objects_view().len() == iter.rows@.len(),
        iter.objects_view()[i] == rows::object_of(
            only(
                rows::zipped(
                    rows::texts_view(iter.to_cols.names@),
                    fdb::row_cells(iter.rows@[i]),
                ),
                wanted,
            ),
        ),
{
    let names = rows::texts_view(iter.to_cols.names@);
    assert(names.len() == iter.to_cols.names.len());
    query_is_part_of_row(names, wanted, fdb::row_cells(iter.rows@[i]));
    assert(fdb::rows_view(iter.rows@)[i] == fdb::row_cells(iter.rows@[i]));
}

/// What is shown of rows, names and pairs is all of them, one for one.
pub proof fn lists_are_whole(
    rows: Seq<Row<'_>>,
    texts: Seq<String>,
    pairs: Seq<(String, Field)>,
    k: int,
)
    ensures
        fdb::rows_view(rows).len() == rows.len(),
        rows::texts_view(texts).len() == texts.len(),
        rows::pairs_view(pairs).len() == pairs.len(),
        0 <= k < rows.len() ==> fdb::rows_view(rows)[k] == fdb::row_cells(rows[k]),
        0 <= k < texts.len() ==> rows::texts_view(texts)[k] == texts[k]@,
        0 <= k < pairs.len() ==> rows::pairs_view(pairs)[k] == (pairs[k].0@, pairs[k].1@),
{
}

/// All rows of a table are those of its buckets, one bucket behind the other.
pub proof fn all_rows_of_buckets(chains: Seq<Option<Seq<Cells>>>, chain: Seq<Cells>)
    ensures
        fdb::all_rows(Seq::<Option<Seq<Cells>>>::empty()) == Seq::<Cells>::empty(),
        fdb::all_rows(chains.push(Some(chain))) == fdb::all_rows(chains) + chain,
{
    let more = chains.push(Some(chain));
    assert(more.drop_last() =~= chains);
    let last: Option<Seq<Cells>> = more.last();
    assert(last->0 == chain);
}

/// Of some rows just those match whose first field is equal to the key, all of them in order: a
/// further row is put behind them where it is equal, and is passed over where it is not.
pub proof fn matching_rows(rows: Seq<Cells>, row: Cells, gate: FieldView)
    ensures
        rows::matching(Seq::<Cells>::empty(), gate) == Seq::<Cells>::empty(),
        value::field_eq(gate, row[0]->0) ==> rows::matching(rows.push(row), gate)
            == rows::matching(rows, gate).push(row),
        !value::field_eq(gate, row[0]->0) ==> rows::matching(rows.push(row), gate)
            == rows::matching(rows, gate),
{
    reveal(Seq::filter);
    assert(rows.push(row).drop_last() =~= rows);
    assert(rows::matching(Seq::<Cells>::empty(), gate) =~= Seq::<Cells>::empty());
}

/// A row that is handed out was one of those before, and what is left comes behind it.
pub proof fn handing_out(before: Seq<Cells>, row: Row<'_>, after: Seq<Cells>)
    requires
        rows::hands_out(before, row, after),
    ensures
        after.len() < before.len(),
        before[before.len() - after.len() - 1] == fdb::row_cells(row),
        after == before.skip(before.len() - after.len()),
{
    let k = choose|k: int|
        0 <= k < before.len() && #[trigger] before[k] == fdb::row_cells(row) && after
            == before.skip(k + 1);
    assert(after.len() == before.len() - k - 1);
}

/// The chosen places are those of the names that are wanted, all of them in order.
pub proof fn chosen_places(names: Seq<Seq<char>>, wanted: Seq<Seq<char>>, k: int)
    requires
        names.len() <= usize::MAX,
    ensures
        ({
            let places = tables::chosen(names, wanted, names.len() as int);
            &&& forall|a: int, b: int|
                0 <= a < b < places.len() ==> #[trigger] places[a] < #[trigger] places[b]
            &&& 0 <= k < names.len() ==> (places.contains(k as usize) <==> wanted.contains(
                names[k],
            ))
        }),
{
    lemma_chosen_places(names, wanted, names.len() as int, k);
}

proof fn lemma_chosen_places(names: Seq<Seq<char>>, wanted: Seq<Seq<char>>, n: int, k: int)
    requires
        0 <= n <= names.len() <= usize::MAX,
    ensures
        ({
            let places = tables::chosen(names, wanted, n);
            &&& forall|a: int, b: int|
                0 <= a < b < places.len() ==> #[trigger] places[a] < #[trigger] places[b]
            &&& 0 <= k < n ==> (places.contains(k as usize) <==> wanted.contains(names[k]))
        }),
    decreases n,
{
    if n > 0 {
        lemma_chosen_places(names, wanted, n - 1, k);
        tables::lemma_chosen_bounded(names, wanted, n - 1);
        let before = tables::chosen(names, wanted, n - 1);
        let places = tables::chosen(names, wanted, n);
        if wanted.contains(names[n - 1]) {
            assert(places == before.push((n - 1) as usize));
            assert forall|a: int, b: int| 0 <= a < b < places.len() implies #[trigger] places[a]
                < #[trigger] places[b] by {
                assert(places[a] == before[a]);
                assert(b < before.len() ==> places[b] == before[b]);
            }
            assert(places[places.len() - 1] == (n - 1) as usize);
            if 0 <= k < n - 1 {
                if before.contains(k as usize) {
                    let a = before.index_of(k as usize);
                    assert(places[a] == k as usize);
                }
                if places.contains(k as usize) {
                    let a = places.index_of(k as usize);
                    assert(a < before.len());
                    assert(before[a] == k as usize);
                }
            }
        } else if k == n - 1 {
            if before.contains(k as usize) {
                let a = before.index_of(k as usize);
                assert(before[a] < n - 1);
            }
        }
    }
}

} // verus!
