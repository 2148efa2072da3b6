//! Laws of damage: what must not be damaged for a request to be answered.
use vstd::prelude::*;
use vstd::utf8;

use crate::damage;
use crate::damage::Part;
use crate::fdb::Database;
use crate::file;
use crate::file::{Cells, TableView};
use crate::route::ApiRouteView;
use crate::rows;
use crate::service;
use crate::tables;
use crate::value;
use crate::value::FieldView;

verus! {

/// Whether no column of a table is damaged.
pub open spec fn whole_columns(t: TableView) -> bool {
    forall|k: int| 0 <= k < t.columns.len() ==> (#[trigger] t.columns[k]) is Some
}

/// Whether no bucket of a table is damaged.
pub open spec fn whole_chains(t: TableView) -> bool {
    forall|j: int| 0 <= j < t.chains.len() ==> (#[trigger] t.chains[j]) is Some
}

/// Whether field `k` of a row, if it has one, is not damaged.
pub open spec fn whole_field(row: Cells, k: int) -> bool {
    k < row.len() ==> row[k] is Some
}

/// Whether every field of a row that stands in one of `n` columns is not damaged.
pub open spec fn whole_row(row: Cells, n: int) -> bool {
    forall|k: int| 0 <= k < n ==> #[trigger] whole_field(row, k)
}

proof fn lemma_row(row: Cells, n: nat)
    ensures
        damage::cells_shown(row, damage::all_columns(n)) <==> whole_row(row, n as int),
{
    let all = damage::all_columns(n);
    if damage::cells_shown(row, all) {
        assert forall|k: int| 0 <= k < n implies #[trigger] whole_field(row, k) by {
            assert(all[k]);
        }
    }
    if whole_row(row, n as int) {
        assert forall|k: int| 0 <= k < all.len() && k < row.len() && all[k] implies #[trigger] row[
            k
        ] is Some by {
            assert(whole_field(row, k));
        }
    }
}

/// The definition of a table can be shown where no column is damaged, and the type of its key be told
/// where there is a first column that is not.
pub proof fn definitions_that_can_be_shown(t: TableView)
    ensures
        damage::part_sound(Part::Definition, t) <==> whole_columns(t),
        damage::part_sound(Part::KeyType, t) <==> t.columns.len() > 0 && t.columns[0] is Some,
{
}

/// All rows of a table can be shown where no column, no bucket and no field that stands in a column is
/// damaged.
pub proof fn rows_that_can_be_shown(t: TableView)
    ensures
        damage::part_sound(Part::Rows, t) <==> whole_columns(t) && whole_chains(t) && forall|
            j: int,
            i: int,
        |
            0 <= j < t.chains.len() && 0 <= i < (t.chains[j]->0).len() ==> whole_row(
                #[trigger] (t.chains[j]->0)[i],
                t.columns.len() as int,
            ),
{
    let n = t.columns.len();
    let all = damage::all_columns(n);
    assert forall|row: Cells| #[trigger] damage::row_shown(row, all, None) == whole_row(
        row,
        n as int,
    ) by {
        lemma_row(row, n);
    }
    if damage::part_sound(Part::Rows, t) {
        assert forall|j: int| 0 <= j < t.chains.len() implies (#[trigger] t.chains[j]) is Some by {
            assert(damage::chain_shown(t.chains[j], all, None));
        }
        assert forall|j: int, i: int|
            0 <= j < t.chains.len() && 0 <= i < (t.chains[j]->0).len() implies whole_row(
            #[trigger] (t.chains[j]->0)[i],
            n as int,
        ) by {
            assert(damage::chain_shown(t.chains[j], all, None));
            assert(damage::row_shown((t.chains[j]->0)[i], all, None));
        }
    }
    if whole_columns(t) && whole_chains(t) && forall|j: int, i: int|
        0 <= j < t.chains.len() && 0 <= i < (t.chains[j]->0).len() ==> whole_row(
            #[trigger] (t.chains[j]->0)[i],
            n as int,
        ) {
        assert forall|j: int| 0 <= j < t.chains.len() implies damage::chain_shown(
            #[trigger] t.chains[j],
            all,
            None,
        ) by {
            let rows = t.chains[j]->0;
            assert forall|i: int| 0 <= i < rows.len() implies damage::row_shown(
                #[trigger] rows[i],
                all,
                None,
            ) by {
                assert(whole_row((t.chains[j]->0)[i], n as int));
            }
        }
    }
}

/// Whether every field of a row that stands in a wanted column of a table is not damaged.
pub open spec fn whole_wanted(t: TableView, row: Cells, wanted: Seq<Seq<char>>) -> bool {
    forall|k: int|
        0 <= k < t.columns.len() && wanted.contains(
            file::latin1_decoded((t.columns[k]->0).label),
        ) ==> #[trigger] whole_field(row, k)
}

proof fn lemma_wanted(t: TableView, row: Cells, wanted: Seq<Seq<char>>)
    ensures
        damage::cells_shown(row, damage::wanted_columns(t, wanted)) <==> whole_wanted(
            t,
            row,
            wanted,
        ),
{
    let choice = damage::wanted_columns(t, wanted);
    assert(choice.len() == t.columns.len());
    assert forall|k: int| 0 <= k < choice.len() implies choice[k] == wanted.contains(
        file::latin1_decoded((t.columns[k]->0).label),
    ) by {}
    if damage::cells_shown(row, choice) {
        assert forall|k: int|
            0 <= k < t.columns.len() && wanted.contains(
                file::latin1_decoded((t.columns[k]->0).label),
            ) implies #[trigger] whole_field(row, k) by {
            assert(choice[k]);
        }
    }
    if whole_wanted(t, row, wanted) {
        assert forall|k: int|
            0 <= k < choice.len() && k < row.len() && choice[k] implies #[trigger] row[
            k
        ] is Some by {
            assert(whole_field(row, k));
        }
    }
}

/// A query on a table can be answered where there is a first column, and no column, no bucket and no
/// field in a wanted column is damaged. Fields in other columns do not matter.
pub proof fn queries_that_can_be_shown(t: TableView, wanted: &Vec<String>)
    ensures
        damage::part_sound(Part::Query(wanted), t) <==> t.columns.len() > 0 && whole_columns(t)
            && whole_chains(t) && forall|j: int, i: int|
            0 <= j < t.chains.len() && 0 <= i < (t.chains[j]->0).len() ==> whole_wanted(
                t,
                #[trigger] (t.chains[j]->0)[i],
                rows::texts_view(wanted@),
            ),
{
    let texts = rows::texts_view(wanted@);
    let choice = damage::wanted_columns(t, texts);
    assert forall|row: Cells| #[trigger] damage::row_shown(row, choice, None) == whole_wanted(
        t,
        row,
        texts,
    ) by {
        lemma_wanted(t, row, texts);
    }
    if damage::part_sound(Part::Query(wanted), t) {
        assert forall|j: int| 0 <= j < t.chains.len() implies (#[trigger] t.chains[j]) is Some by {
            assert(damage::chain_shown(t.chains[j], choice, None));
        }
        assert forall|j: int, i: int|
            0 <= j < t.chains.len() && 0 <= i < (t.chains[j]->0).len() implies whole_wanted(
            t,
            #[trigger] (t.chains[j]->0)[i],
            texts,
        ) by {
            assert(damage::chain_shown(t.chains[j], choice, None));
            assert(damage::row_shown((t.chains[j]->0)[i], choice, None));
        }
    }
    if t.columns.len() > 0 && whole_columns(t) && whole_chains(t) && forall|j: int, i: int|
        0 <= j < t.chains.len() && 0 <= i < (t.chains[j]->0).len() ==> whole_wanted(
            t,
            #[trigger] (t.chains[j]->0)[i],
            texts,
        ) {
        assert(t.columns[0] is Some);
        assert forall|j: int| 0 <= j < t.chains.len() implies damage::chain_shown(
            #[trigger] t.chains[j],
            choice,
            None,
        ) by {
            let rows = t.chains[j]->0;
            assert forall|i: int| 0 <= i < rows.len() implies damage::row_shown(
                #[trigger] rows[i],
                choice,
                None,
            ) by {
                assert(whole_wanted(t, (t.chains[j]->0)[i], texts));
            }
        }
    }
}

/// Whether a row has a first field that is not damaged, and where that is equal to the key, no other
/// field that stands in a column is damaged either.
pub open spec fn whole_for_key(row: Cells, n: int, gate: FieldView) -> bool {
    &&& row.len() > 0
    &&& row[0] is Some
    &&& value::field_eq(gate, row[0]->0) ==> whole_row(row, n)
}

/// The rows with a key can be shown where there is a first column that is not damaged and, if the key
/// is a value of its type, there is a bucket for it, which is not damaged, nor any column, nor the
/// first field of any row of the bucket, nor any field of the rows that are shown.
pub proof fn keys_that_can_be_shown(t: TableView, key: &str, float: Option<u32>)
    ensures
        damage::part_sound(Part::Key(key, float), t) <==> {
            &&& t.columns.len() > 0
            &&& t.columns[0] is Some
            &&& value::parsed(key@, (t.columns[0]->0).data_type, float) matches Some(gate) ==> {
                let chain = t.chains[tables::bucket_of(gate, t.chains.len() as int)];
                &&& t.chains.len() > 0
                &&& whole_columns(t)
                &&& chain is Some
                &&& forall|i: int|
                    0 <= i < (chain->0).len() ==> whole_for_key(
                        #[trigger] (chain->0)[i],
                        t.columns.len() as int,
                        gate,
                    )
            }
        },
{
    if t.columns.len() > 0 {
        if let Some(gate) = value::parsed(key@, (t.columns[0]->0).data_type, float) {
            let n = t.columns.len();
            let all = damage::all_columns(n);
            let chain = t.chains[tables::bucket_of(gate, t.chains.len() as int)];
            assert forall|row: Cells| #[trigger]
                damage::row_shown(row, all, Some(gate)) == whole_for_key(
                row,
                n as int,
                gate,
            ) by {
                lemma_row(row, n);
            }
            if chain is Some {
                let rows = chain->0;
                if damage::chain_shown(chain, all, Some(gate)) {
                    assert forall|i: int| 0 <= i < rows.len() implies whole_for_key(
                        #[trigger] rows[i],
                        n as int,
                        gate,
                    ) by {
                        assert(damage::row_shown(rows[i], all, Some(gate)));
                    }
                }
                if forall|i: int|
                    0 <= i < rows.len() ==> whole_for_key(#[trigger] rows[i], n as int, gate) {
                    assert forall|i: int| 0 <= i < rows.len() implies damage::row_shown(
                        #[trigger] rows[i],
                        all,
                        Some(gate),
                    ) by {
                        assert(whole_for_key(rows[i], n as int, gate));
                    }
                }
            }
        }
    }
}

/// Part of a table can be shown where every name can be compared with the one that is asked for, and
/// that part of each table is not damaged that the search may end at and that can be opened.
pub proof fn tables_that_can_be_shown(f: Seq<u8>, name: Seq<char>, part: Part<'_>)
    ensures
        ({
            let q = utf8::encode_utf8(name);
            damage::sound(f, name, part) <==> file::tables_countable(f) && (file::tables_error(
                f,
            ) is None ==> file::searchable(f, q) && forall|i: int| #[trigger]
                file::candidate(f, q, i) && file::table_error(f, file::table_header(f, i)) is None
                    ==> damage::part_sound(part, file::table_at(f, file::table_header(f, i))))
        }),
{
}

/// A name can be searched for where each table's definition is in the file, its name can be compared
/// within the file, and each table that the search may end at can be opened.
pub proof fn names_that_can_be_searched(f: Seq<u8>, q: Seq<u8>)
    ensures
        file::searchable(f, q) <==> (forall|i: int|
            0 <= i < file::word(f, 0) ==> file::word(f, #[trigger] file::table_header(f, i)) + 12
                <= f.len() && file::label_comparable(
                f,
                file::label_at(f, file::table_header(f, i)),
                q,
                0,
            )) && forall|i: int| #[trigger]
            file::candidate(f, q, i) ==> file::openable(f, file::table_header(f, i)),
{
    if file::searchable(f, q) {
        assert forall|i: int| 0 <= i < file::word(f, 0) implies file::word(
            f,
            #[trigger] file::table_header(f, i),
        ) + 12 <= f.len() && file::label_comparable(
            f,
            file::label_at(f, file::table_header(f, i)),
            q,
            0,
        ) by {
            assert(file::within(f, file::def_at(f, file::table_header(f, i)), 12));
        }
    }
}

/// Which requests are answered: each route needs its own part of its own table; the list needs the
/// names; the rest needs nothing of the database.
pub proof fn requests_that_are_answered(
    f: Seq<u8>,
    name: Seq<char>,
    key: &str,
    rest: Seq<Seq<char>>,
    wanted: &Vec<String>,
    float: Option<u32>,
)
    ensures
        service::intact(f, None, float),
        service::intact(f, Some(ApiRouteView::Locale(rest)), float),
        service::intact(f, Some(ApiRouteView::OpenApiV0), float),
        service::intact(f, Some(ApiRouteView::Tables), float) <==> tables::listable(f),
        service::intact(f, Some(ApiRouteView::TableByName(name)), float) <==> damage::sound(
            f,
            name,
            Part::Definition,
        ),
        service::intact(f, Some(ApiRouteView::AllTableRows(name)), float) <==> damage::sound(
            f,
            name,
            Part::Rows,
        ),
        service::intact(f, Some(ApiRouteView::TableRowsByPK(name, key@)), float)
            <==> damage::sound(f, name, Part::Key(key, float)),
        service::query_part(None) == Part::KeyType,
        service::query_part(Some(wanted)) == Part::Query(wanted),
{
}

/// A database is the bytes of its file.
pub proof fn databases(db: Database<'_>)
    ensures
        db@ == db.file@,
{
}

} // verus!
