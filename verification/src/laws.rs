//! What holds of tables whatever is done to them.
use vstd::prelude::*;
use crate::key::{key_columns, PrimaryKeyView};
use crate::model::{
    can_create, can_update, can_upsert, describes, place_of, report, RowPlace, RowView, TablesView,
};
use crate::pb::database::table_change::Operation;
use crate::pb::database::TableChange;

pub mod calls;
pub mod changes;
pub mod keys;
pub mod values;

verus! {

// Rows in their tables.

/// A row that was put at a place is found there.
pub proof fn law_row_is_found(
    tables: TablesView,
    table: Seq<char>,
    key: PrimaryKeyView,
    row: RowView,
)
    ensures
        tables.with_row(table, key, row).has_row(table, key),
        tables.with_row(table, key, row).row(table, key) == row,
{
}

/// Putting a row at a place leaves the rows at all other places as they are.
pub proof fn law_other_rows_stay(
    tables: TablesView,
    place: RowPlace,
    row: RowView,
    other: RowPlace,
)
    requires
        other != place,
    ensures
        tables.with_row(place.0, place.1, row).has_row(other.0, other.1) == tables.has_row(
            other.0,
            other.1,
        ),
        tables.has_row(other.0, other.1) ==> tables.with_row(place.0, place.1, row).row(
            other.0,
            other.1,
        ) == tables.row(other.0, other.1),
{
}

/// New tables have no rows.
pub proof fn law_new_tables_have_no_rows()
    ensures
        TablesView::empty().all_rows().finite(),
        TablesView::empty().all_rows().len() == 0,
        TablesView::empty().changed_rows() == Set::<RowPlace>::empty(),
{
    assert(TablesView::empty().all_rows() =~= Set::<RowPlace>::empty());
    assert(TablesView::empty().changed_rows() =~= Set::<RowPlace>::empty());
}

/// A row that was not there before has no operation and no columns, and stands at the next place in
/// the order.
pub proof fn law_new_row_is_empty(tables: TablesView, place: RowPlace)
    requires
        !tables.has_row(place.0, place.1),
    ensures
        tables.row(place.0, place.1).operation == Operation::Unspecified,
        tables.row(place.0, place.1).columns == Map::<Seq<char>, Seq<char>>::empty(),
        !tables.row(place.0, place.1).finalized,
        tables.row(place.0, place.1).ordinal == tables.ordinal,
{
}

/// A row that is made by itself has no operation and no columns.
pub proof fn law_fresh_row_is_empty(ordinal: u64)
    ensures
        RowView::fresh(ordinal).operation == Operation::Unspecified,
        RowView::fresh(ordinal).columns == Map::<Seq<char>, Seq<char>>::empty(),
        !RowView::fresh(ordinal).finalized,
        RowView::fresh(ordinal).ordinal == ordinal,
{
}

/// A call for a row adds one where there was none, and no other; no call takes one away.
pub proof fn law_row_count(tables: TablesView, place: RowPlace, row: RowView)
    requires
        tables.all_rows().finite(),
    ensures
        tables.with_row(place.0, place.1, row).all_rows().finite(),
        tables.with_row(place.0, place.1, row).all_rows().len() == tables.all_rows().len() + (
        if tables.has_row(place.0, place.1) {
            0int
        } else {
            1int
        }),
{
    let after = tables.with_row(place.0, place.1, row);
    assert(after.all_rows() =~= tables.all_rows().insert(place)) by {
        assert forall|p: RowPlace| after.all_rows().contains(p) <==> #[trigger] tables.all_rows().insert(
            place,
        ).contains(p) by {
            if p != place {
                law_other_rows_stay(tables, place, row, p);
            }
        }
    }
}

// Operations on a row.

/// A row can be created or upserted where it has no other operation, and updated unless it is
/// deleted.
pub proof fn law_what_an_operation_allows(operation: Operation)
    ensures
        can_create(operation) <==> !(operation is Upsert || operation is Update
            || operation is Delete),
        can_upsert(operation) <==> !(operation is Create || operation is Update
            || operation is Delete),
        can_update(operation) <==> !(operation is Delete),
{
}

/// What is to happen to a row after each call, whatever its columns. A row that is created stays to
/// be created, one that is upserted to be upserted; one that is updated is never deleted by it, and
/// stays to be created or upserted where it was. Only a row that was to be created needs no
/// deletion.
pub proof fn law_operation_after_a_call(row: RowView)
    ensures
        can_create(row.operation) ==> row.created().operation == Operation::Create,
        can_upsert(row.operation) ==> row.upserted().operation == Operation::Upsert,
        can_update(row.operation) ==> row.updated().operation != Operation::Delete,
        row.operation == Operation::Unspecified || row.operation == Operation::Update
            ==> row.updated().operation == Operation::Update,
        row.operation == Operation::Create || row.operation == Operation::Upsert
            ==> row.updated().operation == row.operation,
        row.operation == Operation::Create ==> row.deleted().operation == Operation::Unspecified,
        row.operation != Operation::Create ==> row.deleted().operation == Operation::Delete,
{
}

/// An operation changes neither a row's place in the order nor, unless the row is deleted, its
/// columns.
pub proof fn law_operations_keep_the_rest(row: RowView)
    ensures
        row.created().ordinal == row.ordinal,
        row.upserted().ordinal == row.ordinal,
        row.updated().ordinal == row.ordinal,
        row.deleted().ordinal == row.ordinal,
        row.created().finalized == row.finalized,
        row.upserted().finalized == row.finalized,
        row.updated().finalized == row.finalized,
        row.deleted().finalized == row.finalized,
        row.created().columns == row.columns,
        row.upserted().columns == row.columns,
        row.updated().columns == row.columns,
        row.deleted().columns == Map::<Seq<char>, Seq<char>>::empty(),
{
}

/// An operation that is asked for again makes no difference. For a deletion this holds unless the
/// row was to be created.
pub proof fn law_operations_repeat(row: RowView)
    ensures
        row.created().created() == row.created(),
        row.upserted().upserted() == row.upserted(),
        row.updated().updated() == row.updated(),
        row.operation != Operation::Create ==> row.deleted().deleted() == row.deleted(),
{
}

/// Of creating, upserting and updating a row without operation, the first rules the others out,
/// except that a row which is created or upserted may be updated and stays created or upserted.
pub proof fn law_operations_exclude_each_other(row: RowView)
    requires
        row.operation == Operation::Unspecified,
    ensures
        can_create(row.operation),
        can_upsert(row.operation),
        can_update(row.operation),
        !can_upsert(row.created().operation),
        !can_create(row.upserted().operation),
        !can_create(row.updated().operation),
        !can_upsert(row.updated().operation),
        can_update(row.created().operation),
        can_update(row.upserted().operation),
        row.created().updated() == row.created(),
        row.upserted().updated() == row.upserted(),
{
}

/// After a deletion that is to be carried out, the row cannot be created, upserted or updated.
pub proof fn law_deletion_is_final(row: RowView)
    requires
        row.operation != Operation::Create,
    ensures
        row.deleted().operation == Operation::Delete,
        !can_create(row.deleted().operation),
        !can_upsert(row.deleted().operation),
        !can_update(row.deleted().operation),
{
}

/// A row that is created and then deleted, whatever its columns were in between, is left without
/// columns and is not reported; it keeps its place in the order, and can be created anew.
pub proof fn law_created_then_deleted(tables: TablesView, place: RowPlace, row: RowView)
    requires
        row.operation == Operation::Create,
    ensures
        ({
            let created = tables.with_row(place.0, place.1, row);
            let deleted = created.with_row(
                place.0,
                place.1,
                created.row(place.0, place.1).deleted(),
            );
            &&& !deleted.changed_rows().contains(place)
            &&& deleted.row(place.0, place.1) == (RowView {
                finalized: row.finalized,
                ..RowView::fresh(row.ordinal)
            })
            &&& can_create(deleted.row(place.0, place.1).operation)
        }),
{
}

/// A row that is deleted without having been created is reported as deleted, without columns.
pub proof fn law_deletion_is_reported(tables: TablesView, place: RowPlace)
    requires
        tables.row(place.0, place.1).operation != Operation::Create,
    ensures
        ({
            let deleted = tables.with_row(
                place.0,
                place.1,
                tables.row(place.0, place.1).deleted(),
            );
            &&& deleted.changed_rows().contains(place)
            &&& deleted.row(place.0, place.1).operation == Operation::Delete
            &&& deleted.row(place.0, place.1).columns == Map::<Seq<char>, Seq<char>>::empty()
        }),
{
}

// Columns.

/// The value that a column was given last is the one that it has; the other columns keep theirs.
pub proof fn law_last_value_counts(
    row: RowView,
    name: Seq<char>,
    first: Seq<char>,
    last: Seq<char>,
    other: Seq<char>,
)
    requires
        other != name,
    ensures
        row.with_column(name, first).with_column(name, last) == row.with_column(name, last),
        row.with_column(name, last).columns.contains_key(name),
        row.with_column(name, last).columns[name] == last,
        row.with_column(name, last).columns.contains_key(other) == row.columns.contains_key(other),
        row.columns.contains_key(other) ==> row.with_column(name, last).columns[other]
            == row.columns[other],
        row.with_column(name, last).operation == row.operation,
        row.with_column(name, last).ordinal == row.ordinal,
        row.with_column(name, last).finalized == row.finalized,
{
    assert(row.columns.insert(name, first).insert(name, last) =~= row.columns.insert(name, last));
}

/// It makes no difference in which order two columns are set.
pub proof fn law_columns_commute(
    row: RowView,
    a: Seq<char>,
    a_value: Seq<char>,
    b: Seq<char>,
    b_value: Seq<char>,
)
    requires
        a != b,
    ensures
        row.with_column(a, a_value).with_column(b, b_value) == row.with_column(
            b,
            b_value,
        ).with_column(a, a_value),
{
    assert(row.columns.insert(a, a_value).insert(b, b_value) =~= row.columns.insert(
        b,
        b_value,
    ).insert(a, a_value));
}

// Composite keys.

/// Where no two columns of a composite key have the same name, each column is in the key.
proof fn lemma_key_columns(pairs: Seq<(Seq<char>, Seq<char>)>)
    requires
        forall|i: int, j: int|
            0 <= i < j < pairs.len() ==> (#[trigger] pairs[i]).0 != (#[trigger] pairs[j]).0,
    ensures
        forall|i: int|
            0 <= i < pairs.len() ==> key_columns(pairs).contains_key((#[trigger] pairs[i]).0)
                && key_columns(pairs)[pairs[i].0] == pairs[i].1,
        forall|name: Seq<char>| #[trigger]
            key_columns(pairs).contains_key(name) ==> exists|i: int|
                0 <= i < pairs.len() && (#[trigger] pairs[i]).0 == name,
    decreases pairs.len(),
{
    if pairs.len() > 0 {
        let rest = pairs.drop_last();
        assert forall|i: int, j: int| 0 <= i < j < rest.len() implies (#[trigger] rest[i]).0 != (
        #[trigger] rest[j]).0 by {
            assert(pairs[i].0 != pairs[j].0);
        }
        lemma_key_columns(rest);
        let last = pairs.len() - 1;
        assert forall|i: int| 0 <= i < pairs.len() implies key_columns(pairs).contains_key(
            (#[trigger] pairs[i]).0,
        ) && key_columns(pairs)[pairs[i].0] == pairs[i].1 by {
            if i < last {
                assert(rest[i] == pairs[i]);
                assert(pairs[i].0 != pairs[last].0);
            }
        }
        assert forall|name: Seq<char>| #[trigger] key_columns(pairs).contains_key(
            name,
        ) implies exists|i: int| 0 <= i < pairs.len() && (#[trigger] pairs[i]).0 == name by {
            if name != pairs[last].0 {
                assert(key_columns(rest).contains_key(name));
                let i = choose|i: int| 0 <= i < rest.len() && (#[trigger] rest[i]).0 == name;
                assert(pairs[i].0 == name);
            }
        }
    }
}

/// Two lists of columns, in each of which no two have the same name, make the same key if and only
/// if they hold the same columns, in whatever order they stand.
pub proof fn law_key_has_no_order(
    a: Seq<(Seq<char>, Seq<char>)>,
    b: Seq<(Seq<char>, Seq<char>)>,
)
    requires
        forall|i: int, j: int|
            0 <= i < j < a.len() ==> (#[trigger] a[i]).0 != (#[trigger] a[j]).0,
        forall|i: int, j: int|
            0 <= i < j < b.len() ==> (#[trigger] b[i]).0 != (#[trigger] b[j]).0,
    ensures
        a.to_set() == b.to_set() <==> key_columns(a) == key_columns(b),
{
    lemma_key_columns(a);
    lemma_key_columns(b);
    if a.to_set() == b.to_set() {
        assert forall|i: int| 0 <= i < a.len() implies exists|j: int|
            0 <= j < b.len() && b[j] == #[trigger] a[i] by {
            assert(a.to_set().contains(a[i]));
            assert(b.contains(a[i]));
        }
        assert forall|j: int| 0 <= j < b.len() implies exists|i: int|
            0 <= i < a.len() && a[i] == #[trigger] b[j] by {
            assert(b.to_set().contains(b[j]));
            assert(a.contains(b[j]));
        }
        assert(key_columns(a) =~= key_columns(b));
    }
    if key_columns(a) == key_columns(b) {
        lemma_same_key_same_columns(a, b);
        lemma_same_key_same_columns(b, a);
        assert(a.to_set() =~= b.to_set());
    }
}

proof fn lemma_same_key_same_columns(
    a: Seq<(Seq<char>, Seq<char>)>,
    b: Seq<(Seq<char>, Seq<char>)>,
)
    requires
        forall|i: int, j: int|
            0 <= i < j < a.len() ==> (#[trigger] a[i]).0 != (#[trigger] a[j]).0,
        forall|i: int, j: int|
            0 <= i < j < b.len() ==> (#[trigger] b[i]).0 != (#[trigger] b[j]).0,
        key_columns(a) == key_columns(b),
    ensures
        a.to_set().subset_of(b.to_set()),
{
    lemma_key_columns(a);
    lemma_key_columns(b);
    assert forall|pair: (Seq<char>, Seq<char>)| #[trigger] a.to_set().contains(
        pair,
    ) implies b.to_set().contains(pair) by {
        let i = choose|i: int| 0 <= i < a.len() && a[i] == pair;
        assert(key_columns(b).contains_key(a[i].0));
        let j = choose|j: int| 0 <= j < b.len() && (#[trigger] b[j]).0 == pair.0;
        assert(b[j] == pair);
    }
}

// The order of the changes.

/// In new tables the ordinals are in order.
pub proof fn law_new_tables_are_ordered()
    ensures
        TablesView::empty().ordered(),
{
}

/// A call for a row keeps the ordinals in order, as long as the row keeps the ordinal that it has.
pub proof fn law_order_is_kept(tables: TablesView, place: RowPlace, row: RowView)
    requires
        tables.ordered(),
        tables.ordinal < u64::MAX,
        row.ordinal == tables.row(place.0, place.1).ordinal,
    ensures
        tables.with_row(place.0, place.1, row).ordered(),
{
    let after = tables.with_row(place.0, place.1, row);
    assert forall|p: RowPlace| #[trigger] after.all_rows().contains(p) implies (p == place
        || tables.all_rows().contains(p)) && (p != place ==> after.row(p.0, p.1) == tables.row(
        p.0,
        p.1,
    )) by {
        if p != place {
            law_other_rows_stay(tables, place, row, p);
        }
    }
    assert(after.row(place.0, place.1) == row);
    assert(tables.has_row(place.0, place.1) ==> tables.all_rows().contains(place));
}

/// Each call for a row uses one ordinal up, whether the row is new or not.
pub proof fn law_call_uses_an_ordinal(tables: TablesView, place: RowPlace, row: RowView)
    requires
        tables.ordinal < u64::MAX,
    ensures
        tables.with_row(place.0, place.1, row).ordinal == tables.ordinal + 1,
{
}

/// A row that is called for the first time comes after all rows that are there.
pub proof fn law_new_row_comes_last(tables: TablesView, place: RowPlace, other: RowPlace)
    requires
        tables.ordered(),
        !tables.has_row(place.0, place.1),
        tables.has_row(other.0, other.1),
    ensures
        tables.row(other.0, other.1).ordinal < tables.row(place.0, place.1).ordinal,
{
    assert(tables.all_rows().contains(other));
}

/// Where the ordinals are in order, each change has a higher ordinal than the one before it.
pub proof fn law_changes_strictly_ordered(changes: Seq<TableChange>, tables: TablesView)
    requires
        tables.ordered(),
        report(changes, tables, tables.changed_rows()),
    ensures
        forall|i: int, j: int|
            0 <= i < j < changes.len() ==> (#[trigger] changes[i]).ordinal < (
            #[trigger] changes[j]).ordinal,
{
    assert forall|i: int, j: int| 0 <= i < j < changes.len() implies (#[trigger] changes[i]).ordinal
        < (#[trigger] changes[j]).ordinal by {
        let a = place_of(changes[i]);
        let b = place_of(changes[j]);
        assert(tables.changed_rows().contains(a) && tables.changed_rows().contains(b));
        assert(tables.all_rows().contains(a) && tables.all_rows().contains(b));
        assert(describes(changes[i], a, tables.row(a.0, a.1)));
        assert(describes(changes[j], b, tables.row(b.0, b.1)));
    }
}

/// Of two rows that are reported, the one with the lower ordinal is reported first.
pub proof fn law_changes_in_order_of_rows(
    changes: Seq<TableChange>,
    tables: TablesView,
    i: int,
    j: int,
)
    requires
        report(changes, tables, tables.changed_rows()),
        0 <= i < changes.len(),
        0 <= j < changes.len(),
        ({
            let a = place_of(changes[i]);
            let b = place_of(changes[j]);
            tables.row(a.0, a.1).ordinal < tables.row(b.0, b.1).ordinal
        }),
    ensures
        i < j,
{
    let a = place_of(changes[i]);
    let b = place_of(changes[j]);
    assert(describes(changes[i], a, tables.row(a.0, a.1)));
    assert(describes(changes[j], b, tables.row(b.0, b.1)));
}

/// After one call for a row: the tables have the row that was called for, in the state in which the
/// caller left it, with the ordinal that it was given.
pub open spec fn after_a_call(before: TablesView, after: TablesView) -> bool {
    exists|place: RowPlace, row: RowView|
        before.ordinal < u64::MAX && row.ordinal == before.row(place.0, place.1).ordinal && after
            == #[trigger] before.with_row(place.0, place.1, row)
}

/// The states that tables go through: first they are new, and each later state is the one before it
/// after one more call for a row.
pub open spec fn calls_made(states: Seq<TablesView>) -> bool {
    &&& states.len() > 0
    &&& states[0] == TablesView::empty()
    &&& forall|i: int|
        0 < i < states.len() ==> after_a_call(states[i - 1], #[trigger] states[i])
}

/// Whatever calls are made, the ordinals are in order. A row stays and keeps its ordinal; one that
/// comes later has an ordinal that was not given out before.
pub proof fn law_calls_keep_the_order(states: Seq<TablesView>, m: int, n: int, p: RowPlace)
    requires
        calls_made(states),
        0 <= m <= n < states.len(),
    ensures
        states[n].ordered(),
        states[m].ordinal <= states[n].ordinal,
        states[m].has_row(p.0, p.1) ==> states[n].has_row(p.0, p.1) && states[n].row(
            p.0,
            p.1,
        ).ordinal == states[m].row(p.0, p.1).ordinal,
        !states[m].has_row(p.0, p.1) && states[n].has_row(p.0, p.1) ==> states[m].ordinal
            <= states[n].row(p.0, p.1).ordinal,
    decreases n,
{
    if n == 0 {
        law_new_tables_are_ordered();
    } else {
        let before = states[n - 1];
        assert(after_a_call(before, states[n]));
        let (place, row) = choose|place: RowPlace, row: RowView|
            before.ordinal < u64::MAX && row.ordinal == before.row(place.0, place.1).ordinal
                && states[n] == #[trigger] before.with_row(place.0, place.1, row);
        law_calls_keep_the_order(
            states,
            if m < n {
                m
            } else {
                n - 1
            },
            n - 1,
            p,
        );
        law_order_is_kept(before, place, row);
        law_row_is_found(before, place.0, place.1, row);
        if p != place {
            law_other_rows_stay(before, place, row, p);
        }
    }
}

/// The ordinal that the next new row gets is the number of calls that were made, and the ordinal of a
/// row is the number of calls that were made before the first one for it.
pub proof fn law_ordinals_count_the_calls(states: Seq<TablesView>, n: int, p: RowPlace)
    requires
        calls_made(states),
        0 <= n < states.len(),
    ensures
        states[n].ordinal == n,
        n > 0 && states[n].has_row(p.0, p.1) && !states[n - 1].has_row(p.0, p.1) ==> states[n].row(
            p.0,
            p.1,
        ).ordinal == n - 1,
    decreases n,
{
    if n > 0 {
        let before = states[n - 1];
        assert(after_a_call(before, states[n]));
        let (place, row) = choose|place: RowPlace, row: RowView|
            before.ordinal < u64::MAX && row.ordinal == before.row(place.0, place.1).ordinal
                && states[n] == #[trigger] before.with_row(place.0, place.1, row);
        law_ordinals_count_the_calls(states, n - 1, p);
        law_row_is_found(before, place.0, place.1, row);
        if p != place {
            law_other_rows_stay(before, place, row, p);
        }
    }
}

/// Of two rows that are reported, the one that was called for first is reported first: the one that
/// the tables had at a time when they did not have the other.
pub proof fn law_first_called_first_reported(
    states: Seq<TablesView>,
    time: int,
    changes: Seq<TableChange>,
    i: int,
    j: int,
)
    requires
        calls_made(states),
        report(changes, states.last(), states.last().changed_rows()),
        0 <= time < states.len(),
        0 <= i < changes.len(),
        0 <= j < changes.len(),
        states[time].has_row(place_of(changes[i]).0, place_of(changes[i]).1),
        !states[time].has_row(place_of(changes[j]).0, place_of(changes[j]).1),
    ensures
        i < j,
{
    let tables = states.last();
    let a = place_of(changes[i]);
    let b = place_of(changes[j]);
    law_calls_keep_the_order(states, time, states.len() - 1, a);
    law_calls_keep_the_order(states, time, states.len() - 1, b);
    law_calls_keep_the_order(states, time, time, a);
    assert(states[time].all_rows().contains(a));
    assert(tables.changed_rows().contains(b));
    law_changes_in_order_of_rows(changes, tables, i, j);
}

/// Each row to which something is to happen is reported once: there are as many changes as such
/// rows.
pub proof fn law_one_change_per_row(
    changes: Seq<TableChange>,
    tables: TablesView,
    places: Set<RowPlace>,
)
    requires
        report(changes, tables, places),
    ensures
        places.finite(),
        changes.len() == places.len(),
{
    let reported = changes.map_values(|change: TableChange| place_of(change));
    assert(reported.no_duplicates());
    assert(reported.to_set() =~= places) by {
        assert forall|place: RowPlace| places.contains(place) implies #[trigger] reported.to_set().contains(
            place,
        ) by {
            let i = choose|i: int|
                0 <= i < changes.len() && place_of(#[trigger] changes[i]) == place;
            assert(reported[i] == place);
        }
    }
    reported.unique_seq_to_set();
}

/// Where the ordinals are in order, the changes are determined: any two reports tell of the same
/// rows in the same order.
pub proof fn law_changes_are_determined(
    a: Seq<TableChange>,
    b: Seq<TableChange>,
    tables: TablesView,
)
    requires
        tables.ordered(),
        report(a, tables, tables.changed_rows()),
        report(b, tables, tables.changed_rows()),
    ensures
        a.len() == b.len(),
        forall|i: int|
            #![trigger a[i]]
            #![trigger b[i]]
            0 <= i < a.len() ==> place_of(a[i]) == place_of(b[i]) && a[i].ordinal == b[i].ordinal
                && a[i].operation == b[i].operation,
{
    let places = tables.changed_rows();
    law_one_change_per_row(a, tables, places);
    law_one_change_per_row(b, tables, places);
    assert forall|i: int|
        #![trigger a[i]]
        #![trigger b[i]]
        0 <= i < a.len() implies place_of(a[i]) == place_of(b[i]) && a[i].ordinal == b[i].ordinal
        && a[i].operation == b[i].operation by {
        lemma_same_place(a, b, tables, i);
    }
}

proof fn lemma_same_place(a: Seq<TableChange>, b: Seq<TableChange>, tables: TablesView, i: int)
    requires
        tables.ordered(),
        report(a, tables, tables.changed_rows()),
        report(b, tables, tables.changed_rows()),
        0 <= i < a.len(),
        a.len() == b.len(),
    ensures
        place_of(a[i]) == place_of(b[i]),
        a[i].ordinal == b[i].ordinal,
        a[i].operation == b[i].operation,
    decreases i,
{
    let places = tables.changed_rows();
    assert forall|k: int| 0 <= k < i implies place_of(#[trigger] a[k]) == place_of(b[k]) by {
        lemma_same_place(a, b, tables, k);
    }
    let pa = place_of(a[i]);
    let pb = place_of(b[i]);
    assert(places.contains(pa) && places.contains(pb));
    assert(tables.all_rows().contains(pa) && tables.all_rows().contains(pb));
    assert(describes(a[i], pa, tables.row(pa.0, pa.1)));
    assert(describes(b[i], pb, tables.row(pb.0, pb.1)));
    // Each of the two stands in the other list too, and not before this place.
    let j = choose|j: int| 0 <= j < b.len() && place_of(#[trigger] b[j]) == pa;
    assert(j >= i) by {
        if j < i {
            assert(place_of(a[j]) == pa);
        }
    }
    assert(describes(b[j], pa, tables.row(pa.0, pa.1)));
    let k = choose|k: int| 0 <= k < a.len() && place_of(#[trigger] a[k]) == pb;
    assert(k >= i) by {
        if k < i {
            assert(place_of(b[k]) == pb);
        }
    }
    assert(describes(a[k], pb, tables.row(pb.0, pb.1)));
    assert(b[i].ordinal <= b[j].ordinal);
    assert(a[i].ordinal <= a[k].ordinal);
}

/// A table in order holds no more rows than ordinals were given out.
pub proof fn law_rows_within_ordinals(tables: TablesView)
    requires
        tables.ordered(),
    ensures
        tables.all_rows().finite(),
        tables.all_rows().len() <= tables.ordinal,
{
    let ordinal_of = |place: RowPlace| tables.row(place.0, place.1).ordinal as int;
    let used = tables.all_rows().map(ordinal_of);
    let given = vstd::set_lib::set_int_range(0, tables.ordinal as int);
    vstd::set_lib::lemma_int_range(0, tables.ordinal as int);
    assert(used.subset_of(given));
    vstd::set_lib::lemma_len_subset(used, given);
    let place_at = |ordinal: int|
        choose|place: RowPlace| #[trigger]
            tables.all_rows().contains(place) && ordinal_of(place) == ordinal;
    assert(used.map(place_at) =~= tables.all_rows()) by {
        assert forall|place: RowPlace| tables.all_rows().contains(place) implies #[trigger] used.map(
            place_at,
        ).contains(place) by {
            assert(used.contains(ordinal_of(place)));
            assert(place_at(ordinal_of(place)) == place);
        }
        assert forall|place: RowPlace| #[trigger]
            used.map(place_at).contains(place) implies tables.all_rows().contains(place) by {
            let ordinal = choose|ordinal: int| used.contains(ordinal) && place_at(ordinal) == place;
            let p = choose|p: RowPlace|
                tables.all_rows().contains(p) && ordinal_of(p) == ordinal;
            assert(tables.all_rows().contains(p) && ordinal_of(p) == ordinal);
        }
    }
    vstd::set_lib::lemma_map_size_bound(used, tables.all_rows(), place_at);
}

} // verus!
