//! What holds of the changes that tables report.
use vstd::prelude::*;
use crate::key::PrimaryKeyView;
use crate::model::{
    can_create, can_update, can_upsert, describes, list_columns, place_of, report, RowView,
    TablesView,
};
use crate::pb::database::table_change::{Operation, PrimaryKey};
use crate::pb::database::{DatabaseChanges, Field, TableChange};
use crate::tables::Tables;

verus! {

/// A change is about the row with this key in this table.
pub open spec fn is_about(change: TableChange, table: Seq<char>, key: PrimaryKeyView) -> bool {
    &&& change.table@ == table
    &&& match (change.primary_key, key) {
        (Some(PrimaryKey::Pk(pk)), PrimaryKeyView::Single(text)) => pk@ == text,
        (Some(PrimaryKey::CompositePk(composite)), PrimaryKeyView::Composite(columns)) => {
            forall|name: Seq<char>|
                #![trigger composite.keys@.contains_key(name)]
                #![trigger columns.contains_key(name)]
                {
                    &&& composite.keys@.contains_key(name) <==> columns.contains_key(name)
                    &&& columns.contains_key(name) ==> composite.keys@[name]@ == columns[name]
                }
        },
        _ => false,
    }
}

/// Some field has this name and this value, and no old value.
pub open spec fn has_field(fields: Seq<Field>, name: Seq<char>, value: Seq<char>) -> bool {
    exists|i: int|
        0 <= i < fields.len() && (#[trigger] fields[i]).name@ == name && fields[i].new_value@
            == value && fields[i].old_value@ == Seq::<char>::empty()
}

/// A change tells what is to happen to a row: the number of its operation, its ordinal, and one field
/// for each of its columns. It has each column of its key once.
pub open spec fn tells(change: TableChange, row: RowView) -> bool {
    &&& change.ordinal == row.ordinal
    &&& change.operation == match row.operation {
        Operation::Unspecified => 0int,
        Operation::Create => 1int,
        Operation::Update => 2int,
        Operation::Delete => 3int,
        Operation::Upsert => 4int,
    }
    &&& change.primary_key matches Some(PrimaryKey::CompositePk(composite)) ==> composite.keys.wf()
    &&& row.columns.dom().finite()
    &&& change.fields@.len() == row.columns.dom().len()
    &&& forall|name: Seq<char>| #[trigger]
        row.columns.contains_key(name) ==> has_field(change.fields@, name, row.columns[name])
}

/// The operations have the numbers of the protocol.
pub proof fn law_numbers_of_operations(operation: Operation)
    ensures
        operation.number() == match operation {
            Operation::Unspecified => 0int,
            Operation::Create => 1int,
            Operation::Update => 2int,
            Operation::Delete => 3int,
            Operation::Upsert => 4int,
        },
{
}

/// A change that concerns a row names its table, its key, its ordinal and its operation.
pub proof fn law_what_a_change_concerns(
    change: TableChange,
    table: Seq<char>,
    key: PrimaryKeyView,
    ordinal: u64,
    operation: Operation,
)
    requires
        change.concerns(table, key, ordinal, operation),
    ensures
        is_about(change, table, key),
        change.ordinal == ordinal,
        change.operation == operation.number(),
{
    lemma_is_about(change, table, key);
}

/// No change is about two rows.
pub proof fn law_change_is_about_one_row(
    change: TableChange,
    a_table: Seq<char>,
    a_key: PrimaryKeyView,
    b_table: Seq<char>,
    b_key: PrimaryKeyView,
)
    requires
        is_about(change, a_table, a_key),
        is_about(change, b_table, b_key),
    ensures
        a_table == b_table,
        a_key == b_key,
{
    match (change.primary_key, a_key, b_key) {
        (
            Some(PrimaryKey::CompositePk(composite)),
            PrimaryKeyView::Composite(a),
            PrimaryKeyView::Composite(b),
        ) => {
            assert forall|name: Seq<char>| a.contains_key(name) == b.contains_key(name) && (
            a.contains_key(name) ==> a[name] == b[name]) by {
                assert(composite.keys@.contains_key(name) <==> a.contains_key(name));
                assert(composite.keys@.contains_key(name) <==> b.contains_key(name));
            }
            assert(a =~= b);
        },
        _ => {},
    }
}

proof fn lemma_is_about(change: TableChange, table: Seq<char>, key: PrimaryKeyView)
    requires
        change.primary_key is Some,
        change.table@ == table,
        change.primary_key->0@ == key,
    ensures
        is_about(change, table, key),
{
    match (change.primary_key, key) {
        (Some(PrimaryKey::CompositePk(composite)), PrimaryKeyView::Composite(columns)) => {
            assert(columns == crate::map::texts(composite.keys@));
        },
        _ => {},
    }
}

proof fn lemma_fields(fields: Seq<Field>, columns: Map<Seq<char>, Seq<char>>)
    requires
        list_columns(fields, columns),
    ensures
        columns.dom().finite(),
        fields.len() == columns.dom().len(),
        forall|name: Seq<char>| #[trigger]
            columns.contains_key(name) ==> has_field(fields, name, columns[name]),
{
    let names = fields.map_values(|field: Field| field.name@);
    assert(names.no_duplicates()) by {
        assert forall|i: int, j: int|
            0 <= i < names.len() && 0 <= j < names.len() && i != j implies names[i] != names[j] by {
            if i < j {
                assert(fields[i].name@ != fields[j].name@);
            } else {
                assert(fields[j].name@ != fields[i].name@);
            }
        }
    }
    assert(names.to_set() =~= columns.dom()) by {
        assert forall|name: Seq<char>| columns.dom().contains(name) <==> #[trigger]
            names.to_set().contains(name) by {
            if columns.contains_key(name) {
                let i = choose|i: int| 0 <= i < fields.len() && (#[trigger] fields[i]).name@ == name;
                assert(names[i] == name);
            }
            if names.contains(name) {
                let i = choose|i: int| 0 <= i < names.len() && names[i] == name;
                assert(fields[i].name@ == name);
            }
        }
    }
    names.unique_seq_to_set();
    assert forall|name: Seq<char>| #[trigger] columns.contains_key(name) implies has_field(
        fields,
        name,
        columns[name],
    ) by {
        let i = choose|i: int| 0 <= i < fields.len() && (#[trigger] fields[i]).name@ == name;
        assert(fields[i].new_value@ == columns[name]);
        assert(fields[i].old_value@ =~= Seq::<char>::empty());
    }
}

/// Each change is about a row of the tables to which something is to happen, and tells what.
pub proof fn law_each_change_tells_of_a_row(
    changes: Seq<TableChange>,
    tables: TablesView,
    i: int,
)
    requires
        report(changes, tables, tables.changed_rows()),
        0 <= i < changes.len(),
    ensures
        exists|table: Seq<char>, key: PrimaryKeyView| #[trigger]
            is_about(changes[i], table, key) && tables.has_row(table, key) && tables.row(
                table,
                key,
            ).operation != Operation::Unspecified && tells(changes[i], tables.row(table, key)),
{
    let place = place_of(changes[i]);
    let row = tables.row(place.0, place.1);
    assert(describes(changes[i], place, row));
    lemma_is_about(changes[i], place.0, place.1);
    lemma_fields(changes[i].fields@, row.columns);
    assert(tables.changed_rows().contains(place));
    assert(tells(changes[i], row));
}

/// Each row to which something is to happen, whatever its key, is the subject of one change, which
/// tells what; a row to which nothing is to happen, or which is not there, is the subject of none.
pub proof fn law_each_row_is_told_of(
    changes: Seq<TableChange>,
    tables: TablesView,
    table: Seq<char>,
    key: PrimaryKeyView,
)
    requires
        report(changes, tables, tables.changed_rows()),
    ensures
        tables.has_row(table, key) && tables.row(table, key).operation != Operation::Unspecified
            ==> exists|i: int|
            0 <= i < changes.len() && #[trigger] is_about(changes[i], table, key) && tells(
                changes[i],
                tables.row(table, key),
            ),
        !tables.has_row(table, key) || tables.row(table, key).operation == Operation::Unspecified
            ==> forall|i: int|
            0 <= i < changes.len() ==> !#[trigger] is_about(changes[i], table, key),
        forall|i: int, j: int|
            0 <= i < changes.len() && 0 <= j < changes.len() && #[trigger] is_about(
                changes[i],
                table,
                key,
            ) && #[trigger] is_about(changes[j], table, key) ==> i == j,
{
    let place = (table, key);
    let row = tables.row(table, key);
    if tables.has_row(table, key) && row.operation != Operation::Unspecified {
        assert(tables.changed_rows().contains(place));
        let i = choose|i: int| 0 <= i < changes.len() && place_of(#[trigger] changes[i]) == place;
        assert(describes(changes[i], place, row));
        lemma_is_about(changes[i], table, key);
        lemma_fields(changes[i].fields@, row.columns);
        assert(tells(changes[i], row));
    }
    assert forall|i: int|
        0 <= i < changes.len() && #[trigger] is_about(changes[i], table, key) implies place_of(
        changes[i],
    ) == place && tables.changed_rows().contains(place) by {
        let p = place_of(changes[i]);
        assert(describes(changes[i], p, tables.row(p.0, p.1)));
        lemma_is_about(changes[i], p.0, p.1);
        law_change_is_about_one_row(changes[i], p.0, p.1, table, key);
    }
}

/// The changes stand in the order of their ordinals.
pub proof fn law_changes_stand_in_order(
    changes: Seq<TableChange>,
    tables: TablesView,
    i: int,
    j: int,
)
    requires
        report(changes, tables, tables.changed_rows()),
        0 <= i < j < changes.len(),
    ensures
        changes[i].ordinal <= changes[j].ordinal,
{
}

/// What tables give themselves up for tells of each row to which something is to happen, once, and
/// of no other, in the order of the ordinals.
pub proof fn law_tables_tell_of_their_rows(
    tables: Tables,
    changes: DatabaseChanges,
    table: Seq<char>,
    key: PrimaryKeyView,
)
    requires
        call_ensures(Tables::to_database_changes, (tables,), changes),
    ensures
        tables@.has_row(table, key) && tables@.row(table, key).operation != Operation::Unspecified
            <==> exists|i: int|
            0 <= i < changes.table_changes@.len() && #[trigger] is_about(
                changes.table_changes@[i],
                table,
                key,
            ),
        forall|i: int|
            0 <= i < changes.table_changes@.len() && #[trigger] is_about(
                changes.table_changes@[i],
                table,
                key,
            ) ==> tells(changes.table_changes@[i], tables@.row(table, key)),
        forall|i: int, j: int|
            0 <= i < j < changes.table_changes@.len() ==> (
            #[trigger] changes.table_changes@[i]).ordinal <= (
            #[trigger] changes.table_changes@[j]).ordinal,
{
    let all = changes.table_changes@;
    assert(report(all, tables@, tables@.changed_rows()));
    law_each_row_is_told_of(all, tables@, table, key);
    assert forall|i: int, j: int| 0 <= i < j < all.len() implies (#[trigger] all[i]).ordinal <= (
    #[trigger] all[j]).ordinal by {
        law_changes_stand_in_order(all, tables@, i, j);
    }
}

/// A row is reported exactly when it is there and has an operation.
pub proof fn law_rows_with_an_operation_are_changed(
    tables: TablesView,
    table: Seq<char>,
    key: PrimaryKeyView,
)
    ensures
        tables.changed_rows().contains((table, key)) <==> tables.has_row(table, key) && tables.row(
            table,
            key,
        ).operation != Operation::Unspecified,
        tables.all_rows().contains((table, key)) <==> tables.has_row(table, key),
{
}

/// A row that is created, upserted or updated is reported, whatever its key and its columns.
pub proof fn law_calls_are_reported(tables: TablesView, table: Seq<char>, key: PrimaryKeyView)
    ensures
        can_create(tables.row(table, key).operation) ==> tables.with_row(
            table,
            key,
            tables.row(table, key).created(),
        ).changed_rows().contains((table, key)),
        can_upsert(tables.row(table, key).operation) ==> tables.with_row(
            table,
            key,
            tables.row(table, key).upserted(),
        ).changed_rows().contains((table, key)),
        can_update(tables.row(table, key).operation) ==> tables.with_row(
            table,
            key,
            tables.row(table, key).updated(),
        ).changed_rows().contains((table, key)),
{
}

/// A row is reported as the caller left it: a call for a row is followed by a change about that row
/// which tells the operation, the ordinal and all columns that it then has.
pub proof fn law_row_is_reported_as_it_was_left(
    tables: TablesView,
    table: Seq<char>,
    key: PrimaryKeyView,
    row: RowView,
    changes: Seq<TableChange>,
)
    requires
        row.operation != Operation::Unspecified,
        report(
            changes,
            tables.with_row(table, key, row),
            tables.with_row(table, key, row).changed_rows(),
        ),
    ensures
        exists|i: int|
            0 <= i < changes.len() && #[trigger] is_about(changes[i], table, key) && tells(
                changes[i],
                row,
            ),
{
    let after = tables.with_row(table, key, row);
    assert(after.has_row(table, key) && after.row(table, key) == row);
    law_each_row_is_told_of(changes, after, table, key);
}

} // verus!
