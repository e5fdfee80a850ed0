//! What rows and tables stand for, and what each operation makes of them.
use vstd::prelude::*;
use crate::key::PrimaryKeyView;
use crate::pb::database::table_change::Operation;
use crate::pb::database::{Field, TableChange};

verus! {

/// What a [`Row`](crate::tables::Row) stands for.
#[verifier::ext_equal]
pub struct RowView {
    pub operation: Operation,
    pub columns: Map<Seq<char>, Seq<char>>,
    pub finalized: bool,
    pub ordinal: u64,
}

impl RowView {
    /// A row to which nothing is to happen yet.
    pub open spec fn fresh(ordinal: u64) -> RowView {
        RowView {
            operation: Operation::Unspecified,
            columns: Map::empty(),
            finalized: false,
            ordinal,
        }
    }

    /// The same row, with another operation.
    pub open spec fn with_operation(self, operation: Operation) -> RowView {
        RowView { operation, ..self }
    }

    /// The same row, with this value in this column.
    pub open spec fn with_column(self, name: Seq<char>, value: Seq<char>) -> RowView {
        RowView { columns: self.columns.insert(name, value), ..self }
    }

    /// The same row, without columns.
    pub open spec fn without_columns(self) -> RowView {
        RowView { columns: Map::empty(), ..self }
    }

    /// The row once it is created.
    pub open spec fn created(self) -> RowView {
        self.with_operation(Operation::Create)
    }

    /// The row once it is upserted.
    pub open spec fn upserted(self) -> RowView {
        self.with_operation(Operation::Upsert)
    }

    /// The row once it is updated: a row that is created or upserted stays so, and the update is
    /// a part of that.
    pub open spec fn updated(self) -> RowView {
        if self.operation == Operation::Unspecified {
            self.with_operation(Operation::Update)
        } else {
            self
        }
    }

    /// The row once it is deleted: one that was only just created needs no deletion.
    pub open spec fn deleted(self) -> RowView {
        self.without_columns().with_operation(
            if self.operation == Operation::Create {
                Operation::Unspecified
            } else {
                Operation::Delete
            },
        )
    }
}

/// A row can be created where it has no other operation.
pub open spec fn can_create(operation: Operation) -> bool {
    operation == Operation::Unspecified || operation == Operation::Create
}

/// Tells whether a row with this operation can be created.
pub fn may_create(operation: Operation) -> (may: bool)
    ensures
        may == can_create(operation),
{
    match operation {
        Operation::Unspecified | Operation::Create => true,
        Operation::Upsert | Operation::Update | Operation::Delete => false,
    }
}

/// A row can be upserted where it has no other operation.
pub open spec fn can_upsert(operation: Operation) -> bool {
    operation == Operation::Unspecified || operation == Operation::Upsert
}

/// Tells whether a row with this operation can be upserted.
pub fn may_upsert(operation: Operation) -> (may: bool)
    ensures
        may == can_upsert(operation),
{
    match operation {
        Operation::Unspecified | Operation::Upsert => true,
        Operation::Create | Operation::Update | Operation::Delete => false,
    }
}

/// A row can be updated unless it is deleted.
pub open spec fn can_update(operation: Operation) -> bool {
    operation != Operation::Delete
}

/// Tells whether a row with this operation can be updated.
pub fn may_update(operation: Operation) -> (may: bool)
    ensures
        may == can_update(operation),
{
    match operation {
        Operation::Delete => false,
        _ => true,
    }
}

/// What [`Rows`](crate::tables::Rows) stand for.
pub type RowsView = Map<PrimaryKeyView, RowView>;

/// The place of a row: its table and its key.
pub type RowPlace = (Seq<char>, PrimaryKeyView);

/// What [`Tables`](crate::tables::Tables) stand for.
#[verifier::ext_equal]
pub struct TablesView {
    /// The rows of each table, by the table's name.
    pub tables: Map<Seq<char>, RowsView>,
    /// The ordinal that the next new row gets.
    pub ordinal: u64,
}

impl TablesView {
    /// Tables without rows.
    pub open spec fn empty() -> TablesView {
        TablesView { tables: Map::empty(), ordinal: 0 }
    }

    /// The rows of a table, none where there is no such table.
    pub open spec fn rows_of(self, table: Seq<char>) -> RowsView {
        if self.tables.contains_key(table) {
            self.tables[table]
        } else {
            Map::empty()
        }
    }

    /// There is such a row.
    pub open spec fn has_row(self, table: Seq<char>, key: PrimaryKeyView) -> bool {
        self.rows_of(table).contains_key(key)
    }

    /// The row at a place, or the new one that would be put there.
    pub open spec fn row(self, table: Seq<char>, key: PrimaryKeyView) -> RowView {
        if self.has_row(table, key) {
            self.rows_of(table)[key]
        } else {
            RowView::fresh(self.ordinal)
        }
    }

    /// The tables once `row` stands at its place. Whether it is new or not, an ordinal is used up.
    pub open spec fn with_row(
        self,
        table: Seq<char>,
        key: PrimaryKeyView,
        row: RowView,
    ) -> TablesView {
        TablesView {
            tables: self.tables.insert(table, self.rows_of(table).insert(key, row)),
            ordinal: (self.ordinal + 1) as u64,
        }
    }

    /// The places of all rows.
    pub open spec fn all_rows(self) -> Set<RowPlace> {
        Set::new(|place: RowPlace| self.has_row(place.0, place.1))
    }

    /// The places of the rows to which something is to happen.
    pub open spec fn changed_rows(self) -> Set<RowPlace> {
        Set::new(
            |place: RowPlace|
                self.has_row(place.0, place.1) && self.row(place.0, place.1).operation
                    != Operation::Unspecified,
        )
    }

    /// No two rows have the same ordinal, and none has one that is yet to be given out.
    pub open spec fn ordered(self) -> bool {
        &&& forall|place: RowPlace| #[trigger]
            self.all_rows().contains(place) ==> self.row(place.0, place.1).ordinal < self.ordinal
        &&& forall|a: RowPlace, b: RowPlace| #[trigger]
            self.all_rows().contains(a) && #[trigger] self.all_rows().contains(b) && a != b
                ==> self.row(a.0, a.1).ordinal != self.row(b.0, b.1).ordinal
    }
}

/// Fields list columns: each column once, with its value and no old value.
pub open spec fn list_columns(fields: Seq<Field>, columns: Map<Seq<char>, Seq<char>>) -> bool {
    &&& forall|i: int|
        0 <= i < fields.len() ==> {
            &&& columns.contains_key((#[trigger] fields[i]).name@)
            &&& fields[i].new_value@ == columns[fields[i].name@]
            &&& fields[i].old_value@.len() == 0
        }
    &&& forall|name: Seq<char>| #[trigger]
        columns.contains_key(name) ==> exists|i: int|
            0 <= i < fields.len() && (#[trigger] fields[i]).name@ == name
    &&& forall|i: int, j: int|
        0 <= i < j < fields.len() ==> (#[trigger] fields[i]).name@ != (#[trigger] fields[j]).name@
}

/// The place of the row that a change is about.
pub open spec fn place_of(change: TableChange) -> RowPlace {
    (change.table@, change.primary_key->0@)
}

/// A change says what is to happen to a row at a place; it names no column twice, neither of the
/// key nor of the row.
pub open spec fn describes(change: TableChange, place: RowPlace, row: RowView) -> bool {
    &&& change.concerns(place.0, place.1, row.ordinal, row.operation)
    &&& change.primary_key->0.wf()
    &&& list_columns(change.fields@, row.columns)
}

/// Changes stand in the order of their ordinals.
pub open spec fn by_ordinal(changes: Seq<TableChange>) -> bool {
    forall|i: int, j: int|
        0 <= i < j < changes.len() ==> (#[trigger] changes[i]).ordinal <= (
        #[trigger] changes[j]).ordinal
}

/// Changes say what is to happen to the rows at these places, and to no others: each is the
/// subject of one change, and the changes stand in the order of their ordinals.
pub open spec fn report(
    changes: Seq<TableChange>,
    tables: TablesView,
    places: Set<RowPlace>,
) -> bool {
    &&& forall|i: int|
        0 <= i < changes.len() ==> {
            let place = place_of(#[trigger] changes[i]);
            places.contains(place) && describes(changes[i], place, tables.row(place.0, place.1))
        }
    &&& forall|place: RowPlace| #[trigger]
        places.contains(place) ==> exists|i: int|
            0 <= i < changes.len() && place_of(#[trigger] changes[i]) == place
    &&& forall|i: int, j: int|
        0 <= i < j < changes.len() ==> place_of(#[trigger] changes[i]) != place_of(
            #[trigger] changes[j],
        )
    &&& by_ordinal(changes)
}

} // verus!
