//! Changes to the rows of database tables.
use vstd::prelude::*;
use crate::key::PrimaryKeyView;
use crate::map::{texts, EntryMap};

pub mod table_change;

use crate::pb::database::table_change::{Operation, PrimaryKey};

verus! {

/// Changes, in the order in which they are to be applied.
#[derive(Debug, Clone, PartialEq)]
pub struct DatabaseChanges {
    pub table_changes: Vec<TableChange>,
}

impl Default for DatabaseChanges {
    fn default() -> (changes: Self)
        ensures
            changes.table_changes@ == Seq::<TableChange>::empty(),
    {
        DatabaseChanges { table_changes: Vec::new() }
    }
}

/// A change to one row of one table.
#[derive(Debug, Clone, PartialEq)]
pub struct TableChange {
    pub table: String,
    pub ordinal: u64,
    /// The number of the [`Operation`].
    pub operation: i32,
    pub fields: Vec<Field>,
    pub primary_key: Option<PrimaryKey>,
}

/// A column of the row and its value.
#[derive(Debug, Clone, PartialEq)]
pub struct Field {
    pub name: String,
    pub new_value: String,
    pub old_value: String,
}

/// A key made of several columns.
#[derive(Debug, Clone, PartialEq)]
pub struct CompositePrimaryKey {
    pub keys: EntryMap<String, String>,
}

impl TableChange {
    /// The change is about this row: its table, its key, its place in the order and what happens
    /// to it.
    pub open spec fn concerns(
        self,
        table: Seq<char>,
        key: PrimaryKeyView,
        ordinal: u64,
        operation: Operation,
    ) -> bool {
        &&& self.table@ == table
        &&& self.primary_key is Some
        &&& self.primary_key->0@ == key
        &&& self.ordinal == ordinal
        &&& self.operation == operation.number()
    }

    /// A change, without fields, to the row with a key of one column.
    pub fn new(table: String, pk: String, ordinal: u64, operation: Operation) -> (change: Self)
        ensures
            change.concerns(table@, PrimaryKeyView::Single(pk@), ordinal, operation),
            change.primary_key == Some(PrimaryKey::Pk(pk)),
            change.fields@ == Seq::<Field>::empty(),
    {
        TableChange {
            table,
            ordinal,
            operation: operation.number(),
            fields: Vec::new(),
            primary_key: Some(PrimaryKey::Pk(pk)),
        }
    }

    /// A change, without fields, to the row with a key of several columns.
    pub fn new_composite(
        table: String,
        keys: EntryMap<String, String>,
        ordinal: u64,
        operation: Operation,
    ) -> (change: Self)
        ensures
            change.concerns(
                table@,
                PrimaryKeyView::Composite(texts(keys@)),
                ordinal,
                operation,
            ),
            change.primary_key == Some(PrimaryKey::CompositePk((CompositePrimaryKey { keys }))),
            change.fields@ == Seq::<Field>::empty(),
    {
        TableChange {
            table,
            ordinal,
            operation: operation.number(),
            fields: Vec::new(),
            primary_key: Some(PrimaryKey::CompositePk(CompositePrimaryKey { keys })),
        }
    }
}

} // verus!
