//! Tables that collect what is to happen to their rows.
use vstd::prelude::*;
use vstd::set_lib::{lemma_len_subset, lemma_map_size, lemma_set_disjoint_lens};
use vstd::string::StringExecFns;
use crate::map::{distinct_keys, lemma_entries, lemma_entry_count, texts, EntryMap};
use crate::model::{
    by_ordinal, can_create, can_update, can_upsert, describes, list_columns, may_create, may_update,
    may_upsert, place_of, report, RowPlace, RowView, RowsView, TablesView,
};
use crate::outside::debug_entry;
use crate::pb::database::table_change::Operation;
use crate::pb::database::{DatabaseChanges, Field, TableChange};
use crate::text::{clickhouse_array, join_with_commas, psql_array};
use crate::value::{all_texts_fit, database_texts, to_values};

pub use crate::key::{converts_to, PrimaryKey, PrimaryKeyView};
pub use crate::value::ToDatabaseValue;

verus! {

/// The tables of a database, by their names, with what is to happen to their rows.
#[derive(Debug)]
pub struct Tables {
    /// The rows of each table, by the table's name.
    pub tables: EntryMap<String, Rows>,
    // Each call for a row uses one ordinal up, so that the changes can be put into the order in
    // which their rows were first called for.
    ordinal: Ordinal,
}

impl View for Tables {
    type V = TablesView;

    closed spec fn view(&self) -> TablesView {
        TablesView {
            tables: self.tables@.map_values(|rows: Rows| rows@),
            ordinal: self.ordinal@,
        }
    }
}

impl Tables {
    /// No table occurs twice, no key occurs twice in a table, and no column in a key or in a row.
    pub closed spec fn wf(self) -> bool {
        &&& self.tables.wf()
        &&& forall|table: Seq<char>| #[trigger]
            self.tables@.contains_key(table) ==> self.tables@[table].wf()
    }

    /// No tables.
    pub fn new() -> (tables: Self)
        ensures
            tables@ == TablesView::empty(),
            tables.wf(),
    {
        let tables = Tables { tables: EntryMap::new(), ordinal: Ordinal::new() };
        assert(tables@.tables =~= Map::<Seq<char>, RowsView>::empty());
        tables
    }

    /// The number of rows in all tables.
    pub fn all_row_count(&self) -> (count: usize)
        requires
            self.wf(),
            self@.all_rows().len() <= usize::MAX,
        ensures
            self@.all_rows().finite(),
            count == self@.all_rows().len(),
    {
        let ghost entries = self.tables.entries();
        proof {
            lemma_entries(entries);
            lemma_rows_in(entries, 0);
            lemma_rows_in(entries, entries.len() as int);
            self.lemma_all_rows();
        }
        let mut count: usize = 0;
        let mut i: usize = 0;
        while i < self.tables.len()
            invariant
                self.wf(),
                entries == self.tables.entries(),
                i <= entries.len(),
                count == rows_in(entries, i as int).len(),
                rows_in(entries, entries.len() as int).finite(),
                rows_in(entries, entries.len() as int).len() <= usize::MAX,
            decreases entries.len() - i,
        {
            proof {
                lemma_entries(entries);
                lemma_rows_in(entries, i as int);
                lemma_rows_in(entries, i + 1);
                lemma_len_subset(
                    rows_in(entries, i + 1),
                    rows_in(entries, entries.len() as int),
                );
            }
            count += self.tables.entry_at(i).1.pks.len();
            i += 1;
        }
        count
    }

    /// The rows of tables are finitely many.
    pub proof fn law_rows_are_finite(self)
        requires
            self.wf(),
        ensures
            self@.all_rows().finite(),
    {
        let entries = self.tables.entries();
        lemma_entries(entries);
        assert forall|i: int| 0 <= i < entries.len() implies (#[trigger] entries[i]).1.wf() by {
            assert(self.tables@.contains_key(entries[i].0@));
        }
        lemma_rows_in(entries, entries.len() as int);
        self.lemma_all_rows();
    }

    /// Tables stand for the rows that they hold under each name, and for the place that their counter
    /// stands at.
    proof fn law_what_tables_stand_for(self, table: Seq<char>, key: PrimaryKeyView)
        ensures
            self@.ordinal == self.ordinal@,
            self@.has_row(table, key) <==> self.tables@.contains_key(table)
                && self.tables@[table].pks@.contains_key(key),
            self@.has_row(table, key) ==> self@.row(table, key) == self.tables@[table].pks@[key]@,
    {
    }

    /// The rows of the tables are those of the entries.
    proof fn lemma_all_rows(self)
        requires
            self.wf(),
        ensures
            self@.all_rows() == rows_in(self.tables.entries(), self.tables.entries().len() as int),
    {
        let entries = self.tables.entries();
        lemma_entries(entries);
        assert(self@.all_rows() =~= rows_in(entries, entries.len() as int));
    }

    /// The row with this key in this table, where there is one.
    pub fn find_row(&self, table: &str, key: &PrimaryKey) -> (found: Option<&Row>)
        ensures
            found is Some == self@.has_row(table@, key@),
            found matches Some(row) ==> row@ == self@.row(table@, key@) && (self.wf() ==> row.wf()),
    {
        match self.tables.get(&table.to_string()) {
            Some(rows) => {
                assert(self@.rows_of(table@) == rows@);
                rows.pks.get(key)
            },
            None => None,
        }
    }

    /// The operation of the row with this key in this table, none where there is no such row.
    pub fn operation_of(&self, table: &str, key: &PrimaryKey) -> (operation: Operation)
        ensures
            operation == self@.row(table@, key@).operation,
    {
        match self.find_row(table, key) {
            Some(row) => row.operation,
            None => Operation::Unspecified,
        }
    }

    /// The ordinal that the next new row gets.
    pub fn next_ordinal(&self) -> (ordinal: u64)
        ensures
            ordinal == self@.ordinal,
    {
        self.ordinal.0
    }

    // The row at a place, after putting a new one there where there is none.
    fn row_at(&mut self, table: &str, key: PrimaryKey) -> (row: &mut Row)
        requires
            old(self)@.ordinal < u64::MAX,
        ensures
            (*row)@ == old(self)@.row(table@, key@),
            old(self).wf() ==> row.wf(),
            final(self)@ == old(self)@.with_row(table@, key@, (*final(row))@),
            old(self).wf() && key.wf() && final(row).wf() ==> final(self).wf(),
    {
        let ghost before = *self;
        let ghost k = key@;
        let rows = self.tables.get_or_insert(table.to_string(), Rows::new());
        let ghost rows_before = *rows;
        let ordinal: u64 = self.ordinal.next();
        let row = rows.pks.get_or_insert(key, Row::new_ordered(ordinal));
        proof {
            let rows_after = after_borrow(self).tables@[table@];
            assert(rows_before@ =~= before@.rows_of(table@));
            assert(rows_after@ =~= rows_before@.insert(k, (*final(row))@));
            assert(after_borrow(self)@.tables =~= before@.tables.insert(table@, rows_after@));
        }
        row
    }

    /// Creates the row with this key in this table, and returns it for its columns to be set.
    ///
    /// A row that is to be upserted, updated or deleted cannot be created.
    pub fn create_row<K: Into<PrimaryKey>>(&mut self, table: &str, key: K) -> (row: &mut Row)
        requires
            old(self)@.ordinal < u64::MAX,
            forall|k: PrimaryKey| #[trigger]
                converts_to(key, k) ==> can_create(old(self)@.row(table@, k@).operation),
        ensures
            exists|k: PrimaryKey| #[trigger]
                converts_to(key, k) && (*row)@ == old(self)@.row(table@, k@).created()
                    && final(self)@ == old(self)@.with_row(table@, k@, (*final(row))@)
                    && (old(self).wf() && k.wf() && final(row).wf() ==> final(self).wf()),
            old(self).wf() ==> row.wf(),
    {
        let k: PrimaryKey = key.into();
        assert(converts_to(key, k));
        let row = self.row_at(table, k);
        match row.operation {
            Operation::Unspecified => {
                row.operation = Operation::Create;
            },
            // Already the right operation.
            _ => {},
        }
        row
    }

    /// [`Tables::create_row`] where the row can be created; where it cannot, nothing changes and the
    /// refusal says why.
    pub fn try_create_row<K: Into<PrimaryKey>>(&mut self, table: &str, key: K) -> (result: Result<
        &mut Row,
        Refusal,
    >)
        requires
            old(self)@.ordinal < u64::MAX,
        ensures
            exists|k: PrimaryKey| #[trigger]
                converts_to(key, k) && match result {
                    Ok(row) => {
                        &&& can_create(old(self)@.row(table@, k@).operation)
                        &&& (*row)@ == old(self)@.row(table@, k@).created()
                        &&& final(self)@ == old(self)@.with_row(table@, k@, (*final(row))@)
                        &&& old(self).wf() ==> row.wf()
                        &&& old(self).wf() && k.wf() && final(row).wf() ==> final(self).wf()
                    },
                    Err(refusal) => {
                        &&& !can_create(old(self)@.row(table@, k@).operation)
                        &&& refusal.operation == old(self)@.row(table@, k@).operation
                        &&& refusal.key == k
                        &&& *final(self) == *old(self)
                    },
                },
    {
        let k: PrimaryKey = key.into();
        assert(converts_to(key, k));
        let operation = self.operation_of(table, &k);
        if may_create(operation) {
            Ok(self.create_row(table, k))
        } else {
            Err(Refusal { operation, key: k })
        }
    }

    /// Upserts (inserts or updates) the row with this key in this table, and returns it for its
    /// columns to be set.
    ///
    /// A row that is to be created, updated or deleted cannot be upserted. Not every sink knows
    /// the operation.
    pub fn upsert_row<K: Into<PrimaryKey>>(&mut self, table: &str, key: K) -> (row: &mut Row)
        requires
            old(self)@.ordinal < u64::MAX,
            forall|k: PrimaryKey| #[trigger]
                converts_to(key, k) ==> can_upsert(old(self)@.row(table@, k@).operation),
        ensures
            exists|k: PrimaryKey| #[trigger]
                converts_to(key, k) && (*row)@ == old(self)@.row(table@, k@).upserted()
                    && final(self)@ == old(self)@.with_row(table@, k@, (*final(row))@)
                    && (old(self).wf() && k.wf() && final(row).wf() ==> final(self).wf()),
            old(self).wf() ==> row.wf(),
    {
        let k: PrimaryKey = key.into();
        assert(converts_to(key, k));
        let row = self.row_at(table, k);
        match row.operation {
            Operation::Unspecified => {
                row.operation = Operation::Upsert;
            },
            // Already the right operation.
            _ => {},
        }
        row
    }

    /// [`Tables::upsert_row`] where the row can be upserted; where it cannot, nothing changes and the
    /// refusal says why.
    pub fn try_upsert_row<K: Into<PrimaryKey>>(&mut self, table: &str, key: K) -> (result: Result<
        &mut Row,
        Refusal,
    >)
        requires
            old(self)@.ordinal < u64::MAX,
        ensures
            exists|k: PrimaryKey| #[trigger]
                converts_to(key, k) && match result {
                    Ok(row) => {
                        &&& can_upsert(old(self)@.row(table@, k@).operation)
                        &&& (*row)@ == old(self)@.row(table@, k@).upserted()
                        &&& final(self)@ == old(self)@.with_row(table@, k@, (*final(row))@)
                        &&& old(self).wf() ==> row.wf()
                        &&& old(self).wf() && k.wf() && final(row).wf() ==> final(self).wf()
                    },
                    Err(refusal) => {
                        &&& !can_upsert(old(self)@.row(table@, k@).operation)
                        &&& refusal.operation == old(self)@.row(table@, k@).operation
                        &&& refusal.key == k
                        &&& *final(self) == *old(self)
                    },
                },
    {
        let k: PrimaryKey = key.into();
        assert(converts_to(key, k));
        let operation = self.operation_of(table, &k);
        if may_upsert(operation) {
            Ok(self.upsert_row(table, k))
        } else {
            Err(Refusal { operation, key: k })
        }
    }

    /// Updates the row with this key in this table, and returns it for its columns to be set.
    ///
    /// A row that is to be deleted cannot be updated.
    pub fn update_row<K: Into<PrimaryKey>>(&mut self, table: &str, key: K) -> (row: &mut Row)
        requires
            old(self)@.ordinal < u64::MAX,
            forall|k: PrimaryKey| #[trigger]
                converts_to(key, k) ==> can_update(old(self)@.row(table@, k@).operation),
        ensures
            exists|k: PrimaryKey| #[trigger]
                converts_to(key, k) && (*row)@ == old(self)@.row(table@, k@).updated()
                    && final(self)@ == old(self)@.with_row(table@, k@, (*final(row))@)
                    && (old(self).wf() && k.wf() && final(row).wf() ==> final(self).wf()),
            old(self).wf() ==> row.wf(),
    {
        let k: PrimaryKey = key.into();
        assert(converts_to(key, k));
        let row = self.row_at(table, k);
        match row.operation {
            Operation::Unspecified => {
                row.operation = Operation::Update;
            },
            // The updated columns are a part of the operation that the row has.
            _ => {},
        }
        row
    }

    /// [`Tables::update_row`] where the row can be updated; where it cannot, nothing changes and the
    /// refusal says why.
    pub fn try_update_row<K: Into<PrimaryKey>>(&mut self, table: &str, key: K) -> (result: Result<
        &mut Row,
        Refusal,
    >)
        requires
            old(self)@.ordinal < u64::MAX,
        ensures
            exists|k: PrimaryKey| #[trigger]
                converts_to(key, k) && match result {
                    Ok(row) => {
                        &&& can_update(old(self)@.row(table@, k@).operation)
                        &&& (*row)@ == old(self)@.row(table@, k@).updated()
                        &&& final(self)@ == old(self)@.with_row(table@, k@, (*final(row))@)
                        &&& old(self).wf() ==> row.wf()
                        &&& old(self).wf() && k.wf() && final(row).wf() ==> final(self).wf()
                    },
                    Err(refusal) => {
                        &&& !can_update(old(self)@.row(table@, k@).operation)
                        &&& refusal.operation == old(self)@.row(table@, k@).operation
                        &&& refusal.key == k
                        &&& *final(self) == *old(self)
                    },
                },
    {
        let k: PrimaryKey = key.into();
        assert(converts_to(key, k));
        let operation = self.operation_of(table, &k);
        if may_update(operation) {
            Ok(self.update_row(table, k))
        } else {
            Err(Refusal { operation, key: k })
        }
    }

    /// Deletes the row with this key in this table, and forgets its columns.
    pub fn delete_row<K: Into<PrimaryKey>>(&mut self, table: &str, key: K) -> (row: &mut Row)
        requires
            old(self)@.ordinal < u64::MAX,
        ensures
            exists|k: PrimaryKey| #[trigger]
                converts_to(key, k) && (*row)@ == old(self)@.row(table@, k@).deleted()
                    && final(self)@ == old(self)@.with_row(table@, k@, (*final(row))@)
                    && (old(self).wf() && k.wf() && final(row).wf() ==> final(self).wf()),
            old(self).wf() ==> row.wf(),
    {
        let k: PrimaryKey = key.into();
        assert(converts_to(key, k));
        let row = self.row_at(table, k);
        row.columns = EntryMap::new();
        row.operation = match row.operation {
            // The row does not exist outside of these tables: there is nothing to delete.
            Operation::Create => Operation::Unspecified,
            // Whether an upserted row exists outside of these tables cannot be known.
            _ => Operation::Delete,
        };
        assert((*row)@.columns =~= Map::<Seq<char>, Seq<char>>::empty());
        row
    }

    /// Gives up the tables for the changes to their rows, in the order of the rows' ordinals.
    ///
    /// A row to which nothing is to happen is left out.
    pub fn to_database_changes(self) -> (changes: DatabaseChanges)
        requires
            self.wf(),
        ensures
            report(changes.table_changes@, self@, self@.changed_rows()),
    {
        let ghost tables = self@;
        let ghost entries = self.tables.entries();
        proof {
            lemma_entries(entries);
        }
        let mut changes = DatabaseChanges::default();
        assert(changed_in(tables, entries, 0) =~= Set::<RowPlace>::empty());
        for entry in iter: self.tables.into_entries()
            invariant
                iter.seq() == entries,
                distinct_keys(entries),
                forall|i: int|
                    0 <= i < entries.len() ==> (#[trigger] entries[i]).1.wf() && tables.rows_of(
                        entries[i].0@,
                    ) == entries[i].1@,
                report(
                    changes.table_changes@,
                    tables,
                    changed_in(tables, entries, iter.index() as int),
                ),
        {
            let ghost n = iter.index() as int;
            let ghost places = changed_in(tables, entries, n);
            let (table, rows) = entry;
            report_rows(
                &mut changes.table_changes,
                &table,
                rows,
                Ghost(tables),
                Ghost(places),
            );
            assert(changed_in(tables, entries, n + 1) =~= places + changed_of(tables, table@));
        }
        assert(changed_in(tables, entries, entries.len() as int) =~= tables.changed_rows());
        changes
    }
}

/// The changed rows of one table.
spec fn changed_of(tables: TablesView, table: Seq<char>) -> Set<RowPlace> {
    Set::new(|place: RowPlace| place.0 == table && tables.changed_rows().contains(place))
}

/// The changed rows of the first `n` tables.
spec fn changed_in(tables: TablesView, entries: Seq<(String, Rows)>, n: int) -> Set<RowPlace> {
    Set::new(
        |place: RowPlace|
            tables.changed_rows().contains(place) && exists|i: int|
                0 <= i < n && (#[trigger] entries[i]).0@ == place.0,
    )
}

/// The changed ones among the first `n` rows of one table.
spec fn changed_up_to(
    tables: TablesView,
    table: Seq<char>,
    entries: Seq<(PrimaryKey, Row)>,
    n: int,
) -> Set<RowPlace> {
    Set::new(
        |place: RowPlace|
            changed_of(tables, table).contains(place) && exists|i: int|
                0 <= i < n && (#[trigger] entries[i]).0@ == place.1,
    )
}

/// Putting in one more change, at its place in the order, reports one more row.
proof fn lemma_report_one_more(
    changes: Seq<TableChange>,
    tables: TablesView,
    places: Set<RowPlace>,
    index: int,
    change: TableChange,
)
    requires
        report(changes, tables, places),
        0 <= index <= changes.len(),
        !places.contains(place_of(change)),
        describes(change, place_of(change), tables.row(change.table@, change.primary_key->0@)),
        by_ordinal(changes.insert(index, change)),
    ensures
        report(changes.insert(index, change), tables, places.insert(place_of(change))),
{
    let after = changes.insert(index, change);
    assert forall|i: int| 0 <= i < changes.len() implies #[trigger] changes[i] == after[if i
        < index {
        i
    } else {
        i + 1
    }] by {}
    assert forall|place: RowPlace| #[trigger]
        places.insert(place_of(change)).contains(place) implies exists|i: int|
        0 <= i < after.len() && place_of(#[trigger] after[i]) == place by {
        if place == place_of(change) {
            assert(place_of(after[index]) == place);
        } else {
            let i = choose|i: int|
                0 <= i < changes.len() && place_of(#[trigger] changes[i]) == place;
            let j = if i < index {
                i
            } else {
                i + 1
            };
            assert(place_of(after[j]) == place);
        }
    }
    assert forall|i: int, j: int| 0 <= i < j < after.len() implies place_of(#[trigger] after[i])
        != place_of(#[trigger] after[j]) by {
        let i0 = if i < index {
            i
        } else {
            i - 1
        };
        let j0 = if j < index {
            j
        } else {
            j - 1
        };
        if i != index {
            assert(after[i] == changes[i0]);
        }
        if j != index {
            assert(after[j] == changes[j0]);
        }
    }
}

/// Puts a change behind all those with no higher ordinal.
fn insert_by_ordinal(changes: &mut Vec<TableChange>, change: TableChange) -> (index: usize)
    requires
        by_ordinal(old(changes)@),
    ensures
        index <= old(changes)@.len(),
        final(changes)@ == old(changes)@.insert(index as int, change),
        by_ordinal(final(changes)@),
{
    let mut index: usize = changes.len();
    while index > 0 && changes[index - 1].ordinal > change.ordinal
        invariant
            index <= changes@.len(),
            forall|i: int|
                index <= i < changes@.len() ==> (#[trigger] changes@[i]).ordinal > change.ordinal,
        decreases index,
    {
        index -= 1;
    }
    changes.insert(index, change);
    index
}

/// The change that a row asks for.
fn change_to(table: &String, key: PrimaryKey, row: Row) -> (change: TableChange)
    requires
        key.wf(),
        row.wf(),
    ensures
        describes(change, (table@, key@), row@),
{
    let mut change = match key {
        PrimaryKey::Single(pk) => TableChange::new(table.clone(), pk, row.ordinal, row.operation),
        PrimaryKey::Composite(keys) => TableChange::new_composite(
            table.clone(),
            keys,
            row.ordinal,
            row.operation,
        ),
    };
    let ghost columns = row.columns.entries();
    proof {
        lemma_entries(columns);
    }
    let mut fields: Vec<Field> = Vec::new();
    for column in iter: row.columns.into_entries()
        invariant
            iter.seq() == columns,
            fields@.len() == iter.index(),
            forall|i: int|
                0 <= i < fields@.len() ==> {
                    &&& (#[trigger] fields@[i]).name@ == columns[i].0@
                    &&& fields@[i].new_value@ == columns[i].1@
                    &&& fields@[i].old_value@.len() == 0
                },
    {
        let (name, value) = column;
        fields.push(Field { name, new_value: value, old_value: String::new() });
    }
    proof {
        assert forall|name: Seq<char>| #[trigger] row@.columns.contains_key(name) implies exists|
            i: int,
        |
            0 <= i < fields@.len() && (#[trigger] fields@[i]).name@ == name by {
            let i = choose|i: int| 0 <= i < columns.len() && (#[trigger] columns[i]).0@ == name;
            assert(fields@[i].name@ == name);
        }
        assert forall|i: int, j: int| 0 <= i < j < fields@.len() implies (
        #[trigger] fields@[i]).name@ != (#[trigger] fields@[j]).name@ by {
            assert(columns[i].0@ != columns[j].0@);
        }
        assert(list_columns(fields@, row@.columns));
    }
    change.fields = fields;
    change
}

/// Adds the changes that the rows of one table ask for.
fn report_rows(
    changes: &mut Vec<TableChange>,
    table: &String,
    rows: Rows,
    Ghost(tables): Ghost<TablesView>,
    Ghost(places): Ghost<Set<RowPlace>>,
)
    requires
        rows.wf(),
        tables.rows_of(table@) == rows@,
        report(old(changes)@, tables, places),
        forall|place: RowPlace| #[trigger] places.contains(place) ==> place.0 != table@,
    ensures
        report(final(changes)@, tables, places + changed_of(tables, table@)),
{
    let ghost entries = rows.pks.entries();
    proof {
        lemma_entries(entries);
        assert forall|i: int| 0 <= i < entries.len() implies (#[trigger] entries[i]).0.wf() by {
            assert(rows.pks.keys()[i].wf());
        }
    }
    assert(places + changed_up_to(tables, table@, entries, 0) =~= places);
    for entry in iter: rows.pks.into_entries()
        invariant
            iter.seq() == entries,
            distinct_keys(entries),
            forall|place: RowPlace| #[trigger] places.contains(place) ==> place.0 != table@,
            forall|i: int|
                0 <= i < entries.len() ==> {
                    &&& (#[trigger] entries[i]).0.wf()
                    &&& entries[i].1.wf()
                    &&& tables.has_row(table@, entries[i].0@)
                    &&& tables.row(table@, entries[i].0@) == entries[i].1@
                },
            report(
                changes@,
                tables,
                places + changed_up_to(tables, table@, entries, iter.index() as int),
            ),
    {
        let ghost n = iter.index() as int;
        let ghost done = places + changed_up_to(tables, table@, entries, n);
        let ghost now = places + changed_up_to(tables, table@, entries, n + 1);
        let (key, row) = entry;
        let ghost place = (table@, key@);
        if row.operation != Operation::Unspecified {
            let change = change_to(table, key, row);
            let ghost before = changes@;
            assert(!done.contains(place));
            let index: usize = insert_by_ordinal(changes, change);
            proof {
                lemma_report_one_more(before, tables, done, index as int, change);
                assert(now =~= done.insert(place));
            }
        } else {
            assert(now =~= done);
        }
    }
    assert(places + changed_up_to(tables, table@, entries, entries.len() as int) =~= places
        + changed_of(tables, table@));
}

/// The places of the rows in the first `n` tables.
spec fn rows_in(entries: Seq<(String, Rows)>, n: int) -> Set<RowPlace> {
    Set::new(
        |place: RowPlace|
            exists|i: int|
                0 <= i < n && (#[trigger] entries[i]).0@ == place.0 && entries[i].1@.contains_key(
                    place.1,
                ),
    )
}

/// One more table has as many more rows as it has keys.
proof fn lemma_rows_in(entries: Seq<(String, Rows)>, n: int)
    requires
        distinct_keys(entries),
        forall|i: int| 0 <= i < entries.len() ==> (#[trigger] entries[i]).1.wf(),
        0 <= n <= entries.len(),
    ensures
        rows_in(entries, n).finite(),
        n > 0 ==> rows_in(entries, n).len() == rows_in(entries, n - 1).len() + entries[n
            - 1].1.pks.entries().len(),
        n == 0 ==> rows_in(entries, n).len() == 0,
    decreases n,
{
    if n == 0 {
        assert(rows_in(entries, n) =~= Set::<RowPlace>::empty());
    } else {
        lemma_rows_in(entries, n - 1);
        let name = entries[n - 1].0@;
        let rows = entries[n - 1].1;
        let place = |key: PrimaryKeyView| (name, key);
        let keys = rows.pks@.dom();
        lemma_entry_count(rows.pks.entries());
        let added = keys.map(place);
        lemma_map_size(keys, added, place);
        lemma_set_disjoint_lens(rows_in(entries, n - 1), added);
        assert forall|p: RowPlace| rows_in(entries, n).contains(p) <==> (rows_in(entries, n - 1)
            + added).contains(p) by {
            if added.contains(p) {
                assert(entries[n - 1].0@ == p.0);
            }
            if p.0 == name && rows@.contains_key(p.1) {
                assert(keys.contains(p.1));
                assert(place(p.1) == p);
            }
        }
        assert(rows_in(entries, n) =~= rows_in(entries, n - 1) + added);
    }
}

/// Why a row cannot be created, upserted or updated.
#[derive(Debug, PartialEq, Eq)]
pub struct Refusal {
    /// The operation of the row, which rules the other one out.
    pub operation: Operation,
    /// The key of the row.
    pub key: PrimaryKey,
}

/// A counter of the places in an order.
#[derive(Debug, Clone, Copy)]
pub struct Ordinal(u64);

impl View for Ordinal {
    type V = u64;

    closed spec fn view(&self) -> u64 {
        self.0
    }
}

impl Ordinal {
    /// A counter at zero.
    pub fn new() -> (ordinal: Self)
        ensures
            ordinal@ == 0,
    {
        Ordinal(0)
    }

    /// The place that the counter stands at; the counter then stands at the next one.
    pub fn next(&mut self) -> (current: u64)
        requires
            old(self)@ < u64::MAX,
        ensures
            current == old(self)@,
            final(self)@ == old(self)@ + 1,
    {
        let current = self.0;
        self.0 += 1;
        current
    }
}

impl Default for Ordinal {
    fn default() -> (ordinal: Self)
        ensures
            ordinal@ == 0,
    {
        Ordinal(0)
    }
}

/// The rows of one table, by their keys.
#[derive(Debug)]
pub struct Rows {
    pks: EntryMap<PrimaryKey, Row>,
}

impl View for Rows {
    type V = RowsView;

    closed spec fn view(&self) -> RowsView {
        self.pks@.map_values(|row: Row| row@)
    }
}

impl Rows {
    /// No key occurs twice, and no column in a key or in a row.
    pub closed spec fn wf(self) -> bool {
        &&& self.pks.wf()
        &&& forall|i: int| 0 <= i < self.pks.keys().len() ==> (#[trigger] self.pks.keys()[i]).wf()
        &&& forall|key: PrimaryKeyView| #[trigger]
            self.pks@.contains_key(key) ==> self.pks@[key].wf()
    }

    /// No rows.
    pub fn new() -> (rows: Self)
        ensures
            rows@ == RowsView::empty(),
            rows.wf(),
    {
        let rows = Rows { pks: EntryMap::new() };
        assert(rows@ =~= RowsView::empty());
        rows
    }
}

/// Written as a map, in the order in which the rows were added. No contract says what is written.
impl std::fmt::Debug for EntryMap<PrimaryKey, Row> {
    fn fmt(&self, f: &mut std::fmt::Formatter<'_>) -> (result: std::fmt::Result) {
        let mut map = f.debug_map();
        let mut i: usize = 0;
        while i < self.len()
            invariant
                i <= self.entries().len(),
            decreases self.entries().len() - i,
        {
            let entry = self.entry_at(i);
            debug_entry(&mut map, &entry.0, &entry.1);
            i += 1;
        }
        map.finish()
    }
}

/// A row and what is to happen to it.
#[derive(Debug)]
pub struct Row {
    /// What is to happen to the row.
    pub operation: Operation,
    /// The last value that was given to each column, by the column's name.
    pub columns: EntryMap<String, String>,
    /// No longer used: `operation` says what is to happen to the row.
    pub finalized: bool,
    ordinal: u64,
}

impl View for Row {
    type V = RowView;

    closed spec fn view(&self) -> RowView {
        RowView {
            operation: self.operation,
            columns: texts(self.columns@),
            finalized: self.finalized,
            ordinal: self.ordinal,
        }
    }
}

impl Row {
    /// No column occurs twice.
    pub closed spec fn wf(self) -> bool {
        self.columns.wf()
    }

    /// A row stands for what its fields hold: the operation, the place in the order, and the text of
    /// each column.
    proof fn law_what_a_row_stands_for(self, name: Seq<char>)
        ensures
            self@.operation == self.operation,
            self@.finalized == self.finalized,
            self@.ordinal == self.ordinal,
            self@.columns.contains_key(name) <==> self.columns@.contains_key(name),
            self.columns@.contains_key(name) ==> self@.columns[name] == self.columns@[name]@,
    {
    }

    /// A row at the start of the order. **Do not use** it: rows are made by [`Tables`], which
    /// gives each its own place in the order.
    pub fn new() -> (row: Self)
        ensures
            row@ == RowView::fresh(0),
            row.wf(),
    {
        Row::new_ordered(0)
    }

    pub(crate) fn new_ordered(ordinal: u64) -> (row: Self)
        ensures
            row@ == RowView::fresh(ordinal),
            row.wf(),
    {
        let row = Row {
            operation: Operation::Unspecified,
            columns: EntryMap::new(),
            finalized: false,
            ordinal,
        };
        assert(row@.columns =~= Map::<Seq<char>, Seq<char>>::empty());
        row
    }

    /// What is to happen to the row.
    pub fn current_operation(&self) -> (operation: Operation)
        ensures
            operation == self@.operation,
    {
        self.operation
    }

    /// The value of a column, where the row has one.
    pub fn column(&self, name: &str) -> (value: Option<&String>)
        ensures
            value is Some == self@.columns.contains_key(name@),
            value matches Some(text) ==> text@ == self@.columns[name@],
    {
        self.columns.get(&name.to_string())
    }

    /// Sets a column to a value, in the text that [`ToDatabaseValue`] gives it.
    ///
    /// Not for a row that is to be deleted.
    pub fn set<T: ToDatabaseValue>(&mut self, name: &str, value: T) -> (row: &mut Self)
        requires
            old(self)@.operation != Operation::Delete,
            value.text_fits(),
        ensures
            (*row)@ == old(self)@.with_column(name@, value.database_text()),
            old(self).wf() ==> row.wf(),
            *final(self) == *final(row),
    {
        let text = value.to_value();
        self.set_raw(name, text)
    }

    /// Sets a column to a text that the database interprets itself, as it would stand in a
    /// statement.
    pub fn set_raw(&mut self, name: &str, value: String) -> (row: &mut Self)
        ensures
            (*row)@ == old(self)@.with_column(name@, value@),
            old(self).wf() ==> row.wf(),
            *final(self) == *final(row),
    {
        let ghost before = self@;
        self.columns.insert(name.to_string(), value);
        assert(self@.columns =~= before.columns.insert(name@, value@));
        self
    }

    /// Sets a column to an array, as PostgreSQL writes it.
    ///
    /// Not for a row that is to be deleted.
    pub fn set_psql_array<T: ToDatabaseValue>(&mut self, name: &str, value: Vec<T>) -> (row:
        &mut Row)
        requires
            old(self)@.operation != Operation::Delete,
            all_texts_fit(value@),
        ensures
            (*row)@ == old(self)@.with_column(name@, psql_array(database_texts(value@))),
            old(self).wf() ==> row.wf(),
            *final(self) == *final(row),
    {
        let values = join_with_commas(&to_values(value));
        let text = "'{".to_string().concat(values.as_str()).concat("}'");
        proof {
            reveal_strlit("'{");
            reveal_strlit("}'");
            assert(text@ =~= psql_array(database_texts(value@)));
        }
        self.set_raw(name, text)
    }

    /// Sets a column to an array, as ClickHouse writes it.
    ///
    /// Not for a row that is to be deleted.
    pub fn set_clickhouse_array<T: ToDatabaseValue>(&mut self, name: &str, value: Vec<T>) -> (row:
        &mut Row)
        requires
            old(self)@.operation != Operation::Delete,
            all_texts_fit(value@),
        ensures
            (*row)@ == old(self)@.with_column(name@, clickhouse_array(database_texts(value@))),
            old(self).wf() ==> row.wf(),
            *final(self) == *final(row),
    {
        let values = join_with_commas(&to_values(value));
        let text = "[".to_string().concat(values.as_str()).concat("]");
        proof {
            reveal_strlit("[");
            reveal_strlit("]");
            assert(text@ =~= clickhouse_array(database_texts(value@)));
        }
        self.set_raw(name, text)
    }
}

impl Default for Row {
    fn default() -> (row: Self)
        ensures
            row@ == RowView::fresh(0),
            row.wf(),
    {
        Row::new_ordered(0)
    }
}

} // verus!
