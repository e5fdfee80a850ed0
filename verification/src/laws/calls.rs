//! What holds of the calls that callers make, in terms of what goes in and what comes out.
use vstd::prelude::*;
use crate::key::{converts_to, PrimaryKey, PrimaryKeyView};
use crate::laws::values::law_joining_keeps_every_part;
use crate::model::{RowView, TablesView};
use crate::pb::database::table_change::Operation;
use crate::tables::{Refusal, Row, Tables};
use crate::text::{comma_separated, join_with_commas};
use crate::value::{database_texts, ToDatabaseValue};

verus! {

// Calls for a row.

/// The only difference that a call for a row makes to tables: the row is there as the caller left
/// it, all other rows are as they were, and one ordinal is used up.
pub open spec fn only_this_row_differs(
    before: TablesView,
    after: TablesView,
    table: Seq<char>,
    key: PrimaryKeyView,
    left: RowView,
) -> bool {
    &&& after.has_row(table, key)
    &&& after.row(table, key) == left
    &&& after.ordinal == before.ordinal + 1
    &&& forall|t: Seq<char>, k: PrimaryKeyView|
        #![trigger after.has_row(t, k)]
        #![trigger before.has_row(t, k)]
        t != table || k != key ==> {
            &&& after.has_row(t, k) == before.has_row(t, k)
            &&& before.has_row(t, k) ==> after.row(t, k) == before.row(t, k)
        }
}

/// The row that a call hands out is the one that was there, but for what the call changes.
pub open spec fn same_but_operation(before: RowView, after: RowView) -> bool {
    &&& after.columns == before.columns
    &&& after.ordinal == before.ordinal
    &&& after.finalized == before.finalized
}

proof fn lemma_only_this_row_differs(
    before: TablesView,
    table: Seq<char>,
    key: PrimaryKeyView,
    left: RowView,
)
    requires
        before.ordinal < u64::MAX,
    ensures
        only_this_row_differs(before, before.with_row(table, key, left), table, key, left),
{
    let after = before.with_row(table, key, left);
    assert forall|t: Seq<char>, k: PrimaryKeyView|
        #![trigger after.has_row(t, k)]
        #![trigger before.has_row(t, k)]
        t != table || k != key implies {
        &&& after.has_row(t, k) == before.has_row(t, k)
        &&& before.has_row(t, k) ==> after.row(t, k) == before.row(t, k)
    } by {
        crate::laws::law_other_rows_stay(before, (table, key), left, (t, k));
    }
}

/// [`Tables::create_row`] hands out the row with the operation set to create it, whatever it holds.
pub proof fn law_create_row<K: Into<PrimaryKey>>(
    tables: &mut Tables,
    table: &str,
    key: K,
    row: &mut Row,
)
    requires
        old(tables)@.ordinal < u64::MAX,
        call_ensures(Tables::create_row::<K>, (tables, table, key), row),
    ensures
        exists|k: PrimaryKey| {
            &&& #[trigger] converts_to(key, k)
            &&& (*old(row))@.operation == Operation::Create
            &&& same_but_operation(old(tables)@.row(table@, k@), (*old(row))@)
            &&& only_this_row_differs(old(tables)@, final(tables)@, table@, k@, (*final(row))@)
        },
{
    let k = choose|k: PrimaryKey| #[trigger]
        converts_to(key, k) && (*row)@ == tables@.row(table@, k@).created() && final(tables)@
            == tables@.with_row(table@, k@, (*final(row))@);
    lemma_only_this_row_differs(tables@, table@, k@, (*final(row))@);
}

/// [`Tables::upsert_row`] hands out the row with the operation set to upsert it, whatever it holds.
pub proof fn law_upsert_row<K: Into<PrimaryKey>>(
    tables: &mut Tables,
    table: &str,
    key: K,
    row: &mut Row,
)
    requires
        old(tables)@.ordinal < u64::MAX,
        call_ensures(Tables::upsert_row::<K>, (tables, table, key), row),
    ensures
        exists|k: PrimaryKey| {
            &&& #[trigger] converts_to(key, k)
            &&& (*old(row))@.operation == Operation::Upsert
            &&& same_but_operation(old(tables)@.row(table@, k@), (*old(row))@)
            &&& only_this_row_differs(old(tables)@, final(tables)@, table@, k@, (*final(row))@)
        },
{
    let k = choose|k: PrimaryKey| #[trigger]
        converts_to(key, k) && (*row)@ == tables@.row(table@, k@).upserted() && final(tables)@
            == tables@.with_row(table@, k@, (*final(row))@);
    lemma_only_this_row_differs(tables@, table@, k@, (*final(row))@);
}

/// [`Tables::update_row`] hands out the row with the operation set to update it, unless it is to be
/// created or upserted: then it stays so.
pub proof fn law_update_row<K: Into<PrimaryKey>>(
    tables: &mut Tables,
    table: &str,
    key: K,
    row: &mut Row,
)
    requires
        old(tables)@.ordinal < u64::MAX,
        forall|k: PrimaryKey| #[trigger]
            converts_to(key, k) ==> old(tables)@.row(table@, k@).operation != Operation::Delete,
        call_ensures(Tables::update_row::<K>, (tables, table, key), row),
    ensures
        exists|k: PrimaryKey| {
            &&& #[trigger] converts_to(key, k)
            &&& (*old(row))@.operation == match old(tables)@.row(table@, k@).operation {
                Operation::Create => Operation::Create,
                Operation::Upsert => Operation::Upsert,
                _ => Operation::Update,
            }
            &&& same_but_operation(old(tables)@.row(table@, k@), (*old(row))@)
            &&& only_this_row_differs(old(tables)@, final(tables)@, table@, k@, (*final(row))@)
        },
{
    let k = choose|k: PrimaryKey| #[trigger]
        converts_to(key, k) && (*row)@ == tables@.row(table@, k@).updated() && final(tables)@
            == tables@.with_row(table@, k@, (*final(row))@);
    lemma_only_this_row_differs(tables@, table@, k@, (*final(row))@);
}

/// [`Tables::delete_row`] hands out the row without columns, with the operation set to delete it,
/// unless it was to be created: then it has none.
pub proof fn law_delete_row<K: Into<PrimaryKey>>(
    tables: &mut Tables,
    table: &str,
    key: K,
    row: &mut Row,
)
    requires
        old(tables)@.ordinal < u64::MAX,
        call_ensures(Tables::delete_row::<K>, (tables, table, key), row),
    ensures
        exists|k: PrimaryKey| {
            &&& #[trigger] converts_to(key, k)
            &&& (*old(row))@.operation == match old(tables)@.row(table@, k@).operation {
                Operation::Create => Operation::Unspecified,
                _ => Operation::Delete,
            }
            &&& (*old(row))@.columns == Map::<Seq<char>, Seq<char>>::empty()
            &&& (*old(row))@.ordinal == old(tables)@.row(table@, k@).ordinal
            &&& only_this_row_differs(old(tables)@, final(tables)@, table@, k@, (*final(row))@)
        },
{
    let k = choose|k: PrimaryKey| #[trigger]
        converts_to(key, k) && (*row)@ == tables@.row(table@, k@).deleted() && final(tables)@
            == tables@.with_row(table@, k@, (*final(row))@);
    lemma_only_this_row_differs(tables@, table@, k@, (*final(row))@);
}

/// [`Tables::try_create_row`] refuses a row that cannot be created, says why and changes nothing; else it
/// is the same call as [`Tables::create_row`].
pub proof fn law_try_create_row<K: Into<PrimaryKey>>(
    tables: &mut Tables,
    table: &str,
    key: K,
    result: Result<&mut Row, Refusal>,
)
    requires
        old(tables)@.ordinal < u64::MAX,
        call_ensures(Tables::try_create_row::<K>, (tables, table, key), result),
    ensures
        exists|k: PrimaryKey| {
            let operation = old(tables)@.row(table@, k@).operation;
            &&& #[trigger] converts_to(key, k)
            &&& result is Ok <==> (operation == Operation::Unspecified || operation == Operation::Create)
            &&& match result {
                Ok(row) => {
                    &&& (*row)@.operation == Operation::Create
                    &&& same_but_operation(old(tables)@.row(table@, k@), (*row)@)
                    &&& only_this_row_differs(
                        old(tables)@,
                        final(tables)@,
                        table@,
                        k@,
                        (*final(row))@,
                    )
                },
                Err(refusal) => {
                    &&& refusal.operation == operation
                    &&& refusal.key == k
                    &&& *final(tables) == *old(tables)
                },
            }
        },
{
    let k = choose|k: PrimaryKey| #[trigger]
        converts_to(key, k) && match result {
            Ok(row) => {
                &&& crate::model::can_create(tables@.row(table@, k@).operation)
                &&& (*row)@ == tables@.row(table@, k@).created()
                &&& final(tables)@ == tables@.with_row(table@, k@, (*final(row))@)
            },
            Err(refusal) => {
                &&& !crate::model::can_create(tables@.row(table@, k@).operation)
                &&& refusal.operation == tables@.row(table@, k@).operation
                &&& refusal.key == k
                &&& *final(tables) == *tables
            },
        };
    match result {
        Ok(row) => {
            lemma_only_this_row_differs(tables@, table@, k@, (*final(row))@);
        },
        Err(_) => {},
    }
}

/// [`Tables::try_upsert_row`] refuses a row that cannot be upserted, says why and changes nothing; else it
/// is the same call as [`Tables::upsert_row`].
pub proof fn law_try_upsert_row<K: Into<PrimaryKey>>(
    tables: &mut Tables,
    table: &str,
    key: K,
    result: Result<&mut Row, Refusal>,
)
    requires
        old(tables)@.ordinal < u64::MAX,
        call_ensures(Tables::try_upsert_row::<K>, (tables, table, key), result),
    ensures
        exists|k: PrimaryKey| {
            let operation = old(tables)@.row(table@, k@).operation;
            &&& #[trigger] converts_to(key, k)
            &&& result is Ok <==> (operation == Operation::Unspecified || operation == Operation::Upsert)
            &&& match result {
                Ok(row) => {
                    &&& (*row)@.operation == Operation::Upsert
                    &&& same_but_operation(old(tables)@.row(table@, k@), (*row)@)
                    &&& only_this_row_differs(
                        old(tables)@,
                        final(tables)@,
                        table@,
                        k@,
                        (*final(row))@,
                    )
                },
                Err(refusal) => {
                    &&& refusal.operation == operation
                    &&& refusal.key == k
                    &&& *final(tables) == *old(tables)
                },
            }
        },
{
    let k = choose|k: PrimaryKey| #[trigger]
        converts_to(key, k) && match result {
            Ok(row) => {
                &&& crate::model::can_upsert(tables@.row(table@, k@).operation)
                &&& (*row)@ == tables@.row(table@, k@).upserted()
                &&& final(tables)@ == tables@.with_row(table@, k@, (*final(row))@)
            },
            Err(refusal) => {
                &&& !crate::model::can_upsert(tables@.row(table@, k@).operation)
                &&& refusal.operation == tables@.row(table@, k@).operation
                &&& refusal.key == k
                &&& *final(tables) == *tables
            },
        };
    match result {
        Ok(row) => {
            lemma_only_this_row_differs(tables@, table@, k@, (*final(row))@);
        },
        Err(_) => {},
    }
}

/// [`Tables::try_update_row`] refuses a row that cannot be updated, says why and changes nothing; else it
/// is the same call as [`Tables::update_row`].
pub proof fn law_try_update_row<K: Into<PrimaryKey>>(
    tables: &mut Tables,
    table: &str,
    key: K,
    result: Result<&mut Row, Refusal>,
)
    requires
        old(tables)@.ordinal < u64::MAX,
        call_ensures(Tables::try_update_row::<K>, (tables, table, key), result),
    ensures
        exists|k: PrimaryKey| {
            let operation = old(tables)@.row(table@, k@).operation;
            &&& #[trigger] converts_to(key, k)
            &&& result is Ok <==> (operation != Operation::Delete)
            &&& match result {
                Ok(row) => {
                    &&& (*row)@.operation == if operation == Operation::Unspecified {
                        Operation::Update
                    } else {
                        operation
                    }
                    &&& same_but_operation(old(tables)@.row(table@, k@), (*row)@)
                    &&& only_this_row_differs(
                        old(tables)@,
                        final(tables)@,
                        table@,
                        k@,
                        (*final(row))@,
                    )
                },
                Err(refusal) => {
                    &&& refusal.operation == operation
                    &&& refusal.key == k
                    &&& *final(tables) == *old(tables)
                },
            }
        },
{
    let k = choose|k: PrimaryKey| #[trigger]
        converts_to(key, k) && match result {
            Ok(row) => {
                &&& crate::model::can_update(tables@.row(table@, k@).operation)
                &&& (*row)@ == tables@.row(table@, k@).updated()
                &&& final(tables)@ == tables@.with_row(table@, k@, (*final(row))@)
            },
            Err(refusal) => {
                &&& !crate::model::can_update(tables@.row(table@, k@).operation)
                &&& refusal.operation == tables@.row(table@, k@).operation
                &&& refusal.key == k
                &&& *final(tables) == *tables
            },
        };
    match result {
        Ok(row) => {
            lemma_only_this_row_differs(tables@, table@, k@, (*final(row))@);
        },
        Err(_) => {},
    }
}

// Columns.

/// The only difference that setting a column makes to a row: the column has this text.
pub open spec fn only_this_column_differs(
    before: RowView,
    after: RowView,
    name: Seq<char>,
    text: Seq<char>,
) -> bool {
    &&& after.columns.contains_key(name)
    &&& after.columns[name] == text
    &&& after.operation == before.operation
    &&& after.ordinal == before.ordinal
    &&& after.finalized == before.finalized
    &&& forall|other: Seq<char>|
        #![trigger after.columns.contains_key(other)]
        #![trigger before.columns.contains_key(other)]
        other != name ==> {
            &&& after.columns.contains_key(other) == before.columns.contains_key(other)
            &&& before.columns.contains_key(other) ==> after.columns[other]
                == before.columns[other]
        }
}

/// [`Row::set_raw`] sets the column to the text as it is, and hands the row on.
pub proof fn law_set_raw(row: &mut Row, name: &str, value: String, same: &mut Row)
    requires
        call_ensures(Row::set_raw, (row, name, value), same),
    ensures
        only_this_column_differs(old(row)@, (*old(same))@, name@, value@),
        *final(row) == *final(same),
{
}

/// [`Row::set`] sets the column to the value's text, and hands the row on.
pub proof fn law_set<T: ToDatabaseValue>(row: &mut Row, name: &str, value: T, same: &mut Row)
    requires
        call_ensures(Row::set::<T>, (row, name, value), same),
    ensures
        only_this_column_differs(old(row)@, (*old(same))@, name@, value.database_text()),
        *final(row) == *final(same),
{
}

/// Texts one after the other with a comma between each two, from a place on: each stands there, in
/// its order.
pub open spec fn joined_from(parts: Seq<Seq<char>>, i: int) -> Seq<char>
    decreases parts.len() - i,
{
    if i >= parts.len() {
        seq![]
    } else if i == parts.len() - 1 {
        parts[i]
    } else {
        parts[i] + seq![','] + joined_from(parts, i + 1)
    }
}

/// The texts of values.
pub open spec fn texts_of<T: ToDatabaseValue>(values: Seq<T>) -> Seq<Seq<char>> {
    Seq::new(values.len(), |i: int| values[i].database_text())
}

proof fn lemma_joined_from(parts: Seq<Seq<char>>, part: Seq<char>, i: int)
    requires
        0 <= i < parts.len(),
    ensures
        joined_from(parts.push(part), i) == joined_from(parts, i) + seq![','] + part,
    decreases parts.len() - i,
{
    let more = parts.push(part);
    if i == parts.len() - 1 {
        assert(joined_from(more, i + 1) == part);
        assert(joined_from(more, i) =~= joined_from(parts, i) + seq![','] + part);
    } else {
        lemma_joined_from(parts, part, i + 1);
        assert(joined_from(more, i) =~= joined_from(parts, i) + seq![','] + part);
    }
}

/// Joining may be read from the front as well as from the back.
pub proof fn law_joined_from_the_front(parts: Seq<Seq<char>>)
    ensures
        comma_separated(parts) == joined_from(parts, 0),
    decreases parts.len(),
{
    if parts.len() > 0 {
        let rest = parts.drop_last();
        law_joined_from_the_front(rest);
        law_joining_keeps_every_part(rest, parts.last());
        assert(rest.push(parts.last()) =~= parts);
        if rest.len() > 0 {
            lemma_joined_from(rest, parts.last(), 0);
        }
    }
}

/// [`join_with_commas`] gives all texts in their order, with a comma between each two.
pub proof fn law_join_with_commas(parts: &Vec<String>, text: String)
    requires
        call_ensures(join_with_commas, (parts,), text),
    ensures
        text@ == joined_from(Seq::new(parts@.len(), |i: int| parts@[i]@), 0),
{
    let views = Seq::new(parts@.len(), |i: int| parts@[i]@);
    assert(parts@.map_values(|part: String| part@) =~= views);
    law_joined_from_the_front(views);
}

/// [`Row::set_psql_array`] sets the column to the texts of all values in their order, with a comma
/// between each two, between braces and quotes.
pub proof fn law_set_psql_array<T: ToDatabaseValue>(
    row: &mut Row,
    name: &str,
    value: Vec<T>,
    same: &mut Row,
)
    requires
        call_ensures(Row::set_psql_array::<T>, (row, name, value), same),
    ensures
        only_this_column_differs(
            old(row)@,
            (*old(same))@,
            name@,
            seq!['\'', '{'] + joined_from(texts_of(value@), 0) + seq!['}', '\''],
        ),
        *final(row) == *final(same),
{
    assert(database_texts(value@) =~= texts_of(value@));
    law_joined_from_the_front(texts_of(value@));
}

/// [`Row::set_clickhouse_array`] sets the column to the texts of all values in their order, with a
/// comma between each two, between brackets.
pub proof fn law_set_clickhouse_array<T: ToDatabaseValue>(
    row: &mut Row,
    name: &str,
    value: Vec<T>,
    same: &mut Row,
)
    requires
        call_ensures(Row::set_clickhouse_array::<T>, (row, name, value), same),
    ensures
        only_this_column_differs(
            old(row)@,
            (*old(same))@,
            name@,
            seq!['['] + joined_from(texts_of(value@), 0) + seq![']'],
        ),
        *final(row) == *final(same),
{
    assert(database_texts(value@) =~= texts_of(value@));
    law_joined_from_the_front(texts_of(value@));
}

// Readers.

/// What was set in a column is read from it; no other text is.
pub proof fn law_columns_are_read(row: &Row, name: &str, value: Option<&String>)
    requires
        call_ensures(Row::column, (row, name), value),
    ensures
        value is None <==> !row@.columns.contains_key(name@),
        value matches Some(text) ==> text@ == row@.columns[name@],
{
}

/// A row is found where it is, as it is; its operation is that of the row, none where there is no
/// such row.
pub proof fn law_rows_are_read(
    tables: &Tables,
    table: &str,
    key: &PrimaryKey,
    found: Option<&Row>,
    operation: Operation,
)
    requires
        call_ensures(Tables::find_row, (tables, table, key), found),
        call_ensures(Tables::operation_of, (tables, table, key), operation),
    ensures
        found is Some <==> tables@.has_row(table@, key@),
        found matches Some(row) ==> row@ == tables@.row(table@, key@) && operation
            == row@.operation,
        found is None ==> operation == Operation::Unspecified,
{
}

/// As many rows are counted as there are places with a row.
pub proof fn law_rows_are_counted(tables: &Tables, count: usize)
    requires
        call_ensures(Tables::all_row_count, (tables,), count),
    ensures
        Set::new(
            |place: (Seq<char>, PrimaryKeyView)| tables@.has_row(place.0, place.1),
        ).finite(),
        count == Set::new(
            |place: (Seq<char>, PrimaryKeyView)| tables@.has_row(place.0, place.1),
        ).len(),
{
    let places = Set::new(
        |place: (Seq<char>, PrimaryKeyView)| tables@.has_row(place.0, place.1),
    );
    assert(tables@.all_rows() =~= places);
}

} // verus!
