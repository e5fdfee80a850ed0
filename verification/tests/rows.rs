use substreams_database_change::map::EntryMap;
use substreams_database_change::model::{may_create, may_update, may_upsert};
use substreams_database_change::pb::database::table_change::Operation;
use substreams_database_change::scalar::{BigDecimal, BigInt};
use substreams_database_change::tables::{Row, Tables};

fn column(row: &Row, name: &str) -> Option<String> {
    row.columns.get(&name.to_string()).cloned()
}

#[test]
fn a_new_row_is_empty() {
    for row in [Row::new(), Row::default()] {
        assert_eq!(row.operation, Operation::Unspecified);
        assert_eq!(row.columns.len(), 0);
        assert!(!row.finalized);
    }
}

#[test]
fn columns_of_many_types() {
    let mut tables = Tables::new();
    let row = tables.create_row("myevent", "my_key");
    row.set("name", "asset name");
    row.set("decimals", 42);
    row.set("open", true);
    assert_eq!(column(row, "name"), Some("asset name".to_string()));
    assert_eq!(column(row, "decimals"), Some("42".to_string()));
    assert_eq!(column(row, "open"), Some("true".to_string()));
    assert_eq!(column(row, "count"), None);
    assert_eq!(row.operation, Operation::Create);
}

#[test]
fn the_last_value_of_a_column_counts() {
    let mut row = Row::new();
    row.set("a", 1).set("b", 2).set("a", 3);
    assert_eq!(row.columns.len(), 2);
    assert_eq!(column(&row, "a"), Some("3".to_string()));
    assert_eq!(column(&row, "b"), Some("2".to_string()));
}

#[test]
fn columns_commute() {
    let mut one = Row::new();
    one.set("a", 1).set("b", 2);
    let mut other = Row::new();
    other.set("b", 2).set("a", 1);
    assert_eq!(one.columns, other.columns);
    other.set("a", 2);
    assert_ne!(one.columns, other.columns);
}

#[test]
fn raw_values_stay_as_they_are() {
    let mut row = Row::new();
    row.set_raw("a", "now()".to_string()).set_raw("b", "'x'".to_string());
    assert_eq!(column(&row, "a"), Some("now()".to_string()));
    assert_eq!(column(&row, "b"), Some("'x'".to_string()));
}

#[test]
fn raw_values_on_a_deleted_row() {
    let mut tables = Tables::new();
    tables.delete_row("t", "k").set_raw("a", "1".to_string());
    let changes = tables.to_database_changes().table_changes;
    assert_eq!(changes[0].operation, 3);
    assert_eq!(changes[0].fields.len(), 1);
    assert_eq!(changes[0].fields[0].new_value, "1");
}

#[test]
fn psql_arrays() {
    let mut row = Row::new();
    row.set_psql_array("none", Vec::<i32>::new());
    row.set_psql_array("one", vec![7]);
    row.set_psql_array("many", vec![1, -2, 3]);
    row.set_psql_array("texts", vec!["a", "b"]);
    assert_eq!(column(&row, "none"), Some("'{}'".to_string()));
    assert_eq!(column(&row, "one"), Some("'{7}'".to_string()));
    assert_eq!(column(&row, "many"), Some("'{1,-2,3}'".to_string()));
    assert_eq!(column(&row, "texts"), Some("'{a,b}'".to_string()));
}

#[test]
fn clickhouse_arrays() {
    let mut row = Row::new();
    row.set_clickhouse_array("none", Vec::<i32>::new());
    row.set_clickhouse_array("one", vec![7]);
    row.set_clickhouse_array("many", vec![1, -2, 3]);
    row.set_clickhouse_array("texts", vec!["".to_string(), "b".to_string()]);
    assert_eq!(column(&row, "none"), Some("[]".to_string()));
    assert_eq!(column(&row, "one"), Some("[7]".to_string()));
    assert_eq!(column(&row, "many"), Some("[1,-2,3]".to_string()));
    assert_eq!(column(&row, "texts"), Some("[,b]".to_string()));
}

#[test]
fn what_an_operation_allows() {
    let all = [
        Operation::Unspecified,
        Operation::Create,
        Operation::Update,
        Operation::Delete,
        Operation::Upsert,
    ];
    let create: Vec<bool> = all.iter().map(|operation| may_create(*operation)).collect();
    let upsert: Vec<bool> = all.iter().map(|operation| may_upsert(*operation)).collect();
    let update: Vec<bool> = all.iter().map(|operation| may_update(*operation)).collect();
    assert_eq!(create, vec![true, true, false, false, false]);
    assert_eq!(upsert, vec![true, false, false, false, true]);
    assert_eq!(update, vec![true, true, true, false, true]);
}

#[test]
fn maps_keep_the_order_of_their_keys() {
    let mut map: EntryMap<String, u8> = EntryMap::new();
    map.insert("b".to_string(), 1);
    map.insert("a".to_string(), 2);
    map.insert("b".to_string(), 3);
    *map.get_or_insert("c".to_string(), 4) += 1;
    *map.get_or_insert("a".to_string(), 9) += 1;
    assert_eq!(map.len(), 3);
    assert_eq!(map.get(&"b".to_string()), Some(&3));
    assert_eq!(map.entry_at(2), &("c".to_string(), 5));
    assert_eq!(
        map.into_entries(),
        vec![("b".to_string(), 3), ("a".to_string(), 3), ("c".to_string(), 5)]
    );
}

#[test]
fn columns_of_the_documented_example() {
    let forty_two = BigInt {
        signed_bytes_be: vec![42],
    };
    let mut tables = Tables::new();
    let row = tables.create_row("myevent", "my_key");
    row.set("name", "asset name");
    row.set("decimals", 42);
    row.set(
        "count",
        BigDecimal {
            digits: forty_two.clone(),
            exp: 0,
        },
    );
    row.set("value", forty_two);
    assert_eq!(column(row, "name"), Some("asset name".to_string()));
    assert_eq!(column(row, "decimals"), Some("42".to_string()));
    assert_eq!(column(row, "count"), Some("42".to_string()));
    assert_eq!(column(row, "value"), Some("42".to_string()));
}

#[test]
fn a_row_is_read() {
    let mut row = Row::new();
    assert_eq!(row.current_operation(), Operation::Unspecified);
    assert_eq!(row.column("a"), None);
    row.operation = Operation::Upsert;
    row.set("a", 1);
    assert_eq!(row.current_operation(), Operation::Upsert);
    assert_eq!(row.column("a"), Some(&"1".to_string()));
    assert_eq!(row.column("b"), None);
}
