use substreams_database_change::map::EntryMap;
use substreams_database_change::pb::database::table_change::Operation;
use substreams_database_change::pb::database::table_change::PrimaryKey as PrimaryKeyProto;
use substreams_database_change::pb::database::CompositePrimaryKey as CompositePrimaryKeyProto;
use substreams_database_change::pb::database::{DatabaseChanges, Field, TableChange};
use substreams_database_change::tables::{Ordinal, PrimaryKey, Refusal, Rows, Tables};

fn change<K: Into<PrimaryKey>>(name: &str, key: K, ordinal: u64) -> TableChange {
    TableChange {
        table: name.to_string(),
        ordinal,
        operation: 1,
        fields: [].into(),
        primary_key: Some(match key.into() {
            PrimaryKey::Single(pk) => PrimaryKeyProto::Pk(pk),
            PrimaryKey::Composite(keys) => {
                PrimaryKeyProto::CompositePk(CompositePrimaryKeyProto { keys })
            }
        }),
    }
}

fn operations(tables: Tables) -> Vec<i32> {
    let changes = tables.to_database_changes().table_changes;
    changes.iter().map(|change| change.operation).collect()
}

#[test]
fn create_row_single_pk_direct() {
    let mut tables = Tables::new();
    tables.create_row("myevent", PrimaryKey::Single("myhash".to_string()));

    assert_eq!(
        tables.to_database_changes(),
        DatabaseChanges {
            table_changes: [change("myevent", "myhash", 0)].to_vec(),
        }
    );
}

#[test]
fn create_row_single_pk() {
    let mut tables = Tables::new();
    tables.create_row("myevent", "myhash");

    assert_eq!(
        tables.to_database_changes(),
        DatabaseChanges {
            table_changes: [change("myevent", "myhash", 0)].to_vec(),
        }
    );
}

#[test]
fn create_row_composite_pk() {
    let mut tables = Tables::new();
    tables.create_row(
        "myevent",
        [("evt_tx_hash", "hello"), ("evt_index", "world")],
    );

    assert_eq!(
        tables.to_database_changes(),
        DatabaseChanges {
            table_changes: [change(
                "myevent",
                [("evt_tx_hash", "hello"), ("evt_index", "world")],
                0
            )]
            .to_vec()
        }
    );
}

#[test]
fn row_ordering() {
    let mut tables = Tables::new();
    tables.create_row("tableA", "one");
    tables.create_row("tableC", "two");
    tables.create_row("tableA", "three");
    tables.create_row("tableD", "four");
    tables.create_row("tableE", "five");
    tables.create_row("tableC", "six");

    assert_eq!(
        tables.to_database_changes(),
        DatabaseChanges {
            table_changes: [
                change("tableA", "one", 0),
                change("tableC", "two", 1),
                change("tableA", "three", 2),
                change("tableD", "four", 3),
                change("tableE", "five", 4),
                change("tableC", "six", 5)
            ]
            .to_vec(),
        }
    );
}

#[test]
fn new_tables_report_nothing() {
    let tables = Tables::new();
    assert_eq!(tables.all_row_count(), 0);
    assert_eq!(tables.next_ordinal(), 0);
    assert_eq!(tables.to_database_changes(), DatabaseChanges::default());
}

#[test]
fn keys_from_all_kinds_of_text() {
    let mut tables = Tables::new();
    tables.create_row("t", "k");
    tables.create_row("t", "k".to_string());
    tables.create_row("t", &"k".to_string());
    tables.create_row("t", [("a", "1".to_string())]);
    tables.create_row("t", [("a".to_string(), "1")]);
    tables.create_row("t", [(&"a".to_string(), "1")]);
    assert_eq!(tables.all_row_count(), 2);
    assert_eq!(tables.next_ordinal(), 6);
}

#[test]
fn names_of_key_columns_of_many_types() {
    let key = PrimaryKey::from([("a", "1")]);
    assert_eq!(PrimaryKey::from([(&"a", "1")]), key);
    assert_eq!(PrimaryKey::from([(&&"a".to_string(), "1")]), key);
    assert_eq!(PrimaryKey::from([(Box::<str>::from("a"), "1")]), key);
    assert_eq!(PrimaryKey::from([(std::rc::Rc::<str>::from("a"), "1")]), key);
    assert_eq!(PrimaryKey::from([(std::sync::Arc::<str>::from("a"), "1")]), key);
    assert_eq!(PrimaryKey::from([(std::borrow::Cow::Borrowed("a"), "1")]), key);
}

#[test]
fn rows_are_found() {
    let mut tables = Tables::new();
    tables.create_row("t", "k").set("a", 1);
    let key = PrimaryKey::from("k");
    let row = tables.find_row("t", &key).unwrap();
    assert_eq!(row.current_operation(), Operation::Create);
    assert_eq!(row.column("a"), Some(&"1".to_string()));
    assert!(tables.find_row("u", &key).is_none());
    assert!(tables.find_row("t", &PrimaryKey::from("l")).is_none());
    tables.delete_row("t", "k");
    assert!(tables.find_row("t", &key).is_some());
}

#[test]
fn composite_keys_have_no_order() {
    let one = PrimaryKey::from([("a", "1"), ("b", "2")]);
    let other = PrimaryKey::from([("b", "2".to_string()), ("a", "1".to_string())]);
    assert_eq!(one, other);

    let mut tables = Tables::new();
    tables.create_row("t", one);
    tables.delete_row("t", other);
    assert_eq!(tables.all_row_count(), 1);
    assert_eq!(tables.to_database_changes(), DatabaseChanges::default());
}

#[test]
fn composite_keys_differ_by_name_and_value() {
    let key = PrimaryKey::from([("a", "1"), ("b", "2")]);
    assert_ne!(key, PrimaryKey::from([("a", "1"), ("b", "3")]));
    assert_ne!(key, PrimaryKey::from([("a", "1"), ("c", "2")]));
    assert_ne!(key, PrimaryKey::from([("a", "1")]));
    assert_ne!(PrimaryKey::from([("a", "1")]), key);
    assert_ne!(key, PrimaryKey::from("a"));
    let none: [(&str, &str); 0] = [];
    assert_eq!(PrimaryKey::from(none), PrimaryKey::Composite(EntryMap::new()));
}

#[test]
fn last_column_of_a_composite_key_counts() {
    assert_eq!(
        PrimaryKey::from([("a", "1"), ("a", "2")]),
        PrimaryKey::from([("a", "2")])
    );
}

fn column_count(key: &PrimaryKey) -> usize {
    match key {
        PrimaryKey::Single(_) => 1,
        PrimaryKey::Composite(keys) => keys.len(),
    }
}

#[test]
fn composite_keys_hold_each_column_once() {
    let none: [(&str, &str); 0] = [];
    assert_eq!(column_count(&PrimaryKey::from(none)), 0);
    assert_eq!(column_count(&PrimaryKey::from([("a", "1"), ("b", "2")])), 2);
    assert_eq!(column_count(&PrimaryKey::from([("a", "1"), ("b", "2"), ("a", "3")])), 2);
    let repeated = [("a", "1".to_string()), ("a", "1".to_string())];
    assert_eq!(column_count(&PrimaryKey::from(repeated)), 1);
}

#[test]
fn reported_composite_keys_hold_each_column_once() {
    let mut tables = Tables::new();
    tables.create_row("t", [("a", "1"), ("b", "2"), ("a", "3")]);
    let changes = tables.to_database_changes().table_changes;
    match &changes[0].primary_key {
        Some(PrimaryKeyProto::CompositePk(key)) => {
            assert_eq!(key.keys.len(), 2);
            assert_eq!(key.keys.get(&"a".to_string()), Some(&"3".to_string()));
            assert_eq!(key.keys.get(&"b".to_string()), Some(&"2".to_string()));
        }
        _ => unreachable!(),
    }
}

#[test]
fn rows_called_for_first_are_reported_first() {
    let mut tables = Tables::new();
    tables.create_row("u", "one");
    tables.create_row("t", [("a", "1")]);
    tables.create_row("u", "two");
    tables.delete_row("u", "one");
    tables.create_row("t", "three");
    tables.create_row("u", "one");
    tables.update_row("t", [("a", "1")]);
    assert_eq!(
        tables.to_database_changes().table_changes,
        vec![
            change("u", "one", 0),
            change("t", [("a", "1")], 1),
            change("u", "two", 2),
            change("t", "three", 4),
        ]
    );
}

#[test]
fn keys_are_written_in_the_order_of_their_columns() {
    assert_eq!(format!("{:?}", PrimaryKey::from("k")), "Single(\"k\")");
    let key = PrimaryKey::from([("b", "2"), ("c", "3"), ("a", "1")]);
    assert_eq!(format!("{:?}", key), "Composite({\"a\": \"1\", \"b\": \"2\", \"c\": \"3\"})");
    assert_eq!(
        format!("{:#?}", PrimaryKey::from([("a", "1")])),
        "Composite(\n    {\n        \"a\": \"1\",\n    },\n)"
    );
    assert_eq!(format!("{:?}", PrimaryKey::Composite(EntryMap::new())), "Composite({})");
}

#[test]
fn tables_are_written_as_maps() {
    let mut tables = Tables::new();
    assert_eq!(format!("{:?}", tables), "Tables { tables: {}, ordinal: Ordinal(0) }");
    tables.create_row("t", "k").set("b", 2i32).set("a", 1i32);
    let first = "Single(\"k\"): Row { operation: Create, columns: {\"a\": \"1\", \"b\": \"2\"}, finalized: false, ordinal: 0 }";
    assert_eq!(
        format!("{:?}", tables),
        format!("Tables {{ tables: {{\"t\": Rows {{ pks: {{{}}} }}}}, ordinal: Ordinal(1) }}", first)
    );
    tables.delete_row("t", "l");
    let second =
        "Single(\"l\"): Row { operation: Delete, columns: {}, finalized: false, ordinal: 1 }";
    assert_eq!(
        format!("{:?}", tables.tables.get(&"t".to_string()).unwrap()),
        format!("Rows {{ pks: {{{}, {}}} }}", first, second)
    );
}

#[test]
fn every_call_uses_up_an_ordinal() {
    let mut tables = Tables::new();
    tables.create_row("t", "one");
    tables.create_row("t", "one");
    tables.create_row("t", "two");
    assert_eq!(
        tables.to_database_changes().table_changes,
        vec![change("t", "one", 0), change("t", "two", 2)]
    );
}

#[test]
fn a_row_keeps_its_place() {
    let mut tables = Tables::new();
    tables.update_row("t", "one");
    tables.update_row("t", "two");
    tables.delete_row("t", "one");
    let changes = tables.to_database_changes().table_changes;
    assert_eq!(changes[0].primary_key, Some(PrimaryKeyProto::Pk("one".to_string())));
    assert_eq!(changes[0].operation, 3);
    assert_eq!(changes[1].primary_key, Some(PrimaryKeyProto::Pk("two".to_string())));
    assert_eq!(changes[1].operation, 2);
}

#[test]
fn operations_on_a_row() {
    for (operation, number) in [
        (Operation::Unspecified, 0),
        (Operation::Create, 1),
        (Operation::Update, 2),
        (Operation::Delete, 3),
        (Operation::Upsert, 4),
    ] {
        assert_eq!(operation.number(), number);
    }

    let mut tables = Tables::new();
    tables.create_row("t", "created");
    tables.upsert_row("t", "upserted");
    tables.update_row("t", "updated");
    tables.delete_row("t", "deleted");
    tables.create_row("t", "created and updated");
    tables.update_row("t", "created and updated");
    tables.upsert_row("t", "upserted and updated");
    tables.update_row("t", "upserted and updated");
    assert_eq!(operations(tables), vec![1, 4, 2, 3, 1, 4]);
}

#[test]
fn operations_repeat() {
    let mut tables = Tables::new();
    tables.create_row("t", "a");
    tables.create_row("t", "a");
    tables.upsert_row("t", "b");
    tables.upsert_row("t", "b");
    tables.update_row("t", "c");
    tables.update_row("t", "c");
    tables.delete_row("t", "d");
    tables.delete_row("t", "d");
    assert_eq!(operations(tables), vec![1, 4, 2, 3]);
}

#[test]
fn deletion_of_a_created_row_is_not_reported() {
    let mut tables = Tables::new();
    tables.create_row("t", "k").set("a", 1);
    tables.delete_row("t", "k");
    assert_eq!(tables.all_row_count(), 1);
    assert_eq!(
        tables.operation_of("t", &PrimaryKey::from("k")),
        Operation::Unspecified
    );
    assert_eq!(tables.to_database_changes(), DatabaseChanges::default());
}

#[test]
fn a_created_row_that_was_deleted_can_be_created_anew() {
    let mut tables = Tables::new();
    tables.create_row("t", "k").set("a", 1);
    tables.create_row("t", "l");
    tables.delete_row("t", "k");
    tables.create_row("t", "k");
    assert_eq!(
        tables.to_database_changes().table_changes,
        vec![change("t", "k", 0), change("t", "l", 1)]
    );
}

#[test]
fn deletion_of_a_created_row_twice_is_reported() {
    let mut tables = Tables::new();
    tables.create_row("t", "k");
    tables.delete_row("t", "k");
    tables.delete_row("t", "k");
    assert_eq!(operations(tables), vec![3]);
}

#[test]
fn deletion_forgets_the_columns() {
    let mut tables = Tables::new();
    tables.upsert_row("t", "k").set("a", 1);
    tables.delete_row("t", "k");
    let changes = tables.to_database_changes().table_changes;
    assert_eq!(changes.len(), 1);
    assert_eq!(changes[0].operation, 3);
    assert_eq!(changes[0].fields, vec![]);
}

#[test]
fn fields_hold_the_last_values() {
    let mut tables = Tables::new();
    tables.create_row("t", "k").set("a", 1).set("b", "two").set("a", 3);
    let changes = tables.to_database_changes().table_changes;
    assert_eq!(
        changes[0].fields,
        vec![
            Field {
                name: "a".to_string(),
                new_value: "3".to_string(),
                old_value: "".to_string(),
            },
            Field {
                name: "b".to_string(),
                new_value: "two".to_string(),
                old_value: "".to_string(),
            },
        ]
    );
}

#[test]
fn operation_of_a_row() {
    let mut tables = Tables::new();
    let key = PrimaryKey::from("k");
    assert_eq!(tables.operation_of("t", &key), Operation::Unspecified);
    tables.upsert_row("t", "k");
    assert_eq!(tables.operation_of("t", &key), Operation::Upsert);
    assert_eq!(tables.operation_of("u", &key), Operation::Unspecified);
    assert_eq!(tables.operation_of("t", &PrimaryKey::from("l")), Operation::Unspecified);
    tables.delete_row("t", "k");
    assert_eq!(tables.operation_of("t", &key), Operation::Delete);
}

#[test]
fn rows_in_the_public_map() {
    let mut tables = Tables::new();
    tables.create_row("t", "k");
    assert_eq!(tables.tables.len(), 1);
    assert!(tables.tables.get(&"t".to_string()).is_some());
    assert!(tables.tables.get(&"u".to_string()).is_none());
    tables.tables.insert("t".to_string(), Rows::new());
    assert_eq!(tables.all_row_count(), 0);
}

#[test]
fn ordinals_count_up() {
    let mut ordinal = Ordinal::new();
    assert_eq!(ordinal.next(), 0);
    assert_eq!(ordinal.next(), 1);
    let mut copy = ordinal;
    assert_eq!(copy.next(), 2);
    assert_eq!(ordinal.next(), 2);
    assert_eq!(Ordinal::default().next(), 0);
}

fn refusal(operation: Operation, key: &str) -> Refusal {
    Refusal {
        operation,
        key: PrimaryKey::from(key),
    }
}

fn tables_of_each_operation() -> Tables {
    let mut tables = Tables::new();
    tables.create_row("t", "created");
    tables.upsert_row("t", "upserted");
    tables.update_row("t", "updated");
    tables.delete_row("t", "deleted");
    tables
}

#[test]
fn refused_creations() {
    let mut tables = tables_of_each_operation();
    assert!(tables.try_create_row("t", "new").is_ok());
    assert!(tables.try_create_row("u", "deleted").is_ok());
    assert!(tables.try_create_row("t", "created").is_ok());
    for (key, operation) in [
        ("upserted", Operation::Upsert),
        ("updated", Operation::Update),
        ("deleted", Operation::Delete),
    ] {
        assert_eq!(
            tables.try_create_row("t", key).unwrap_err(),
            refusal(operation, key)
        );
    }
    assert_eq!(tables.next_ordinal(), 7);
    assert_eq!(operations(tables), vec![1, 4, 2, 3, 1, 1]);
}

#[test]
fn refused_upserts() {
    let mut tables = tables_of_each_operation();
    assert!(tables.try_upsert_row("t", "new").is_ok());
    assert!(tables.try_upsert_row("t", "upserted").is_ok());
    for (key, operation) in [
        ("created", Operation::Create),
        ("updated", Operation::Update),
        ("deleted", Operation::Delete),
    ] {
        assert_eq!(
            tables.try_upsert_row("t", key).unwrap_err(),
            refusal(operation, key)
        );
    }
    assert_eq!(operations(tables), vec![1, 4, 2, 3, 4]);
}

#[test]
fn refused_updates() {
    let mut tables = tables_of_each_operation();
    for key in ["new", "created", "upserted", "updated"] {
        tables.try_update_row("t", key).unwrap().set("a", 1);
    }
    assert_eq!(
        tables.try_update_row("t", "deleted").unwrap_err(),
        refusal(Operation::Delete, "deleted")
    );
    assert_eq!(operations(tables), vec![1, 4, 2, 3, 2]);
}

#[test]
fn other_rows_stay_as_they_are() {
    let mut tables = Tables::new();
    tables.create_row("t", "k").set("a", 1);
    tables.create_row("u", "k").set("a", 2);
    tables.create_row("t", "l").set("a", 3);
    tables.delete_row("t", "k");
    let changes = tables.to_database_changes().table_changes;
    assert_eq!(changes.len(), 2);
    assert_eq!((changes[0].table.as_str(), changes[0].ordinal), ("u", 1));
    assert_eq!(changes[0].fields[0].new_value, "2");
    assert_eq!((changes[1].table.as_str(), changes[1].ordinal), ("t", 2));
    assert_eq!(changes[1].fields[0].new_value, "3");
}

#[test]
fn rows_and_ordinals() {
    let mut tables = tables_of_each_operation();
    assert_eq!(tables.all_row_count(), 4);
    tables.update_row("t", "updated");
    tables.delete_row("u", "deleted");
    tables.delete_row("t", "created");
    assert_eq!(tables.all_row_count(), 5);
    assert_eq!(tables.next_ordinal(), 7);
    let changes = tables.to_database_changes().table_changes;
    let ordinals: Vec<u64> = changes.iter().map(|change| change.ordinal).collect();
    assert_eq!(ordinals, vec![1, 2, 3, 5]);
}

#[test]
fn changes_are_determined() {
    let fill = |flip: bool| {
        let mut tables = Tables::new();
        tables.upsert_row("b", "x");
        let key = if flip {
            PrimaryKey::from([("m", "1"), ("n", "2")])
        } else {
            PrimaryKey::from([("n", "2"), ("m", "1")])
        };
        tables.create_row("a", key);
        tables.delete_row("b", "y");
        tables.to_database_changes()
    };
    assert_eq!(fill(true), fill(false));
}
