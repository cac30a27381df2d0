use rustabase::command::{
    CommandError, CommandResult, CreateCommand, DeleteCommand, InsertCommand, ReadFromCommand,
    SaveAsCommand, SelectCommand,
};
use rustabase::database::Database;
use rustabase::diplomacy::{Diplomacy, RelationStatus};
use rustabase::filter::{And, AnyWhereFilter, NoOpWhereFilter, Or, ValueOperatorFilter};
use rustabase::record::Record;
use rustabase::table::{Table, TableError};
use rustabase::value::{ColumnType, Value};

fn users_db() -> Database<i64> {
    let mut db = Database::<i64>::new();
    CreateCommand {
        database: &mut db,
        table_name: "Users".to_string(),
        key_name: "UserId".to_string(),
        fields: vec!["Name".to_string(), "Age".to_string()],
        types: vec![ColumnType::STRING, ColumnType::INT],
    }
    .execute()
    .unwrap();
    db
}

fn insert_user(db: &mut Database<i64>, id: i64, name: &str, age: i64) -> Result<CommandResult, CommandError> {
    let table = db.get_table("Users").unwrap();
    InsertCommand {
        table,
        fields: vec!["UserId".to_string(), "Name".to_string(), "Age".to_string()],
        values: vec![Value::INT(id), Value::STRING(name.to_string()), Value::INT(age)],
    }
    .execute()
}

fn value_filter(column: &str, op: &str, value: Value) -> AnyWhereFilter {
    ValueOperatorFilter { column_name: column.to_string(), op: op.to_string(), value }.to_enum()
}

fn rows_of(result: CommandResult) -> (Vec<String>, Vec<Vec<Value>>) {
    match result {
        CommandResult::RecordValueList(cols, rows) => (cols, rows),
        _ => panic!("expected a record value list"),
    }
}

#[test]
fn create_insert_select_scenario() {
    let mut db = users_db();
    assert!(matches!(insert_user(&mut db, 1, "Alice", 30), Ok(CommandResult::Void)));
    let table = db.get_table("Users").unwrap();
    let result = SelectCommand::new(
        table,
        vec!["Name".to_string(), "Age".to_string()],
        NoOpWhereFilter {}.to_enum(),
    )
    .execute()
    .unwrap();
    let (cols, rows) = rows_of(result);
    assert_eq!(cols, vec!["Name".to_string(), "Age".to_string()]);
    assert_eq!(rows, vec![vec![Value::STRING("Alice".to_string()), Value::INT(30)]]);
}

#[test]
fn select_where_scenario() {
    let mut db = users_db();
    insert_user(&mut db, 1, "Alice", 30).unwrap();
    insert_user(&mut db, 2, "Bob", 20).unwrap();
    let table = db.get_table("Users").unwrap();
    let result = SelectCommand::new(
        table,
        vec!["Name".to_string()],
        value_filter("Age", ">", Value::INT(25)),
    )
    .execute()
    .unwrap();
    let (_, rows) = rows_of(result);
    assert_eq!(rows, vec![vec![Value::STRING("Alice".to_string())]]);
}

#[test]
fn delete_then_select_scenario() {
    let mut db = users_db();
    insert_user(&mut db, 1, "Alice", 30).unwrap();
    let table = db.get_table("Users").unwrap();
    let deleted = DeleteCommand { table: &mut *table, key: 1 }.execute().unwrap();
    assert!(matches!(deleted, CommandResult::Void));
    let result = SelectCommand::new(table, vec!["Name".to_string()], NoOpWhereFilter {}.to_enum())
        .execute()
        .unwrap();
    let (_, rows) = rows_of(result);
    assert_eq!(rows.len(), 0);
}

#[test]
fn save_and_read_back_commands() {
    let lines = vec![
        "CREATE Users KEY UserId FIELDS Name:STRING, Age:INT".to_string(),
        "INSERT UserId=1, Name=\"Alice\", Age=30 INTO Users".to_string(),
    ];
    let save = SaveAsCommand { file_name: "journal.txt".to_string(), lines: &lines };
    let text = save.contents();
    assert_eq!(
        text,
        "CREATE Users KEY UserId FIELDS Name:STRING, Age:INT\nINSERT UserId=1, Name=\"Alice\", Age=30 INTO Users\n"
    );
    let read = ReadFromCommand { file_name: "journal.txt".to_string() };
    match read.commands(&text) {
        CommandResult::CommandList(back) => assert_eq!(back, lines),
        _ => panic!("expected a command list"),
    }
}

#[test]
fn read_trims_lines_and_skips_blank_ones() {
    let read = ReadFromCommand { file_name: "f".to_string() };
    match read.commands("  SELECT a FROM t \r\n\n\t\nDELETE 1 FROM t") {
        CommandResult::CommandList(back) => {
            assert_eq!(back, vec!["SELECT a FROM t".to_string(), "DELETE 1 FROM t".to_string()])
        },
        _ => panic!("expected a command list"),
    }
    match read.commands("") {
        CommandResult::CommandList(back) => assert!(back.is_empty()),
        _ => panic!("expected a command list"),
    }
}

#[test]
fn replaying_a_journal_rebuilds_the_table() {
    let mut first = users_db();
    insert_user(&mut first, 2, "Bob", 20).unwrap();
    insert_user(&mut first, 1, "Alice", 30).unwrap();
    let mut second = users_db();
    insert_user(&mut second, 1, "Alice", 30).unwrap();
    insert_user(&mut second, 2, "Bob", 20).unwrap();
    let select = |db: &mut Database<i64>| {
        let table = db.get_table("Users").unwrap();
        rows_of(
            SelectCommand::new(
                table,
                vec!["UserId".to_string(), "Name".to_string(), "Age".to_string()],
                NoOpWhereFilter {}.to_enum(),
            )
            .execute()
            .unwrap(),
        )
    };
    assert_eq!(select(&mut first), select(&mut second));
}

#[test]
fn defining_a_column_twice_reports_both_types() {
    let built = Table::<i64>::new_builder("T".to_string(), "Id".to_string())
        .with_column("A".to_string(), ColumnType::INT)
        .with_column("B".to_string(), ColumnType::BOOL)
        .with_column("A".to_string(), ColumnType::STRING)
        .build();
    assert_eq!(
        built.unwrap_err(),
        TableError::ColumnDefinedTwiceError {
            column_name: "A".to_string(),
            first_type: ColumnType::INT,
            second_type: ColumnType::STRING,
        }
    );
    let key_twice = Table::<i64>::new_builder("T".to_string(), "Id".to_string())
        .with_column("Id".to_string(), ColumnType::FLOAT)
        .build();
    assert_eq!(
        key_twice.unwrap_err(),
        TableError::ColumnDefinedTwiceError {
            column_name: "Id".to_string(),
            first_type: ColumnType::FLOAT,
            second_type: ColumnType::INT,
        }
    );
}

#[test]
fn insert_lists_every_missing_column() {
    let mut table = Table::<i64>::new_builder("T".to_string(), "Id".to_string())
        .with_column("A".to_string(), ColumnType::INT)
        .with_column("B".to_string(), ColumnType::INT)
        .with_column("C".to_string(), ColumnType::INT)
        .build()
        .unwrap();
    let result = table.insert(vec!["Id".to_string(), "B".to_string()], vec![Value::INT(1), Value::INT(2)]);
    assert_eq!(
        result.unwrap_err(),
        TableError::InsertMissingColumnsError(vec!["A".to_string(), "C".to_string()])
    );
    let without_key = table.insert(vec!["B".to_string()], vec![Value::INT(2)]);
    assert_eq!(
        without_key.unwrap_err(),
        TableError::InsertMissingColumnsError(vec!["A".to_string(), "C".to_string(), "Id".to_string()])
    );
    let mismatch = table.insert(vec!["Id".to_string()], vec![]);
    assert_eq!(mismatch.unwrap_err(), TableError::InsertNotMatchingArgsLengthError);
}

#[test]
fn second_insert_under_a_key_is_refused() {
    let mut db = users_db();
    insert_user(&mut db, 7, "Alice", 30).unwrap();
    let again = insert_user(&mut db, 7, "Eve", 40);
    assert_eq!(
        again.unwrap_err(),
        CommandError::TableError(TableError::PrimaryKeyConstraintViolation(Value::INT(7)))
    );
    let table = db.get_table("Users").unwrap();
    assert_eq!(table.record_count(), 1);
    assert_eq!(
        table.get_record(&7).unwrap().get_value("Name").unwrap(),
        &Value::STRING("Alice".to_string())
    );
}

#[test]
fn type_mismatch_leaves_the_table_unchanged() {
    let mut db = users_db();
    insert_user(&mut db, 1, "Alice", 30).unwrap();
    let table = db.get_table("Users").unwrap();
    let result = table.insert(
        vec!["UserId".to_string(), "Name".to_string(), "Age".to_string()],
        vec![Value::INT(2), Value::BOOL(true), Value::INT(3)],
    );
    assert_eq!(
        result.unwrap_err(),
        TableError::InsertInvalidColumnTypeError {
            column_name: "Name".to_string(),
            expected_type: ColumnType::STRING,
            got_type: ColumnType::BOOL,
        }
    );
    assert_eq!(table.record_count(), 1);
    assert!(table.get_record(&2).is_none());
}

#[test]
fn same_column_twice_in_an_insert_is_a_record_error() {
    let mut table = Table::<i64>::new_builder("T".to_string(), "Id".to_string())
        .with_column("A".to_string(), ColumnType::INT)
        .build()
        .unwrap();
    let result = table.insert(
        vec!["Id".to_string(), "A".to_string(), "A".to_string()],
        vec![Value::INT(1), Value::INT(2), Value::INT(3)],
    );
    assert_eq!(
        result.unwrap_err(),
        TableError::RecordError(rustabase::record::RecordError::ColumnDefinedTwiceError {
            column_name: "A".to_string(),
            first_value: Value::INT(2),
            second_value: Value::INT(3),
        })
    );
    assert_eq!(table.record_count(), 0);
}

#[test]
fn deleting_a_missing_key_changes_nothing() {
    let mut db = users_db();
    insert_user(&mut db, 1, "Alice", 30).unwrap();
    insert_user(&mut db, 2, "Bob", 20).unwrap();
    let table = db.get_table("Users").unwrap();
    assert_eq!(table.delete(5).unwrap_err(), TableError::KeyNotFoundError(Value::INT(5)));
    assert_eq!(table.record_count(), 2);
    table.delete(1).unwrap();
    assert_eq!(table.record_count(), 1);
    assert!(table.get_record(&1).is_none());
    assert!(table.get_record(&2).is_some());
}

#[test]
fn wrongly_typed_where_fails_even_without_matches() {
    let mut db = users_db();
    insert_user(&mut db, 1, "Alice", 30).unwrap();
    let table = db.get_table("Users").unwrap();
    let result = SelectCommand::new(
        table,
        vec!["Name".to_string()],
        value_filter("Age", "=", Value::STRING("thirty".to_string())),
    )
    .execute();
    assert_eq!(
        result.unwrap_err(),
        CommandError::InvalidValueError {
            column_name: "Age".to_string(),
            expected_type: "INT".to_string(),
            got_type: "STRING".to_string(),
        }
    );
}

#[test]
fn where_on_an_empty_table_validates_trivially() {
    let mut db = users_db();
    let table = db.get_table("Users").unwrap();
    let result = SelectCommand::new(
        table,
        vec!["Name".to_string()],
        value_filter("Nope", "??", Value::BOOL(true)),
    )
    .execute()
    .unwrap();
    assert_eq!(rows_of(result).1.len(), 0);
}

#[test]
fn filter_algebra_on_a_record() {
    let record = Record::new_builder()
        .with_column("Age".to_string(), Value::INT(30))
        .build()
        .unwrap();
    let yes = || value_filter("Age", ">=", Value::INT(30));
    let no = || value_filter("Age", "<", Value::INT(30));
    let and = And { filters: vec![yes().to_box(), no().to_box()] }.to_enum();
    let or = Or { filters: vec![no().to_box(), yes().to_box()] }.to_enum();
    assert!(!and.filter_record(&record));
    assert!(or.filter_record(&record));
    assert!(NoOpWhereFilter {}.to_enum().filter_record(&record));
    assert!(And { filters: vec![] }.to_enum().filter_record(&record));
    assert!(!Or { filters: vec![] }.to_enum().filter_record(&record));
}

#[test]
fn operators_compare_as_documented() {
    let record = Record::new_builder()
        .with_column("S".to_string(), Value::STRING("b".to_string()))
        .with_column("F".to_string(), Value::FLOAT((1.5f64).to_bits()))
        .with_column("N".to_string(), Value::FLOAT(f64::NAN.to_bits()))
        .with_column("B".to_string(), Value::BOOL(false))
        .build()
        .unwrap();
    let check = |c: &str, op: &str, v: Value| value_filter(c, op, v).filter_record(&record);
    assert!(check("S", ">", Value::STRING("abc".to_string())));
    assert!(check("S", "<", Value::STRING("ba".to_string())));
    assert!(check("S", "!=", Value::STRING("B".to_string())));
    assert!(check("F", "<", Value::FLOAT((2.0f64).to_bits())));
    assert!(check("F", ">", Value::FLOAT((-3.0f64).to_bits())));
    assert!(check("F", ">=", Value::FLOAT((1.5f64).to_bits())));
    assert!(!check("N", "=", Value::FLOAT(f64::NAN.to_bits())));
    assert!(check("N", "!=", Value::FLOAT(f64::NAN.to_bits())));
    assert!(!check("N", "<=", Value::FLOAT((0.0f64).to_bits())));
    assert!(check("B", "<", Value::BOOL(true)));
    assert!(!check("B", "><", Value::BOOL(true)));
    assert!(!check("B", "=", Value::INT(0)));
}

#[test]
fn zero_floats_compare_equal() {
    let record = Record::new_builder()
        .with_column("Z".to_string(), Value::FLOAT((0.0f64).to_bits()))
        .build()
        .unwrap();
    assert!(value_filter("Z", "=", Value::FLOAT((-0.0f64).to_bits())).filter_record(&record));
}

#[test]
fn string_keys_are_kept_in_order() {
    let mut db = Database::<String>::new();
    db.create_table("T".to_string(), "K".to_string(), vec!["V".to_string()], vec![ColumnType::INT])
        .unwrap();
    let table = db.get_table("T").unwrap();
    for (k, v) in [("pear", 1), ("apple", 2), ("fig", 3)] {
        table
            .insert(vec!["K".to_string(), "V".to_string()], vec![Value::STRING(k.to_string()), Value::INT(v)])
            .unwrap();
    }
    let result = SelectCommand::new(table, vec!["K".to_string()], NoOpWhereFilter {}.to_enum())
        .execute()
        .unwrap();
    let keys: Vec<Value> = rows_of(result).1.into_iter().map(|r| r[0].clone()).collect();
    assert_eq!(
        keys,
        vec![
            Value::STRING("apple".to_string()),
            Value::STRING("fig".to_string()),
            Value::STRING("pear".to_string())
        ]
    );
    let dup = table.insert(vec!["K".to_string(), "V".to_string()], vec![Value::STRING("fig".to_string()), Value::INT(9)]);
    assert_eq!(dup.unwrap_err(), TableError::PrimaryKeyConstraintViolation(Value::STRING("fig".to_string())));
}

#[test]
fn create_fields_and_types_pair_up_to_the_shorter_list() {
    let mut db = Database::<i64>::new();
    db.create_table(
        "T".to_string(),
        "Id".to_string(),
        vec!["A".to_string(), "B".to_string()],
        vec![ColumnType::BOOL],
    )
    .unwrap();
    let table = db.get_table("T").unwrap();
    assert_eq!(table.column_type("A"), Some(ColumnType::BOOL));
    assert_eq!(table.column_type("B"), None);
    assert_eq!(table.column_type("Id"), Some(ColumnType::INT));
}

#[test]
fn diplomacy_relations_are_symmetric() {
    let mut d = Diplomacy::new();
    assert_eq!(d.get_relation(1, 2), RelationStatus::Neutral);
    d.set_relation(2, 1, RelationStatus::AtWar);
    assert_eq!(d.get_relation(1, 2), RelationStatus::AtWar);
    assert_eq!(d.get_relation(2, 1), RelationStatus::AtWar);
    assert_eq!(d.get_relation(1, 3), RelationStatus::Neutral);
    d.set_relation(1, 2, RelationStatus::Neutral);
    assert_eq!(d.get_relation(2, 1), RelationStatus::Neutral);
    assert_eq!(RelationStatus::AtWar.to_str(), "At war");
    assert_eq!(RelationStatus::Neutral.to_str(), "Neutral");
}
