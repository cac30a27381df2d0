use rustabase::command::{CommandError, DeleteCommand};
use rustabase::key::{DatabaseKey};
use rustabase::table::{Table, TableError};
use rustabase::value::{ColumnType, Value};

fn prepare_test_table() -> Table<i64> {
    let mut table = Table::new_builder("Products".to_string(), "ProductId".to_string())
        .with_column("Name".to_string(), ColumnType::STRING)
        .build()
        .unwrap();

    table
        .insert(
            vec!["ProductId".to_string(), "Name".to_string()],
            vec![Value::INT(1), Value::STRING("Laptop".to_string())],
        )
        .unwrap();

    table
}

#[test]
fn delete_command_success_test() {
    let mut table = prepare_test_table();
    let key_to_delete = 1;

    assert_eq!(table.filter(|_| true).len(), 1);

    let command = DeleteCommand {
        table: &mut table,
        key: key_to_delete,
    };

    let result = command.execute();

    assert!(result.is_ok());

    assert_eq!(table.filter(|_| true).len(), 0);
}

#[test]
fn delete_command_key_not_found_error_test() {
    let mut table = prepare_test_table();

    let missing_key = 101;

    let command = DeleteCommand {
        table: &mut table,
        key: missing_key,
    };

    let result = command.execute();

    assert!(result.is_err());

    assert_eq!(
        result.unwrap_err(),
        CommandError::TableError(TableError::KeyNotFoundError(
            missing_key.to_value()
        ))
    );
    assert_eq!(table.filter(|_| true).len(), 1);
}
