use rustabase::table::{Table, TableError};
use rustabase::value::{ColumnType, Value};

fn prepare_test_table() -> Table<i64> {
    let table: Table<i64> = Table::new_builder("Orders".to_string(), "OrderId".to_string())
        .with_column("ClientName".to_string(), ColumnType::STRING)
        .with_column("Capacity".to_string(), ColumnType::INT)
        .build()
        .unwrap();
    table
}

#[test]
fn table_creation_test() {
    let table = prepare_test_table();

    assert_eq!(table.get_name(), "Orders".to_string());
    assert_eq!(table.get_key_name(), "OrderId".to_string());
    assert_eq!(table.record_count(), 0);
    assert_eq!(table.get_columns().len(), 3);
    assert!(table.column_type("ClientName").is_some() && table.column_type("Capacity").is_some());
    assert_eq!(
        table.column_type("ClientName").unwrap(),
        ColumnType::STRING
    );
    assert_eq!(table.column_type("Capacity").unwrap(), ColumnType::INT);
}

#[test]
fn table_creation_fail_test() {
    let table = Table::<i64>::new_builder("Orders".to_string(), "OrderId".to_string())
        .with_column("ClientName".to_string(), ColumnType::STRING)
        .with_column("ClientName".to_string(), ColumnType::FLOAT)
        .build();

    assert!(table.is_err());
    assert_eq!(
        table.unwrap_err(),
        TableError::ColumnDefinedTwiceError {
            column_name: "ClientName".to_string(),
            first_type: ColumnType::STRING,
            second_type: ColumnType::FLOAT
        }
    )
}

#[test]
fn table_insert_fail_test() {
    let mut table = prepare_test_table();

    let missing_col_result = table.insert(
        vec!["OrderId".to_string(), "ClientName".to_string()],
        vec![Value::INT(1), Value::STRING("Test".to_string())],
    );
    assert!(missing_col_result.is_err());
    assert_eq!(
        missing_col_result.unwrap_err(),
        TableError::InsertMissingColumnsError(vec!["Capacity".to_string()])
    );

    let missing_key_result = table.insert(
        vec!["ClientName".to_string(), "Capacity".to_string()],
        vec![Value::STRING("Test".to_string()), Value::INT(100)],
    );
    assert!(missing_key_result.is_err());
    assert_eq!(
        missing_key_result.unwrap_err(),
        TableError::InsertMissingColumnsError(vec!["OrderId".to_string()])
    );

    let invalid_type_result = table.insert(
        vec![
            "OrderId".to_string(),
            "ClientName".to_string(),
            "Capacity".to_string(),
        ],
        vec![
            Value::INT(1),
            Value::STRING("Test".to_string()),
            Value::STRING("NotAnInt".to_string()),
        ],
    );
    assert!(invalid_type_result.is_err());
    assert_eq!(
        invalid_type_result.unwrap_err(),
        TableError::InsertInvalidColumnTypeError {
            column_name: "Capacity".to_string(),
            expected_type: ColumnType::INT,
            got_type: ColumnType::STRING
        }
    );

    let invalid_key_type_result = table.insert(
        vec![
            "OrderId".to_string(),
            "ClientName".to_string(),
            "Capacity".to_string(),
        ],
        vec![
            Value::STRING("BadKey".to_string()),
            Value::STRING("Test".to_string()),
            Value::INT(100),
        ],
    );
    assert!(invalid_key_type_result.is_err());
    assert_eq!(
        invalid_key_type_result.unwrap_err(),
        TableError::InsertInvalidColumnTypeError {
            column_name: "OrderId".to_string(),
            expected_type: ColumnType::INT,
            got_type: ColumnType::STRING
        }
    );

    let invalid_name_result = table.insert(
        vec![
            "OrderId".to_string(),
            "ClientName".to_string(),
            "NonExistentColumn".to_string(),
            "Capacity".to_string(),
        ],
        vec![
            Value::INT(1),
            Value::STRING("A".to_string()),
            Value::INT(1),
            Value::INT(100),
        ],
    );
    assert!(invalid_name_result.is_err());
    assert_eq!(
        invalid_name_result.unwrap_err(),
        TableError::InvalidColumnNameError("NonExistentColumn".to_string())
    );
}

#[test]
fn table_delete_test() {
    let mut table = prepare_test_table();
    let key_1: i64 = 100;
    let key_2: i64 = 200;

    let insert_result = table.insert(
        vec![
            "OrderId".to_string(),
            "ClientName".to_string(),
            "Capacity".to_string(),
        ],
        vec![
            Value::INT(key_1),
            Value::STRING("ABC Corp".to_string()),
            Value::INT(100),
        ],
    );

    assert!(insert_result.is_ok());

    let insert_result_2 = table.insert(
        vec![
            "OrderId".to_string(),
            "Capacity".to_string(),
            "ClientName".to_string(),
        ],
        vec![
            Value::INT(key_2),
            Value::INT(200),
            Value::STRING("XYZ Inc".to_string()),
        ],
    );
    assert!(insert_result_2.is_ok());

    assert_eq!(table.record_count(), 2);

    let delete_result = table.delete(key_1);
    assert!(delete_result.is_ok());
    assert_eq!(table.record_count(), 1);
    assert!(!table.get_record(&key_1).is_some());

    let not_found_result = table.delete(key_1);
    assert!(not_found_result.is_err());
    assert_eq!(
        not_found_result.unwrap_err(),
        TableError::KeyNotFoundError(Value::INT(key_1))
    );

    let delete_result_2 = table.delete(key_2);
    assert!(delete_result_2.is_ok());
    assert_eq!(table.record_count(), 0);
    assert!(!table.get_record(&key_2).is_some());
}

#[test]
fn table_insert_test() {
    {
        let mut table = prepare_test_table();
        let key_1 = 1;
        let key_2 = 2;

        let insert_result = table.insert(
            vec![
                "OrderId".to_string(),
                "ClientName".to_string(),
                "Capacity".to_string(),
            ],
            vec![
                Value::INT(key_1),
                Value::STRING("ABC Corp".to_string()),
                Value::INT(100),
            ],
        );

        assert!(insert_result.is_ok());
        assert_eq!(table.record_count(), 1);
        assert!(table.get_record(&key_1).is_some());

        let insert_result_2 = table.insert(
            vec![
                "OrderId".to_string(),
                "Capacity".to_string(),
                "ClientName".to_string(),
            ],
            vec![
                Value::INT(key_2),
                Value::INT(200),
                Value::STRING("XYZ Inc".to_string()),
            ],
        );
        assert!(insert_result_2.is_ok());
        assert_eq!(table.record_count(), 2);
        assert!(table.get_record(&key_2).is_some());

        let record = table.get_record(&key_1).unwrap();
        assert_eq!(
            record.get_value("ClientName").unwrap(),
            &Value::STRING("ABC Corp".to_string())
        );
        assert_eq!(record.get_value("Capacity").unwrap(), &Value::INT(100));
    }
}

#[test]
fn table_filter_test() {
    let mut table = prepare_test_table();

    table
        .insert(
            vec![
                "OrderId".to_string(),
                "ClientName".to_string(),
                "Capacity".to_string(),
            ],
            vec![
                Value::INT(1),
                Value::STRING("ABC Corp".to_string()),
                Value::INT(100),
            ],
        )
        .unwrap();

    table
        .insert(
            vec![
                "OrderId".to_string(),
                "ClientName".to_string(),
                "Capacity".to_string(),
            ],
            vec![
                Value::INT(2),
                Value::STRING("XYZ Inc".to_string()),
                Value::INT(50),
            ],
        )
        .unwrap();

    table
        .insert(
            vec![
                "OrderId".to_string(),
                "ClientName".to_string(),
                "Capacity".to_string(),
            ],
            vec![
                Value::INT(3),
                Value::STRING("Old Clients".to_string()),
                Value::INT(100),
            ],
        )
        .unwrap();

    // Filter by ClientName
    let results_name = table.filter(|record| {
        record
            .get_value("ClientName")
            .map(|v| v == &Value::STRING("XYZ Inc".to_string()))
            .unwrap_or(false)
    });

    assert_eq!(results_name.len(), 1);
    assert_eq!(
        results_name[0].get_value("ClientName").unwrap(),
        &Value::STRING("XYZ Inc".to_string())
    );

    let results_capacity = table.filter(|record| match record.get_value("Capacity") {
        Ok(Value::INT(c)) => *c > 50,
        _ => false,
    });

    assert_eq!(results_capacity.len(), 2);

    assert!(
        results_capacity
            .iter()
            .all(|r| r.get_value("Capacity").unwrap() == &Value::INT(100))
    );

    let results_none = table.filter(|record| {
        record
            .get_value("ClientName")
            .map(|v| v == &Value::STRING("Nonexistent".to_string()))
            .unwrap_or(false)
    });

    assert_eq!(results_none.len(), 0);

    let results_all = table.filter(|_| true);
    assert_eq!(results_all.len(), 3);
}
