use rustabase::value::{Value};
use rustabase::record::{Record, RecordError};

#[test]
fn value_type_name_tests() {
    let v1 = Value::BOOL(false);
    let v2 = Value::INT(14);
    let v3 = Value::FLOAT((2.5f64).to_bits());
    let v4 = Value::STRING("Test str".to_string());

    assert_eq!(v1.type_keyword(), String::from("BOOL"));
    assert_eq!(v2.type_keyword(), String::from("INT"));
    assert_eq!(v3.type_keyword(), String::from("FLOAT"));
    assert_eq!(v4.type_keyword(), String::from("STRING"));
}

#[test]
fn value_type_true_comparison_test() {
    let v1 = Value::BOOL(false);
    let v2 = Value::INT(14);
    let v3 = Value::FLOAT((2.5f64).to_bits());
    let v4 = Value::STRING("Test str".to_string());

    let v5 = Value::BOOL(true);
    let v6 = Value::INT(15);
    let v7 = Value::FLOAT((3.5f64).to_bits());
    let v8 = Value::STRING("Test str 2".to_string());

    assert!(v1.is_the_same_type_as(&v5));
    assert!(v2.is_the_same_type_as(&v6));
    assert!(v3.is_the_same_type_as(&v7));
    assert!(v4.is_the_same_type_as(&v8));
}

#[test]
fn value_type_false_comparison_test() {
    let v1 = Value::BOOL(false);
    let v2 = Value::INT(14);
    let v3 = Value::FLOAT((2.5f64).to_bits());
    let v4 = Value::STRING("Test str".to_string());

    let v5 = Value::BOOL(true);
    let v6 = Value::INT(15);
    let v7 = Value::FLOAT((3.5f64).to_bits());
    let v8 = Value::STRING("Test str 2".to_string());

    assert!(!v1.is_the_same_type_as(&v6));
    assert!(!v1.is_the_same_type_as(&v7));
    assert!(!v1.is_the_same_type_as(&v8));

    assert!(!v2.is_the_same_type_as(&v5));
    assert!(!v2.is_the_same_type_as(&v7));
    assert!(!v2.is_the_same_type_as(&v8));

    assert!(!v3.is_the_same_type_as(&v5));
    assert!(!v3.is_the_same_type_as(&v6));
    assert!(!v3.is_the_same_type_as(&v8));

    assert!(!v4.is_the_same_type_as(&v5));
    assert!(!v4.is_the_same_type_as(&v6));
    assert!(!v4.is_the_same_type_as(&v7));
}

#[test]
fn record_building_test() {
    let record = Record::new_builder()
        .with_column("Name".into(), Value::STRING(String::from("John")))
        .with_column("Age".into(), Value::INT(24))
        .with_column("Married".into(), Value::BOOL(false))
        .with_column("Result".into(), Value::FLOAT((0.75f64).to_bits()))
        .build()
        .unwrap();

    assert_eq!(
        *record.get_value("Name").unwrap(),
        Value::STRING(String::from("John"))
    );

    assert_eq!(*record.get_value("Age").unwrap(), Value::INT(24));
    assert_eq!(*record.get_value("Married").unwrap(), Value::BOOL(false));
    assert_eq!(*record.get_value("Result").unwrap(), Value::FLOAT((0.75f64).to_bits()));

    assert_eq!(
        record.get_value("Surname").err(),
        Some(RecordError::InvalidColumnNameError(String::from("Surname")))
    );
}

#[test]
fn record_building_failure_test() {
    let record = Record::new_builder()
        .with_column("Name".into(), Value::STRING(String::from("John")))
        .with_column("Name".into(), Value::INT(24))
        .with_column("Married".into(), Value::BOOL(false))
        .with_column("Result".into(), Value::FLOAT((0.75f64).to_bits()))
        .build();

    assert!(record.is_err());

    let err = record.unwrap_err();

    assert_eq!(
        err,
        RecordError::ColumnDefinedTwiceError {
            column_name: "Name".to_string(),
            first_value: Value::STRING(String::from("John")),
            second_value: Value::INT(24)
        }
    );
}

#[test]
fn record_get_value_success_test() {
    let record = Record::new_builder()
        .with_column("A".into(), Value::INT(10))
        .with_column("B".into(), Value::STRING("Hello".to_string()))
        .build()
        .unwrap();

    assert_eq!(*record.get_value("A").unwrap(), Value::INT(10));
    assert_eq!(
        *record.get_value("B").unwrap(),
        Value::STRING("Hello".to_string())
    );
}

#[test]
fn record_get_value_failure_test() {
    let record = Record::new_builder().build().unwrap();

    assert_eq!(
        record.get_value("Missing").unwrap_err(),
        RecordError::InvalidColumnNameError("Missing".to_string())
    );
}

#[test]
fn record_get_values_success_test() {
    let record = Record::new_builder()
        .with_column("ID".into(), Value::INT(1))
        .with_column("Status".into(), Value::STRING("Active".to_string()))
        .with_column("Price".into(), Value::FLOAT((99.99f64).to_bits()))
        .build()
        .unwrap();

    let column_names = vec!["Status", "Price"];
    let expected_values = vec![Value::STRING("Active".to_string()), Value::FLOAT((99.99f64).to_bits())];

    let result = record.get_values(&column_names);

    assert!(result.is_ok());
    assert_eq!(result.unwrap(), expected_values);
}

#[test]
fn record_get_values_failure_test() {
    let record = Record::new_builder()
        .with_column("ID".into(), Value::INT(1))
        .with_column("Status".into(), Value::STRING("Active".to_string()))
        .build()
        .unwrap();

    let column_names = vec!["ID", "Missing1", "Status", "Missing2"];

    let result = record.get_values(&column_names);

    assert!(result.is_err());
    let err = result.unwrap_err();

    assert!(matches!(err, RecordError::InvalidColumnNameError(_)));

    let error_name = if let RecordError::InvalidColumnNameError(name) = err {
        name
    } else {
        panic!("Expected InvalidColumnNameError");
    };

    assert!(error_name == "Missing1" || error_name == "Missing2");
}
