use csv_sql_inference::{infer_schema, SchemaError, SqlType};
use std::time::Instant;

fn owned(names: &[&str]) -> Vec<String> {
    names.iter().map(|s| s.to_string()).collect()
}

#[test]
fn test_infer_schema_simple() {
    let csv_data = "name,age,city\nAlice,30,New York\nBob,24,London";
    let (headers, types) = infer_schema(csv_data).unwrap();

    assert_eq!(headers, owned(&["name", "age", "city"]));
    assert_eq!(
        types,
        vec![
            SqlType::Varchar(5), // alice
            SqlType::Integer,    // 30, 24
            SqlType::Varchar(8)  // new york
        ]
    );
}

#[test]
fn test_infer_schema_mixed_types() {
    let csv_data = "id,value,timestamp_val\n1,10.5,2023-01-01 10:00:00\n2,20,2023-01-02 12:00:00";
    let (headers, types) = infer_schema(csv_data).unwrap();

    assert_eq!(headers, owned(&["id", "value", "timestamp_val"]));
    // for "value" column: ["10.5", "20"] -> has_float=true, has_integer=true -> float
    assert_eq!(types, vec![SqlType::Integer, SqlType::Float, SqlType::Datetime]);
}

#[test]
fn test_infer_schema_with_date() {
    let csv_data = "event,date\nMeeting,2023-05-01\nConference,2023-06-15";
    let (headers, types) = infer_schema(csv_data).unwrap();

    assert_eq!(headers, owned(&["event", "date"]));
    assert_eq!(
        types,
        vec![
            SqlType::Varchar(10), // conference
            SqlType::Date
        ]
    );
}

#[test]
fn test_infer_schema_empty_values() {
    // empty strings are treated as nulls, allowing other values to determine the type.
    let csv_data = "name,age,score\nAlice,,100\nBob,24,\nCharlie,30,90.5";
    let (headers, types) = infer_schema(csv_data).unwrap();

    assert_eq!(headers, owned(&["name", "age", "score"]));
    assert_eq!(
        types,
        vec![
            SqlType::Varchar(7), // charlie
            SqlType::Integer,    // age column: ["", "24", "30"] -> integer
            SqlType::Float       // score column: ["100", "", "90.5"] -> float
        ]
    );
}

#[test]
fn test_infer_schema_only_headers() {
    let csv_data = "col1,col2,col3\n";
    let (headers, types) = infer_schema(csv_data).unwrap();

    assert_eq!(headers, owned(&["col1", "col2", "col3"]));
    assert_eq!(
        types,
        vec![SqlType::Varchar(0), SqlType::Varchar(0), SqlType::Varchar(0)]
    );
}

#[test]
fn test_infer_schema_empty_input() {
    let csv_data = "";
    // expect an error because csv headers cannot be read from empty input
    assert!(infer_schema(csv_data).is_err());
}

#[test]
fn test_infer_schema_malformed_csv_records() {
    // the second record has too few fields; the mismatch must surface as an
    // error and never reach the classifier
    let csv_data = "header1,header2\nval1\nval3,val4";
    let result = infer_schema(csv_data);
    assert!(result.is_err());
    assert_eq!(result.unwrap_err(), SchemaError::MalformedRow);
}

#[test]
fn test_infer_schema_performance_many_rows() {
    let num_rows = 1_000_000;
    let mut csv_data_str = String::with_capacity(num_rows * 50); // pre-allocate for rough estimate
    csv_data_str.push_str("id,name,value,timestamp,flag\n");

    let sample_rows_templates = [
        "{},Alice,10.5,2023-01-01 10:00:00,true\n",
        "{},Bob,20,2023-01-02 12:00:00,false\n",
        "{},Charlie,3000000000,2023-01-03 14:30:00,true\n",
        "{},David,,2023-01-04 16:00:00,false\n", // empty value for "value"
        "{},Eve,5.0,invalid-date,true\n",        // invalid date for "timestamp"
    ];

    for i in 0..num_rows {
        let id = i + 1;
        let row_template = sample_rows_templates[i % sample_rows_templates.len()];
        csv_data_str.push_str(&row_template.replace("{}", &id.to_string()));
    }

    let start_time = Instant::now();
    let result = infer_schema(&csv_data_str);
    let duration = start_time.elapsed();

    assert!(result.is_ok(), "schema inference failed for {} rows: {:?}", num_rows, result.err());
    let (headers, types) = result.unwrap();

    // use `cargo test -- --nocapture` to see this output
    println!("\nperformance test: inferred schema for {} data rows in {:?}", num_rows, duration);

    let expected_headers: Vec<String> =
        ["id", "name", "value", "timestamp", "flag"].iter().map(|s| s.to_string()).collect();
    assert_eq!(headers, expected_headers);

    let expected_types = vec![
        SqlType::Integer,     // id (all unique integers)
        SqlType::Varchar(7),  // name (charlie)
        SqlType::Float,       // value (mix of int, bigint, float, empty strings -> float)
        SqlType::Varchar(19), // timestamp (datetime format, forced varchar by "invalid-date")
        SqlType::Boolean,     // flag ("true", "false", etc.)
    ];
    assert_eq!(types, expected_types);
}
