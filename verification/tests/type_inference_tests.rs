use csv_sql_inference::{infer_sql_type, SqlType};

#[test]
fn test_infer_integer() {
    assert_eq!(infer_sql_type(&["1", "2", "300"]), SqlType::Integer);
    assert_eq!(infer_sql_type(&["-10", "0", "999"]), SqlType::Integer);
}

#[test]
fn test_infer_bigint() {
    assert_eq!(infer_sql_type(&["1", "2", "3000000000"]), SqlType::BigInt); // 3 bil > i32 max
    assert_eq!(infer_sql_type(&["-5000000000", "0"]), SqlType::BigInt);
    // all integers are also bigints, but integer is stricter
    assert_eq!(infer_sql_type(&["1", "2", "3"]), SqlType::Integer);
}

#[test]
fn test_infer_float() {
    assert_eq!(infer_sql_type(&["1.0", "2.5", "3.14"]), SqlType::Float);
    assert_eq!(infer_sql_type(&["-0.5", "1e5", "2.0"]), SqlType::Float);
}

#[test]
fn test_infer_float_mixed_with_int() {
    assert_eq!(infer_sql_type(&["1", "2.5", "3"]), SqlType::Float);
    assert_eq!(infer_sql_type(&["10000000000", "2.5"]), SqlType::Float); // bigint and float
}

#[test]
fn test_infer_date_strict() {
    // all values must be dates
    assert_eq!(infer_sql_type(&["2023-01-01", "2024-02-15"]), SqlType::Date);
    // mixed with non-date becomes varchar
    assert_eq!(
        infer_sql_type(&["2023-01-01", "text", "123"]),
        SqlType::Varchar(10) // "2023-01-01" is longest
    );
}

#[test]
fn test_infer_datetime_strict() {
    // all values must be datetimes
    assert_eq!(
        infer_sql_type(&["2023-01-01 10:00:00", "2024-02-15 23:59:59"]),
        SqlType::Datetime
    );
    // mixed with non-datetime becomes varchar
    assert_eq!(
        infer_sql_type(&["2023-01-01 10:00:00", "text", "123"]),
        SqlType::Varchar(19) // "2023-01-01 10:00:00" is longest
    );
}

#[test]
fn test_infer_mixed_date_and_datetime_is_varchar() {
    // with strict parsing for all elements, a mix of date and datetime strings becomes varchar
    assert_eq!(
        infer_sql_type(&["2023-01-01", "2023-01-01 12:00:00"]),
        SqlType::Varchar(19)
    );
    assert_eq!(
        infer_sql_type(&["2023-01-01 12:00:00", "2023-01-01"]),
        SqlType::Varchar(19)
    );
}

#[test]
fn test_infer_varchar() {
    // "hello" (len 5) and "world" (len 5) would be char(5).
    // for varchar, lengths must differ or type must not be char.
    assert_eq!(infer_sql_type(&["hello", "world!"]), SqlType::Varchar(6)); // different lengths
    assert_eq!(infer_sql_type(&["apple", "banana", "kiwi"]), SqlType::Varchar(6));
}

#[test]
fn test_infer_varchar_for_mixed_types() {
    // mixed types that don't all conform to a numeric or date/datetime type become varchar
    assert_eq!(infer_sql_type(&["1", "world"]), SqlType::Varchar(5));
    assert_eq!(infer_sql_type(&["1.1", "world"]), SqlType::Varchar(5));
    assert_eq!(infer_sql_type(&["2023-01-01", "world"]), SqlType::Varchar(10));
    // if only text or unparseable
    assert_eq!(infer_sql_type(&["text", "world"]), SqlType::Varchar(5));
}

#[test]
fn test_infer_empty_column_data() {
    assert_eq!(infer_sql_type(&[]), SqlType::Varchar(0));
}

#[test]
fn test_infer_column_with_empty_strings() {
    // empty strings are treated as nulls and do not dictate the type if other values are present.
    // if all values are empty strings, it's varchar(0).
    assert_eq!(infer_sql_type(&["", ""]), SqlType::Varchar(0));
    assert_eq!(infer_sql_type(&["a", ""]), SqlType::Char(1)); // "a" is length 1, "" is null -> char(1)
    // "1" and "" -> boolean because "1" is a valid boolean, "" is null
    assert_eq!(infer_sql_type(&["1", ""]), SqlType::Boolean);
    // "1.0" and "" -> float
    assert_eq!(infer_sql_type(&["1.0", ""]), SqlType::Float);
    // "2023-01-01" and "" -> date
    assert_eq!(infer_sql_type(&["2023-01-01", ""]), SqlType::Date);
    // "true" and "" -> boolean
    assert_eq!(infer_sql_type(&["true", ""]), SqlType::Boolean);
}

#[test]
fn test_infer_char() {
    assert_eq!(infer_sql_type(&["abc", "def", "ghi"]), SqlType::Char(3));
    assert_eq!(infer_sql_type(&["fixed", "fixed"]), SqlType::Char(5));
    assert_eq!(infer_sql_type(&["hello", "world"]), SqlType::Char(5)); // both length 5
}

#[test]
fn test_infer_char_with_empty_strings() {
    assert_eq!(infer_sql_type(&["ab", "", "cd", "", "ef"]), SqlType::Char(2));
    assert_eq!(infer_sql_type(&["", "xyz", ""]), SqlType::Char(3));
    assert_eq!(infer_sql_type(&["a", "", "b"]), SqlType::Char(1));
}

#[test]
fn test_char_does_not_override_specific_types() {
    assert_eq!(infer_sql_type(&["1", "2", "3"]), SqlType::Integer); // not char(1)
    assert_eq!(infer_sql_type(&["T", "F"]), SqlType::Boolean); // not char(1)
    assert_eq!(infer_sql_type(&["2023-01-01", "2023-01-02"]), SqlType::Date); // not char(10)
}

#[test]
fn test_infer_boolean() {
    assert_eq!(infer_sql_type(&["true", "false", "TRUE", "FALSE"]), SqlType::Boolean);
    assert_eq!(infer_sql_type(&["t", "f", "T", "F"]), SqlType::Boolean);
    assert_eq!(infer_sql_type(&["1", "0"]), SqlType::Boolean);
    assert_eq!(infer_sql_type(&["1", "0", "true"]), SqlType::Boolean); // mixed non-numeric with numeric-bools
    assert_eq!(infer_sql_type(&["true", "false", ""]), SqlType::Boolean); // with empty string
    assert_eq!(infer_sql_type(&["true", "not_bool"]), SqlType::Varchar(8));
    assert_eq!(infer_sql_type(&["true", "false", "0", "four"]), SqlType::Varchar(5));
}

#[test]
fn test_infer_invalid_date_as_varchar() {
    assert_eq!(infer_sql_type(&["2023-13-01"]), SqlType::Char(10)); // invalid month
    assert_eq!(infer_sql_type(&["not-a-date"]), SqlType::Char(10));
}
