use csv_sql_inference::python_generator::PkStrategy;
use csv_sql_inference::{
    generate_sql, generate_sqlmodel_python, infer_schema, infer_sql_type, load_table, to_pascal_case,
    SqlType,
};

// classification does not depend on the order of the rows
#[test]
fn test_classification_is_order_independent() {
    let forward = ["1", "2.5", "", "300"];
    let backward = ["300", "", "2.5", "1"];
    let shuffled = ["2.5", "300", "1", ""];
    assert_eq!(infer_sql_type(&forward), SqlType::Float);
    assert_eq!(infer_sql_type(&forward), infer_sql_type(&backward));
    assert_eq!(infer_sql_type(&forward), infer_sql_type(&shuffled));

    let dates = ["2023-01-01", "2024-02-15"];
    let dates_rev = ["2024-02-15", "2023-01-01"];
    assert_eq!(infer_sql_type(&dates), infer_sql_type(&dates_rev));

    let text = ["hello", "world!", ""];
    let text_rev = ["", "world!", "hello"];
    assert_eq!(infer_sql_type(&text), infer_sql_type(&text_rev));
}

// classification is a pure function: re-running it gives the same tag
#[test]
fn test_classification_is_idempotent() {
    let cells = ["1", "0", "true", ""];
    let first = infer_sql_type(&cells);
    let second = infer_sql_type(&cells);
    assert_eq!(first, SqlType::Boolean);
    assert_eq!(first, second);
}

#[test]
fn test_boolean_broken_by_non_token() {
    assert_eq!(infer_sql_type(&["1", "0"]), SqlType::Boolean);
    assert_eq!(infer_sql_type(&["1", "0", "four"]), SqlType::Varchar(4));
}

#[test]
fn test_end_to_end_ddl_exact() {
    let csv_data = "name,age,city\nAlice,30,New York\nBob,24,London";
    let (headers, types) = infer_schema(csv_data).unwrap();
    assert_eq!(types, vec![SqlType::Varchar(5), SqlType::Integer, SqlType::Varchar(8)]);
    let sql = generate_sql("t", &headers, &types);
    assert_eq!(
        sql,
        "CREATE TABLE \"t\" (\n  \"name\" VARCHAR(5),\n  \"age\" INTEGER,\n  \"city\" VARCHAR(8)\n);"
    );
}

#[test]
fn test_ddl_renders_every_type() {
    let headers: Vec<String> =
        ["a", "b", "c", "d", "e", "f", "g", "h"].iter().map(|s| s.to_string()).collect();
    let types = vec![
        SqlType::Integer,
        SqlType::BigInt,
        SqlType::Float,
        SqlType::Boolean,
        SqlType::Date,
        SqlType::Datetime,
        SqlType::Char(5),
        SqlType::Varchar(123),
    ];
    let sql = generate_sql("all_types", &headers, &types);
    let expected = "CREATE TABLE \"all_types\" (\n  \"a\" INTEGER,\n  \"b\" BIGINT,\n  \"c\" FLOAT,\n  \"d\" BOOLEAN,\n  \"e\" DATE,\n  \"f\" DATETIME,\n  \"g\" CHAR(5),\n  \"h\" VARCHAR(123)\n);";
    assert_eq!(sql, expected);
}

#[test]
fn test_ddl_trims_and_quotes_headers() {
    let headers: Vec<String> = vec!["  spaced name \t".to_string()];
    let types = vec![SqlType::Integer];
    let sql = generate_sql("trimmed", &headers, &types);
    assert_eq!(sql, "CREATE TABLE \"trimmed\" (\n  \"spaced name\" INTEGER\n);");
}

#[test]
fn test_python_clamps_zero_length_text() {
    let headers: Vec<String> = vec!["note".to_string()];
    let types = vec![SqlType::Varchar(0)];
    let python =
        generate_sqlmodel_python("notes", &headers, &types, &PkStrategy::NoPrimaryKey);
    assert!(python.contains("note: str | None = Field(default=None, max_length=1)"));
}

#[test]
fn test_integer_boundaries() {
    assert_eq!(infer_sql_type(&["2147483647"]), SqlType::Integer);
    assert_eq!(infer_sql_type(&["2147483648"]), SqlType::BigInt);
    assert_eq!(infer_sql_type(&["-2147483648"]), SqlType::Integer);
    assert_eq!(infer_sql_type(&["-2147483649"]), SqlType::BigInt);
    assert_eq!(infer_sql_type(&["9223372036854775807"]), SqlType::BigInt);
    // one past the 64-bit range still parses as a float
    assert_eq!(infer_sql_type(&["9223372036854775808"]), SqlType::Float);
    assert_eq!(infer_sql_type(&["-9223372036854775808"]), SqlType::BigInt);
    assert_eq!(infer_sql_type(&["+42"]), SqlType::Integer);
    assert_eq!(infer_sql_type(&["007"]), SqlType::Integer);
}

#[test]
fn test_float_token_shapes() {
    assert_eq!(infer_sql_type(&[".5", "5."]), SqlType::Float);
    assert_eq!(infer_sql_type(&["6.02E-23", "1e+9"]), SqlType::Float);
    assert_eq!(infer_sql_type(&["inf", "nan"]), SqlType::Float);
    // no digits, a lone dot, or a dangling exponent are not numbers
    assert_eq!(infer_sql_type(&[".", "1e", "e5"]), SqlType::Varchar(2));
}

#[test]
fn test_whitespace_padded_numbers_are_rejected() {
    // the numeric parsers accept no surrounding whitespace
    assert_eq!(infer_sql_type(&[" 1 "]), SqlType::Char(3));
    assert_eq!(infer_sql_type(&["1", " 2"]), SqlType::Varchar(2));
}

#[test]
fn test_leap_year_dates() {
    assert_eq!(infer_sql_type(&["2024-02-29"]), SqlType::Date);
    assert_eq!(infer_sql_type(&["2023-02-29"]), SqlType::Char(10));
    assert_eq!(infer_sql_type(&["2000-02-29"]), SqlType::Date);
    assert_eq!(infer_sql_type(&["1900-02-29"]), SqlType::Char(10));
    assert_eq!(infer_sql_type(&["2023-04-31"]), SqlType::Char(10));
}

#[test]
fn test_datetime_range_validation() {
    assert_eq!(infer_sql_type(&["2023-01-01 23:59:59"]), SqlType::Datetime);
    assert_eq!(infer_sql_type(&["2023-01-01 24:00:00"]), SqlType::Char(19));
    assert_eq!(infer_sql_type(&["2023-01-01 12:60:00"]), SqlType::Char(19));
    assert_eq!(infer_sql_type(&["2023-01-01 12:00:60"]), SqlType::Char(19));
}

#[test]
fn test_pascal_case_conversion() {
    assert_eq!(to_pascal_case("my_data_set"), "MyDataSet");
    assert_eq!(to_pascal_case("products_table"), "ProductsTable");
    assert_eq!(to_pascal_case("kebab-case-name"), "KebabCaseName");
    assert_eq!(to_pascal_case("__double__separators__"), "DoubleSeparators");
    assert_eq!(to_pascal_case("ALL_CAPS"), "AllCaps");
    assert_eq!(to_pascal_case(""), "");
}

#[test]
fn test_load_table_splits_header_and_rows() {
    let csv_data = "h1,h2\na,b\nc,d";
    let (headers, rows) = load_table(csv_data).unwrap();
    assert_eq!(headers, vec!["h1".to_string(), "h2".to_string()]);
    assert_eq!(
        rows,
        vec![
            vec!["a".to_string(), "b".to_string()],
            vec!["c".to_string(), "d".to_string()]
        ]
    );
}
