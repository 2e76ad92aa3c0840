use relay::agg::{agg_op_from_name, AggOp};
use relay::csv::{
    bool_cell, column_names_for, column_types, find_record_boundaries, infer_type, int_cell, parse_csv_line,
    record_span, CsvReadOptions,
};
use relay::expr::{comparison_from_name, Operator};
use relay::csv_simd::find_record_boundaries_simd;
use relay::json::{
    infer_columns, infer_json_columns, json_records, record_member_types, JsonKind, value_type_of,
    detect_format, find_json_array_records, find_ndjson_records, widen, widen_types, JsonFormat,
    JsonReadOptions, ValueType,
};

#[test]
fn test_find_record_boundaries() {
    let data = b"a,b\n1,2\n3,4\n";
    let bounds = find_record_boundaries(data, b'"');
    assert_eq!(bounds, vec![3, 7, 11]);
}

#[test]
fn test_find_record_boundaries_quoted_newlines() {
    let data = b"a,b\n\"hello\nworld\",2\n";
    let bounds = find_record_boundaries(data, b'"');
    assert_eq!(bounds, vec![3, 19]);
}

#[test]
fn test_parse_csv_line() {
    let line = b"hello,world,123";
    let fields = parse_csv_line(line, b',', b'"', true).unwrap();
    assert_eq!(fields, vec!["hello", "world", "123"]);
}

#[test]
fn test_parse_csv_line_quoted() {
    let line = b"\"hello, world\",123,\"she said \"\"hi\"\"\"";
    let fields = parse_csv_line(line, b',', b'"', true).unwrap();
    assert_eq!(fields, vec!["hello, world", "123", "she said \"hi\""]);
}

#[test]
fn scalar_and_word_scans_agree_on_boundaries() {
    let data = b"id,name\n1,\"multi\nline\"\n2,plain\n3,\"x\"";
    let scalar = find_record_boundaries(data, b'"');
    let simd = find_record_boundaries_simd(data, b'"');
    assert_eq!(scalar, simd);
    assert_eq!(scalar, vec![7, 22, 30, 36]);
}

#[test]
fn boundaries_without_trailing_newline_end_at_data_length() {
    assert_eq!(find_record_boundaries(b"a,b\n1,2", b'"'), vec![3, 7]);
    assert_eq!(find_record_boundaries(b"", b'"'), Vec::<usize>::new());
}

#[test]
fn parse_csv_line_keeps_spaces_without_trim_and_empty_fields() {
    let fields = parse_csv_line(b" a ,,b ", b',', b'"', false).unwrap();
    assert_eq!(fields, vec![" a ", "", "b "]);
    let trimmed = parse_csv_line(b" a ,,b ", b',', b'"', true).unwrap();
    assert_eq!(trimmed, vec!["a", "", "b"]);
}

#[test]
fn parse_csv_line_other_delimiter() {
    let fields = parse_csv_line(b"x;y;\"z;w\"", b';', b'"', true).unwrap();
    assert_eq!(fields, vec!["x", "y", "z;w"]);
}

#[test]
fn csv_type_inference_from_text() {
    assert_eq!(infer_type("", false), ValueType::Utf8);
    assert_eq!(infer_type("42", false), ValueType::Int64);
    assert_eq!(infer_type("-7", false), ValueType::Int64);
    assert_eq!(infer_type("true", false), ValueType::Boolean);
    assert_eq!(infer_type("FALSE", false), ValueType::Boolean);
    assert_eq!(infer_type("1.5", true), ValueType::Float64);
    assert_eq!(infer_type("hello", false), ValueType::Utf8);
}

#[test]
fn csv_default_options() {
    let o = CsvReadOptions::default();
    assert!(o.has_header);
    assert_eq!(o.delimiter, b',');
    assert_eq!(o.quote, b'"');
    assert_eq!(o.infer_schema_rows, 1024);
    assert!(o.trim);
    assert!(o.use_simd);
}

#[test]
fn test_detect_format_ndjson() {
    let data = b"{\"a\":1}\n{\"a\":2}\n";
    assert_eq!(detect_format(data), JsonFormat::Ndjson);
}

#[test]
fn test_detect_format_json_array() {
    let data = b"[{\"a\":1},{\"a\":2}]";
    assert_eq!(detect_format(data), JsonFormat::JsonArray);
}

#[test]
fn test_detect_format_json_array_whitespace() {
    let data = b"  \n  [{\"a\":1}]";
    assert_eq!(detect_format(data), JsonFormat::JsonArray);
}

#[test]
fn detect_format_of_blank_input_is_ndjson() {
    assert_eq!(detect_format(b""), JsonFormat::Ndjson);
    assert_eq!(detect_format(b" \t\r\n"), JsonFormat::Ndjson);
}

#[test]
fn test_find_ndjson_records() {
    let data = b"{\"a\":1}\n{\"b\":2}\n";
    let records = find_ndjson_records(data);
    assert_eq!(records.len(), 2);
    assert_eq!(&data[records[0].0..records[0].1], b"{\"a\":1}");
    assert_eq!(&data[records[1].0..records[1].1], b"{\"b\":2}");
}

#[test]
fn test_find_ndjson_records_empty_lines() {
    let data = b"{\"a\":1}\n\n{\"b\":2}\n";
    let records = find_ndjson_records(data);
    assert_eq!(records.len(), 2);
}

#[test]
fn test_find_ndjson_records_no_trailing_newline() {
    let data = b"{\"a\":1}\n{\"b\":2}";
    let records = find_ndjson_records(data);
    assert_eq!(records.len(), 2);
}

#[test]
fn ndjson_record_positions() {
    let data = b"{\"a\":1}\r\n  \n{\"b\":2}";
    assert_eq!(find_ndjson_records(data), vec![(0, 7), (12, 19)]);
}

#[test]
fn test_find_json_array_records() {
    let data = b"[{\"a\":1},{\"b\":2}]";
    let records = find_json_array_records(data);
    assert_eq!(records.len(), 2);
    assert_eq!(&data[records[0].0..records[0].1], b"{\"a\":1}");
    assert_eq!(&data[records[1].0..records[1].1], b"{\"b\":2}");
}

#[test]
fn test_find_json_array_records_nested() {
    let data = b"[{\"a\":{\"b\":1}},{\"c\":[1,2]}]";
    let records = find_json_array_records(data);
    assert_eq!(records.len(), 2);
}

#[test]
fn test_find_json_array_records_string_braces() {
    let data = b"[{\"a\":\"hello {world}\"},{\"b\":\"}\"}]";
    let records = find_json_array_records(data);
    assert_eq!(records.len(), 2);
}

#[test]
fn json_array_records_without_brackets_is_empty() {
    assert_eq!(find_json_array_records(b"{\"a\":1}"), Vec::<(usize, usize)>::new());
    assert_eq!(find_json_array_records(b"[]"), Vec::<(usize, usize)>::new());
}

#[test]
fn test_widen_null_int() {
    assert_eq!(widen(ValueType::Null, ValueType::Int64), ValueType::Int64);
}

#[test]
fn test_widen_int_float() {
    assert_eq!(widen(ValueType::Int64, ValueType::Float64), ValueType::Float64);
}

#[test]
fn test_widen_incompatible() {
    assert_eq!(widen(ValueType::Boolean, ValueType::Int64), ValueType::Utf8);
}

#[test]
fn widen_is_symmetric_and_keeps_equal_types() {
    let all = [
        ValueType::Null,
        ValueType::Boolean,
        ValueType::Int64,
        ValueType::Float64,
        ValueType::Utf8,
    ];
    for a in all {
        assert_eq!(widen(a, a), a);
        for b in all {
            assert_eq!(widen(a, b), widen(b, a));
        }
    }
    assert_eq!(widen_types(&[]), ValueType::Utf8);
    assert_eq!(
        widen_types(&[ValueType::Null, ValueType::Int64, ValueType::Float64]),
        ValueType::Float64
    );
}

#[test]
fn json_default_options() {
    let o = JsonReadOptions::default();
    assert_eq!(o.format, JsonFormat::Auto);
    assert_eq!(o.infer_schema_rows, 1024);
    assert_eq!(o.chunk_size, 8192);
}

#[test]
fn cell_values_of_typed_columns() {
    assert_eq!(int_cell("42"), Some(42));
    assert_eq!(int_cell("-3"), Some(-3));
    assert_eq!(int_cell(""), None);
    assert_eq!(int_cell("4.5"), None);
    assert_eq!(bool_cell("TRUE"), Some(true));
    assert_eq!(bool_cell("Yes"), Some(true));
    assert_eq!(bool_cell("1"), Some(true));
    assert_eq!(bool_cell("false"), Some(false));
    assert_eq!(bool_cell("NO"), Some(false));
    assert_eq!(bool_cell("0"), Some(false));
    assert_eq!(bool_cell(""), None);
    assert_eq!(bool_cell("maybe"), None);
}

#[test]
fn operation_names() {
    assert_eq!(agg_op_from_name("SUM"), Some(AggOp::Sum));
    assert_eq!(agg_op_from_name("avg"), Some(AggOp::Mean));
    assert_eq!(agg_op_from_name("Mean"), Some(AggOp::Mean));
    assert_eq!(agg_op_from_name("count"), Some(AggOp::Count));
    assert_eq!(agg_op_from_name("median"), None);
    assert_eq!(comparison_from_name("=="), Some(Operator::Eq));
    assert_eq!(comparison_from_name("ge"), Some(Operator::Ge));
    assert_eq!(comparison_from_name("<"), Some(Operator::Lt));
    assert_eq!(comparison_from_name("LT"), None);
    assert_eq!(comparison_from_name("="), None);
}

#[test]
fn widening_groups_freely() {
    let all = [
        ValueType::Null,
        ValueType::Boolean,
        ValueType::Int64,
        ValueType::Float64,
        ValueType::Utf8,
    ];
    for a in all {
        for b in all {
            for c in all {
                assert_eq!(widen(widen(a, b), c), widen(a, widen(b, c)));
            }
        }
    }
}

#[test]
fn invalid_utf8_fields_are_read_lossily() {
    let fields = parse_csv_line(b"a\xffb,c", b',', b'"', true).unwrap();
    assert_eq!(fields, vec!["a\u{FFFD}b".to_string(), "c".to_string()]);
}

#[test]
fn record_spans_and_generated_names() {
    let data = b"a,b\n1,2\n3,4";
    let offsets = find_record_boundaries(data, b'"');
    assert_eq!(record_span(&offsets, 0), (0, 3));
    assert_eq!(record_span(&offsets, 1), (4, 7));
    assert_eq!(record_span(&offsets, 2), (8, 11));
    assert_eq!(&data[8..11], b"3,4");
    assert_eq!(column_names_for(3), vec!["col0", "col1", "col2"]);
    assert_eq!(column_names_for(0), Vec::<String>::new());
}

#[test]
fn json_columns_in_first_seen_order_with_widened_types() {
    let members = vec![
        ("b".to_string(), ValueType::Null),
        ("a".to_string(), ValueType::Int64),
        ("a".to_string(), ValueType::Float64),
        ("c".to_string(), ValueType::Boolean),
        ("b".to_string(), ValueType::Int64),
        ("c".to_string(), ValueType::Int64),
    ];
    assert_eq!(
        infer_columns(&members),
        vec![
            ("b".to_string(), ValueType::Int64),
            ("a".to_string(), ValueType::Float64),
            ("c".to_string(), ValueType::Utf8),
        ]
    );
    assert_eq!(infer_columns(&Vec::new()), Vec::<(String, ValueType)>::new());
}

#[test]
fn csv_column_types_from_sampled_rows() {
    let rows = vec![
        vec!["1".to_string(), "x".to_string(), "".to_string()],
        vec!["2.5".to_string(), "true".to_string(), "".to_string()],
        vec!["3".to_string()],
    ];
    let floats = vec![vec![true, false, false], vec![true, false, false], vec![true]];
    assert_eq!(
        column_types(&rows, &floats, 4),
        vec![ValueType::Float64, ValueType::Utf8, ValueType::Utf8, ValueType::Utf8]
    );
    let bools = vec![vec!["TRUE".to_string()], vec!["false".to_string()]];
    let no_floats = vec![vec![false], vec![false]];
    assert_eq!(column_types(&bools, &no_floats, 1), vec![ValueType::Boolean]);
}

#[test]
fn json_records_in_the_resolved_format() {
    let data = b" [{\"a\":1},{\"a\":2}]";
    let (f, r) = json_records(data, JsonFormat::Auto);
    assert_eq!(f, JsonFormat::JsonArray);
    assert_eq!(r, vec![(2, 9), (10, 17)]);
    let (f, r) = json_records(data, JsonFormat::Ndjson);
    assert_eq!(f, JsonFormat::Ndjson);
    assert_eq!(r, vec![(0, 18)]);
    let lines = b"{\"a\":1}\n{\"a\":2}\n";
    let (f, r) = json_records(lines, JsonFormat::Auto);
    assert_eq!(f, JsonFormat::Ndjson);
    assert_eq!(r.len(), 2);
}

#[test]
fn json_record_member_types() {
    let m = record_member_types(br#"{"id": 1, "x": 2.5, "name": "a", "ok": true, "n": null, "l": [1]}"#).unwrap();
    let got: Vec<(String, ValueType)> = m;
    assert!(got.contains(&("id".to_string(), ValueType::Int64)));
    assert!(got.contains(&("x".to_string(), ValueType::Float64)));
    assert!(got.contains(&("name".to_string(), ValueType::Utf8)));
    assert!(got.contains(&("ok".to_string(), ValueType::Boolean)));
    assert!(got.contains(&("n".to_string(), ValueType::Null)));
    assert!(got.contains(&("l".to_string(), ValueType::Utf8)));
    assert_eq!(got.len(), 6);
    assert!(record_member_types(b"[1, 2]").unwrap().is_empty());
    match record_member_types(b"{oops") {
        Err(relay::error::RelayError::Arrow(m)) => {
            assert!(m.starts_with("JSON parse error during schema inference: "))
        }
        _ => panic!("expected a parse error"),
    }
}

#[test]
fn json_kinds_give_types() {
    assert_eq!(value_type_of(JsonKind::Number { fits_i64: true }), ValueType::Int64);
    assert_eq!(value_type_of(JsonKind::Number { fits_i64: false }), ValueType::Float64);
    assert_eq!(value_type_of(JsonKind::Object), ValueType::Utf8);
}

#[test]
fn json_columns_widen_across_records() {
    let data = br#"{"a": 1, "b": "x"}
{"a": 2.5, "c": true}"#;
    let cols = infer_json_columns(data, &[(0, 18), (19, data.len())]).unwrap();
    assert!(cols.contains(&("a".to_string(), ValueType::Float64)));
    assert!(cols.contains(&("b".to_string(), ValueType::Utf8)));
    assert!(cols.contains(&("c".to_string(), ValueType::Boolean)));
    assert_eq!(cols.len(), 3);
    assert!(infer_json_columns(b"{bad}", &[(0, 5)]).is_err());
}

#[test]
fn parse_csv_line_trims_unicode_white_space() {
    let line = "\u{3000}a\u{a0},\tb\u{2028}".as_bytes();
    let fields = parse_csv_line(line, b',', b'"', true).unwrap();
    assert_eq!(fields, vec!["a", "b"]);
}

#[test]
fn csv_integer_cells() {
    assert_eq!(relay::csv::int_cell("-9223372036854775808"), Some(i64::MIN));
    assert_eq!(relay::csv::int_cell("+42"), Some(42));
    assert_eq!(relay::csv::int_cell("9223372036854775808"), None);
    assert_eq!(relay::csv::int_cell("-"), None);
    assert_eq!(relay::csv::int_cell("1x"), None);
    assert_eq!(relay::csv::int_cell(""), None);
}
