use relay::types::{RelayType, TimeUnit};

#[test]
fn test_primitive_types() {
    assert!(RelayType::Int32.is_primitive());
    assert!(RelayType::Float64.is_primitive());
    assert!(RelayType::Boolean.is_primitive());
    assert!(!RelayType::Utf8.is_primitive());
    assert!(!RelayType::List(Box::new(RelayType::Int32)).is_primitive());
}

#[test]
fn test_string_types() {
    assert!(RelayType::Utf8.is_string());
    assert!(RelayType::LargeUtf8.is_string());
    assert!(RelayType::Utf8View.is_string());
    assert!(!RelayType::Binary.is_string());
    assert!(!RelayType::Int32.is_string());
}

#[test]
fn test_binary_types() {
    assert!(RelayType::Binary.is_binary());
    assert!(RelayType::LargeBinary.is_binary());
    assert!(RelayType::BinaryView.is_binary());
    assert!(!RelayType::Utf8.is_binary());
}

#[test]
fn test_temporal_types() {
    assert!(RelayType::Date32.is_temporal());
    assert!(RelayType::Timestamp(TimeUnit::Nanosecond, None).is_temporal());
    assert!(RelayType::Duration(TimeUnit::Millisecond).is_temporal());
    assert!(!RelayType::Int64.is_temporal());
}

#[test]
fn test_simd_compatible() {
    assert!(RelayType::Float64.is_simd_compatible());
    assert!(RelayType::Int32.is_simd_compatible());
    assert!(!RelayType::Utf8.is_simd_compatible());
    assert!(!RelayType::Boolean.is_simd_compatible());
}

#[test]
fn test_byte_size() {
    assert_eq!(RelayType::Int8.byte_size(), Some(1));
    assert_eq!(RelayType::Int16.byte_size(), Some(2));
    assert_eq!(RelayType::Int32.byte_size(), Some(4));
    assert_eq!(RelayType::Int64.byte_size(), Some(8));
    assert_eq!(RelayType::Float32.byte_size(), Some(4));
    assert_eq!(RelayType::Float64.byte_size(), Some(8));
    assert_eq!(RelayType::Utf8.byte_size(), None);
    assert_eq!(RelayType::Boolean.byte_size(), Some(1));
}

#[test]
fn test_display_primitives() {
    assert_eq!(RelayType::Boolean.to_string(), "bool");
    assert_eq!(RelayType::Int32.to_string(), "i32");
    assert_eq!(RelayType::Float64.to_string(), "f64");
    assert_eq!(RelayType::Utf8.to_string(), "string");
}

#[test]
fn test_display_temporal() {
    assert_eq!(RelayType::Date32.to_string(), "date32");
    assert_eq!(
        RelayType::Timestamp(TimeUnit::Nanosecond, None).to_string(),
        "timestamp(ns)"
    );
    assert_eq!(
        RelayType::Timestamp(TimeUnit::Millisecond, Some("UTC".to_string())).to_string(),
        "timestamp(ms, \"UTC\")"
    );
}

#[test]
fn test_display_complex() {
    assert_eq!(
        RelayType::List(Box::new(RelayType::Int32)).to_string(),
        "list[i32]"
    );
    assert_eq!(
        RelayType::FixedSizeList(Box::new(RelayType::Float64), 3).to_string(),
        "fixed_list[f64, 3]"
    );
    assert_eq!(
        RelayType::Struct(vec![
            ("name".to_string(), RelayType::Utf8),
            ("age".to_string(), RelayType::Int32),
        ])
        .to_string(),
        "struct<name: string, age: i32>"
    );
}

#[test]
fn test_display_time_unit() {
    assert_eq!(TimeUnit::Second.to_string(), "s");
    assert_eq!(TimeUnit::Millisecond.to_string(), "ms");
    assert_eq!(TimeUnit::Microsecond.to_string(), "us");
    assert_eq!(TimeUnit::Nanosecond.to_string(), "ns");
}

#[test]
fn display_falls_back_to_debug_form() {
    assert_eq!(RelayType::Time32Second.to_string(), "Time32Second");
    assert_eq!(
        RelayType::Interval(relay::types::IntervalUnit::DayTime).to_string(),
        "Interval(DayTime)"
    );
    assert_eq!(
        RelayType::MapType(Box::new(RelayType::Int64), true).to_string(),
        "Map(Int64, true)"
    );
    assert_eq!(
        RelayType::Dictionary(Box::new(RelayType::Int32), Box::new(RelayType::Utf8)).to_string(),
        "Dictionary(Int32, Utf8)"
    );
    assert_eq!(
        RelayType::Union(vec![RelayType::Int8, RelayType::Null]).to_string(),
        "Union([Int8, Null])"
    );
}

#[test]
fn display_nested_and_fixed_list_negative_size() {
    assert_eq!(
        RelayType::LargeList(Box::new(RelayType::List(Box::new(RelayType::Utf8View)))).to_string(),
        "large_list[list[string_view]]"
    );
    assert_eq!(
        RelayType::FixedSizeList(Box::new(RelayType::Int8), -12).to_string(),
        "fixed_list[i8, -12]"
    );
    assert_eq!(
        RelayType::Duration(TimeUnit::Microsecond).to_string(),
        "duration(us)"
    );
    assert_eq!(
        RelayType::Struct(vec![(
            "tz".to_string(),
            RelayType::Timestamp(TimeUnit::Second, Some("Europe/Paris".to_string()))
        )])
        .to_string(),
        "struct<tz: timestamp(s, \"Europe/Paris\")>"
    );
    assert_eq!(
        RelayType::Struct(vec![(
            "a".to_string(),
            RelayType::Union(vec![RelayType::Timestamp(TimeUnit::Second, Some("UTC".to_string()))])
        )])
        .to_string(),
        "struct<a: Union([Timestamp(Second, Some(\"UTC\"))])>"
    );
}

#[test]
fn clone_keeps_nested_types() {
    let t = RelayType::Struct(vec![
        ("a".to_string(), RelayType::List(Box::new(RelayType::Int32))),
        ("b".to_string(), RelayType::Union(vec![RelayType::Utf8, RelayType::Null])),
    ]);
    assert_eq!(t.clone(), t);
    assert_eq!(t.deep_copy(), t);
}

#[test]
fn byte_size_of_temporal_and_variable_types() {
    assert_eq!(RelayType::Timestamp(TimeUnit::Second, None).byte_size(), Some(8));
    assert_eq!(RelayType::Time32Millisecond.byte_size(), Some(4));
    assert_eq!(RelayType::Interval(relay::types::IntervalUnit::YearMonth).byte_size(), None);
    assert_eq!(RelayType::List(Box::new(RelayType::Int8)).byte_size(), None);
    assert!(!RelayType::Time64Nanosecond.is_primitive());
    assert!(RelayType::Time64Nanosecond.is_temporal());
}
