use relay::expr::{Expr, FloatLit, Literal};
use relay::filter::{
    eval_filter, filter_batch, float_order_key, selected_rows, Column, ColumnBatch, ColumnValues,
};

fn float(v: f64) -> FloatLit {
    FloatLit { bits: v.to_bits(), text: format!("{}", v), debug: format!("{:?}", v) }
}

fn all_valid(n: usize) -> Vec<bool> {
    vec![true; n]
}

fn sample_batch() -> ColumnBatch {
    ColumnBatch {
        names: vec!["id".to_string(), "value".to_string()],
        columns: vec![
            Column { values: ColumnValues::Int64(vec![1, 2, 3, 4, 5]), valid: all_valid(5) },
            Column {
                values: ColumnValues::Float64(
                    [1.0f64, 2.0, 3.0, 4.0, 5.0].iter().map(|v| v.to_bits()).collect(),
                ),
                valid: all_valid(5),
            },
        ],
        num_rows: 5,
    }
}

fn rows(b: &ColumnBatch, e: &Expr) -> usize {
    filter_batch(b, e).unwrap().num_rows
}

#[test]
fn test_lt() {
    let b = sample_batch();
    assert_eq!(rows(&b, &Expr::col("id").lt(Expr::lit_i64(3))), 2);
}

#[test]
fn test_gt() {
    let b = sample_batch();
    assert_eq!(rows(&b, &Expr::col("id").gt(Expr::lit_i64(3))), 2);
}

#[test]
fn test_eq() {
    let b = sample_batch();
    assert_eq!(rows(&b, &Expr::col("id").eq(Expr::lit_i64(3))), 1);
}

#[test]
fn test_ne() {
    let b = sample_batch();
    assert_eq!(rows(&b, &Expr::col("id").ne(Expr::lit_i64(3))), 4);
}

#[test]
fn test_le() {
    let b = sample_batch();
    assert_eq!(rows(&b, &Expr::col("id").le(Expr::lit_i64(3))), 3);
}

#[test]
fn test_ge() {
    let b = sample_batch();
    assert_eq!(rows(&b, &Expr::col("id").ge(Expr::lit_i64(3))), 3);
}

#[test]
fn test_float_lt() {
    let b = sample_batch();
    assert_eq!(rows(&b, &Expr::col("value").lt(Expr::lit_f64(float(3.5)))), 3);
}

#[test]
fn test_and() {
    let b = sample_batch();
    let e = Expr::col("id").gt(Expr::lit_i64(1)).and(Expr::col("id").lt(Expr::lit_i64(4)));
    assert_eq!(rows(&b, &e), 2);
}

#[test]
fn test_or() {
    let b = sample_batch();
    let e = Expr::col("id").lt(Expr::lit_i64(2)).or(Expr::col("id").gt(Expr::lit_i64(4)));
    assert_eq!(rows(&b, &e), 2);
}

#[test]
fn test_not() {
    let b = sample_batch();
    let e = Expr::not(Expr::col("id").lt(Expr::lit_i64(3)));
    assert_eq!(rows(&b, &e), 3);
}

#[test]
fn test_reversed() {
    let b = sample_batch();
    let e = Expr::lit_i64(5).gt(Expr::col("id"));
    assert_eq!(rows(&b, &e), 4);
}

#[test]
fn filtered_batch_keeps_the_selected_rows_of_every_column() {
    let b = sample_batch();
    let r = filter_batch(&b, &Expr::col("id").ge(Expr::lit_i64(4))).unwrap();
    assert_eq!(r.names, vec!["id".to_string(), "value".to_string()]);
    match &r.columns[0].values {
        ColumnValues::Int64(v) => assert_eq!(v, &vec![4, 5]),
        other => panic!("unexpected {:?}", other),
    }
    match &r.columns[1].values {
        ColumnValues::Float64(v) => assert_eq!(v, &vec![4.0f64.to_bits(), 5.0f64.to_bits()]),
        other => panic!("unexpected {:?}", other),
    }
}

#[test]
fn nulls_compare_to_null_and_are_dropped() {
    let b = ColumnBatch {
        names: vec!["x".to_string()],
        columns: vec![Column {
            values: ColumnValues::Int64(vec![1, 7, 9]),
            valid: vec![true, false, true],
        }],
        num_rows: 3,
    };
    let m = eval_filter(&b, &Expr::col("x").gt(Expr::lit_i64(0))).unwrap();
    assert_eq!(m, vec![Some(true), None, Some(true)]);
    let m = eval_filter(&b, &Expr::not(Expr::col("x").gt(Expr::lit_i64(5)))).unwrap();
    assert_eq!(m, vec![Some(true), None, Some(false)]);
    assert_eq!(rows(&b, &Expr::col("x").gt(Expr::lit_i64(0))), 2);
}

#[test]
fn int64_column_with_int32_literal_and_strings() {
    let b = ColumnBatch {
        names: vec!["n".to_string(), "s".to_string()],
        columns: vec![
            Column { values: ColumnValues::Int64(vec![10, 20]), valid: all_valid(2) },
            Column {
                values: ColumnValues::Utf8(vec!["apple".to_string(), "banana".to_string()]),
                valid: all_valid(2),
            },
        ],
        num_rows: 2,
    };
    assert_eq!(
        eval_filter(&b, &Expr::col("n").lt(Expr::lit_i32(15))).unwrap(),
        vec![Some(true), Some(false)]
    );
    assert_eq!(
        eval_filter(&b, &Expr::col("s").ge(Expr::lit_str("b"))).unwrap(),
        vec![Some(false), Some(true)]
    );
}

#[test]
fn column_to_column_comparison() {
    let b = ColumnBatch {
        names: vec!["a".to_string(), "b".to_string(), "f".to_string()],
        columns: vec![
            Column { values: ColumnValues::Int64(vec![1, 5, 3]), valid: all_valid(3) },
            Column { values: ColumnValues::Int64(vec![2, 5, 1]), valid: vec![true, true, false] },
            Column { values: ColumnValues::Float64(vec![0, 0, 0]), valid: all_valid(3) },
        ],
        num_rows: 3,
    };
    assert_eq!(
        eval_filter(&b, &Expr::col("a").le(Expr::col("b"))).unwrap(),
        vec![Some(true), Some(true), None]
    );
    let e = eval_filter(&b, &Expr::col("a").lt(Expr::col("f"))).unwrap_err();
    assert_eq!(
        e.to_string(),
        "Arrow error: <: Invalid argument error: Invalid comparison operation: Int64 < Float64"
    );
}

#[test]
fn filter_errors() {
    let b = sample_batch();
    let e = eval_filter(&b, &Expr::col("zzz").lt(Expr::lit_i64(1))).unwrap_err();
    assert_eq!(e.to_string(), "Expression error: Column 'zzz' not found");
    let e = eval_filter(&b, &Expr::col("id")).unwrap_err();
    assert_eq!(e.to_string(), "Expression error: Filter must be comparison/NOT, got: id");
    let e = eval_filter(&b, &Expr::col("id").lt(Expr::lit_str("x"))).unwrap_err();
    assert_eq!(
        e.to_string(),
        "Expression error: Unsupported type combination: Int64 vs Str(\"x\")"
    );
    let e = eval_filter(&b, &Expr::col("id").lt(Expr::lit_f64(float(1.0)))).unwrap_err();
    assert_eq!(
        e.to_string(),
        "Expression error: Unsupported type combination: Int64 vs Float64(1.0)"
    );
    let nested = Expr::col("id").lt(Expr::col("id").lt(Expr::lit_i64(1)));
    let e = eval_filter(&b, &nested).unwrap_err();
    assert_eq!(e.to_string(), "Expression error: Cannot resolve: (id < 1)");
}

#[test]
fn literal_comparisons_give_one_entry() {
    let b = sample_batch();
    assert_eq!(
        eval_filter(&b, &Expr::lit_i64(1).lt(Expr::lit_i64(2))).unwrap(),
        vec![Some(true)]
    );
    assert_eq!(
        eval_filter(&b, &Expr::Literal(Literal::Null).eq(Expr::Literal(Literal::Null))).unwrap(),
        vec![None]
    );
    // A one-entry mask covers only the first row.
    assert_eq!(rows(&b, &Expr::lit_i64(1).lt(Expr::lit_i64(2))), 1);
    // Masks of different lengths cannot be combined.
    let e = Expr::lit_i64(1).lt(Expr::lit_i64(2)).and(Expr::col("id").gt(Expr::lit_i64(0)));
    let err = eval_filter(&b, &e).unwrap_err();
    assert_eq!(
        err.to_string(),
        "Arrow error: AND: Compute error: Cannot perform bitwise operation on arrays of different length"
    );
}

#[test]
fn mask_selection() {
    let m = vec![Some(true), None, Some(false), Some(true)];
    assert_eq!(selected_rows(&m, 4, 1).unwrap(), vec![0, 3]);
    assert_eq!(selected_rows(&m, 10, 1).unwrap(), vec![0, 3]);
    let e = selected_rows(&vec![Some(true)], 0, 2).unwrap_err();
    assert_eq!(
        e.to_string(),
        "Arrow error: filter: Invalid argument error: Filter predicate of length 1 is larger than target array of length 0"
    );
    assert_eq!(selected_rows(&vec![Some(true)], 0, 0).unwrap(), vec![0]);
}

#[test]
fn float_total_order() {
    let keys: Vec<i64> = [f64::NEG_INFINITY, -1.5, -0.0, 0.0, 2.0, f64::INFINITY, f64::NAN]
        .iter()
        .map(|v| float_order_key(v.to_bits()))
        .collect();
    for w in keys.windows(2) {
        assert!(w[0] < w[1]);
    }
}

#[test]
fn double_negation_and_mirroring_keep_the_mask() {
    let b = sample_batch();
    let p = Expr::col("id").lt(Expr::lit_i64(3));
    let nn = Expr::not(Expr::not(Expr::col("id").lt(Expr::lit_i64(3))));
    assert_eq!(eval_filter(&b, &nn).unwrap(), eval_filter(&b, &p).unwrap());
    let mirrored = Expr::lit_i64(3).gt(Expr::col("id"));
    assert_eq!(eval_filter(&b, &mirrored).unwrap(), eval_filter(&b, &p).unwrap());
}

#[test]
fn columns_of_other_integer_and_text_types_compare_by_value() {
    let b = ColumnBatch {
        names: vec!["d1".to_string(), "d2".to_string(), "t".to_string(), "u".to_string()],
        columns: vec![
            Column { values: ColumnValues::IntLike("Date32".to_string(), vec![10, 20]), valid: all_valid(2) },
            Column { values: ColumnValues::IntLike("Date32".to_string(), vec![15, 15]), valid: all_valid(2) },
            Column { values: ColumnValues::IntLike("Int16".to_string(), vec![1, 2]), valid: all_valid(2) },
            Column {
                values: ColumnValues::Other("List(Int64)".to_string(), 2),
                valid: all_valid(2),
            },
        ],
        num_rows: 2,
    };
    assert_eq!(
        eval_filter(&b, &Expr::col("d1").gt(Expr::col("d2"))).unwrap(),
        vec![Some(false), Some(true)]
    );
    let e = eval_filter(&b, &Expr::col("d1").eq(Expr::col("t"))).unwrap_err();
    assert_eq!(
        e.to_string(),
        "Arrow error: ==: Invalid argument error: Invalid comparison operation: Date32 == Int16"
    );
    let e = eval_filter(&b, &Expr::col("d1").eq(Expr::lit_i64(10))).unwrap_err();
    assert_eq!(e.to_string(), "Expression error: Unsupported type combination: Date32 vs Int64(10)");
    let r = filter_batch(&b, &Expr::col("d1").lt(Expr::col("d2"))).unwrap();
    assert_eq!(r.num_rows, 1);
    match &r.columns[3].values {
        ColumnValues::Other(name, len) => {
            assert_eq!(name, "List(Int64)");
            assert_eq!(*len, 1);
        }
        other => panic!("unexpected {:?}", other),
    }
}
