use relay::agg::AggOp;
use relay::scan_agg::{aggregate_i32, I32Column};
use relay::scan_agg::{aggregate_fits, fused_aggregate_fits, pruned_aggregate_fits};
use relay::scan_agg::{
    aggregate_batches, column_max, column_min, column_sum, compare_column, compare_i64_scalar,
    filter_aggregate_batches, fused_projection, mask_keeps_batch, name_positions,
    parse_compare_op, pruned_filter_aggregate, row_groups_matching_filter, streaming_aggregate,
    valid_rows, AggOutcome, ChunkStats, CompareOp, I64Column,
};

fn col(v: &[i64]) -> I64Column {
    I64Column::from_values(v.to_vec())
}

fn stats(min: i64, max: i64) -> Option<ChunkStats> {
    Some(ChunkStats {
        min_bytes: Some(min.to_le_bytes().to_vec()),
        max_bytes: Some(max.to_le_bytes().to_vec()),
    })
}

#[test]
fn parallel_agg_sum_over_two_batches() {
    let batches = vec![col(&[1, 2, 3, 4, 5]), col(&[6, 7, 8, 9, 10])];
    assert!(matches!(aggregate_batches(&batches, AggOp::Sum), AggOutcome::Int64(55)));
}

#[test]
fn parallel_agg_min_max_over_two_batches() {
    let batches = vec![col(&[5, 3, 1, 4, 2]), col(&[15, 13, 11, 14, 12])];
    assert!(matches!(aggregate_batches(&batches, AggOp::Min), AggOutcome::Int64(1)));
    assert!(matches!(aggregate_batches(&batches, AggOp::Max), AggOutcome::Int64(15)));
    assert!(matches!(aggregate_batches(&batches, AggOp::Count), AggOutcome::Int64(10)));
    assert!(matches!(
        aggregate_batches(&batches, AggOp::Mean),
        AggOutcome::Mean { sum: 80, count: 10 }
    ));
}

#[test]
fn aggregate_skips_nulls_and_empty_input_is_null() {
    let c = I64Column { values: vec![4, 100, 6], valid: vec![true, false, true] };
    assert_eq!(valid_rows(&c), 2);
    assert_eq!(column_sum(&c), Some(10));
    assert_eq!(column_min(&c), Some(4));
    assert_eq!(column_max(&c), Some(6));
    let none: Vec<I64Column> = Vec::new();
    assert!(matches!(aggregate_batches(&none, AggOp::Min), AggOutcome::Null));
}

#[test]
fn fused_filter_agg_sum_and_count() {
    let ids = vec![col(&[1, 2, 3, 4, 5]), col(&[6, 7, 8, 9, 10])];
    let vals = vec![col(&[10, 20, 30, 40, 50]), col(&[60, 70, 80, 90, 100])];
    assert!(matches!(
        filter_aggregate_batches(&ids, &vals, "<", 5, AggOp::Sum),
        AggOutcome::Int64(100)
    ));
    assert!(matches!(
        filter_aggregate_batches(&ids, &vals, ">=", 7, AggOp::Count),
        AggOutcome::Int64(4)
    ));
}

#[test]
fn parquet_fused_filter_agg() {
    let f = vec![col(&[1, 2, 3, 4, 5])];
    let a = vec![col(&[10, 20, 30, 40, 50])];
    assert!(matches!(
        pruned_filter_aggregate(&f, &a, ">", 3, AggOp::Sum),
        AggOutcome::Int64(90)
    ));
}

#[test]
fn streaming_sum_min_max() {
    let b = vec![col(&[10, 20, 30])];
    assert!(matches!(streaming_aggregate(&b, AggOp::Sum), AggOutcome::Int64(60)));
    assert!(matches!(streaming_aggregate(&b, AggOp::Min), AggOutcome::Int64(10)));
    assert!(matches!(streaming_aggregate(&b, AggOp::Max), AggOutcome::Int64(30)));
}

#[test]
fn row_group_pruning_by_statistics() {
    let groups = vec![stats(0, 999), stats(1000, 1999), stats(2000, 2999)];
    let matching = row_groups_matching_filter(&groups, ">", 1500);
    assert_eq!(matching, vec![1, 2]);
    let matching = row_groups_matching_filter(&groups, "==", 500);
    assert_eq!(matching, vec![0]);
    assert_eq!(row_groups_matching_filter(&groups, "<", 0), Vec::<usize>::new());
    // Groups without usable statistics are kept.
    let partial = vec![None, Some(ChunkStats { min_bytes: Some(vec![1, 2]), max_bytes: None })];
    assert_eq!(row_groups_matching_filter(&partial, ">", 5), vec![0, 1]);
}

#[test]
fn operator_names() {
    assert_eq!(parse_compare_op("<").unwrap(), CompareOp::Lt);
    assert_eq!(parse_compare_op("<=").unwrap(), CompareOp::Le);
    assert_eq!(parse_compare_op(">").unwrap(), CompareOp::Gt);
    assert_eq!(parse_compare_op(">=").unwrap(), CompareOp::Ge);
    assert_eq!(parse_compare_op("==").unwrap(), CompareOp::Eq);
    assert_eq!(parse_compare_op("!=").unwrap(), CompareOp::Ne);
    let e = parse_compare_op("~").unwrap_err();
    assert_eq!(e.to_string(), "Expression error: Unknown operator: ~");
}

#[test]
fn compare_masks() {
    let c = I64Column { values: vec![1, 5, 9], valid: vec![true, true, false] };
    let m = compare_column(&c, CompareOp::Gt, 4);
    assert_eq!(m.values, vec![false, true, true]);
    assert_eq!(m.valid, vec![true, true, false]);
    let m = compare_i64_scalar(&c, "!=", 5).unwrap();
    assert_eq!(m.values, vec![true, false, true]);
    assert!(compare_i64_scalar(&c, "<>", 5).is_err());
}

#[test]
fn mask_and_projection_helpers() {
    let c = I64Column { values: vec![1, 2], valid: vec![false, false] };
    let m = compare_column(&c, CompareOp::Eq, 1);
    assert!(!mask_keeps_batch(&m));
    let c = col(&[3]);
    assert!(mask_keeps_batch(&compare_column(&c, CompareOp::Eq, 3)));
    assert_eq!(fused_projection(2, 0), (vec![0, 2], 1, 0));
    assert_eq!(fused_projection(1, 1), (vec![1], 0, 0));
    let fields = vec!["a".to_string(), "b".to_string(), "a".to_string()];
    assert_eq!(name_positions(&fields, &["a", "z", "b"]), vec![0, 1]);
}

#[test]
fn overflow_checks_for_aggregation() {
    let small = vec![col(&[1, 2, 3]), col(&[4, 5])];
    assert!(aggregate_fits(&small, AggOp::Sum));
    let big = vec![col(&[i64::MAX]), col(&[1])];
    assert!(!aggregate_fits(&big, AggOp::Sum));
    assert!(aggregate_fits(&big, AggOp::Max));
    let f = vec![col(&[1, 2])];
    let a = vec![col(&[i64::MAX, i64::MAX])];
    assert!(!fused_aggregate_fits(&f, &a, ">", 0, AggOp::Sum));
    assert!(fused_aggregate_fits(&f, &a, ">", 1, AggOp::Sum));
    assert!(fused_aggregate_fits(&f, &a, "??", 0, AggOp::Sum));
    let with_null = vec![I64Column { values: vec![1, 2], valid: vec![true, false] }];
    assert!(!pruned_aggregate_fits(&with_null, &a, ">", 0, AggOp::Count));
    assert!(pruned_aggregate_fits(&f, &a, ">", 0, AggOp::Count));
}

#[test]
fn parquet_fused_mean_beyond_i64() {
    let f = vec![col(&[1, 2]), col(&[3, 4])];
    let a = vec![col(&[i64::MAX, 0]), col(&[i64::MAX - 2, 2])];
    assert!(pruned_aggregate_fits(&f, &a, ">=", 1, AggOp::Mean));
    assert!(!pruned_aggregate_fits(&f, &a, ">=", 1, AggOp::Sum));
    assert_eq!(
        pruned_filter_aggregate(&f, &a, ">=", 1, AggOp::Mean),
        AggOutcome::WideMean { sum: 2 * (i64::MAX as i128), count: 4 }
    );
    assert_eq!(pruned_filter_aggregate(&f, &a, ">", 9, AggOp::Mean), AggOutcome::Null);
}

#[test]
fn batches_aggregate_like_the_whole_column() {
    let parts = vec![col(&[4, -2]), col(&[]), col(&[9, 1, 3])];
    let whole = col(&[4, -2, 9, 1, 3]);
    assert_eq!(aggregate_batches(&parts, AggOp::Sum), AggOutcome::Int64(column_sum(&whole).unwrap()));
    assert_eq!(aggregate_batches(&parts, AggOp::Min), AggOutcome::Int64(column_min(&whole).unwrap()));
    assert_eq!(aggregate_batches(&parts, AggOp::Max), AggOutcome::Int64(column_max(&whole).unwrap()));
    assert_eq!(aggregate_batches(&parts, AggOp::Count), AggOutcome::Int64(valid_rows(&whole) as i64));
    assert_eq!(aggregate_batches(&parts, AggOp::Mean), AggOutcome::Mean { sum: 15, count: 5 });
}

#[test]
fn int32_column_aggregates() {
    let c = I32Column { values: vec![5, -3, 8, 100], valid: vec![true, true, true, false] };
    assert_eq!(aggregate_i32(&c, AggOp::Sum), AggOutcome::Int64(10));
    assert_eq!(aggregate_i32(&c, AggOp::Count), AggOutcome::Int64(3));
    assert_eq!(aggregate_i32(&c, AggOp::Min), AggOutcome::Int64(-3));
    assert_eq!(aggregate_i32(&c, AggOp::Max), AggOutcome::Int64(8));
    assert_eq!(aggregate_i32(&c, AggOp::Mean), AggOutcome::Mean { sum: 10, count: 3 });
    let wrap = I32Column { values: vec![i32::MAX, 1], valid: vec![true, true] };
    assert_eq!(aggregate_i32(&wrap, AggOp::Sum), AggOutcome::Int64(i32::MIN as i64));
    let none = I32Column { values: vec![7], valid: vec![false] };
    assert_eq!(aggregate_i32(&none, AggOp::Sum), AggOutcome::Int64(0));
    assert_eq!(aggregate_i32(&none, AggOp::Min), AggOutcome::Null);
    assert_eq!(aggregate_i32(&none, AggOp::Mean), AggOutcome::Null);
}
