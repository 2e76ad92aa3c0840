use relay::agg::AggOp;
use relay::batch::{check_batch_columns, column_position};
use relay::expr::Expr;
use relay::plan::{AggExpr, QueryPlan};

fn names(v: &[&str]) -> Vec<String> {
    v.iter().map(|s| s.to_string()).collect()
}

#[test]
fn batch_columns_must_agree() {
    assert_eq!(check_batch_columns(&names(&["a", "b"]), &[3, 3]).unwrap(), 3);
    assert_eq!(check_batch_columns(&names(&[]), &[]).unwrap(), 0);
    let e = check_batch_columns(&names(&["a", "b"]), &[3, 2]).unwrap_err();
    assert_eq!(
        e.to_string(),
        "Schema error: row count mismatch: column 'b' has 2 rows but expected 3"
    );
    let e = check_batch_columns(&names(&["a"]), &[1, 1]).unwrap_err();
    assert_eq!(e.to_string(), "Schema error: column count mismatch: 1 names but 2 arrays");
}

#[test]
fn column_positions_by_name() {
    let n = names(&["name", "age", "salary", "age"]);
    assert_eq!(column_position(&n, "age").unwrap(), 1);
    let e = column_position(&n, "nonexistent").unwrap_err();
    assert_eq!(e.to_string(), "Schema error: column not found: nonexistent");
}

#[test]
fn aggregation_aliases() {
    let a = AggExpr::new("value", AggOp::Sum);
    assert_eq!(a.alias, "SUM_value");
    assert_eq!(a.column, "value");
    let m = AggExpr::new("x", AggOp::Mean);
    assert_eq!(m.alias, "MEAN_x");
    let c = AggExpr::with_alias("x", AggOp::Count, "n");
    assert_eq!(c.alias, "n");
}

#[test]
fn plans_compose_in_order() {
    let plan = QueryPlan::new()
        .filter(Expr::col("id").gt(Expr::lit_i64(1)))
        .project(names(&["id", "value"]))
        .agg(AggExpr::new("value", AggOp::Max))
        .agg(AggExpr::new("id", AggOp::Count));
    assert!(plan.filter.is_some());
    assert_eq!(plan.projection.as_ref().unwrap(), &names(&["id", "value"]));
    assert_eq!(plan.aggregations.len(), 2);
    assert_eq!(plan.aggregations[1].alias, "COUNT_id");
    let empty = QueryPlan::default();
    assert!(empty.filter.is_none() && empty.projection.is_none() && empty.aggregations.is_empty());
}
