use relay::arena::Arena;
use relay::expr::{Expr, FloatLit, Literal, Operator};
use relay::logical_plan::{JoinType, LogicalOp, LogicalPlan, ScanSource, SchemaRef};
use relay::optimizer::ApplyOrder;
use relay::optimizer::{
    eval_float_comparison, eval_int_comparison, exprs_equal, simplify_expr, CommonSubexprEliminate,
    EliminateFilter, EliminateLimit, Optimizer, OptimizerRule, PropagateEmptyRelation,
    PushDownFilter, PushDownLimit, PushDownProjection, SimplifyExpressions,
};
use relay::schema::{RelayField, RelaySchema};
use relay::types::RelayType;
use relay::agg::AggOp;
use std::sync::Arc;

fn test_schema() -> SchemaRef {
    Arc::new(
        RelaySchema::new(vec![
            RelayField::new("id", RelayType::Int64).with_nullable(false),
            RelayField::new("name", RelayType::Utf8).with_nullable(false),
            RelayField::new("value", RelayType::Float64).with_nullable(false),
        ])
        .unwrap(),
    )
}

fn scan(arena: &mut Arena<LogicalOp>) -> relay::arena::NodeId {
    arena.add(LogicalOp::Scan {
        source: ScanSource::Parquet("test.parquet".into()),
        schema: test_schema(),
        projection: None,
        limit: None,
    })
}

fn float(v: f64) -> FloatLit {
    FloatLit { bits: v.to_bits(), text: format!("{}", v), debug: format!("{:?}", v) }
}

#[test]
fn test_build_plan() {
    let mut arena = Arena::new();
    let scan = scan(&mut arena);
    let filter = arena.add(LogicalOp::Filter {
        input: scan,
        predicate: Expr::col("id").gt(Expr::lit_i64(10)),
    });
    let project = arena.add(LogicalOp::Project {
        input: filter,
        columns: vec!["id".into(), "name".into()],
        is_reorder_only: true,
    });
    let plan = LogicalPlan::new(arena, project);
    let display = plan.display();
    assert!(display.contains("Project"));
    assert!(display.contains("Filter"));
    assert!(display.contains("Scan"));
}

#[test]
fn display_is_indented_tree() {
    let mut arena = Arena::new();
    let s = scan(&mut arena);
    let f = arena.add(LogicalOp::Filter { input: s, predicate: Expr::col("id").gt(Expr::lit_i64(10)) });
    let p = arena.add(LogicalOp::Project { input: f, columns: vec!["id".into(), "name".into()], is_reorder_only: true });
    let plan = LogicalPlan::new(arena, p);
    assert_eq!(
        plan.display(),
        "Project([\"id\", \"name\"])\n  Filter((id > 10))\n    Scan(test.parquet)\n"
    );
}

#[test]
fn display_of_every_operator() {
    let mut arena = Arena::new();
    let s = arena.add(LogicalOp::Scan {
        source: ScanSource::Csv("a.csv".into()),
        schema: test_schema(),
        projection: Some(vec![0, 2]),
        limit: Some(5),
    });
    let e = arena.add(LogicalOp::Empty { schema: test_schema() });
    let j = arena.add(LogicalOp::Join {
        left: s,
        right: e,
        join_type: JoinType::Left,
        on: vec![("id".into(), "key".into())],
    });
    let agg = arena.add(LogicalOp::Aggregate { input: j, aggs: vec![("value".into(), AggOp::Sum, "total".into())] });
    let g = arena.add(LogicalOp::GroupBy {
        input: s,
        keys: vec!["name".into()],
        aggs: vec![("id".into(), AggOp::Count, "n".into()), ("value".into(), AggOp::Max, "m".into())],
    });
    let so = arena.add(LogicalOp::Sort { input: g, by: vec![("n".into(), false)] });
    let l = arena.add(LogicalOp::Limit { input: so, n: 3, offset: 1 });
    let u = arena.add(LogicalOp::Union { inputs: vec![agg, l] });
    let plan = LogicalPlan::new(arena, u);
    assert_eq!(
        plan.display(),
        "Union(2 inputs)\n\
         \x20 Aggregate(SUM(value) as total)\n\
         \x20   Join(Left, on=[(\"id\", \"key\")])\n\
         \x20     Scan(a.csv, proj=[0, 2], limit=5)\n\
         \x20     Empty\n\
         \x20 Limit(n=3, offset=1)\n\
         \x20   Sort([(\"n\", false)])\n\
         \x20     GroupBy(keys=[\"name\"], aggs=COUNT(id) as n, MAX(value) as m)\n\
         \x20       Scan(a.csv, proj=[0, 2], limit=5)\n"
    );
}

#[test]
fn filter_columns_sorted_and_unique() {
    let mut arena = Arena::new();
    let s = scan(&mut arena);
    let f1 = arena.add(LogicalOp::Filter {
        input: s,
        predicate: Expr::col("b").gt(Expr::lit_i64(1)).and(Expr::col("a").lt(Expr::col("c"))),
    });
    let f2 = arena.add(LogicalOp::Filter { input: f1, predicate: Expr::col("b").eq(Expr::lit_str("x")).not() });
    let plan = LogicalPlan::new(arena, f2);
    assert_eq!(plan.filter_columns(), vec!["a", "b", "c"]);
}

#[test]
fn expr_display_and_columns() {
    let e = Expr::col("x").ge(Expr::lit_f64(float(1.5))).or(Expr::lit_str("s").ne(Expr::Literal(Literal::Null)));
    assert_eq!(e.to_string(), "((x >= 1.5) OR ('s' != NULL))");
    assert_eq!(Expr::lit_i32(-7).not().to_string(), "NOT (-7)");
    assert_eq!(Expr::col("z").le(Expr::col("y")).and(Expr::col("z")).referenced_columns(), vec!["y", "z"]);
    assert_eq!(Operator::And.to_string(), "AND");
}

#[test]
fn test_eliminate_filter_false() {
    let mut arena = Arena::new();
    let scan = scan(&mut arena);
    let filter = arena.add(LogicalOp::Filter { input: scan, predicate: Expr::lit_bool(false) });
    let plan = LogicalPlan::new(arena, filter);
    let opt = Optimizer::new(vec![Box::new(EliminateFilter)]);
    let result = opt.optimize(plan);
    assert!(matches!(result.root_op(), LogicalOp::Empty { .. }));
}

#[test]
fn test_eliminate_filter_true() {
    let mut arena = Arena::new();
    let scan = scan(&mut arena);
    let filter = arena.add(LogicalOp::Filter { input: scan, predicate: Expr::lit_bool(true) });
    let plan = LogicalPlan::new(arena, filter);
    let opt = Optimizer::new(vec![Box::new(EliminateFilter)]);
    let result = opt.optimize(plan);
    assert!(matches!(result.root_op(), LogicalOp::Scan { .. }));
}

#[test]
fn test_simplify_not_not() {
    let expr = Expr::col("x").gt(Expr::lit_i64(5)).not().not();
    let simplified = simplify_expr(&expr);
    assert_eq!(simplified.to_string(), "(x > 5)");
}

#[test]
fn test_simplify_and_true() {
    let expr = Expr::col("x").gt(Expr::lit_i64(5)).and(Expr::lit_bool(true));
    let simplified = simplify_expr(&expr);
    assert_eq!(simplified.to_string(), "(x > 5)");
}

#[test]
fn test_simplify_and_false() {
    let expr = Expr::col("x").gt(Expr::lit_i64(5)).and(Expr::lit_bool(false));
    let simplified = simplify_expr(&expr);
    assert_eq!(simplified.to_string(), "false");
}

#[test]
fn test_simplify_constant_folding() {
    let expr = Expr::lit_i64(10).gt(Expr::lit_i64(5));
    let simplified = simplify_expr(&expr);
    assert_eq!(simplified.to_string(), "true");
}

#[test]
fn simplify_flips_literal_to_the_right_and_folds_floats() {
    assert_eq!(simplify_expr(&Expr::lit_i32(3).gt(Expr::col("a"))).to_string(), "(a < 3)");
    assert_eq!(simplify_expr(&Expr::lit_str("k").le(Expr::col("a"))).to_string(), "(a >= 'k')");
    assert_eq!(simplify_expr(&Expr::lit_i32(3).eq(Expr::col("a"))).to_string(), "(3 == a)");
    assert_eq!(simplify_expr(&Expr::lit_f64(float(0.5)).lt(Expr::lit_f64(float(2.0)))).to_string(), "true");
    assert_eq!(simplify_expr(&Expr::lit_f64(float(f64::NAN)).eq(Expr::lit_f64(float(f64::NAN)))).to_string(), "false");
    assert_eq!(simplify_expr(&Expr::col("a").or(Expr::lit_bool(false))).to_string(), "a");
    assert_eq!(simplify_expr(&Expr::lit_bool(true).or(Expr::col("a"))).to_string(), "true");
    assert_eq!(simplify_expr(&Expr::lit_i64(1).and(Expr::lit_i64(2))).to_string(), "false");
    assert_eq!(simplify_expr(&Expr::col("b").not().not().not()).to_string(), "NOT (b)");
}

#[test]
fn float_and_int_comparisons() {
    assert!(eval_int_comparison(-3, Operator::Lt, 2));
    assert!(!eval_int_comparison(3, Operator::And, 3));
    assert!(eval_float_comparison((-0.0f64).to_bits(), Operator::Eq, 0.0f64.to_bits()));
    assert!(eval_float_comparison((-1.5f64).to_bits(), Operator::Lt, (-1.0f64).to_bits()));
    assert!(eval_float_comparison(f64::NAN.to_bits(), Operator::Ne, f64::NAN.to_bits()));
    assert!(!eval_float_comparison(f64::NAN.to_bits(), Operator::Ge, 1.0f64.to_bits()));
    assert!(eval_float_comparison(f64::INFINITY.to_bits(), Operator::Gt, f64::MAX.to_bits()));
    assert!(exprs_equal(&Expr::lit_i64(5), &Expr::col("5")));
    assert!(!exprs_equal(&Expr::lit_i64(5), &Expr::lit_i64(6)));
}

#[test]
fn test_push_down_filter_through_project() {
    let mut arena = Arena::new();
    let scan = scan(&mut arena);
    let project = arena.add(LogicalOp::Project {
        input: scan,
        columns: vec!["id".into(), "name".into()],
        is_reorder_only: true,
    });
    let filter = arena.add(LogicalOp::Filter { input: project, predicate: Expr::col("id").gt(Expr::lit_i64(10)) });
    let plan = LogicalPlan::new(arena, filter);
    let opt = Optimizer::new(vec![Box::new(PushDownFilter)]);
    let result = opt.optimize(plan);
    assert!(matches!(result.root_op(), LogicalOp::Project { .. }));
}

#[test]
fn push_down_filter_keeps_filter_reading_dropped_columns() {
    let mut arena = Arena::new();
    let scan = scan(&mut arena);
    let project = arena.add(LogicalOp::Project { input: scan, columns: vec!["id".into()], is_reorder_only: true });
    let filter = arena.add(LogicalOp::Filter { input: project, predicate: Expr::col("value").gt(Expr::lit_i64(10)) });
    let plan = LogicalPlan::new(arena, filter);
    let r = PushDownFilter.rewrite(plan);
    assert!(!r.changed);
    assert_eq!(r.plan.arena.len(), 3);
    assert_eq!(r.plan.root, filter);
}

#[test]
fn test_push_down_projection_into_scan() {
    let mut arena = Arena::new();
    let scan = scan(&mut arena);
    let project = arena.add(LogicalOp::Project {
        input: scan,
        columns: vec!["id".into(), "value".into()],
        is_reorder_only: true,
    });
    let plan = LogicalPlan::new(arena, project);
    let opt = Optimizer::new(vec![Box::new(PushDownProjection)]);
    let result = opt.optimize(plan);
    match result.root_op() {
        LogicalOp::Scan { projection, .. } => {
            assert!(projection.is_some());
            assert_eq!(projection.as_ref().unwrap().len(), 2);
            assert_eq!(projection.as_ref().unwrap(), &vec![0, 2]);
        }
        _ => panic!("Expected Scan with projection"),
    }
}

#[test]
fn push_down_projection_needs_every_name_and_fewer_columns() {
    let mut arena = Arena::new();
    let s = scan(&mut arena);
    let p = arena.add(LogicalOp::Project {
        input: s,
        columns: vec!["value".into(), "id".into(), "name".into()],
        is_reorder_only: true,
    });
    let r = PushDownProjection.rewrite(LogicalPlan::new(arena, p));
    assert!(!r.changed);
    let mut arena = Arena::new();
    let s = scan(&mut arena);
    let p = arena.add(LogicalOp::Project { input: s, columns: vec!["id".into(), "nope".into()], is_reorder_only: true });
    assert!(!PushDownProjection.rewrite(LogicalPlan::new(arena, p)).changed);
}

#[test]
fn test_push_down_limit_into_scan() {
    let mut arena = Arena::new();
    let scan = scan(&mut arena);
    let limit = arena.add(LogicalOp::Limit { input: scan, n: 100, offset: 0 });
    let plan = LogicalPlan::new(arena, limit);
    let opt = Optimizer::new(vec![Box::new(PushDownLimit)]);
    let result = opt.optimize(plan);
    match result.root_op() {
        LogicalOp::Scan { limit, .. } => {
            assert_eq!(*limit, Some(100));
        }
        _ => panic!("Expected Scan with limit"),
    }
}

#[test]
fn push_down_limit_with_offset_moves_below_projection() {
    let mut arena = Arena::new();
    let s = scan(&mut arena);
    let p = arena.add(LogicalOp::Project { input: s, columns: vec!["id".into()], is_reorder_only: false });
    let l = arena.add(LogicalOp::Limit { input: p, n: 10, offset: 5 });
    let r = PushDownLimit.rewrite(LogicalPlan::new(arena, l));
    assert!(r.changed);
    assert_eq!(r.plan.arena.len(), 5);
    assert_eq!(r.plan.display(), "Project([\"id\"])\n  Limit(n=10, offset=5)\n    Scan(test.parquet)\n");
}

#[test]
fn propagate_empty_and_no_op_rules() {
    let mut arena = Arena::new();
    let e = arena.add(LogicalOp::Empty { schema: test_schema() });
    let l = arena.add(LogicalOp::Limit { input: e, n: 1, offset: 0 });
    let r = PropagateEmptyRelation.rewrite(LogicalPlan::new(arena, l));
    assert!(r.changed);
    assert_eq!(r.plan.root, e);
    assert_eq!(r.plan.arena.len(), 2);
    let r2 = EliminateLimit.rewrite(r.plan);
    assert!(!r2.changed);
    let r3 = CommonSubexprEliminate.rewrite(r2.plan);
    assert!(!r3.changed);
    assert_eq!(EliminateLimit.name(), "eliminate_limit");
}

#[test]
fn simplify_rule_rebuilds_filter_chain() {
    let mut arena = Arena::new();
    let s = scan(&mut arena);
    let inner = arena.add(LogicalOp::Filter { input: s, predicate: Expr::col("id").gt(Expr::lit_i64(1)).not().not() });
    let outer = arena.add(LogicalOp::Filter { input: inner, predicate: Expr::col("name").eq(Expr::lit_str("a")) });
    let r = SimplifyExpressions.rewrite(LogicalPlan::new(arena, outer));
    assert!(r.changed);
    assert_eq!(r.plan.arena.len(), 5);
    assert_eq!(r.plan.display(), "Filter((name == 'a'))\n  Filter((id > 1))\n    Scan(test.parquet)\n");
}

#[test]
fn test_full_optimizer_pipeline() {
    let mut arena = Arena::new();
    let scan = scan(&mut arena);
    let project = arena.add(LogicalOp::Project {
        input: scan,
        columns: vec!["id".into(), "name".into()],
        is_reorder_only: true,
    });
    let filter = arena.add(LogicalOp::Filter { input: project, predicate: Expr::col("id").gt(Expr::lit_i64(10)) });
    let plan = LogicalPlan::new(arena, filter);
    let opt = Optimizer::with_defaults();
    let result = opt.optimize(plan);
    let display = result.display();
    assert!(display.contains("Scan") || display.contains("Filter") || display.contains("Project"));
}

#[test]
fn default_optimizer_rules_and_result() {
    let opt = Optimizer::with_defaults();
    assert_eq!(
        opt.rule_names(),
        vec![
            "eliminate_filter",
            "simplify_expressions",
            "push_down_filter",
            "push_down_projection",
            "push_down_limit",
            "eliminate_limit",
            "propagate_empty",
            "common_subexpr_eliminate"
        ]
    );
    let mut arena = Arena::new();
    let s = scan(&mut arena);
    let p = arena.add(LogicalOp::Project { input: s, columns: vec!["id".into(), "name".into()], is_reorder_only: true });
    let f = arena.add(LogicalOp::Filter { input: p, predicate: Expr::lit_i64(10).lt(Expr::col("id")) });
    let result = opt.optimize(LogicalPlan::new(arena, f));
    // Pushing the filter below the projection and the projection below the
    // filter undo each other, so rounds run to the maximum.
    assert_eq!(result.display(), "Filter((id > 10))\n  Project([\"id\", \"name\"])\n    Scan(test.parquet)\n");
    assert_eq!(result.arena.len(), 3 + 1 + 4 * 10);
    let opt1 = Optimizer::with_defaults().with_max_iterations(0);
    let mut arena = Arena::new();
    let s = scan(&mut arena);
    let f = arena.add(LogicalOp::Filter { input: s, predicate: Expr::lit_bool(true) });
    let unchanged = opt1.optimize(LogicalPlan::new(arena, f));
    assert_eq!(unchanged.root, f);
}

#[test]
fn rule_traversal_orders() {
    assert_eq!(EliminateFilter.apply_order(), ApplyOrder::BottomUp);
    assert_eq!(SimplifyExpressions.apply_order(), ApplyOrder::BottomUp);
    assert_eq!(PushDownFilter.apply_order(), ApplyOrder::TopDown);
    assert_eq!(PushDownProjection.apply_order(), ApplyOrder::TopDown);
    assert_eq!(PushDownLimit.apply_order(), ApplyOrder::TopDown);
    assert_eq!(EliminateLimit.apply_order(), ApplyOrder::BottomUp);
    assert_eq!(PropagateEmptyRelation.apply_order(), ApplyOrder::BottomUp);
    assert_eq!(CommonSubexprEliminate.apply_order(), ApplyOrder::BottomUp);
}

#[test]
fn simplification_reaches_a_fixed_point() {
    let e = Expr::lit_i64(10)
        .lt(Expr::col("id"))
        .and(Expr::lit_bool(true))
        .not()
        .not()
        .or(Expr::lit_i64(1).gt(Expr::lit_i64(2)));
    let once = simplify_expr(&e);
    let twice = simplify_expr(&once);
    assert_eq!(once.to_string(), twice.to_string());
    assert_eq!(once.to_string(), "(id > 10)");
}

#[test]
fn default_rules_in_order() {
    let opt = Optimizer::with_defaults();
    assert_eq!(
        opt.rule_names(),
        vec![
            "eliminate_filter",
            "simplify_expressions",
            "push_down_filter",
            "push_down_projection",
            "push_down_limit",
            "eliminate_limit",
            "propagate_empty",
            "common_subexpr_eliminate",
        ]
    );
}
