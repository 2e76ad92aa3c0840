//! Query plans: an optional filter, an optional projection and aggregations,
//! applied in that order.
use vstd::prelude::*;
use crate::agg::{agg_op_text, AggOp};
use crate::expr::Expr;

verus! {

/// An aggregation expression: (column_name, operation, alias).
#[derive(Debug)]
pub struct AggExpr {
    pub column: String,
    pub op: AggOp,
    pub alias: String,
}

impl AggExpr {
    /// An aggregation aliased `OP_column`, such as `SUM_value`.
    pub fn new(column: &str, op: AggOp) -> (r: Self)
        ensures
            r.column@ == column@,
            r.op == op,
            r.alias@ == agg_op_text(op) + "_"@ + column@,
    {
        let mut alias = op.to_string();
        alias.append("_");
        alias.append(column);
        AggExpr { column: column.to_string(), op, alias }
    }

    /// An aggregation with an explicit alias.
    pub fn with_alias(column: &str, op: AggOp, alias: &str) -> (r: Self)
        ensures
            r.column@ == column@,
            r.op == op,
            r.alias@ == alias@,
    {
        AggExpr { column: column.to_string(), op, alias: alias.to_string() }
    }
}

/// A composable query plan: filter, then project, then aggregate.
#[derive(Debug)]
pub struct QueryPlan {
    /// Optional filter predicate.
    pub filter: Option<Expr>,
    /// Optional column projection (names to keep).
    pub projection: Option<Vec<String>>,
    /// Optional aggregation operations.
    pub aggregations: Vec<AggExpr>,
}

impl QueryPlan {
    /// An empty plan (scan everything).
    pub fn new() -> (r: Self)
        ensures
            r.filter is None,
            r.projection is None,
            r.aggregations@.len() == 0,
    {
        QueryPlan { filter: None, projection: None, aggregations: Vec::new() }
    }

    /// Sets the filter predicate (replacing an earlier one).
    pub fn filter(self, predicate: Expr) -> (r: Self)
        ensures
            r == (QueryPlan { filter: Some(predicate), ..self }),
    {
        let mut p = self;
        p.filter = Some(predicate);
        p
    }

    /// Sets the column projection (replacing an earlier one).
    pub fn project(self, columns: Vec<String>) -> (r: Self)
        ensures
            r == (QueryPlan { projection: Some(columns), ..self }),
    {
        let mut p = self;
        p.projection = Some(columns);
        p
    }

    /// Adds an aggregation after the earlier ones.
    pub fn agg(self, expr: AggExpr) -> (r: Self)
        ensures
            r.filter == self.filter,
            r.projection == self.projection,
            r.aggregations@ == self.aggregations@.push(expr),
    {
        let mut p = self;
        p.aggregations.push(expr);
        p
    }
}

impl Default for QueryPlan {
    fn default() -> (r: Self)
        ensures
            r.filter is None,
            r.projection is None,
            r.aggregations@.len() == 0,
    {
        Self::new()
    }
}

} // verus!
