//! Aggregation operations and their names.
use vstd::prelude::*;
use crate::text::{ci_word, is_ci_word};

verus! {

/// Aggregation operation type.
#[derive(Debug, Clone, Copy, PartialEq, Eq, Structural)]
pub enum AggOp {
    Sum,
    Mean,
    Min,
    Max,
    Count,
}

/// The upper-case name of an aggregation.
pub open spec fn agg_op_text(op: AggOp) -> Seq<char> {
    match op {
        AggOp::Sum => "SUM"@,
        AggOp::Mean => "MEAN"@,
        AggOp::Min => "MIN"@,
        AggOp::Max => "MAX"@,
        AggOp::Count => "COUNT"@,
    }
}

impl AggOp {
    /// The upper-case name: `SUM`, `MEAN`, `MIN`, `MAX` or `COUNT`.
    pub fn to_string(&self) -> (r: String)
        ensures
            r@ == agg_op_text(*self),
    {
        let mut out = String::new();
        self.push_text(&mut out);
        out
    }

    /// Appends the upper-case name.
    pub fn push_text(&self, out: &mut String)
        ensures
            final(out)@ == old(out)@ + agg_op_text(*self),
    {
        match self {
            AggOp::Sum => out.append("SUM"),
            AggOp::Mean => out.append("MEAN"),
            AggOp::Min => out.append("MIN"),
            AggOp::Max => out.append("MAX"),
            AggOp::Count => out.append("COUNT"),
        }
    }
}

/// The aggregation a name asks for, in any letter case: `sum`, `mean` or
/// `avg`, `min`, `max`, `count`.
pub open spec fn agg_op_named(name: Seq<char>) -> Option<AggOp> {
    if ci_word(name, "sum"@) {
        Some(AggOp::Sum)
    } else if ci_word(name, "mean"@) || ci_word(name, "avg"@) {
        Some(AggOp::Mean)
    } else if ci_word(name, "min"@) {
        Some(AggOp::Min)
    } else if ci_word(name, "max"@) {
        Some(AggOp::Max)
    } else if ci_word(name, "count"@) {
        Some(AggOp::Count)
    } else {
        None
    }
}

/// Reads an aggregation's name.
pub fn agg_op_from_name(name: &str) -> (r: Option<AggOp>)
    ensures
        r == agg_op_named(name@),
{
    proof {
        reveal_strlit("sum");
        reveal_strlit("mean");
        reveal_strlit("avg");
        reveal_strlit("min");
        reveal_strlit("max");
        reveal_strlit("count");
    }
    if is_ci_word(name, "sum") {
        Some(AggOp::Sum)
    } else if is_ci_word(name, "mean") || is_ci_word(name, "avg") {
        Some(AggOp::Mean)
    } else if is_ci_word(name, "min") {
        Some(AggOp::Min)
    } else if is_ci_word(name, "max") {
        Some(AggOp::Max)
    } else if is_ci_word(name, "count") {
        Some(AggOp::Count)
    } else {
        None
    }
}

} // verus!
