//! Aggregation and filter kernels behind the columnar readers.
//!
//! A batch's integer column is held as its values and a validity flag per
//! row, the layout the readers receive from storage (a null row keeps some
//! value, which comparisons still see). Sums inside one batch wrap around on
//! overflow; adding the partial results of several batches may not overflow.
use vstd::prelude::*;
use crate::agg::AggOp;
use crate::error::RelayError;
use crate::text::str_eq;

verus! {

// ─── Columns ──────────────────────────────────────────────────────

/// One batch's column of 64-bit integers: a value and a validity flag per row.
#[derive(Debug, Clone)]
pub struct I64Column {
    pub values: Vec<i64>,
    pub valid: Vec<bool>,
}

/// A column of booleans with validity, as comparisons produce.
#[derive(Debug, Clone)]
pub struct BoolColumn {
    pub values: Vec<bool>,
    pub valid: Vec<bool>,
}

impl I64Column {
    /// Values and validity flags have the same length.
    pub open spec fn wf(self) -> bool {
        self.values@.len() == self.valid@.len()
    }

    /// A column without nulls.
    pub fn from_values(values: Vec<i64>) -> (r: I64Column)
        ensures
            r.wf(),
            r.values@ == values@,
            forall|i: int| 0 <= i < r.valid@.len() ==> r.valid@[i],
    {
        let mut valid: Vec<bool> = Vec::new();
        let mut i: usize = 0;
        while i < values.len()
            invariant
                i <= values@.len(),
                valid@.len() == i,
                forall|j: int| 0 <= j < i ==> valid@[j],
            decreases values@.len() - i,
        {
            valid.push(true);
            i += 1;
        }
        I64Column { values, valid }
    }
}

/// Wrapping sum of the valid values among the first `n` rows.
pub open spec fn wrapped_sum(values: Seq<i64>, valid: Seq<bool>, n: int) -> i64
    decreases n,
{
    if n <= 0 {
        0
    } else if valid[n - 1] {
        wrapped_sum(values, valid, n - 1).wrapping_add(values[n - 1])
    } else {
        wrapped_sum(values, valid, n - 1)
    }
}

/// Number of valid rows among the first `n`.
pub open spec fn valid_count(valid: Seq<bool>, n: int) -> nat
    decreases n,
{
    if n <= 0 {
        0
    } else {
        valid_count(valid, n - 1) + if valid[n - 1] {
            1nat
        } else {
            0nat
        }
    }
}

/// Smallest valid value among the first `n` rows, if any.
pub open spec fn min_valid(values: Seq<i64>, valid: Seq<bool>, n: int) -> Option<i64>
    decreases n,
{
    if n <= 0 {
        None
    } else {
        let rest = min_valid(values, valid, n - 1);
        if !valid[n - 1] {
            rest
        } else {
            match rest {
                Some(m) => Some(if values[n - 1] < m {
                    values[n - 1]
                } else {
                    m
                }),
                None => Some(values[n - 1]),
            }
        }
    }
}

/// Largest valid value among the first `n` rows, if any.
pub open spec fn max_valid(values: Seq<i64>, valid: Seq<bool>, n: int) -> Option<i64>
    decreases n,
{
    if n <= 0 {
        None
    } else {
        let rest = max_valid(values, valid, n - 1);
        if !valid[n - 1] {
            rest
        } else {
            match rest {
                Some(m) => Some(if values[n - 1] > m {
                    values[n - 1]
                } else {
                    m
                }),
                None => Some(values[n - 1]),
            }
        }
    }
}

/// The sum of a column's valid values (wrapping), or none when no row is valid.
pub open spec fn col_sum(c: I64Column) -> Option<i64> {
    if valid_count(c.valid@, c.valid@.len() as int) == 0 {
        None
    } else {
        Some(wrapped_sum(c.values@, c.valid@, c.values@.len() as int))
    }
}

pub open spec fn col_count(c: I64Column) -> nat {
    valid_count(c.valid@, c.valid@.len() as int)
}

pub open spec fn col_min(c: I64Column) -> Option<i64> {
    min_valid(c.values@, c.valid@, c.values@.len() as int)
}

pub open spec fn col_max(c: I64Column) -> Option<i64> {
    max_valid(c.values@, c.valid@, c.values@.len() as int)
}

proof fn lemma_valid_count_bound(valid: Seq<bool>, n: int)
    requires
        0 <= n <= valid.len(),
    ensures
        valid_count(valid, n) <= n,
    decreases n,
{
    if n > 0 {
        lemma_valid_count_bound(valid, n - 1);
    }
}

/// Number of valid rows.
pub fn valid_rows(c: &I64Column) -> (r: usize)
    requires
        c.wf(),
    ensures
        r == col_count(*c),
{
    let mut count: usize = 0;
    let mut i: usize = 0;
    while i < c.valid.len()
        invariant
            i <= c.valid@.len(),
            count == valid_count(c.valid@, i as int),
        decreases c.valid@.len() - i,
    {
        proof {
            lemma_valid_count_bound(c.valid@, i + 1);
        }
        if c.valid[i] {
            count += 1;
        }
        i += 1;
    }
    count
}

/// Sum of the valid values, wrapping on overflow; none when no row is valid.
pub fn column_sum(c: &I64Column) -> (r: Option<i64>)
    requires
        c.wf(),
    ensures
        r == col_sum(*c),
{
    let mut sum: i64 = 0;
    let mut any = false;
    let mut i: usize = 0;
    while i < c.values.len()
        invariant
            c.wf(),
            i <= c.values@.len(),
            sum == wrapped_sum(c.values@, c.valid@, i as int),
            any == (valid_count(c.valid@, i as int) > 0),
        decreases c.values@.len() - i,
    {
        if c.valid[i] {
            sum = sum.wrapping_add(c.values[i]);
            any = true;
        }
        i += 1;
    }
    if any {
        Some(sum)
    } else {
        None
    }
}

/// Smallest valid value; none when no row is valid.
pub fn column_min(c: &I64Column) -> (r: Option<i64>)
    requires
        c.wf(),
    ensures
        r == col_min(*c),
{
    let mut m: Option<i64> = None;
    let mut i: usize = 0;
    while i < c.values.len()
        invariant
            c.wf(),
            i <= c.values@.len(),
            m == min_valid(c.values@, c.valid@, i as int),
        decreases c.values@.len() - i,
    {
        if c.valid[i] {
            let v = c.values[i];
            m = match m {
                Some(x) => Some(if v < x {
                    v
                } else {
                    x
                }),
                None => Some(v),
            };
        }
        i += 1;
    }
    m
}

/// Largest valid value; none when no row is valid.
pub fn column_max(c: &I64Column) -> (r: Option<i64>)
    requires
        c.wf(),
    ensures
        r == col_max(*c),
{
    let mut m: Option<i64> = None;
    let mut i: usize = 0;
    while i < c.values.len()
        invariant
            c.wf(),
            i <= c.values@.len(),
            m == max_valid(c.values@, c.valid@, i as int),
        decreases c.values@.len() - i,
    {
        if c.valid[i] {
            let v = c.values[i];
            m = match m {
                Some(x) => Some(if v > x {
                    v
                } else {
                    x
                }),
                None => Some(v),
            };
        }
        i += 1;
    }
    m
}

// ─── 32-bit integer columns ───────────────────────────────────────

/// A column of 32-bit integers with validity flags.
#[derive(Debug, Clone)]
pub struct I32Column {
    pub values: Vec<i32>,
    pub valid: Vec<bool>,
}

impl I32Column {
    /// Values and validity flags have the same length.
    pub open spec fn wf(self) -> bool {
        self.values@.len() == self.valid@.len()
    }
}

/// Wrapping 32-bit sum of the valid values among the first `n` rows.
pub open spec fn wrapped_sum32(values: Seq<i32>, valid: Seq<bool>, n: int) -> i32
    decreases n,
{
    if n <= 0 {
        0
    } else if valid[n - 1] {
        wrapped_sum32(values, valid, n - 1).wrapping_add(values[n - 1])
    } else {
        wrapped_sum32(values, valid, n - 1)
    }
}

/// The values widened to 64 bits.
pub open spec fn widened(values: Seq<i32>) -> Seq<i64> {
    values.map_values(|v: i32| v as i64)
}

/// The aggregate of a 32-bit column: the sum is taken in 32 bits, wrapping,
/// and widened (0 when no row is valid); the mean divides that sum by the
/// valid-row count (null when there is none); the extremes are null when no
/// row is valid.
pub open spec fn column32_aggregate(c: I32Column, op: AggOp) -> AggOutcome {
    let n = c.values@.len() as int;
    let count = valid_count(c.valid@, n);
    match op {
        AggOp::Count => AggOutcome::Int64(count as i64),
        AggOp::Sum => AggOutcome::Int64(wrapped_sum32(c.values@, c.valid@, n) as i64),
        AggOp::Mean => if count == 0 {
            AggOutcome::Null
        } else {
            AggOutcome::Mean { sum: wrapped_sum32(c.values@, c.valid@, n) as i64, count: count as i64 }
        },
        AggOp::Min => match min_valid(widened(c.values@), c.valid@, n) {
            Some(m) => AggOutcome::Int64(m),
            None => AggOutcome::Null,
        },
        AggOp::Max => match max_valid(widened(c.values@), c.valid@, n) {
            Some(m) => AggOutcome::Int64(m),
            None => AggOutcome::Null,
        },
    }
}

/// Aggregate of a 32-bit integer column.
pub fn aggregate_i32(c: &I32Column, op: AggOp) -> (r: AggOutcome)
    requires
        c.wf(),
        c.values@.len() <= i64::MAX,
    ensures
        r == column32_aggregate(*c, op),
{
    let ghost w = widened(c.values@);
    let mut sum: i32 = 0;
    let mut count: usize = 0;
    let mut lo: Option<i64> = None;
    let mut hi: Option<i64> = None;
    let mut i: usize = 0;
    while i < c.values.len()
        invariant
            c.wf(),
            c.values@.len() <= i64::MAX,
            w == widened(c.values@),
            i <= c.values@.len(),
            sum == wrapped_sum32(c.values@, c.valid@, i as int),
            count == valid_count(c.valid@, i as int),
            lo == min_valid(w, c.valid@, i as int),
            hi == max_valid(w, c.valid@, i as int),
        decreases c.values@.len() - i,
    {
        proof {
            lemma_valid_count_bound(c.valid@, i + 1);
        }
        if c.valid[i] {
            let v32 = c.values[i];
            let v = v32 as i64;
            assert(w[i as int] == v);
            sum = sum.wrapping_add(v32);
            count += 1;
            lo = match lo {
                Some(x) => Some(if v < x {
                    v
                } else {
                    x
                }),
                None => Some(v),
            };
            hi = match hi {
                Some(x) => Some(if v > x {
                    v
                } else {
                    x
                }),
                None => Some(v),
            };
        }
        i += 1;
    }
    proof {
        lemma_valid_count_bound(c.valid@, c.valid@.len() as int);
    }
    match op {
        AggOp::Count => AggOutcome::Int64(count as i64),
        AggOp::Sum => AggOutcome::Int64(sum as i64),
        AggOp::Mean => if count == 0 {
            AggOutcome::Null
        } else {
            AggOutcome::Mean { sum: sum as i64, count: count as i64 }
        },
        AggOp::Min => match lo {
            Some(m) => AggOutcome::Int64(m),
            None => AggOutcome::Null,
        },
        AggOp::Max => match hi {
            Some(m) => AggOutcome::Int64(m),
            None => AggOutcome::Null,
        },
    }
}

// ─── Comparisons ──────────────────────────────────────────────────

/// Comparison operators of filter requests.
#[derive(Debug, Clone, Copy, PartialEq, Eq, Structural)]
pub enum CompareOp {
    Lt,
    Le,
    Gt,
    Ge,
    Eq,
    Ne,
}

/// The operator a request string names: `<`, `<=`, `>`, `>=`, `==` or `!=`.
pub open spec fn compare_op_of(s: Seq<char>) -> Option<CompareOp> {
    if s == "<"@ {
        Some(CompareOp::Lt)
    } else if s == "<="@ {
        Some(CompareOp::Le)
    } else if s == ">"@ {
        Some(CompareOp::Gt)
    } else if s == ">="@ {
        Some(CompareOp::Ge)
    } else if s == "=="@ {
        Some(CompareOp::Eq)
    } else if s == "!="@ {
        Some(CompareOp::Ne)
    } else {
        None
    }
}

/// `v op t`.
pub open spec fn compares(v: i64, op: CompareOp, t: i64) -> bool {
    match op {
        CompareOp::Lt => v < t,
        CompareOp::Le => v <= t,
        CompareOp::Gt => v > t,
        CompareOp::Ge => v >= t,
        CompareOp::Eq => v == t,
        CompareOp::Ne => v != t,
    }
}

/// The error for an operator string no comparison is named by.
pub open spec fn is_unknown_op_error(e: RelayError, op: Seq<char>) -> bool {
    e matches RelayError::Expr(m) && m@ == "Unknown operator: "@ + op
}

/// Parses a comparison operator.
pub fn parse_compare_op(op: &str) -> (r: Result<CompareOp, RelayError>)
    ensures
        match compare_op_of(op@) {
            Some(c) => r == Ok::<CompareOp, RelayError>(c),
            None => r matches Err(e) && is_unknown_op_error(e, op@),
        },
{
    if str_eq(op, "<") {
        Ok(CompareOp::Lt)
    } else if str_eq(op, "<=") {
        Ok(CompareOp::Le)
    } else if str_eq(op, ">") {
        Ok(CompareOp::Gt)
    } else if str_eq(op, ">=") {
        Ok(CompareOp::Ge)
    } else if str_eq(op, "==") {
        Ok(CompareOp::Eq)
    } else if str_eq(op, "!=") {
        Ok(CompareOp::Ne)
    } else {
        let mut m = String::from_str("Unknown operator: ");
        m.append(op);
        Err(RelayError::Expr(m))
    }
}

fn compare(v: i64, op: CompareOp, t: i64) -> (r: bool)
    ensures
        r == compares(v, op, t),
{
    match op {
        CompareOp::Lt => v < t,
        CompareOp::Le => v <= t,
        CompareOp::Gt => v > t,
        CompareOp::Ge => v >= t,
        CompareOp::Eq => v == t,
        CompareOp::Ne => v != t,
    }
}

/// Compares every row of a column with a threshold: the result of row `i`
/// is `values[i] op threshold`, null where the input is null.
pub fn compare_column(col: &I64Column, op: CompareOp, threshold: i64) -> (r: BoolColumn)
    requires
        col.wf(),
    ensures
        r.values@.len() == col.values@.len(),
        r.valid@ == col.valid@,
        forall|i: int| 0 <= i < r.values@.len() ==> r.values@[i] == compares(col.values@[i], op, threshold),
{
    let mut values: Vec<bool> = Vec::new();
    let mut valid: Vec<bool> = Vec::new();
    let mut i: usize = 0;
    while i < col.values.len()
        invariant
            col.wf(),
            i <= col.values@.len(),
            values@.len() == i,
            valid@ == col.valid@.subrange(0, i as int),
            forall|j: int| 0 <= j < i ==> values@[j] == compares(col.values@[j], op, threshold),
        decreases col.values@.len() - i,
    {
        values.push(compare(col.values[i], op, threshold));
        valid.push(col.valid[i]);
        i += 1;
    }
    assert(valid@ =~= col.valid@);
    BoolColumn { values, valid }
}

/// Compares a column against a threshold with the operator named by `op`.
pub fn compare_i64_scalar(col: &I64Column, op: &str, threshold: i64) -> (r: Result<BoolColumn, RelayError>)
    requires
        col.wf(),
    ensures
        match compare_op_of(op@) {
            Some(c) => r matches Ok(m) && m.values@.len() == col.values@.len() && m.valid@
                == col.valid@ && forall|i: int|
                0 <= i < m.values@.len() ==> m.values@[i] == compares(col.values@[i], c, threshold),
            None => r matches Err(e) && is_unknown_op_error(e, op@),
        },
{
    match parse_compare_op(op) {
        Ok(c) => Ok(compare_column(col, c, threshold)),
        Err(e) => Err(e),
    }
}

// ─── Whole-column aggregation over batches ───────────────────────

/// Outcome of an integer aggregation: a value, a mean still to be divided
/// (sum and count of valid rows; the sum held in 128 bits where partial sums
/// are added without a 64-bit bound), or null.
#[derive(Debug, Clone, Copy, PartialEq, Eq, Structural)]
pub enum AggOutcome {
    Int64(i64),
    Mean { sum: i64, count: i64 },
    WideMean { sum: i128, count: i64 },
    Null,
}

/// One batch's contribution to a parallel aggregate: the sum (0 when no row
/// is valid), the valid-row count, the minimum (`i64::MAX` when none) or the
/// maximum (`i64::MIN` when none).
pub open spec fn batch_partial(c: I64Column, op: AggOp) -> int {
    match op {
        AggOp::Sum | AggOp::Mean => match col_sum(c) {
            Some(s) => s as int,
            None => 0,
        },
        AggOp::Count => col_count(c) as int,
        AggOp::Min => match col_min(c) {
            Some(m) => m as int,
            None => i64::MAX as int,
        },
        AggOp::Max => match col_max(c) {
            Some(m) => m as int,
            None => i64::MIN as int,
        },
    }
}

/// Sum of the batches' partials.
pub open spec fn partial_total(bs: Seq<I64Column>, op: AggOp, n: int) -> int
    decreases n,
{
    if n <= 0 {
        0
    } else {
        partial_total(bs, op, n - 1) + batch_partial(bs[n - 1], op)
    }
}

/// Smallest partial (the first when `n` is 1).
pub open spec fn partial_min(bs: Seq<I64Column>, op: AggOp, n: int) -> int
    decreases n,
{
    if n <= 1 {
        batch_partial(bs[0], op)
    } else {
        let m = partial_min(bs, op, n - 1);
        let p = batch_partial(bs[n - 1], op);
        if p < m {
            p
        } else {
            m
        }
    }
}

/// Largest partial (the first when `n` is 1).
pub open spec fn partial_max(bs: Seq<I64Column>, op: AggOp, n: int) -> int
    decreases n,
{
    if n <= 1 {
        batch_partial(bs[0], op)
    } else {
        let m = partial_max(bs, op, n - 1);
        let p = batch_partial(bs[n - 1], op);
        if p > m {
            p
        } else {
            m
        }
    }
}

/// Total count of valid rows over the batches.
pub open spec fn total_count(bs: Seq<I64Column>, n: int) -> int
    decreases n,
{
    if n <= 0 {
        0
    } else {
        total_count(bs, n - 1) + col_count(bs[n - 1])
    }
}

/// The aggregation adds up its partials (sums, counts and means do).
pub open spec fn sums_partials(op: AggOp) -> bool {
    op is Sum || op is Count || op is Mean
}

/// Every prefix total of the partials fits in 64 bits.
pub open spec fn totals_fit(bs: Seq<I64Column>, op: AggOp) -> bool {
    forall|n: int|
        0 <= n <= bs.len() ==> i64::MIN <= #[trigger] partial_total(bs, op, n) <= i64::MAX
}

/// The aggregate of per-batch partials: sums and counts add up, minima and
/// maxima reduce; a mean is the summed partials over the valid-row count.
pub open spec fn batches_aggregate(bs: Seq<I64Column>, op: AggOp) -> AggOutcome {
    if bs.len() == 0 {
        AggOutcome::Null
    } else {
        match op {
            AggOp::Sum | AggOp::Count => AggOutcome::Int64(partial_total(bs, op, bs.len() as int) as i64),
            AggOp::Min => AggOutcome::Int64(partial_min(bs, op, bs.len() as int) as i64),
            AggOp::Max => AggOutcome::Int64(partial_max(bs, op, bs.len() as int) as i64),
            AggOp::Mean => if total_count(bs, bs.len() as int) == 0 {
                AggOutcome::Null
            } else {
                AggOutcome::Mean {
                    sum: partial_total(bs, op, bs.len() as int) as i64,
                    count: total_count(bs, bs.len() as int) as i64,
                }
            },
        }
    }
}

fn partial_of(c: &I64Column, op: AggOp) -> (r: i64)
    requires
        c.wf(),
        c.values@.len() <= i64::MAX,
    ensures
        r == batch_partial(*c, op),
{
    match op {
        AggOp::Sum | AggOp::Mean => match column_sum(c) {
            Some(s) => s,
            None => 0,
        },
        AggOp::Count => {
            proof {
                lemma_valid_count_bound(c.valid@, c.valid@.len() as int);
            }
            valid_rows(c) as i64
        },
        AggOp::Min => match column_min(c) {
            Some(m) => m,
            None => i64::MAX,
        },
        AggOp::Max => match column_max(c) {
            Some(m) => m,
            None => i64::MIN,
        },
    }
}

proof fn lemma_total_count_bound(bs: Seq<I64Column>, n: int)
    requires
        0 <= n <= bs.len(),
        forall|i: int| 0 <= i < bs.len() ==> (#[trigger] bs[i]).wf(),
    ensures
        0 <= total_count(bs, n),
    decreases n,
{
    if n > 0 {
        lemma_total_count_bound(bs, n - 1);
    }
}

// ─── Batches against their concatenation ──────────────────────────

/// The aggregate of one column given by its values and validity: the
/// wrapping sum, the valid-row count, the extremes, or the mean's sum and
/// count; null where no row is valid (but for the count).
pub open spec fn column_aggregate(values: Seq<i64>, valid: Seq<bool>, op: AggOp) -> AggOutcome {
    let n = values.len() as int;
    match op {
        AggOp::Count => AggOutcome::Int64(valid_count(valid, n) as i64),
        AggOp::Sum => if valid_count(valid, n) == 0 {
            AggOutcome::Null
        } else {
            AggOutcome::Int64(wrapped_sum(values, valid, n))
        },
        AggOp::Min => match min_valid(values, valid, n) {
            Some(m) => AggOutcome::Int64(m),
            None => AggOutcome::Null,
        },
        AggOp::Max => match max_valid(values, valid, n) {
            Some(m) => AggOutcome::Int64(m),
            None => AggOutcome::Null,
        },
        AggOp::Mean => if valid_count(valid, n) == 0 {
            AggOutcome::Null
        } else {
            AggOutcome::Mean { sum: wrapped_sum(values, valid, n), count: valid_count(valid, n) as i64 }
        },
    }
}

/// The values of the first `n` batches, one after another.
pub open spec fn concat_values(bs: Seq<I64Column>, n: int) -> Seq<i64>
    decreases n,
{
    if n <= 0 {
        Seq::empty()
    } else {
        concat_values(bs, n - 1) + bs[n - 1].values@
    }
}

/// The validity flags of the first `n` batches, one after another.
pub open spec fn concat_valid(bs: Seq<I64Column>, n: int) -> Seq<bool>
    decreases n,
{
    if n <= 0 {
        Seq::empty()
    } else {
        concat_valid(bs, n - 1) + bs[n - 1].valid@
    }
}

/// The smaller of two optional values.
pub open spec fn min_opt(a: Option<i64>, b: Option<i64>) -> Option<i64> {
    match (a, b) {
        (Some(x), Some(y)) => Some(if y < x { y } else { x }),
        (Some(x), None) => Some(x),
        (None, _) => b,
    }
}

/// The larger of two optional values.
pub open spec fn max_opt(a: Option<i64>, b: Option<i64>) -> Option<i64> {
    match (a, b) {
        (Some(x), Some(y)) => Some(if y > x { y } else { x }),
        (Some(x), None) => Some(x),
        (None, _) => b,
    }
}

proof fn lemma_wrapping_add_assoc(x: i64, y: i64, z: i64)
    ensures
        x.wrapping_add(y).wrapping_add(z) == x.wrapping_add(y.wrapping_add(z)),
{
}

proof fn lemma_concat_len(bs: Seq<I64Column>, n: int)
    requires
        0 <= n <= bs.len(),
        forall|i: int| 0 <= i < bs.len() ==> (#[trigger] bs[i]).wf(),
    ensures
        concat_values(bs, n).len() == concat_valid(bs, n).len(),
    decreases n,
{
    if n > 0 {
        lemma_concat_len(bs, n - 1);
        assert(bs[n - 1].wf());
    }
}

/// Rows beyond the first `n` do not change the folds over the first `n`.
proof fn lemma_folds_prefix(va: Seq<i64>, wa: Seq<bool>, vb: Seq<i64>, wb: Seq<bool>, n: int)
    requires
        va.len() == wa.len(),
        0 <= n <= va.len(),
    ensures
        valid_count(wa + wb, n) == valid_count(wa, n),
        wrapped_sum(va + vb, wa + wb, n) == wrapped_sum(va, wa, n),
        min_valid(va + vb, wa + wb, n) == min_valid(va, wa, n),
        max_valid(va + vb, wa + wb, n) == max_valid(va, wa, n),
    decreases n,
{
    if n > 0 {
        lemma_folds_prefix(va, wa, vb, wb, n - 1);
        assert((wa + wb)[n - 1] == wa[n - 1]);
        assert((va + vb)[n - 1] == va[n - 1]);
    }
}

/// The folds over two pieces one after another combine the folds of each.
proof fn lemma_folds_concat(va: Seq<i64>, wa: Seq<bool>, vb: Seq<i64>, wb: Seq<bool>, k: int)
    requires
        va.len() == wa.len(),
        vb.len() == wb.len(),
        0 <= k <= vb.len(),
    ensures
        valid_count(wa + wb, wa.len() + k) == valid_count(wa, wa.len() as int) + valid_count(wb, k),
        wrapped_sum(va + vb, wa + wb, wa.len() + k) == wrapped_sum(va, wa, va.len() as int).wrapping_add(
            wrapped_sum(vb, wb, k),
        ),
        min_valid(va + vb, wa + wb, wa.len() + k) == min_opt(min_valid(va, wa, va.len() as int), min_valid(vb, wb, k)),
        max_valid(va + vb, wa + wb, wa.len() + k) == max_opt(max_valid(va, wa, va.len() as int), max_valid(vb, wb, k)),
    decreases k,
{
    let la = wa.len() as int;
    if k == 0 {
        lemma_folds_prefix(va, wa, vb, wb, la);
    } else {
        lemma_folds_concat(va, wa, vb, wb, k - 1);
        assert((wa + wb)[la + k - 1] == wb[k - 1]);
        assert((va + vb)[la + k - 1] == vb[k - 1]);
        lemma_wrapping_add_assoc(wrapped_sum(va, wa, la), wrapped_sum(vb, wb, k - 1), vb[k - 1]);
    }
}

/// A column without valid rows sums to 0 and has no extremes.
proof fn lemma_no_valid(values: Seq<i64>, valid: Seq<bool>, n: int)
    requires
        0 <= n,
        valid_count(valid, n) == 0,
    ensures
        wrapped_sum(values, valid, n) == 0,
        min_valid(values, valid, n) is None,
        max_valid(values, valid, n) is None,
    decreases n,
{
    if n > 0 {
        lemma_no_valid(values, valid, n - 1);
    }
}

/// A column with a valid row has extremes.
proof fn lemma_some_valid(values: Seq<i64>, valid: Seq<bool>, n: int)
    requires
        0 <= n,
        valid_count(valid, n) > 0,
    ensures
        min_valid(values, valid, n) is Some,
        max_valid(values, valid, n) is Some,
    decreases n,
{
    if n > 0 && valid_count(valid, n - 1) > 0 {
        lemma_some_valid(values, valid, n - 1);
    }
}

/// Folding the first `n` batches' partials agrees with folding their rows.
proof fn lemma_batch_folds(bs: Seq<I64Column>, n: int)
    requires
        1 <= n <= bs.len(),
        forall|i: int| 0 <= i < bs.len() ==> (#[trigger] bs[i]).wf(),
    ensures
        total_count(bs, n) == valid_count(concat_valid(bs, n), concat_valid(bs, n).len() as int),
        partial_total(bs, AggOp::Count, n) == total_count(bs, n),
        (forall|m: int| 1 <= m <= n ==> i64::MIN <= #[trigger] partial_total(bs, AggOp::Sum, m) <= i64::MAX)
            ==> partial_total(bs, AggOp::Sum, n) == wrapped_sum(
            concat_values(bs, n),
            concat_valid(bs, n),
            concat_valid(bs, n).len() as int,
        ) as int,
        partial_min(bs, AggOp::Min, n) == match min_valid(concat_values(bs, n), concat_valid(bs, n), concat_valid(bs, n).len() as int) {
            Some(m) => m as int,
            None => i64::MAX as int,
        },
        partial_max(bs, AggOp::Max, n) == match max_valid(concat_values(bs, n), concat_valid(bs, n), concat_valid(bs, n).len() as int) {
            Some(m) => m as int,
            None => i64::MIN as int,
        },
    decreases n,
{
    let b = bs[n - 1];
    assert(b.wf());
    let pv = concat_values(bs, n - 1);
    let pw = concat_valid(bs, n - 1);
    let v = concat_values(bs, n);
    let w = concat_valid(bs, n);
    assert(v == pv + b.values@);
    assert(w == pw + b.valid@);
    lemma_concat_len(bs, n - 1);
    lemma_folds_concat(pv, pw, b.values@, b.valid@, b.values@.len() as int);
    assert(w.len() == pw.len() + b.valid@.len());
    assert(valid_count(w, w.len() as int) == valid_count(pw, pw.len() as int) + valid_count(b.valid@, b.valid@.len() as int));
    assert(total_count(bs, n) == total_count(bs, n - 1) + col_count(b));
    assert(partial_total(bs, AggOp::Count, n) == partial_total(bs, AggOp::Count, n - 1) + col_count(b));
    if valid_count(b.valid@, b.valid@.len() as int) == 0 {
        lemma_no_valid(b.values@, b.valid@, b.values@.len() as int);
    }
    let bsum = wrapped_sum(b.values@, b.valid@, b.values@.len() as int);
    assert(batch_partial(b, AggOp::Sum) == bsum as int);
    assert(wrapped_sum(v, w, w.len() as int) == wrapped_sum(pv, pw, pv.len() as int).wrapping_add(bsum));
    assert(partial_total(bs, AggOp::Sum, n) == partial_total(bs, AggOp::Sum, n - 1) + bsum);
    if n == 1 {
        assert(pv =~= Seq::<i64>::empty());
        assert(pw =~= Seq::<bool>::empty());
        assert(valid_count(pw, 0) == 0);
        assert(wrapped_sum(pv, pw, 0) == 0);
    } else {
        lemma_batch_folds(bs, n - 1);
        if forall|m: int| 1 <= m <= n ==> i64::MIN <= #[trigger] partial_total(bs, AggOp::Sum, m) <= i64::MAX {
            assert(i64::MIN <= partial_total(bs, AggOp::Sum, n - 1) <= i64::MAX);
            assert(i64::MIN <= partial_total(bs, AggOp::Sum, n) <= i64::MAX);
        }
    }
}

/// Aggregating a column read as batches, partial by partial, gives what
/// aggregating all its rows at once gives, whenever some row is valid and
/// (for sums, counts and means) the running totals fit in 64 bits.
pub proof fn lemma_batches_aggregate_concat(bs: Seq<I64Column>, op: AggOp)
    requires
        bs.len() >= 1,
        forall|i: int| 0 <= i < bs.len() ==> (#[trigger] bs[i]).wf(),
        total_count(bs, bs.len() as int) > 0,
        sums_partials(op) ==> totals_fit(bs, op),
        total_count(bs, bs.len() as int) <= i64::MAX,
    ensures
        batches_aggregate(bs, op) == column_aggregate(
            concat_values(bs, bs.len() as int),
            concat_valid(bs, bs.len() as int),
            op,
        ),
{
    let n = bs.len() as int;
    lemma_batch_folds(bs, n);
    lemma_concat_len(bs, n);
    let v = concat_values(bs, n);
    let w = concat_valid(bs, n);
    lemma_some_valid(v, w, w.len() as int);
    assert(v.len() == w.len());
    if op is Sum || op is Mean {
        assert forall|m: int| 1 <= m <= n implies i64::MIN <= #[trigger] partial_total(bs, AggOp::Sum, m)
            <= i64::MAX by {
            lemma_partial_total_sum_mean(bs, m);
            assert(i64::MIN <= partial_total(bs, op, m) <= i64::MAX);
        }
        lemma_partial_total_sum_mean(bs, n);
        assert(partial_total(bs, AggOp::Sum, n) == wrapped_sum(v, w, w.len() as int) as int);
    }
    if op is Count {
        assert(i64::MIN <= partial_total(bs, op, n) <= i64::MAX);
    }
}

proof fn lemma_partial_total_sum_mean(bs: Seq<I64Column>, m: int)
    ensures
        partial_total(bs, AggOp::Sum, m) == partial_total(bs, AggOp::Mean, m),
    decreases m,
{
    if m > 0 {
        lemma_partial_total_sum_mean(bs, m - 1);
    }
}

/// Parallel aggregate of an integer column read as batches: each batch is
/// aggregated on its own (see `batch_partial`) and the partials reduced.
/// No batches give null.
pub fn aggregate_batches(batches: &[I64Column], op: AggOp) -> (r: AggOutcome)
    requires
        forall|i: int| 0 <= i < batches@.len() ==> (#[trigger] batches@[i]).wf() && batches@[i].values@.len() <= i64::MAX,
        sums_partials(op) ==> totals_fit(batches@, op),
        op == AggOp::Mean ==> total_count(batches@, batches@.len() as int) <= i64::MAX,
    ensures
        r == batches_aggregate(batches@, op),
{
    if batches.len() == 0 {
        return AggOutcome::Null;
    }
    let first = partial_of(&batches[0], op);
    let mut total: i64 = 0;
    let mut lo: i64 = first;
    let mut hi: i64 = first;
    let mut count: i64 = 0;
    let summing = op == AggOp::Sum || op == AggOp::Count || op == AggOp::Mean;
    let mut i: usize = 0;
    while i < batches.len()
        invariant
            forall|k: int| 0 <= k < batches@.len() ==> (#[trigger] batches@[k]).wf() && batches@[k].values@.len() <= i64::MAX,
            summing == sums_partials(op),
            sums_partials(op) ==> totals_fit(batches@, op),
            op == AggOp::Mean ==> total_count(batches@, batches@.len() as int) <= i64::MAX,
            batches@.len() > 0,
            first == batch_partial(batches@[0], op),
            i <= batches@.len(),
            sums_partials(op) ==> total == partial_total(batches@, op, i as int),
            i >= 1 ==> lo == partial_min(batches@, op, i as int),
            i >= 1 ==> hi == partial_max(batches@, op, i as int),
            i == 0 ==> lo == first && hi == first,
            op == AggOp::Mean ==> count == total_count(batches@, i as int),
        decreases batches@.len() - i,
    {
        let p = partial_of(&batches[i], op);
        if summing {
            assert(i64::MIN <= partial_total(batches@, op, i + 1) <= i64::MAX);
            total = total + p;
        }
        if i > 0 {
            if p < lo {
                lo = p;
            }
            if p > hi {
                hi = p;
            }
        }
        if op == AggOp::Mean {
            proof {
                lemma_total_count_prefix(batches@, i + 1, batches@.len() as int);
                lemma_total_count_nonneg(batches@, i as int);
            }
            let c = valid_rows(&batches[i]);
            assert(total_count(batches@, i + 1) == total_count(batches@, i as int) + c);
            count = count + c as i64;
        }
        i += 1;
    }
    match op {
        AggOp::Sum | AggOp::Count => AggOutcome::Int64(total),
        AggOp::Min => AggOutcome::Int64(lo),
        AggOp::Max => AggOutcome::Int64(hi),
        AggOp::Mean => if count == 0 {
            AggOutcome::Null
        } else {
            AggOutcome::Mean { sum: total, count }
        },
    }
}

proof fn lemma_total_count_nonneg(bs: Seq<I64Column>, n: int)
    ensures
        0 <= total_count(bs, n),
    decreases n,
{
    if n > 0 {
        lemma_total_count_nonneg(bs, n - 1);
    }
}

proof fn lemma_total_count_prefix(bs: Seq<I64Column>, m: int, n: int)
    requires
        0 <= m <= n <= bs.len(),
    ensures
        0 <= total_count(bs, m) <= total_count(bs, n),
    decreases n,
{
    if n > m {
        lemma_total_count_prefix(bs, m, n - 1);
    } else {
        lemma_total_count_nonneg(bs, m);
    }
}

// ─── Fused filter and aggregate over batches ──────────────────────

/// Row `i` passes the filter: its filter value compares true (the row's
/// validity is not consulted, as a comparison mask's value bit is read) and
/// its aggregated value is valid.
pub open spec fn row_selected(f: I64Column, a: I64Column, op: CompareOp, t: i64, i: int) -> bool {
    compares(f.values@[i], op, t) && a.valid@[i]
}

/// Exact sum of the selected values among the first `n` rows.
pub open spec fn masked_sum(f: I64Column, a: I64Column, op: CompareOp, t: i64, n: int) -> int
    decreases n,
{
    if n <= 0 {
        0
    } else {
        masked_sum(f, a, op, t, n - 1) + if row_selected(f, a, op, t, n - 1) {
            a.values@[n - 1] as int
        } else {
            0
        }
    }
}

/// Number of selected rows among the first `n`.
pub open spec fn masked_count(f: I64Column, a: I64Column, op: CompareOp, t: i64, n: int) -> int
    decreases n,
{
    if n <= 0 {
        0
    } else {
        masked_count(f, a, op, t, n - 1) + if row_selected(f, a, op, t, n - 1) {
            1int
        } else {
            0
        }
    }
}

/// Minimum of the selected values among the first `n` rows, from `i64::MAX`.
pub open spec fn masked_min(f: I64Column, a: I64Column, op: CompareOp, t: i64, n: int) -> int
    decreases n,
{
    if n <= 0 {
        i64::MAX as int
    } else {
        let m = masked_min(f, a, op, t, n - 1);
        if row_selected(f, a, op, t, n - 1) && (a.values@[n - 1] as int) < m {
            a.values@[n - 1] as int
        } else {
            m
        }
    }
}

/// Maximum of the selected values among the first `n` rows, from `i64::MIN`.
pub open spec fn masked_max(f: I64Column, a: I64Column, op: CompareOp, t: i64, n: int) -> int
    decreases n,
{
    if n <= 0 {
        i64::MIN as int
    } else {
        let m = masked_max(f, a, op, t, n - 1);
        if row_selected(f, a, op, t, n - 1) && (a.values@[n - 1] as int) > m {
            a.values@[n - 1] as int
        } else {
            m
        }
    }
}

/// Two columns of one batch, of equal length.
pub open spec fn pair_wf(f: I64Column, a: I64Column) -> bool {
    f.wf() && a.wf() && f.values@.len() == a.values@.len()
}

/// Every running sum of the selected values fits in 64 bits.
pub open spec fn masked_sums_fit(f: I64Column, a: I64Column, op: CompareOp, t: i64) -> bool {
    forall|n: int|
        0 <= n <= a.values@.len() ==> i64::MIN <= #[trigger] masked_sum(f, a, op, t, n) <= i64::MAX
}

/// One batch's contribution to a fused filter-aggregate; an operator that
/// names no comparison contributes 0.
pub open spec fn fused_partial(f: I64Column, a: I64Column, op: Option<CompareOp>, t: i64, agg: AggOp) -> int {
    match op {
        None => 0,
        Some(c) => {
            let n = a.values@.len() as int;
            match agg {
                AggOp::Sum | AggOp::Mean => masked_sum(f, a, c, t, n),
                AggOp::Count => masked_count(f, a, c, t, n),
                AggOp::Min => masked_min(f, a, c, t, n),
                AggOp::Max => masked_max(f, a, c, t, n),
            }
        },
    }
}

/// Selected-row count of one batch (0 for an unknown operator).
pub open spec fn fused_count(f: I64Column, a: I64Column, op: Option<CompareOp>, t: i64) -> int {
    match op {
        None => 0,
        Some(c) => masked_count(f, a, c, t, a.values@.len() as int),
    }
}

pub open spec fn fused_total(fs: Seq<I64Column>, as_: Seq<I64Column>, op: Option<CompareOp>, t: i64, agg: AggOp, n: int) -> int
    decreases n,
{
    if n <= 0 {
        0
    } else {
        fused_total(fs, as_, op, t, agg, n - 1) + fused_partial(fs[n - 1], as_[n - 1], op, t, agg)
    }
}

pub open spec fn fused_count_total(fs: Seq<I64Column>, as_: Seq<I64Column>, op: Option<CompareOp>, t: i64, n: int) -> int
    decreases n,
{
    if n <= 0 {
        0
    } else {
        fused_count_total(fs, as_, op, t, n - 1) + fused_count(fs[n - 1], as_[n - 1], op, t)
    }
}

pub open spec fn fused_min(fs: Seq<I64Column>, as_: Seq<I64Column>, op: Option<CompareOp>, t: i64, agg: AggOp, n: int) -> int
    decreases n,
{
    if n <= 1 {
        fused_partial(fs[0], as_[0], op, t, agg)
    } else {
        let m = fused_min(fs, as_, op, t, agg, n - 1);
        let p = fused_partial(fs[n - 1], as_[n - 1], op, t, agg);
        if p < m {
            p
        } else {
            m
        }
    }
}

pub open spec fn fused_max(fs: Seq<I64Column>, as_: Seq<I64Column>, op: Option<CompareOp>, t: i64, agg: AggOp, n: int) -> int
    decreases n,
{
    if n <= 1 {
        fused_partial(fs[0], as_[0], op, t, agg)
    } else {
        let m = fused_max(fs, as_, op, t, agg, n - 1);
        let p = fused_partial(fs[n - 1], as_[n - 1], op, t, agg);
        if p > m {
            p
        } else {
            m
        }
    }
}

/// The fused filter-aggregate: partials per batch, reduced as in
/// `batches_aggregate`; no batches give null.
pub open spec fn fused_aggregate(fs: Seq<I64Column>, as_: Seq<I64Column>, op: Seq<char>, t: i64, agg: AggOp) -> AggOutcome {
    let c = compare_op_of(op);
    let n = fs.len() as int;
    if n == 0 {
        AggOutcome::Null
    } else {
        match agg {
            AggOp::Sum | AggOp::Count => AggOutcome::Int64(fused_total(fs, as_, c, t, agg, n) as i64),
            AggOp::Min => AggOutcome::Int64(fused_min(fs, as_, c, t, agg, n) as i64),
            AggOp::Max => AggOutcome::Int64(fused_max(fs, as_, c, t, agg, n) as i64),
            AggOp::Mean => if fused_count_total(fs, as_, c, t, n) == 0 {
                AggOutcome::Null
            } else {
                AggOutcome::Mean {
                    sum: fused_total(fs, as_, c, t, agg, n) as i64,
                    count: fused_count_total(fs, as_, c, t, n) as i64,
                }
            },
        }
    }
}

/// Inputs on which the fused aggregate does not overflow: every batch's
/// running sums, and every running total of partials and of counts, fit in
/// 64 bits.
pub open spec fn fused_fits(fs: Seq<I64Column>, as_: Seq<I64Column>, op: Seq<char>, t: i64, agg: AggOp) -> bool {
    let c = compare_op_of(op);
    &&& forall|k: int|
        0 <= k < fs.len() ==> (c matches Some(o) ==> masked_sums_fit(#[trigger] fs[k], as_[k], o, t))
    &&& forall|n: int|
        0 <= n <= fs.len() ==> i64::MIN <= #[trigger] fused_total(fs, as_, c, t, agg, n) <= i64::MAX
    &&& forall|n: int|
        0 <= n <= fs.len() ==> #[trigger] fused_count_total(fs, as_, c, t, n) <= i64::MAX
}

proof fn lemma_masked_count_bound(f: I64Column, a: I64Column, op: CompareOp, t: i64, n: int)
    requires
        n >= 0,
    ensures
        0 <= masked_count(f, a, op, t, n) <= n,
    decreases n,
{
    if n > 0 {
        lemma_masked_count_bound(f, a, op, t, n - 1);
    }
}

proof fn lemma_masked_minmax_range(f: I64Column, a: I64Column, op: CompareOp, t: i64, n: int)
    ensures
        i64::MIN <= masked_min(f, a, op, t, n) <= i64::MAX,
        i64::MIN <= masked_max(f, a, op, t, n) <= i64::MAX,
    decreases n,
{
    if n > 0 {
        lemma_masked_minmax_range(f, a, op, t, n - 1);
    }
}

/// One batch of the fused filter-aggregate.
fn fused_batch(f: &I64Column, a: &I64Column, op: Option<CompareOp>, t: i64, agg: AggOp) -> (r: (i64, i64))
    requires
        pair_wf(*f, *a),
        op matches Some(c) ==> masked_sums_fit(*f, *a, c, t),
        a.values@.len() <= i64::MAX,
    ensures
        r.0 == fused_partial(*f, *a, op, t, agg),
        r.1 == fused_count(*f, *a, op, t),
{
    let c = match op {
        Some(c) => c,
        None => {
            return (0, 0);
        },
    };
    let mask = compare_column(f, c, t);
    let mut sum: i64 = 0;
    let mut count: i64 = 0;
    let mut lo: i64 = i64::MAX;
    let mut hi: i64 = i64::MIN;
    let mut i: usize = 0;
    while i < a.values.len()
        invariant
            pair_wf(*f, *a),
            masked_sums_fit(*f, *a, c, t),
            a.values@.len() <= i64::MAX,
            mask.values@.len() == f.values@.len(),
            forall|j: int| 0 <= j < mask.values@.len() ==> mask.values@[j] == compares(f.values@[j], c, t),
            i <= a.values@.len(),
            sum == masked_sum(*f, *a, c, t, i as int),
            count == masked_count(*f, *a, c, t, i as int),
            lo == masked_min(*f, *a, c, t, i as int),
            hi == masked_max(*f, *a, c, t, i as int),
        decreases a.values@.len() - i,
    {
        proof {
            lemma_masked_count_bound(*f, *a, c, t, i + 1);
            assert(i64::MIN <= masked_sum(*f, *a, c, t, i + 1) <= i64::MAX);
        }
        if mask.values[i] && a.valid[i] {
            let v = a.values[i];
            sum = sum + v;
            count = count + 1;
            if v < lo {
                lo = v;
            }
            if v > hi {
                hi = v;
            }
        }
        i += 1;
    }
    let p = match agg {
        AggOp::Sum | AggOp::Mean => sum,
        AggOp::Count => count,
        AggOp::Min => lo,
        AggOp::Max => hi,
    };
    (p, count)
}

proof fn lemma_fused_minmax_range(fs: Seq<I64Column>, as_: Seq<I64Column>, op: Option<CompareOp>, t: i64, agg: AggOp, n: int)
    requires
        agg == AggOp::Min || agg == AggOp::Max,
        1 <= n <= fs.len(),
    ensures
        i64::MIN <= fused_min(fs, as_, op, t, agg, n) <= i64::MAX,
        i64::MIN <= fused_max(fs, as_, op, t, agg, n) <= i64::MAX,
    decreases n,
{
    if n > 1 {
        lemma_fused_minmax_range(fs, as_, op, t, agg, n - 1);
    }
    match op {
        Some(c) => {
            lemma_masked_minmax_range(fs[n - 1], as_[n - 1], c, t, as_[n - 1].values@.len() as int);
            lemma_masked_minmax_range(fs[0], as_[0], c, t, as_[0].values@.len() as int);
        },
        None => {},
    }
}

/// Fused filter and aggregate over batches: in each batch the rows whose
/// filter value compares true with the threshold (and whose aggregated value
/// is valid) are aggregated; the partials are reduced; a mean is the summed
/// values over the selected-row count. An unknown operator makes every batch
/// contribute 0.
pub fn filter_aggregate_batches(
    filters: &[I64Column],
    aggs: &[I64Column],
    op: &str,
    threshold: i64,
    agg_op: AggOp,
) -> (r: AggOutcome)
    requires
        filters@.len() == aggs@.len(),
        forall|k: int| 0 <= k < filters@.len() ==> pair_wf(#[trigger] filters@[k], aggs@[k]) && aggs@[k].values@.len() <= i64::MAX,
        fused_fits(filters@, aggs@, op@, threshold, agg_op),
    ensures
        r == fused_aggregate(filters@, aggs@, op@, threshold, agg_op),
{
    let c: Option<CompareOp> = match parse_compare_op(op) {
        Ok(c) => Some(c),
        Err(_) => None,
    };
    let ghost fs = filters@;
    let ghost as_ = aggs@;
    if filters.len() == 0 {
        return AggOutcome::Null;
    }
    let mut total: i64 = 0;
    let mut count: i64 = 0;
    let mut lo: i64 = 0;
    let mut hi: i64 = 0;
    let mut k: usize = 0;
    while k < filters.len()
        invariant
            fs == filters@,
            as_ == aggs@,
            c == compare_op_of(op@),
            filters@.len() == aggs@.len(),
            filters@.len() > 0,
            forall|j: int| 0 <= j < filters@.len() ==> pair_wf(#[trigger] filters@[j], aggs@[j]) && aggs@[j].values@.len() <= i64::MAX,
            fused_fits(filters@, aggs@, op@, threshold, agg_op),
            k <= filters@.len(),
            total == fused_total(fs, as_, c, threshold, agg_op, k as int),
            count == fused_count_total(fs, as_, c, threshold, k as int),
            k >= 1 ==> lo == fused_min(fs, as_, c, threshold, agg_op, k as int),
            k >= 1 ==> hi == fused_max(fs, as_, c, threshold, agg_op, k as int),
        decreases filters@.len() - k,
    {
        proof {
            assert(pair_wf(filters@[k as int], aggs@[k as int]));
            if let Some(o) = c {
                assert(masked_sums_fit(fs[k as int], as_[k as int], o, threshold));
            }
            assert(i64::MIN <= fused_total(fs, as_, c, threshold, agg_op, k + 1) <= i64::MAX);
            assert(fused_count_total(fs, as_, c, threshold, k + 1) <= i64::MAX);
        }
        let (p, n) = fused_batch(&filters[k], &aggs[k], c, threshold, agg_op);
        proof {
            if let Some(o) = c {
                lemma_masked_count_bound(fs[k as int], as_[k as int], o, threshold, as_[k as int].values@.len() as int);
            }
            lemma_fused_count_nonneg(fs, as_, c, threshold, k as int);
        }
        total = total + p;
        count = count + n;
        if k == 0 {
            lo = p;
            hi = p;
        } else {
            if p < lo {
                lo = p;
            }
            if p > hi {
                hi = p;
            }
        }
        k += 1;
    }
    match agg_op {
        AggOp::Sum | AggOp::Count => AggOutcome::Int64(total),
        AggOp::Min => AggOutcome::Int64(lo),
        AggOp::Max => AggOutcome::Int64(hi),
        AggOp::Mean => if count == 0 {
            AggOutcome::Null
        } else {
            AggOutcome::Mean { sum: total, count }
        },
    }
}

proof fn lemma_fused_count_nonneg(fs: Seq<I64Column>, as_: Seq<I64Column>, op: Option<CompareOp>, t: i64, n: int)
    ensures
        0 <= fused_count_total(fs, as_, op, t, n),
    decreases n,
{
    if n > 0 {
        lemma_fused_count_nonneg(fs, as_, op, t, n - 1);
        if let Some(c) = op {
            lemma_masked_count_bound(fs[n - 1], as_[n - 1], c, t, as_[n - 1].values@.len() as int);
        }
    }
}

// ─── Streaming aggregation ────────────────────────────────────────

/// The streaming aggregate over batches of one integer column: sums and
/// counts of valid rows add up; the minimum (maximum) is null when it stayed
/// at `i64::MAX` (`i64::MIN`); no batches, or a sum or mean over no valid
/// row, give null.
pub open spec fn streaming_outcome(bs: Seq<I64Column>, op: AggOp) -> AggOutcome {
    let n = bs.len() as int;
    if n == 0 {
        AggOutcome::Null
    } else {
        match op {
            AggOp::Sum => if total_count(bs, n) == 0 {
                AggOutcome::Null
            } else {
                AggOutcome::Int64(partial_total(bs, op, n) as i64)
            },
            AggOp::Count => AggOutcome::Int64(total_count(bs, n) as i64),
            AggOp::Mean => if total_count(bs, n) == 0 {
                AggOutcome::Null
            } else {
                AggOutcome::Mean { sum: partial_total(bs, op, n) as i64, count: total_count(bs, n) as i64 }
            },
            AggOp::Min => if partial_min(bs, op, n) != i64::MAX as int {
                AggOutcome::Int64(partial_min(bs, op, n) as i64)
            } else {
                AggOutcome::Null
            },
            AggOp::Max => if partial_max(bs, op, n) != i64::MIN as int {
                AggOutcome::Int64(partial_max(bs, op, n) as i64)
            } else {
                AggOutcome::Null
            },
        }
    }
}

/// Streaming aggregate of an integer column read one batch at a time.
pub fn streaming_aggregate(batches: &[I64Column], op: AggOp) -> (r: AggOutcome)
    requires
        forall|i: int| 0 <= i < batches@.len() ==> (#[trigger] batches@[i]).wf() && batches@[i].values@.len() <= i64::MAX,
        sums_partials(op) ==> totals_fit(batches@, op),
        total_count(batches@, batches@.len() as int) <= i64::MAX,
    ensures
        r == streaming_outcome(batches@, op),
{
    if batches.len() == 0 {
        return AggOutcome::Null;
    }
    let mean_like = op == AggOp::Mean || op == AggOp::Sum;
    let inner_op = if mean_like {
        AggOp::Mean
    } else {
        op
    };
    proof {
        if mean_like {
            assert forall|n: int| 0 <= n <= batches@.len() implies partial_total(batches@, AggOp::Mean, n) == partial_total(batches@, op, n) by {
                lemma_sum_mean_partials(batches@, op, n);
            }
            assert forall|n: int| 0 <= n <= batches@.len() implies i64::MIN <= #[trigger] partial_total(batches@, inner_op, n) <= i64::MAX by {
                assert(i64::MIN <= partial_total(batches@, op, n) <= i64::MAX);
            }
        }
    }
    let agg = aggregate_batches(batches, inner_op);
    proof {
        if op == AggOp::Min || op == AggOp::Max {
            lemma_partial_minmax_range(batches@, op, batches@.len() as int);
        }
        if mean_like {
            lemma_sum_mean_partials(batches@, op, batches@.len() as int);
        }
    }
    match op {
        AggOp::Sum => match agg {
            AggOutcome::Mean { sum, .. } => AggOutcome::Int64(sum),
            _ => AggOutcome::Null,
        },
        AggOp::Mean => agg,
        AggOp::Count => {
            proof {
                lemma_count_partials(batches@, batches@.len() as int);
            }
            agg
        },
        AggOp::Min => match agg {
            AggOutcome::Int64(m) => if m != i64::MAX {
                AggOutcome::Int64(m)
            } else {
                AggOutcome::Null
            },
            _ => AggOutcome::Null,
        },
        AggOp::Max => match agg {
            AggOutcome::Int64(m) => if m != i64::MIN {
                AggOutcome::Int64(m)
            } else {
                AggOutcome::Null
            },
            _ => AggOutcome::Null,
        },
    }
}

proof fn lemma_partial_range(c: I64Column, op: AggOp)
    requires
        op == AggOp::Min || op == AggOp::Max,
    ensures
        i64::MIN <= batch_partial(c, op) <= i64::MAX,
{
}

proof fn lemma_partial_minmax_range(bs: Seq<I64Column>, op: AggOp, n: int)
    requires
        op == AggOp::Min || op == AggOp::Max,
        1 <= n <= bs.len(),
    ensures
        i64::MIN <= partial_min(bs, op, n) <= i64::MAX,
        i64::MIN <= partial_max(bs, op, n) <= i64::MAX,
    decreases n,
{
    lemma_partial_range(bs[n - 1], op);
    lemma_partial_range(bs[0], op);
    if n > 1 {
        lemma_partial_minmax_range(bs, op, n - 1);
    }
}

proof fn lemma_count_partials(bs: Seq<I64Column>, n: int)
    ensures
        partial_total(bs, AggOp::Count, n) == total_count(bs, n),
    decreases n,
{
    if n > 0 {
        lemma_count_partials(bs, n - 1);
    }
}

proof fn lemma_sum_mean_partials(bs: Seq<I64Column>, op: AggOp, n: int)
    requires
        op == AggOp::Mean || op == AggOp::Sum,
    ensures
        partial_total(bs, AggOp::Mean, n) == partial_total(bs, op, n),
    decreases n,
{
    if n > 0 {
        lemma_sum_mean_partials(bs, op, n - 1);
    }
}

// ─── Row-group pruning by statistics ──────────────────────────────

/// Minimum and maximum statistics of a column chunk, as stored (8 little-endian
/// bytes for a 64-bit integer column).
#[derive(Debug, Clone)]
pub struct ChunkStats {
    pub min_bytes: Option<Vec<u8>>,
    pub max_bytes: Option<Vec<u8>>,
}

/// The signed integer stored as 8 little-endian bytes.
pub open spec fn le_i64(bytes: Seq<u8>) -> i64 {
    vstd::bytes::spec_u64_from_le_bytes(bytes) as i64
}

/// Whether a row group with values in `min..=max` may hold a row with
/// `value op threshold`; an operator that names no comparison keeps it.
pub open spec fn range_may_match(min: i64, max: i64, op: Seq<char>, t: i64) -> bool {
    match compare_op_of(op) {
        Some(CompareOp::Lt) => min < t,
        Some(CompareOp::Le) => min <= t,
        Some(CompareOp::Gt) => max > t,
        Some(CompareOp::Ge) => max >= t,
        Some(CompareOp::Eq) => min <= t && max >= t,
        Some(CompareOp::Ne) => !(min == t && max == t),
        None => true,
    }
}

/// A row group is kept unless usable statistics rule the predicate out;
/// statistics are usable when both bounds are present as 8 bytes.
pub open spec fn group_kept(stats: Option<ChunkStats>, op: Seq<char>, t: i64) -> bool {
    match stats {
        None => true,
        Some(st) => match (st.min_bytes, st.max_bytes) {
            (Some(lo), Some(hi)) => if lo@.len() == 8 && hi@.len() == 8 {
                range_may_match(le_i64(lo@), le_i64(hi@), op, t)
            } else {
                true
            },
            _ => true,
        },
    }
}

/// Positions of the kept row groups among the first `n`, in order.
pub open spec fn kept_groups(stats: Seq<Option<ChunkStats>>, op: Seq<char>, t: i64, n: int) -> Seq<usize>
    decreases n,
{
    if n <= 0 {
        Seq::empty()
    } else {
        kept_groups(stats, op, t, n - 1) + if group_kept(stats[n - 1], op, t) {
            seq![(n - 1) as usize]
        } else {
            Seq::empty()
        }
    }
}

/// The value lies within the group's recorded bounds, where the group has
/// usable statistics.
pub open spec fn within_stats(stats: Option<ChunkStats>, v: i64) -> bool {
    match stats {
        Some(st) => match (st.min_bytes, st.max_bytes) {
            (Some(lo), Some(hi)) => lo@.len() == 8 && hi@.len() == 8 ==> le_i64(lo@) <= v <= le_i64(hi@),
            _ => true,
        },
        None => true,
    }
}

/// Pruning is sound: a row group holding a value that satisfies the
/// predicate, within the group's recorded bounds, is always kept.
pub proof fn lemma_pruning_keeps_matching_groups(stats: Seq<Option<ChunkStats>>, op: Seq<char>, t: i64, g: int, v: i64)
    requires
        stats.len() <= usize::MAX,
        0 <= g < stats.len(),
        within_stats(stats[g], v),
        compare_op_of(op) matches Some(c) && compares(v, c, t),
    ensures
        kept_groups(stats, op, t, stats.len() as int).contains(g as usize),
{
    assert(group_kept(stats[g], op, t));
    lemma_kept_groups_contain(stats, op, t, stats.len() as int, g);
}

proof fn lemma_kept_groups_contain(stats: Seq<Option<ChunkStats>>, op: Seq<char>, t: i64, n: int, g: int)
    requires
        n <= stats.len() <= usize::MAX,
        0 <= g < n,
        group_kept(stats[g], op, t),
    ensures
        kept_groups(stats, op, t, n).contains(g as usize),
    decreases n,
{
    let k = kept_groups(stats, op, t, n);
    if g == n - 1 {
        assert(k[k.len() - 1] == g as usize);
    } else {
        lemma_kept_groups_contain(stats, op, t, n - 1, g);
        let p = kept_groups(stats, op, t, n - 1);
        let i = choose|i: int| 0 <= i < p.len() && p[i] == g as usize;
        assert(k[i] == g as usize);
    }
}

fn range_check(min: i64, max: i64, op: &str, t: i64) -> (r: bool)
    ensures
        r == range_may_match(min, max, op@, t),
{
    match parse_compare_op(op) {
        Ok(CompareOp::Lt) => min < t,
        Ok(CompareOp::Le) => min <= t,
        Ok(CompareOp::Gt) => max > t,
        Ok(CompareOp::Ge) => max >= t,
        Ok(CompareOp::Eq) => min <= t && max >= t,
        Ok(CompareOp::Ne) => !(min == t && max == t),
        Err(_) => true,
    }
}

fn decode_le_i64(bytes: &Vec<u8>) -> (r: i64)
    requires
        bytes@.len() == 8,
    ensures
        r == le_i64(bytes@),
{
    let u = vstd::bytes::u64_from_le_bytes(bytes.as_slice());
    u as i64
}

/// Row groups that may hold a row with `value op threshold`, judged by each
/// group's statistics of the filter column; groups without usable statistics
/// are kept.
pub fn row_groups_matching_filter(stats: &[Option<ChunkStats>], op: &str, threshold: i64) -> (r: Vec<usize>)
    ensures
        r@ == kept_groups(stats@, op@, threshold, stats@.len() as int),
{
    let mut matching: Vec<usize> = Vec::new();
    let mut g: usize = 0;
    while g < stats.len()
        invariant
            g <= stats@.len(),
            matching@ == kept_groups(stats@, op@, threshold, g as int),
        decreases stats@.len() - g,
    {
        let keep = match &stats[g] {
            None => true,
            Some(st) => match (&st.min_bytes, &st.max_bytes) {
                (Some(lo), Some(hi)) => {
                    if lo.len() == 8 && hi.len() == 8 {
                        let min = decode_le_i64(lo);
                        let max = decode_le_i64(hi);
                        range_check(min, max, op, threshold)
                    } else {
                        true
                    }
                },
                _ => true,
            },
        };
        if keep {
            matching.push(g);
        }
        g += 1;
    }
    matching
}

// ─── Filtering batches ────────────────────────────────────────────

/// A filtered batch is kept when its mask has a non-null row.
pub fn mask_keeps_batch(mask: &BoolColumn) -> (r: bool)
    ensures
        r == exists|i: int| 0 <= i < mask.valid@.len() && mask.valid@[i],
{
    let mut i: usize = 0;
    while i < mask.valid.len()
        invariant
            i <= mask.valid@.len(),
            forall|j: int| 0 <= j < i ==> !mask.valid@[j],
        decreases mask.valid@.len() - i,
    {
        if mask.valid[i] {
            return true;
        }
        i += 1;
    }
    false
}

/// The columns a fused filter-aggregate reads: the filter and aggregated
/// column positions, ascending and without repeat, and where each of the two
/// stands in that list.
pub fn fused_projection(filter_idx: usize, agg_idx: usize) -> (r: (Vec<usize>, usize, usize))
    ensures
        filter_idx == agg_idx ==> r.0@ == seq![filter_idx],
        filter_idx < agg_idx ==> r.0@ == seq![filter_idx, agg_idx],
        filter_idx > agg_idx ==> r.0@ == seq![agg_idx, filter_idx],
        r.1 < r.0@.len() && r.0@[r.1 as int] == filter_idx,
        r.2 < r.0@.len() && r.0@[r.2 as int] == agg_idx,
{
    let mut projection: Vec<usize> = Vec::new();
    if filter_idx == agg_idx {
        projection.push(filter_idx);
        (projection, 0, 0)
    } else if filter_idx < agg_idx {
        projection.push(filter_idx);
        projection.push(agg_idx);
        (projection, 0, 1)
    } else {
        projection.push(agg_idx);
        projection.push(filter_idx);
        (projection, 1, 0)
    }
}

/// Positions of the wanted names among the field names (the first field of
/// each name), in the order wanted, skipping names no field has.
pub open spec fn first_positions(fields: Seq<Seq<char>>, wanted: Seq<Seq<char>>) -> Seq<usize>
    decreases wanted.len(),
{
    if wanted.len() == 0 {
        Seq::empty()
    } else {
        first_positions(fields, wanted.drop_last()) + match first_index(fields, wanted.last(), 0) {
            Some(i) => seq![i as usize],
            None => Seq::empty(),
        }
    }
}

/// The first position at or after `k` holding `n`.
pub open spec fn first_index(fields: Seq<Seq<char>>, n: Seq<char>, k: int) -> Option<int>
    decreases fields.len() - k,
{
    if k < 0 || k >= fields.len() {
        None
    } else if fields[k] == n {
        Some(k)
    } else {
        first_index(fields, n, k + 1)
    }
}

/// A found position lies at or after the start and inside the sequence, and
/// holds the name.
pub proof fn lemma_first_index_found(fields: Seq<Seq<char>>, n: Seq<char>, k: int)
    ensures
        first_index(fields, n, k) matches Some(i) ==> k <= i < fields.len() && fields[i] == n,
    decreases fields.len() - k,
{
    if 0 <= k < fields.len() && fields[k] != n {
        lemma_first_index_found(fields, n, k + 1);
    }
}

pub(crate) fn find_first(fields: &Vec<String>, name: &str) -> (r: Option<usize>)
    ensures
        match first_index(crate::optimizer::strs(fields@), name@, 0) {
            Some(i) => r == Some(i as usize),
            None => r is None,
        },
        r matches Some(k) ==> first_index(crate::optimizer::strs(fields@), name@, 0) == Some(k as int),
{
    let ghost fv = crate::optimizer::strs(fields@);
    let mut i: usize = 0;
    while i < fields.len()
        invariant
            fv == crate::optimizer::strs(fields@),
            i <= fields@.len(),
            first_index(fv, name@, 0) == first_index(fv, name@, i as int),
        decreases fields@.len() - i,
    {
        if str_eq(fields[i].as_str(), name) {
            return Some(i);
        }
        i += 1;
    }
    None
}

/// Projection for reading columns by name: the position of each wanted name
/// that some field carries, in the order wanted.
pub fn name_positions(fields: &Vec<String>, wanted: &[&str]) -> (r: Vec<usize>)
    ensures
        r@ == first_positions(crate::optimizer::strs(fields@), crate::schema::strs_view(wanted@)),
{
    let ghost wv = crate::schema::strs_view(wanted@);
    let mut out: Vec<usize> = Vec::new();
    let mut k: usize = 0;
    while k < wanted.len()
        invariant
            wv == crate::schema::strs_view(wanted@),
            k <= wanted@.len(),
            out@ == first_positions(crate::optimizer::strs(fields@), wv.subrange(0, k as int)),
        decreases wanted@.len() - k,
    {
        proof {
            assert(wv.subrange(0, k + 1).drop_last() =~= wv.subrange(0, k as int));
        }
        match find_first(fields, wanted[k]) {
            Some(i) => out.push(i),
            None => {},
        }
        k += 1;
    }
    assert(wv.subrange(0, wv.len() as int) =~= wv);
    out
}

// ─── Fused filter and aggregate over pruned row groups ────────────

/// Wrapping sum of the selected values among the first `n` rows.
pub open spec fn masked_wsum(f: I64Column, a: I64Column, op: CompareOp, t: i64, n: int) -> i64
    decreases n,
{
    if n <= 0 {
        0
    } else if row_selected(f, a, op, t, n - 1) {
        masked_wsum(f, a, op, t, n - 1).wrapping_add(a.values@[n - 1])
    } else {
        masked_wsum(f, a, op, t, n - 1)
    }
}

/// One row group's contribution when its selected rows are aggregated: the
/// selected values' sum (wrapping), count, minimum from `i64::MAX` or maximum
/// from `i64::MIN`.
pub open spec fn group_partial(f: I64Column, a: I64Column, c: CompareOp, t: i64, agg: AggOp) -> int {
    let n = a.values@.len() as int;
    match agg {
        AggOp::Sum | AggOp::Mean => masked_wsum(f, a, c, t, n) as int,
        AggOp::Count => masked_count(f, a, c, t, n),
        AggOp::Min => masked_min(f, a, c, t, n),
        AggOp::Max => masked_max(f, a, c, t, n),
    }
}

pub open spec fn group_total(fs: Seq<I64Column>, as_: Seq<I64Column>, c: CompareOp, t: i64, agg: AggOp, n: int) -> int
    decreases n,
{
    if n <= 0 {
        0
    } else {
        group_total(fs, as_, c, t, agg, n - 1) + group_partial(fs[n - 1], as_[n - 1], c, t, agg)
    }
}

pub open spec fn group_count_total(fs: Seq<I64Column>, as_: Seq<I64Column>, c: CompareOp, t: i64, n: int) -> int
    decreases n,
{
    if n <= 0 {
        0
    } else {
        group_count_total(fs, as_, c, t, n - 1) + masked_count(fs[n - 1], as_[n - 1], c, t, as_[n - 1].values@.len() as int)
    }
}

pub open spec fn group_min(fs: Seq<I64Column>, as_: Seq<I64Column>, c: CompareOp, t: i64, agg: AggOp, n: int) -> int
    decreases n,
{
    if n <= 1 {
        group_partial(fs[0], as_[0], c, t, agg)
    } else {
        let m = group_min(fs, as_, c, t, agg, n - 1);
        let p = group_partial(fs[n - 1], as_[n - 1], c, t, agg);
        if p < m {
            p
        } else {
            m
        }
    }
}

pub open spec fn group_max(fs: Seq<I64Column>, as_: Seq<I64Column>, c: CompareOp, t: i64, agg: AggOp, n: int) -> int
    decreases n,
{
    if n <= 1 {
        group_partial(fs[0], as_[0], c, t, agg)
    } else {
        let m = group_max(fs, as_, c, t, agg, n - 1);
        let p = group_partial(fs[n - 1], as_[n - 1], c, t, agg);
        if p > m {
            p
        } else {
            m
        }
    }
}

/// The fused filter-aggregate over the row groups kept by pruning: each
/// group's filter column gives a selection of rows, the selected rows of the
/// aggregated column are aggregated per group and the partials reduced. No
/// groups, or an operator that names no comparison, give null.
pub open spec fn pruned_aggregate(fs: Seq<I64Column>, as_: Seq<I64Column>, op: Seq<char>, t: i64, agg: AggOp) -> AggOutcome {
    let n = fs.len() as int;
    match compare_op_of(op) {
        None => AggOutcome::Null,
        Some(c) => if n == 0 {
            AggOutcome::Null
        } else {
            match agg {
                AggOp::Sum | AggOp::Count => AggOutcome::Int64(group_total(fs, as_, c, t, agg, n) as i64),
                AggOp::Min => AggOutcome::Int64(group_min(fs, as_, c, t, agg, n) as i64),
                AggOp::Max => AggOutcome::Int64(group_max(fs, as_, c, t, agg, n) as i64),
                AggOp::Mean => if group_count_total(fs, as_, c, t, n) == 0 {
                    AggOutcome::Null
                } else {
                    AggOutcome::WideMean {
                        sum: group_total(fs, as_, c, t, agg, n) as i128,
                        count: group_count_total(fs, as_, c, t, n) as i64,
                    }
                },
            }
        },
    }
}

/// Inputs on which the pruned aggregate does not overflow and selections
/// are defined: filter columns have no nulls, every running total of counts
/// fits in 64 bits, and (but for a mean, whose partial sums are added in
/// 128 bits) so does every running total of partials.
pub open spec fn pruned_fits(fs: Seq<I64Column>, as_: Seq<I64Column>, op: Seq<char>, t: i64, agg: AggOp) -> bool {
    &&& forall|k: int, i: int| 0 <= k < fs.len() && 0 <= i < fs[k].valid@.len() ==> #[trigger] fs[k].valid@[i]
    &&& compare_op_of(op) matches Some(c) ==> {
        &&& !(agg is Mean) ==> forall|n: int| 0 <= n <= fs.len() ==> i64::MIN <= #[trigger] group_total(fs, as_, c, t, agg, n) <= i64::MAX
        &&& forall|n: int| 0 <= n <= fs.len() ==> #[trigger] group_count_total(fs, as_, c, t, n) <= i64::MAX
    }
}

fn group_batch(f: &I64Column, a: &I64Column, c: CompareOp, t: i64, agg: AggOp) -> (r: (i64, i64))
    requires
        pair_wf(*f, *a),
        a.values@.len() <= i64::MAX,
    ensures
        r.0 == group_partial(*f, *a, c, t, agg),
        r.1 == masked_count(*f, *a, c, t, a.values@.len() as int),
{
    let selection = compare_column(f, c, t);
    let mut sum: i64 = 0;
    let mut count: i64 = 0;
    let mut lo: i64 = i64::MAX;
    let mut hi: i64 = i64::MIN;
    let mut i: usize = 0;
    while i < a.values.len()
        invariant
            pair_wf(*f, *a),
            a.values@.len() <= i64::MAX,
            selection.values@.len() == f.values@.len(),
            forall|j: int| 0 <= j < selection.values@.len() ==> selection.values@[j] == compares(f.values@[j], c, t),
            i <= a.values@.len(),
            sum == masked_wsum(*f, *a, c, t, i as int),
            count == masked_count(*f, *a, c, t, i as int),
            lo == masked_min(*f, *a, c, t, i as int),
            hi == masked_max(*f, *a, c, t, i as int),
        decreases a.values@.len() - i,
    {
        proof {
            lemma_masked_count_bound(*f, *a, c, t, i + 1);
        }
        if selection.values[i] && a.valid[i] {
            let v = a.values[i];
            sum = sum.wrapping_add(v);
            count = count + 1;
            if v < lo {
                lo = v;
            }
            if v > hi {
                hi = v;
            }
        }
        i += 1;
    }
    let p = match agg {
        AggOp::Sum | AggOp::Mean => sum,
        AggOp::Count => count,
        AggOp::Min => lo,
        AggOp::Max => hi,
    };
    (p, count)
}

proof fn lemma_group_count_nonneg(fs: Seq<I64Column>, as_: Seq<I64Column>, c: CompareOp, t: i64, n: int)
    ensures
        0 <= group_count_total(fs, as_, c, t, n),
    decreases n,
{
    if n > 0 {
        lemma_group_count_nonneg(fs, as_, c, t, n - 1);
        lemma_masked_count_bound(fs[n - 1], as_[n - 1], c, t, as_[n - 1].values@.len() as int);
    }
}

/// Fused filter and aggregate over the row groups kept by pruning (one
/// filter and one aggregated column per group, in group order).
#[verifier::spinoff_prover]
pub fn pruned_filter_aggregate(
    filters: &[I64Column],
    aggs: &[I64Column],
    op: &str,
    threshold: i64,
    agg_op: AggOp,
) -> (r: AggOutcome)
    requires
        filters@.len() == aggs@.len(),
        forall|k: int| 0 <= k < filters@.len() ==> pair_wf(#[trigger] filters@[k], aggs@[k]) && aggs@[k].values@.len() <= i64::MAX,
        pruned_fits(filters@, aggs@, op@, threshold, agg_op),
    ensures
        r == pruned_aggregate(filters@, aggs@, op@, threshold, agg_op),
{
    let c = match parse_compare_op(op) {
        Ok(c) => c,
        Err(_) => {
            return AggOutcome::Null;
        },
    };
    if filters.len() == 0 {
        return AggOutcome::Null;
    }
    let ghost fs = filters@;
    let ghost as_ = aggs@;
    let mut total: i64 = 0;
    let mut wide: i128 = 0;
    let mut count: i64 = 0;
    let mut lo: i64 = 0;
    let mut hi: i64 = 0;
    let mut k: usize = 0;
    while k < filters.len()
        invariant
            fs == filters@,
            as_ == aggs@,
            compare_op_of(op@) == Some(c),
            filters@.len() == aggs@.len(),
            filters@.len() > 0,
            forall|j: int| 0 <= j < filters@.len() ==> pair_wf(#[trigger] filters@[j], aggs@[j]) && aggs@[j].values@.len() <= i64::MAX,
            pruned_fits(filters@, aggs@, op@, threshold, agg_op),
            k <= filters@.len(),
            !(agg_op is Mean) ==> total == group_total(fs, as_, c, threshold, agg_op, k as int),
            agg_op is Mean ==> wide == group_total(fs, as_, c, threshold, agg_op, k as int),
            -(k * 0x8000_0000_0000_0000) <= wide <= k * 0x8000_0000_0000_0000,
            count == group_count_total(fs, as_, c, threshold, k as int),
            k >= 1 ==> lo == group_min(fs, as_, c, threshold, agg_op, k as int),
            k >= 1 ==> hi == group_max(fs, as_, c, threshold, agg_op, k as int),
        decreases filters@.len() - k,
    {
        proof {
            assert(pair_wf(filters@[k as int], aggs@[k as int]));
            if !(agg_op is Mean) {
                assert(i64::MIN <= group_total(fs, as_, c, threshold, agg_op, k + 1) <= i64::MAX);
            }
            assert(group_count_total(fs, as_, c, threshold, k + 1) <= i64::MAX);
            lemma_group_count_nonneg(fs, as_, c, threshold, k as int);
            lemma_masked_count_bound(fs[k as int], as_[k as int], c, threshold, as_[k as int].values@.len() as int);
        }
        let (p, n) = group_batch(&filters[k], &aggs[k], c, threshold, agg_op);
        if let AggOp::Mean = agg_op {
            wide = wide + p as i128;
        } else {
            total = total + p;
        }
        count = count + n;
        if k == 0 {
            lo = p;
            hi = p;
        } else {
            if p < lo {
                lo = p;
            }
            if p > hi {
                hi = p;
            }
        }
        k += 1;
    }
    match agg_op {
        AggOp::Sum | AggOp::Count => AggOutcome::Int64(total),
        AggOp::Min => AggOutcome::Int64(lo),
        AggOp::Max => AggOutcome::Int64(hi),
        AggOp::Mean => if count == 0 {
            AggOutcome::Null
        } else {
            AggOutcome::WideMean { sum: wide, count }
        },
    }
}

// ─── Overflow checks ──────────────────────────────────────────────

/// Whether `aggregate_batches` and `streaming_aggregate` can run on these
/// batches: every running total of the partials, and the valid-row count,
/// fit in 64 bits.
pub fn aggregate_fits(batches: &[I64Column], op: AggOp) -> (r: bool)
    requires
        forall|i: int| 0 <= i < batches@.len() ==> (#[trigger] batches@[i]).wf() && batches@[i].values@.len() <= i64::MAX,
    ensures
        r == ((sums_partials(op) ==> totals_fit(batches@, op)) && total_count(batches@, batches@.len() as int)
            <= i64::MAX),
{
    let summing = op == AggOp::Sum || op == AggOp::Count || op == AggOp::Mean;
    let mut acc: i128 = 0;
    let mut cnt: i128 = 0;
    let mut i: usize = 0;
    while i < batches.len()
        invariant
            forall|k: int| 0 <= k < batches@.len() ==> (#[trigger] batches@[k]).wf() && batches@[k].values@.len() <= i64::MAX,
            summing == sums_partials(op),
            i <= batches@.len(),
            sums_partials(op) ==> acc == partial_total(batches@, op, i as int),
            cnt == total_count(batches@, i as int),
            cnt <= i64::MAX,
            sums_partials(op) ==> forall|n: int| 0 <= n <= i ==> i64::MIN <= #[trigger] partial_total(batches@, op, n) <= i64::MAX,
        decreases batches@.len() - i,
    {
        let p = partial_of(&batches[i], op);
        proof {
            lemma_valid_count_bound(batches@[i as int].valid@, batches@[i as int].valid@.len() as int);
        }
        let c = valid_rows(&batches[i]);
        if summing {
            acc = acc + p as i128;
        }
        cnt = cnt + c as i128;
        if summing && (acc < i64::MIN as i128 || acc > i64::MAX as i128) {
            assert(!(i64::MIN <= partial_total(batches@, op, i + 1) <= i64::MAX));
            return false;
        }
        if cnt > i64::MAX as i128 {
            proof {
                lemma_total_count_prefix(batches@, i + 1, batches@.len() as int);
            }
            return false;
        }
        i += 1;
    }
    if !summing {
        return true;
    }
    true
}

fn masked_sums_fit_check(f: &I64Column, a: &I64Column, c: CompareOp, t: i64) -> (r: bool)
    requires
        pair_wf(*f, *a),
    ensures
        r == masked_sums_fit(*f, *a, c, t),
{
    let mask = compare_column(f, c, t);
    let mut acc: i128 = 0;
    let mut i: usize = 0;
    while i < a.values.len()
        invariant
            pair_wf(*f, *a),
            mask.values@.len() == f.values@.len(),
            forall|j: int| 0 <= j < mask.values@.len() ==> mask.values@[j] == compares(f.values@[j], c, t),
            i <= a.values@.len(),
            acc == masked_sum(*f, *a, c, t, i as int),
            forall|n: int| 0 <= n <= i ==> i64::MIN <= #[trigger] masked_sum(*f, *a, c, t, n) <= i64::MAX,
        decreases a.values@.len() - i,
    {
        if mask.values[i] && a.valid[i] {
            acc = acc + a.values[i] as i128;
        }
        if acc < i64::MIN as i128 || acc > i64::MAX as i128 {
            assert(!(i64::MIN <= masked_sum(*f, *a, c, t, i + 1) <= i64::MAX));
            return false;
        }
        i += 1;
    }
    true
}

/// Whether `filter_aggregate_batches` can run on these batches without
/// overflow.
pub fn fused_aggregate_fits(filters: &[I64Column], aggs: &[I64Column], op: &str, threshold: i64, agg_op: AggOp) -> (r: bool)
    requires
        filters@.len() == aggs@.len(),
        forall|b: int| 0 <= b < filters@.len() ==> pair_wf(#[trigger] filters@[b], aggs@[b]) && aggs@[b].values@.len() <= i64::MAX,
    ensures
        r == fused_fits(filters@, aggs@, op@, threshold, agg_op),
{
    let ghost fs = filters@;
    let ghost as_ = aggs@;
    assert forall|j: int| 0 <= j < fs.len() implies pair_wf(#[trigger] fs[j], as_[j]) && as_[j].values@.len() <= i64::MAX by {
        assert(0 <= j < filters@.len());
        assert(pair_wf(filters@[j], aggs@[j]));
        assert(aggs@[j].values@.len() <= i64::MAX);
    }
    let c: Option<CompareOp> = match parse_compare_op(op) {
        Ok(c) => Some(c),
        Err(_) => None,
    };
    let mut k: usize = 0;
    while k < filters.len()
        invariant
            fs == filters@,
            as_ == aggs@,
            fs.len() == as_.len(),
            forall|j: int| 0 <= j < fs.len() ==> pair_wf(#[trigger] fs[j], as_[j]) && as_[j].values@.len() <= i64::MAX,
            c == compare_op_of(op@),
            k <= fs.len(),
            forall|q: int| 0 <= q < k ==> (c matches Some(o) ==> masked_sums_fit(#[trigger] fs[q], as_[q], o, threshold)),
        decreases fs.len() - k,
    {
        proof {
            assert(pair_wf(fs[k as int], as_[k as int]));
        }
        if let Some(o) = c {
            if !masked_sums_fit_check(&filters[k], &aggs[k], o, threshold) {
                return false;
            }
        }
        k += 1;
    }
    let mut acc: i128 = 0;
    let mut cnt: i128 = 0;
    let mut n: usize = 0;
    while n < filters.len()
        invariant
            fs == filters@,
            as_ == aggs@,
            fs.len() == as_.len(),
            forall|j: int| 0 <= j < fs.len() ==> pair_wf(#[trigger] fs[j], as_[j]) && as_[j].values@.len() <= i64::MAX,
            c == compare_op_of(op@),
            forall|q: int| 0 <= q < fs.len() ==> (c matches Some(o) ==> masked_sums_fit(#[trigger] fs[q], as_[q], o, threshold)),
            n <= fs.len(),
            acc == fused_total(fs, as_, c, threshold, agg_op, n as int),
            cnt == fused_count_total(fs, as_, c, threshold, n as int),
            forall|m: int| 0 <= m <= n ==> i64::MIN <= #[trigger] fused_total(fs, as_, c, threshold, agg_op, m) <= i64::MAX,
            forall|m: int| 0 <= m <= n ==> #[trigger] fused_count_total(fs, as_, c, threshold, m) <= i64::MAX,
        decreases fs.len() - n,
    {
        proof {
            assert(pair_wf(fs[n as int], as_[n as int]));
            if let Some(o) = c {
                assert(masked_sums_fit(fs[n as int], as_[n as int], o, threshold));
                lemma_masked_count_bound(fs[n as int], as_[n as int], o, threshold, as_[n as int].values@.len() as int);
            }
        }
        let (p, pc) = fused_batch(&filters[n], &aggs[n], c, threshold, agg_op);
        acc = acc + p as i128;
        cnt = cnt + pc as i128;
        if acc < i64::MIN as i128 || acc > i64::MAX as i128 {
            assert(!(i64::MIN <= fused_total(fs, as_, c, threshold, agg_op, n + 1) <= i64::MAX));
            return false;
        }
        if cnt > i64::MAX as i128 {
            assert(!(fused_count_total(fs, as_, c, threshold, n + 1) <= i64::MAX));
            return false;
        }
        n += 1;
    }
    true
}

/// Whether `pruned_filter_aggregate` can run on these row groups: no filter
/// value is null, and the running totals of the partials and of the selected
/// counts fit in 64 bits.
pub fn pruned_aggregate_fits(filters: &[I64Column], aggs: &[I64Column], op: &str, threshold: i64, agg_op: AggOp) -> (r: bool)
    requires
        filters@.len() == aggs@.len(),
        forall|b: int| 0 <= b < filters@.len() ==> pair_wf(#[trigger] filters@[b], aggs@[b]) && aggs@[b].values@.len() <= i64::MAX,
    ensures
        r == pruned_fits(filters@, aggs@, op@, threshold, agg_op),
{
    let ghost fs = filters@;
    let ghost as_ = aggs@;
    assert forall|j: int| 0 <= j < fs.len() implies pair_wf(#[trigger] fs[j], as_[j]) && as_[j].values@.len() <= i64::MAX by {
        assert(0 <= j < filters@.len());
        assert(pair_wf(filters@[j], aggs@[j]));
        assert(aggs@[j].values@.len() <= i64::MAX);
    }
    let mut k: usize = 0;
    while k < filters.len()
        invariant
            fs == filters@,
            k <= fs.len(),
            forall|q: int, i: int| 0 <= q < k && 0 <= i < fs[q].valid@.len() ==> #[trigger] fs[q].valid@[i],
        decreases fs.len() - k,
    {
        let mut i: usize = 0;
        while i < filters[k].valid.len()
            invariant
                fs == filters@,
                k < fs.len(),
                i <= fs[k as int].valid@.len(),
                forall|q: int, j: int| 0 <= q < k && 0 <= j < fs[q].valid@.len() ==> #[trigger] fs[q].valid@[j],
                forall|j: int| 0 <= j < i ==> #[trigger] fs[k as int].valid@[j],
            decreases fs[k as int].valid@.len() - i,
        {
            if !filters[k].valid[i] {
                return false;
            }
            i += 1;
        }
        k += 1;
    }
    let c = match parse_compare_op(op) {
        Ok(c) => c,
        Err(_) => {
            return true;
        },
    };
    let mut acc: i128 = 0;
    let mut cnt: i128 = 0;
    let mut n: usize = 0;
    while n < filters.len()
        invariant
            fs == filters@,
            as_ == aggs@,
            fs.len() == as_.len(),
            forall|j: int| 0 <= j < fs.len() ==> pair_wf(#[trigger] fs[j], as_[j]) && as_[j].values@.len() <= i64::MAX,
            n <= fs.len(),
            compare_op_of(op@) == Some(c),
            !(agg_op is Mean) ==> acc == group_total(fs, as_, c, threshold, agg_op, n as int),
            cnt == group_count_total(fs, as_, c, threshold, n as int),
            !(agg_op is Mean) ==> forall|m: int| 0 <= m <= n ==> i64::MIN <= #[trigger] group_total(fs, as_, c, threshold, agg_op, m) <= i64::MAX,
            agg_op is Mean ==> acc == 0,
            forall|m: int| 0 <= m <= n ==> #[trigger] group_count_total(fs, as_, c, threshold, m) <= i64::MAX,
        decreases fs.len() - n,
    {
        proof {
            assert(pair_wf(fs[n as int], as_[n as int]));
            lemma_masked_count_bound(fs[n as int], as_[n as int], c, threshold, as_[n as int].values@.len() as int);
        }
        let (p, pc) = group_batch(&filters[n], &aggs[n], c, threshold, agg_op);
        if let AggOp::Mean = agg_op {
        } else {
            acc = acc + p as i128;
        }
        cnt = cnt + pc as i128;
        if acc < i64::MIN as i128 || acc > i64::MAX as i128 {
            proof {
                if pruned_fits(fs, as_, op@, threshold, agg_op) {
                    assert(forall|m: int| 0 <= m <= fs.len() ==> i64::MIN <= #[trigger] group_total(fs, as_, c, threshold, agg_op, m) <= i64::MAX);
                    assert(i64::MIN <= group_total(fs, as_, c, threshold, agg_op, n + 1) <= i64::MAX);
                }
            }
            return false;
        }
        if cnt > i64::MAX as i128 {
            proof {
                if pruned_fits(fs, as_, op@, threshold, agg_op) {
                    assert(forall|m: int| 0 <= m <= fs.len() ==> #[trigger] group_count_total(fs, as_, c, threshold, m) <= i64::MAX);
                    assert(group_count_total(fs, as_, c, threshold, n + 1) <= i64::MAX);
                }
            }
            return false;
        }
        n += 1;
    }
    true
}

// ─── Laws of the kernels ──────────────────────────────────────────

/// A threshold comparison means what its operator text says: the mask entry
/// for a value `v` is `v < t` for `"<"`, `v <= t` for `"<="`, `v > t` for
/// `">"`, `v >= t` for `">="`, `v == t` for `"=="` and `v != t` for `"!="`.
pub proof fn lemma_threshold_compare_meaning(op: Seq<char>, v: i64, t: i64)
    requires
        compare_op_of(op) is Some,
    ensures
        compares(v, compare_op_of(op)->Some_0, t) == (
            (op == "<"@ && v < t) || (op == "<="@ && v <= t) || (op == ">"@ && v > t) || (op == ">="@ && v >= t)
            || (op == "=="@ && v == t) || (op == "!="@ && v != t)
        ),
{
    reveal_strlit("<");
    reveal_strlit("<=");
    reveal_strlit(">");
    reveal_strlit(">=");
    reveal_strlit("==");
    reveal_strlit("!=");
    let lt = "<"@;
    let le = "<="@;
    let gt = ">"@;
    let ge = ">="@;
    let eq = "=="@;
    let ne = "!="@;
    assert(lt.len() == 1 && gt.len() == 1 && le.len() == 2 && ge.len() == 2 && eq.len() == 2 && ne.len() == 2);
    assert(lt[0] == '<' && gt[0] == '>' && le[0] == '<' && ge[0] == '>' && eq[0] == '=' && ne[0] == '!');
    assert(lt != gt && le != ge && le != eq && le != ne && ge != eq && ge != ne && eq != ne);
    assert(lt != le && lt != ge && lt != eq && lt != ne && gt != le && gt != ge && gt != eq && gt != ne);
}

/// A row of the fused filter-aggregate is selected: its filter value
/// satisfies the comparison and its aggregated value is valid.
pub open spec fn fused_row_selected(fs: Seq<I64Column>, as_: Seq<I64Column>, c: CompareOp, t: i64, k: int, i: int) -> bool {
    &&& 0 <= k < fs.len()
    &&& 0 <= i < as_[k].values@.len()
    &&& compares(fs[k].values@[i], c, t)
    &&& as_[k].valid@[i]
}

proof fn lemma_masked_extremes(f: I64Column, a: I64Column, c: CompareOp, t: i64, n: int)
    requires
        0 <= n <= a.values@.len(),
        a.values@.len() == f.values@.len(),
    ensures
        i64::MIN <= masked_max(f, a, c, t, n) <= i64::MAX,
        i64::MIN <= masked_min(f, a, c, t, n) <= i64::MAX,
        forall|i: int| 0 <= i < n && row_selected(f, a, c, t, i) ==> a.values@[i] <= masked_max(f, a, c, t, n),
        forall|i: int| 0 <= i < n && row_selected(f, a, c, t, i) ==> a.values@[i] >= masked_min(f, a, c, t, n),
        (exists|i: int| 0 <= i < n && row_selected(f, a, c, t, i)) ==> exists|i: int|
            0 <= i < n && row_selected(f, a, c, t, i) && a.values@[i] == masked_max(f, a, c, t, n),
        (exists|i: int| 0 <= i < n && row_selected(f, a, c, t, i)) ==> exists|i: int|
            0 <= i < n && row_selected(f, a, c, t, i) && a.values@[i] == masked_min(f, a, c, t, n),
        !(exists|i: int| 0 <= i < n && row_selected(f, a, c, t, i)) ==> masked_max(f, a, c, t, n) == i64::MIN,
        !(exists|i: int| 0 <= i < n && row_selected(f, a, c, t, i)) ==> masked_min(f, a, c, t, n) == i64::MAX,
    decreases n,
{
    if n > 0 {
        lemma_masked_extremes(f, a, c, t, n - 1);
        if exists|i: int| 0 <= i < n && row_selected(f, a, c, t, i) {
            if !row_selected(f, a, c, t, n - 1) {
                let w = choose|i: int| 0 <= i < n && row_selected(f, a, c, t, i);
                assert(w < n - 1);
            }
        }
    }
}

proof fn lemma_fused_extremes(fs: Seq<I64Column>, as_: Seq<I64Column>, c: CompareOp, t: i64, n: int)
    requires
        1 <= n <= fs.len(),
        fs.len() == as_.len(),
        forall|k: int| 0 <= k < fs.len() ==> pair_wf(#[trigger] fs[k], as_[k]),
    ensures
        i64::MIN <= fused_max(fs, as_, Some(c), t, AggOp::Max, n) <= i64::MAX,
        i64::MIN <= fused_min(fs, as_, Some(c), t, AggOp::Min, n) <= i64::MAX,
        forall|k: int, i: int| k < n && fused_row_selected(fs, as_, c, t, k, i) ==> as_[k].values@[i] <= fused_max(fs, as_, Some(c), t, AggOp::Max, n),
        forall|k: int, i: int| k < n && fused_row_selected(fs, as_, c, t, k, i) ==> as_[k].values@[i] >= fused_min(fs, as_, Some(c), t, AggOp::Min, n),
        (exists|k: int, i: int| k < n && fused_row_selected(fs, as_, c, t, k, i)) ==> exists|k: int, i: int|
            k < n && fused_row_selected(fs, as_, c, t, k, i) && as_[k].values@[i] == fused_max(fs, as_, Some(c), t, AggOp::Max, n),
        (exists|k: int, i: int| k < n && fused_row_selected(fs, as_, c, t, k, i)) ==> exists|k: int, i: int|
            k < n && fused_row_selected(fs, as_, c, t, k, i) && as_[k].values@[i] == fused_min(fs, as_, Some(c), t, AggOp::Min, n),
        !(exists|k: int, i: int| k < n && fused_row_selected(fs, as_, c, t, k, i)) ==> fused_max(fs, as_, Some(c), t, AggOp::Max, n) == i64::MIN,
        !(exists|k: int, i: int| k < n && fused_row_selected(fs, as_, c, t, k, i)) ==> fused_min(fs, as_, Some(c), t, AggOp::Min, n) == i64::MAX,
    decreases n,
{
    let b = n - 1;
    let f = fs[b];
    let a = as_[b];
    assert(pair_wf(f, a));
    let len = a.values@.len() as int;
    lemma_masked_extremes(f, a, c, t, len);
    assert forall|i: int| 0 <= i < len implies (row_selected(f, a, c, t, i) == fused_row_selected(fs, as_, c, t, b, i)) by {}
    if n > 1 {
        lemma_fused_extremes(fs, as_, c, t, n - 1);
    }
    let hi = fused_max(fs, as_, Some(c), t, AggOp::Max, n);
    let lo = fused_min(fs, as_, Some(c), t, AggOp::Min, n);
    assert forall|k: int, i: int| k < n && fused_row_selected(fs, as_, c, t, k, i) implies as_[k].values@[i] <= hi
        && as_[k].values@[i] >= lo by {
        if k < b {
        } else {
            assert(row_selected(f, a, c, t, i));
        }
    }
    if exists|k: int, i: int| k < n && fused_row_selected(fs, as_, c, t, k, i) {
        let (k0, i0) = choose|k: int, i: int| k < n && fused_row_selected(fs, as_, c, t, k, i);
        let batch_has = exists|i: int| 0 <= i < len && row_selected(f, a, c, t, i);
        let before_has = exists|k: int, i: int| k < b && fused_row_selected(fs, as_, c, t, k, i);
        if k0 == b {
            assert(row_selected(f, a, c, t, i0));
            assert(batch_has);
        } else {
            assert(before_has);
        }
        if batch_has {
            let j = choose|i: int| 0 <= i < len && row_selected(f, a, c, t, i) && a.values@[i] == masked_max(f, a, c, t, len);
            let j2 = choose|i: int| 0 <= i < len && row_selected(f, a, c, t, i) && a.values@[i] == masked_min(f, a, c, t, len);
            assert(fused_row_selected(fs, as_, c, t, b, j));
            assert(fused_row_selected(fs, as_, c, t, b, j2));
        }
    }
}

/// The fused Max is the greatest aggregated value among the selected rows
/// (rows whose filter value satisfies the comparison and whose aggregated
/// value is valid), and the fused Min the least; each equals one of them.
pub proof fn lemma_fused_extremes_over_selected_rows(fs: Seq<I64Column>, as_: Seq<I64Column>, op: Seq<char>, t: i64)
    requires
        fs.len() == as_.len(),
        forall|k: int| 0 <= k < fs.len() ==> pair_wf(#[trigger] fs[k], as_[k]),
        compare_op_of(op) matches Some(c) && exists|k: int, i: int| fused_row_selected(fs, as_, c, t, k, i),
    ensures
        ({
            let c = compare_op_of(op)->Some_0;
            &&& fused_aggregate(fs, as_, op, t, AggOp::Max) matches AggOutcome::Int64(m) && (forall|k: int, i: int|
                fused_row_selected(fs, as_, c, t, k, i) ==> as_[k].values@[i] <= m) && (exists|k: int, i: int|
                fused_row_selected(fs, as_, c, t, k, i) && as_[k].values@[i] == m)
            &&& fused_aggregate(fs, as_, op, t, AggOp::Min) matches AggOutcome::Int64(m) && (forall|k: int, i: int|
                fused_row_selected(fs, as_, c, t, k, i) ==> as_[k].values@[i] >= m) && (exists|k: int, i: int|
                fused_row_selected(fs, as_, c, t, k, i) && as_[k].values@[i] == m)
        }),
{
    let c = compare_op_of(op)->Some_0;
    let n = fs.len() as int;
    let (k0, i0) = choose|k: int, i: int| fused_row_selected(fs, as_, c, t, k, i);
    assert(k0 < n);
    lemma_fused_extremes(fs, as_, c, t, n);
}

/// Streaming aggregation gives what aggregating all rows of the batches at
/// once gives: the sum, valid-row count and mean (a sum with its count) of
/// the valid values; the extremes of the valid values, null where the
/// column has none (or the extreme is the starting bound itself).
pub proof fn lemma_streaming_matches_whole_column(bs: Seq<I64Column>, op: AggOp)
    requires
        bs.len() >= 1,
        forall|i: int| 0 <= i < bs.len() ==> (#[trigger] bs[i]).wf(),
        sums_partials(op) ==> totals_fit(bs, op),
        total_count(bs, bs.len() as int) <= i64::MAX,
    ensures
        ({
            let v = concat_values(bs, bs.len() as int);
            let w = concat_valid(bs, bs.len() as int);
            &&& (op is Sum || op is Count || op is Mean) ==> streaming_outcome(bs, op) == column_aggregate(v, w, op)
            &&& op is Min ==> streaming_outcome(bs, op) == match min_valid(v, w, v.len() as int) {
                Some(m) => if m == i64::MAX {
                    AggOutcome::Null
                } else {
                    AggOutcome::Int64(m)
                },
                None => AggOutcome::Null,
            }
            &&& op is Max ==> streaming_outcome(bs, op) == match max_valid(v, w, v.len() as int) {
                Some(m) => if m == i64::MIN {
                    AggOutcome::Null
                } else {
                    AggOutcome::Int64(m)
                },
                None => AggOutcome::Null,
            }
        }),
{
    let n = bs.len() as int;
    lemma_batch_folds(bs, n);
    lemma_concat_len(bs, n);
    let v = concat_values(bs, n);
    let w = concat_valid(bs, n);
    assert(v.len() == w.len());
    if valid_count(w, w.len() as int) == 0 {
        lemma_no_valid(v, w, w.len() as int);
    }
    if op is Sum || op is Mean {
        assert forall|m: int| 1 <= m <= n implies i64::MIN <= #[trigger] partial_total(bs, AggOp::Sum, m)
            <= i64::MAX by {
            lemma_partial_total_sum_mean(bs, m);
            assert(i64::MIN <= partial_total(bs, op, m) <= i64::MAX);
        }
        lemma_partial_total_sum_mean(bs, n);
    }
}

proof fn lemma_group_extremes(fs: Seq<I64Column>, as_: Seq<I64Column>, c: CompareOp, t: i64, n: int)
    requires
        1 <= n <= fs.len(),
        fs.len() == as_.len(),
        forall|k: int| 0 <= k < fs.len() ==> pair_wf(#[trigger] fs[k], as_[k]),
    ensures
        i64::MIN <= group_max(fs, as_, c, t, AggOp::Max, n) <= i64::MAX,
        i64::MIN <= group_min(fs, as_, c, t, AggOp::Min, n) <= i64::MAX,
        forall|k: int, i: int| k < n && fused_row_selected(fs, as_, c, t, k, i) ==> as_[k].values@[i] <= group_max(fs, as_, c, t, AggOp::Max, n),
        forall|k: int, i: int| k < n && fused_row_selected(fs, as_, c, t, k, i) ==> as_[k].values@[i] >= group_min(fs, as_, c, t, AggOp::Min, n),
        (exists|k: int, i: int| k < n && fused_row_selected(fs, as_, c, t, k, i)) ==> exists|k: int, i: int|
            k < n && fused_row_selected(fs, as_, c, t, k, i) && as_[k].values@[i] == group_max(fs, as_, c, t, AggOp::Max, n),
        (exists|k: int, i: int| k < n && fused_row_selected(fs, as_, c, t, k, i)) ==> exists|k: int, i: int|
            k < n && fused_row_selected(fs, as_, c, t, k, i) && as_[k].values@[i] == group_min(fs, as_, c, t, AggOp::Min, n),
        !(exists|k: int, i: int| k < n && fused_row_selected(fs, as_, c, t, k, i)) ==> group_max(fs, as_, c, t, AggOp::Max, n) == i64::MIN,
        !(exists|k: int, i: int| k < n && fused_row_selected(fs, as_, c, t, k, i)) ==> group_min(fs, as_, c, t, AggOp::Min, n) == i64::MAX,
    decreases n,
{
    let b = n - 1;
    let f = fs[b];
    let a = as_[b];
    assert(pair_wf(f, a));
    let len = a.values@.len() as int;
    lemma_masked_extremes(f, a, c, t, len);
    assert forall|i: int| 0 <= i < len implies (row_selected(f, a, c, t, i) == fused_row_selected(fs, as_, c, t, b, i)) by {}
    if n > 1 {
        lemma_group_extremes(fs, as_, c, t, n - 1);
    }
    let hi = group_max(fs, as_, c, t, AggOp::Max, n);
    let lo = group_min(fs, as_, c, t, AggOp::Min, n);
    assert forall|k: int, i: int| k < n && fused_row_selected(fs, as_, c, t, k, i) implies as_[k].values@[i] <= hi
        && as_[k].values@[i] >= lo by {
        if k < b {
        } else {
            assert(row_selected(f, a, c, t, i));
        }
    }
    if exists|k: int, i: int| k < n && fused_row_selected(fs, as_, c, t, k, i) {
        let (k0, i0) = choose|k: int, i: int| k < n && fused_row_selected(fs, as_, c, t, k, i);
        let batch_has = exists|i: int| 0 <= i < len && row_selected(f, a, c, t, i);
        let before_has = exists|k: int, i: int| k < b && fused_row_selected(fs, as_, c, t, k, i);
        if k0 == b {
            assert(row_selected(f, a, c, t, i0));
            assert(batch_has);
        } else {
            assert(before_has);
        }
        if batch_has {
            let j = choose|i: int| 0 <= i < len && row_selected(f, a, c, t, i) && a.values@[i] == masked_max(f, a, c, t, len);
            let j2 = choose|i: int| 0 <= i < len && row_selected(f, a, c, t, i) && a.values@[i] == masked_min(f, a, c, t, len);
            assert(fused_row_selected(fs, as_, c, t, b, j));
            assert(fused_row_selected(fs, as_, c, t, b, j2));
        }
    }
}

/// Over the row groups kept by pruning, the fused Max is the greatest
/// aggregated value among the selected rows and the fused Min the least;
/// each equals one of them.
pub proof fn lemma_pruned_extremes_over_selected_rows(fs: Seq<I64Column>, as_: Seq<I64Column>, op: Seq<char>, t: i64)
    requires
        fs.len() == as_.len(),
        forall|k: int| 0 <= k < fs.len() ==> pair_wf(#[trigger] fs[k], as_[k]),
        compare_op_of(op) matches Some(c) && exists|k: int, i: int| fused_row_selected(fs, as_, c, t, k, i),
    ensures
        ({
            let c = compare_op_of(op)->Some_0;
            &&& pruned_aggregate(fs, as_, op, t, AggOp::Max) matches AggOutcome::Int64(m) && (forall|k: int, i: int|
                fused_row_selected(fs, as_, c, t, k, i) ==> as_[k].values@[i] <= m) && (exists|k: int, i: int|
                fused_row_selected(fs, as_, c, t, k, i) && as_[k].values@[i] == m)
            &&& pruned_aggregate(fs, as_, op, t, AggOp::Min) matches AggOutcome::Int64(m) && (forall|k: int, i: int|
                fused_row_selected(fs, as_, c, t, k, i) ==> as_[k].values@[i] >= m) && (exists|k: int, i: int|
                fused_row_selected(fs, as_, c, t, k, i) && as_[k].values@[i] == m)
        }),
{
    let c = compare_op_of(op)->Some_0;
    let n = fs.len() as int;
    let (k0, i0) = choose|k: int, i: int| fused_row_selected(fs, as_, c, t, k, i);
    assert(k0 < n);
    lemma_group_extremes(fs, as_, c, t, n);
}

/// The extremes of a column's valid values: the minimum is at most, and the
/// maximum at least, every valid value, and each is one of them; a column
/// without valid values has neither.
pub proof fn lemma_column_extremes(values: Seq<i64>, valid: Seq<bool>, n: int)
    requires
        0 <= n <= values.len(),
        values.len() == valid.len(),
    ensures
        (exists|i: int| 0 <= i < n && valid[i]) <==> min_valid(values, valid, n) is Some,
        (exists|i: int| 0 <= i < n && valid[i]) <==> max_valid(values, valid, n) is Some,
        min_valid(values, valid, n) matches Some(m) ==> (forall|i: int| 0 <= i < n && valid[i] ==> m <= values[i])
            && (exists|i: int| 0 <= i < n && valid[i] && values[i] == m),
        max_valid(values, valid, n) matches Some(m) ==> (forall|i: int| 0 <= i < n && valid[i] ==> m >= values[i])
            && (exists|i: int| 0 <= i < n && valid[i] && values[i] == m),
    decreases n,
{
    if n > 0 {
        lemma_column_extremes(values, valid, n - 1);
        if exists|i: int| 0 <= i < n && valid[i] {
            if !valid[n - 1] {
                let w = choose|i: int| 0 <= i < n && valid[i];
                assert(w < n - 1);
            }
        }
    }
}

/// Exact sum of the valid values among the first `n` rows.
pub open spec fn valid_exact_sum(values: Seq<i64>, valid: Seq<bool>, n: int) -> int
    decreases n,
{
    if n <= 0 {
        0
    } else {
        valid_exact_sum(values, valid, n - 1) + if valid[n - 1] {
            values[n - 1] as int
        } else {
            0
        }
    }
}

/// Exact sum of the valid values of the first `n` columns.
pub open spec fn columns_exact_sum(as_: Seq<I64Column>, n: int) -> int
    decreases n,
{
    if n <= 0 {
        0
    } else {
        columns_exact_sum(as_, n - 1) + valid_exact_sum(as_[n - 1].values@, as_[n - 1].valid@, as_[n - 1].values@.len() as int)
    }
}

/// Two operator texts that name opposite comparisons.
pub open spec fn opposite_ops(op1: Seq<char>, op2: Seq<char>) -> bool {
    ||| op1 == "<"@ && op2 == ">="@
    ||| op1 == ">="@ && op2 == "<"@
    ||| op1 == "<="@ && op2 == ">"@
    ||| op1 == ">"@ && op2 == "<="@
    ||| op1 == "=="@ && op2 == "!="@
    ||| op1 == "!="@ && op2 == "=="@
}

proof fn lemma_opposite_compares(op1: Seq<char>, op2: Seq<char>, v: i64, t: i64)
    requires
        opposite_ops(op1, op2),
    ensures
        compare_op_of(op1) is Some,
        compare_op_of(op2) is Some,
        compares(v, compare_op_of(op1)->Some_0, t) == !compares(v, compare_op_of(op2)->Some_0, t),
{
    lemma_op_texts_distinct();
    lemma_threshold_compare_meaning(op1, v, t);
    lemma_threshold_compare_meaning(op2, v, t);
}

proof fn lemma_op_texts_distinct()
    ensures
        "<"@ != ">="@ && "<"@ != "<="@ && "<"@ != ">"@ && "<"@ != "=="@ && "<"@ != "!="@,
        "<="@ != ">="@ && "<="@ != ">"@ && "<="@ != "=="@ && "<="@ != "!="@,
        ">"@ != ">="@ && ">"@ != "=="@ && ">"@ != "!="@,
        ">="@ != "=="@ && ">="@ != "!="@ && "=="@ != "!="@,
        compare_op_of("<"@) == Some(CompareOp::Lt),
        compare_op_of("<="@) == Some(CompareOp::Le),
        compare_op_of(">"@) == Some(CompareOp::Gt),
        compare_op_of(">="@) == Some(CompareOp::Ge),
        compare_op_of("=="@) == Some(CompareOp::Eq),
        compare_op_of("!="@) == Some(CompareOp::Ne),
{
    reveal_strlit("<");
    reveal_strlit("<=");
    reveal_strlit(">");
    reveal_strlit(">=");
    reveal_strlit("==");
    reveal_strlit("!=");
    let lt = "<"@;
    let le = "<="@;
    let gt = ">"@;
    let ge = ">="@;
    let eq = "=="@;
    let ne = "!="@;
    assert(lt.len() == 1 && gt.len() == 1 && le.len() == 2 && ge.len() == 2 && eq.len() == 2 && ne.len() == 2);
    assert(lt[0] == '<' && gt[0] == '>' && le[0] == '<' && ge[0] == '>' && eq[0] == '=' && ne[0] == '!');
    assert(lt != gt && le != ge && le != eq && le != ne && ge != eq && ge != ne && eq != ne);
    assert(lt != le && lt != ge && lt != eq && lt != ne && gt != le && gt != ge && gt != eq && gt != ne);
}

/// Two comparisons are opposite at threshold `t`: each holds exactly where
/// the other does not.
pub open spec fn opposite_at(c1: CompareOp, c2: CompareOp, t: i64) -> bool {
    forall|v: i64| #[trigger] compares(v, c1, t) == !compares(v, c2, t)
}

proof fn lemma_masked_split(f: I64Column, a: I64Column, c1: CompareOp, c2: CompareOp, t: i64, n: int)
    requires
        0 <= n <= a.values@.len(),
        a.values@.len() == f.values@.len(),
        a.valid@.len() == a.values@.len(),
        opposite_at(c1, c2, t),
    ensures
        masked_count(f, a, c1, t, n) + masked_count(f, a, c2, t, n) == valid_count(a.valid@, n),
        masked_sum(f, a, c1, t, n) + masked_sum(f, a, c2, t, n) == valid_exact_sum(a.values@, a.valid@, n),
    decreases n,
{
    if n > 0 {
        lemma_masked_split(f, a, c1, c2, t, n - 1);
        let v = f.values@[n - 1];
        assert(compares(v, c1, t) == !compares(v, c2, t));
    }
}

proof fn lemma_fused_split(fs: Seq<I64Column>, as_: Seq<I64Column>, c1: CompareOp, c2: CompareOp, t: i64, n: int)
    requires
        0 <= n <= fs.len(),
        fs.len() == as_.len(),
        forall|k: int| 0 <= k < fs.len() ==> pair_wf(#[trigger] fs[k], as_[k]),
        opposite_at(c1, c2, t),
    ensures
        fused_total(fs, as_, Some(c1), t, AggOp::Count, n) + fused_total(fs, as_, Some(c2), t, AggOp::Count, n)
            == total_count(as_, n),
        fused_total(fs, as_, Some(c1), t, AggOp::Sum, n) + fused_total(fs, as_, Some(c2), t, AggOp::Sum, n)
            == columns_exact_sum(as_, n),
        fused_total(fs, as_, Some(c1), t, AggOp::Count, n) >= 0,
        fused_total(fs, as_, Some(c2), t, AggOp::Count, n) >= 0,
    decreases n,
{
    if n > 0 {
        lemma_fused_split(fs, as_, c1, c2, t, n - 1);
        let f = fs[n - 1];
        let a = as_[n - 1];
        assert(pair_wf(f, a));
        lemma_masked_split(f, a, c1, c2, t, a.values@.len() as int);
        lemma_masked_count_bound(f, a, c1, t, a.values@.len() as int);
        lemma_masked_count_bound(f, a, c2, t, a.values@.len() as int);
    }
}

/// Filtering with two opposite comparisons splits the rows: the two fused
/// counts add up to the number of valid aggregated values, and (where the
/// sums fit) the two fused sums add up to the sum of all valid aggregated
/// values.
pub proof fn lemma_fused_opposite_filters_split(fs: Seq<I64Column>, as_: Seq<I64Column>, op1: Seq<char>, op2: Seq<char>, t: i64)
    requires
        fs.len() >= 1,
        fs.len() == as_.len(),
        forall|k: int| 0 <= k < fs.len() ==> pair_wf(#[trigger] fs[k], as_[k]),
        opposite_ops(op1, op2),
        total_count(as_, as_.len() as int) <= i64::MAX,
    ensures
        ({
            let count1 = fused_aggregate(fs, as_, op1, t, AggOp::Count);
            let count2 = fused_aggregate(fs, as_, op2, t, AggOp::Count);
            count1 matches AggOutcome::Int64(x) && count2 matches AggOutcome::Int64(y) && x + y == total_count(
                as_,
                as_.len() as int,
            )
        }),
        fused_fits(fs, as_, op1, t, AggOp::Sum) && fused_fits(fs, as_, op2, t, AggOp::Sum) ==> ({
            let sum1 = fused_aggregate(fs, as_, op1, t, AggOp::Sum);
            let sum2 = fused_aggregate(fs, as_, op2, t, AggOp::Sum);
            sum1 matches AggOutcome::Int64(x) && sum2 matches AggOutcome::Int64(y) && x + y == columns_exact_sum(
                as_,
                as_.len() as int,
            )
        }),
{
    let n = fs.len() as int;
    lemma_opposite_compares(op1, op2, 0, t);
    let c1 = compare_op_of(op1)->Some_0;
    let c2 = compare_op_of(op2)->Some_0;
    assert forall|v: i64| #[trigger] compares(v, c1, t) == !compares(v, c2, t) by {
        lemma_opposite_compares(op1, op2, v, t);
    }
    lemma_fused_split(fs, as_, c1, c2, t, n);
    if fused_fits(fs, as_, op1, t, AggOp::Sum) && fused_fits(fs, as_, op2, t, AggOp::Sum) {
        assert(i64::MIN <= fused_total(fs, as_, Some(c1), t, AggOp::Sum, n) <= i64::MAX);
        assert(i64::MIN <= fused_total(fs, as_, Some(c2), t, AggOp::Sum, n) <= i64::MAX);
    }
}

/// Where every running sum of the valid values fits in 64 bits, the
/// wrapping sum of a column is the exact sum of its valid values.
pub proof fn lemma_wrapped_sum_exact(values: Seq<i64>, valid: Seq<bool>, n: int)
    requires
        0 <= n <= values.len(),
        values.len() == valid.len(),
        forall|m: int| 0 <= m <= n ==> i64::MIN <= #[trigger] valid_exact_sum(values, valid, m) <= i64::MAX,
    ensures
        wrapped_sum(values, valid, n) as int == valid_exact_sum(values, valid, n),
    decreases n,
{
    if n > 0 {
        lemma_wrapped_sum_exact(values, valid, n - 1);
        assert(i64::MIN <= valid_exact_sum(values, valid, n) <= i64::MAX);
    }
}

proof fn lemma_group_count_split(fs: Seq<I64Column>, as_: Seq<I64Column>, c1: CompareOp, c2: CompareOp, t: i64, n: int)
    requires
        0 <= n <= fs.len(),
        fs.len() == as_.len(),
        forall|k: int| 0 <= k < fs.len() ==> pair_wf(#[trigger] fs[k], as_[k]),
        opposite_at(c1, c2, t),
    ensures
        group_count_total(fs, as_, c1, t, n) + group_count_total(fs, as_, c2, t, n) == total_count(as_, n),
        group_total(fs, as_, c1, t, AggOp::Count, n) == group_count_total(fs, as_, c1, t, n),
        group_total(fs, as_, c2, t, AggOp::Count, n) == group_count_total(fs, as_, c2, t, n),
        group_count_total(fs, as_, c1, t, n) >= 0,
        group_count_total(fs, as_, c2, t, n) >= 0,
    decreases n,
{
    if n > 0 {
        lemma_group_count_split(fs, as_, c1, c2, t, n - 1);
        let f = fs[n - 1];
        let a = as_[n - 1];
        assert(pair_wf(f, a));
        lemma_masked_split(f, a, c1, c2, t, a.values@.len() as int);
        lemma_masked_count_bound(f, a, c1, t, a.values@.len() as int);
        lemma_masked_count_bound(f, a, c2, t, a.values@.len() as int);
    }
}

/// Over the row groups kept by pruning, counting with two opposite
/// comparisons splits the valid aggregated values: the two counts add up
/// to their number.
pub proof fn lemma_pruned_opposite_counts_split(fs: Seq<I64Column>, as_: Seq<I64Column>, op1: Seq<char>, op2: Seq<char>, t: i64)
    requires
        fs.len() >= 1,
        fs.len() == as_.len(),
        forall|k: int| 0 <= k < fs.len() ==> pair_wf(#[trigger] fs[k], as_[k]),
        opposite_ops(op1, op2),
        total_count(as_, as_.len() as int) <= i64::MAX,
    ensures
        pruned_aggregate(fs, as_, op1, t, AggOp::Count) matches AggOutcome::Int64(x) && pruned_aggregate(
            fs,
            as_,
            op2,
            t,
            AggOp::Count,
        ) matches AggOutcome::Int64(y) && x + y == total_count(as_, as_.len() as int),
{
    let n = fs.len() as int;
    lemma_opposite_compares(op1, op2, 0, t);
    let c1 = compare_op_of(op1)->Some_0;
    let c2 = compare_op_of(op2)->Some_0;
    assert forall|v: i64| #[trigger] compares(v, c1, t) == !compares(v, c2, t) by {
        lemma_opposite_compares(op1, op2, v, t);
    }
    lemma_group_count_split(fs, as_, c1, c2, t, n);
}

/// Number of valid rows among the first `n`, counted one by one.
proof fn lemma_valid_count_le(valid: Seq<bool>, n: int)
    requires
        0 <= n <= valid.len(),
    ensures
        valid_count(valid, n) <= n,
        (forall|i: int| 0 <= i < n ==> !valid[i]) <==> valid_count(valid, n) == 0,
    decreases n,
{
    if n > 0 {
        lemma_valid_count_le(valid, n - 1);
    }
}

/// What aggregating one column gives: the count of valid rows; where its
/// running sums fit, the exact sum of the valid values, and for a mean that
/// sum with the count; the least and greatest valid values; null for a
/// sum, mean or extreme of a column without valid rows.
pub proof fn lemma_column_aggregate_meaning(values: Seq<i64>, valid: Seq<bool>)
    requires
        values.len() == valid.len(),
        values.len() <= i64::MAX,
    ensures
        ({
            let n = values.len() as int;
            let none_valid = forall|i: int| 0 <= i < n ==> !valid[i];
            &&& column_aggregate(values, valid, AggOp::Count) matches AggOutcome::Int64(c) && 0 <= c <= n && (c == 0
                <==> none_valid)
            &&& none_valid ==> column_aggregate(values, valid, AggOp::Sum) == AggOutcome::Null
                && column_aggregate(values, valid, AggOp::Mean) == AggOutcome::Null
                && column_aggregate(values, valid, AggOp::Min) == AggOutcome::Null
                && column_aggregate(values, valid, AggOp::Max) == AggOutcome::Null
            &&& !none_valid && (forall|m: int| 0 <= m <= n ==> i64::MIN <= #[trigger] valid_exact_sum(values, valid, m)
                <= i64::MAX) ==> (column_aggregate(values, valid, AggOp::Sum) matches AggOutcome::Int64(x) && x
                == valid_exact_sum(values, valid, n)) && (column_aggregate(values, valid, AggOp::Mean) matches AggOutcome::Mean {
                sum,
                count,
            } && sum == valid_exact_sum(values, valid, n) && column_aggregate(values, valid, AggOp::Count)
                == AggOutcome::Int64(count))
            &&& !none_valid ==> (column_aggregate(values, valid, AggOp::Min) matches AggOutcome::Int64(m) && (forall|i: int|
                0 <= i < n && valid[i] ==> m <= values[i]) && (exists|i: int| 0 <= i < n && valid[i] && values[i] == m))
            &&& !none_valid ==> (column_aggregate(values, valid, AggOp::Max) matches AggOutcome::Int64(m) && (forall|i: int|
                0 <= i < n && valid[i] ==> m >= values[i]) && (exists|i: int| 0 <= i < n && valid[i] && values[i] == m))
        }),
{
    let n = values.len() as int;
    lemma_valid_count_le(valid, n);
    lemma_column_extremes(values, valid, n);
    if !(forall|i: int| 0 <= i < n ==> !valid[i]) && (forall|m: int| 0 <= m <= n ==> i64::MIN
        <= #[trigger] valid_exact_sum(values, valid, m) <= i64::MAX) {
        lemma_wrapped_sum_exact(values, valid, n);
    }
}
} // verus!
