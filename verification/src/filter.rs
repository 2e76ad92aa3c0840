//! Filter predicates evaluated over columns: one mask entry per row, true or
//! false where the compared values are present and null where one is missing.
use vstd::prelude::*;
use crate::error::RelayError;
use crate::expr::{expr_text, op_text, Expr, Literal, Operator};
use crate::optimizer::{flipped, strs};
use crate::scan_agg::{find_first, first_index, lemma_first_index_found};
use crate::text::{int_text, nat_text, push_i64, push_u64, str_eq, str_less, text_less};
use crate::types::{str_debug, str_debug_text};

verus! {

// ─── Columns ──────────────────────────────────────────────────────

/// The values of one column by type; floats are held as IEEE 754 bit patterns.
#[derive(Debug)]
pub enum ColumnValues {
    Int64(Vec<i64>),
    Int32(Vec<i32>),
    Float64(Vec<u64>),
    Boolean(Vec<bool>),
    Utf8(Vec<String>),
    /// Another integer-valued type (narrower integers, dates, times,
    /// timestamps, durations), by the debug name of its type, with its values
    /// as 64-bit integers.
    IntLike(String, Vec<i64>),
    /// Another text type, by the debug name of its type.
    TextLike(String, Vec<String>),
    /// A column of another type, known by the debug name of its type and its
    /// length.
    Other(String, usize),
}

/// A column: its values and, per row, whether the value is present.
#[derive(Debug)]
pub struct Column {
    pub values: ColumnValues,
    pub valid: Vec<bool>,
}

/// Named columns of one length.
#[derive(Debug)]
pub struct ColumnBatch {
    pub names: Vec<String>,
    pub columns: Vec<Column>,
    pub num_rows: usize,
}

/// Number of values a column holds.
pub open spec fn values_len(v: ColumnValues) -> int {
    match v {
        ColumnValues::Int64(x) => x@.len() as int,
        ColumnValues::Int32(x) => x@.len() as int,
        ColumnValues::Float64(x) => x@.len() as int,
        ColumnValues::Boolean(x) => x@.len() as int,
        ColumnValues::Utf8(x) => x@.len() as int,
        ColumnValues::IntLike(_, x) => x@.len() as int,
        ColumnValues::TextLike(_, x) => x@.len() as int,
        ColumnValues::Other(_, n) => n as int,
    }
}

/// Debug name of a column's type.
pub open spec fn kind_name(v: ColumnValues) -> Seq<char> {
    match v {
        ColumnValues::Int64(_) => "Int64"@,
        ColumnValues::Int32(_) => "Int32"@,
        ColumnValues::Float64(_) => "Float64"@,
        ColumnValues::Boolean(_) => "Boolean"@,
        ColumnValues::Utf8(_) => "Utf8"@,
        ColumnValues::IntLike(n, _) => n@,
        ColumnValues::TextLike(n, _) => n@,
        ColumnValues::Other(n, _) => n@,
    }
}

impl Column {
    /// As many presence flags as values.
    pub open spec fn wf(&self) -> bool {
        values_len(self.values) == self.valid@.len()
    }
}

impl ColumnBatch {
    /// One name per column, and every column `num_rows` long.
    pub open spec fn wf(&self) -> bool {
        &&& self.names@.len() == self.columns@.len()
        &&& forall|k: int|
            0 <= k < self.columns@.len() ==> (#[trigger] self.columns@[k]).wf()
                && self.columns@[k].valid@.len() == self.num_rows
    }
}

/// Position of the first column called `name`.
pub open spec fn column_named(b: ColumnBatch, name: Seq<char>) -> Option<int> {
    first_index(strs(b.names@), name, 0)
}

// ─── Failures ─────────────────────────────────────────────────────

/// How an evaluation fails: an expression error or an error of the columnar
/// kernels, with its message.
pub enum Failure {
    Expr(Seq<char>),
    Arrow(Seq<char>),
}

/// The error `e` is the failure `f`.
pub open spec fn fails_as(e: RelayError, f: Failure) -> bool {
    match f {
        Failure::Expr(m) => e matches RelayError::Expr(x) && x@ == m,
        Failure::Arrow(m) => e matches RelayError::Arrow(x) && x@ == m,
    }
}

/// The computed mask or error is the specified outcome.
pub open spec fn outcome_is(r: Result<Vec<Option<bool>>, RelayError>, s: Result<Seq<Option<bool>>, Failure>) -> bool {
    match s {
        Ok(m) => r matches Ok(v) && v@ == m,
        Err(f) => r matches Err(e) && fails_as(e, f),
    }
}

pub open spec fn not_found(name: Seq<char>) -> Failure {
    Failure::Expr("Column '"@ + name + "' not found"@)
}

// ─── Orders ───────────────────────────────────────────────────────

/// The six comparisons.
pub open spec fn is_comparison(op: Operator) -> bool {
    !(op is And) && !(op is Or)
}

/// `a op b` on integers.
pub open spec fn int_holds(op: Operator, a: int, b: int) -> bool {
    match op {
        Operator::Lt => a < b,
        Operator::Le => a <= b,
        Operator::Gt => a > b,
        Operator::Ge => a >= b,
        Operator::Eq => a == b,
        Operator::Ne => a != b,
        _ => false,
    }
}

/// `a op b` on strings in byte order.
pub open spec fn text_holds(op: Operator, a: Seq<char>, b: Seq<char>) -> bool {
    match op {
        Operator::Lt => text_less(a, b),
        Operator::Le => !text_less(b, a),
        Operator::Gt => text_less(b, a),
        Operator::Ge => !text_less(a, b),
        Operator::Eq => a == b,
        Operator::Ne => a != b,
        _ => false,
    }
}

/// The position of a float in IEEE 754 total order (`f64::total_cmp`): the
/// bit pattern for non-negative sign, the magnitude mirrored below zero for
/// negative sign. Two floats are equal in this order exactly when their bits
/// are.
pub open spec fn float_key(bits: u64) -> int {
    if bits < 0x8000_0000_0000_0000u64 {
        bits as int
    } else {
        0x7fff_ffff_ffff_ffff - bits
    }
}

/// `false` before `true`.
pub open spec fn bool_key(b: bool) -> int {
    if b {
        1
    } else {
        0
    }
}

fn holds_int(op: Operator, a: i64, b: i64) -> (r: bool)
    ensures
        r == int_holds(op, a as int, b as int),
{
    match op {
        Operator::Lt => a < b,
        Operator::Le => a <= b,
        Operator::Gt => a > b,
        Operator::Ge => a >= b,
        Operator::Eq => a == b,
        Operator::Ne => a != b,
        _ => false,
    }
}

fn holds_text(op: Operator, a: &str, b: &str) -> (r: bool)
    ensures
        r == text_holds(op, a@, b@),
{
    match op {
        Operator::Lt => str_less(a, b),
        Operator::Le => !str_less(b, a),
        Operator::Gt => str_less(b, a),
        Operator::Ge => !str_less(a, b),
        Operator::Eq => str_eq(a, b),
        Operator::Ne => !str_eq(a, b),
        _ => false,
    }
}

/// Position of a float's bit pattern in total order.
pub fn float_order_key(bits: u64) -> (k: i64)
    ensures
        k == float_key(bits),
{
    if bits < 0x8000_0000_0000_0000u64 {
        bits as i64
    } else {
        let m: u64 = bits - 0x8000_0000_0000_0000u64;
        -(m as i64) - 1
    }
}

fn bool_order_key(b: bool) -> (k: i64)
    ensures
        k == bool_key(b),
{
    if b {
        1
    } else {
        0
    }
}

/// The mirrored comparison, so that `a op b` is `b flip_op(op) a`.
pub fn flip_op(op: Operator) -> (r: Operator)
    ensures
        r == flipped(op),
{
    match op {
        Operator::Lt => Operator::Gt,
        Operator::Le => Operator::Ge,
        Operator::Gt => Operator::Lt,
        Operator::Ge => Operator::Le,
        _ => op,
    }
}

// ─── Column against literal ───────────────────────────────────────

/// Debug rendering of a literal, as in `Int64(5)` or `Str("a")`.
pub open spec fn literal_debug(l: Literal) -> Seq<char> {
    match l {
        Literal::Int32(v) => "Int32("@ + int_text(v as int) + ")"@,
        Literal::Int64(v) => "Int64("@ + int_text(v as int) + ")"@,
        Literal::Float64(f) => "Float64("@ + f.debug@ + ")"@,
        Literal::Bool(b) => if b {
            "Bool(true)"@
        } else {
            "Bool(false)"@
        },
        Literal::Str(s) => "Str("@ + str_debug_text(s@) + ")"@,
        Literal::Null => "Null"@,
    }
}

/// The column types a literal is compared with directly: 64-bit integers
/// with either integer literal, 32-bit integers, floats and strings with
/// their own kind.
pub open spec fn lit_supported(v: ColumnValues, l: Literal) -> bool {
    match v {
        ColumnValues::Int64(_) => l is Int64 || l is Int32,
        ColumnValues::Int32(_) => l is Int32,
        ColumnValues::Float64(_) => l is Float64,
        ColumnValues::Utf8(_) => l is Str,
        _ => false,
    }
}

/// Row `i` of the column compared with the literal.
pub open spec fn lit_cell(v: ColumnValues, i: int, l: Literal, op: Operator) -> bool {
    match v {
        ColumnValues::Int64(x) => match l {
            Literal::Int64(c) => int_holds(op, x@[i] as int, c as int),
            Literal::Int32(c) => int_holds(op, x@[i] as int, c as int),
            _ => false,
        },
        ColumnValues::Int32(x) => match l {
            Literal::Int32(c) => int_holds(op, x@[i] as int, c as int),
            _ => false,
        },
        ColumnValues::Float64(x) => match l {
            Literal::Float64(f) => int_holds(op, float_key(x@[i]), float_key(f.bits)),
            _ => false,
        },
        ColumnValues::Utf8(x) => match l {
            Literal::Str(s) => text_holds(op, x@[i]@, s@),
            _ => false,
        },
        _ => false,
    }
}

/// Per row: null where the value is missing, else the comparison.
pub open spec fn lit_mask(c: Column, l: Literal, op: Operator) -> Seq<Option<bool>> {
    Seq::new(
        c.valid@.len(),
        |i: int|
            if c.valid@[i] {
                Some(lit_cell(c.values, i, l, op))
            } else {
                None
            },
    )
}

/// A named column compared with a literal: the column must exist and have a
/// type the literal is compared with.
pub open spec fn col_lit_outcome(b: ColumnBatch, name: Seq<char>, l: Literal, op: Operator) -> Result<Seq<Option<bool>>, Failure> {
    match column_named(b, name) {
        None => Err(not_found(name)),
        Some(k) => if lit_supported(b.columns@[k].values, l) {
            Ok(lit_mask(b.columns@[k], l, op))
        } else {
            Err(
                Failure::Expr(
                    "Unsupported type combination: "@ + kind_name(b.columns@[k].values) + " vs "@
                        + literal_debug(l),
                ),
            )
        },
    }
}

fn push_kind_name(v: &ColumnValues, out: &mut String)
    ensures
        final(out)@ == old(out)@ + kind_name(*v),
{
    match v {
        ColumnValues::Int64(_) => out.append("Int64"),
        ColumnValues::Int32(_) => out.append("Int32"),
        ColumnValues::Float64(_) => out.append("Float64"),
        ColumnValues::Boolean(_) => out.append("Boolean"),
        ColumnValues::Utf8(_) => out.append("Utf8"),
        ColumnValues::IntLike(n, _) => out.append(n.as_str()),
        ColumnValues::TextLike(n, _) => out.append(n.as_str()),
        ColumnValues::Other(n, _) => out.append(n.as_str()),
    }
}

fn push_literal_debug(l: &Literal, out: &mut String)
    ensures
        final(out)@ == old(out)@ + literal_debug(*l),
{
    match l {
        Literal::Int32(v) => {
            out.append("Int32(");
            push_i64(out, *v as i64);
            out.append(")");
        },
        Literal::Int64(v) => {
            out.append("Int64(");
            push_i64(out, *v);
            out.append(")");
        },
        Literal::Float64(f) => {
            out.append("Float64(");
            out.append(f.debug.as_str());
            out.append(")");
        },
        Literal::Bool(b) => {
            if *b {
                out.append("Bool(true)");
            } else {
                out.append("Bool(false)");
            }
        },
        Literal::Str(s) => {
            out.append("Str(");
            let d = str_debug(s.as_str());
            out.append(d.as_str());
            out.append(")");
        },
        Literal::Null => out.append("Null"),
    }
}

fn lit_cell_value(v: &ColumnValues, i: usize, l: &Literal, op: Operator) -> (r: bool)
    requires
        i < values_len(*v),
    ensures
        r == lit_cell(*v, i as int, *l, op),
{
    match v {
        ColumnValues::Int64(x) => match l {
            Literal::Int64(c) => holds_int(op, x[i], *c),
            Literal::Int32(c) => holds_int(op, x[i], *c as i64),
            _ => false,
        },
        ColumnValues::Int32(x) => match l {
            Literal::Int32(c) => holds_int(op, x[i] as i64, *c as i64),
            _ => false,
        },
        ColumnValues::Float64(x) => match l {
            Literal::Float64(f) => holds_int(op, float_order_key(x[i]), float_order_key(f.bits)),
            _ => false,
        },
        ColumnValues::Utf8(x) => match l {
            Literal::Str(s) => holds_text(op, x[i].as_str(), s.as_str()),
            _ => false,
        },
        _ => false,
    }
}

fn lit_mask_of(c: &Column, l: &Literal, op: Operator) -> (r: Vec<Option<bool>>)
    requires
        c.wf(),
    ensures
        r@ == lit_mask(*c, *l, op),
{
    let mut out: Vec<Option<bool>> = Vec::new();
    let mut i: usize = 0;
    while i < c.valid.len()
        invariant
            c.wf(),
            i <= c.valid@.len(),
            out@.len() == i,
            forall|j: int| 0 <= j < i ==> out@[j] == lit_mask(*c, *l, op)[j],
        decreases c.valid@.len() - i,
    {
        let cell = if c.valid[i] {
            Some(lit_cell_value(&c.values, i, l, op))
        } else {
            None
        };
        out.push(cell);
        i += 1;
    }
    assert(out@ =~= lit_mask(*c, *l, op));
    out
}

fn column_not_found(name: &str) -> (e: RelayError)
    ensures
        fails_as(e, not_found(name@)),
{
    let mut m = String::from_str("Column '");
    m.append(name);
    m.append("' not found");
    RelayError::Expr(m)
}

/// Compares a named column with a literal, row by row.
fn compare_col_lit(b: &ColumnBatch, name: &str, l: &Literal, op: Operator) -> (r: Result<Vec<Option<bool>>, RelayError>)
    requires
        b.wf(),
    ensures
        outcome_is(r, col_lit_outcome(*b, name@, *l, op)),
{
    let k = match find_first(&b.names, name) {
        Some(k) => k,
        None => {
            return Err(column_not_found(name));
        },
    };
    proof {
        lemma_first_index_found(strs(b.names@), name@, 0);
    }
    let c = &b.columns[k];
    let supported = match &c.values {
        ColumnValues::Int64(_) => matches!(l, Literal::Int64(_)) || matches!(l, Literal::Int32(_)),
        ColumnValues::Int32(_) => matches!(l, Literal::Int32(_)),
        ColumnValues::Float64(_) => matches!(l, Literal::Float64(_)),
        ColumnValues::Utf8(_) => matches!(l, Literal::Str(_)),
        _ => false,
    };
    if !supported {
        let mut m = String::from_str("Unsupported type combination: ");
        push_kind_name(&c.values, &mut m);
        m.append(" vs ");
        push_literal_debug(l, &mut m);
        return Err(RelayError::Expr(m));
    }
    Ok(lit_mask_of(c, l, op))
}

// ─── Column against column, literal against literal ──────────────

/// Both columns hold values of one of the directly compared types.
pub open spec fn same_kind(l: ColumnValues, r: ColumnValues) -> bool {
    match l {
        ColumnValues::Int64(_) => r is Int64,
        ColumnValues::Int32(_) => r is Int32,
        ColumnValues::Float64(_) => r is Float64,
        ColumnValues::Boolean(_) => r is Boolean,
        ColumnValues::Utf8(_) => r is Utf8,
        ColumnValues::IntLike(n, _) => r matches ColumnValues::IntLike(m, _) && m@ == n@,
        ColumnValues::TextLike(n, _) => r matches ColumnValues::TextLike(m, _) && m@ == n@,
        ColumnValues::Other(_, _) => false,
    }
}

/// Row `i` of one column compared with row `i` of the other.
pub open spec fn pair_cell(l: ColumnValues, r: ColumnValues, i: int, op: Operator) -> bool {
    match l {
        ColumnValues::Int64(a) => match r {
            ColumnValues::Int64(b) => int_holds(op, a@[i] as int, b@[i] as int),
            _ => false,
        },
        ColumnValues::Int32(a) => match r {
            ColumnValues::Int32(b) => int_holds(op, a@[i] as int, b@[i] as int),
            _ => false,
        },
        ColumnValues::Float64(a) => match r {
            ColumnValues::Float64(b) => int_holds(op, float_key(a@[i]), float_key(b@[i])),
            _ => false,
        },
        ColumnValues::Boolean(a) => match r {
            ColumnValues::Boolean(b) => int_holds(op, bool_key(a@[i]), bool_key(b@[i])),
            _ => false,
        },
        ColumnValues::Utf8(a) => match r {
            ColumnValues::Utf8(b) => text_holds(op, a@[i]@, b@[i]@),
            _ => false,
        },
        ColumnValues::IntLike(_, a) => match r {
            ColumnValues::IntLike(_, b) => int_holds(op, a@[i] as int, b@[i] as int),
            _ => false,
        },
        ColumnValues::TextLike(_, a) => match r {
            ColumnValues::TextLike(_, b) => text_holds(op, a@[i]@, b@[i]@),
            _ => false,
        },
        ColumnValues::Other(_, _) => false,
    }
}

/// Per row: null where either value is missing, else the comparison.
pub open spec fn pair_mask(l: Column, r: Column, op: Operator) -> Seq<Option<bool>> {
    Seq::new(
        l.valid@.len(),
        |i: int|
            if l.valid@[i] && r.valid@[i] {
                Some(pair_cell(l.values, r.values, i, op))
            } else {
                None
            },
    )
}

/// The kernels' refusal to compare values of two different types.
pub open spec fn mismatch(op: Operator, lt: Seq<char>, rt: Seq<char>) -> Failure {
    Failure::Arrow(
        op_text(op) + ": Invalid argument error: Invalid comparison operation: "@ + lt + " "@ + op_text(op)
            + " "@ + rt,
    )
}

/// Two named columns compared row by row. Columns of a type outside the
/// directly compared ones are not compared.
pub open spec fn col_col_outcome(b: ColumnBatch, ln: Seq<char>, rn: Seq<char>, op: Operator) -> Result<Seq<Option<bool>>, Failure> {
    match column_named(b, ln) {
        None => Err(not_found(ln)),
        Some(i) => match column_named(b, rn) {
            None => Err(not_found(rn)),
            Some(j) => {
                let l = b.columns@[i];
                let r = b.columns@[j];
                if same_kind(l.values, r.values) {
                    Ok(pair_mask(l, r, op))
                } else if l.values is Other || r.values is Other {
                    Err(
                        Failure::Expr(
                            "Unsupported type combination: "@ + kind_name(l.values) + " vs "@ + kind_name(
                                r.values,
                            ),
                        ),
                    )
                } else {
                    Err(mismatch(op, kind_name(l.values), kind_name(r.values)))
                }
            },
        },
    }
}

/// Name of the type a literal is held as.
pub open spec fn literal_kind(l: Literal) -> Seq<char> {
    match l {
        Literal::Int32(_) => "Int32"@,
        Literal::Int64(_) => "Int64"@,
        Literal::Float64(_) => "Float64"@,
        Literal::Bool(_) => "Boolean"@,
        Literal::Str(_) => "Utf8"@,
        Literal::Null => "Null"@,
    }
}

/// Two literals compared: a single entry, null when both are null; literals
/// of different types are not compared.
pub open spec fn lit_lit_outcome(a: Literal, c: Literal, op: Operator) -> Result<Seq<Option<bool>>, Failure> {
    match a {
        Literal::Int64(x) => match c {
            Literal::Int64(y) => Ok(seq![Some(int_holds(op, x as int, y as int))]),
            _ => Err(mismatch(op, literal_kind(a), literal_kind(c))),
        },
        Literal::Int32(x) => match c {
            Literal::Int32(y) => Ok(seq![Some(int_holds(op, x as int, y as int))]),
            _ => Err(mismatch(op, literal_kind(a), literal_kind(c))),
        },
        Literal::Float64(x) => match c {
            Literal::Float64(y) => Ok(seq![Some(int_holds(op, float_key(x.bits), float_key(y.bits)))]),
            _ => Err(mismatch(op, literal_kind(a), literal_kind(c))),
        },
        Literal::Bool(x) => match c {
            Literal::Bool(y) => Ok(seq![Some(int_holds(op, bool_key(x), bool_key(y)))]),
            _ => Err(mismatch(op, literal_kind(a), literal_kind(c))),
        },
        Literal::Str(x) => match c {
            Literal::Str(y) => Ok(seq![Some(text_holds(op, x@, y@))]),
            _ => Err(mismatch(op, literal_kind(a), literal_kind(c))),
        },
        Literal::Null => match c {
            Literal::Null => Ok(seq![None]),
            _ => Err(mismatch(op, literal_kind(a), literal_kind(c))),
        },
    }
}

/// Why an operand cannot be read as a column or a literal, if it cannot.
pub open spec fn resolve_failure(b: ColumnBatch, e: Expr) -> Option<Failure> {
    match e {
        Expr::Column(n) => if column_named(b, n@) is Some {
            None
        } else {
            Some(not_found(n@))
        },
        Expr::Literal(_) => None,
        _ => Some(Failure::Expr("Cannot resolve: "@ + expr_text(e))),
    }
}

/// A comparison: column with literal (either side), column with column, and
/// otherwise two operands that must each be a column or a literal.
pub open spec fn compare_outcome(b: ColumnBatch, left: Expr, right: Expr, op: Operator) -> Result<Seq<Option<bool>>, Failure> {
    match left {
        Expr::Column(x) => match right {
            Expr::Literal(l) => col_lit_outcome(b, x@, l, op),
            Expr::Column(y) => col_col_outcome(b, x@, y@, op),
            _ => operands_outcome(b, left, right, op),
        },
        Expr::Literal(l) => match right {
            Expr::Column(y) => col_lit_outcome(b, y@, l, flipped(op)),
            _ => operands_outcome(b, left, right, op),
        },
        _ => operands_outcome(b, left, right, op),
    }
}

/// Operands other than a column and a literal, or two columns: each side is
/// resolved in turn; two literals are compared.
pub open spec fn operands_outcome(b: ColumnBatch, left: Expr, right: Expr, op: Operator) -> Result<Seq<Option<bool>>, Failure> {
    match resolve_failure(b, left) {
        Some(f) => Err(f),
        None => match resolve_failure(b, right) {
            Some(f) => Err(f),
            None => match left {
                Expr::Literal(a) => match right {
                    Expr::Literal(c) => lit_lit_outcome(a, c, op),
                    _ => Err(Failure::Expr(Seq::empty())),
                },
                _ => Err(Failure::Expr(Seq::empty())),
            },
        },
    }
}

// ─── Masks ────────────────────────────────────────────────────────

/// `AND`/`OR` per row; null where either side is null.
pub open spec fn combine(op: Operator, l: Seq<Option<bool>>, r: Seq<Option<bool>>) -> Seq<Option<bool>> {
    Seq::new(
        l.len(),
        |i: int|
            match l[i] {
                Some(a) => match r[i] {
                    Some(c) => Some(
                        if op is And {
                            a && c
                        } else {
                            a || c
                        },
                    ),
                    None => None,
                },
                None => None,
            },
    )
}

/// `NOT` per row; null stays null.
pub open spec fn negate(m: Seq<Option<bool>>) -> Seq<Option<bool>> {
    Seq::new(
        m.len(),
        |i: int|
            match m[i] {
                Some(a) => Some(!a),
                None => None,
            },
    )
}

/// The mask of a predicate: comparisons, `AND`/`OR` of two masks of one
/// length, `NOT`; a bare column or literal is no predicate.
pub open spec fn filter_outcome(b: ColumnBatch, e: Expr) -> Result<Seq<Option<bool>>, Failure>
    decreases e,
{
    match e {
        Expr::BinaryOp { left, op, right } => if op is And || op is Or {
            match filter_outcome(b, *left) {
                Err(f) => Err(f),
                Ok(l) => match filter_outcome(b, *right) {
                    Err(f) => Err(f),
                    Ok(r) => if l.len() == r.len() {
                        Ok(combine(op, l, r))
                    } else {
                        Err(
                            Failure::Arrow(
                                op_text(op)
                                    + ": Compute error: Cannot perform bitwise operation on arrays of different length"@,
                            ),
                        )
                    },
                },
            }
        } else {
            compare_outcome(b, *left, *right, op)
        },
        Expr::Not(inner) => match filter_outcome(b, *inner) {
            Err(f) => Err(f),
            Ok(m) => Ok(negate(m)),
        },
        _ => Err(Failure::Expr("Filter must be comparison/NOT, got: "@ + expr_text(e))),
    }
}

// ─── Evaluation ───────────────────────────────────────────────────

fn pair_cell_value(l: &ColumnValues, r: &ColumnValues, i: usize, op: Operator) -> (x: bool)
    requires
        i < values_len(*l),
        i < values_len(*r),
    ensures
        x == pair_cell(*l, *r, i as int, op),
{
    match l {
        ColumnValues::Int64(a) => match r {
            ColumnValues::Int64(b) => holds_int(op, a[i], b[i]),
            _ => false,
        },
        ColumnValues::Int32(a) => match r {
            ColumnValues::Int32(b) => holds_int(op, a[i] as i64, b[i] as i64),
            _ => false,
        },
        ColumnValues::Float64(a) => match r {
            ColumnValues::Float64(b) => holds_int(op, float_order_key(a[i]), float_order_key(b[i])),
            _ => false,
        },
        ColumnValues::Boolean(a) => match r {
            ColumnValues::Boolean(b) => holds_int(op, bool_order_key(a[i]), bool_order_key(b[i])),
            _ => false,
        },
        ColumnValues::Utf8(a) => match r {
            ColumnValues::Utf8(b) => holds_text(op, a[i].as_str(), b[i].as_str()),
            _ => false,
        },
        ColumnValues::IntLike(_, a) => match r {
            ColumnValues::IntLike(_, b) => holds_int(op, a[i], b[i]),
            _ => false,
        },
        ColumnValues::TextLike(_, a) => match r {
            ColumnValues::TextLike(_, b) => holds_text(op, a[i].as_str(), b[i].as_str()),
            _ => false,
        },
        ColumnValues::Other(_, _) => false,
    }
}

fn pair_mask_of(l: &Column, r: &Column, op: Operator) -> (m: Vec<Option<bool>>)
    requires
        l.wf(),
        r.wf(),
        l.valid@.len() == r.valid@.len(),
    ensures
        m@ == pair_mask(*l, *r, op),
{
    let mut out: Vec<Option<bool>> = Vec::new();
    let mut i: usize = 0;
    while i < l.valid.len()
        invariant
            l.wf(),
            r.wf(),
            l.valid@.len() == r.valid@.len(),
            i <= l.valid@.len(),
            out@.len() == i,
            forall|j: int| 0 <= j < i ==> out@[j] == pair_mask(*l, *r, op)[j],
        decreases l.valid@.len() - i,
    {
        let cell = if l.valid[i] && r.valid[i] {
            Some(pair_cell_value(&l.values, &r.values, i, op))
        } else {
            None
        };
        out.push(cell);
        i += 1;
    }
    assert(out@ =~= pair_mask(*l, *r, op));
    out
}

fn push_literal_kind(l: &Literal, out: &mut String)
    ensures
        final(out)@ == old(out)@ + literal_kind(*l),
{
    match l {
        Literal::Int32(_) => out.append("Int32"),
        Literal::Int64(_) => out.append("Int64"),
        Literal::Float64(_) => out.append("Float64"),
        Literal::Bool(_) => out.append("Boolean"),
        Literal::Str(_) => out.append("Utf8"),
        Literal::Null => out.append("Null"),
    }
}

fn mismatch_error(op: Operator, lt: &str, rt: &str) -> (e: RelayError)
    ensures
        fails_as(e, mismatch(op, lt@, rt@)),
{
    let sym = op.to_string();
    let mut m = sym.clone();
    m.append(": Invalid argument error: Invalid comparison operation: ");
    m.append(lt);
    m.append(" ");
    m.append(sym.as_str());
    m.append(" ");
    m.append(rt);
    RelayError::Arrow(m)
}

/// Compares two named columns row by row.
fn compare_col_col(b: &ColumnBatch, ln: &str, rn: &str, op: Operator) -> (r: Result<Vec<Option<bool>>, RelayError>)
    requires
        b.wf(),
    ensures
        outcome_is(r, col_col_outcome(*b, ln@, rn@, op)),
{
    let i = match find_first(&b.names, ln) {
        Some(i) => i,
        None => {
            return Err(column_not_found(ln));
        },
    };
    let j = match find_first(&b.names, rn) {
        Some(j) => j,
        None => {
            return Err(column_not_found(rn));
        },
    };
    proof {
        lemma_first_index_found(strs(b.names@), ln@, 0);
        lemma_first_index_found(strs(b.names@), rn@, 0);
    }
    let l = &b.columns[i];
    let r = &b.columns[j];
    let same = match &l.values {
        ColumnValues::Int64(_) => matches!(r.values, ColumnValues::Int64(_)),
        ColumnValues::Int32(_) => matches!(r.values, ColumnValues::Int32(_)),
        ColumnValues::Float64(_) => matches!(r.values, ColumnValues::Float64(_)),
        ColumnValues::Boolean(_) => matches!(r.values, ColumnValues::Boolean(_)),
        ColumnValues::Utf8(_) => matches!(r.values, ColumnValues::Utf8(_)),
        ColumnValues::IntLike(n, _) => match &r.values {
            ColumnValues::IntLike(m, _) => str_eq(n.as_str(), m.as_str()),
            _ => false,
        },
        ColumnValues::TextLike(n, _) => match &r.values {
            ColumnValues::TextLike(m, _) => str_eq(n.as_str(), m.as_str()),
            _ => false,
        },
        ColumnValues::Other(_, _) => false,
    };
    if same {
        return Ok(pair_mask_of(l, r, op));
    }
    let mut lt = String::new();
    push_kind_name(&l.values, &mut lt);
    let mut rt = String::new();
    push_kind_name(&r.values, &mut rt);
    if matches!(l.values, ColumnValues::Other(_, _)) || matches!(r.values, ColumnValues::Other(_, _)) {
        let mut m = String::from_str("Unsupported type combination: ");
        m.append(lt.as_str());
        m.append(" vs ");
        m.append(rt.as_str());
        return Err(RelayError::Expr(m));
    }
    Err(mismatch_error(op, lt.as_str(), rt.as_str()))
}

fn single(x: Option<bool>) -> (m: Vec<Option<bool>>)
    ensures
        m@ == seq![x],
{
    let mut m: Vec<Option<bool>> = Vec::new();
    m.push(x);
    m
}

/// Compares two literals.
fn compare_lit_lit(a: &Literal, c: &Literal, op: Operator) -> (r: Result<Vec<Option<bool>>, RelayError>)
    ensures
        outcome_is(r, lit_lit_outcome(*a, *c, op)),
{
    match (a, c) {
        (Literal::Int64(x), Literal::Int64(y)) => Ok(single(Some(holds_int(op, *x, *y)))),
        (Literal::Int32(x), Literal::Int32(y)) => Ok(single(Some(holds_int(op, *x as i64, *y as i64)))),
        (Literal::Float64(x), Literal::Float64(y)) => Ok(
            single(Some(holds_int(op, float_order_key(x.bits), float_order_key(y.bits)))),
        ),
        (Literal::Bool(x), Literal::Bool(y)) => Ok(
            single(Some(holds_int(op, bool_order_key(*x), bool_order_key(*y)))),
        ),
        (Literal::Str(x), Literal::Str(y)) => Ok(single(Some(holds_text(op, x.as_str(), y.as_str())))),
        (Literal::Null, Literal::Null) => Ok(single(None)),
        _ => {
            let mut lt = String::new();
            push_literal_kind(a, &mut lt);
            let mut rt = String::new();
            push_literal_kind(c, &mut rt);
            Err(mismatch_error(op, lt.as_str(), rt.as_str()))
        },
    }
}

fn resolve_check(b: &ColumnBatch, e: &Expr) -> (r: Option<RelayError>)
    ensures
        match resolve_failure(*b, *e) {
            None => r is None,
            Some(f) => r matches Some(x) && fails_as(x, f),
        },
{
    match e {
        Expr::Column(n) => match find_first(&b.names, n.as_str()) {
            Some(_) => None,
            None => Some(column_not_found(n.as_str())),
        },
        Expr::Literal(_) => None,
        _ => {
            let mut m = String::from_str("Cannot resolve: ");
            let t = e.to_string();
            m.append(t.as_str());
            Some(RelayError::Expr(m))
        },
    }
}

fn compare_operands(b: &ColumnBatch, left: &Expr, right: &Expr, op: Operator) -> (r: Result<Vec<Option<bool>>, RelayError>)
    requires
        b.wf(),
    ensures
        outcome_is(r, operands_outcome(*b, *left, *right, op)),
{
    if let Some(e) = resolve_check(b, left) {
        return Err(e);
    }
    if let Some(e) = resolve_check(b, right) {
        return Err(e);
    }
    match (left, right) {
        (Expr::Literal(a), Expr::Literal(c)) => compare_lit_lit(a, c, op),
        _ => Err(RelayError::Expr(String::new())),
    }
}

/// Dispatches a comparison by the shape of its operands.
fn eval_compare(b: &ColumnBatch, left: &Expr, right: &Expr, op: Operator) -> (r: Result<Vec<Option<bool>>, RelayError>)
    requires
        b.wf(),
    ensures
        outcome_is(r, compare_outcome(*b, *left, *right, op)),
{
    match (left, right) {
        (Expr::Column(x), Expr::Literal(l)) => compare_col_lit(b, x.as_str(), l, op),
        (Expr::Literal(l), Expr::Column(y)) => compare_col_lit(b, y.as_str(), l, flip_op(op)),
        (Expr::Column(x), Expr::Column(y)) => compare_col_col(b, x.as_str(), y.as_str(), op),
        _ => compare_operands(b, left, right, op),
    }
}

fn combine_masks(op: Operator, l: &Vec<Option<bool>>, r: &Vec<Option<bool>>) -> (m: Vec<Option<bool>>)
    requires
        l@.len() == r@.len(),
    ensures
        m@ == combine(op, l@, r@),
{
    let is_and = matches!(op, Operator::And);
    let mut out: Vec<Option<bool>> = Vec::new();
    let mut i: usize = 0;
    while i < l.len()
        invariant
            l@.len() == r@.len(),
            is_and == (op is And),
            i <= l@.len(),
            out@.len() == i,
            forall|j: int| 0 <= j < i ==> out@[j] == combine(op, l@, r@)[j],
        decreases l@.len() - i,
    {
        let cell = match (l[i], r[i]) {
            (Some(a), Some(c)) => Some(
                if is_and {
                    a && c
                } else {
                    a || c
                },
            ),
            _ => None,
        };
        out.push(cell);
        i += 1;
    }
    assert(out@ =~= combine(op, l@, r@));
    out
}

fn negate_mask(m: &Vec<Option<bool>>) -> (r: Vec<Option<bool>>)
    ensures
        r@ == negate(m@),
{
    let mut out: Vec<Option<bool>> = Vec::new();
    let mut i: usize = 0;
    while i < m.len()
        invariant
            i <= m@.len(),
            out@.len() == i,
            forall|j: int| 0 <= j < i ==> out@[j] == negate(m@)[j],
        decreases m@.len() - i,
    {
        let cell = match m[i] {
            Some(a) => Some(!a),
            None => None,
        };
        out.push(cell);
        i += 1;
    }
    assert(out@ =~= negate(m@));
    out
}

/// Evaluates a filter predicate to a mask over the batch's rows.
pub fn eval_filter(b: &ColumnBatch, e: &Expr) -> (r: Result<Vec<Option<bool>>, RelayError>)
    requires
        b.wf(),
    ensures
        outcome_is(r, filter_outcome(*b, *e)),
    decreases e,
{
    match e {
        Expr::BinaryOp { left, op, right } => {
            if matches!(op, Operator::And) || matches!(op, Operator::Or) {
                let l = match eval_filter(b, left) {
                    Ok(l) => l,
                    Err(x) => {
                        return Err(x);
                    },
                };
                let r = match eval_filter(b, right) {
                    Ok(r) => r,
                    Err(x) => {
                        return Err(x);
                    },
                };
                if l.len() != r.len() {
                    let mut m = op.to_string();
                    m.append(": Compute error: Cannot perform bitwise operation on arrays of different length");
                    return Err(RelayError::Arrow(m));
                }
                Ok(combine_masks(*op, &l, &r))
            } else {
                eval_compare(b, left, right, *op)
            }
        },
        Expr::Not(inner) => match eval_filter(b, inner) {
            Ok(m) => Ok(negate_mask(&m)),
            Err(x) => Err(x),
        },
        _ => {
            let mut m = String::from_str("Filter must be comparison/NOT, got: ");
            let t = e.to_string();
            m.append(t.as_str());
            Err(RelayError::Expr(m))
        },
    }
}

// ─── Selecting rows ───────────────────────────────────────────────

/// Rows a mask keeps: the positions whose entry is true, in order. A null
/// entry keeps nothing.
pub open spec fn kept_rows(m: Seq<Option<bool>>) -> Seq<usize>
    decreases m.len(),
{
    if m.len() == 0 {
        Seq::empty()
    } else {
        kept_rows(m.drop_last()) + if m.last() == Some(true) {
            seq![(m.len() - 1) as usize]
        } else {
            Seq::empty()
        }
    }
}

/// Every kept row holds a true entry, every true entry is kept, and the
/// kept rows ascend.
pub proof fn lemma_kept_rows(m: Seq<Option<bool>>)
    requires
        m.len() <= usize::MAX,
    ensures
        forall|j: int| 0 <= j < kept_rows(m).len() ==> (#[trigger] kept_rows(m)[j]) < m.len() && m[kept_rows(m)[j] as int] == Some(true),
        forall|i: int, j: int| 0 <= i < j < kept_rows(m).len() ==> kept_rows(m)[i] < kept_rows(m)[j],
        forall|i: int| 0 <= i < m.len() && m[i] == Some(true) ==> kept_rows(m).contains(i as usize),
    decreases m.len(),
{
    if m.len() > 0 {
        let p = m.drop_last();
        lemma_kept_rows(p);
        let k = kept_rows(m);
        let kp = kept_rows(p);
        assert forall|j: int| 0 <= j < k.len() implies (#[trigger] k[j]) < m.len() && m[k[j] as int] == Some(true) by {
            if j < kp.len() {
                assert(k[j] == kp[j]);
                assert(p[kp[j] as int] == m[kp[j] as int]);
            }
        }
        assert forall|i: int, j: int| 0 <= i < j < k.len() implies k[i] < k[j] by {
            assert(k[i] == kp[i]);
            if j < kp.len() {
                assert(k[j] == kp[j]);
            }
        }
        assert forall|i: int| 0 <= i < m.len() && m[i] == Some(true) implies k.contains(i as usize) by {
            if i < m.len() - 1 {
                assert(p[i] == m[i]);
                let q = choose|q: int| 0 <= q < kp.len() && kp[q] == i as usize;
                assert(k[q] == i as usize);
            } else {
                assert(k[k.len() - 1] == i as usize);
            }
        }
    }
}

/// Message for a mask longer than the batch it selects from.
pub open spec fn too_long_text(len: nat, rows: nat) -> Seq<char> {
    "filter: Invalid argument error: Filter predicate of length "@ + nat_text(len)
        + " is larger than target array of length "@ + nat_text(rows)
}

/// The rows a mask selects from a batch of `num_rows` rows and
/// `num_columns` columns; a mask longer than a batch with columns is
/// refused, a shorter one selects among the first rows only.
pub fn selected_rows(mask: &Vec<Option<bool>>, num_rows: usize, num_columns: usize) -> (r: Result<Vec<usize>, RelayError>)
    ensures
        mask@.len() > num_rows && num_columns > 0 ==> (r matches Err(RelayError::Arrow(m)) && m@
            == too_long_text(mask@.len(), num_rows as nat)),
        !(mask@.len() > num_rows && num_columns > 0) ==> (r matches Ok(v) && v@ == kept_rows(mask@)),
{
    if mask.len() > num_rows && num_columns > 0 {
        let mut m = String::from_str("filter: Invalid argument error: Filter predicate of length ");
        push_u64(&mut m, mask.len() as u64);
        m.append(" is larger than target array of length ");
        push_u64(&mut m, num_rows as u64);
        return Err(RelayError::Arrow(m));
    }
    let mut out: Vec<usize> = Vec::new();
    let mut i: usize = 0;
    while i < mask.len()
        invariant
            i <= mask@.len(),
            out@ == kept_rows(mask@.subrange(0, i as int)),
        decreases mask@.len() - i,
    {
        proof {
            assert(mask@.subrange(0, i + 1).drop_last() =~= mask@.subrange(0, i as int));
        }
        if mask[i] == Some(true) {
            out.push(i);
        }
        i += 1;
    }
    assert(mask@.subrange(0, mask@.len() as int) =~= mask@);
    Ok(out)
}

/// The column `n` holds the rows `rows` of column `o`, in that order.
pub open spec fn taken_column(n: Column, o: Column, rows: Seq<usize>) -> bool {
    &&& n.valid@.len() == rows.len()
    &&& forall|j: int| 0 <= j < rows.len() ==> n.valid@[j] == o.valid@[rows[j] as int]
    &&& match o.values {
        ColumnValues::Int64(x) => n.values matches ColumnValues::Int64(y) && y@.len() == rows.len()
            && forall|j: int| 0 <= j < rows.len() ==> y@[j] == x@[rows[j] as int],
        ColumnValues::Int32(x) => n.values matches ColumnValues::Int32(y) && y@.len() == rows.len()
            && forall|j: int| 0 <= j < rows.len() ==> y@[j] == x@[rows[j] as int],
        ColumnValues::Float64(x) => n.values matches ColumnValues::Float64(y) && y@.len() == rows.len()
            && forall|j: int| 0 <= j < rows.len() ==> y@[j] == x@[rows[j] as int],
        ColumnValues::Boolean(x) => n.values matches ColumnValues::Boolean(y) && y@.len() == rows.len()
            && forall|j: int| 0 <= j < rows.len() ==> y@[j] == x@[rows[j] as int],
        ColumnValues::Utf8(x) => n.values matches ColumnValues::Utf8(y) && y@.len() == rows.len()
            && forall|j: int| 0 <= j < rows.len() ==> y@[j]@ == x@[rows[j] as int]@,
        ColumnValues::IntLike(t, x) => n.values matches ColumnValues::IntLike(u, y) && u@ == t@ && y@.len()
            == rows.len() && forall|j: int| 0 <= j < rows.len() ==> y@[j] == x@[rows[j] as int],
        ColumnValues::TextLike(t, x) => n.values matches ColumnValues::TextLike(u, y) && u@ == t@ && y@.len()
            == rows.len() && forall|j: int| 0 <= j < rows.len() ==> y@[j]@ == x@[rows[j] as int]@,
        ColumnValues::Other(t, _) => n.values matches ColumnValues::Other(u, k) && u@ == t@ && k == rows.len(),
    }
}

fn take_copied<T: Copy>(x: &Vec<T>, rows: &Vec<usize>) -> (r: Vec<T>)
    requires
        forall|j: int| 0 <= j < rows@.len() ==> rows@[j] < x@.len(),
    ensures
        r@.len() == rows@.len(),
        forall|j: int| 0 <= j < rows@.len() ==> r@[j] == x@[rows@[j] as int],
{
    let mut out: Vec<T> = Vec::new();
    let mut j: usize = 0;
    while j < rows.len()
        invariant
            forall|q: int| 0 <= q < rows@.len() ==> rows@[q] < x@.len(),
            j <= rows@.len(),
            out@.len() == j,
            forall|q: int| 0 <= q < j ==> out@[q] == x@[rows@[q] as int],
        decreases rows@.len() - j,
    {
        out.push(x[rows[j]]);
        j += 1;
    }
    out
}

fn take_strings(x: &Vec<String>, rows: &Vec<usize>) -> (r: Vec<String>)
    requires
        forall|j: int| 0 <= j < rows@.len() ==> rows@[j] < x@.len(),
    ensures
        r@.len() == rows@.len(),
        forall|j: int| 0 <= j < rows@.len() ==> r@[j]@ == x@[rows@[j] as int]@,
{
    let mut out: Vec<String> = Vec::new();
    let mut j: usize = 0;
    while j < rows.len()
        invariant
            forall|q: int| 0 <= q < rows@.len() ==> rows@[q] < x@.len(),
            j <= rows@.len(),
            out@.len() == j,
            forall|q: int| 0 <= q < j ==> out@[q]@ == x@[rows@[q] as int]@,
        decreases rows@.len() - j,
    {
        let s = x[rows[j]].clone();
        out.push(s);
        j += 1;
    }
    out
}

/// The rows `rows` of a column, in that order.
pub fn take_column(c: &Column, rows: &Vec<usize>) -> (r: Column)
    requires
        c.wf(),
        forall|j: int| 0 <= j < rows@.len() ==> rows@[j] < c.valid@.len(),
    ensures
        r.wf(),
        taken_column(r, *c, rows@),
{
    let valid = take_copied(&c.valid, rows);
    let values = match &c.values {
        ColumnValues::Int64(x) => ColumnValues::Int64(take_copied(x, rows)),
        ColumnValues::Int32(x) => ColumnValues::Int32(take_copied(x, rows)),
        ColumnValues::Float64(x) => ColumnValues::Float64(take_copied(x, rows)),
        ColumnValues::Boolean(x) => ColumnValues::Boolean(take_copied(x, rows)),
        ColumnValues::Utf8(x) => ColumnValues::Utf8(take_strings(x, rows)),
        ColumnValues::IntLike(t, x) => ColumnValues::IntLike(t.clone(), take_copied(x, rows)),
        ColumnValues::TextLike(t, x) => ColumnValues::TextLike(t.clone(), take_strings(x, rows)),
        ColumnValues::Other(t, _) => ColumnValues::Other(t.clone(), rows.len()),
    };
    Column { values, valid }
}

/// The outcome of filtering a batch: the predicate's failure, the refusal
/// of a mask longer than a batch with columns, or the kept rows of every
/// column under the same names.
pub open spec fn filtered_as(r: Result<ColumnBatch, RelayError>, b: ColumnBatch, e: Expr) -> bool {
    match filter_outcome(b, e) {
        Err(f) => r matches Err(x) && fails_as(x, f),
        Ok(m) => if m.len() > b.num_rows && b.columns@.len() > 0 {
            r matches Err(RelayError::Arrow(x)) && x@ == too_long_text(m.len(), b.num_rows as nat)
        } else {
            r matches Ok(nb) && nb.wf() && strs(nb.names@) == strs(b.names@) && nb.num_rows == kept_rows(m).len()
                && nb.columns@.len() == b.columns@.len() && forall|k: int|
                0 <= k < b.columns@.len() ==> taken_column(#[trigger] nb.columns@[k], b.columns@[k], kept_rows(m))
        },
    }
}

/// Keeps the rows of a batch on which the predicate holds (null counts as
/// false).
pub fn filter_batch(b: &ColumnBatch, e: &Expr) -> (r: Result<ColumnBatch, RelayError>)
    requires
        b.wf(),
    ensures
        filtered_as(r, *b, *e),
{
    let mask = match eval_filter(b, e) {
        Ok(m) => m,
        Err(x) => {
            return Err(x);
        },
    };
    let rows = match selected_rows(&mask, b.num_rows, b.columns.len()) {
        Ok(v) => v,
        Err(x) => {
            return Err(x);
        },
    };
    proof {
        lemma_kept_rows(mask@);
    }
    let mut columns: Vec<Column> = Vec::new();
    let mut k: usize = 0;
    while k < b.columns.len()
        invariant
            b.wf(),
            rows@ == kept_rows(mask@),
            mask@.len() <= b.num_rows || b.columns@.len() == 0,
            forall|j: int| 0 <= j < rows@.len() ==> rows@[j] < mask@.len(),
            k <= b.columns@.len(),
            columns@.len() == k,
            forall|q: int| 0 <= q < k ==> (#[trigger] columns@[q]).wf() && taken_column(columns@[q], b.columns@[q], rows@),
        decreases b.columns@.len() - k,
    {
        let c = take_column(&b.columns[k], &rows);
        columns.push(c);
        k += 1;
    }
    let names = take_strings(&b.names, &index_range(b.names.len()));
    let nb = ColumnBatch { names, columns, num_rows: rows.len() };
    assert(strs(nb.names@) =~= strs(b.names@));
    Ok(nb)
}

fn index_range(n: usize) -> (r: Vec<usize>)
    ensures
        r@.len() == n,
        forall|j: int| 0 <= j < n ==> r@[j] == j,
{
    let mut out: Vec<usize> = Vec::new();
    let mut j: usize = 0;
    while j < n
        invariant
            j <= n,
            out@.len() == j,
            forall|q: int| 0 <= q < j ==> out@[q] == q,
        decreases n - j,
    {
        out.push(j);
        j += 1;
    }
    out
}

// ─── Laws ─────────────────────────────────────────────────────────

/// Removing a double negation keeps a predicate's mask, or its failure.
pub proof fn lemma_double_not_keeps_mask(b: ColumnBatch, e: Expr)
    ensures
        filter_outcome(b, Expr::Not(Box::new(Expr::Not(Box::new(e))))) == filter_outcome(b, e),
{
    let inner = Expr::Not(Box::new(e));
    if let Ok(m) = filter_outcome(b, e) {
        assert(filter_outcome(b, inner) == Ok::<Seq<Option<bool>>, Failure>(negate(m)));
        assert(negate(negate(m)) =~= m);
    } else {
        assert(filter_outcome(b, inner) == filter_outcome(b, e));
    }
}

/// A literal compared with a column gives the mask of the column compared
/// with the literal under the mirrored comparison.
pub proof fn lemma_mirrored_comparison_keeps_mask(b: ColumnBatch, name: String, l: Literal, op: Operator)
    requires
        is_comparison(op),
    ensures
        filter_outcome(
            b,
            Expr::BinaryOp {
                left: Box::new(Expr::Literal(l)),
                op: op,
                right: Box::new(Expr::Column(name)),
            },
        ) == filter_outcome(
            b,
            Expr::BinaryOp {
                left: Box::new(Expr::Column(name)),
                op: flipped(op),
                right: Box::new(Expr::Literal(l)),
            },
        ),
{
}


// ─── Laws of comparisons ──────────────────────────────────────────

/// Strings compare by their UTF-8 bytes in lexicographic order: `a < b`
/// exactly when `a`'s bytes come first, `a <= b` when `b`'s do not, and so
/// on; equality is equality of the strings.
pub proof fn lemma_text_comparison_is_byte_order(a: Seq<char>, b: Seq<char>)
    ensures
        text_holds(Operator::Lt, a, b) == crate::text::lex_less(vstd::utf8::encode_utf8(a), vstd::utf8::encode_utf8(b)),
        text_holds(Operator::Le, a, b) == !crate::text::lex_less(vstd::utf8::encode_utf8(b), vstd::utf8::encode_utf8(a)),
        text_holds(Operator::Gt, a, b) == crate::text::lex_less(vstd::utf8::encode_utf8(b), vstd::utf8::encode_utf8(a)),
        text_holds(Operator::Ge, a, b) == !crate::text::lex_less(vstd::utf8::encode_utf8(a), vstd::utf8::encode_utf8(b)),
        text_holds(Operator::Eq, a, b) == (a == b),
        text_holds(Operator::Ne, a, b) == (a != b),
        text_holds(Operator::Lt, a, b) == !text_holds(Operator::Le, b, a),
        text_holds(Operator::Lt, a, b) ==> !text_holds(Operator::Lt, b, a),
{
    crate::text::lemma_text_total(a, b);
    crate::text::lemma_text_irreflexive(a);
    if text_less(a, b) {
        crate::text::lemma_lex_asymmetric(vstd::utf8::encode_utf8(a), vstd::utf8::encode_utf8(b));
    }
}

/// Integers compare as integers.
pub proof fn lemma_int_comparison_meaning(a: int, b: int)
    ensures
        int_holds(Operator::Lt, a, b) == (a < b),
        int_holds(Operator::Le, a, b) == (a <= b),
        int_holds(Operator::Gt, a, b) == (a > b),
        int_holds(Operator::Ge, a, b) == (a >= b),
        int_holds(Operator::Eq, a, b) == (a == b),
        int_holds(Operator::Ne, a, b) == (a != b),
{
}

/// A string column compared with a string literal: each present row gives
/// whether the row's string stands in that relation to the literal in the
/// byte order of their UTF-8 text (`<` when the row's bytes come first).
pub proof fn lemma_string_column_literal_mask(c: Column, s: String, i: int)
    requires
        c.values is Utf8,
        c.valid@.len() == c.values->Utf8_0@.len(),
        0 <= i < c.valid@.len(),
        c.valid@[i],
    ensures
        ({
            let x = vstd::utf8::encode_utf8(c.values->Utf8_0@[i]@);
            let y = vstd::utf8::encode_utf8(s@);
            &&& lit_mask(c, Literal::Str(s), Operator::Lt)[i] == Some(crate::text::lex_less(x, y))
            &&& lit_mask(c, Literal::Str(s), Operator::Le)[i] == Some(!crate::text::lex_less(y, x))
            &&& lit_mask(c, Literal::Str(s), Operator::Gt)[i] == Some(crate::text::lex_less(y, x))
            &&& lit_mask(c, Literal::Str(s), Operator::Ge)[i] == Some(!crate::text::lex_less(x, y))
            &&& lit_mask(c, Literal::Str(s), Operator::Eq)[i] == Some(c.values->Utf8_0@[i]@ == s@)
            &&& lit_mask(c, Literal::Str(s), Operator::Ne)[i] == Some(c.values->Utf8_0@[i]@ != s@)
        }),
{
}

/// An integer column compared with an integer literal: each present row
/// gives whether the row's value stands in that relation to the literal.
pub proof fn lemma_int_column_literal_mask(c: Column, k: i64, i: int)
    requires
        c.values is Int64,
        c.valid@.len() == c.values->Int64_0@.len(),
        0 <= i < c.valid@.len(),
        c.valid@[i],
    ensures
        ({
            let v = c.values->Int64_0@[i];
            &&& lit_mask(c, Literal::Int64(k), Operator::Lt)[i] == Some(v < k)
            &&& lit_mask(c, Literal::Int64(k), Operator::Le)[i] == Some(v <= k)
            &&& lit_mask(c, Literal::Int64(k), Operator::Gt)[i] == Some(v > k)
            &&& lit_mask(c, Literal::Int64(k), Operator::Ge)[i] == Some(v >= k)
            &&& lit_mask(c, Literal::Int64(k), Operator::Eq)[i] == Some(v == k)
            &&& lit_mask(c, Literal::Int64(k), Operator::Ne)[i] == Some(v != k)
        }),
{
}

/// Two string columns compared row by row: row `i` stands in the relation
/// exactly when the left string's UTF-8 bytes do against the right's.
pub proof fn lemma_string_columns_pair_cell(a: Vec<String>, b: Vec<String>, i: int)
    requires
        0 <= i < a@.len(),
        i < b@.len(),
    ensures
        ({
            let x = vstd::utf8::encode_utf8(a@[i]@);
            let y = vstd::utf8::encode_utf8(b@[i]@);
            let l = ColumnValues::Utf8(a);
            let r = ColumnValues::Utf8(b);
            &&& pair_cell(l, r, i, Operator::Lt) == crate::text::lex_less(x, y)
            &&& pair_cell(l, r, i, Operator::Le) == !crate::text::lex_less(y, x)
            &&& pair_cell(l, r, i, Operator::Gt) == crate::text::lex_less(y, x)
            &&& pair_cell(l, r, i, Operator::Ge) == !crate::text::lex_less(x, y)
            &&& pair_cell(l, r, i, Operator::Eq) == (a@[i]@ == b@[i]@)
            &&& pair_cell(l, r, i, Operator::Ne) == (a@[i]@ != b@[i]@)
        }),
{
}

/// Two integer columns compared row by row: row `i` stands in the relation
/// exactly when the left value does against the right one.
pub proof fn lemma_int_columns_pair_cell(a: Vec<i64>, b: Vec<i64>, i: int)
    requires
        0 <= i < a@.len(),
        i < b@.len(),
    ensures
        ({
            let l = ColumnValues::Int64(a);
            let r = ColumnValues::Int64(b);
            &&& pair_cell(l, r, i, Operator::Lt) == (a@[i] < b@[i])
            &&& pair_cell(l, r, i, Operator::Le) == (a@[i] <= b@[i])
            &&& pair_cell(l, r, i, Operator::Gt) == (a@[i] > b@[i])
            &&& pair_cell(l, r, i, Operator::Ge) == (a@[i] >= b@[i])
            &&& pair_cell(l, r, i, Operator::Eq) == (a@[i] == b@[i])
            &&& pair_cell(l, r, i, Operator::Ne) == (a@[i] != b@[i])
        }),
{
}

/// `AND` keeps a row exactly when both sides keep it, `OR` when either does
/// (a row with a null on either side is null); and the two obey De Morgan's
/// law: `NOT (x AND y)` gives the mask of `NOT x OR NOT y`.
pub proof fn lemma_and_or_masks(b: ColumnBatch, x: Expr, y: Expr)
    requires
        filter_outcome(b, x) is Ok,
        filter_outcome(b, y) is Ok,
        filter_outcome(b, x)->Ok_0.len() == filter_outcome(b, y)->Ok_0.len(),
    ensures
        ({
            let l = filter_outcome(b, x)->Ok_0;
            let r = filter_outcome(b, y)->Ok_0;
            let both = Expr::BinaryOp { left: Box::new(x), op: Operator::And, right: Box::new(y) };
            let either = Expr::BinaryOp { left: Box::new(x), op: Operator::Or, right: Box::new(y) };
            &&& filter_outcome(b, both) matches Ok(m) && m.len() == l.len() && forall|i: int|
                0 <= i < l.len() ==> (#[trigger] m[i] == Some(true) <==> (l[i] == Some(true) && r[i] == Some(true)))
                    && (m[i] is None <==> (l[i] is None || r[i] is None))
            &&& filter_outcome(b, either) matches Ok(m) && m.len() == l.len() && forall|i: int|
                0 <= i < l.len() ==> (#[trigger] m[i] == Some(true) <==> ((l[i] == Some(true) || r[i] == Some(true))
                    && l[i] is Some && r[i] is Some)) && (m[i] is None <==> (l[i] is None || r[i] is None))
            &&& filter_outcome(b, Expr::Not(Box::new(both))) == filter_outcome(
                b,
                Expr::BinaryOp {
                    left: Box::new(Expr::Not(Box::new(x))),
                    op: Operator::Or,
                    right: Box::new(Expr::Not(Box::new(y))),
                },
            )
        }),
{
    let l = filter_outcome(b, x)->Ok_0;
    let r = filter_outcome(b, y)->Ok_0;
    let both = Expr::BinaryOp { left: Box::new(x), op: Operator::And, right: Box::new(y) };
    let either = Expr::BinaryOp { left: Box::new(x), op: Operator::Or, right: Box::new(y) };
    assert(filter_outcome(b, both) == Ok::<Seq<Option<bool>>, Failure>(combine(Operator::And, l, r)));
    assert(filter_outcome(b, either) == Ok::<Seq<Option<bool>>, Failure>(combine(Operator::Or, l, r)));
    let nx = Expr::Not(Box::new(x));
    let ny = Expr::Not(Box::new(y));
    assert(filter_outcome(b, nx) == Ok::<Seq<Option<bool>>, Failure>(negate(l)));
    assert(filter_outcome(b, ny) == Ok::<Seq<Option<bool>>, Failure>(negate(r)));
    let lhs = negate(combine(Operator::And, l, r));
    let rhs = combine(Operator::Or, negate(l), negate(r));
    assert(lhs =~= rhs);
    assert(filter_outcome(b, Expr::Not(Box::new(both))) == Ok::<Seq<Option<bool>>, Failure>(lhs));
    assert(filter_outcome(
        b,
        Expr::BinaryOp { left: Box::new(nx), op: Operator::Or, right: Box::new(ny) },
    ) == Ok::<Seq<Option<bool>>, Failure>(rhs));
}
} // verus!
