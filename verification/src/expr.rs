//! Expression trees: column references, literals, comparisons and boolean
//! connectives, with their display form and the columns they read.
use vstd::prelude::*;
use crate::text::{int_text, push_i64, str_eq, str_less, text_less};

verus! {

/// A 64-bit float literal: its IEEE-754 bit pattern, the text it is shown
/// as (the shortest decimal that reads back to the same value) and its debug
/// rendering (which keeps a fractional part or uses an exponent).
#[derive(Debug)]
pub struct FloatLit {
    pub bits: u64,
    pub text: String,
    pub debug: String,
}

/// A literal value that can be used in expressions.
#[derive(Debug)]
pub enum Literal {
    Int32(i32),
    Int64(i64),
    Float64(FloatLit),
    Bool(bool),
    Str(String),
    Null,
}

/// Comparison and logical operators.
#[derive(Debug, Clone, Copy, PartialEq, Eq, Structural)]
pub enum Operator {
    Eq,
    Ne,
    Lt,
    Le,
    Gt,
    Ge,
    And,
    Or,
}

/// Expression tree node.
#[derive(Debug)]
pub enum Expr {
    /// Reference to a column by name.
    Column(String),
    /// A literal value.
    Literal(Literal),
    /// Binary operation: left op right.
    BinaryOp { left: Box<Expr>, op: Operator, right: Box<Expr> },
    /// NOT expression.
    Not(Box<Expr>),
}

// ─── Display ──────────────────────────────────────────────────────

pub open spec fn op_text(op: Operator) -> Seq<char> {
    match op {
        Operator::Eq => "=="@,
        Operator::Ne => "!="@,
        Operator::Lt => "<"@,
        Operator::Le => "<="@,
        Operator::Gt => ">"@,
        Operator::Ge => ">="@,
        Operator::And => "AND"@,
        Operator::Or => "OR"@,
    }
}

pub open spec fn literal_text(l: Literal) -> Seq<char> {
    match l {
        Literal::Int32(v) => int_text(v as int),
        Literal::Int64(v) => int_text(v as int),
        Literal::Float64(f) => f.text@,
        Literal::Bool(b) => if b {
            "true"@
        } else {
            "false"@
        },
        Literal::Str(s) => "'"@ + s@ + "'"@,
        Literal::Null => "NULL"@,
    }
}

/// The display form: `name`, a literal, `(l op r)` or `NOT (x)`.
pub open spec fn expr_text(e: Expr) -> Seq<char>
    decreases e,
{
    match e {
        Expr::Column(name) => name@,
        Expr::Literal(l) => literal_text(l),
        Expr::BinaryOp { left, op, right } => "("@ + expr_text(*left) + " "@ + op_text(op) + " "@
            + expr_text(*right) + ")"@,
        Expr::Not(inner) => "NOT ("@ + expr_text(*inner) + ")"@,
    }
}

impl Operator {
    /// The operator's symbol.
    pub fn to_string(&self) -> (r: String)
        ensures
            r@ == op_text(*self),
    {
        let mut out = String::new();
        self.push_text(&mut out);
        out
    }

    fn push_text(&self, out: &mut String)
        ensures
            final(out)@ == old(out)@ + op_text(*self),
    {
        match self {
            Operator::Eq => out.append("=="),
            Operator::Ne => out.append("!="),
            Operator::Lt => out.append("<"),
            Operator::Le => out.append("<="),
            Operator::Gt => out.append(">"),
            Operator::Ge => out.append(">="),
            Operator::And => out.append("AND"),
            Operator::Or => out.append("OR"),
        }
    }
}

impl FloatLit {
    /// A copy of this literal.
    pub fn copy(&self) -> (r: FloatLit)
        ensures
            r == *self,
    {
        FloatLit { bits: self.bits, text: self.text.clone(), debug: self.debug.clone() }
    }
}

impl Literal {
    /// The literal's display form.
    pub fn to_string(&self) -> (r: String)
        ensures
            r@ == literal_text(*self),
    {
        let mut out = String::new();
        self.push_text(&mut out);
        out
    }

    fn push_text(&self, out: &mut String)
        ensures
            final(out)@ == old(out)@ + literal_text(*self),
    {
        match self {
            Literal::Int32(v) => push_i64(out, *v as i64),
            Literal::Int64(v) => push_i64(out, *v),
            Literal::Float64(f) => out.append(f.text.as_str()),
            Literal::Bool(b) => {
                if *b {
                    out.append("true")
                } else {
                    out.append("false")
                }
            },
            Literal::Str(s) => {
                out.append("'");
                out.append(s.as_str());
                out.append("'");
            },
            Literal::Null => out.append("NULL"),
        }
    }

    /// A copy of this literal.
    pub fn copy(&self) -> (r: Literal)
        ensures
            r == *self,
    {
        match self {
            Literal::Int32(v) => Literal::Int32(*v),
            Literal::Int64(v) => Literal::Int64(*v),
            Literal::Float64(f) => Literal::Float64(f.copy()),
            Literal::Bool(b) => Literal::Bool(*b),
            Literal::Str(s) => Literal::Str(s.clone()),
            Literal::Null => Literal::Null,
        }
    }
}

// ─── Columns read ─────────────────────────────────────────────────

/// The names of the columns an expression reads.
pub open spec fn columns_of(e: Expr) -> Set<Seq<char>>
    decreases e,
{
    match e {
        Expr::Column(name) => set![name@],
        Expr::Literal(_) => Set::empty(),
        Expr::BinaryOp { left, op: _, right } => columns_of(*left).union(columns_of(*right)),
        Expr::Not(inner) => columns_of(*inner),
    }
}

/// Strictly increasing in byte order, so also free of repeats.
pub open spec fn sorted_names(ns: Seq<String>) -> bool {
    forall|i: int, j: int| 0 <= i < j < ns.len() ==> text_less(ns[i]@, ns[j]@)
}

/// The set of names in a list.
pub open spec fn name_set(ns: Seq<String>) -> Set<Seq<char>> {
    Set::new(|n: Seq<char>| exists|i: int| 0 <= i < ns.len() && ns[i]@ == n)
}

/// The names of a prefix one longer: one more name.
pub proof fn lemma_name_set_prefix(s: Seq<String>, j: int)
    requires
        0 <= j < s.len(),
    ensures
        name_set(s.subrange(0, j + 1)) == name_set(s.subrange(0, j)).insert(s[j]@),
{
    let a = s.subrange(0, j + 1);
    let b = s.subrange(0, j);
    assert forall|n: Seq<char>| name_set(a).contains(n) <==> name_set(b).insert(s[j]@).contains(
        n,
    ) by {
        if name_set(a).contains(n) {
            let k = choose|k: int| 0 <= k < a.len() && a[k]@ == n;
            if k < j {
                assert(b[k] == a[k]);
            }
        }
        if name_set(b).contains(n) {
            let k = choose|k: int| 0 <= k < b.len() && b[k]@ == n;
            assert(a[k] == b[k]);
        }
        if n == s[j]@ {
            assert(a[j] == s[j]);
        }
    }
    assert(name_set(a) =~= name_set(b).insert(s[j]@));
}

/// Adds `name` to a sorted list of distinct names, keeping it sorted.
pub fn insert_sorted(names: &mut Vec<String>, name: String)
    requires
        sorted_names(old(names)@),
    ensures
        sorted_names(final(names)@),
        name_set(final(names)@) == name_set(old(names)@).insert(name@),
{
    let mut i: usize = 0;
    while i < names.len() && str_less(names[i].as_str(), name.as_str())
        invariant
            i <= names@.len(),
            sorted_names(names@),
            forall|j: int| 0 <= j < i ==> text_less(names@[j]@, name@),
        decreases names@.len() - i,
    {
        i += 1;
    }
    if i < names.len() && str_eq(names[i].as_str(), name.as_str()) {
        proof {
            assert(name_set(names@) =~= name_set(names@).insert(name@));
        }
        return;
    }
    let ghost before = names@;
    proof {
        if i < before.len() {
            crate::text::lemma_text_total(before[i as int]@, name@);
        }
    }
    names.insert(i, name);
    proof {
        let after = names@;
        assert forall|a: int, b: int| 0 <= a < b < after.len() implies text_less(
            after[a]@,
            after[b]@,
        ) by {
            if b < i {
            } else if b == i {
            } else if a < i {
                assert(after[b] == before[b - 1]);
                if b - 1 > i {
                    assert(text_less(before[i as int]@, before[b - 1]@));
                    crate::text::lemma_text_transitive(after[a]@, name@, before[i as int]@);
                    crate::text::lemma_text_transitive(after[a]@, before[i as int]@, before[b - 1]@);
                } else {
                    crate::text::lemma_text_transitive(after[a]@, name@, before[i as int]@);
                }
            } else if a == i {
                assert(after[b] == before[b - 1]);
                if b - 1 > i {
                    assert(text_less(before[i as int]@, before[b - 1]@));
                    crate::text::lemma_text_transitive(name@, before[i as int]@, before[b - 1]@);
                }
            } else {
                assert(after[a] == before[a - 1]);
                assert(after[b] == before[b - 1]);
            }
        }
        assert forall|n: Seq<char>| name_set(after).contains(n) <==> name_set(before).insert(
            name@,
        ).contains(n) by {
            if name_set(after).contains(n) {
                let k = choose|k: int| 0 <= k < after.len() && after[k]@ == n;
                if k < i {
                    assert(before[k] == after[k]);
                } else if k > i {
                    assert(before[k - 1] == after[k]);
                }
            }
            if name_set(before).contains(n) {
                let k = choose|k: int| 0 <= k < before.len() && before[k]@ == n;
                if k < i {
                    assert(after[k] == before[k]);
                } else {
                    assert(after[k + 1] == before[k]);
                }
            }
            if n == name@ {
                assert(after[i as int]@ == name@);
            }
        }
        assert(name_set(after) =~= name_set(before).insert(name@));
    }
}

// ─── Construction ─────────────────────────────────────────────────

impl Expr {
    /// Create a column reference.
    pub fn col(name: &str) -> (r: Expr)
        ensures
            r matches Expr::Column(n) && n@ == name@,
    {
        Expr::Column(name.to_string())
    }

    /// Create a literal expression.
    pub fn lit_i32(v: i32) -> (r: Expr)
        ensures
            r == Expr::Literal(Literal::Int32(v)),
    {
        Expr::Literal(Literal::Int32(v))
    }

    pub fn lit_i64(v: i64) -> (r: Expr)
        ensures
            r == Expr::Literal(Literal::Int64(v)),
    {
        Expr::Literal(Literal::Int64(v))
    }

    pub fn lit_f64(v: FloatLit) -> (r: Expr)
        ensures
            r == Expr::Literal(Literal::Float64(v)),
    {
        Expr::Literal(Literal::Float64(v))
    }

    pub fn lit_bool(v: bool) -> (r: Expr)
        ensures
            r == Expr::Literal(Literal::Bool(v)),
    {
        Expr::Literal(Literal::Bool(v))
    }

    pub fn lit_str(v: &str) -> (r: Expr)
        ensures
            r matches Expr::Literal(Literal::Str(s)) && s@ == v@,
    {
        Expr::Literal(Literal::Str(v.to_string()))
    }

    fn binary(self, op: Operator, other: Expr) -> (r: Expr)
        ensures
            r == (Expr::BinaryOp { left: Box::new(self), op, right: Box::new(other) }),
    {
        Expr::BinaryOp { left: Box::new(self), op, right: Box::new(other) }
    }

    /// `self == other`.
    pub fn eq(self, other: Expr) -> (r: Expr)
        ensures
            r == (Expr::BinaryOp { left: Box::new(self), op: Operator::Eq, right: Box::new(other) }),
    {
        self.binary(Operator::Eq, other)
    }

    /// `self != other`.
    pub fn ne(self, other: Expr) -> (r: Expr)
        ensures
            r == (Expr::BinaryOp { left: Box::new(self), op: Operator::Ne, right: Box::new(other) }),
    {
        self.binary(Operator::Ne, other)
    }

    /// `self < other`.
    pub fn lt(self, other: Expr) -> (r: Expr)
        ensures
            r == (Expr::BinaryOp { left: Box::new(self), op: Operator::Lt, right: Box::new(other) }),
    {
        self.binary(Operator::Lt, other)
    }

    /// `self <= other`.
    pub fn le(self, other: Expr) -> (r: Expr)
        ensures
            r == (Expr::BinaryOp { left: Box::new(self), op: Operator::Le, right: Box::new(other) }),
    {
        self.binary(Operator::Le, other)
    }

    /// `self > other`.
    pub fn gt(self, other: Expr) -> (r: Expr)
        ensures
            r == (Expr::BinaryOp { left: Box::new(self), op: Operator::Gt, right: Box::new(other) }),
    {
        self.binary(Operator::Gt, other)
    }

    /// `self >= other`.
    pub fn ge(self, other: Expr) -> (r: Expr)
        ensures
            r == (Expr::BinaryOp { left: Box::new(self), op: Operator::Ge, right: Box::new(other) }),
    {
        self.binary(Operator::Ge, other)
    }

    /// `self AND other`.
    pub fn and(self, other: Expr) -> (r: Expr)
        ensures
            r == (Expr::BinaryOp { left: Box::new(self), op: Operator::And, right: Box::new(other) }),
    {
        self.binary(Operator::And, other)
    }

    /// `self OR other`.
    pub fn or(self, other: Expr) -> (r: Expr)
        ensures
            r == (Expr::BinaryOp { left: Box::new(self), op: Operator::Or, right: Box::new(other) }),
    {
        self.binary(Operator::Or, other)
    }

    /// `NOT self`.
    pub fn not(self) -> (r: Expr)
        ensures
            r == Expr::Not(Box::new(self)),
    {
        Expr::Not(Box::new(self))
    }

    /// A copy of this expression.
    pub fn copy(&self) -> (r: Expr)
        ensures
            r == *self,
        decreases *self,
    {
        match self {
            Expr::Column(n) => Expr::Column(n.clone()),
            Expr::Literal(l) => Expr::Literal(l.copy()),
            Expr::BinaryOp { left, op, right } => Expr::BinaryOp {
                left: Box::new(left.copy()),
                op: *op,
                right: Box::new(right.copy()),
            },
            Expr::Not(inner) => Expr::Not(Box::new(inner.copy())),
        }
    }

    /// The display form.
    pub fn to_string(&self) -> (r: String)
        ensures
            r@ == expr_text(*self),
    {
        let mut out = String::new();
        self.push_text(&mut out);
        out
    }

    /// Appends the display form.
    pub fn push_text(&self, out: &mut String)
        ensures
            final(out)@ == old(out)@ + expr_text(*self),
        decreases *self,
    {
        match self {
            Expr::Column(name) => out.append(name.as_str()),
            Expr::Literal(l) => l.push_text(out),
            Expr::BinaryOp { left, op, right } => {
                out.append("(");
                left.push_text(out);
                out.append(" ");
                op.push_text(out);
                out.append(" ");
                right.push_text(out);
                out.append(")");
            },
            Expr::Not(inner) => {
                out.append("NOT (");
                inner.push_text(out);
                out.append(")");
            },
        }
    }

    /// Collect all column names referenced in this expression, sorted in byte
    /// order and without repeats.
    pub fn referenced_columns(&self) -> (r: Vec<String>)
        ensures
            sorted_names(r@),
            name_set(r@) == columns_of(*self),
    {
        let mut cols: Vec<String> = Vec::new();
        proof {
            assert(name_set(cols@) =~= Set::<Seq<char>>::empty());
        }
        self.collect_columns(&mut cols);
        assert(name_set(cols@) =~= Set::<Seq<char>>::empty().union(columns_of(*self)));
        cols
    }

    fn collect_columns(&self, cols: &mut Vec<String>)
        requires
            sorted_names(old(cols)@),
        ensures
            sorted_names(final(cols)@),
            name_set(final(cols)@) == name_set(old(cols)@).union(columns_of(*self)),
        decreases *self,
    {
        match self {
            Expr::Column(name) => {
                insert_sorted(cols, name.clone());
                assert(name_set(cols@) =~= name_set(old(cols)@).union(columns_of(*self)));
            },
            Expr::Literal(_) => {
                assert(name_set(cols@) =~= name_set(old(cols)@).union(columns_of(*self)));
            },
            Expr::BinaryOp { left, right, .. } => {
                left.collect_columns(cols);
                right.collect_columns(cols);
                assert(name_set(cols@) =~= name_set(old(cols)@).union(columns_of(*self)));
            },
            Expr::Not(inner) => inner.collect_columns(cols),
        }
    }
}

impl Clone for Expr {
    fn clone(&self) -> (r: Self)
        ensures
            r == *self,
    {
        self.copy()
    }
}

impl Clone for Literal {
    fn clone(&self) -> (r: Self)
        ensures
            r == *self,
    {
        self.copy()
    }
}

impl Clone for FloatLit {
    fn clone(&self) -> (r: Self)
        ensures
            r == *self,
    {
        self.copy()
    }
}

/// The comparison a name asks for: a symbol (`==`, `!=`, `<`, `<=`, `>`,
/// `>=`) or its short name (`eq`, `ne`, `lt`, `le`, `gt`, `ge`).
pub open spec fn comparison_named(name: Seq<char>) -> Option<Operator> {
    if name == "=="@ || name == "eq"@ {
        Some(Operator::Eq)
    } else if name == "!="@ || name == "ne"@ {
        Some(Operator::Ne)
    } else if name == "<"@ || name == "lt"@ {
        Some(Operator::Lt)
    } else if name == "<="@ || name == "le"@ {
        Some(Operator::Le)
    } else if name == ">"@ || name == "gt"@ {
        Some(Operator::Gt)
    } else if name == ">="@ || name == "ge"@ {
        Some(Operator::Ge)
    } else {
        None
    }
}

/// Reads a comparison's name.
pub fn comparison_from_name(name: &str) -> (r: Option<Operator>)
    ensures
        r == comparison_named(name@),
{
    if str_eq(name, "==") || str_eq(name, "eq") {
        Some(Operator::Eq)
    } else if str_eq(name, "!=") || str_eq(name, "ne") {
        Some(Operator::Ne)
    } else if str_eq(name, "<") || str_eq(name, "lt") {
        Some(Operator::Lt)
    } else if str_eq(name, "<=") || str_eq(name, "le") {
        Some(Operator::Le)
    } else if str_eq(name, ">") || str_eq(name, "gt") {
        Some(Operator::Gt)
    } else if str_eq(name, ">=") || str_eq(name, "ge") {
        Some(Operator::Ge)
    } else {
        None
    }
}

} // verus!
