//! Logical plans: operator nodes stored in an arena, children referenced by id.
use vstd::prelude::*;
use std::sync::Arc;
use crate::agg::{agg_op_text, AggOp};
use crate::arena::{Arena, NodeId};
use crate::expr::{columns_of, expr_text, insert_sorted, name_set, sorted_names, Expr};
use crate::schema::{names_debug_text, RelaySchema};
use crate::text::{nat_text, push_u64};
use crate::types::{bool_text, str_debug, str_debug_text};

verus! {

/// A shared, immutable schema.
pub type SchemaRef = Arc<RelaySchema>;

/// `Arc::clone`: another handle to the same schema (the pointee is shared, not copied).
#[verifier::external_body]
pub(crate) fn share_schema(s: &SchemaRef) -> (r: SchemaRef)
    ensures
        r == *s,
{
    Arc::clone(s)
}

/// Data source types.
#[derive(Debug)]
pub enum ScanSource {
    /// Arrow IPC file (mmap).
    Ipc(String),
    /// Parquet file.
    Parquet(String),
    /// CSV file.
    Csv(String),
    /// JSON/NDJSON file.
    Json(String),
    /// In-memory RecordBatch (for testing).
    Memory(String),
}

/// The path (or in-memory name) a source reads.
pub open spec fn source_path(s: ScanSource) -> Seq<char> {
    match s {
        ScanSource::Ipc(p) => p@,
        ScanSource::Parquet(p) => p@,
        ScanSource::Csv(p) => p@,
        ScanSource::Json(p) => p@,
        ScanSource::Memory(p) => p@,
    }
}

impl ScanSource {
    /// The path (or in-memory name) this source reads.
    pub fn path(&self) -> (r: &str)
        ensures
            r@ == source_path(*self),
    {
        match self {
            ScanSource::Ipc(p) => p.as_str(),
            ScanSource::Parquet(p) => p.as_str(),
            ScanSource::Csv(p) => p.as_str(),
            ScanSource::Json(p) => p.as_str(),
            ScanSource::Memory(name) => name.as_str(),
        }
    }

    /// A copy of this source.
    pub fn copy(&self) -> (r: ScanSource)
        ensures
            r == *self,
    {
        match self {
            ScanSource::Ipc(p) => ScanSource::Ipc(p.clone()),
            ScanSource::Parquet(p) => ScanSource::Parquet(p.clone()),
            ScanSource::Csv(p) => ScanSource::Csv(p.clone()),
            ScanSource::Json(p) => ScanSource::Json(p.clone()),
            ScanSource::Memory(p) => ScanSource::Memory(p.clone()),
        }
    }
}

impl Clone for ScanSource {
    fn clone(&self) -> (r: Self)
        ensures
            r == *self,
    {
        self.copy()
    }
}

/// Join types.
#[derive(Debug, Clone, Copy, PartialEq, Eq, Structural)]
pub enum JoinType {
    Inner,
    Left,
    Right,
    Full,
    Cross,
    Semi,
    Anti,
}

pub open spec fn join_type_text(j: JoinType) -> Seq<char> {
    match j {
        JoinType::Inner => "Inner"@,
        JoinType::Left => "Left"@,
        JoinType::Right => "Right"@,
        JoinType::Full => "Full"@,
        JoinType::Cross => "Cross"@,
        JoinType::Semi => "Semi"@,
        JoinType::Anti => "Anti"@,
    }
}

/// A logical plan operator node.
#[derive(Debug)]
pub enum LogicalOp {
    /// Scan a data source (IPC file, Parquet file, CSV, etc.)
    Scan {
        source: ScanSource,
        /// Schema of the source.
        schema: SchemaRef,
        /// Optional column projection (indices into source schema).
        projection: Option<Vec<usize>>,
        /// Optional row limit.
        limit: Option<usize>,
    },
    /// Filter rows by a predicate expression.
    Filter { input: NodeId, predicate: Expr },
    /// Project (select) specific columns.
    Project {
        input: NodeId,
        columns: Vec<String>,
        /// Whether this is a "fast projection" (just column reorder, no expressions).
        is_reorder_only: bool,
    },
    /// Global aggregation (no GROUP BY): (column, op, alias).
    Aggregate { input: NodeId, aggs: Vec<(String, AggOp, String)> },
    /// Grouped aggregation (GROUP BY).
    GroupBy { input: NodeId, keys: Vec<String>, aggs: Vec<(String, AggOp, String)> },
    /// Sort by one or more columns: (column_name, ascending).
    Sort { input: NodeId, by: Vec<(String, bool)> },
    /// Limit the number of output rows, after skipping `offset` rows.
    Limit { input: NodeId, n: usize, offset: usize },
    /// Join two inputs.
    Join { left: NodeId, right: NodeId, join_type: JoinType, on: Vec<(String, String)> },
    /// Union of multiple inputs (UNION ALL).
    Union { inputs: Vec<NodeId> },
    /// Empty relation (zero rows). Used by optimizer for dead branches.
    Empty { schema: SchemaRef },
}

// ─── Structure ────────────────────────────────────────────────────

/// The ids an operator reads from.
pub open spec fn op_children(op: LogicalOp) -> Seq<NodeId> {
    match op {
        LogicalOp::Scan { .. } => Seq::empty(),
        LogicalOp::Filter { input, .. } => seq![input],
        LogicalOp::Project { input, .. } => seq![input],
        LogicalOp::Aggregate { input, .. } => seq![input],
        LogicalOp::GroupBy { input, .. } => seq![input],
        LogicalOp::Sort { input, .. } => seq![input],
        LogicalOp::Limit { input, .. } => seq![input],
        LogicalOp::Join { left, right, .. } => seq![left, right],
        LogicalOp::Union { inputs } => inputs@,
        LogicalOp::Empty { .. } => Seq::empty(),
    }
}

/// Every node reads only nodes added before it, so the arena is acyclic and
/// every child id is in range.
pub open spec fn arena_wf(a: Seq<LogicalOp>) -> bool {
    forall|i: int, j: int|
        0 <= i < a.len() && 0 <= j < op_children(a[i]).len() ==> (#[trigger] op_children(a[i])[j]).0
            < i
}

/// A well-formed plan: an acyclic arena and a root inside it.
pub open spec fn plan_wf(p: LogicalPlan) -> bool {
    arena_wf(p.arena@) && p.root.0 < p.arena@.len()
}

// ─── Display ──────────────────────────────────────────────────────

pub open spec fn indent_text(depth: nat) -> Seq<char> {
    Seq::new(2 * depth, |i: int| ' ')
}

pub open spec fn usize_join(ps: Seq<usize>) -> Seq<char>
    decreases ps.len(),
{
    if ps.len() == 0 {
        Seq::empty()
    } else if ps.len() == 1 {
        nat_text(ps[0] as nat)
    } else {
        usize_join(ps.drop_last()) + ", "@ + nat_text(ps.last() as nat)
    }
}

/// `{:?}` of a list of indices: `[0, 2]`.
pub open spec fn usize_list_text(ps: Seq<usize>) -> Seq<char> {
    "["@ + usize_join(ps) + "]"@
}

/// The character sequences of a list of strings.
pub open spec fn strs_of(v: Seq<String>) -> Seq<Seq<char>> {
    Seq::new(v.len(), |i: int| v[i]@)
}

pub open spec fn agg_item_text(a: (String, AggOp, String)) -> Seq<char> {
    agg_op_text(a.1) + "("@ + a.0@ + ") as "@ + a.2@
}

/// Aggregations as `OP(col) as alias`, separated by ", ".
pub open spec fn aggs_text(aggs: Seq<(String, AggOp, String)>) -> Seq<char>
    decreases aggs.len(),
{
    if aggs.len() == 0 {
        Seq::empty()
    } else if aggs.len() == 1 {
        agg_item_text(aggs[0])
    } else {
        aggs_text(aggs.drop_last()) + ", "@ + agg_item_text(aggs.last())
    }
}

pub open spec fn sort_item_text(s: (String, bool)) -> Seq<char> {
    "("@ + str_debug_text(s.0@) + ", "@ + bool_text(s.1) + ")"@
}

pub open spec fn sort_join(by: Seq<(String, bool)>) -> Seq<char>
    decreases by.len(),
{
    if by.len() == 0 {
        Seq::empty()
    } else if by.len() == 1 {
        sort_item_text(by[0])
    } else {
        sort_join(by.drop_last()) + ", "@ + sort_item_text(by.last())
    }
}

pub open spec fn on_item_text(p: (String, String)) -> Seq<char> {
    "("@ + str_debug_text(p.0@) + ", "@ + str_debug_text(p.1@) + ")"@
}

pub open spec fn on_join(on: Seq<(String, String)>) -> Seq<char>
    decreases on.len(),
{
    if on.len() == 0 {
        Seq::empty()
    } else if on.len() == 1 {
        on_item_text(on[0])
    } else {
        on_join(on.drop_last()) + ", "@ + on_item_text(on.last())
    }
}

/// The line an operator prints for itself, indented by `depth` levels.
pub open spec fn op_line(op: LogicalOp, depth: nat) -> Seq<char> {
    indent_text(depth) + match op {
        LogicalOp::Scan { source, projection, limit, .. } => "Scan("@ + source_path(source)
            + match projection {
            Some(p) => ", proj="@ + usize_list_text(p@),
            None => Seq::empty(),
        } + match limit {
            Some(l) => ", limit="@ + nat_text(l as nat),
            None => Seq::empty(),
        } + ")\n"@,
        LogicalOp::Filter { predicate, .. } => "Filter("@ + expr_text(predicate) + ")\n"@,
        LogicalOp::Project { columns, .. } => "Project("@ + names_debug_text(strs_of(columns@))
            + ")\n"@,
        LogicalOp::Aggregate { aggs, .. } => "Aggregate("@ + aggs_text(aggs@) + ")\n"@,
        LogicalOp::GroupBy { keys, aggs, .. } => "GroupBy(keys="@ + names_debug_text(
            strs_of(keys@),
        ) + ", aggs="@ + aggs_text(aggs@) + ")\n"@,
        LogicalOp::Sort { by, .. } => "Sort(["@ + sort_join(by@) + "])\n"@,
        LogicalOp::Limit { n, offset, .. } => "Limit(n="@ + nat_text(n as nat) + ", offset="@
            + nat_text(offset as nat) + ")\n"@,
        LogicalOp::Join { join_type, on, .. } => "Join("@ + join_type_text(join_type) + ", on=["@
            + on_join(on@) + "])\n"@,
        LogicalOp::Union { inputs } => "Union("@ + nat_text(inputs@.len()) + " inputs)\n"@,
        LogicalOp::Empty { .. } => "Empty\n"@,
    }
}

/// The text of the subtree at `node`: its line, then each child's subtree one
/// level deeper, in order.
pub open spec fn node_text(a: Seq<LogicalOp>, node: nat, depth: nat) -> Seq<char>
    decreases node, 1nat, 0nat,
{
    if node >= a.len() {
        Seq::empty()
    } else {
        op_line(a[node as int], depth) + match a[node as int] {
            LogicalOp::Union { inputs } => inputs_text(a, inputs@, node, depth + 1),
            LogicalOp::Join { left, right, .. } => (if left.0 < node {
                node_text(a, left.0 as nat, depth + 1)
            } else {
                Seq::empty()
            }) + (if right.0 < node {
                node_text(a, right.0 as nat, depth + 1)
            } else {
                Seq::empty()
            }),
            LogicalOp::Scan { .. } => Seq::empty(),
            LogicalOp::Empty { .. } => Seq::empty(),
            LogicalOp::Filter { input, .. } => single_child_text(a, input, node, depth),
            LogicalOp::Project { input, .. } => single_child_text(a, input, node, depth),
            LogicalOp::Aggregate { input, .. } => single_child_text(a, input, node, depth),
            LogicalOp::GroupBy { input, .. } => single_child_text(a, input, node, depth),
            LogicalOp::Sort { input, .. } => single_child_text(a, input, node, depth),
            LogicalOp::Limit { input, .. } => single_child_text(a, input, node, depth),
        }
    }
}

/// The subtree text of the one child of `parent`, one level deeper.
pub open spec fn single_child_text(a: Seq<LogicalOp>, input: NodeId, parent: nat, depth: nat) -> Seq<
    char,
>
    decreases parent, 0nat, 1nat,
{
    if input.0 < parent {
        node_text(a, input.0 as nat, depth + 1)
    } else {
        Seq::empty()
    }
}

/// The subtree texts of a list of inputs of `parent`, in order.
pub open spec fn inputs_text(a: Seq<LogicalOp>, ins: Seq<NodeId>, parent: nat, depth: nat) -> Seq<
    char,
>
    decreases parent, 0nat, ins.len(),
{
    if ins.len() == 0 {
        Seq::empty()
    } else {
        inputs_text(a, ins.drop_last(), parent, depth) + if ins.last().0 < parent {
            node_text(a, ins.last().0 as nat, depth)
        } else {
            Seq::empty()
        }
    }
}

// ─── Plans ────────────────────────────────────────────────────────

/// A logical plan is a reference to the root node in an Arena.
#[derive(Debug)]
pub struct LogicalPlan {
    /// The arena containing all plan nodes.
    pub arena: Arena<LogicalOp>,
    /// The root node of the plan.
    pub root: NodeId,
}

/// The operator is a filter whose predicate reads column `n`.
pub open spec fn filter_reads(op: LogicalOp, n: Seq<char>) -> bool {
    op matches LogicalOp::Filter { predicate, .. } && columns_of(predicate).contains(n)
}

/// Column names read by the filter predicates anywhere in the arena.
pub open spec fn filter_column_set(a: Seq<LogicalOp>) -> Set<Seq<char>> {
    Set::new(|n: Seq<char>| exists|i: int| 0 <= i < a.len() && #[trigger] filter_reads(a[i], n))
}

fn push_indent(out: &mut String, depth: usize)
    ensures
        final(out)@ == old(out)@ + indent_text(depth as nat),
{
    let ghost start = out@;
    let mut i: usize = 0;
    while i < depth
        invariant
            i <= depth,
            out@ == start + indent_text(i as nat),
        decreases depth - i,
    {
        out.append("  ");
        proof {
            reveal_strlit("  ");
            assert(start + indent_text((i + 1) as nat) =~= start + indent_text(i as nat) + "  "@);
        }
        i += 1;
    }
}

fn push_usize_list(out: &mut String, ps: &Vec<usize>)
    ensures
        final(out)@ == old(out)@ + usize_list_text(ps@),
{
    out.append("[");
    let ghost start = out@;
    let mut i: usize = 0;
    while i < ps.len()
        invariant
            i <= ps@.len(),
            out@ == start + usize_join(ps@.subrange(0, i as int)),
        decreases ps@.len() - i,
    {
        proof {
            assert(ps@.subrange(0, i + 1).drop_last() =~= ps@.subrange(0, i as int));
        }
        if i > 0 {
            out.append(", ");
        }
        push_u64(out, ps[i] as u64);
        i += 1;
    }
    assert(ps@.subrange(0, ps@.len() as int) =~= ps@);
    out.append("]");
}

fn push_names_debug(out: &mut String, names: &Vec<String>)
    ensures
        final(out)@ == old(out)@ + names_debug_text(strs_of(names@)),
{
    out.append("[");
    let ghost start = out@;
    let ghost ns = strs_of(names@);
    let mut i: usize = 0;
    while i < names.len()
        invariant
            i <= names@.len(),
            ns == strs_of(names@),
            out@ == start + crate::schema::names_debug_join(ns.subrange(0, i as int)),
        decreases names@.len() - i,
    {
        proof {
            assert(ns.subrange(0, i + 1).drop_last() =~= ns.subrange(0, i as int));
        }
        if i > 0 {
            out.append(", ");
        }
        let d = str_debug(names[i].as_str());
        out.append(d.as_str());
        i += 1;
    }
    assert(ns.subrange(0, ns.len() as int) =~= ns);
    out.append("]");
}

fn push_aggs(out: &mut String, aggs: &Vec<(String, AggOp, String)>)
    ensures
        final(out)@ == old(out)@ + aggs_text(aggs@),
{
    let ghost start = out@;
    let mut i: usize = 0;
    while i < aggs.len()
        invariant
            i <= aggs@.len(),
            out@ == start + aggs_text(aggs@.subrange(0, i as int)),
        decreases aggs@.len() - i,
    {
        proof {
            assert(aggs@.subrange(0, i + 1).drop_last() =~= aggs@.subrange(0, i as int));
        }
        if i > 0 {
            out.append(", ");
        }
        aggs[i].1.push_text(out);
        out.append("(");
        out.append(aggs[i].0.as_str());
        out.append(") as ");
        out.append(aggs[i].2.as_str());
        i += 1;
    }
    assert(aggs@.subrange(0, aggs@.len() as int) =~= aggs@);
}

fn push_sort_keys(out: &mut String, by: &Vec<(String, bool)>)
    ensures
        final(out)@ == old(out)@ + sort_join(by@),
{
    let ghost start = out@;
    let mut i: usize = 0;
    while i < by.len()
        invariant
            i <= by@.len(),
            out@ == start + sort_join(by@.subrange(0, i as int)),
        decreases by@.len() - i,
    {
        proof {
            assert(by@.subrange(0, i + 1).drop_last() =~= by@.subrange(0, i as int));
        }
        if i > 0 {
            out.append(", ");
        }
        out.append("(");
        let d = str_debug(by[i].0.as_str());
        out.append(d.as_str());
        out.append(", ");
        if by[i].1 {
            out.append("true");
        } else {
            out.append("false");
        }
        out.append(")");
        i += 1;
    }
    assert(by@.subrange(0, by@.len() as int) =~= by@);
}

fn push_on_pairs(out: &mut String, on: &Vec<(String, String)>)
    ensures
        final(out)@ == old(out)@ + on_join(on@),
{
    let ghost start = out@;
    let mut i: usize = 0;
    while i < on.len()
        invariant
            i <= on@.len(),
            out@ == start + on_join(on@.subrange(0, i as int)),
        decreases on@.len() - i,
    {
        proof {
            assert(on@.subrange(0, i + 1).drop_last() =~= on@.subrange(0, i as int));
        }
        if i > 0 {
            out.append(", ");
        }
        out.append("(");
        let a = str_debug(on[i].0.as_str());
        out.append(a.as_str());
        out.append(", ");
        let b = str_debug(on[i].1.as_str());
        out.append(b.as_str());
        out.append(")");
        i += 1;
    }
    assert(on@.subrange(0, on@.len() as int) =~= on@);
}

fn push_join_type(out: &mut String, j: JoinType)
    ensures
        final(out)@ == old(out)@ + join_type_text(j),
{
    match j {
        JoinType::Inner => out.append("Inner"),
        JoinType::Left => out.append("Left"),
        JoinType::Right => out.append("Right"),
        JoinType::Full => out.append("Full"),
        JoinType::Cross => out.append("Cross"),
        JoinType::Semi => out.append("Semi"),
        JoinType::Anti => out.append("Anti"),
    }
}

/// Appends the line an operator prints for itself.
fn push_op_line(op: &LogicalOp, depth: usize, out: &mut String)
    ensures
        final(out)@ == old(out)@ + op_line(*op, depth as nat),
{
    let ghost start = out@;
    push_indent(out, depth);
    let ghost mid = out@;
    match op {
        LogicalOp::Scan { source, projection, limit, .. } => {
            out.append("Scan(");
            out.append(source.path());
            match projection {
                Some(p) => {
                    out.append(", proj=");
                    push_usize_list(out, p);
                },
                None => {},
            }
            match limit {
                Some(l) => {
                    out.append(", limit=");
                    push_u64(out, *l as u64);
                },
                None => {},
            }
            out.append(")\n");
        },
        LogicalOp::Filter { predicate, .. } => {
            out.append("Filter(");
            predicate.push_text(out);
            out.append(")\n");
        },
        LogicalOp::Project { columns, .. } => {
            out.append("Project(");
            push_names_debug(out, columns);
            out.append(")\n");
        },
        LogicalOp::Aggregate { aggs, .. } => {
            out.append("Aggregate(");
            push_aggs(out, aggs);
            out.append(")\n");
        },
        LogicalOp::GroupBy { keys, aggs, .. } => {
            out.append("GroupBy(keys=");
            push_names_debug(out, keys);
            out.append(", aggs=");
            push_aggs(out, aggs);
            out.append(")\n");
        },
        LogicalOp::Sort { by, .. } => {
            out.append("Sort([");
            push_sort_keys(out, by);
            out.append("])\n");
        },
        LogicalOp::Limit { n, offset, .. } => {
            out.append("Limit(n=");
            push_u64(out, *n as u64);
            out.append(", offset=");
            push_u64(out, *offset as u64);
            out.append(")\n");
        },
        LogicalOp::Join { join_type, on, .. } => {
            out.append("Join(");
            push_join_type(out, *join_type);
            out.append(", on=[");
            push_on_pairs(out, on);
            out.append("])\n");
        },
        LogicalOp::Union { inputs } => {
            out.append("Union(");
            push_u64(out, inputs.len() as u64);
            out.append(" inputs)\n");
        },
        LogicalOp::Empty { .. } => {
            out.append("Empty\n");
        },
    }
    assert(out@ =~= start + op_line(*op, depth as nat));
}

impl LogicalPlan {
    /// Create a new logical plan from an arena and root node.
    pub fn new(arena: Arena<LogicalOp>, root: NodeId) -> (r: Self)
        ensures
            r == (LogicalPlan { arena, root }),
    {
        LogicalPlan { arena, root }
    }

    /// Get the root operator.
    pub fn root_op(&self) -> (r: &LogicalOp)
        requires
            self.root.0 < self.arena@.len(),
        ensures
            *r == self.arena@[self.root.0 as int],
    {
        self.arena.get(self.root)
    }

    /// Collect all column names referenced in filter predicates in this plan,
    /// sorted in byte order and without repeats.
    pub fn filter_columns(&self) -> (r: Vec<String>)
        ensures
            sorted_names(r@),
            name_set(r@) == filter_column_set(self.arena@),
    {
        let mut cols: Vec<String> = Vec::new();
        let ops = self.arena.iter();
        let ghost a = self.arena@;
        let mut k: usize = 0;
        assert(name_set(cols@) =~= Set::<Seq<char>>::empty());
        while k < ops.len()
            invariant
                ops@.len() == a.len(),
                a == self.arena@,
                forall|i: int| 0 <= i < ops@.len() ==> *(#[trigger] ops@[i]).1 == a[i],
                k <= ops@.len(),
                sorted_names(cols@),
                name_set(cols@) == filter_column_set(a.subrange(0, k as int)),
            decreases ops@.len() - k,
        {
            let ghost before = cols@;
            let op = ops[k].1;
            match op {
                LogicalOp::Filter { predicate, .. } => {
                    let found = predicate.referenced_columns();
                    let mut j: usize = 0;
                    while j < found.len()
                        invariant
                            j <= found@.len(),
                            sorted_names(cols@),
                            name_set(cols@) == name_set(before).union(
                                name_set(found@.subrange(0, j as int)),
                            ),
                        decreases found@.len() - j,
                    {
                        insert_sorted(&mut cols, found[j].clone());
                        proof {
                            crate::expr::lemma_name_set_prefix(found@, j as int);
                            assert(name_set(cols@) =~= name_set(before).union(
                                name_set(found@.subrange(0, j + 1)),
                            ));
                        }
                        j += 1;
                    }
                    proof {
                        assert(found@.subrange(0, found@.len() as int) =~= found@);
                    }
                },
                _ => {},
            }
            proof {
                let pre = a.subrange(0, k as int);
                let post = a.subrange(0, k + 1);
                assert forall|n: Seq<char>| filter_column_set(post).contains(n) <==> (
                filter_column_set(pre).contains(n) || filter_reads(a[k as int], n)) by {
                    if filter_column_set(post).contains(n) {
                        let i = choose|i: int| 0 <= i < post.len() && #[trigger] filter_reads(post[i], n);
                        if i < k {
                            assert(pre[i] == post[i]);
                        }
                    }
                    if filter_column_set(pre).contains(n) {
                        let i = choose|i: int| 0 <= i < pre.len() && #[trigger] filter_reads(pre[i], n);
                        assert(pre[i] == post[i]);
                    }
                    if filter_reads(a[k as int], n) {
                        assert(post[k as int] == a[k as int]);
                    }
                }
                assert(name_set(cols@) =~= filter_column_set(post));
            }
            k += 1;
        }
        assert(a.subrange(0, a.len() as int) =~= a);
        cols
    }

    /// Pretty-print the plan tree: one line per node, children indented below
    /// their parent.
    pub fn display(&self) -> (r: String)
        requires
            plan_wf(*self),
        ensures
            r@ == node_text(self.arena@, self.root.0 as nat, 0),
    {
        let mut out = String::new();
        // The arena's length, a usize, bounds every node id.
        let _nodes = self.arena.len();
        self.display_node(self.root, 0, &mut out);
        out
    }

    fn display_node(&self, node: NodeId, depth: usize, out: &mut String)
        requires
            arena_wf(self.arena@),
            node.0 < self.arena@.len(),
            depth + node.0 < usize::MAX,
        ensures
            final(out)@ == old(out)@ + node_text(self.arena@, node.0 as nat, depth as nat),
        decreases node.0,
    {
        let ghost a = self.arena@;
        let op = self.arena.get(node);
        let ghost line_start = out@;
        push_op_line(op, depth, out);
        proof {
            assert forall|j: int| 0 <= j < op_children(*op).len() implies (#[trigger] op_children(
                *op,
            )[j]).0 < node.0 by {
                assert(op_children(a[node.0 as int])[j].0 < node.0);
            }
        }
        match op {
            LogicalOp::Filter { input, .. } => {
                assert(op_children(*op)[0] == *input);
                self.display_node(*input, depth + 1, out);
            },
            LogicalOp::Project { input, .. } => {
                assert(op_children(*op)[0] == *input);
                self.display_node(*input, depth + 1, out);
            },
            LogicalOp::Aggregate { input, .. } => {
                assert(op_children(*op)[0] == *input);
                self.display_node(*input, depth + 1, out);
            },
            LogicalOp::GroupBy { input, .. } => {
                assert(op_children(*op)[0] == *input);
                self.display_node(*input, depth + 1, out);
            },
            LogicalOp::Sort { input, .. } => {
                assert(op_children(*op)[0] == *input);
                self.display_node(*input, depth + 1, out);
            },
            LogicalOp::Limit { input, .. } => {
                assert(op_children(*op)[0] == *input);
                self.display_node(*input, depth + 1, out);
            },
            LogicalOp::Join { left, right, .. } => {
                assert(op_children(*op)[0] == *left);
                assert(op_children(*op)[1] == *right);
                self.display_node(*left, depth + 1, out);
                self.display_node(*right, depth + 1, out);
            },
            LogicalOp::Union { inputs } => {
                let ghost start = out@;
                let mut i: usize = 0;
                while i < inputs.len()
                    invariant
                        i <= inputs@.len(),
                        arena_wf(self.arena@),
                        a == self.arena@,
                        node.0 < a.len(),
                        depth + node.0 < usize::MAX,
                        forall|j: int| 0 <= j < inputs@.len() ==> (#[trigger] inputs@[j]).0 < node.0,
                        out@ == start + inputs_text(
                            a,
                            inputs@.subrange(0, i as int),
                            node.0 as nat,
                            (depth + 1) as nat,
                        ),
                    decreases inputs@.len() - i,
                {
                    proof {
                        assert(inputs@.subrange(0, i + 1).drop_last() =~= inputs@.subrange(
                            0,
                            i as int,
                        ));
                    }
                    let child = inputs[i];
                    self.display_node(child, depth + 1, out);
                    i += 1;
                }
                assert(inputs@.subrange(0, inputs@.len() as int) =~= inputs@);
            },
            LogicalOp::Scan { .. } => {},
            LogicalOp::Empty { .. } => {},
        }
        proof {
            let d = depth as nat;
            let m = node.0 as nat;
            match *op {
                LogicalOp::Filter { input, .. } => {
                    assert(single_child_text(a, input, m, d) == node_text(a, input.0 as nat, d + 1));
                },
                LogicalOp::Project { input, .. } => {
                    assert(single_child_text(a, input, m, d) == node_text(a, input.0 as nat, d + 1));
                },
                LogicalOp::Aggregate { input, .. } => {
                    assert(single_child_text(a, input, m, d) == node_text(a, input.0 as nat, d + 1));
                },
                LogicalOp::GroupBy { input, .. } => {
                    assert(single_child_text(a, input, m, d) == node_text(a, input.0 as nat, d + 1));
                },
                LogicalOp::Sort { input, .. } => {
                    assert(single_child_text(a, input, m, d) == node_text(a, input.0 as nat, d + 1));
                },
                LogicalOp::Limit { input, .. } => {
                    assert(single_child_text(a, input, m, d) == node_text(a, input.0 as nat, d + 1));
                },
                _ => {},
            }
            assert(out@ =~= line_start + node_text(a, m, d));
        }
    }
}

} // verus!
