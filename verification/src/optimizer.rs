//! Rule-based rewriting of logical plans.
//!
//! Each rule rewrites the plan by appending new nodes to its arena (existing
//! nodes never change) and signals whether it changed anything; the optimizer
//! applies its rules in a fixed-point loop until nothing changes.
use vstd::prelude::*;
use crate::arena::NodeId;
use crate::expr::{columns_of, expr_text, Expr, Literal, Operator};
use crate::logical_plan::{arena_wf, op_children, plan_wf, LogicalOp, LogicalPlan, SchemaRef, ScanSource};

verus! {

// ─── Outcomes of a rewrite ────────────────────────────────────────

/// A description of a node a rule appends.
pub enum NodeSpec {
    Scan {
        source: ScanSource,
        schema: SchemaRef,
        projection: Option<Seq<usize>>,
        limit: Option<usize>,
    },
    Filter { input: NodeId, predicate: Expr },
    Project { input: NodeId, columns: Seq<Seq<char>>, is_reorder_only: bool },
    Limit { input: NodeId, n: usize, offset: usize },
    Empty { schema: SchemaRef },
}

/// The character sequences of a list of strings.
pub open spec fn strs(v: Seq<String>) -> Seq<Seq<char>> {
    Seq::new(v.len(), |i: int| v[i]@)
}

/// An operator matches a description (lists compared by content).
pub open spec fn fits(op: LogicalOp, d: NodeSpec) -> bool {
    match d {
        NodeSpec::Scan { source, schema, projection, limit } => op matches LogicalOp::Scan {
            source: s2,
            schema: sc2,
            projection: p2,
            limit: l2,
        } && s2 == source && sc2 == schema && l2 == limit && match (projection, p2) {
            (None, None) => true,
            (Some(a), Some(b)) => b@ == a,
            _ => false,
        },
        NodeSpec::Filter { input, predicate } => op == LogicalOp::Filter { input, predicate },
        NodeSpec::Project { input, columns, is_reorder_only } => op matches LogicalOp::Project {
            input: i2,
            columns: c2,
            is_reorder_only: r2,
        } && i2 == input && strs(c2@) == columns && r2 == is_reorder_only,
        NodeSpec::Limit { input, n, offset } => op == LogicalOp::Limit { input, n, offset },
        NodeSpec::Empty { schema } => op == LogicalOp::Empty { schema },
    }
}

/// The ids a described node reads from.
pub open spec fn spec_children(d: NodeSpec) -> Seq<NodeId> {
    match d {
        NodeSpec::Scan { .. } => Seq::empty(),
        NodeSpec::Filter { input, .. } => seq![input],
        NodeSpec::Project { input, .. } => seq![input],
        NodeSpec::Limit { input, .. } => seq![input],
        NodeSpec::Empty { .. } => Seq::empty(),
    }
}

/// The id the `k`-th appended node gets in an arena of `len` nodes.
pub open spec fn appended_id(len: int, k: int) -> NodeId {
    NodeId((len + k) as u32)
}

/// `r` is what a rewrite of `old` with this outcome gives: unchanged, or the
/// old arena followed by nodes fitting the descriptions, rooted at the root given.
pub open spec fn rewrote_to(old: LogicalPlan, r: Transformed, outcome: Option<(Seq<NodeSpec>, NodeId)>) -> bool {
    match outcome {
        None => !r.changed && r.plan == old,
        Some((app, root)) => {
            &&& r.changed
            &&& r.plan.root == root
            &&& r.plan.arena@.len() == old.arena@.len() + app.len()
            &&& r.plan.arena@.subrange(0, old.arena@.len() as int) == old.arena@
            &&& forall|k: int|
                0 <= k < app.len() ==> fits(#[trigger] r.plan.arena@[old.arena@.len() + k], app[k])
        },
    }
}

/// Appended nodes read only earlier nodes, and the new root exists.
pub open spec fn outcome_wf(len: int, outcome: Option<(Seq<NodeSpec>, NodeId)>) -> bool {
    match outcome {
        None => true,
        Some((app, root)) => {
            &&& root.0 < len + app.len()
            &&& forall|k: int, j: int|
                0 <= k < app.len() && 0 <= j < spec_children(app[k]).len() ==> (#[trigger] spec_children(app[k])[j]).0 < len + k
        },
    }
}

/// The old arena is a prefix of the new one.
pub open spec fn extends(old: LogicalPlan, new: LogicalPlan) -> bool {
    &&& old.arena@.len() <= new.arena@.len()
    &&& new.arena@.subrange(0, old.arena@.len() as int) == old.arena@
}

/// What every rule promises: an unchanged plan is returned as it was, existing
/// nodes never change, and the result is well formed while ids fit in 32 bits.
pub open spec fn rule_contract(old: LogicalPlan, r: Transformed) -> bool {
    &&& !r.changed ==> r.plan == old
    &&& extends(old, r.plan)
    &&& r.plan.arena@.len() <= u32::MAX ==> plan_wf(r.plan)
}

// ─── Plans by content ─────────────────────────────────────────────

/// An operator by content: the lists a scan or projection holds are taken
/// by their elements; every other operator is kept as it is.
pub enum OpView {
    Scan { source: ScanSource, schema: SchemaRef, projection: Option<Seq<usize>>, limit: Option<usize> },
    Project { input: NodeId, columns: Seq<Seq<char>>, is_reorder_only: bool },
    Other(LogicalOp),
}

/// The content of an operator.
pub open spec fn op_view(op: LogicalOp) -> OpView {
    match op {
        LogicalOp::Scan { source, schema, projection, limit } => OpView::Scan {
            source,
            schema,
            projection: projection_view(projection),
            limit,
        },
        LogicalOp::Project { input, columns, is_reorder_only } => OpView::Project {
            input,
            columns: strs(columns@),
            is_reorder_only,
        },
        _ => OpView::Other(op),
    }
}

/// The content of a described node.
pub open spec fn node_view(d: NodeSpec) -> OpView {
    match d {
        NodeSpec::Scan { source, schema, projection, limit } => OpView::Scan { source, schema, projection, limit },
        NodeSpec::Project { input, columns, is_reorder_only } => OpView::Project { input, columns, is_reorder_only },
        NodeSpec::Filter { input, predicate } => OpView::Other(LogicalOp::Filter { input, predicate }),
        NodeSpec::Limit { input, n, offset } => OpView::Other(LogicalOp::Limit { input, n, offset }),
        NodeSpec::Empty { schema } => OpView::Other(LogicalOp::Empty { schema }),
    }
}

/// The contents of a sequence of operators.
pub open spec fn ops_content(a: Seq<LogicalOp>) -> Seq<OpView> {
    a.map_values(|op: LogicalOp| op_view(op))
}

/// A plan by content: its operators by content and its root.
pub struct PlanView {
    pub nodes: Seq<OpView>,
    pub root: NodeId,
}

/// The content of a plan.
pub open spec fn plan_view(p: LogicalPlan) -> PlanView {
    PlanView { nodes: ops_content(p.arena@), root: p.root }
}

/// The plan content a rewrite with this outcome gives, and whether it changed.
pub open spec fn apply_outcome(v: PlanView, outcome: Option<(Seq<NodeSpec>, NodeId)>) -> (bool, PlanView) {
    match outcome {
        None => (false, v),
        Some((app, root)) => (true, PlanView { nodes: v.nodes + app.map_values(|d: NodeSpec| node_view(d)), root }),
    }
}

/// Operators with the given contents (when there are such).
pub open spec fn ops_with(nodes: Seq<OpView>) -> Seq<LogicalOp> {
    choose|a: Seq<LogicalOp>| #[trigger] ops_content(a) == nodes
}

/// Two arenas with the same contents.
pub open spec fn same_content(a: Seq<LogicalOp>, b: Seq<LogicalOp>) -> bool {
    &&& a.len() == b.len()
    &&& forall|i: int| 0 <= i < a.len() ==> op_view(#[trigger] a[i]) == op_view(b[i])
}

proof fn lemma_fits_view(op: LogicalOp, d: NodeSpec)
    requires
        fits(op, d),
    ensures
        op_view(op) == node_view(d),
{
}

/// The operators `ops_with` picks for a plan's contents have those contents.
proof fn lemma_ops_with(p: LogicalPlan)
    ensures
        same_content(ops_with(plan_view(p).nodes), p.arena@),
{
    let nodes = plan_view(p).nodes;
    assert(ops_content(p.arena@) == nodes);
    let a = ops_with(nodes);
    assert(ops_content(a) == nodes);
    assert forall|i: int| 0 <= i < a.len() implies op_view(#[trigger] a[i]) == op_view(p.arena@[i]) by {
        assert(ops_content(a)[i] == nodes[i]);
    }
}

/// A rewrite that an outcome describes has the content `apply_outcome` gives.
proof fn lemma_rewrote_to_view(old: LogicalPlan, r: Transformed, outcome: Option<(Seq<NodeSpec>, NodeId)>)
    requires
        rewrote_to(old, r, outcome),
    ensures
        (r.changed, plan_view(r.plan)) == apply_outcome(plan_view(old), outcome),
{
    match outcome {
        None => {},
        Some((app, root)) => {
            let n = old.arena@.len() as int;
            let lhs = plan_view(r.plan).nodes;
            let rhs = plan_view(old).nodes + app.map_values(|d: NodeSpec| node_view(d));
            assert forall|i: int| 0 <= i < lhs.len() implies lhs[i] == rhs[i] by {
                if i < n {
                    assert(r.plan.arena@[i] == r.plan.arena@.subrange(0, n)[i]);
                } else {
                    let k = i - n;
                    assert(fits(r.plan.arena@[n + k], app[k]));
                    lemma_fits_view(r.plan.arena@[i], app[k]);
                }
            }
            assert(lhs =~= rhs);
        },
    }
}

proof fn lemma_extends_trans(a: LogicalPlan, b: LogicalPlan, c: LogicalPlan)
    requires
        extends(a, b),
        extends(b, c),
    ensures
        extends(a, c),
{
    assert(c.arena@.subrange(0, a.arena@.len() as int) =~= c.arena@.subrange(
        0,
        b.arena@.len() as int,
    ).subrange(0, a.arena@.len() as int));
}

proof fn lemma_extends_refl(a: LogicalPlan)
    ensures
        extends(a, a),
{
    assert(a.arena@.subrange(0, a.arena@.len() as int) =~= a.arena@);
}

proof fn lemma_fits_children(op: LogicalOp, d: NodeSpec)
    requires
        fits(op, d),
    ensures
        op_children(op) == spec_children(d),
{
}

/// A rewrite whose appended nodes read only earlier nodes keeps the arena well formed.
proof fn lemma_rewrite_keeps_wf(old: LogicalPlan, r: Transformed, outcome: Option<(Seq<NodeSpec>, NodeId)>)
    requires
        arena_wf(old.arena@),
        old.root.0 < old.arena@.len(),
        rewrote_to(old, r, outcome),
        r.plan.arena@.len() <= u32::MAX ==> outcome_wf(old.arena@.len() as int, outcome),
    ensures
        rule_contract(old, r),
{
    assert(old.arena@.subrange(0, old.arena@.len() as int) =~= old.arena@);
    match outcome {
        None => {},
        Some((app, root)) => {
            let a = old.arena@;
            let b = r.plan.arena@;
            if b.len() <= u32::MAX {
                assert forall|i: int, j: int|
                    0 <= i < b.len() && 0 <= j < op_children(b[i]).len() implies (#[trigger] op_children(b[i])[j]).0 < i by {
                    if i < a.len() {
                        assert(b[i] == b.subrange(0, a.len() as int)[i]);
                    } else {
                        let k = i - a.len();
                        assert(fits(b[a.len() + k], app[k]));
                        lemma_fits_children(b[i], app[k]);
                        assert(spec_children(app[k])[j] == op_children(b[i])[j]);
                    }
                }
            }
        },
    }
}

/// Operators at two positions of arenas with the same contents agree.
proof fn lemma_same_at(a: Seq<LogicalOp>, b: Seq<LogicalOp>, i: int)
    requires
        same_content(a, b),
        0 <= i < a.len(),
    ensures
        op_view(a[i]) == op_view(b[i]),
        !(a[i] is Scan) && !(a[i] is Project) ==> a[i] == b[i],
        a[i] is Scan <==> b[i] is Scan,
        a[i] is Project <==> b[i] is Project,
{
}

/// EliminateFilter sees only the contents of the arena.
proof fn lemma_eliminate_filter_same(a: Seq<LogicalOp>, b: Seq<LogicalOp>, node: nat)
    requires
        same_content(a, b),
    ensures
        eliminate_filter_at(a, node) == eliminate_filter_at(b, node),
    decreases node,
{
    if node < a.len() {
        lemma_same_at(a, b, node as int);
        if let LogicalOp::Filter { input, .. } = a[node as int] {
            if input.0 < a.len() {
                lemma_same_at(a, b, input.0 as int);
            }
            if input.0 < node {
                lemma_eliminate_filter_same(a, b, input.0 as nat);
            }
        }
    }
}

/// SimplifyExpressions sees only the contents of the arena.
proof fn lemma_simplify_same(a: Seq<LogicalOp>, b: Seq<LogicalOp>, node: nat)
    requires
        same_content(a, b),
    ensures
        simplify_at(a, node) == simplify_at(b, node),
    decreases node,
{
    if node < a.len() {
        lemma_same_at(a, b, node as int);
        if let LogicalOp::Filter { input, .. } = a[node as int] {
            if input.0 < node {
                lemma_simplify_same(a, b, input.0 as nat);
            }
        }
    }
}

/// PushDownFilter sees only the contents of the arena.
proof fn lemma_push_filter_same(a: Seq<LogicalOp>, b: Seq<LogicalOp>, node: nat)
    requires
        same_content(a, b),
    ensures
        push_filter_at(a, node) == push_filter_at(b, node),
    decreases node,
{
    if node < a.len() {
        lemma_same_at(a, b, node as int);
        if let LogicalOp::Filter { input, .. } = a[node as int] {
            if input.0 < a.len() {
                lemma_same_at(a, b, input.0 as int);
            }
            if input.0 < node {
                lemma_push_filter_same(a, b, input.0 as nat);
            }
        }
    }
}

/// PushDownProjection sees only the contents of the arena.
proof fn lemma_push_projection_same(a: Seq<LogicalOp>, b: Seq<LogicalOp>, node: nat)
    requires
        same_content(a, b),
    ensures
        push_projection_at(a, node) == push_projection_at(b, node),
{
    if node < a.len() {
        lemma_same_at(a, b, node as int);
        if let LogicalOp::Project { input, columns, .. } = a[node as int] {
            if input.0 < a.len() {
                lemma_same_at(a, b, input.0 as int);
                assert(strs(columns@).len() == columns@.len());
                assert(strs(b[node as int]->Project_columns@).len() == b[node as int]->Project_columns@.len());
            }
        }
    }
}

/// PushDownLimit sees only the contents of the arena.
proof fn lemma_push_limit_same(a: Seq<LogicalOp>, b: Seq<LogicalOp>, node: nat)
    requires
        same_content(a, b),
    ensures
        push_limit_at(a, node) == push_limit_at(b, node),
{
    if node < a.len() {
        lemma_same_at(a, b, node as int);
        if let LogicalOp::Limit { input, .. } = a[node as int] {
            if input.0 < a.len() {
                lemma_same_at(a, b, input.0 as int);
            }
        }
    }
}

/// PropagateEmptyRelation sees only the contents of the arena.
proof fn lemma_propagate_empty_same(a: Seq<LogicalOp>, b: Seq<LogicalOp>, node: nat)
    requires
        same_content(a, b),
    ensures
        propagate_empty_at(a, node) == propagate_empty_at(b, node),
{
    if node < a.len() {
        lemma_same_at(a, b, node as int);
        match a[node as int] {
            LogicalOp::Filter { input, .. } => {
                if input.0 < a.len() {
                    lemma_same_at(a, b, input.0 as int);
                }
            },
            LogicalOp::Project { input, .. } => {
                if input.0 < a.len() {
                    lemma_same_at(a, b, input.0 as int);
                }
            },
            LogicalOp::Limit { input, .. } => {
                if input.0 < a.len() {
                    lemma_same_at(a, b, input.0 as int);
                }
            },
            _ => {},
        }
    }
}

// ─── Rule interface ───────────────────────────────────────────────

/// Result of applying an optimization rule.
#[derive(Debug)]
pub struct Transformed {
    /// Whether the plan was changed.
    pub changed: bool,
    /// The (possibly modified) plan.
    pub plan: LogicalPlan,
}

impl Transformed {
    /// Plan was modified.
    pub fn yes(plan: LogicalPlan) -> (r: Self)
        ensures
            r.changed,
            r.plan == plan,
    {
        Transformed { changed: true, plan }
    }

    /// Plan was not modified.
    pub fn no(plan: LogicalPlan) -> (r: Self)
        ensures
            !r.changed,
            r.plan == plan,
    {
        Transformed { changed: false, plan }
    }
}

/// Order in which to traverse the plan tree.
#[derive(Debug, Clone, Copy, PartialEq, Eq, Structural)]
pub enum ApplyOrder {
    /// Visit parent before children.
    TopDown,
    /// Visit children before parent.
    BottomUp,
}

/// A single optimizer rule that rewrites a logical plan.
pub trait OptimizerRule {
    /// The rule's name.
    spec fn rule_name(&self) -> Seq<char>;

    /// Human-readable name for debugging.
    fn name(&self) -> (r: &str)
        ensures
            r@ == self.rule_name(),
    ;

    /// The traversal order this rule asks for.
    spec fn traversal_order(&self) -> ApplyOrder;

    /// Whether to apply top-down (parent first) or bottom-up (children first).
    fn apply_order(&self) -> (r: ApplyOrder)
        ensures
            r == self.traversal_order(),
    ;

    /// What the rule makes of a plan's contents: whether it changes the
    /// plan, and the contents of the plan it gives.
    spec fn rewrite_view(&self, v: PlanView) -> (bool, PlanView);

    /// Apply this rule to the plan, returning whether changes were made.
    fn rewrite(&self, plan: LogicalPlan) -> (r: Transformed)
        requires
            plan_wf(plan),
        ensures
            rule_contract(plan, r),
            (r.changed, plan_view(r.plan)) == self.rewrite_view(plan_view(plan)),
    ;
}

/// One round from rule `k` on: each rule rewrites the contents the previous
/// one gave, and `changed` records whether any rule reported a change. The
/// round ends early once a plan has more nodes than 32-bit ids can name.
/// Gives whether anything changed, the contents reached, and whether the
/// round ended early.
pub open spec fn round_from(rules: Seq<spec_fn(PlanView) -> (bool, PlanView)>, k: nat, v: PlanView, changed: bool) -> (
    bool,
    PlanView,
    bool,
)
    decreases rules.len() - k,
{
    if k >= rules.len() {
        (changed, v, false)
    } else {
        let (c, w) = (rules[k as int])(v);
        if w.nodes.len() > u32::MAX {
            (changed || c, w, true)
        } else {
            round_from(rules, k + 1, w, changed || c)
        }
    }
}

/// At most `rounds` rounds of the rules on `v`, stopping after a round in
/// which no rule reported a change or which ended early.
pub open spec fn optimized(rules: Seq<spec_fn(PlanView) -> (bool, PlanView)>, v: PlanView, rounds: nat) -> PlanView
    decreases rounds,
{
    if rounds == 0 {
        v
    } else {
        let (c, w, early) = round_from(rules, 0, v, false);
        if early || !c {
            w
        } else {
            optimized(rules, w, (rounds - 1) as nat)
        }
    }
}

/// Names of the built-in rules, in their default order.
pub open spec fn default_rule_name(k: int) -> Seq<char> {
    if k == 0 {
        "eliminate_filter"@
    } else if k == 1 {
        "simplify_expressions"@
    } else if k == 2 {
        "push_down_filter"@
    } else if k == 3 {
        "push_down_projection"@
    } else if k == 4 {
        "push_down_limit"@
    } else if k == 5 {
        "eliminate_limit"@
    } else if k == 6 {
        "propagate_empty"@
    } else {
        "common_subexpr_eliminate"@
    }
}

/// What the built-in rule at position `k` of the default order makes of a
/// plan's contents.
pub open spec fn default_rule_view(k: int, v: PlanView) -> (bool, PlanView) {
    if k == 0 {
        EliminateFilter.rewrite_view(v)
    } else if k == 1 {
        SimplifyExpressions.rewrite_view(v)
    } else if k == 2 {
        PushDownFilter.rewrite_view(v)
    } else if k == 3 {
        PushDownProjection.rewrite_view(v)
    } else if k == 4 {
        PushDownLimit.rewrite_view(v)
    } else if k == 5 {
        EliminateLimit.rewrite_view(v)
    } else if k == 6 {
        PropagateEmptyRelation.rewrite_view(v)
    } else {
        CommonSubexprEliminate.rewrite_view(v)
    }
}

/// Applies the built-in rule at position `k` of the default order.
fn apply_default_rule(k: usize, plan: LogicalPlan) -> (r: Transformed)
    requires
        k < 8,
        plan_wf(plan),
    ensures
        rule_contract(plan, r),
        (r.changed, plan_view(r.plan)) == default_rule_view(k as int, plan_view(plan)),
{
    if k == 0 {
        EliminateFilter.rewrite(plan)
    } else if k == 1 {
        SimplifyExpressions.rewrite(plan)
    } else if k == 2 {
        PushDownFilter.rewrite(plan)
    } else if k == 3 {
        PushDownProjection.rewrite(plan)
    } else if k == 4 {
        PushDownLimit.rewrite(plan)
    } else if k == 5 {
        EliminateLimit.rewrite(plan)
    } else if k == 6 {
        PropagateEmptyRelation.rewrite(plan)
    } else {
        CommonSubexprEliminate.rewrite(plan)
    }
}

/// The name of the built-in rule at position `k` of the default order.
fn default_rule_name_of(k: usize) -> (r: &'static str)
    requires
        k < 8,
    ensures
        r@ == default_rule_name(k as int),
{
    if k == 0 {
        EliminateFilter.name()
    } else if k == 1 {
        SimplifyExpressions.name()
    } else if k == 2 {
        PushDownFilter.name()
    } else if k == 3 {
        PushDownProjection.name()
    } else if k == 4 {
        PushDownLimit.name()
    } else if k == 5 {
        EliminateLimit.name()
    } else if k == 6 {
        PropagateEmptyRelation.name()
    } else {
        CommonSubexprEliminate.name()
    }
}

/// The query optimizer — applies a sequence of rules to a logical plan.
pub struct Optimizer {
    rules: Vec<Box<dyn OptimizerRule>>,
    /// The eight built-in rules, in their default order, stand in place of
    /// `rules` (held this way so that which rules run is known).
    builtin: bool,
    /// Maximum number of iterations for the fixed-point loop.
    max_iterations: usize,
}

impl Optimizer {
    /// Create an optimizer with the given rules (at most ten rounds).
    pub fn new(rules: Vec<Box<dyn OptimizerRule>>) -> (r: Self)
        ensures
            r.rule_count() == rules@.len(),
            forall|k: int| 0 <= k < rules@.len() ==> r.rule_name_at(k) == (#[trigger] rules@[k]).rule_name(),
            forall|k: int, v: PlanView| 0 <= k < rules@.len() ==> #[trigger] r.rule_view_at(k, v) == rules@[k].rewrite_view(v),
            r.max_rounds() == 10,
    {
        Optimizer { rules, builtin: false, max_iterations: 10 }
    }

    /// What the rule at position `k` makes of a plan's contents.
    pub closed spec fn rule_view_at(self, k: int, v: PlanView) -> (bool, PlanView) {
        if self.builtin {
            default_rule_view(k, v)
        } else {
            self.rules@[k].rewrite_view(v)
        }
    }

    /// The rules as what each makes of a plan's contents, in the order they
    /// are applied.
    pub open spec fn rule_views(self) -> Seq<spec_fn(PlanView) -> (bool, PlanView)> {
        Seq::new(self.rule_count(), |k: int| |v: PlanView| self.rule_view_at(k, v))
    }

    /// Number of rules.
    pub closed spec fn rule_count(self) -> nat {
        if self.builtin {
            8
        } else {
            self.rules@.len()
        }
    }

    /// Name of the rule at position `k`.
    pub closed spec fn rule_name_at(self, k: int) -> Seq<char> {
        if self.builtin {
            default_rule_name(k)
        } else {
            self.rules@[k].rule_name()
        }
    }

    /// Maximum number of rounds.
    pub closed spec fn max_rounds(self) -> usize {
        self.max_iterations
    }

    /// The number of rules.
    fn rule_len(&self) -> (r: usize)
        ensures
            r == self.rule_count(),
    {
        if self.builtin {
            8
        } else {
            self.rules.len()
        }
    }

    /// Applies the rule at position `k`.
    fn apply_rule(&self, k: usize, plan: LogicalPlan) -> (r: Transformed)
        requires
            k < self.rule_count(),
            plan_wf(plan),
        ensures
            rule_contract(plan, r),
            (r.changed, plan_view(r.plan)) == self.rule_view_at(k as int, plan_view(plan)),
    {
        if self.builtin {
            apply_default_rule(k, plan)
        } else {
            self.rules[k].rewrite(plan)
        }
    }

    /// Set the maximum number of fixed-point iterations.
    pub fn with_max_iterations(self, max: usize) -> (r: Self)
        ensures
            r.rule_count() == self.rule_count(),
            forall|k: int| #[trigger] r.rule_name_at(k) == self.rule_name_at(k),
            forall|k: int, v: PlanView| #[trigger] r.rule_view_at(k, v) == self.rule_view_at(k, v),
            r.max_rounds() == max,
    {
        let mut o = self;
        o.max_iterations = max;
        o
    }

    /// Optimize a logical plan by applying all rules until convergence: in
    /// each round every rule rewrites, in order, the plan the previous one
    /// gave; rounds stop after one in which no rule changed the plan, or after
    /// the maximum. (A plan too large for 32-bit node ids is returned at once.)
    pub fn optimize(&self, plan: LogicalPlan) -> (r: LogicalPlan)
        requires
            plan_wf(plan),
        ensures
            plan_view(r) == optimized(self.rule_views(), plan_view(plan), self.max_rounds() as nat),
            extends(plan, r),
            r.arena@.len() <= u32::MAX ==> plan_wf(r),
    {
        let ghost start = plan;
        let ghost rules = self.rule_views();
        let ghost goal = optimized(rules, plan_view(plan), self.max_iterations as nat);
        let mut cur = plan;
        proof {
            lemma_extends_refl(cur);
        }
        let mut iteration: usize = 0;
        while iteration < self.max_iterations
            invariant_except_break
                optimized(rules, plan_view(cur), (self.max_iterations - iteration) as nat) == goal,
            invariant
                start == plan,
                rules == self.rule_views(),
                goal == optimized(rules, plan_view(start), self.max_iterations as nat),
                iteration <= self.max_iterations,
                extends(start, cur),
                plan_wf(cur),
            ensures
                plan_view(cur) == goal,
            decreases self.max_iterations - iteration,
        {
            let ghost round_start = cur;
            let mut any_changed = false;
            let mut k: usize = 0;
            let count = self.rule_len();
            while k < count
                invariant
                    start == plan,
                    rules == self.rule_views(),
                    count == rules.len(),
                    goal == optimized(rules, plan_view(start), self.max_iterations as nat),
                    iteration < self.max_iterations,
                    optimized(rules, plan_view(round_start), (self.max_iterations - iteration) as nat) == goal,
                    k <= rules.len(),
                    round_from(rules, k as nat, plan_view(cur), any_changed) == round_from(
                        rules,
                        0,
                        plan_view(round_start),
                        false,
                    ),
                    extends(start, cur),
                    plan_wf(cur),
                decreases rules.len() - k,
            {
                let ghost before = cur;
                let ghost before_changed = any_changed;
                let result = self.apply_rule(k, cur);
                if result.changed {
                    any_changed = true;
                }
                cur = result.plan;
                proof {
                    lemma_extends_trans(start, before, cur);
                    assert((rules[k as int])(plan_view(before)) == (result.changed, plan_view(cur)));
                    assert(any_changed == (before_changed || result.changed));
                    assert(plan_view(cur).nodes.len() == cur.arena@.len());
                }
                if cur.arena.len() > 0xffff_ffff {
                    proof {
                        assert(round_from(rules, k as nat, plan_view(before), before_changed) == (any_changed, plan_view(cur), true));
                        assert(round_from(rules, 0, plan_view(round_start), false) == (any_changed, plan_view(cur), true));
                        assert((self.max_iterations - iteration) as nat >= 1);
                    }
                    return cur;
                }
                k += 1;
            }
            proof {
                let left = (self.max_iterations - iteration) as nat;
                assert(round_from(rules, 0, plan_view(round_start), false) == (any_changed, plan_view(cur), false));
                assert(left >= 1);
                assert(optimized(rules, plan_view(round_start), left) == if !any_changed {
                    plan_view(cur)
                } else {
                    optimized(rules, plan_view(cur), (left - 1) as nat)
                });
            }
            if !any_changed {
                break;
            }
            iteration += 1;
        }
        cur
    }

    /// List all rule names (for debugging).
    pub fn rule_names(&self) -> (r: Vec<&str>)
        ensures
            r@.len() == self.rule_count(),
            forall|k: int| 0 <= k < r@.len() ==> (#[trigger] r@[k])@ == self.rule_name_at(k),
    {
        let mut names: Vec<&str> = Vec::new();
        let count = self.rule_len();
        let mut k: usize = 0;
        while k < count
            invariant
                count == self.rule_count(),
                k <= count,
                names@.len() == k,
                forall|j: int| 0 <= j < k ==> (#[trigger] names@[j])@ == self.rule_name_at(j),
            decreases count - k,
        {
            if self.builtin {
                names.push(default_rule_name_of(k));
            } else {
                names.push(self.rules[k].name());
            }
            k += 1;
        }
        names
    }
}

// ─── Expression simplification ────────────────────────────────────

/// `a op b` on 64-bit integers; the boolean connectives give false.
pub open spec fn int_compare(a: i64, op: Operator, b: i64) -> bool {
    match op {
        Operator::Eq => a == b,
        Operator::Ne => a != b,
        Operator::Lt => a < b,
        Operator::Le => a <= b,
        Operator::Gt => a > b,
        Operator::Ge => a >= b,
        _ => false,
    }
}

/// The bit pattern is a NaN: all exponent bits set and a nonzero fraction.
pub open spec fn is_nan_bits(b: u64) -> bool {
    (b >> 52) & 0x7ff == 0x7ff && b & 0x000f_ffff_ffff_ffff != 0
}

/// The position of a non-NaN IEEE-754 double on the number line, as an
/// integer key: the magnitude bits, negated for negative values (so both
/// zeros meet at 0).
pub open spec fn order_key(b: u64) -> int {
    let mag = (b & 0x7fff_ffff_ffff_ffff) as int;
    if b >> 63 == 1 {
        -mag
    } else {
        mag
    }
}

/// IEEE-754 comparison of two doubles given by their bits: every comparison
/// with a NaN is false except `!=`; the connectives give false.
pub open spec fn float_compare(a: u64, op: Operator, b: u64) -> bool {
    let unordered = is_nan_bits(a) || is_nan_bits(b);
    match op {
        Operator::Eq => !unordered && order_key(a) == order_key(b),
        Operator::Ne => unordered || order_key(a) != order_key(b),
        Operator::Lt => !unordered && order_key(a) < order_key(b),
        Operator::Le => !unordered && order_key(a) <= order_key(b),
        Operator::Gt => !unordered && order_key(a) > order_key(b),
        Operator::Ge => !unordered && order_key(a) >= order_key(b),
        _ => false,
    }
}

/// Evaluates `a op b` on 64-bit integers.
pub fn eval_int_comparison(a: i64, op: Operator, b: i64) -> (r: bool)
    ensures
        r == int_compare(a, op, b),
{
    match op {
        Operator::Eq => a == b,
        Operator::Ne => a != b,
        Operator::Lt => a < b,
        Operator::Le => a <= b,
        Operator::Gt => a > b,
        Operator::Ge => a >= b,
        _ => false,
    }
}

fn is_nan(b: u64) -> (r: bool)
    ensures
        r == is_nan_bits(b),
{
    (b >> 52) & 0x7ff == 0x7ff && b & 0x000f_ffff_ffff_ffff != 0
}

fn key(b: u64) -> (r: i64)
    ensures
        r == order_key(b),
{
    let mag = b & 0x7fff_ffff_ffff_ffff;
    assert(mag <= 0x7fff_ffff_ffff_ffff) by (bit_vector)
        requires
            mag == b & 0x7fff_ffff_ffff_ffff,
    ;
    if b >> 63 == 1 {
        -(mag as i64)
    } else {
        mag as i64
    }
}

/// Evaluates `a op b` on two doubles given by their IEEE-754 bits.
pub fn eval_float_comparison(a: u64, op: Operator, b: u64) -> (r: bool)
    ensures
        r == float_compare(a, op, b),
{
    let unordered = is_nan(a) || is_nan(b);
    let ka = key(a);
    let kb = key(b);
    match op {
        Operator::Eq => !unordered && ka == kb,
        Operator::Ne => unordered || ka != kb,
        Operator::Lt => !unordered && ka < kb,
        Operator::Le => !unordered && ka <= kb,
        Operator::Gt => !unordered && ka > kb,
        Operator::Ge => !unordered && ka >= kb,
        _ => false,
    }
}

/// A boolean literal of the given value.
pub open spec fn is_bool_lit(e: Expr, v: bool) -> bool {
    e == Expr::Literal(Literal::Bool(v))
}

/// One step of simplification of `sl op sr`, whose operands are already simplified.
pub open spec fn simplify_binary(op: Operator, sl: Expr, sr: Expr) -> Expr {
    if op == Operator::And && is_bool_lit(sr, true) {
        sl
    } else if op == Operator::And && is_bool_lit(sl, true) {
        sr
    } else if op == Operator::And && is_bool_lit(sr, false) {
        Expr::Literal(Literal::Bool(false))
    } else if op == Operator::And && is_bool_lit(sl, false) {
        Expr::Literal(Literal::Bool(false))
    } else if op == Operator::Or && is_bool_lit(sr, true) {
        Expr::Literal(Literal::Bool(true))
    } else if op == Operator::Or && is_bool_lit(sl, true) {
        Expr::Literal(Literal::Bool(true))
    } else if op == Operator::Or && is_bool_lit(sr, false) {
        sl
    } else if op == Operator::Or && is_bool_lit(sl, false) {
        sr
    } else if sl matches Expr::Literal(Literal::Int64(a)) && sr matches Expr::Literal(
        Literal::Int64(b),
    ) {
        Expr::Literal(Literal::Bool(int_compare(sl->Literal_0->Int64_0, op, sr->Literal_0->Int64_0)))
    } else if sl matches Expr::Literal(Literal::Float64(a)) && sr matches Expr::Literal(
        Literal::Float64(b),
    ) {
        Expr::Literal(
            Literal::Bool(
                float_compare(sl->Literal_0->Float64_0.bits, op, sr->Literal_0->Float64_0.bits),
            ),
        )
    } else if sl is Literal && sr is Column && (op == Operator::Gt || op == Operator::Ge || op
        == Operator::Lt || op == Operator::Le) {
        Expr::BinaryOp { left: Box::new(sr), op: flipped(op), right: Box::new(sl) }
    } else {
        Expr::BinaryOp { left: Box::new(sl), op, right: Box::new(sr) }
    }
}

/// The mirrored comparison: `a op b` is `b flipped(op) a`.
pub open spec fn flipped(op: Operator) -> Operator {
    match op {
        Operator::Gt => Operator::Lt,
        Operator::Ge => Operator::Le,
        Operator::Lt => Operator::Gt,
        Operator::Le => Operator::Ge,
        _ => op,
    }
}

/// The simplified form of an expression: `NOT NOT x` becomes `x`, boolean
/// literals absorb or vanish in `AND`/`OR`, comparisons of two integer or two
/// float literals are folded, and a literal compared with a column moves right.
pub open spec fn simplified(e: Expr) -> Expr
    decreases e,
{
    match e {
        Expr::Not(inner) => match simplified(*inner) {
            Expr::Not(x) => *x,
            other => Expr::Not(Box::new(other)),
        },
        Expr::BinaryOp { left, op, right } => simplify_binary(op, simplified(*left), simplified(*right)),
        _ => e,
    }
}

fn bool_lit_value(e: &Expr) -> (r: Option<bool>)
    ensures
        match r {
            Some(v) => is_bool_lit(*e, v),
            None => !is_bool_lit(*e, true) && !is_bool_lit(*e, false),
        },
{
    match e {
        Expr::Literal(Literal::Bool(v)) => Some(*v),
        _ => None,
    }
}

/// Simplify an expression (constant folding, boolean algebra).
pub fn simplify_expr(expr: &Expr) -> (r: Expr)
    ensures
        r == simplified(*expr),
    decreases *expr,
{
    match expr {
        Expr::Not(inner) => {
            let si = simplify_expr(inner);
            match si {
                Expr::Not(x) => *x,
                other => Expr::Not(Box::new(other)),
            }
        },
        Expr::BinaryOp { left, op, right } => {
            let sl = simplify_expr(left);
            let sr = simplify_expr(right);
            let op = *op;
            let lb = bool_lit_value(&sl);
            let rb = bool_lit_value(&sr);
            if op == Operator::And && rb == Some(true) {
                return sl;
            }
            if op == Operator::And && lb == Some(true) {
                return sr;
            }
            if op == Operator::And && rb == Some(false) {
                return Expr::Literal(Literal::Bool(false));
            }
            if op == Operator::And && lb == Some(false) {
                return Expr::Literal(Literal::Bool(false));
            }
            if op == Operator::Or && rb == Some(true) {
                return Expr::Literal(Literal::Bool(true));
            }
            if op == Operator::Or && lb == Some(true) {
                return Expr::Literal(Literal::Bool(true));
            }
            if op == Operator::Or && rb == Some(false) {
                return sl;
            }
            if op == Operator::Or && lb == Some(false) {
                return sr;
            }
            match (&sl, &sr) {
                (Expr::Literal(Literal::Int64(a)), Expr::Literal(Literal::Int64(b))) => {
                    return Expr::Literal(Literal::Bool(eval_int_comparison(*a, op, *b)));
                },
                (Expr::Literal(Literal::Float64(a)), Expr::Literal(Literal::Float64(b))) => {
                    return Expr::Literal(Literal::Bool(eval_float_comparison(a.bits, op, b.bits)));
                },
                _ => {},
            }
            let lit_col = matches!(sl, Expr::Literal(_)) && matches!(sr, Expr::Column(_));
            if lit_col && op == Operator::Gt {
                return Expr::BinaryOp { left: Box::new(sr), op: Operator::Lt, right: Box::new(sl) };
            }
            if lit_col && op == Operator::Ge {
                return Expr::BinaryOp { left: Box::new(sr), op: Operator::Le, right: Box::new(sl) };
            }
            if lit_col && op == Operator::Lt {
                return Expr::BinaryOp { left: Box::new(sr), op: Operator::Gt, right: Box::new(sl) };
            }
            if lit_col && op == Operator::Le {
                return Expr::BinaryOp { left: Box::new(sr), op: Operator::Ge, right: Box::new(sl) };
            }
            Expr::BinaryOp { left: Box::new(sl), op, right: Box::new(sr) }
        },
        _ => expr.copy(),
    }
}

/// Whether two expressions display alike.
pub fn exprs_equal(a: &Expr, b: &Expr) -> (r: bool)
    ensures
        r == (expr_text(*a) == expr_text(*b)),
{
    let sa = a.to_string();
    let sb = b.to_string();
    crate::text::str_eq(sa.as_str(), sb.as_str())
}

/// Simplification reads no column the expression did not read.
pub proof fn lemma_simplify_columns(e: Expr)
    ensures
        columns_of(simplified(e)).subset_of(columns_of(e)),
    decreases e,
{
    match e {
        Expr::Not(inner) => {
            lemma_simplify_columns(*inner);
        },
        Expr::BinaryOp { left, op, right } => {
            lemma_simplify_columns(*left);
            lemma_simplify_columns(*right);
        },
        _ => {},
    }
}

/// No `NOT` directly wraps another `NOT` in a simplified expression.
pub open spec fn no_double_not(e: Expr) -> bool
    decreases e,
{
    match e {
        Expr::Not(inner) => !(*inner is Not) && no_double_not(*inner),
        Expr::BinaryOp { left, op: _, right } => no_double_not(*left) && no_double_not(*right),
        _ => true,
    }
}

/// After simplification no `NOT` directly wraps another `NOT`.
pub proof fn lemma_simplify_removes_double_not(e: Expr)
    ensures
        no_double_not(simplified(e)),
    decreases e,
{
    match e {
        Expr::Not(inner) => {
            lemma_simplify_removes_double_not(*inner);
        },
        Expr::BinaryOp { left, op, right } => {
            lemma_simplify_removes_double_not(*left);
            lemma_simplify_removes_double_not(*right);
        },
        _ => {},
    }
}

/// The expression is already in simplified form at every level.
pub open spec fn is_simplified(e: Expr) -> bool
    decreases e,
{
    match e {
        Expr::Not(inner) => !(*inner is Not) && is_simplified(*inner),
        Expr::BinaryOp { left, op, right } => is_simplified(*left) && is_simplified(*right) && simplify_binary(
            op,
            *left,
            *right,
        ) == e,
        _ => true,
    }
}

/// An expression in simplified form is left as it is.
proof fn lemma_simplified_form_fixed(e: Expr)
    requires
        is_simplified(e),
    ensures
        simplified(e) == e,
    decreases e,
{
    match e {
        Expr::Not(inner) => {
            lemma_simplified_form_fixed(*inner);
        },
        Expr::BinaryOp { left, op, right } => {
            lemma_simplified_form_fixed(*left);
            lemma_simplified_form_fixed(*right);
        },
        _ => {},
    }
}

/// Combining two simplified operands gives a simplified expression.
proof fn lemma_simplify_binary_form(op: Operator, l: Expr, r: Expr)
    requires
        is_simplified(l),
        is_simplified(r),
    ensures
        is_simplified(simplify_binary(op, l, r)),
{
    let out = simplify_binary(op, l, r);
    match out {
        Expr::BinaryOp { left, op: o, right } => {
            assert(simplify_binary(o, *left, *right) == out);
        },
        _ => {},
    }
}

/// Simplification gives an expression in simplified form.
proof fn lemma_simplified_form(e: Expr)
    ensures
        is_simplified(simplified(e)),
    decreases e,
{
    match e {
        Expr::Not(inner) => {
            lemma_simplified_form(*inner);
        },
        Expr::BinaryOp { left, op, right } => {
            lemma_simplified_form(*left);
            lemma_simplified_form(*right);
            lemma_simplify_binary_form(op, simplified(*left), simplified(*right));
        },
        _ => {},
    }
}

/// One pass of simplification reaches a fixed point: simplifying again
/// changes nothing.
pub proof fn lemma_simplify_idempotent(e: Expr)
    ensures
        simplified(simplified(e)) == simplified(e),
{
    lemma_simplified_form(e);
    lemma_simplified_form_fixed(simplified(e));
}

// ─── Values of expressions ────────────────────────────────────────

/// A value an expression can take: integers (of either width), doubles by
/// their bits, booleans and text.
pub enum ScalarValue {
    Int(int),
    Float(u64),
    Bool(bool),
    Text(Seq<char>),
}

/// The value of a literal; null has none.
pub open spec fn literal_value(l: Literal) -> Option<ScalarValue> {
    match l {
        Literal::Int32(v) => Some(ScalarValue::Int(v as int)),
        Literal::Int64(v) => Some(ScalarValue::Int(v as int)),
        Literal::Float64(f) => Some(ScalarValue::Float(f.bits)),
        Literal::Bool(b) => Some(ScalarValue::Bool(b)),
        Literal::Str(s) => Some(ScalarValue::Text(s@)),
        Literal::Null => None,
    }
}

/// `a op b` on integers; the connectives give false.
pub open spec fn int_value_compare(a: int, op: Operator, b: int) -> bool {
    match op {
        Operator::Eq => a == b,
        Operator::Ne => a != b,
        Operator::Lt => a < b,
        Operator::Le => a <= b,
        Operator::Gt => a > b,
        Operator::Ge => a >= b,
        _ => false,
    }
}

/// `a op b` on text, ordered as `text_less` orders it.
pub open spec fn text_value_compare(a: Seq<char>, op: Operator, b: Seq<char>) -> bool {
    match op {
        Operator::Eq => a == b,
        Operator::Ne => a != b,
        Operator::Lt => crate::text::text_less(a, b),
        Operator::Le => !crate::text::text_less(b, a),
        Operator::Gt => crate::text::text_less(b, a),
        Operator::Ge => !crate::text::text_less(a, b),
        _ => false,
    }
}

/// The operator is one of the six comparisons.
pub open spec fn is_comparison(op: Operator) -> bool {
    !(op is And) && !(op is Or)
}

/// `a op b`: connectives on booleans, comparisons on two values of one kind
/// (booleans compare for equality only); anything else has no value.
pub open spec fn apply_op(op: Operator, a: ScalarValue, b: ScalarValue) -> Option<ScalarValue> {
    match (a, b) {
        (ScalarValue::Bool(x), ScalarValue::Bool(y)) => match op {
            Operator::And => Some(ScalarValue::Bool(x && y)),
            Operator::Or => Some(ScalarValue::Bool(x || y)),
            Operator::Eq => Some(ScalarValue::Bool(x == y)),
            Operator::Ne => Some(ScalarValue::Bool(x != y)),
            _ => None,
        },
        (ScalarValue::Int(x), ScalarValue::Int(y)) => if is_comparison(op) {
            Some(ScalarValue::Bool(int_value_compare(x, op, y)))
        } else {
            None
        },
        (ScalarValue::Float(x), ScalarValue::Float(y)) => if is_comparison(op) {
            Some(ScalarValue::Bool(float_compare(x, op, y)))
        } else {
            None
        },
        (ScalarValue::Text(x), ScalarValue::Text(y)) => if is_comparison(op) {
            Some(ScalarValue::Bool(text_value_compare(x, op, y)))
        } else {
            None
        },
        _ => None,
    }
}

/// The value of an expression when each column `n` holds `row(n)` (none
/// for a null); an ill-typed expression has no value.
pub open spec fn eval_expr(e: Expr, row: spec_fn(Seq<char>) -> Option<ScalarValue>) -> Option<ScalarValue>
    decreases e,
{
    match e {
        Expr::Column(n) => row(n@),
        Expr::Literal(l) => literal_value(l),
        Expr::Not(inner) => match eval_expr(*inner, row) {
            Some(ScalarValue::Bool(b)) => Some(ScalarValue::Bool(!b)),
            _ => None,
        },
        Expr::BinaryOp { left, op, right } => match (eval_expr(*left, row), eval_expr(*right, row)) {
            (Some(a), Some(b)) => apply_op(op, a, b),
            _ => None,
        },
    }
}

/// Mirroring a comparison and its operands keeps its value.
proof fn lemma_apply_flipped(op: Operator, a: ScalarValue, b: ScalarValue)
    requires
        is_comparison(op),
    ensures
        apply_op(op, a, b) == apply_op(flipped(op), b, a),
{
}

/// Combining two operands as `simplify_binary` does keeps the value of the
/// operation, wherever it has one.
proof fn lemma_simplify_binary_value(
    op: Operator,
    l: Expr,
    r: Expr,
    row: spec_fn(Seq<char>) -> Option<ScalarValue>,
)
    requires
        eval_expr(Expr::BinaryOp { left: Box::new(l), op, right: Box::new(r) }, row) is Some,
    ensures
        eval_expr(simplify_binary(op, l, r), row) == eval_expr(
            Expr::BinaryOp { left: Box::new(l), op, right: Box::new(r) },
            row,
        ),
{
    if !(op is And) && !(op is Or) && l is Literal && r is Column {
        lemma_apply_flipped(op, eval_expr(l, row)->Some_0, eval_expr(r, row)->Some_0);
    }
}

/// Simplification keeps the value of every expression that has one, under
/// every assignment of values to its columns.
pub proof fn lemma_simplify_keeps_value(e: Expr, row: spec_fn(Seq<char>) -> Option<ScalarValue>)
    requires
        eval_expr(e, row) is Some,
    ensures
        eval_expr(simplified(e), row) == eval_expr(e, row),
    decreases e,
{
    match e {
        Expr::Not(inner) => {
            lemma_simplify_keeps_value(*inner, row);
        },
        Expr::BinaryOp { left, op, right } => {
            lemma_simplify_keeps_value(*left, row);
            lemma_simplify_keeps_value(*right, row);
            lemma_simplify_binary_value(op, simplified(*left), simplified(*right), row);
        },
        _ => {},
    }
}

// ─── Rule: eliminate constant filters ─────────────────────────────

/// Remove WHERE false (replace with an empty relation) and WHERE true (drop
/// the filter node).
#[derive(Debug)]
pub struct EliminateFilter;

/// The schema of a scan or empty relation.
pub open spec fn source_schema(op: LogicalOp) -> Option<SchemaRef> {
    match op {
        LogicalOp::Scan { schema, .. } => Some(schema),
        LogicalOp::Empty { schema } => Some(schema),
        _ => None,
    }
}

/// EliminateFilter on the subtree at `node`: a filter on `false` over a scan
/// or empty relation becomes an empty relation of that schema; a filter on
/// `true` gives way to its input; any other filter is rebuilt over the
/// rewritten input when that changed.
pub open spec fn eliminate_filter_at(a: Seq<LogicalOp>, node: nat) -> Option<(Seq<NodeSpec>, NodeId)>
    decreases node,
{
    if node >= a.len() {
        None
    } else {
        match a[node as int] {
            LogicalOp::Filter { input, predicate } => {
                if is_bool_lit(predicate, false) {
                    if input.0 < a.len() {
                        match source_schema(a[input.0 as int]) {
                            Some(schema) => Some(
                                (seq![NodeSpec::Empty { schema }], appended_id(a.len() as int, 0)),
                            ),
                            None => None,
                        }
                    } else {
                        None
                    }
                } else if is_bool_lit(predicate, true) {
                    Some((Seq::empty(), input))
                } else if input.0 < node {
                    match eliminate_filter_at(a, input.0 as nat) {
                        Some((app, r)) => Some(
                            (
                                app.push(NodeSpec::Filter { input: r, predicate }),
                                appended_id(a.len() as int, app.len() as int),
                            ),
                        ),
                        None => None,
                    }
                } else {
                    None
                }
            },
            _ => None,
        }
    }
}

proof fn lemma_eliminate_filter_wf(a: Seq<LogicalOp>, node: nat)
    requires
        arena_wf(a),
        node < a.len(),
    ensures
        match eliminate_filter_at(a, node) {
            Some((app, r)) => a.len() + app.len() <= u32::MAX ==> outcome_wf(a.len() as int, eliminate_filter_at(a, node)),
            None => true,
        },
        match eliminate_filter_at(a, node) {
            Some((app, r)) => app.len() <= node + 1,
            None => true,
        },
    decreases node,
{
    match a[node as int] {
        LogicalOp::Filter { input, predicate } => {
            assert(op_children(a[node as int])[0] == input);
            if !is_bool_lit(predicate, false) && !is_bool_lit(predicate, true) && input.0 < node {
                lemma_eliminate_filter_wf(a, input.0 as nat);
            }
        },
        _ => {},
    }
}

/// Moves the plan into a `yes` result with one more node appended as root.
fn push_root(plan: LogicalPlan, op: LogicalOp) -> (r: Transformed)
    ensures
        r.changed,
        r.plan.arena@ == plan.arena@.push(op),
        r.plan.root == appended_id(plan.arena@.len() as int, 0),
{
    let mut plan = plan;
    let id = plan.arena.add(op);
    plan.root = id;
    Transformed::yes(plan)
}

impl EliminateFilter {
    fn rewrite_node(&self, plan: LogicalPlan, node: NodeId) -> (r: Transformed)
        requires
            arena_wf(plan.arena@),
            node.0 < plan.arena@.len(),
        ensures
            rewrote_to(plan, r, eliminate_filter_at(plan.arena@, node.0 as nat)),
        decreases node.0,
    {
        let ghost a = plan.arena@;
        let (input, predicate) = match plan.arena.get(node) {
            LogicalOp::Filter { input, predicate } => (*input, predicate.copy()),
            _ => {
                return Transformed::no(plan);
            },
        };
        proof {
            assert(op_children(a[node.0 as int])[0] == input);
        }
        match bool_lit_value(&predicate) {
            Some(false) => {
                let schema = match plan.arena.get(input) {
                    LogicalOp::Scan { schema, .. } => crate::logical_plan::share_schema(schema),
                    LogicalOp::Empty { schema } => crate::logical_plan::share_schema(schema),
                    _ => {
                        return Transformed::no(plan);
                    },
                };
                let r = push_root(plan, LogicalOp::Empty { schema });
                proof {
                    assert(r.plan.arena@.subrange(0, a.len() as int) =~= a);
                    assert(r.plan.arena@[a.len() + 0int] == LogicalOp::Empty { schema });
                }
                r
            },
            Some(true) => {
                let mut plan = plan;
                plan.root = input;
                proof {
                    assert(plan.arena@.subrange(0, a.len() as int) =~= a);
                }
                Transformed::yes(plan)
            },
            None => {
                let child = self.rewrite_node(plan, input);
                if child.changed {
                    let ghost mid = child.plan.arena@;
                    let new_input = child.plan.root;
                    let r = push_root(child.plan, LogicalOp::Filter { input: new_input, predicate });
                    proof {
                        let pair = eliminate_filter_at(a, input.0 as nat)->0;
                        let app = pair.0;
                        assert(r.plan.arena@.subrange(0, a.len() as int) =~= mid.subrange(0, a.len() as int));
                        assert forall|k: int| 0 <= k < app.len() + 1 implies fits(
                            #[trigger] r.plan.arena@[a.len() + k],
                            app.push(NodeSpec::Filter { input: new_input, predicate })[k],
                        ) by {
                            if k < app.len() {
                                assert(r.plan.arena@[a.len() + k] == mid[a.len() + k]);
                            }
                        }
                    }
                    r
                } else {
                    Transformed::no(child.plan)
                }
            },
        }
    }
}

impl OptimizerRule for EliminateFilter {
    open spec fn rule_name(&self) -> Seq<char> {
        "eliminate_filter"@
    }

    fn name(&self) -> (r: &str) {
        "eliminate_filter"
    }

    open spec fn rewrite_view(&self, v: PlanView) -> (bool, PlanView) {
        apply_outcome(v, eliminate_filter_at(ops_with(v.nodes), v.root.0 as nat))
    }

    open spec fn traversal_order(&self) -> ApplyOrder {
        ApplyOrder::BottomUp
    }

    fn apply_order(&self) -> (r: ApplyOrder) {
        ApplyOrder::BottomUp
    }

    fn rewrite(&self, plan: LogicalPlan) -> (r: Transformed)
        ensures
            rewrote_to(plan, r, eliminate_filter_at(plan.arena@, plan.root.0 as nat)),
    {
        let root = plan.root;
        let ghost old = plan;
        let r = self.rewrite_node(plan, root);
        proof {
            lemma_eliminate_filter_wf(old.arena@, root.0 as nat);
            lemma_rewrite_keeps_wf(old, r, eliminate_filter_at(old.arena@, root.0 as nat));
            lemma_ops_with(old);
            lemma_eliminate_filter_same(ops_with(plan_view(old).nodes), old.arena@, root.0 as nat);
            lemma_rewrote_to_view(old, r, eliminate_filter_at(old.arena@, root.0 as nat));
        }
        r
    }
}

// ─── Rule: simplify filter predicates ─────────────────────────────

/// Constant folding and boolean simplification of filter predicates.
#[derive(Debug)]
pub struct SimplifyExpressions;

/// SimplifyExpressions on the subtree at `node`: a filter whose predicate
/// displays differently once simplified is rebuilt with the simplified
/// predicate; otherwise the filter is rebuilt over the rewritten input when
/// that changed.
pub open spec fn simplify_at(a: Seq<LogicalOp>, node: nat) -> Option<(Seq<NodeSpec>, NodeId)>
    decreases node,
{
    if node >= a.len() {
        None
    } else {
        match a[node as int] {
            LogicalOp::Filter { input, predicate } => {
                if expr_text(predicate) != expr_text(simplified(predicate)) {
                    Some(
                        (
                            seq![NodeSpec::Filter { input, predicate: simplified(predicate) }],
                            appended_id(a.len() as int, 0),
                        ),
                    )
                } else if input.0 < node {
                    match simplify_at(a, input.0 as nat) {
                        Some((app, r)) => Some(
                            (
                                app.push(NodeSpec::Filter { input: r, predicate }),
                                appended_id(a.len() as int, app.len() as int),
                            ),
                        ),
                        None => None,
                    }
                } else {
                    None
                }
            },
            _ => None,
        }
    }
}

proof fn lemma_simplify_at_wf(a: Seq<LogicalOp>, node: nat)
    requires
        arena_wf(a),
        node < a.len(),
    ensures
        match simplify_at(a, node) {
            Some((app, r)) => a.len() + app.len() <= u32::MAX ==> outcome_wf(a.len() as int, simplify_at(a, node)),
            None => true,
        },
    decreases node,
{
    match a[node as int] {
        LogicalOp::Filter { input, predicate } => {
            assert(op_children(a[node as int])[0] == input);
            if expr_text(predicate) == expr_text(simplified(predicate)) && input.0 < node {
                lemma_simplify_at_wf(a, input.0 as nat);
            }
        },
        _ => {},
    }
}

/// Rebuilds the filter `predicate` over the root of a changed child result.
fn refilter(child: Transformed, predicate: Expr, Ghost(a): Ghost<Seq<LogicalOp>>, Ghost(app): Ghost<Seq<NodeSpec>>) -> (r: Transformed)
    requires
        child.plan.arena@.len() == a.len() + app.len(),
        child.plan.arena@.subrange(0, a.len() as int) == a,
        forall|k: int| 0 <= k < app.len() ==> fits(#[trigger] child.plan.arena@[a.len() + k], app[k]),
    ensures
        r.changed,
        r.plan.root == appended_id(a.len() as int, app.len() as int),
        r.plan.arena@.len() == a.len() + app.len() + 1,
        r.plan.arena@.subrange(0, a.len() as int) == a,
        forall|k: int|
            0 <= k < app.len() + 1 ==> fits(
                #[trigger] r.plan.arena@[a.len() + k],
                app.push(NodeSpec::Filter { input: child.plan.root, predicate })[k],
            ),
{
    let ghost mid = child.plan.arena@;
    let new_input = child.plan.root;
    let r = push_root(child.plan, LogicalOp::Filter { input: new_input, predicate });
    proof {
        assert(r.plan.arena@.subrange(0, a.len() as int) =~= mid.subrange(0, a.len() as int));
        assert forall|k: int| 0 <= k < app.len() + 1 implies fits(
            #[trigger] r.plan.arena@[a.len() + k],
            app.push(NodeSpec::Filter { input: new_input, predicate })[k],
        ) by {
            if k < app.len() {
                assert(r.plan.arena@[a.len() + k] == mid[a.len() + k]);
            }
        }
    }
    r
}

impl SimplifyExpressions {
    fn rewrite_node(&self, plan: LogicalPlan, node: NodeId) -> (r: Transformed)
        requires
            arena_wf(plan.arena@),
            node.0 < plan.arena@.len(),
        ensures
            rewrote_to(plan, r, simplify_at(plan.arena@, node.0 as nat)),
        decreases node.0,
    {
        let ghost a = plan.arena@;
        let (input, predicate) = match plan.arena.get(node) {
            LogicalOp::Filter { input, predicate } => (*input, predicate.copy()),
            _ => {
                return Transformed::no(plan);
            },
        };
        proof {
            assert(op_children(a[node.0 as int])[0] == input);
        }
        let simplified_pred = simplify_expr(&predicate);
        if !exprs_equal(&predicate, &simplified_pred) {
            let r = push_root(plan, LogicalOp::Filter { input, predicate: simplified_pred });
            proof {
                assert(r.plan.arena@.subrange(0, a.len() as int) =~= a);
                assert(r.plan.arena@[a.len() + 0int] == LogicalOp::Filter { input, predicate: simplified_pred });
            }
            r
        } else {
            let child = self.rewrite_node(plan, input);
            if child.changed {
                let ghost pair = simplify_at(a, input.0 as nat)->0;
                refilter(child, predicate, Ghost(a), Ghost(pair.0))
            } else {
                Transformed::no(child.plan)
            }
        }
    }
}

impl OptimizerRule for SimplifyExpressions {
    open spec fn rule_name(&self) -> Seq<char> {
        "simplify_expressions"@
    }

    fn name(&self) -> (r: &str) {
        "simplify_expressions"
    }

    open spec fn rewrite_view(&self, v: PlanView) -> (bool, PlanView) {
        apply_outcome(v, simplify_at(ops_with(v.nodes), v.root.0 as nat))
    }

    open spec fn traversal_order(&self) -> ApplyOrder {
        ApplyOrder::BottomUp
    }

    fn apply_order(&self) -> (r: ApplyOrder) {
        ApplyOrder::BottomUp
    }

    fn rewrite(&self, plan: LogicalPlan) -> (r: Transformed)
        ensures
            rewrote_to(plan, r, simplify_at(plan.arena@, plan.root.0 as nat)),
    {
        let root = plan.root;
        let ghost old = plan;
        let r = self.rewrite_node(plan, root);
        proof {
            lemma_simplify_at_wf(old.arena@, root.0 as nat);
            lemma_rewrite_keeps_wf(old, r, simplify_at(old.arena@, root.0 as nat));
            lemma_ops_with(old);
            lemma_simplify_same(ops_with(plan_view(old).nodes), old.arena@, root.0 as nat);
            lemma_rewrote_to_view(old, r, simplify_at(old.arena@, root.0 as nat));
        }
        r
    }
}

// ─── Rule: push filters below projections ─────────────────────────

/// Push Filter nodes below Project nodes, as close to the scan as possible.
#[derive(Debug)]
pub struct PushDownFilter;

/// Every column the predicate reads is among the names.
pub open spec fn reads_only(predicate: Expr, names: Seq<Seq<char>>) -> bool {
    forall|n: Seq<char>| columns_of(predicate).contains(n) ==> names.contains(n)
}

/// PushDownFilter on the subtree at `node`: `Filter(Project(x))` becomes
/// `Project(Filter(x))` when the projection keeps every column the predicate
/// reads; otherwise the filter is rebuilt over its rewritten input when that
/// changed.
pub open spec fn push_filter_at(a: Seq<LogicalOp>, node: nat) -> Option<(Seq<NodeSpec>, NodeId)>
    decreases node,
{
    if node >= a.len() {
        None
    } else {
        match a[node as int] {
            LogicalOp::Filter { input, predicate } => {
                if input.0 < a.len() && (a[input.0 as int] matches LogicalOp::Project {
                    input: below,
                    columns,
                    ..
                } && reads_only(predicate, strs(columns@))) {
                    let below = a[input.0 as int]->Project_input;
                    let columns = a[input.0 as int]->Project_columns;
                    Some(
                        (
                            seq![
                                NodeSpec::Filter { input: below, predicate },
                                NodeSpec::Project {
                                    input: appended_id(a.len() as int, 0),
                                    columns: strs(columns@),
                                    is_reorder_only: true,
                                },
                            ],
                            appended_id(a.len() as int, 1),
                        ),
                    )
                } else if input.0 < node {
                    match push_filter_at(a, input.0 as nat) {
                        Some((app, r)) => Some(
                            (
                                app.push(NodeSpec::Filter { input: r, predicate }),
                                appended_id(a.len() as int, app.len() as int),
                            ),
                        ),
                        None => None,
                    }
                } else {
                    None
                }
            },
            _ => None,
        }
    }
}

proof fn lemma_push_filter_wf(a: Seq<LogicalOp>, node: nat)
    requires
        arena_wf(a),
        node < a.len(),
    ensures
        match push_filter_at(a, node) {
            Some((app, r)) => a.len() + app.len() <= u32::MAX ==> outcome_wf(a.len() as int, push_filter_at(a, node)),
            None => true,
        },
    decreases node,
{
    match a[node as int] {
        LogicalOp::Filter { input, predicate } => {
            assert(op_children(a[node as int])[0] == input);
            if input.0 < a.len() && (a[input.0 as int] matches LogicalOp::Project {
                input: below,
                columns,
                ..
            } && reads_only(predicate, strs(columns@))) {
                assert(op_children(a[input.0 as int])[0] == a[input.0 as int]->Project_input);
            } else if input.0 < node {
                lemma_push_filter_wf(a, input.0 as nat);
            }
        },
        _ => {},
    }
}

/// A copy of a list of strings.
fn copy_strings(v: &Vec<String>) -> (r: Vec<String>)
    ensures
        strs(r@) == strs(v@),
{
    let mut out: Vec<String> = Vec::new();
    let mut i: usize = 0;
    while i < v.len()
        invariant
            i <= v@.len(),
            out@.len() == i,
            forall|j: int| 0 <= j < i ==> (#[trigger] out@[j])@ == v@[j]@,
        decreases v@.len() - i,
    {
        out.push(v[i].clone());
        i += 1;
    }
    assert(strs(out@) =~= strs(v@));
    out
}

/// Whether every column the predicate reads is one of `columns`.
fn all_columns_available(predicate: &Expr, columns: &Vec<String>) -> (r: bool)
    ensures
        r == reads_only(*predicate, strs(columns@)),
{
    let needed = predicate.referenced_columns();
    let mut k: usize = 0;
    while k < needed.len()
        invariant
            k <= needed@.len(),
            crate::expr::name_set(needed@) == columns_of(*predicate),
            forall|j: int| 0 <= j < k ==> strs(columns@).contains(#[trigger] needed@[j]@),
        decreases needed@.len() - k,
    {
        let mut found = false;
        let mut i: usize = 0;
        while i < columns.len()
            invariant
                i <= columns@.len(),
                k < needed@.len(),
                found == exists|j: int| 0 <= j < i && columns@[j]@ == needed@[k as int]@,
            decreases columns@.len() - i,
        {
            if crate::text::str_eq(columns[i].as_str(), needed[k].as_str()) {
                found = true;
            }
            i += 1;
        }
        if !found {
            proof {
                assert(columns_of(*predicate).contains(needed@[k as int]@));
                if strs(columns@).contains(needed@[k as int]@) {
                    let j = choose|j: int| 0 <= j < strs(columns@).len() && strs(columns@)[j] == needed@[k as int]@;
                    assert(columns@[j]@ == needed@[k as int]@);
                }
            }
            return false;
        }
        proof {
            let j = choose|j: int| 0 <= j < columns@.len() && columns@[j]@ == needed@[k as int]@;
            assert(strs(columns@)[j] == needed@[k as int]@);
        }
        k += 1;
    }
    proof {
        assert forall|n: Seq<char>| columns_of(*predicate).contains(n) implies strs(columns@).contains(n) by {
            assert(crate::expr::name_set(needed@).contains(n));
            let j = choose|j: int| 0 <= j < needed@.len() && needed@[j]@ == n;
            assert(strs(columns@).contains(needed@[j]@));
        }
    }
    true
}

/// Appends two nodes, the second becoming the root.
fn push_two(plan: LogicalPlan, first: LogicalOp, second_of: SecondNode) -> (r: Transformed)
    ensures
        r.changed,
        r.plan.arena@.len() == plan.arena@.len() + 2,
        r.plan.arena@.subrange(0, plan.arena@.len() as int) == plan.arena@,
        r.plan.arena@[plan.arena@.len() as int] == first,
        r.plan.arena@[plan.arena@.len() + 1int] == second_of.build(appended_id(plan.arena@.len() as int, 0)),
        r.plan.root == appended_id(plan.arena@.len() as int, 1),
{
    let mut plan = plan;
    let ghost a = plan.arena@;
    let id = plan.arena.add(first);
    let second = second_of.into_op(id);
    let root = plan.arena.add(second);
    plan.root = root;
    proof {
        assert(plan.arena@.subrange(0, a.len() as int) =~= a);
    }
    Transformed::yes(plan)
}

/// The second of two appended nodes, waiting for the id of the first.
enum SecondNode {
    Project { columns: Vec<String>, is_reorder_only: bool },
    Filter { predicate: Expr },
}

impl SecondNode {
    spec fn build(self, first: NodeId) -> LogicalOp {
        match self {
            SecondNode::Project { columns, is_reorder_only } => LogicalOp::Project { input: first, columns, is_reorder_only },
            SecondNode::Filter { predicate } => LogicalOp::Filter { input: first, predicate },
        }
    }

    fn into_op(self, first: NodeId) -> (r: LogicalOp)
        ensures
            r == self.build(first),
    {
        match self {
            SecondNode::Project { columns, is_reorder_only } => LogicalOp::Project { input: first, columns, is_reorder_only },
            SecondNode::Filter { predicate } => LogicalOp::Filter { input: first, predicate },
        }
    }
}

impl PushDownFilter {
    fn rewrite_node(&self, plan: LogicalPlan, node: NodeId) -> (r: Transformed)
        requires
            arena_wf(plan.arena@),
            node.0 < plan.arena@.len(),
        ensures
            rewrote_to(plan, r, push_filter_at(plan.arena@, node.0 as nat)),
        decreases node.0,
    {
        let ghost a = plan.arena@;
        let (proj_node, predicate) = match plan.arena.get(node) {
            LogicalOp::Filter { input, predicate } => (*input, predicate.copy()),
            _ => {
                return Transformed::no(plan);
            },
        };
        proof {
            assert(op_children(a[node.0 as int])[0] == proj_node);
        }
        let pushed: Option<(NodeId, Vec<String>)> = match plan.arena.get(proj_node) {
            LogicalOp::Project { input, columns, .. } => {
                if all_columns_available(&predicate, columns) {
                    Some((*input, copy_strings(columns)))
                } else {
                    None
                }
            },
            _ => None,
        };
        match pushed {
            Some((below, columns)) => {
                let ghost cols = strs(columns@);
                let r = push_two(
                    plan,
                    LogicalOp::Filter { input: below, predicate },
                    SecondNode::Project { columns, is_reorder_only: true },
                );
                proof {
                    assert(fits(r.plan.arena@[a.len() + 0int], NodeSpec::Filter { input: below, predicate }));
                    assert(fits(
                        r.plan.arena@[a.len() + 1int],
                        NodeSpec::Project { input: appended_id(a.len() as int, 0), columns: cols, is_reorder_only: true },
                    ));
                }
                r
            },
            None => {
                let child = self.rewrite_node(plan, proj_node);
                if child.changed {
                    let ghost pair = push_filter_at(a, proj_node.0 as nat)->0;
                    refilter(child, predicate, Ghost(a), Ghost(pair.0))
                } else {
                    Transformed::no(child.plan)
                }
            },
        }
    }
}

impl OptimizerRule for PushDownFilter {
    open spec fn rule_name(&self) -> Seq<char> {
        "push_down_filter"@
    }

    fn name(&self) -> (r: &str) {
        "push_down_filter"
    }

    open spec fn rewrite_view(&self, v: PlanView) -> (bool, PlanView) {
        apply_outcome(v, push_filter_at(ops_with(v.nodes), v.root.0 as nat))
    }

    open spec fn traversal_order(&self) -> ApplyOrder {
        ApplyOrder::TopDown
    }

    fn apply_order(&self) -> (r: ApplyOrder) {
        ApplyOrder::TopDown
    }

    fn rewrite(&self, plan: LogicalPlan) -> (r: Transformed)
        ensures
            rewrote_to(plan, r, push_filter_at(plan.arena@, plan.root.0 as nat)),
    {
        let root = plan.root;
        let ghost old = plan;
        let r = self.rewrite_node(plan, root);
        proof {
            lemma_push_filter_wf(old.arena@, root.0 as nat);
            lemma_rewrite_keeps_wf(old, r, push_filter_at(old.arena@, root.0 as nat));
            lemma_ops_with(old);
            lemma_push_filter_same(ops_with(plan_view(old).nodes), old.arena@, root.0 as nat);
            lemma_rewrote_to_view(old, r, push_filter_at(old.arena@, root.0 as nat));
        }
        r
    }
}

// ─── Rule: push projections into scans ────────────────────────────

/// Push column projection into the Scan node to avoid reading unneeded columns.
#[derive(Debug)]
pub struct PushDownProjection;

/// The first position at or after `k` of a field called `n`, or -1.
pub open spec fn position_from(fs: Seq<crate::schema::RelayField>, n: Seq<char>, k: int) -> int
    decreases fs.len() - k,
{
    if k < 0 || k >= fs.len() {
        -1
    } else if fs[k].name@ == n {
        k
    } else {
        position_from(fs, n, k + 1)
    }
}

/// The position of the field called `n` (names are unique in a schema).
pub open spec fn index_of_name(fs: Seq<crate::schema::RelayField>, n: Seq<char>) -> usize {
    position_from(fs, n, 0) as usize
}

proof fn lemma_position_from(fs: Seq<crate::schema::RelayField>, n: Seq<char>, k: int, idx: int)
    requires
        0 <= k <= idx < fs.len(),
        fs[idx].name@ == n,
        forall|j: int| 0 <= j < idx ==> fs[j].name@ != n,
    ensures
        position_from(fs, n, k) == idx,
    decreases idx - k,
{
    if k < idx {
        lemma_position_from(fs, n, k + 1, idx);
    }
}

/// The positions of the named fields, in the order named, skipping names
/// the schema lacks.
pub open spec fn found_indices(fs: Seq<crate::schema::RelayField>, names: Seq<Seq<char>>) -> Seq<usize>
    decreases names.len(),
{
    if names.len() == 0 {
        Seq::empty()
    } else {
        found_indices(fs, names.drop_last()) + if crate::schema::has_name(fs, names.last()) {
            seq![index_of_name(fs, names.last())]
        } else {
            Seq::empty()
        }
    }
}

/// PushDownProjection at `node`: `Project(Scan)` with every projected name in
/// the scan's schema, and fewer names than fields, becomes a scan of those
/// field positions; `Project(Filter(x))` becomes `Filter(Project(x))` when
/// the projection keeps every column the predicate reads.
pub open spec fn push_projection_at(a: Seq<LogicalOp>, node: nat) -> Option<(Seq<NodeSpec>, NodeId)> {
    if node >= a.len() {
        None
    } else {
        match a[node as int] {
            LogicalOp::Project { input, columns, .. } => {
                if input.0 >= a.len() {
                    None
                } else {
                    match a[input.0 as int] {
                        LogicalOp::Scan { source, schema, projection: None, limit } => {
                            let proj = found_indices(schema.field_list(), strs(columns@));
                            if proj.len() == columns@.len() && proj.len() < schema.field_list().len() {
                                Some(
                                    (
                                        seq![NodeSpec::Scan { source, schema, projection: Some(proj), limit }],
                                        appended_id(a.len() as int, 0),
                                    ),
                                )
                            } else {
                                None
                            }
                        },
                        LogicalOp::Filter { input: below, predicate } => {
                            if reads_only(predicate, strs(columns@)) {
                                Some(
                                    (
                                        seq![
                                            NodeSpec::Project { input: below, columns: strs(columns@), is_reorder_only: true },
                                            NodeSpec::Filter { input: appended_id(a.len() as int, 0), predicate },
                                        ],
                                        appended_id(a.len() as int, 1),
                                    ),
                                )
                            } else {
                                None
                            }
                        },
                        _ => None,
                    }
                }
            },
            _ => None,
        }
    }
}

/// Positions of the named fields that the schema has, in the order named.
fn projection_indices(schema: &crate::schema::RelaySchema, columns: &Vec<String>) -> (r: Vec<usize>)
    ensures
        r@ == found_indices(schema.field_list(), strs(columns@)),
{
    let ghost fs = schema.field_list();
    let _ = schema.len();
    let mut out: Vec<usize> = Vec::new();
    let mut i: usize = 0;
    while i < columns.len()
        invariant
            fs == schema.field_list(),
            crate::schema::names_unique(fs),
            i <= columns@.len(),
            out@ == found_indices(fs, strs(columns@).subrange(0, i as int)),
        decreases columns@.len() - i,
    {
        let ghost names = strs(columns@).subrange(0, i + 1);
        proof {
            assert(names.drop_last() =~= strs(columns@).subrange(0, i as int));
            assert(names.last() == columns@[i as int]@);
        }
        match schema.column_index(columns[i].as_str()) {
            Ok(idx) => {
                proof {
                    let n = columns@[i as int]@;
                    let ns = crate::schema::field_names_of(fs);
                    assert(fs[idx as int].name@ == n);
                    assert forall|j: int| 0 <= j < idx implies fs[j].name@ != n by {
                        assert(ns[j] != ns[idx as int]);
                    }
                    lemma_position_from(fs, n, 0, idx as int);
                    assert(index_of_name(fs, n) == idx);
                }
                out.push(idx);
            },
            Err(_) => {},
        }
        i += 1;
    }
    assert(strs(columns@).subrange(0, columns@.len() as int) =~= strs(columns@));
    out
}

proof fn lemma_found_indices_len(fs: Seq<crate::schema::RelayField>, names: Seq<Seq<char>>)
    ensures
        found_indices(fs, names).len() <= names.len(),
    decreases names.len(),
{
    if names.len() > 0 {
        lemma_found_indices_len(fs, names.drop_last());
    }
}

/// What a projection finds below itself.
enum Found {
    Scan(ScanSource, SchemaRef, Option<usize>),
    Filter(NodeId, Expr),
    Other,
}

/// A copy of a list of positions.
fn copy_indices(v: &Vec<usize>) -> (r: Vec<usize>)
    ensures
        r@ == v@,
{
    let mut out: Vec<usize> = Vec::new();
    let mut i: usize = 0;
    while i < v.len()
        invariant
            i <= v@.len(),
            out@ == v@.subrange(0, i as int),
        decreases v@.len() - i,
    {
        out.push(v[i]);
        i += 1;
    }
    assert(out@ =~= v@);
    out
}

impl PushDownProjection {
    fn rewrite_node(&self, plan: LogicalPlan, node: NodeId) -> (r: Transformed)
        requires
            arena_wf(plan.arena@),
            node.0 < plan.arena@.len(),
        ensures
            rewrote_to(plan, r, push_projection_at(plan.arena@, node.0 as nat)),
    {
        let ghost a = plan.arena@;
        let (input, columns) = match plan.arena.get(node) {
            LogicalOp::Project { input, columns, .. } => (*input, copy_strings(columns)),
            _ => {
                return Transformed::no(plan);
            },
        };
        proof {
            assert(op_children(a[node.0 as int])[0] == input);
        }
        let ghost cols = strs(columns@);
        let found = match plan.arena.get(input) {
            LogicalOp::Scan { source, schema, projection: None, limit } => Found::Scan(
                source.copy(),
                crate::logical_plan::share_schema(schema),
                *limit,
            ),
            LogicalOp::Filter { input: below, predicate } => Found::Filter(*below, predicate.copy()),
            _ => Found::Other,
        };
        match found {
            Found::Scan(source, schema, limit) => {
                let proj = projection_indices(&schema, &columns);
                proof {
                    lemma_found_indices_len(schema.field_list(), cols);
                }
                if proj.len() == columns.len() && proj.len() < schema.len() {
                    let ghost pv = proj@;
                    let r = push_root(plan, LogicalOp::Scan { source, schema, projection: Some(proj), limit });
                    proof {
                        assert(r.plan.arena@.subrange(0, a.len() as int) =~= a);
                        assert(fits(
                            r.plan.arena@[a.len() + 0int],
                            NodeSpec::Scan { source, schema, projection: Some(pv), limit },
                        ));
                    }
                    r
                } else {
                    Transformed::no(plan)
                }
            },
            Found::Filter(below, predicate) => {
                if all_columns_available(&predicate, &columns) {
                    let r = push_two(
                        plan,
                        LogicalOp::Project { input: below, columns, is_reorder_only: true },
                        SecondNode::Filter { predicate },
                    );
                    proof {
                        assert(fits(
                            r.plan.arena@[a.len() + 0int],
                            NodeSpec::Project { input: below, columns: cols, is_reorder_only: true },
                        ));
                    }
                    r
                } else {
                    Transformed::no(plan)
                }
            },
            Found::Other => Transformed::no(plan),
        }
    }
}

proof fn lemma_push_projection_wf(a: Seq<LogicalOp>, node: nat)
    requires
        arena_wf(a),
        node < a.len(),
    ensures
        match push_projection_at(a, node) {
            Some((app, r)) => a.len() + app.len() <= u32::MAX ==> outcome_wf(a.len() as int, push_projection_at(a, node)),
            None => true,
        },
{
    match a[node as int] {
        LogicalOp::Project { input, .. } => {
            assert(op_children(a[node as int])[0] == input);
            if input.0 < a.len() {
                match a[input.0 as int] {
                    LogicalOp::Filter { input: below, .. } => {
                        assert(op_children(a[input.0 as int])[0] == below);
                    },
                    _ => {},
                }
            }
        },
        _ => {},
    }
}

impl OptimizerRule for PushDownProjection {
    open spec fn rule_name(&self) -> Seq<char> {
        "push_down_projection"@
    }

    fn name(&self) -> (r: &str) {
        "push_down_projection"
    }

    open spec fn rewrite_view(&self, v: PlanView) -> (bool, PlanView) {
        apply_outcome(v, push_projection_at(ops_with(v.nodes), v.root.0 as nat))
    }

    open spec fn traversal_order(&self) -> ApplyOrder {
        ApplyOrder::TopDown
    }

    fn apply_order(&self) -> (r: ApplyOrder) {
        ApplyOrder::TopDown
    }

    fn rewrite(&self, plan: LogicalPlan) -> (r: Transformed)
        ensures
            rewrote_to(plan, r, push_projection_at(plan.arena@, plan.root.0 as nat)),
    {
        let root = plan.root;
        let ghost old = plan;
        let r = self.rewrite_node(plan, root);
        proof {
            lemma_push_projection_wf(old.arena@, root.0 as nat);
            lemma_rewrite_keeps_wf(old, r, push_projection_at(old.arena@, root.0 as nat));
            lemma_ops_with(old);
            lemma_push_projection_same(ops_with(plan_view(old).nodes), old.arena@, root.0 as nat);
            lemma_rewrote_to_view(old, r, push_projection_at(old.arena@, root.0 as nat));
        }
        r
    }
}

// ─── Rule: push limits into scans ─────────────────────────────────

/// Push LIMIT into Scan nodes to avoid reading more rows than needed.
#[derive(Debug)]
pub struct PushDownLimit;

/// The content of an optional list of positions.
pub open spec fn projection_view(p: Option<Vec<usize>>) -> Option<Seq<usize>> {
    match p {
        Some(v) => Some(v@),
        None => None,
    }
}

/// PushDownLimit at `node`: a limit without offset directly over a scan
/// without limit becomes a scan with that limit; a limit with an offset over
/// a projection moves below the projection.
pub open spec fn push_limit_at(a: Seq<LogicalOp>, node: nat) -> Option<(Seq<NodeSpec>, NodeId)> {
    if node >= a.len() {
        None
    } else {
        match a[node as int] {
            LogicalOp::Limit { input, n, offset } => {
                if input.0 >= a.len() {
                    None
                } else if offset == 0 {
                    match a[input.0 as int] {
                        LogicalOp::Scan { source, schema, projection, limit: None } => Some(
                            (
                                seq![NodeSpec::Scan { source, schema, projection: projection_view(projection), limit: Some(n) }],
                                appended_id(a.len() as int, 0),
                            ),
                        ),
                        _ => None,
                    }
                } else {
                    match a[input.0 as int] {
                        LogicalOp::Project { input: inner, columns, is_reorder_only } => Some(
                            (
                                seq![
                                    NodeSpec::Limit { input: inner, n, offset },
                                    NodeSpec::Project {
                                        input: appended_id(a.len() as int, 0),
                                        columns: strs(columns@),
                                        is_reorder_only,
                                    },
                                ],
                                appended_id(a.len() as int, 1),
                            ),
                        ),
                        _ => None,
                    }
                }
            },
            _ => None,
        }
    }
}

/// Pushing a limit down keeps the rows it yields: a limit that skips rows
/// (a nonzero offset) is never turned into a scan limit, which could not
/// skip them; it survives among the new nodes with its count and offset.
/// Only a limit without offset over a scan without a limit becomes a scan
/// that stops after that many rows, of the same source, schema and columns.
pub proof fn lemma_push_limit_keeps_rows(a: Seq<LogicalOp>, node: nat)
    requires
        node < a.len(),
        a[node as int] is Limit,
    ensures
        ({
            let n = a[node as int]->Limit_n;
            let offset = a[node as int]->Limit_offset;
            let input = a[node as int]->Limit_input;
            match push_limit_at(a, node) {
                None => true,
                Some((app, root)) => {
                    &&& offset != 0 ==> (forall|k: int| 0 <= k < app.len() ==> !(#[trigger] app[k] is Scan))
                    &&& offset != 0 ==> exists|k: int|
                        0 <= k < app.len() && #[trigger] app[k] == NodeSpec::Limit {
                            input: app[k]->Limit_input,
                            n,
                            offset,
                        }
                    &&& offset == 0 ==> (app.len() == 1 && root == appended_id(a.len() as int, 0) && input.0 < a.len()
                        && (a[input.0 as int] matches LogicalOp::Scan { source, schema, projection, limit: None }
                        && app[0] == NodeSpec::Scan {
                        source,
                        schema,
                        projection: projection_view(projection),
                        limit: Some(n),
                    }))
                },
            }
        }),
{
    let offset = a[node as int]->Limit_offset;
    if let Some((app, root)) = push_limit_at(a, node) {
        if offset != 0 {
            assert(app[0] is Limit);
        }
    }
}

/// EliminateFilter keeps the rows of the plan: a filter on `true` gives way
/// to its input; a filter on `false` over a scan becomes an empty relation
/// with the scan's schema; any other filter, when rewritten, is rebuilt on
/// top with its own predicate.
pub proof fn lemma_eliminate_filter_keeps_rows(a: Seq<LogicalOp>, node: nat)
    requires
        node < a.len(),
        a[node as int] is Filter,
    ensures
        ({
            let input = a[node as int]->Filter_input;
            let predicate = a[node as int]->Filter_predicate;
            &&& predicate == Expr::Literal(Literal::Bool(true)) ==> eliminate_filter_at(a, node) == Some(
                (Seq::<NodeSpec>::empty(), input),
            )
            &&& (predicate == Expr::Literal(Literal::Bool(false)) && input.0 < a.len() && a[input.0 as int] is Scan)
                ==> eliminate_filter_at(a, node) == Some(
                (seq![NodeSpec::Empty { schema: a[input.0 as int]->Scan_schema }], appended_id(a.len() as int, 0)),
            )
            &&& (predicate != Expr::Literal(Literal::Bool(true)) && predicate != Expr::Literal(Literal::Bool(false)))
                ==> match eliminate_filter_at(a, node) {
                None => true,
                Some((app, root)) => app.len() >= 1 && root == appended_id(a.len() as int, app.len() - 1)
                    && (app.last() matches NodeSpec::Filter { predicate: p, .. } && p == predicate),
            }
        }),
{
}

/// PropagateEmptyRelation keeps the rows of the plan: it acts only on a
/// filter, projection or limit whose input is an empty relation, and then
/// the plan becomes that empty relation, adding no node.
pub proof fn lemma_propagate_empty_keeps_rows(a: Seq<LogicalOp>, node: nat)
    requires
        node < a.len(),
    ensures
        match propagate_empty_at(a, node) {
            None => true,
            Some((app, root)) => app.len() == 0 && root.0 < a.len() && a[root.0 as int] is Empty && op_children(
                a[node as int],
            ) == seq![root] && (a[node as int] is Filter || a[node as int] is Project || a[node as int] is Limit),
        },
{
}

proof fn lemma_position_found(fs: Seq<crate::schema::RelayField>, n: Seq<char>, k: int)
    requires
        0 <= k,
        exists|i: int| k <= i < fs.len() && fs[i].name@ == n,
    ensures
        k <= position_from(fs, n, k) < fs.len(),
        fs[position_from(fs, n, k)].name@ == n,
    decreases fs.len() - k,
{
    if fs[k].name@ != n {
        let w = choose|i: int| k <= i < fs.len() && fs[i].name@ == n;
        assert(w > k);
        lemma_position_found(fs, n, k + 1);
    }
}

proof fn lemma_found_indices_name(fs: Seq<crate::schema::RelayField>, names: Seq<Seq<char>>)
    requires
        fs.len() <= usize::MAX,
    ensures
        found_indices(fs, names).len() <= names.len(),
        found_indices(fs, names).len() == names.len() ==> forall|j: int|
            0 <= j < names.len() ==> (#[trigger] found_indices(fs, names)[j]) < fs.len() && fs[found_indices(
                fs,
                names,
            )[j] as int].name@ == names[j],
    decreases names.len(),
{
    if names.len() > 0 {
        let init = names.drop_last();
        lemma_found_indices_name(fs, init);
        let f = found_indices(fs, names);
        if f.len() == names.len() {
            let fi = found_indices(fs, init);
            if !crate::schema::has_name(fs, names.last()) {
                assert(f == fi);
            }
            assert(crate::schema::has_name(fs, names.last()));
            assert(f == fi + seq![index_of_name(fs, names.last())]);
            assert(fi.len() == init.len());
            lemma_position_found(fs, names.last(), 0);
            assert forall|j: int| 0 <= j < names.len() implies (#[trigger] f[j]) < fs.len() && fs[f[j] as int].name@
                == names[j] by {
                if j < names.len() - 1 {
                    assert(f[j] == fi[j]);
                    assert(names[j] == init[j]);
                    assert(fi[j] < fs.len() && fs[fi[j] as int].name@ == init[j]);
                } else {
                    let pos = position_from(fs, names.last(), 0);
                    assert(f[j] == pos as usize);
                    assert(f[j] as int == pos);
                }
            }
        }
    }
}

/// PushDownProjection keeps the columns a projection yields: a projection
/// of a scan becomes a scan of the positions of the named fields, in the
/// order named, over the same source, schema and limit.
pub proof fn lemma_push_projection_keeps_columns(a: Seq<LogicalOp>, node: nat)
    requires
        node < a.len(),
        a[node as int] is Project,
        a[node as int]->Project_input.0 < a.len() && a[a[node as int]->Project_input.0 as int] is Scan ==> a[a[node
            as int]->Project_input.0 as int]->Scan_schema.field_list().len() <= usize::MAX,
    ensures
        ({
            let input = a[node as int]->Project_input;
            let columns = strs(a[node as int]->Project_columns@);
            match push_projection_at(a, node) {
                Some((app, root)) => (input.0 < a.len() && a[input.0 as int] is Scan) ==> ({
                    let sc = a[input.0 as int];
                    let fs = sc->Scan_schema.field_list();
                    &&& app.len() == 1
                    &&& root == appended_id(a.len() as int, 0)
                    &&& app[0] matches NodeSpec::Scan { source, schema, projection: Some(p), limit } && (source
                        == sc->Scan_source && schema == sc->Scan_schema && limit == sc->Scan_limit && p.len()
                        == columns.len() && forall|j: int|
                        0 <= j < p.len() ==> #[trigger] p[j] < fs.len() && fs[p[j] as int].name@ == columns[j])
                }),
                None => true,
            }
        }),
{
    let input = a[node as int]->Project_input;
    if input.0 < a.len() && a[input.0 as int] is Scan {
        let sc = a[input.0 as int];
        let columns = strs(a[node as int]->Project_columns@);
        lemma_found_indices_name(sc->Scan_schema.field_list(), columns);
    }
}

/// What a limit finds below itself.
enum LimitTarget {
    Scan(ScanSource, SchemaRef, Option<Vec<usize>>),
    Project(NodeId, Vec<String>, bool),
    Other,
}

impl PushDownLimit {
    fn rewrite_node(&self, plan: LogicalPlan, node: NodeId) -> (r: Transformed)
        requires
            arena_wf(plan.arena@),
            node.0 < plan.arena@.len(),
        ensures
            rewrote_to(plan, r, push_limit_at(plan.arena@, node.0 as nat)),
    {
        let ghost a = plan.arena@;
        let (input, n, offset) = match plan.arena.get(node) {
            LogicalOp::Limit { input, n, offset } => (*input, *n, *offset),
            _ => {
                return Transformed::no(plan);
            },
        };
        proof {
            assert(op_children(a[node.0 as int])[0] == input);
        }
        let target = match plan.arena.get(input) {
            LogicalOp::Scan { source, schema, projection, limit: None } => {
                if offset == 0 {
                    let p = match projection {
                        Some(v) => Some(copy_indices(v)),
                        None => None,
                    };
                    LimitTarget::Scan(source.copy(), crate::logical_plan::share_schema(schema), p)
                } else {
                    LimitTarget::Other
                }
            },
            LogicalOp::Project { input: inner, columns, is_reorder_only } => {
                if offset != 0 {
                    LimitTarget::Project(*inner, copy_strings(columns), *is_reorder_only)
                } else {
                    LimitTarget::Other
                }
            },
            _ => LimitTarget::Other,
        };
        match target {
            LimitTarget::Scan(source, schema, projection) => {
                let ghost pv = projection_view(projection);
                let r = push_root(plan, LogicalOp::Scan { source, schema, projection, limit: Some(n) });
                proof {
                    assert(r.plan.arena@.subrange(0, a.len() as int) =~= a);
                    assert(fits(
                        r.plan.arena@[a.len() + 0int],
                        NodeSpec::Scan { source, schema, projection: pv, limit: Some(n) },
                    ));
                }
                r
            },
            LimitTarget::Project(inner, columns, is_reorder_only) => {
                let ghost cols = strs(columns@);
                let r = push_two(
                    plan,
                    LogicalOp::Limit { input: inner, n, offset },
                    SecondNode::Project { columns, is_reorder_only },
                );
                proof {
                    assert(fits(
                        r.plan.arena@[a.len() + 1int],
                        NodeSpec::Project { input: appended_id(a.len() as int, 0), columns: cols, is_reorder_only },
                    ));
                }
                r
            },
            LimitTarget::Other => Transformed::no(plan),
        }
    }
}

proof fn lemma_push_limit_wf(a: Seq<LogicalOp>, node: nat)
    requires
        arena_wf(a),
        node < a.len(),
    ensures
        match push_limit_at(a, node) {
            Some((app, r)) => a.len() + app.len() <= u32::MAX ==> outcome_wf(a.len() as int, push_limit_at(a, node)),
            None => true,
        },
{
    match a[node as int] {
        LogicalOp::Limit { input, .. } => {
            assert(op_children(a[node as int])[0] == input);
            if input.0 < a.len() {
                match a[input.0 as int] {
                    LogicalOp::Project { input: inner, .. } => {
                        assert(op_children(a[input.0 as int])[0] == inner);
                    },
                    _ => {},
                }
            }
        },
        _ => {},
    }
}

impl OptimizerRule for PushDownLimit {
    open spec fn rule_name(&self) -> Seq<char> {
        "push_down_limit"@
    }

    fn name(&self) -> (r: &str) {
        "push_down_limit"
    }

    open spec fn rewrite_view(&self, v: PlanView) -> (bool, PlanView) {
        apply_outcome(v, push_limit_at(ops_with(v.nodes), v.root.0 as nat))
    }

    open spec fn traversal_order(&self) -> ApplyOrder {
        ApplyOrder::TopDown
    }

    fn apply_order(&self) -> (r: ApplyOrder) {
        ApplyOrder::TopDown
    }

    fn rewrite(&self, plan: LogicalPlan) -> (r: Transformed)
        ensures
            rewrote_to(plan, r, push_limit_at(plan.arena@, plan.root.0 as nat)),
    {
        let root = plan.root;
        let ghost old = plan;
        let r = self.rewrite_node(plan, root);
        proof {
            lemma_push_limit_wf(old.arena@, root.0 as nat);
            lemma_rewrite_keeps_wf(old, r, push_limit_at(old.arena@, root.0 as nat));
            lemma_ops_with(old);
            lemma_push_limit_same(ops_with(plan_view(old).nodes), old.arena@, root.0 as nat);
            lemma_rewrote_to_view(old, r, push_limit_at(old.arena@, root.0 as nat));
        }
        r
    }
}

// ─── Rule: eliminate no-op limits ─────────────────────────────────

/// Remove LIMIT when it is a no-op; row counts are not known to plans, so
/// this rule never changes a plan.
#[derive(Debug)]
pub struct EliminateLimit;

impl OptimizerRule for EliminateLimit {
    open spec fn rule_name(&self) -> Seq<char> {
        "eliminate_limit"@
    }

    fn name(&self) -> (r: &str) {
        "eliminate_limit"
    }

    open spec fn rewrite_view(&self, v: PlanView) -> (bool, PlanView) {
        (false, v)
    }

    open spec fn traversal_order(&self) -> ApplyOrder {
        ApplyOrder::BottomUp
    }

    fn apply_order(&self) -> (r: ApplyOrder) {
        ApplyOrder::BottomUp
    }

    fn rewrite(&self, plan: LogicalPlan) -> (r: Transformed)
        ensures
            !r.changed,
            r.plan == plan,
    {
        proof {
            lemma_extends_refl(plan);
        }
        Transformed::no(plan)
    }
}

// ─── Rule: propagate empty relations ──────────────────────────────

/// When an empty relation feeds a filter, projection or limit, the result is
/// that empty relation.
#[derive(Debug)]
pub struct PropagateEmptyRelation;

/// PropagateEmptyRelation at `node`: a filter, projection or limit over an
/// empty relation gives way to it.
pub open spec fn propagate_empty_at(a: Seq<LogicalOp>, node: nat) -> Option<(Seq<NodeSpec>, NodeId)> {
    if node >= a.len() {
        None
    } else {
        match a[node as int] {
            LogicalOp::Filter { input, .. } => empty_input(a, input),
            LogicalOp::Project { input, .. } => empty_input(a, input),
            LogicalOp::Limit { input, .. } => empty_input(a, input),
            _ => None,
        }
    }
}

/// Re-rooting at `input` when it is an empty relation.
pub open spec fn empty_input(a: Seq<LogicalOp>, input: NodeId) -> Option<(Seq<NodeSpec>, NodeId)> {
    if input.0 < a.len() && a[input.0 as int] is Empty {
        Some((Seq::empty(), input))
    } else {
        None
    }
}

impl PropagateEmptyRelation {
    fn rewrite_node(&self, plan: LogicalPlan, node: NodeId) -> (r: Transformed)
        requires
            arena_wf(plan.arena@),
            node.0 < plan.arena@.len(),
        ensures
            rewrote_to(plan, r, propagate_empty_at(plan.arena@, node.0 as nat)),
    {
        let ghost a = plan.arena@;
        let input = match plan.arena.get(node) {
            LogicalOp::Filter { input, .. } => *input,
            LogicalOp::Project { input, .. } => *input,
            LogicalOp::Limit { input, .. } => *input,
            _ => {
                return Transformed::no(plan);
            },
        };
        proof {
            assert(op_children(a[node.0 as int])[0] == input);
        }
        if matches!(plan.arena.get(input), LogicalOp::Empty { .. }) {
            let mut plan = plan;
            plan.root = input;
            proof {
                assert(plan.arena@.subrange(0, a.len() as int) =~= a);
            }
            Transformed::yes(plan)
        } else {
            Transformed::no(plan)
        }
    }
}

proof fn lemma_propagate_empty_wf(a: Seq<LogicalOp>, node: nat)
    requires
        arena_wf(a),
        node < a.len(),
    ensures
        outcome_wf(a.len() as int, propagate_empty_at(a, node)),
{
}

impl OptimizerRule for PropagateEmptyRelation {
    open spec fn rule_name(&self) -> Seq<char> {
        "propagate_empty"@
    }

    fn name(&self) -> (r: &str) {
        "propagate_empty"
    }

    open spec fn rewrite_view(&self, v: PlanView) -> (bool, PlanView) {
        apply_outcome(v, propagate_empty_at(ops_with(v.nodes), v.root.0 as nat))
    }

    open spec fn traversal_order(&self) -> ApplyOrder {
        ApplyOrder::BottomUp
    }

    fn apply_order(&self) -> (r: ApplyOrder) {
        ApplyOrder::BottomUp
    }

    fn rewrite(&self, plan: LogicalPlan) -> (r: Transformed)
        ensures
            rewrote_to(plan, r, propagate_empty_at(plan.arena@, plan.root.0 as nat)),
    {
        let root = plan.root;
        let ghost old = plan;
        let r = self.rewrite_node(plan, root);
        proof {
            lemma_propagate_empty_wf(old.arena@, root.0 as nat);
            lemma_rewrite_keeps_wf(old, r, propagate_empty_at(old.arena@, root.0 as nat));
            lemma_ops_with(old);
            lemma_propagate_empty_same(ops_with(plan_view(old).nodes), old.arena@, root.0 as nat);
            lemma_rewrote_to_view(old, r, propagate_empty_at(old.arena@, root.0 as nat));
        }
        r
    }
}

// ─── Rule: common subexpressions ──────────────────────────────────

/// Deduplicate repeated subexpressions; expressions are not hashed yet, so
/// this rule never changes a plan.
#[derive(Debug)]
pub struct CommonSubexprEliminate;

impl OptimizerRule for CommonSubexprEliminate {
    open spec fn rule_name(&self) -> Seq<char> {
        "common_subexpr_eliminate"@
    }

    fn name(&self) -> (r: &str) {
        "common_subexpr_eliminate"
    }

    open spec fn rewrite_view(&self, v: PlanView) -> (bool, PlanView) {
        (false, v)
    }

    open spec fn traversal_order(&self) -> ApplyOrder {
        ApplyOrder::BottomUp
    }

    fn apply_order(&self) -> (r: ApplyOrder) {
        ApplyOrder::BottomUp
    }

    fn rewrite(&self, plan: LogicalPlan) -> (r: Transformed)
        ensures
            !r.changed,
            r.plan == plan,
    {
        proof {
            lemma_extends_refl(plan);
        }
        Transformed::no(plan)
    }
}

impl Optimizer {
    /// Create an optimizer with the default rules, in this order: eliminate
    /// filter, simplify expressions, push down filter, push down projection,
    /// push down limit, eliminate limit, propagate empty relation, common
    /// subexpression elimination.
    pub fn with_defaults() -> (r: Self)
        ensures
            r.max_rounds() == 10,
            r.rule_count() == 8,
            forall|k: int| 0 <= k < 8 ==> #[trigger] r.rule_name_at(k) == default_rule_name(k),
            forall|k: int, v: PlanView| 0 <= k < 8 ==> #[trigger] r.rule_view_at(k, v) == default_rule_view(k, v),
    {
        Optimizer { rules: Vec::new(), builtin: true, max_iterations: 10 }
    }
}

} // verus!
