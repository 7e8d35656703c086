//! The logical plan: an append-only graph of operators joined by flow edges,
//! and the expression model that its nodes are built from.

use std::collections::HashMap;
use vstd::prelude::*;

verus! {

/// `partiql_value::Value`: a runtime value. Literals of the expression model
/// carry one; nothing here looks inside it.
#[verifier::external_type_specification]
#[verifier::external_body]
pub struct ExValue(partiql_value::Value);

/// `partiql_value::BindingsName`: the name of a binding, looked up with or
/// without regard to case. Variable references carry one.
#[verifier::external_type_specification]
#[verifier::external_body]
pub struct ExBindingsName(partiql_value::BindingsName);

/// Names a node of the plan that minted it: the N-th operator added has index N.
#[derive(Eq, PartialEq, Debug, Clone, Copy, Hash, Structural)]
pub struct OpId(usize);

impl OpId {
    /// The index as a mathematical value.
    pub closed spec fn spec_index(&self) -> usize {
        self.0
    }

    #[verifier::when_used_as_spec(spec_index)]
    pub fn index(&self) -> (r: usize)
        ensures
            r == self.spec_index(),
    {
        self.0
    }

    /// Two identifiers are the same exactly when their indices are.
    pub proof fn lemma_eq_by_index(a: OpId, b: OpId)
        ensures
            (a == b) <==> (a.spec_index() == b.spec_index()),
    {
    }
}

/// What a plan holds, as mathematics: its operators in creation order and its
/// flows in insertion order, each flow a pair of operator indices.
pub struct PlanModel<T> {
    pub nodes: Seq<T>,
    pub edges: Seq<(usize, usize)>,
}

impl<T> PlanModel<T> {
    pub open spec fn empty() -> Self {
        PlanModel { nodes: Seq::empty(), edges: Seq::empty() }
    }

    /// An index names an operator that is already there.
    pub open spec fn minted(self, idx: usize) -> bool {
        1 <= idx <= self.nodes.len()
    }

    pub open spec fn add_operator(self, op: T) -> Self {
        PlanModel { nodes: self.nodes.push(op), edges: self.edges }
    }

    pub open spec fn add_flow(self, src: usize, dst: usize) -> Self {
        PlanModel { nodes: self.nodes, edges: self.edges.push((src, dst)) }
    }

    /// Every flow joins two operators of this plan.
    pub open spec fn well_formed(self) -> bool {
        forall|i: int|
            0 <= i < self.edges.len() ==> self.minted(#[trigger] self.edges[i].0) && self.minted(
                self.edges[i].1,
            )
    }
}

/// One step of building a plan.
pub enum PlanStep<T> {
    Operator(T),
    Flow(usize, usize),
}

/// The steps are in order: each flow joins operators added before it.
pub open spec fn steps_in_order<T>(start: PlanModel<T>, steps: Seq<PlanStep<T>>) -> bool
    decreases steps.len(),
{
    if steps.len() == 0 {
        true
    } else {
        let rest = steps.drop_last();
        steps_in_order(start, rest) && match steps.last() {
            PlanStep::Operator(_) => true,
            PlanStep::Flow(src, dst) => {
                let before = run_steps(start, rest);
                before.minted(src) && before.minted(dst)
            },
        }
    }
}

/// The plan after the steps, taken from `start`.
pub open spec fn run_steps<T>(start: PlanModel<T>, steps: Seq<PlanStep<T>>) -> PlanModel<T>
    decreases steps.len(),
{
    if steps.len() == 0 {
        start
    } else {
        let before = run_steps(start, steps.drop_last());
        match steps.last() {
            PlanStep::Operator(op) => before.add_operator(op),
            PlanStep::Flow(src, dst) => before.add_flow(src, dst),
        }
    }
}

/// How many of the steps add an operator.
pub open spec fn count_operators<T>(steps: Seq<PlanStep<T>>) -> nat
    decreases steps.len(),
{
    if steps.len() == 0 {
        0
    } else {
        count_operators(steps.drop_last()) + if steps.last() is Operator {
            1nat
        } else {
            0nat
        }
    }
}

/// How many of the steps add a flow.
pub open spec fn count_flows<T>(steps: Seq<PlanStep<T>>) -> nat
    decreases steps.len(),
{
    if steps.len() == 0 {
        0
    } else {
        count_flows(steps.drop_last()) + if steps.last() is Flow {
            1nat
        } else {
            0nat
        }
    }
}

/// A plan only grows. After any steps in order from a well-formed plan, the
/// operators are those of before followed by one per operator step, the flows
/// are those of before followed by one per flow step, nothing that was there has
/// changed, and every flow still joins two operators of the plan.
pub proof fn lemma_plan_append_only<T>(start: PlanModel<T>, steps: Seq<PlanStep<T>>)
    requires
        start.well_formed(),
        steps_in_order(start, steps),
    ensures
        run_steps(start, steps).nodes.len() == start.nodes.len() + count_operators(steps),
        run_steps(start, steps).edges.len() == start.edges.len() + count_flows(steps),
        start.nodes.is_prefix_of(run_steps(start, steps).nodes),
        start.edges.is_prefix_of(run_steps(start, steps).edges),
        run_steps(start, steps).well_formed(),
    decreases steps.len(),
{
    if steps.len() > 0 {
        lemma_plan_append_only(start, steps.drop_last());
    }
}

/// From the empty plan: the operator count is the number of operator steps, and
/// no flow has an endpoint beyond it.
pub proof fn lemma_plan_from_empty<T>(steps: Seq<PlanStep<T>>)
    requires
        steps_in_order(PlanModel::<T>::empty(), steps),
    ensures
        run_steps(PlanModel::<T>::empty(), steps).nodes.len() == count_operators(steps),
        forall|i: int|
            #![trigger run_steps(PlanModel::<T>::empty(), steps).edges[i]]
            0 <= i < run_steps(PlanModel::<T>::empty(), steps).edges.len() ==> {
                let e = run_steps(PlanModel::<T>::empty(), steps).edges[i];
                1 <= e.0 <= count_operators(steps) && 1 <= e.1 <= count_operators(steps)
            },
{
    lemma_plan_append_only(PlanModel::<T>::empty(), steps);
}

/// The flows as pairs of indices.
pub open spec fn edge_indices(edges: Seq<(OpId, OpId)>) -> Seq<(usize, usize)> {
    Seq::new(edges.len(), |i: int| (edges[i].0.spec_index(), edges[i].1.spec_index()))
}

/// A directed graph of operators. Operators and flows are only ever appended.
#[derive(Debug)]
pub struct LogicalPlan<T> {
    nodes: Vec<T>,
    edges: Vec<(OpId, OpId)>,
}

impl<T> View for LogicalPlan<T> {
    type V = PlanModel<T>;

    closed spec fn view(&self) -> PlanModel<T> {
        PlanModel { nodes: self.nodes@, edges: edge_indices(self.edges@) }
    }
}

impl<T> LogicalPlan<T> {
    #[verifier::type_invariant]
    spec fn inv(&self) -> bool {
        self@.well_formed()
    }

    /// A plan with no operator and no flow.
    pub fn new() -> (plan: Self)
        ensures
            plan@ == PlanModel::<T>::empty(),
    {
        let plan = LogicalPlan { nodes: Vec::new(), edges: Vec::new() };
        assert(plan@.edges =~= Seq::empty());
        plan
    }

    /// Appends an operator and names it: the N-th operator gets index N.
    pub fn add_operator(&mut self, op: T) -> (id: OpId)
        ensures
            final(self)@ == old(self)@.add_operator(op),
            id.spec_index() == final(self)@.nodes.len(),
            final(self)@.minted(id.spec_index()),
    {
        let mut taken = LogicalPlan::new();
        core::mem::swap(self, &mut taken);
        proof {
            use_type_invariant(&taken);
        }
        let ghost before = taken@;
        let LogicalPlan { nodes, edges } = taken;
        let mut nodes = nodes;
        nodes.push(op);
        let id = OpId(nodes.len());
        proof {
            let after = PlanModel { nodes: nodes@, edges: edge_indices(edges@) };
            assert forall|i: int| 0 <= i < after.edges.len() implies after.minted(
                #[trigger] after.edges[i].0,
            ) && after.minted(after.edges[i].1) by {
                assert(before.minted(before.edges[i].0));
            }
        }
        *self = LogicalPlan { nodes, edges };
        id
    }

    /// Appends the flow from `src` to `dst`, both of them operators of this plan.
    pub fn add_flow(&mut self, src: OpId, dst: OpId)
        requires
            old(self)@.minted(src.spec_index()),
            old(self)@.minted(dst.spec_index()),
        ensures
            final(self)@ == old(self)@.add_flow(src.spec_index(), dst.spec_index()),
    {
        let mut taken = LogicalPlan::new();
        core::mem::swap(self, &mut taken);
        proof {
            use_type_invariant(&taken);
        }
        let LogicalPlan { nodes, edges } = taken;
        let mut edges = edges;
        edges.push((src, dst));
        assert(edge_indices(edges@) =~= old(self)@.edges.push(
            (src.spec_index(), dst.spec_index()),
        ));
        *self = LogicalPlan { nodes, edges };
    }

    /// Appends the flow from `src` to `dst` if both are operators of this plan,
    /// and says whether it did.
    pub fn try_add_flow(&mut self, src: OpId, dst: OpId) -> (added: bool)
        ensures
            added == (old(self)@.minted(src.spec_index()) && old(self)@.minted(dst.spec_index())),
            added ==> final(self)@ == old(self)@.add_flow(src.spec_index(), dst.spec_index()),
            !added ==> final(self)@ == old(self)@,
    {
        let n = self.nodes.len();
        if 1 <= src.index() && src.index() <= n && 1 <= dst.index() && dst.index() <= n {
            self.add_flow(src, dst);
            true
        } else {
            false
        }
    }

    /// How many operators the plan holds.
    pub fn operator_count(&self) -> (n: usize)
        ensures
            n == self@.nodes.len(),
    {
        self.nodes.len()
    }

    /// The operators in creation order: the one with index N stands at N - 1.
    pub fn operators(&self) -> (ops: &Vec<T>)
        ensures
            ops@ == self@.nodes,
    {
        &self.nodes
    }

    /// The flows in insertion order, each joining two operators of this plan.
    pub fn flows(&self) -> (flows: &Vec<(OpId, OpId)>)
        ensures
            edge_indices(flows@) == self@.edges,
            self@.well_formed(),
    {
        proof {
            use_type_invariant(self);
        }
        &self.edges
    }
}

/// The operators of one operand.
#[derive(Clone, Debug)]
pub enum UnaryOp {
    Pos,
    Neg,
    Not,
}

/// The operators of two operands: logic, comparison, concatenation, and
/// arithmetic.
#[derive(Clone, Debug)]
pub enum BinaryOp {
    And,
    Or,
    Concat,
    Eq,
    Neq,
    Gt,
    Gteq,
    Lt,
    Lteq,
    Add,
    Sub,
    Mul,
    Div,
    Mod,
    Exp,
}

/// One step of a path: into a tuple by key, or into a list by index.
#[derive(Clone, Debug)]
pub enum PathComponent {
    Key(String),
    Index(i64),
}

/// An expression that gives a value.
#[derive(Debug)]
pub enum ValueExpr {
    UnExpr(UnaryOp, Box<ValueExpr>),
    BinaryExpr(BinaryOp, Box<ValueExpr>, Box<ValueExpr>),
    Lit(Box<partiql_value::Value>),
    Path(Box<ValueExpr>, Vec<PathComponent>),
    VarRef(partiql_value::BindingsName),
}

/// A stage of a pipeline that gives bindings. The stages without fields have
/// no shape of their own yet.
#[derive(Debug)]
pub enum BindingsExpr {
    From(From),
    Scan(Scan),
    Unpivot,
    Where(Where),
    OrderBy,
    Offset,
    Limit,
    Join,
    SetOp,
    SelectValue(SelectValue),
    Select(Select),
    Project(Project),
    Distinct(Distinct),
    GroupBy,
    /// The end of a pipeline.
    Output,
}

impl Default for BindingsExpr {
    fn default() -> (e: Self)
        ensures
            e is Output,
    {
        BindingsExpr::Output
    }
}

/// Brings the elements of a value into scope as bindings: each element under
/// `as_key`, and its place under `at_key` where one is given.
#[derive(Debug)]
pub struct From {
    pub expr: ValueExpr,
    pub as_key: String,
    pub at_key: Option<String>,
    pub out: Box<BindingsExpr>,
}

/// As `From`, at the root of a pipeline.
#[derive(Debug)]
pub struct Scan {
    pub expr: ValueExpr,
    pub as_key: String,
    pub at_key: Option<String>,
}

/// Keeps the bindings for which `expr` holds.
#[derive(Debug)]
pub struct Where {
    pub expr: ValueExpr,
    pub out: Box<BindingsExpr>,
}

/// Gives a tuple for each binding: under each name the value of its
/// expression.
#[derive(Debug)]
pub struct Select {
    pub exprs: HashMap<String, ValueExpr>,
    pub out: Box<BindingsExpr>,
}

#[derive(Debug)]
pub struct Project {
    pub exprs: HashMap<String, ValueExpr>,
}

/// Gives one value for each binding.
#[derive(Debug)]
pub struct SelectValue {
    pub exprs: ValueExpr,
    pub out: Box<ValueExpr>,
}

#[derive(Debug)]
pub struct Distinct {
    pub out: Box<BindingsExpr>,
}

} // verus!
