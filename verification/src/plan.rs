//! The logical plan: the front-end-agnostic operator tree that every
//! query language lowers to, together with the binding discipline
//! that makes a plan well formed — every variable an expression
//! references must be bound by a scan, expand or create beneath it,
//! or name a user-introduced alias.

use vstd::prelude::*;

use crate::value::Value;

verus! {

broadcast use vstd::std_specs::vec::axiom_vec_index_decreases;

/// Binary operator of a [`LogicalExpression`].
#[derive(Debug, Clone, Copy, PartialEq, Eq, Structural)]
pub enum BinaryOp {
    /// Equal.
    Eq,
    /// Not equal.
    Ne,
    /// Less than.
    Lt,
    /// Less than or equal.
    Le,
    /// Greater than.
    Gt,
    /// Greater than or equal.
    Ge,
    /// Logical conjunction.
    And,
    /// Logical disjunction.
    Or,
    /// Membership in a list.
    In,
    /// Substring containment.
    Contains,
    /// String prefix test.
    StartsWith,
    /// String suffix test.
    EndsWith,
    /// Addition.
    Add,
    /// Subtraction.
    Sub,
    /// Multiplication.
    Mul,
    /// Division.
    Div,
}

/// Unary operator of a [`LogicalExpression`].
#[derive(Debug, Clone, Copy, PartialEq, Eq, Structural)]
pub enum UnaryOp {
    /// Logical negation.
    Not,
    /// Null test.
    IsNull,
    /// Non-null test.
    IsNotNull,
    /// Arithmetic negation.
    Neg,
}

/// An expression over the variables a plan binds.
#[derive(Debug)]
#[allow(inconsistent_fields)]
pub enum LogicalExpression {
    /// A constant.
    Literal(Value),
    /// A bound variable.
    Variable(String),
    /// A property of the entity a variable is bound to.
    Property {
        /// The variable holding the entity.
        variable: String,
        /// The property key.
        property: String,
    },
    /// The identifier of the entity a variable is bound to.
    Id(String),
    /// The labels of the entity a variable is bound to.
    Labels(String),
    /// A list of expressions.
    List(Vec<LogicalExpression>),
    /// A binary operation.
    Binary {
        /// Left operand.
        left: Box<LogicalExpression>,
        /// Operator.
        op: BinaryOp,
        /// Right operand.
        right: Box<LogicalExpression>,
    },
    /// A unary operation.
    Unary {
        /// Operator.
        op: UnaryOp,
        /// Operand.
        operand: Box<LogicalExpression>,
    },
}

impl Clone for LogicalExpression {
    /// Deep copy; the copy references exactly the variables the
    /// original does.
    fn clone(&self) -> (r: LogicalExpression)
        ensures
            expr_free_vars(r) == expr_free_vars(*self),
        decreases self,
    {
        match self {
            LogicalExpression::Literal(v) => LogicalExpression::Literal(v.clone()),
            LogicalExpression::Variable(s) => LogicalExpression::Variable(s.clone()),
            LogicalExpression::Property { variable, property } => LogicalExpression::Property {
                variable: variable.clone(),
                property: property.clone(),
            },
            LogicalExpression::Id(s) => LogicalExpression::Id(s.clone()),
            LogicalExpression::Labels(s) => LogicalExpression::Labels(s.clone()),
            LogicalExpression::List(es) => {
                let n = es.len();
                let mut out: Vec<LogicalExpression> = Vec::new();
                let mut j: usize = 0;
                while j < n
                    invariant
                        *self == LogicalExpression::List(*es),
                        j <= n,
                        n == es@.len(),
                        out@.len() == j,
                        forall|i: int|
                            0 <= i < j ==> expr_free_vars(#[trigger] out@[i]) == expr_free_vars(
                                es@[i],
                            ),
                    decreases n - j,
                {
                    proof {
                        assert(decreases_to!(*self => self->List_0));
                        assert(self->List_0 == *es);
                        assert(decreases_to!(*es => es@));
                        assert(decreases_to!(es@ => es@[j as int]));
                    }
                    out.push(es[j].clone());
                    j = j + 1;
                }
                let r = LogicalExpression::List(out);
                proof {
                    assert forall|v: Seq<char>|
                        expr_free_vars(r).contains(v) implies expr_free_vars(*self).contains(
                        v,
                    ) by {
                        let i = choose|i: int|
                            0 <= i < out@.len() && expr_free_vars(#[trigger] out@[i]).contains(v);
                        assert(expr_free_vars(es@[i]).contains(v));
                    }
                    assert forall|v: Seq<char>|
                        expr_free_vars(*self).contains(v) implies expr_free_vars(r).contains(
                        v,
                    ) by {
                        let i = choose|i: int|
                            0 <= i < es@.len() && expr_free_vars(#[trigger] es@[i]).contains(v);
                        assert(expr_free_vars(out@[i]).contains(v));
                    }
                    assert(expr_free_vars(r) =~= expr_free_vars(*self));
                }
                r
            },
            LogicalExpression::Binary { left, op, right } => LogicalExpression::Binary {
                left: Box::new((**left).clone()),
                op: *op,
                right: Box::new((**right).clone()),
            },
            LogicalExpression::Unary { op, operand } => LogicalExpression::Unary {
                op: *op,
                operand: Box::new((**operand).clone()),
            },
        }
    }
}

/// Direction of an [`ExpandOp`].
#[derive(Debug, Clone, Copy, PartialEq, Eq, Structural)]
pub enum ExpandDirection {
    /// Follow outgoing edges.
    Outgoing,
    /// Follow incoming edges.
    Incoming,
    /// Follow edges in either direction.
    Both,
}

/// Sort direction of a [`SortKey`].
#[derive(Debug, Clone, Copy, PartialEq, Eq, Structural)]
pub enum SortOrder {
    /// Smallest first.
    Ascending,
    /// Largest first.
    Descending,
}

/// Aggregate function of an [`AggregateExpr`].
#[derive(Debug, Clone, Copy, PartialEq, Eq, Structural)]
pub enum AggregateFunction {
    /// Number of rows.
    Count,
    /// Sum of the values.
    Sum,
    /// Arithmetic mean of the values.
    Avg,
    /// Least value.
    Min,
    /// Greatest value.
    Max,
    /// All values collected into a list.
    Collect,
    /// Number of distinct values.
    CountDistinct,
}

/// One projected column of a [`ReturnOp`] or [`ProjectOp`].
#[derive(Debug)]
pub struct ReturnItem {
    /// What to project.
    pub expression: LogicalExpression,
    /// The column name, when one was chosen.
    pub alias: Option<String>,
}

/// One sort key of a [`SortOp`].
#[derive(Debug)]
pub struct SortKey {
    /// What to sort by.
    pub expression: LogicalExpression,
    /// Which way to sort.
    pub order: SortOrder,
}

/// One aggregate of an [`AggregateOp`].
#[derive(Debug)]
pub struct AggregateExpr {
    /// The aggregate function.
    pub function: AggregateFunction,
    /// Its argument; `None` for a bare row count.
    pub expression: Option<LogicalExpression>,
    /// Whether duplicates are dropped before aggregating.
    pub distinct: bool,
    /// The output column name, when one was chosen.
    pub alias: Option<String>,
}

/// Scans nodes, optionally by label, binding each to `variable`.
#[derive(Debug)]
pub struct NodeScanOp {
    /// The variable bound to each scanned node.
    pub variable: String,
    /// Only nodes with this label, when set.
    pub label: Option<String>,
    /// Upstream operator, if the scan extends earlier rows.
    pub input: Option<Box<LogicalOperator>>,
}

/// Walks edges from the nodes bound to `from_variable`.
#[derive(Debug)]
pub struct ExpandOp {
    /// The variable the walk starts from; must be bound upstream.
    pub from_variable: String,
    /// The variable bound to each reached node.
    pub to_variable: String,
    /// The variable bound to each walked edge, when wanted.
    pub edge_variable: Option<String>,
    /// Which way to walk.
    pub direction: ExpandDirection,
    /// Only edges of this type, when set.
    pub edge_type: Option<String>,
    /// Least number of hops.
    pub min_hops: u32,
    /// Greatest number of hops, `None` for unbounded.
    pub max_hops: Option<u32>,
    /// Upstream operator.
    pub input: Box<LogicalOperator>,
}

/// Keeps the rows whose predicate holds under three-valued logic.
#[derive(Debug)]
pub struct FilterOp {
    /// The predicate.
    pub predicate: LogicalExpression,
    /// Upstream operator.
    pub input: Box<LogicalOperator>,
}

/// Projects the final columns of a statement.
#[derive(Debug)]
pub struct ReturnOp {
    /// The projected columns.
    pub items: Vec<ReturnItem>,
    /// Whether duplicate rows are dropped.
    pub distinct: bool,
    /// Upstream operator.
    pub input: Box<LogicalOperator>,
}

/// Projects intermediate columns.
#[derive(Debug)]
pub struct ProjectOp {
    /// The projected columns.
    pub items: Vec<ReturnItem>,
    /// Upstream operator.
    pub input: Box<LogicalOperator>,
}

/// Groups and aggregates rows.
#[derive(Debug)]
pub struct AggregateOp {
    /// Grouping keys; empty for one global group.
    pub group_by: Vec<LogicalExpression>,
    /// The aggregates to compute.
    pub aggregates: Vec<AggregateExpr>,
    /// Upstream operator.
    pub input: Box<LogicalOperator>,
}

/// Orders rows by a list of keys.
#[derive(Debug)]
pub struct SortOp {
    /// The sort keys, most significant first.
    pub keys: Vec<SortKey>,
    /// Upstream operator.
    pub input: Box<LogicalOperator>,
}

/// Drops the first `count` rows.
#[derive(Debug)]
pub struct SkipOp {
    /// How many rows to drop.
    pub count: u64,
    /// Upstream operator.
    pub input: Box<LogicalOperator>,
}

/// Keeps at most `count` rows.
#[derive(Debug)]
pub struct LimitOp {
    /// How many rows to keep.
    pub count: u64,
    /// Upstream operator.
    pub input: Box<LogicalOperator>,
}

/// Drops duplicate rows.
#[derive(Debug)]
pub struct DistinctOp {
    /// Upstream operator.
    pub input: Box<LogicalOperator>,
}

/// Creates a node per input row, binding it to `variable`.
#[derive(Debug)]
pub struct CreateNodeOp {
    /// The variable bound to the created node.
    pub variable: String,
    /// Labels of the created node.
    pub labels: Vec<String>,
    /// Properties of the created node.
    pub properties: Vec<(String, LogicalExpression)>,
    /// Upstream operator, if the create extends earlier rows.
    pub input: Option<Box<LogicalOperator>>,
}

/// Creates an edge per input row between two bound endpoints.
#[derive(Debug)]
pub struct CreateEdgeOp {
    /// The variable bound to the created edge, when wanted.
    pub variable: Option<String>,
    /// The variable holding the source node.
    pub from_variable: String,
    /// The variable holding the destination node.
    pub to_variable: String,
    /// Type of the created edge.
    pub edge_type: String,
    /// Properties of the created edge.
    pub properties: Vec<(String, LogicalExpression)>,
    /// Upstream operator.
    pub input: Box<LogicalOperator>,
}

/// Sets properties on the entity a variable is bound to.
#[derive(Debug)]
pub struct SetPropertyOp {
    /// The variable holding the entity.
    pub variable: String,
    /// The properties to set.
    pub properties: Vec<(String, LogicalExpression)>,
    /// Whether the new properties replace the whole property map.
    pub replace: bool,
    /// Upstream operator.
    pub input: Box<LogicalOperator>,
}

/// Deletes the entity a variable is bound to, with its edges.
#[derive(Debug)]
pub struct DeleteNodeOp {
    /// The variable holding the entity.
    pub variable: String,
    /// Upstream operator.
    pub input: Box<LogicalOperator>,
}

/// Concatenates the rows of two inputs.
#[derive(Debug)]
pub struct UnionOp {
    /// First input.
    pub left: Box<LogicalOperator>,
    /// Second input.
    pub right: Box<LogicalOperator>,
}

/// Joins the rows of two inputs on their shared variables.
#[derive(Debug)]
pub struct JoinOp {
    /// Build side.
    pub left: Box<LogicalOperator>,
    /// Probe side.
    pub right: Box<LogicalOperator>,
}

/// Keeps the input row even when its dependent part finds no match.
#[derive(Debug)]
pub struct OptionalOp {
    /// Upstream operator.
    pub input: Box<LogicalOperator>,
}

/// One operator of a logical plan.
#[derive(Debug)]
pub enum LogicalOperator {
    /// Node scan.
    NodeScan(NodeScanOp),
    /// Adjacency walk.
    Expand(ExpandOp),
    /// Row filter.
    Filter(FilterOp),
    /// Final projection.
    Return(ReturnOp),
    /// Intermediate projection.
    Project(ProjectOp),
    /// Grouping and aggregation.
    Aggregate(AggregateOp),
    /// Ordering.
    Sort(SortOp),
    /// Row offset.
    Skip(SkipOp),
    /// Row limit.
    Limit(LimitOp),
    /// Duplicate elimination.
    Distinct(DistinctOp),
    /// Node creation.
    CreateNode(CreateNodeOp),
    /// Edge creation.
    CreateEdge(CreateEdgeOp),
    /// Property update.
    SetProperty(SetPropertyOp),
    /// Node deletion.
    DeleteNode(DeleteNodeOp),
    /// Concatenation of two inputs.
    Union(UnionOp),
    /// Join of two inputs.
    Join(JoinOp),
    /// Optional match.
    Optional(OptionalOp),
}

/// A logical plan: the root of an operator tree.
#[derive(Debug)]
pub struct LogicalPlan {
    /// The root operator.
    pub root: LogicalOperator,
}

impl LogicalPlan {
    /// Wraps a root operator as a plan.
    pub fn new(root: LogicalOperator) -> (r: LogicalPlan)
        ensures
            r.root == root,
    {
        LogicalPlan { root }
    }
}

/// The variables an expression references.
pub open spec fn expr_free_vars(e: LogicalExpression) -> Set<Seq<char>>
    decreases e,
{
    match e {
        LogicalExpression::Literal(_) => Set::empty(),
        LogicalExpression::Variable(v) => Set::empty().insert(v@),
        LogicalExpression::Property { variable, property } => Set::empty().insert(variable@),
        LogicalExpression::Id(v) => Set::empty().insert(v@),
        LogicalExpression::Labels(v) => Set::empty().insert(v@),
        LogicalExpression::List(es) => Set::new(
            |v: Seq<char>|
                exists|i: int| 0 <= i < es@.len() && expr_free_vars(#[trigger] es@[i]).contains(v),
        ),
        LogicalExpression::Binary { left, op, right } => expr_free_vars(*left).union(
            expr_free_vars(*right),
        ),
        LogicalExpression::Unary { op, operand } => expr_free_vars(*operand),
    }
}

/// The variables a sequence of expressions references.
pub open spec fn exprs_free_vars(s: Seq<LogicalExpression>) -> Set<Seq<char>> {
    Set::new(
        |v: Seq<char>|
            exists|i: int| 0 <= i < s.len() && expr_free_vars(#[trigger] s[i]).contains(v),
    )
}

/// The variables the expressions of a list of projected columns
/// reference.
pub open spec fn items_free_vars(s: Seq<ReturnItem>) -> Set<Seq<char>> {
    Set::new(
        |v: Seq<char>|
            exists|i: int|
                0 <= i < s.len() && expr_free_vars((#[trigger] s[i]).expression).contains(v),
    )
}

/// The variables a list of sort keys references.
pub open spec fn sort_keys_free_vars(s: Seq<SortKey>) -> Set<Seq<char>> {
    Set::new(
        |v: Seq<char>|
            exists|i: int|
                0 <= i < s.len() && expr_free_vars((#[trigger] s[i]).expression).contains(v),
    )
}

/// The variables a list of aggregates references.
pub open spec fn aggregates_free_vars(s: Seq<AggregateExpr>) -> Set<Seq<char>> {
    Set::new(
        |v: Seq<char>|
            exists|i: int|
                0 <= i < s.len() && (match (#[trigger] s[i]).expression {
                    Some(e) => expr_free_vars(e).contains(v),
                    None => false,
                }),
    )
}

/// The variables a property list references.
pub open spec fn props_free_vars(s: Seq<(String, LogicalExpression)>) -> Set<Seq<char>> {
    Set::new(
        |v: Seq<char>|
            exists|i: int| 0 <= i < s.len() && expr_free_vars((#[trigger] s[i]).1).contains(v),
    )
}

/// The name an optional variable binds, as a set.
pub open spec fn opt_var_set(o: Option<String>) -> Set<Seq<char>> {
    match o {
        Some(v) => Set::empty().insert(v@),
        None => Set::empty(),
    }
}

/// The variables bound at or below an operator by scans, expands and
/// creates.
pub open spec fn op_bound_vars(op: LogicalOperator) -> Set<Seq<char>>
    decreases op,
{
    match op {
        LogicalOperator::NodeScan(o) => (match o.input {
            Some(i) => op_bound_vars(*i),
            None => Set::empty(),
        }).insert(o.variable@),
        LogicalOperator::Expand(o) => op_bound_vars(*o.input).insert(o.to_variable@).union(
            opt_var_set(o.edge_variable),
        ),
        LogicalOperator::Filter(o) => op_bound_vars(*o.input),
        LogicalOperator::Return(o) => op_bound_vars(*o.input),
        LogicalOperator::Project(o) => op_bound_vars(*o.input),
        LogicalOperator::Aggregate(o) => op_bound_vars(*o.input),
        LogicalOperator::Sort(o) => op_bound_vars(*o.input),
        LogicalOperator::Skip(o) => op_bound_vars(*o.input),
        LogicalOperator::Limit(o) => op_bound_vars(*o.input),
        LogicalOperator::Distinct(o) => op_bound_vars(*o.input),
        LogicalOperator::CreateNode(o) => (match o.input {
            Some(i) => op_bound_vars(*i),
            None => Set::empty(),
        }).insert(o.variable@),
        LogicalOperator::CreateEdge(o) => op_bound_vars(*o.input).union(opt_var_set(o.variable)),
        LogicalOperator::SetProperty(o) => op_bound_vars(*o.input),
        LogicalOperator::DeleteNode(o) => op_bound_vars(*o.input),
        LogicalOperator::Union(o) => op_bound_vars(*o.left).union(op_bound_vars(*o.right)),
        LogicalOperator::Join(o) => op_bound_vars(*o.left).union(op_bound_vars(*o.right)),
        LogicalOperator::Optional(o) => op_bound_vars(*o.input),
    }
}

/// The variables an operator tree references without binding them
/// beneath the reference: the references a plan leaves open. A plan
/// is well formed for a set of user aliases `extra` when its open
/// references are contained in `extra`; a closed plan has none.
pub open spec fn op_open_refs(op: LogicalOperator) -> Set<Seq<char>>
    decreases op,
{
    match op {
        LogicalOperator::NodeScan(o) => match o.input {
            Some(i) => op_open_refs(*i),
            None => Set::empty(),
        },
        LogicalOperator::Expand(o) => op_open_refs(*o.input).union(
            Set::empty().insert(o.from_variable@).difference(op_bound_vars(*o.input)),
        ),
        LogicalOperator::Filter(o) => op_open_refs(*o.input).union(
            expr_free_vars(o.predicate).difference(op_bound_vars(*o.input)),
        ),
        LogicalOperator::Return(o) => op_open_refs(*o.input).union(
            items_free_vars(o.items@).difference(op_bound_vars(*o.input)),
        ),
        LogicalOperator::Project(o) => op_open_refs(*o.input).union(
            items_free_vars(o.items@).difference(op_bound_vars(*o.input)),
        ),
        LogicalOperator::Aggregate(o) => op_open_refs(*o.input).union(
            exprs_free_vars(o.group_by@).union(aggregates_free_vars(o.aggregates@)).difference(
                op_bound_vars(*o.input),
            ),
        ),
        LogicalOperator::Sort(o) => op_open_refs(*o.input).union(
            sort_keys_free_vars(o.keys@).difference(op_bound_vars(*o.input)),
        ),
        LogicalOperator::Skip(o) => op_open_refs(*o.input),
        LogicalOperator::Limit(o) => op_open_refs(*o.input),
        LogicalOperator::Distinct(o) => op_open_refs(*o.input),
        LogicalOperator::CreateNode(o) => {
            let below = match o.input {
                Some(i) => op_open_refs(*i),
                None => Set::empty(),
            };
            let bound = match o.input {
                Some(i) => op_bound_vars(*i),
                None => Set::empty(),
            };
            below.union(props_free_vars(o.properties@).difference(bound))
        },
        LogicalOperator::CreateEdge(o) => op_open_refs(*o.input).union(
            Set::empty().insert(o.from_variable@).insert(o.to_variable@).union(
                props_free_vars(o.properties@),
            ).difference(op_bound_vars(*o.input)),
        ),
        LogicalOperator::SetProperty(o) => op_open_refs(*o.input).union(
            Set::empty().insert(o.variable@).union(props_free_vars(o.properties@)).difference(
                op_bound_vars(*o.input),
            ),
        ),
        LogicalOperator::DeleteNode(o) => op_open_refs(*o.input).union(
            Set::empty().insert(o.variable@).difference(op_bound_vars(*o.input)),
        ),
        LogicalOperator::Union(o) => op_open_refs(*o.left).union(op_open_refs(*o.right)),
        LogicalOperator::Join(o) => op_open_refs(*o.left).union(op_open_refs(*o.right)),
        LogicalOperator::Optional(o) => op_open_refs(*o.input),
    }
}

} // verus!
