//! The Gremlin front end: lowers a parsed traversal to a
//! [`LogicalPlan`]. The contract every front end satisfies holds
//! here by proof: the output tree's root is a `Return`, every
//! variable an expression references is bound by a scan, expand or
//! create beneath it or names an alias the query introduced, the
//! anonymous variables the translation draws can never collide with
//! those aliases, and the whole output tree is pinned, operator by
//! operator, by the lowering relation [`stmt_lowers`].

use vstd::prelude::*;
use vstd::string::StrSliceExecFns;
use vstd::string::StringExecFns;

use crate::ast::{
    pred_wf, reserved_name, step_labels, step_unreserved, step_wf, steps_labels, stmt_labels,
    stmt_unreserved, stmt_wf, ByModifier, FromTo, HasStep, OrderModifier, Predicate, PropertyStep,
    Statement, Step, TokenType, TraversalSource,
};
use crate::error::Error;
use crate::plan::{
    expr_free_vars, items_free_vars, op_bound_vars, op_open_refs, props_free_vars,
    AggregateExpr, AggregateFunction, AggregateOp, BinaryOp, CreateEdgeOp, CreateNodeOp,
    DeleteNodeOp, DistinctOp, ExpandDirection, ExpandOp, FilterOp, LimitOp, LogicalExpression,
    LogicalOperator, LogicalPlan, NodeScanOp, ReturnItem, ReturnOp, SetPropertyOp, SkipOp,
    SortKey, SortOp, SortOrder, UnaryOp,
};
use crate::value::{Value, ValueView};

verus! {

broadcast use vstd::std_specs::vec::axiom_vec_index_decreases;

/// The character of one decimal digit.
pub open spec fn digit_char(d: nat) -> char {
    if d == 0 {
        '0'
    } else if d == 1 {
        '1'
    } else if d == 2 {
        '2'
    } else if d == 3 {
        '3'
    } else if d == 4 {
        '4'
    } else if d == 5 {
        '5'
    } else if d == 6 {
        '6'
    } else if d == 7 {
        '7'
    } else if d == 8 {
        '8'
    } else {
        '9'
    }
}

/// The decimal digits of `n`, most significant first.
pub open spec fn dec_digits(n: nat) -> Seq<char>
    decreases n,
{
    if n < 10 {
        seq![digit_char(n)]
    } else {
        dec_digits(n / 10).push(digit_char(n % 10))
    }
}

/// The name of the anonymous variable numbered `n`: `_v` followed by
/// the decimal digits of `n`.
pub open spec fn var_name(n: nat) -> Seq<char> {
    seq!['_', 'v'] + dec_digits(n)
}

/// One decimal digit as text.
fn digit_str(d: u64) -> (r: &'static str)
    requires
        d < 10,
    ensures
        r@ == seq![digit_char(d as nat)],
{
    proof {
        reveal_strlit("0");
        reveal_strlit("1");
        reveal_strlit("2");
        reveal_strlit("3");
        reveal_strlit("4");
        reveal_strlit("5");
        reveal_strlit("6");
        reveal_strlit("7");
        reveal_strlit("8");
        reveal_strlit("9");
    }
    let r = match d {
        0 => "0",
        1 => "1",
        2 => "2",
        3 => "3",
        4 => "4",
        5 => "5",
        6 => "6",
        7 => "7",
        8 => "8",
        _ => "9",
    };
    proof {
        assert(r@ =~= seq![digit_char(d as nat)]);
    }
    r
}

/// The decimal digits of `n` as text.
fn u64_dec(n: u64) -> (r: String)
    ensures
        r@ == dec_digits(n as nat),
    decreases n,
{
    if n < 10 {
        digit_str(n).to_owned()
    } else {
        let mut s = u64_dec(n / 10);
        s.append(digit_str(n % 10));
        proof {
            assert(s@ =~= dec_digits((n / 10) as nat).push(digit_char((n % 10) as nat)));
        }
        s
    }
}

/// Translator from the Gremlin syntax to a logical plan. Anonymous
/// variables are drawn from a counter unique to the translation.
pub struct GremlinTranslator {
    /// Next anonymous-variable number.
    var_counter: u64,
}

/// An edge being assembled while `from`/`to`/`property` steps after
/// an `addE` step are consumed.
struct PendingEdge {
    /// Type of the edge to create.
    edge_type: String,
    /// Alias naming the source node, once a `from` step arrived.
    from_var: Option<String>,
    /// Alias naming the destination node, once a `to` step arrived.
    to_var: Option<String>,
    /// Properties collected so far.
    properties: Vec<(String, LogicalExpression)>,
}

/// The pending-edge state as the state machine of [`steps_ok`] sees
/// it: whether a source and a destination have been named.
spec fn pend_spec(p: Option<PendingEdge>) -> Option<(bool, bool)> {
    match p {
        Some(pe) => Some((pe.from_var is Some, pe.to_var is Some)),
        None => None,
    }
}

/// The lowering view of a pending edge.
spec fn pend_view(p: Option<PendingEdge>) -> Option<PendingView> {
    match p {
        Some(pe) => Some(
            PendingView {
                etype: pe.edge_type@,
                from: opt_str_view(pe.from_var),
                to: opt_str_view(pe.to_var),
                props: pe.properties@,
            },
        ),
        None => None,
    }
}


/// The view of an optional owned string.
pub open spec fn opt_str_view(o: Option<String>) -> Option<Seq<char>> {
    match o {
        Some(s) => Some(s@),
        None => None,
    }
}

/// How many anonymous variables lowering one step issues.
pub open spec fn step_vars_used(step: Step) -> nat {
    match step {
        Step::Out(_) | Step::In(_) | Step::Both(_) | Step::AddV(_) => 1,
        Step::OutE(_) | Step::InE(_) | Step::BothE(_) => 2,
        _ => 0,
    }
}

/// Whether `ls` is the list of literal expressions denoting the
/// values `vs`, in order.
pub open spec fn literal_list_shape(ls: Seq<LogicalExpression>, vs: Seq<ValueView>) -> bool {
    &&& ls.len() == vs.len()
    &&& forall|i: int|
        0 <= i < ls.len() ==> ((#[trigger] ls[i]) matches LogicalExpression::Literal(li) && li@
            == vs[i])
}

/// The shape of an id filter over the variable `var`: one equality
/// for a single id, a membership test over the literal list
/// otherwise.
pub open spec fn id_filter_shape(r: LogicalExpression, var: Seq<char>, ids: Seq<ValueView>) -> bool {
    if ids.len() == 1 {
        &&& r matches LogicalExpression::Binary { left, op, right }
        &&& *left matches LogicalExpression::Id(v)
        &&& v@ == var
        &&& op == BinaryOp::Eq
        &&& *right matches LogicalExpression::Literal(lv)
        &&& lv@ == ids[0]
    } else {
        &&& r matches LogicalExpression::Binary { left, op, right }
        &&& *left matches LogicalExpression::Id(v)
        &&& v@ == var
        &&& op == BinaryOp::In
        &&& *right matches LogicalExpression::List(ls)
        &&& literal_list_shape(ls@, ids)
    }
}

/// The views of a list of values.
pub open spec fn value_views(vs: Seq<Value>) -> Seq<ValueView> {
    vs.map_values(|v: Value| v@)
}

/// What lowering one step builds on top of `input`, with the current
/// element named `cv` and the anonymous counter at `cnt`: the output
/// operator `out` and the variable `nv` the step rebinds, if any.
/// This is the step-level lowering relation of the front end.
pub open spec fn step_shape(
    step: Step,
    input: LogicalOperator,
    cv: Seq<char>,
    cnt: nat,
    out: LogicalOperator,
    nv: Option<Seq<char>>,
) -> bool {
match step {
            Step::Out(labels) => ({
                &&& out matches LogicalOperator::Expand(e)
                &&& *e.input == input
                &&& e.from_variable@ == cv
                &&& e.to_variable@ == var_name(cnt)
                &&& e.edge_variable is None
                &&& e.direction == ExpandDirection::Outgoing
                &&& (labels@.len() > 0 ==> (e.edge_type matches Some(t) && t@ == labels@[0]@))
                &&& (labels@.len() == 0 ==> e.edge_type is None)
                &&& e.min_hops == 1
                &&& e.max_hops == Some(1u32)
                &&& nv == Some(e.to_variable@)
            }),
            Step::In(labels) => ({
                &&& out matches LogicalOperator::Expand(e)
                &&& *e.input == input
                &&& e.from_variable@ == cv
                &&& e.to_variable@ == var_name(cnt)
                &&& e.edge_variable is None
                &&& e.direction == ExpandDirection::Incoming
                &&& (labels@.len() > 0 ==> (e.edge_type matches Some(t) && t@ == labels@[0]@))
                &&& (labels@.len() == 0 ==> e.edge_type is None)
                &&& e.min_hops == 1
                &&& e.max_hops == Some(1u32)
                &&& nv == Some(e.to_variable@)
            }),
            Step::Both(labels) => ({
                &&& out matches LogicalOperator::Expand(e)
                &&& *e.input == input
                &&& e.from_variable@ == cv
                &&& e.to_variable@ == var_name(cnt)
                &&& e.edge_variable is None
                &&& e.direction == ExpandDirection::Both
                &&& (labels@.len() > 0 ==> (e.edge_type matches Some(t) && t@ == labels@[0]@))
                &&& (labels@.len() == 0 ==> e.edge_type is None)
                &&& e.min_hops == 1
                &&& e.max_hops == Some(1u32)
                &&& nv == Some(e.to_variable@)
            }),
            Step::OutE(labels) => ({
                &&& out matches LogicalOperator::Expand(e)
                &&& *e.input == input
                &&& e.from_variable@ == cv
                &&& e.edge_variable matches Some(ev)
                &&& ev@ == var_name(cnt)
                &&& e.to_variable@ == var_name((cnt + 1) as nat)
                &&& e.direction == ExpandDirection::Outgoing
                &&& (labels@.len() > 0 ==> (e.edge_type matches Some(t) && t@ == labels@[0]@))
                &&& (labels@.len() == 0 ==> e.edge_type is None)
                &&& nv == Some(ev@)
            }),
            Step::InE(labels) => ({
                &&& out matches LogicalOperator::Expand(e)
                &&& *e.input == input
                &&& e.from_variable@ == cv
                &&& e.edge_variable matches Some(ev)
                &&& ev@ == var_name(cnt)
                &&& e.to_variable@ == var_name((cnt + 1) as nat)
                &&& e.direction == ExpandDirection::Incoming
                &&& (labels@.len() > 0 ==> (e.edge_type matches Some(t) && t@ == labels@[0]@))
                &&& (labels@.len() == 0 ==> e.edge_type is None)
                &&& nv == Some(ev@)
            }),
            Step::BothE(labels) => ({
                &&& out matches LogicalOperator::Expand(e)
                &&& *e.input == input
                &&& e.from_variable@ == cv
                &&& e.edge_variable matches Some(ev)
                &&& ev@ == var_name(cnt)
                &&& e.to_variable@ == var_name((cnt + 1) as nat)
                &&& e.direction == ExpandDirection::Both
                &&& (labels@.len() > 0 ==> (e.edge_type matches Some(t) && t@ == labels@[0]@))
                &&& (labels@.len() == 0 ==> e.edge_type is None)
                &&& nv == Some(ev@)
            }),
            Step::Has(_) => ({
                &&& out matches LogicalOperator::Filter(f)
                &&& *f.input == input
                &&& expr_free_vars(f.predicate).subset_of(Set::empty().insert(cv))
                &&& nv is None
            }),
            Step::HasLabel(labels) => ({
                &&& out matches LogicalOperator::Filter(f)
                &&& *f.input == input
                &&& (labels@.len() == 1 ==> ({
                    &&& f.predicate matches LogicalExpression::Binary { left, op, right }
                    &&& *left matches LogicalExpression::Labels(lv)
                    &&& lv@ == cv
                    &&& op == BinaryOp::Eq
                    &&& *right matches LogicalExpression::Literal(lit)
                    &&& lit matches Value::Str(s)
                    &&& s@ == labels@[0]@
                }))
                &&& (labels@.len() != 1 ==> ({
                    &&& f.predicate matches LogicalExpression::Binary { left, op, right }
                    &&& *left matches LogicalExpression::Labels(lv)
                    &&& lv@ == cv
                    &&& op == BinaryOp::In
                    &&& *right matches LogicalExpression::List(ls)
                    &&& ls@.len() == labels@.len()
                    &&& forall|i: int|
                        0 <= i < ls@.len() ==> ((#[trigger] ls@[i])
                            matches LogicalExpression::Literal(li) && li matches Value::Str(
                            si,
                        ) && si@ == labels@[i]@)
                }))
                &&& nv is None
            }),
            Step::HasId(_) => ({
                &&& out matches LogicalOperator::Filter(f)
                &&& *f.input == input
                &&& expr_free_vars(f.predicate).subset_of(Set::empty().insert(cv))
                &&& nv is None
            }),
            Step::HasNot(k) => ({
                &&& out matches LogicalOperator::Filter(f)
                &&& *f.input == input
                &&& f.predicate matches LogicalExpression::Unary { op, operand }
                &&& op == UnaryOp::IsNull
                &&& *operand matches LogicalExpression::Property { variable, property }
                &&& variable@ == cv
                &&& property@ == k@
                &&& nv is None
            }),
            Step::Dedup(_) => ({
                &&& out matches LogicalOperator::Distinct(d)
                &&& *d.input == input
                &&& nv is None
            }),
            Step::Limit(n) => ({
                &&& out matches LogicalOperator::Limit(l)
                &&& l.count == n
                &&& *l.input == input
                &&& nv is None
            }),
            Step::Skip(n) => ({
                &&& out matches LogicalOperator::Skip(s)
                &&& s.count == n
                &&& *s.input == input
                &&& nv is None
            }),
            Step::Range(start, end) => ({
                &&& out matches LogicalOperator::Limit(l)
                &&& l.count == end - start
                &&& *l.input matches LogicalOperator::Skip(s)
                &&& s.count == start
                &&& *s.input == input
                &&& nv is None
            }),
            Step::Values(keys) => ({
                &&& out matches LogicalOperator::Return(ret)
                &&& *ret.input == input
                &&& !ret.distinct
                &&& ret.items@.len() == keys@.len()
                &&& forall|i: int|
                    0 <= i < ret.items@.len() ==> ({
                        &&& (#[trigger] ret.items@[i]).expression
                            matches LogicalExpression::Property { variable, property }
                        &&& variable@ == cv
                        &&& property@ == keys@[i]@
                        &&& ret.items@[i].alias matches Some(a)
                        &&& a@ == keys@[i]@
                    })
                &&& nv is None
            }),
            Step::Id => ({
                &&& out matches LogicalOperator::Return(ret)
                &&& *ret.input == input
                &&& !ret.distinct
                &&& ret.items@.len() == 1
                &&& ret.items@[0].expression matches LogicalExpression::Id(v)
                &&& v@ == cv
                &&& ret.items@[0].alias matches Some(a)
                &&& a@ == "id"@
                &&& nv is None
            }),
            Step::Label => ({
                &&& out matches LogicalOperator::Return(ret)
                &&& *ret.input == input
                &&& !ret.distinct
                &&& ret.items@.len() == 1
                &&& ret.items@[0].expression matches LogicalExpression::Labels(v)
                &&& v@ == cv
                &&& ret.items@[0].alias matches Some(a)
                &&& a@ == "label"@
                &&& nv is None
            }),
            Step::Count => ({
                &&& out matches LogicalOperator::Aggregate(agg)
                &&& *agg.input == input
                &&& agg.group_by@.len() == 0
                &&& agg.aggregates@.len() == 1
                &&& agg.aggregates@[0].function == AggregateFunction::Count
                &&& agg.aggregates@[0].expression is None
                &&& !agg.aggregates@[0].distinct
                &&& agg.aggregates@[0].alias matches Some(a)
                &&& a@ == "count"@
                &&& nv is None
            }),
            Step::Sum => ({
                &&& out matches LogicalOperator::Aggregate(agg)
                &&& *agg.input == input
                &&& agg.group_by@.len() == 0
                &&& agg.aggregates@.len() == 1
                &&& agg.aggregates@[0].function == AggregateFunction::Sum
                &&& agg.aggregates@[0].expression matches Some(e)
                &&& e matches LogicalExpression::Variable(v)
                &&& v@ == cv
                &&& agg.aggregates@[0].alias matches Some(a)
                &&& a@ == "sum"@
                &&& nv is None
            }),
            Step::Mean => ({
                &&& out matches LogicalOperator::Aggregate(agg)
                &&& *agg.input == input
                &&& agg.group_by@.len() == 0
                &&& agg.aggregates@.len() == 1
                &&& agg.aggregates@[0].function == AggregateFunction::Avg
                &&& agg.aggregates@[0].expression matches Some(e)
                &&& e matches LogicalExpression::Variable(v)
                &&& v@ == cv
                &&& agg.aggregates@[0].alias matches Some(a)
                &&& a@ == "mean"@
                &&& nv is None
            }),
            Step::Min => ({
                &&& out matches LogicalOperator::Aggregate(agg)
                &&& *agg.input == input
                &&& agg.group_by@.len() == 0
                &&& agg.aggregates@.len() == 1
                &&& agg.aggregates@[0].function == AggregateFunction::Min
                &&& agg.aggregates@[0].expression matches Some(e)
                &&& e matches LogicalExpression::Variable(v)
                &&& v@ == cv
                &&& agg.aggregates@[0].alias matches Some(a)
                &&& a@ == "min"@
                &&& nv is None
            }),
            Step::Max => ({
                &&& out matches LogicalOperator::Aggregate(agg)
                &&& *agg.input == input
                &&& agg.group_by@.len() == 0
                &&& agg.aggregates@.len() == 1
                &&& agg.aggregates@[0].function == AggregateFunction::Max
                &&& agg.aggregates@[0].expression matches Some(e)
                &&& e matches LogicalExpression::Variable(v)
                &&& v@ == cv
                &&& agg.aggregates@[0].alias matches Some(a)
                &&& a@ == "max"@
                &&& nv is None
            }),
            Step::Fold => ({
                &&& out matches LogicalOperator::Aggregate(agg)
                &&& *agg.input == input
                &&& agg.group_by@.len() == 0
                &&& agg.aggregates@.len() == 1
                &&& agg.aggregates@[0].function == AggregateFunction::Collect
                &&& agg.aggregates@[0].expression matches Some(e)
                &&& e matches LogicalExpression::Variable(v)
                &&& v@ == cv
                &&& agg.aggregates@[0].alias matches Some(a)
                &&& a@ == "fold"@
                &&& nv is None
            }),
            Step::Order(mods) => ({
                &&& out matches LogicalOperator::Sort(srt)
                &&& *srt.input == input
                &&& (mods@.len() == 0 ==> ({
                    &&& srt.keys@.len() == 1
                    &&& srt.keys@[0].expression matches LogicalExpression::Variable(v)
                    &&& v@ == cv
                    &&& srt.keys@[0].order == SortOrder::Ascending
                }))
                &&& (mods@.len() > 0 ==> ({
                    &&& srt.keys@.len() == mods@.len()
                    &&& forall|i: int|
                        0 <= i < srt.keys@.len() ==> ({
                            &&& (#[trigger] srt.keys@[i]).order == (match mods@[i].order {
                                crate::ast::SortOrder::Asc => SortOrder::Ascending,
                                crate::ast::SortOrder::Desc => SortOrder::Descending,
                                crate::ast::SortOrder::Shuffle => SortOrder::Ascending,
                            })
                            &&& expr_free_vars(srt.keys@[i].expression).subset_of(
                                Set::empty().insert(cv),
                            )
                        })
                }))
                &&& nv is None
            }),
            Step::As(l) => ({
                &&& out == input
                &&& nv == Some(l@)
            }),
            Step::Property(ps) => ({
                &&& (input matches LogicalOperator::CreateNode(c) ==> ({
                    &&& out matches LogicalOperator::CreateNode(c2)
                    &&& c2.variable == c.variable
                    &&& c2.labels == c.labels
                    &&& c2.input == c.input
                    &&& c2.properties@.len() == c.properties@.len() + 1
                    &&& (forall|i: int|
                        0 <= i < c.properties@.len() ==> #[trigger] c2.properties@[i]
                            == c.properties@[i])
                    &&& c2.properties@.last().0@ == ps.key@
                    &&& c2.properties@.last().1 matches LogicalExpression::Literal(lv)
                    &&& lv@ == ps.value@
                }))
                &&& (!(input matches LogicalOperator::CreateNode(_)) ==> ({
                    &&& out matches LogicalOperator::SetProperty(sp)
                    &&& sp.variable@ == cv
                    &&& !sp.replace
                    &&& *sp.input == input
                    &&& sp.properties@.len() == 1
                    &&& sp.properties@[0].0@ == ps.key@
                    &&& sp.properties@[0].1 matches LogicalExpression::Literal(lv)
                    &&& lv@ == ps.value@
                }))
                &&& nv is None
            }),
            Step::Drop => ({
                &&& out matches LogicalOperator::DeleteNode(d)
                &&& d.variable@ == cv
                &&& *d.input == input
                &&& nv is None
            }),
            Step::AddV(label) => ({
                &&& out matches LogicalOperator::CreateNode(c)
                &&& c.variable@ == var_name(cnt)
                &&& (match label {
                    Some(l) => c.labels@.len() == 1 && c.labels@[0]@ == l@,
                    None => c.labels@.len() == 0,
                })
                &&& c.properties@.len() == 0
                &&& c.input matches Some(b)
                &&& *b == input
                &&& nv == Some(c.variable@)
            }),
            Step::AddE(_) => out == input && nv is None,
            Step::From(_) => out == input && nv is None,
            Step::To(_) => out == input && nv is None,
        }
}


/// How many anonymous variables lowering a traversal source issues.
pub open spec fn source_vars_used(source: TraversalSource) -> nat {
    match source {
        TraversalSource::V(_) => 1,
        TraversalSource::E(_) => 3,
        TraversalSource::AddV(_) => 1,
        TraversalSource::AddE(_) => 0,
    }
}

/// A bare node scan binding `var_name(cnt)`, with no label and no
/// upstream input.
pub open spec fn scan_shape(op: LogicalOperator, cnt: nat) -> bool {
    &&& op matches LogicalOperator::NodeScan(s)
    &&& s.variable@ == var_name(cnt)
    &&& s.label is None
    &&& s.input is None
}

/// The edge scan an `E(...)` source lowers to: a both-ways expand
/// over a bare node scan, binding the edge and target variables.
pub open spec fn expand_both_shape(op: LogicalOperator, cnt: nat) -> bool {
    &&& op matches LogicalOperator::Expand(e)
    &&& scan_shape(*e.input, cnt)
    &&& e.from_variable@ == var_name(cnt)
    &&& e.edge_variable matches Some(ev)
    &&& ev@ == var_name((cnt + 1) as nat)
    &&& e.to_variable@ == var_name((cnt + 2) as nat)
    &&& e.direction == ExpandDirection::Both
    &&& e.edge_type is None
    &&& e.min_hops == 1
    &&& e.max_hops == Some(1u32)
}

/// What lowering a traversal source builds, with the anonymous
/// counter at `cnt`: the source-level lowering relation. An `addE`
/// source lowers to nothing here; it is handled at statement level.
pub open spec fn source_shape(source: TraversalSource, cnt: nat, out: LogicalOperator) -> bool {
    match source {
        TraversalSource::V(ids) => (match ids {
            Some(v) => if v@.len() > 0 {
                &&& out matches LogicalOperator::Filter(f)
                &&& scan_shape(*f.input, cnt)
                &&& id_filter_shape(f.predicate, var_name(cnt), value_views(v@))
            } else {
                scan_shape(out, cnt)
            },
            None => scan_shape(out, cnt),
        }),
        TraversalSource::E(ids) => (match ids {
            Some(v) => if v@.len() > 0 {
                &&& out matches LogicalOperator::Filter(f)
                &&& expand_both_shape(*f.input, cnt)
                &&& id_filter_shape(f.predicate, var_name((cnt + 1) as nat), value_views(v@))
            } else {
                expand_both_shape(out, cnt)
            },
            None => expand_both_shape(out, cnt),
        }),
        TraversalSource::AddV(label) => ({
            &&& out matches LogicalOperator::CreateNode(c)
            &&& c.variable@ == var_name(cnt)
            &&& (match label {
                Some(l) => c.labels@.len() == 1 && c.labels@[0]@ == l@,
                None => c.labels@.len() == 0,
            })
            &&& c.properties@.len() == 0
            &&& c.input is None
        }),
        TraversalSource::AddE(_) => false,
    }
}


/// What `g.addE(etype)` with these steps lowers to, with the
/// anonymous counter at `cnt`: a `Return` of the new edge over a
/// `CreateEdge` between the last-named endpoints, carrying the
/// collected properties, over a bare node scan for context.
pub open spec fn add_edge_plan_shape(
    etype: Seq<char>,
    steps: Seq<Step>,
    cnt: nat,
    p: LogicalPlan,
) -> bool {
    &&& p.root matches LogicalOperator::Return(ret)
    &&& !ret.distinct
    &&& ret.items@.len() == 1
    &&& ret.items@[0].expression matches LogicalExpression::Variable(v)
    &&& v@ == var_name((cnt + 1) as nat)
    &&& ret.items@[0].alias is None
    &&& *ret.input matches LogicalOperator::CreateEdge(ce)
    &&& ce.variable matches Some(ev)
    &&& ev@ == var_name((cnt + 1) as nat)
    &&& ce.edge_type@ == etype
    &&& last_from(steps) matches Some(FromTo::Label(fl))
    &&& ce.from_variable@ == fl@
    &&& last_to(steps) matches Some(FromTo::Label(tl))
    &&& ce.to_variable@ == tl@
    &&& ce.properties@.len() == edge_props(steps).len()
    &&& (forall|i: int|
        0 <= i < ce.properties@.len() ==> ({
            &&& (#[trigger] ce.properties@[i]).0@ == edge_props(steps)[i].0
            &&& ce.properties@[i].1 matches LogicalExpression::Literal(lv)
            &&& lv@ == edge_props(steps)[i].1
        }))
    &&& scan_shape(*ce.input, cnt)
}


/// The named endpoints, collected properties and type of an edge
/// being assembled by `addE`/`from`/`to`/`property` steps.
pub struct PendingView {
    /// Type of the edge to create.
    pub etype: Seq<char>,
    /// Alias naming the source node, once a `from` step arrived.
    pub from: Option<Seq<char>>,
    /// Alias naming the destination node, once a `to` step arrived.
    pub to: Option<Seq<char>>,
    /// Properties collected so far.
    pub props: Seq<(String, LogicalExpression)>,
}

/// The statement-level lowering state between steps: the edge being
/// assembled if any, the plan built so far, the current element's
/// variable, and the next anonymous-variable number.
pub struct LowerState {
    /// The edge under construction, if an `addE` step is pending.
    pub pend: Option<PendingView>,
    /// The plan built so far.
    pub plan: LogicalOperator,
    /// The variable naming the current element.
    pub cv: Seq<char>,
    /// The next anonymous-variable number.
    pub cnt: nat,
}

/// The `CreateEdge` operator that finishing a pending edge builds on
/// top of `in_plan`: the edge variable is fresh, the endpoints are
/// the named aliases, and the collected properties are carried over.
pub open spec fn edge_completion(
    etype: Seq<char>,
    from: Seq<char>,
    to: Seq<char>,
    props: Seq<(String, LogicalExpression)>,
    in_plan: LogicalOperator,
    cnt: nat,
    out: LogicalOperator,
) -> bool {
    &&& out matches LogicalOperator::CreateEdge(ce)
    &&& ce.variable matches Some(v)
    &&& v@ == var_name(cnt)
    &&& ce.from_variable@ == from
    &&& ce.to_variable@ == to
    &&& ce.edge_type@ == etype
    &&& ce.properties@ == props
    &&& *ce.input == in_plan
}

/// The variable one step rebinds, if any: the fresh target or edge
/// variable of a walk or create, or the alias an `as` step names.
pub open spec fn step_new_var(step: Step, cnt: nat) -> Option<Seq<char>> {
    match step {
        Step::Out(_) | Step::In(_) | Step::Both(_) => Some(var_name(cnt)),
        Step::OutE(_) | Step::InE(_) | Step::BothE(_) => Some(var_name(cnt)),
        Step::AddV(_) => Some(var_name(cnt)),
        Step::As(l) => Some(l@),
        _ => None,
    }
}

/// One iteration of the statement-level lowering: how consuming one
/// step moves the lowering state, edge assembly included. This is
/// the loop of the translator, written as a relation.
pub open spec fn iter_rel(step: Step, st: LowerState, st2: LowerState) -> bool {
    match st.pend {
        Some(pv) => match step {
            Step::From(ft) => ({
                &&& ft matches FromTo::Label(l)
                &&& st2.pend == Some(PendingView { from: Some(l@), ..pv })
                &&& st2.plan == st.plan
                &&& st2.cv == st.cv
                &&& st2.cnt == st.cnt
            }),
            Step::To(ft) => ({
                &&& ft matches FromTo::Label(l)
                &&& (if pv.from is Some {
                    &&& edge_completion(
                        pv.etype,
                        pv.from->0,
                        l@,
                        pv.props,
                        st.plan,
                        st.cnt,
                        st2.plan,
                    )
                    &&& st2.cv == var_name(st.cnt)
                    &&& st2.cnt == st.cnt + 1
                    &&& st2.pend is None
                } else {
                    &&& st2.pend == Some(PendingView { to: Some(l@), ..pv })
                    &&& st2.plan == st.plan
                    &&& st2.cv == st.cv
                    &&& st2.cnt == st.cnt
                })
            }),
            Step::Property(ps) => ({
                &&& st2.pend matches Some(pv2)
                &&& pv2.etype == pv.etype
                &&& pv2.from == pv.from
                &&& pv2.to == pv.to
                &&& pv2.props.len() == pv.props.len() + 1
                &&& pv2.props.drop_last() == pv.props
                &&& pv2.props.last().0@ == ps.key@
                &&& pv2.props.last().1 matches LogicalExpression::Literal(lv)
                &&& lv@ == ps.value@
                &&& st2.plan == st.plan
                &&& st2.cv == st.cv
                &&& st2.cnt == st.cnt
            }),
            Step::AddE(t) => ({
                &&& (if pv.from is Some && pv.to is Some {
                    &&& edge_completion(
                        pv.etype,
                        pv.from->0,
                        pv.to->0,
                        pv.props,
                        st.plan,
                        st.cnt,
                        st2.plan,
                    )
                    &&& st2.cv == var_name(st.cnt)
                    &&& st2.cnt == st.cnt + 1
                } else {
                    &&& st2.plan == st.plan
                    &&& st2.cv == st.cv
                    &&& st2.cnt == st.cnt
                })
                &&& st2.pend == Some(
                    PendingView { etype: t@, from: None, to: None, props: Seq::empty() },
                )
            }),
            _ => ({
                &&& (if pv.from is Some && pv.to is Some {
                    exists|mid: LogicalOperator|
                        #![auto]
                        {
                            &&& edge_completion(
                                pv.etype,
                                pv.from->0,
                                pv.to->0,
                                pv.props,
                                st.plan,
                                st.cnt,
                                mid,
                            )
                            &&& step_shape(
                                step,
                                mid,
                                var_name(st.cnt),
                                st.cnt + 1,
                                st2.plan,
                                step_new_var(step, st.cnt + 1),
                            )
                            &&& st2.cv == (match step_new_var(step, st.cnt + 1) {
                                Some(v) => v,
                                None => var_name(st.cnt),
                            })
                            &&& st2.cnt == st.cnt + 1 + step_vars_used(step)
                        }
                } else {
                    &&& step_shape(step, st.plan, st.cv, st.cnt, st2.plan, step_new_var(step, st.cnt))
                    &&& st2.cv == (match step_new_var(step, st.cnt) {
                        Some(v) => v,
                        None => st.cv,
                    })
                    &&& st2.cnt == st.cnt + step_vars_used(step)
                })
                &&& st2.pend == (if pv.from is Some && pv.to is Some {
                    None
                } else {
                    st.pend
                })
            }),
        },
        None => match step {
            Step::AddE(t) => ({
                &&& st2.pend == Some(
                    PendingView { etype: t@, from: None, to: None, props: Seq::empty() },
                )
                &&& st2.plan == st.plan
                &&& st2.cv == st.cv
                &&& st2.cnt == st.cnt
            }),
            _ => ({
                &&& step_shape(step, st.plan, st.cv, st.cnt, st2.plan, step_new_var(step, st.cnt))
                &&& st2.cv == (match step_new_var(step, st.cnt) {
                    Some(v) => v,
                    None => st.cv,
                })
                &&& st2.cnt == st.cnt + step_vars_used(step)
                &&& st2.pend is None
            }),
        },
    }
}

/// The lowering state a chain of steps reaches from `st0`: each step
/// related to the next state by [`iter_rel`], in order.
pub open spec fn prefix_rel(steps: Seq<Step>, st0: LowerState, st: LowerState) -> bool
    decreases steps.len(),
{
    if steps.len() == 0 {
        st == st0
    } else {
        exists|mid: LowerState|
            #![auto]
            prefix_rel(steps.drop_last(), st0, mid) && iter_rel(steps.last(), mid, st)
    }
}

/// The final wrap: a plan that already ends in a `Return` is kept,
/// anything else is wrapped in a `Return` projecting the current
/// element.
pub open spec fn final_wrap(plan2: LogicalOperator, cv2: Seq<char>, root: LogicalOperator) -> bool {
    match plan2 {
        LogicalOperator::Return(_) => root == plan2,
        _ => ({
            &&& root matches LogicalOperator::Return(ret)
            &&& !ret.distinct
            &&& ret.items@.len() == 1
            &&& ret.items@[0].expression matches LogicalExpression::Variable(v)
            &&& v@ == cv2
            &&& ret.items@[0].alias is None
            &&& *ret.input == plan2
        }),
    }
}

/// What the end of a statement does with the final lowering state: a
/// still-pending edge with both endpoints named is created, an
/// incomplete one is dropped, and the result is wrapped by
/// [`final_wrap`].
pub open spec fn final_rel(st: LowerState, root: LogicalOperator) -> bool {
    match st.pend {
        Some(pv) => if pv.from is Some && pv.to is Some {
            exists|plan2: LogicalOperator|
                #![auto]
                {
                    &&& edge_completion(
                        pv.etype,
                        pv.from->0,
                        pv.to->0,
                        pv.props,
                        st.plan,
                        st.cnt,
                        plan2,
                    )
                    &&& final_wrap(plan2, var_name(st.cnt), root)
                }
        } else {
            final_wrap(st.plan, st.cv, root)
        },
        None => final_wrap(st.plan, st.cv, root),
    }
}

/// The statement-level lowering relation: what a whole statement
/// lowers to, starting from the anonymous counter `cnt`. An `addE`
/// source takes its own path; every other source is lowered by
/// [`source_shape`], then the steps run under [`iter_rel`], then the
/// end of the statement is settled by [`final_rel`].
pub open spec fn stmt_lowers(stmt: Statement, cnt: nat, p: LogicalPlan) -> bool {
    match stmt.source {
        TraversalSource::AddE(t) => add_edge_plan_shape(t@, stmt.steps@, cnt, p),
        _ => exists|src_op: LogicalOperator, st: LowerState|
            #![auto]
            {
                &&& source_shape(stmt.source, cnt, src_op)
                &&& prefix_rel(
                    stmt.steps@,
                    LowerState {
                        pend: None,
                        plan: src_op,
                        cv: var_name((cnt + source_vars_used(stmt.source) - 1) as nat),
                        cnt: cnt + source_vars_used(stmt.source),
                    },
                    st,
                )
                &&& final_rel(st, p.root)
            },
    }
}


/// The left-leaning chain an `and`/`or` predicate of `n` arguments
/// folds to: `n - 1` binary nodes of the operator `op`, each new
/// argument joined on the right.
pub open spec fn fold_shape(out: LogicalExpression, op: BinaryOp, n: int) -> bool
    decreases n,
{
    if n <= 1 {
        true
    } else {
        &&& out matches LogicalExpression::Binary { left, op: o, right }
        &&& o == op
        &&& fold_shape(*left, op, n - 1)
    }
}


/// The decimal digits of a number are decimal digit characters, and
/// there is at least one.
proof fn lemma_dec_digits_are_digits(n: nat)
    ensures
        dec_digits(n).len() >= 1,
        forall|i: int|
            0 <= i < dec_digits(n).len() ==> 48 <= (#[trigger] dec_digits(n)[i]) as u32 <= 57,
    decreases n,
{
    if n >= 10 {
        lemma_dec_digits_are_digits(n / 10);
    }
}

/// Every anonymous variable name has the reserved `_v<digits>`
/// shape.
pub proof fn lemma_var_name_reserved(n: nat)
    ensures
        reserved_name(var_name(n)),
{
    lemma_dec_digits_are_digits(n);
    assert(var_name(n)[0] == '_');
    assert(var_name(n)[1] == 'v');
    assert forall|i: int|
        2 <= i < var_name(n).len() implies 48 <= (#[trigger] var_name(n)[i]) as u32 <= 57 by {
        assert(var_name(n)[i] == dec_digits(n)[i - 2]);
    }
}

/// Law: anonymous variables never collide with user names. The
/// parser refuses aliases of the reserved shape, and every
/// anonymous name has it, so no alias of an accepted statement is
/// ever an anonymous name.
pub proof fn lemma_anonymous_names_fresh(stmt: Statement, n: nat)
    requires
        stmt_unreserved(stmt),
    ensures
        !stmt_labels(stmt).contains(var_name(n)),
{
    lemma_var_name_reserved(n);
    if stmt_labels(stmt).contains(var_name(n)) {
        let i = choose|i: int|
            0 <= i < stmt.steps@.len() && step_labels(#[trigger] stmt.steps@[i]).contains(
                var_name(n),
            );
        assert(step_unreserved(stmt.steps@[i]));
        assert(false);
    }
}


/// Law: a mutation-only statement projects the affected entity. A
/// bare `addV` statement lowers to a `Return` of exactly the
/// variable bound to the created node.
pub proof fn lemma_add_v_projects_created_node(stmt: Statement, p: LogicalPlan)
    requires
        stmt.source matches TraversalSource::AddV(_),
        stmt.steps@ =~= Seq::<Step>::empty(),
        stmt_lowers(stmt, 0, p),
    ensures
        ({
            &&& p.root matches LogicalOperator::Return(ret)
            &&& ret.items@.len() == 1
            &&& ret.items@[0].expression matches LogicalExpression::Variable(v)
            &&& v@ == var_name(0)
            &&& *ret.input matches LogicalOperator::CreateNode(c)
            &&& c.variable@ == var_name(0)
        }),
{
    let (src_op, st) = choose|src_op: LogicalOperator, st: LowerState|
        {
            &&& source_shape(stmt.source, 0, src_op)
            &&& prefix_rel(
                stmt.steps@,
                LowerState {
                    pend: None,
                    plan: src_op,
                    cv: var_name((0 + source_vars_used(stmt.source) - 1) as nat),
                    cnt: 0 + source_vars_used(stmt.source),
                },
                st,
            )
            &&& final_rel(st, p.root)
        };
    assert(st.plan == src_op && st.pend is None && st.cv == var_name(0));
    assert(final_wrap(st.plan, st.cv, p.root));
}

/// Law: `range(lo, hi)` lowers to a limit of `hi - lo` rows over a
/// skip of `lo` rows. A bare `g.V().range(lo, hi)` statement ends as
/// a `Return` over exactly that pair, over the node scan.
pub proof fn lemma_range_lowering(stmt: Statement, p: LogicalPlan, lo: u64, hi: u64)
    requires
        lo <= hi,
        stmt.source matches TraversalSource::V(ids) && ids is None,
        stmt.steps@ =~= seq![Step::Range(lo, hi)],
        stmt_lowers(stmt, 0, p),
    ensures
        ({
            &&& p.root matches LogicalOperator::Return(ret)
            &&& *ret.input matches LogicalOperator::Limit(l)
            &&& l.count == hi - lo
            &&& *l.input matches LogicalOperator::Skip(s)
            &&& s.count == lo
            &&& scan_shape(*s.input, 0)
        }),
{
    let (src_op, st) = choose|src_op: LogicalOperator, st: LowerState|
        {
            &&& source_shape(stmt.source, 0, src_op)
            &&& prefix_rel(
                stmt.steps@,
                LowerState {
                    pend: None,
                    plan: src_op,
                    cv: var_name((0 + source_vars_used(stmt.source) - 1) as nat),
                    cnt: 0 + source_vars_used(stmt.source),
                },
                st,
            )
            &&& final_rel(st, p.root)
        };
    let init = LowerState { pend: None, plan: src_op, cv: var_name(0), cnt: 1 };
    assert(prefix_rel(stmt.steps@, init, st));
    let mid = choose|mid: LowerState|
        prefix_rel(stmt.steps@.drop_last(), init, mid) && iter_rel(stmt.steps@.last(), mid, st);
    assert(stmt.steps@.drop_last() =~= Seq::<Step>::empty());
    assert(mid == init);
    assert(stmt.steps@.last() == Step::Range(lo, hi));
    assert(step_shape(Step::Range(lo, hi), src_op, var_name(0), 1, st.plan, None));
    assert(final_wrap(st.plan, st.cv, p.root));
}

impl GremlinTranslator {
    /// The next anonymous-variable number.
    pub closed spec fn counter(self) -> u64 {
        self.var_counter
    }

    /// A fresh translator, counting from zero.
    pub fn new() -> (r: GremlinTranslator)
        ensures
            r.counter() == 0,
    {
        GremlinTranslator { var_counter: 0 }
    }

    /// Issues the next anonymous variable name.
    fn next_var(&mut self) -> (r: String)
        ensures
            r@ == var_name(old(self).counter() as nat),
            old(self).counter() < u64::MAX ==> final(self).counter() == old(self).counter() + 1,
            old(self).counter() == u64::MAX ==> final(self).counter() == old(self).counter(),
            final(self).counter() >= old(self).counter(),
            final(self).counter() >= 1,
    {
        let n = self.var_counter;
        if n < u64::MAX {
            self.var_counter = n + 1;
        }
        let mut s = String::from_str("_v");
        s.append(u64_dec(n).as_str());
        proof {
            reveal_strlit("_v");
            assert(s@ =~= var_name(n as nat));
        }
        s
    }

    /// The name issued most recently.
    fn get_current_var(&self) -> (r: String)
        requires
            self.counter() >= 1,
        ensures
            r@ == var_name((self.counter() - 1) as nat),
    {
        let mut s = String::from_str("_v");
        s.append(u64_dec(self.var_counter - 1).as_str());
        proof {
            reveal_strlit("_v");
            assert(s@ =~= var_name((self.counter() - 1) as nat));
        }
        s
    }

    /// The alias a `from`/`to` argument names; an inner traversal is
    /// rejected as unsupported.
    fn extract_from_to_var(&self, from_to: &FromTo) -> (r: Result<String, Error>)
        ensures
            r is Ok <==> from_to is Label,
            r is Ok ==> r->Ok_0@ == from_to->Label_0@,
    {
        match from_to {
            FromTo::Label(label) => Ok(label.clone()),
            FromTo::Traversal(_) => Err(
                Error::Internal(
                    String::from_str(
                        "traversal-based from()/to() is not supported; use label references like from('a').to('b')",
                    ),
                ),
            ),
        }
    }

    /// What an `order().by(...)` modifier sorts by, as an
    /// expression over the current element.
    fn translate_by_modifier(&self, by: &ByModifier, current_var: &str) -> (r: LogicalExpression)
        ensures
            expr_free_vars(r).subset_of(Set::empty().insert(current_var@)),
            (match *by {
                ByModifier::Identity => r matches LogicalExpression::Variable(v) && v@
                    == current_var@,
                ByModifier::Key(k) => r matches LogicalExpression::Property { variable, property }
                    && variable@ == current_var@ && property@ == k@,
                ByModifier::Token(TokenType::Id) => r matches LogicalExpression::Id(v) && v@
                    == current_var@,
                ByModifier::Token(TokenType::Label) => r matches LogicalExpression::Labels(v)
                    && v@ == current_var@,
            }),
    {
        match by {
            ByModifier::Identity => LogicalExpression::Variable(current_var.to_owned()),
            ByModifier::Key(key) => LogicalExpression::Property {
                variable: current_var.to_owned(),
                property: key.clone(),
            },
            ByModifier::Token(token) => match token {
                TokenType::Id => LogicalExpression::Id(current_var.to_owned()),
                TokenType::Label => LogicalExpression::Labels(current_var.to_owned()),
            },
        }
    }

    /// A filter expression matching the elements whose identifier is
    /// one of `ids`: a single equality for one id, a membership test
    /// otherwise.
    fn build_id_filter(&self, var: &str, ids: &Vec<Value>) -> (r: LogicalExpression)
        ensures
            expr_free_vars(r).subset_of(Set::empty().insert(var@)),
            id_filter_shape(r, var@, value_views(ids@)),
    {
        proof {
            reveal_with_fuel(expr_free_vars, 6);
        }
        if ids.len() == 1 {
            LogicalExpression::Binary {
                left: Box::new(LogicalExpression::Id(var.to_owned())),
                op: BinaryOp::Eq,
                right: Box::new(LogicalExpression::Literal(ids[0].clone())),
            }
        } else {
            let n = ids.len();
            let mut items: Vec<LogicalExpression> = Vec::new();
            let mut j: usize = 0;
            while j < n
                invariant
                    j <= n,
                    n == ids@.len(),
                    items@.len() == j,
                    forall|i: int|
                        0 <= i < j ==> ((#[trigger] items@[i])
                            matches LogicalExpression::Literal(li) && li@ == ids@[i]@),
                decreases n - j,
            {
                items.push(LogicalExpression::Literal(ids[j].clone()));
                j = j + 1;
            }
            let r = LogicalExpression::Binary {
                left: Box::new(LogicalExpression::Id(var.to_owned())),
                op: BinaryOp::In,
                right: Box::new(LogicalExpression::List(items)),
            };
            proof {
                assert forall|v: Seq<char>| expr_free_vars(r).contains(v) implies Set::empty()
                    .insert(var@).contains(v) by {}
            }
            r
        }
    }

    /// Lowers a Gremlin predicate applied to `expr`. Total on well
    /// formed predicates; the result references exactly the
    /// variables `expr` does.
    pub fn translate_predicate(pred: &Predicate, expr: LogicalExpression) -> (r: Result<
        LogicalExpression,
        Error,
    >)
        requires
            pred_wf(*pred),
        ensures
            r is Ok,
            r is Ok ==> expr_free_vars(r->Ok_0).subset_of(expr_free_vars(expr)),
            (match *pred {
                Predicate::Eq(v) => ({
                    &&& r->Ok_0 matches LogicalExpression::Binary { left, op, right }
                    &&& *left == expr
                    &&& op == BinaryOp::Eq
                    &&& *right matches LogicalExpression::Literal(lv)
                    &&& lv@ == v@
                }),
                Predicate::Neq(v) => ({
                    &&& r->Ok_0 matches LogicalExpression::Binary { left, op, right }
                    &&& *left == expr
                    &&& op == BinaryOp::Ne
                    &&& *right matches LogicalExpression::Literal(lv)
                    &&& lv@ == v@
                }),
                Predicate::Lt(v) => ({
                    &&& r->Ok_0 matches LogicalExpression::Binary { left, op, right }
                    &&& *left == expr
                    &&& op == BinaryOp::Lt
                    &&& *right matches LogicalExpression::Literal(lv)
                    &&& lv@ == v@
                }),
                Predicate::Lte(v) => ({
                    &&& r->Ok_0 matches LogicalExpression::Binary { left, op, right }
                    &&& *left == expr
                    &&& op == BinaryOp::Le
                    &&& *right matches LogicalExpression::Literal(lv)
                    &&& lv@ == v@
                }),
                Predicate::Gt(v) => ({
                    &&& r->Ok_0 matches LogicalExpression::Binary { left, op, right }
                    &&& *left == expr
                    &&& op == BinaryOp::Gt
                    &&& *right matches LogicalExpression::Literal(lv)
                    &&& lv@ == v@
                }),
                Predicate::Gte(v) => ({
                    &&& r->Ok_0 matches LogicalExpression::Binary { left, op, right }
                    &&& *left == expr
                    &&& op == BinaryOp::Ge
                    &&& *right matches LogicalExpression::Literal(lv)
                    &&& lv@ == v@
                }),
                Predicate::Within(vs) => ({
                    &&& r->Ok_0 matches LogicalExpression::Binary { left, op, right }
                    &&& *left == expr
                    &&& op == BinaryOp::In
                    &&& *right matches LogicalExpression::List(ls)
                    &&& ls@.len() == vs@.len()
                    &&& forall|i: int|
                        0 <= i < ls@.len() ==> ((#[trigger] ls@[i])
                            matches LogicalExpression::Literal(li) && li@ == vs@[i]@)
                }),
                Predicate::Without(vs) => ({
                    &&& r->Ok_0 matches LogicalExpression::Unary { op, operand }
                    &&& op == UnaryOp::Not
                    &&& *operand matches LogicalExpression::Binary { left, op: inner_op, right }
                    &&& *left == expr
                    &&& inner_op == BinaryOp::In
                    &&& *right matches LogicalExpression::List(ls)
                    &&& ls@.len() == vs@.len()
                    &&& forall|i: int|
                        0 <= i < ls@.len() ==> ((#[trigger] ls@[i])
                            matches LogicalExpression::Literal(li) && li@ == vs@[i]@)
                }),
                Predicate::Between(a, b) => ({
                    &&& r->Ok_0 matches LogicalExpression::Binary { left, op, right }
                    &&& op == BinaryOp::And
                    &&& *left matches LogicalExpression::Binary { left: ll, op: lop, right: lr }
                    &&& lop == BinaryOp::Ge
                    &&& *lr matches LogicalExpression::Literal(la)
                    &&& la@ == a@
                    &&& *right matches LogicalExpression::Binary { left: rl, op: rop, right: rr }
                    &&& rop == BinaryOp::Lt
                    &&& *rr matches LogicalExpression::Literal(lb)
                    &&& lb@ == b@
                    &&& *rl == expr
                }),
                Predicate::Containing(s) => ({
                    &&& r->Ok_0 matches LogicalExpression::Binary { left, op, right }
                    &&& *left == expr
                    &&& op == BinaryOp::Contains
                    &&& *right matches LogicalExpression::Literal(lv)
                    &&& lv matches Value::Str(t)
                    &&& t@ == s@
                }),
                Predicate::StartingWith(s) => ({
                    &&& r->Ok_0 matches LogicalExpression::Binary { left, op, right }
                    &&& *left == expr
                    &&& op == BinaryOp::StartsWith
                    &&& *right matches LogicalExpression::Literal(lv)
                    &&& lv matches Value::Str(t)
                    &&& t@ == s@
                }),
                Predicate::EndingWith(s) => ({
                    &&& r->Ok_0 matches LogicalExpression::Binary { left, op, right }
                    &&& *left == expr
                    &&& op == BinaryOp::EndsWith
                    &&& *right matches LogicalExpression::Literal(lv)
                    &&& lv matches Value::Str(t)
                    &&& t@ == s@
                }),
                Predicate::And(ps) => fold_shape(r->Ok_0, BinaryOp::And, ps@.len() as int),
                Predicate::Or(ps) => fold_shape(r->Ok_0, BinaryOp::Or, ps@.len() as int),
                Predicate::Not(_) => ({
                    &&& r->Ok_0 matches LogicalExpression::Unary { op, operand }
                    &&& op == UnaryOp::Not
                }),
            }),
        decreases pred,
    {
        proof {
            reveal_with_fuel(expr_free_vars, 6);
        }
        match pred {
            Predicate::Eq(value) => Ok(
                LogicalExpression::Binary {
                    left: Box::new(expr),
                    op: BinaryOp::Eq,
                    right: Box::new(LogicalExpression::Literal(value.clone())),
                },
            ),
            Predicate::Neq(value) => Ok(
                LogicalExpression::Binary {
                    left: Box::new(expr),
                    op: BinaryOp::Ne,
                    right: Box::new(LogicalExpression::Literal(value.clone())),
                },
            ),
            Predicate::Lt(value) => Ok(
                LogicalExpression::Binary {
                    left: Box::new(expr),
                    op: BinaryOp::Lt,
                    right: Box::new(LogicalExpression::Literal(value.clone())),
                },
            ),
            Predicate::Lte(value) => Ok(
                LogicalExpression::Binary {
                    left: Box::new(expr),
                    op: BinaryOp::Le,
                    right: Box::new(LogicalExpression::Literal(value.clone())),
                },
            ),
            Predicate::Gt(value) => Ok(
                LogicalExpression::Binary {
                    left: Box::new(expr),
                    op: BinaryOp::Gt,
                    right: Box::new(LogicalExpression::Literal(value.clone())),
                },
            ),
            Predicate::Gte(value) => Ok(
                LogicalExpression::Binary {
                    left: Box::new(expr),
                    op: BinaryOp::Ge,
                    right: Box::new(LogicalExpression::Literal(value.clone())),
                },
            ),
            Predicate::Within(values) => Ok(
                LogicalExpression::Binary {
                    left: Box::new(expr),
                    op: BinaryOp::In,
                    right: Box::new(LogicalExpression::List(Self::literal_list(values))),
                },
            ),
            Predicate::Without(values) => Ok(
                LogicalExpression::Unary {
                    op: UnaryOp::Not,
                    operand: Box::new(
                        LogicalExpression::Binary {
                            left: Box::new(expr),
                            op: BinaryOp::In,
                            right: Box::new(LogicalExpression::List(Self::literal_list(values))),
                        },
                    ),
                },
            ),
            Predicate::Between(start, end) => Ok(
                LogicalExpression::Binary {
                    left: Box::new(
                        LogicalExpression::Binary {
                            left: Box::new(expr.clone()),
                            op: BinaryOp::Ge,
                            right: Box::new(LogicalExpression::Literal(start.clone())),
                        },
                    ),
                    op: BinaryOp::And,
                    right: Box::new(
                        LogicalExpression::Binary {
                            left: Box::new(expr),
                            op: BinaryOp::Lt,
                            right: Box::new(LogicalExpression::Literal(end.clone())),
                        },
                    ),
                },
            ),
            Predicate::Containing(s) => Ok(
                LogicalExpression::Binary {
                    left: Box::new(expr),
                    op: BinaryOp::Contains,
                    right: Box::new(LogicalExpression::Literal(Value::Str(s.clone()))),
                },
            ),
            Predicate::StartingWith(s) => Ok(
                LogicalExpression::Binary {
                    left: Box::new(expr),
                    op: BinaryOp::StartsWith,
                    right: Box::new(LogicalExpression::Literal(Value::Str(s.clone()))),
                },
            ),
            Predicate::EndingWith(s) => Ok(
                LogicalExpression::Binary {
                    left: Box::new(expr),
                    op: BinaryOp::EndsWith,
                    right: Box::new(LogicalExpression::Literal(Value::Str(s.clone()))),
                },
            ),
            Predicate::And(preds) => {
                let n = preds.len();
                let first = &preds[0];
                proof {
                    assert(decreases_to!(*pred => pred->And_0));
                    assert(decreases_to!(*preds => preds@));
                    assert(decreases_to!(preds@ => preds@[0]));
                }
                let mut result = match Self::translate_predicate(first, expr.clone()) {
                    Ok(e) => e,
                    Err(e) => {
                        return Err(e);
                    },
                };
                let mut j: usize = 1;
                while j < n
                    invariant
                        *pred == Predicate::And(*preds),
                        pred_wf(*pred),
                        1 <= j <= n,
                        n == preds@.len(),
                        fold_shape(result, BinaryOp::And, j as int),
                        expr_free_vars(result).subset_of(expr_free_vars(expr)),
                    decreases n - j,
                {
                    proof {
                        assert(decreases_to!(*pred => pred->And_0));
                        assert(decreases_to!(*preds => preds@));
                        assert(decreases_to!(preds@ => preds@[j as int]));
                    }
                    let right = match Self::translate_predicate(&preds[j], expr.clone()) {
                        Ok(e) => e,
                        Err(e) => {
                            return Err(e);
                        },
                    };
                    result = LogicalExpression::Binary {
                        left: Box::new(result),
                        op: BinaryOp::And,
                        right: Box::new(right),
                    };
                    j = j + 1;
                }
                Ok(result)
            },
            Predicate::Or(preds) => {
                let n = preds.len();
                let first = &preds[0];
                proof {
                    assert(decreases_to!(*pred => pred->Or_0));
                    assert(decreases_to!(*preds => preds@));
                    assert(decreases_to!(preds@ => preds@[0]));
                }
                let mut result = match Self::translate_predicate(first, expr.clone()) {
                    Ok(e) => e,
                    Err(e) => {
                        return Err(e);
                    },
                };
                let mut j: usize = 1;
                while j < n
                    invariant
                        *pred == Predicate::Or(*preds),
                        pred_wf(*pred),
                        1 <= j <= n,
                        n == preds@.len(),
                        fold_shape(result, BinaryOp::Or, j as int),
                        expr_free_vars(result).subset_of(expr_free_vars(expr)),
                    decreases n - j,
                {
                    proof {
                        assert(decreases_to!(*pred => pred->Or_0));
                        assert(decreases_to!(*preds => preds@));
                        assert(decreases_to!(preds@ => preds@[j as int]));
                    }
                    let right = match Self::translate_predicate(&preds[j], expr.clone()) {
                        Ok(e) => e,
                        Err(e) => {
                            return Err(e);
                        },
                    };
                    result = LogicalExpression::Binary {
                        left: Box::new(result),
                        op: BinaryOp::Or,
                        right: Box::new(right),
                    };
                    j = j + 1;
                }
                Ok(result)
            },
            Predicate::Not(inner) => {
                proof {
                    assert(decreases_to!(*pred => pred->Not_0));
                }
                let operand = match Self::translate_predicate(inner, expr) {
                    Ok(e) => e,
                    Err(e) => {
                        return Err(e);
                    },
                };
                Ok(LogicalExpression::Unary { op: UnaryOp::Not, operand: Box::new(operand) })
            },
        }
    }

    /// The values as a vector of literal expressions.
    fn literal_list(values: &Vec<Value>) -> (r: Vec<LogicalExpression>)
        ensures
            r@.len() == values@.len(),
            forall|i: int|
                0 <= i < r@.len() ==> ((#[trigger] r@[i]) matches LogicalExpression::Literal(li)
                    && li@ == values@[i]@),
            exprs_no_vars(r@),
    {
        let n = values.len();
        let mut out: Vec<LogicalExpression> = Vec::new();
        let mut j: usize = 0;
        while j < n
            invariant
                j <= n,
                n == values@.len(),
                out@.len() == j,
                forall|i: int|
                    0 <= i < j ==> ((#[trigger] out@[i]) matches LogicalExpression::Literal(li)
                        && li@ == values@[i]@),
            decreases n - j,
        {
            out.push(LogicalExpression::Literal(values[j].clone()));
            j = j + 1;
        }
        out
    }

    /// Lowers a traversal source to the operator the step chain
    /// starts from. Fails only for `addE`, which needs its `from`
    /// and `to` steps and is handled at statement level. A lowered
    /// source leaves no reference open and binds the name that
    /// [`Self::get_current_var`] then yields.
    fn translate_source(&mut self, source: &TraversalSource) -> (r: Result<LogicalOperator, Error>)
        requires
            old(self).counter() <= u64::MAX - 3,
        ensures
            r is Ok <==> !(*source is AddE),
            final(self).counter() == old(self).counter() + source_vars_used(*source),
            r is Ok ==> final(self).counter() >= 1,
            r is Ok ==> op_open_refs(r->Ok_0) == Set::<Seq<char>>::empty(),
            r is Ok ==> op_bound_vars(r->Ok_0).contains(
                var_name((final(self).counter() - 1) as nat),
            ),
            r is Ok ==> source_shape(*source, old(self).counter() as nat, r->Ok_0),
    {
        proof {
            reveal_with_fuel(expr_free_vars, 6);
            reveal_with_fuel(op_open_refs, 4);
            reveal_with_fuel(op_bound_vars, 4);
        }
        match source {
            TraversalSource::V(ids) => {
                let var = self.next_var();
                let scan = LogicalOperator::NodeScan(
                    NodeScanOp { variable: var.clone(), label: None, input: None },
                );
                proof {
                    assert(op_open_refs(scan) =~= Set::<Seq<char>>::empty());
                }
                match ids {
                    Some(id_values) => {
                        if id_values.len() > 0 {
                            let id_filter = self.build_id_filter(var.as_str(), id_values);
                            let plan = LogicalOperator::Filter(
                                FilterOp { predicate: id_filter, input: Box::new(scan) },
                            );
                            proof {
                                assert(op_open_refs(plan) =~= Set::<Seq<char>>::empty());
                            }
                            Ok(plan)
                        } else {
                            Ok(scan)
                        }
                    },
                    None => Ok(scan),
                }
            },
            TraversalSource::E(ids) => {
                let var = self.next_var();
                let scan = LogicalOperator::NodeScan(
                    NodeScanOp { variable: var.clone(), label: None, input: None },
                );
                let edge_var = self.next_var();
                let target_var = self.next_var();
                let expand = LogicalOperator::Expand(
                    ExpandOp {
                        from_variable: var,
                        to_variable: target_var,
                        edge_variable: Some(edge_var.clone()),
                        direction: ExpandDirection::Both,
                        edge_type: None,
                        min_hops: 1,
                        max_hops: Some(1),
                        input: Box::new(scan),
                    },
                );
                proof {
                    assert(op_open_refs(expand) =~= Set::<Seq<char>>::empty());
                }
                match ids {
                    Some(id_values) => {
                        if id_values.len() > 0 {
                            let id_filter = self.build_id_filter(edge_var.as_str(), id_values);
                            let plan = LogicalOperator::Filter(
                                FilterOp { predicate: id_filter, input: Box::new(expand) },
                            );
                            proof {
                                assert(op_open_refs(plan) =~= Set::<Seq<char>>::empty());
                            }
                            Ok(plan)
                        } else {
                            Ok(expand)
                        }
                    },
                    None => Ok(expand),
                }
            },
            TraversalSource::AddV(label) => {
                let var = self.next_var();
                let mut labels: Vec<String> = Vec::new();
                match label {
                    Some(l) => {
                        labels.push(l.clone());
                    },
                    None => {},
                }
                let plan = LogicalOperator::CreateNode(
                    CreateNodeOp { variable: var, labels, properties: Vec::new(), input: None },
                );
                proof {
                    assert(op_open_refs(plan) =~= Set::<Seq<char>>::empty()) by {
                        assert(props_free_vars(plan->CreateNode_0.properties@) =~= Set::<
                            Seq<char>,
                        >::empty());
                    }
                }
                Ok(plan)
            },
            TraversalSource::AddE(_) => Err(
                Error::Internal(String::from_str("addE requires from() and to() steps")),
            ),
        }
    }

    /// Lowers one step onto the plan built so far. Total on well
    /// formed steps. The result keeps every binding of `input`, can
    /// only leave references to `current_var` or to labels of the
    /// step open, and reports the variable the step rebinds, if any.
    fn translate_step(&mut self, step: &Step, input: LogicalOperator, current_var: &str) -> (r:
        Result<(LogicalOperator, Option<String>), Error>)
        requires
            step_wf(*step),
            old(self).counter() <= u64::MAX - 2,
        ensures
            r is Ok,
            final(self).counter() == old(self).counter() + step_vars_used(*step),
            op_bound_vars(input).subset_of(op_bound_vars(r->Ok_0.0)),
            op_open_refs(r->Ok_0.0).subset_of(
                op_open_refs(input).union(
                    Set::empty().insert(current_var@).difference(op_bound_vars(input)),
                ).union(step_labels(*step)),
            ),
            (r->Ok_0.1 matches Some(v) ==> op_bound_vars(r->Ok_0.0).union(
                step_labels(*step),
            ).contains(v@)),
            (step_shape(
                *step,
                input,
                current_var@,
                old(self).counter() as nat,
                r->Ok_0.0,
                opt_str_view(r->Ok_0.1),
            )),
    {
        proof {
            reveal_with_fuel(expr_free_vars, 6);
            reveal_with_fuel(op_open_refs, 4);
            reveal_with_fuel(op_bound_vars, 4);
        }
        match step {
            Step::Out(labels) => {
                let target_var = self.next_var();
                let edge_type = if labels.len() > 0 {
                    Some(labels[0].clone())
                } else {
                    None
                };
                let plan = LogicalOperator::Expand(
                    ExpandOp {
                        from_variable: current_var.to_owned(),
                        to_variable: target_var.clone(),
                        edge_variable: None,
                        direction: ExpandDirection::Outgoing,
                        edge_type,
                        min_hops: 1,
                        max_hops: Some(1),
                        input: Box::new(input),
                    },
                );
                Ok((plan, Some(target_var)))
            },
            Step::In(labels) => {
                let target_var = self.next_var();
                let edge_type = if labels.len() > 0 {
                    Some(labels[0].clone())
                } else {
                    None
                };
                let plan = LogicalOperator::Expand(
                    ExpandOp {
                        from_variable: current_var.to_owned(),
                        to_variable: target_var.clone(),
                        edge_variable: None,
                        direction: ExpandDirection::Incoming,
                        edge_type,
                        min_hops: 1,
                        max_hops: Some(1),
                        input: Box::new(input),
                    },
                );
                Ok((plan, Some(target_var)))
            },
            Step::Both(labels) => {
                let target_var = self.next_var();
                let edge_type = if labels.len() > 0 {
                    Some(labels[0].clone())
                } else {
                    None
                };
                let plan = LogicalOperator::Expand(
                    ExpandOp {
                        from_variable: current_var.to_owned(),
                        to_variable: target_var.clone(),
                        edge_variable: None,
                        direction: ExpandDirection::Both,
                        edge_type,
                        min_hops: 1,
                        max_hops: Some(1),
                        input: Box::new(input),
                    },
                );
                Ok((plan, Some(target_var)))
            },
            Step::OutE(labels) => {
                let edge_var = self.next_var();
                let target_var = self.next_var();
                let edge_type = if labels.len() > 0 {
                    Some(labels[0].clone())
                } else {
                    None
                };
                let plan = LogicalOperator::Expand(
                    ExpandOp {
                        from_variable: current_var.to_owned(),
                        to_variable: target_var,
                        edge_variable: Some(edge_var.clone()),
                        direction: ExpandDirection::Outgoing,
                        edge_type,
                        min_hops: 1,
                        max_hops: Some(1),
                        input: Box::new(input),
                    },
                );
                Ok((plan, Some(edge_var)))
            },
            Step::InE(labels) => {
                let edge_var = self.next_var();
                let target_var = self.next_var();
                let edge_type = if labels.len() > 0 {
                    Some(labels[0].clone())
                } else {
                    None
                };
                let plan = LogicalOperator::Expand(
                    ExpandOp {
                        from_variable: current_var.to_owned(),
                        to_variable: target_var,
                        edge_variable: Some(edge_var.clone()),
                        direction: ExpandDirection::Incoming,
                        edge_type,
                        min_hops: 1,
                        max_hops: Some(1),
                        input: Box::new(input),
                    },
                );
                Ok((plan, Some(edge_var)))
            },
            Step::BothE(labels) => {
                let edge_var = self.next_var();
                let target_var = self.next_var();
                let edge_type = if labels.len() > 0 {
                    Some(labels[0].clone())
                } else {
                    None
                };
                let plan = LogicalOperator::Expand(
                    ExpandOp {
                        from_variable: current_var.to_owned(),
                        to_variable: target_var,
                        edge_variable: Some(edge_var.clone()),
                        direction: ExpandDirection::Both,
                        edge_type,
                        min_hops: 1,
                        max_hops: Some(1),
                        input: Box::new(input),
                    },
                );
                Ok((plan, Some(edge_var)))
            },
            Step::Has(has_step) => {
                let predicate = match self.translate_has_step(has_step, current_var) {
                    Ok(p) => p,
                    Err(e) => {
                        return Err(e);
                    },
                };
                let plan = LogicalOperator::Filter(
                    FilterOp { predicate, input: Box::new(input) },
                );
                Ok((plan, None))
            },
            Step::HasLabel(labels) => {
                let predicate = if labels.len() == 1 {
                    LogicalExpression::Binary {
                        left: Box::new(LogicalExpression::Labels(current_var.to_owned())),
                        op: BinaryOp::Eq,
                        right: Box::new(
                            LogicalExpression::Literal(Value::Str(labels[0].clone())),
                        ),
                    }
                } else {
                    let n = labels.len();
                    let mut items: Vec<LogicalExpression> = Vec::new();
                    let mut j: usize = 0;
                    while j < n
                        invariant
                            j <= n,
                            n == labels@.len(),
                            items@.len() == j,
                            forall|i: int|
                                0 <= i < j ==> ((#[trigger] items@[i])
                                    matches LogicalExpression::Literal(li) && li matches Value::Str(
                                    si,
                                ) && si@ == labels@[i]@),
                        decreases n - j,
                    {
                        items.push(LogicalExpression::Literal(Value::Str(labels[j].clone())));
                        j = j + 1;
                    }
                    let list = LogicalExpression::List(items);
                    proof {
                        assert forall|v: Seq<char>| !expr_free_vars(list).contains(v) by {
                            if expr_free_vars(list).contains(v) {
                                let i = choose|i: int|
                                    0 <= i < list->List_0@.len() && expr_free_vars(
                                        #[trigger] list->List_0@[i],
                                    ).contains(v);
                            }
                        }
                    }
                    LogicalExpression::Binary {
                        left: Box::new(LogicalExpression::Labels(current_var.to_owned())),
                        op: BinaryOp::In,
                        right: Box::new(list),
                    }
                };
                let plan = LogicalOperator::Filter(
                    FilterOp { predicate, input: Box::new(input) },
                );
                Ok((plan, None))
            },
            Step::HasId(ids) => {
                let predicate = self.build_id_filter(current_var, ids);
                let plan = LogicalOperator::Filter(
                    FilterOp { predicate, input: Box::new(input) },
                );
                Ok((plan, None))
            },
            Step::HasNot(key) => {
                let predicate = LogicalExpression::Unary {
                    op: UnaryOp::IsNull,
                    operand: Box::new(
                        LogicalExpression::Property {
                            variable: current_var.to_owned(),
                            property: key.clone(),
                        },
                    ),
                };
                let plan = LogicalOperator::Filter(
                    FilterOp { predicate, input: Box::new(input) },
                );
                Ok((plan, None))
            },
            Step::Dedup(_) => {
                let plan = LogicalOperator::Distinct(DistinctOp { input: Box::new(input) });
                Ok((plan, None))
            },
            Step::Limit(n) => {
                let plan = LogicalOperator::Limit(LimitOp { count: *n, input: Box::new(input) });
                Ok((plan, None))
            },
            Step::Skip(n) => {
                let plan = LogicalOperator::Skip(SkipOp { count: *n, input: Box::new(input) });
                Ok((plan, None))
            },
            Step::Range(start, end) => {
                let skipped = LogicalOperator::Skip(
                    SkipOp { count: *start, input: Box::new(input) },
                );
                let plan = LogicalOperator::Limit(
                    LimitOp { count: *end - *start, input: Box::new(skipped) },
                );
                Ok((plan, None))
            },
            Step::Values(keys) => {
                let n = keys.len();
                let mut items: Vec<ReturnItem> = Vec::new();
                let mut j: usize = 0;
                while j < n
                    invariant
                        j <= n,
                        n == keys@.len(),
                        items@.len() == j,
                        forall|i: int|
                            0 <= i < j ==> ({
                                &&& (#[trigger] items@[i]).expression
                                    matches LogicalExpression::Property { variable, property }
                                &&& variable@ == current_var@
                                &&& property@ == keys@[i]@
                                &&& items@[i].alias matches Some(a)
                                &&& a@ == keys@[i]@
                            }),
                    decreases n - j,
                {
                    items.push(
                        ReturnItem {
                            expression: LogicalExpression::Property {
                                variable: current_var.to_owned(),
                                property: keys[j].clone(),
                            },
                            alias: Some(keys[j].clone()),
                        },
                    );
                    j = j + 1;
                }
                proof {
                    assert forall|v: Seq<char>|
                        items_free_vars(items@).contains(v) implies Set::empty().insert(
                        current_var@,
                    ).contains(v) by {
                        let i = choose|i: int|
                            0 <= i < items@.len() && expr_free_vars(
                                (#[trigger] items@[i]).expression,
                            ).contains(v);
                    }
                }
                let plan = LogicalOperator::Return(
                    ReturnOp { items, distinct: false, input: Box::new(input) },
                );
                Ok((plan, None))
            },
            Step::Id => {
                let mut items: Vec<ReturnItem> = Vec::new();
                items.push(
                    ReturnItem {
                        expression: LogicalExpression::Id(current_var.to_owned()),
                        alias: Some(String::from_str("id")),
                    },
                );
                proof {
                    assert forall|v: Seq<char>|
                        items_free_vars(items@).contains(v) implies Set::empty().insert(
                        current_var@,
                    ).contains(v) by {
                        let i = choose|i: int|
                            0 <= i < items@.len() && expr_free_vars(
                                (#[trigger] items@[i]).expression,
                            ).contains(v);
                    }
                }
                let plan = LogicalOperator::Return(
                    ReturnOp { items, distinct: false, input: Box::new(input) },
                );
                Ok((plan, None))
            },
            Step::Label => {
                let mut items: Vec<ReturnItem> = Vec::new();
                items.push(
                    ReturnItem {
                        expression: LogicalExpression::Labels(current_var.to_owned()),
                        alias: Some(String::from_str("label")),
                    },
                );
                proof {
                    assert forall|v: Seq<char>|
                        items_free_vars(items@).contains(v) implies Set::empty().insert(
                        current_var@,
                    ).contains(v) by {
                        let i = choose|i: int|
                            0 <= i < items@.len() && expr_free_vars(
                                (#[trigger] items@[i]).expression,
                            ).contains(v);
                    }
                }
                let plan = LogicalOperator::Return(
                    ReturnOp { items, distinct: false, input: Box::new(input) },
                );
                Ok((plan, None))
            },
            Step::Count => {
                let plan = self.aggregate_plan(
                    AggregateFunction::Count,
                    None,
                    String::from_str("count"),
                    input,
                    current_var,
                );
                Ok((plan, None))
            },
            Step::Sum => {
                let arg = Some(LogicalExpression::Variable(current_var.to_owned()));
                let plan = self.aggregate_plan(
                    AggregateFunction::Sum,
                    arg,
                    String::from_str("sum"),
                    input,
                    current_var,
                );
                Ok((plan, None))
            },
            Step::Mean => {
                let arg = Some(LogicalExpression::Variable(current_var.to_owned()));
                let plan = self.aggregate_plan(
                    AggregateFunction::Avg,
                    arg,
                    String::from_str("mean"),
                    input,
                    current_var,
                );
                Ok((plan, None))
            },
            Step::Min => {
                let arg = Some(LogicalExpression::Variable(current_var.to_owned()));
                let plan = self.aggregate_plan(
                    AggregateFunction::Min,
                    arg,
                    String::from_str("min"),
                    input,
                    current_var,
                );
                Ok((plan, None))
            },
            Step::Max => {
                let arg = Some(LogicalExpression::Variable(current_var.to_owned()));
                let plan = self.aggregate_plan(
                    AggregateFunction::Max,
                    arg,
                    String::from_str("max"),
                    input,
                    current_var,
                );
                Ok((plan, None))
            },
            Step::Fold => {
                let arg = Some(LogicalExpression::Variable(current_var.to_owned()));
                let plan = self.aggregate_plan(
                    AggregateFunction::Collect,
                    arg,
                    String::from_str("fold"),
                    input,
                    current_var,
                );
                Ok((plan, None))
            },
            Step::Order(modifiers) => {
                let mut keys: Vec<SortKey> = Vec::new();
                if modifiers.len() == 0 {
                    keys.push(
                        SortKey {
                            expression: LogicalExpression::Variable(current_var.to_owned()),
                            order: SortOrder::Ascending,
                        },
                    );
                } else {
                    let n = modifiers.len();
                    let mut j: usize = 0;
                    while j < n
                        invariant
                            j <= n,
                            n == modifiers@.len(),
                            keys@.len() == j,
                            forall|i: int|
                                0 <= i < j ==> ({
                                    &&& (#[trigger] keys@[i]).order == (match modifiers@[i].order {
                                        crate::ast::SortOrder::Asc => SortOrder::Ascending,
                                        crate::ast::SortOrder::Desc => SortOrder::Descending,
                                        crate::ast::SortOrder::Shuffle => SortOrder::Ascending,
                                    })
                                    &&& expr_free_vars(keys@[i].expression).subset_of(
                                        Set::empty().insert(current_var@),
                                    )
                                }),
                        decreases n - j,
                    {
                        let m = &modifiers[j];
                        let expression = self.translate_by_modifier(&m.by, current_var);
                        let order = match m.order {
                            crate::ast::SortOrder::Asc => SortOrder::Ascending,
                            crate::ast::SortOrder::Desc => SortOrder::Descending,
                            crate::ast::SortOrder::Shuffle => SortOrder::Ascending,
                        };
                        keys.push(SortKey { expression, order });
                        j = j + 1;
                    }
                }
                proof {
                    assert forall|v: Seq<char>|
                        crate::plan::sort_keys_free_vars(keys@).contains(v) implies Set::empty()
                        .insert(current_var@).contains(v) by {
                        let i = choose|i: int|
                            0 <= i < keys@.len() && expr_free_vars(
                                (#[trigger] keys@[i]).expression,
                            ).contains(v);
                    }
                }
                let plan = LogicalOperator::Sort(SortOp { keys, input: Box::new(input) });
                Ok((plan, None))
            },
            Step::As(label) => Ok((input, Some(label.clone()))),
            Step::Property(prop_step) => {
                match input {
                    LogicalOperator::CreateNode(create_op) => {
                        let mut create_op = create_op;
                        create_op.properties.push(
                            (
                                prop_step.key.clone(),
                                LogicalExpression::Literal(prop_step.value.clone()),
                            ),
                        );
                        let plan = LogicalOperator::CreateNode(create_op);
                        proof {
                            assert forall|v: Seq<char>|
                                props_free_vars(
                                    plan->CreateNode_0.properties@,
                                ).contains(v) implies props_free_vars(
                                input->CreateNode_0.properties@,
                            ).contains(v) by {
                                let i = choose|i: int|
                                    0 <= i < plan->CreateNode_0.properties@.len()
                                        && expr_free_vars(
                                        (#[trigger] plan->CreateNode_0.properties@[i]).1,
                                    ).contains(v);
                                assert(i < input->CreateNode_0.properties@.len());
                                assert(expr_free_vars(
                                    input->CreateNode_0.properties@[i].1,
                                ).contains(v));
                            }
                        }
                        Ok((plan, None))
                    },
                    other => {
                        let mut properties: Vec<(String, LogicalExpression)> = Vec::new();
                        properties.push(
                            (
                                prop_step.key.clone(),
                                LogicalExpression::Literal(prop_step.value.clone()),
                            ),
                        );
                        proof {
                            assert forall|v: Seq<char>| !props_free_vars(
                                properties@,
                            ).contains(v) by {
                                if props_free_vars(properties@).contains(v) {
                                    let i = choose|i: int|
                                        0 <= i < properties@.len() && expr_free_vars(
                                            (#[trigger] properties@[i]).1,
                                        ).contains(v);
                                }
                            }
                        }
                        let plan = LogicalOperator::SetProperty(
                            SetPropertyOp {
                                variable: current_var.to_owned(),
                                properties,
                                replace: false,
                                input: Box::new(other),
                            },
                        );
                        Ok((plan, None))
                    },
                }
            },
            Step::Drop => {
                let plan = LogicalOperator::DeleteNode(
                    DeleteNodeOp { variable: current_var.to_owned(), input: Box::new(input) },
                );
                Ok((plan, None))
            },
            Step::AddV(label) => {
                let var = self.next_var();
                let mut labels: Vec<String> = Vec::new();
                match label {
                    Some(l) => {
                        labels.push(l.clone());
                    },
                    None => {},
                }
                let plan = LogicalOperator::CreateNode(
                    CreateNodeOp {
                        variable: var.clone(),
                        labels,
                        properties: Vec::new(),
                        input: Some(Box::new(input)),
                    },
                );
                proof {
                    assert(props_free_vars(plan->CreateNode_0.properties@) =~= Set::<
                        Seq<char>,
                    >::empty());
                }
                Ok((plan, Some(var)))
            },
            Step::AddE(_) => Ok((input, None)),
            Step::From(_) => Ok((input, None)),
            Step::To(_) => Ok((input, None)),
        }
    }

    /// A global aggregate of one function over the current element,
    /// wrapped as a plan operator.
    fn aggregate_plan(
        &self,
        function: AggregateFunction,
        argument: Option<LogicalExpression>,
        alias: String,
        input: LogicalOperator,
        current_var: &str,
    ) -> (r: LogicalOperator)
        requires
            (match argument {
                Some(e) => expr_free_vars(e).subset_of(Set::empty().insert(current_var@)),
                None => true,
            }),
        ensures
            r matches LogicalOperator::Aggregate(agg),
            r->Aggregate_0.group_by@.len() == 0,
            r->Aggregate_0.aggregates@.len() == 1,
            r->Aggregate_0.aggregates@[0].function == function,
            r->Aggregate_0.aggregates@[0].expression == argument,
            !r->Aggregate_0.aggregates@[0].distinct,
            r->Aggregate_0.aggregates@[0].alias matches Some(a) && a@ == alias@,
            *r->Aggregate_0.input == input,
            op_bound_vars(input).subset_of(op_bound_vars(r)),
            op_open_refs(r).subset_of(
                op_open_refs(input).union(Set::empty().insert(current_var@)),
            ),
    {
        proof {
            reveal_with_fuel(op_open_refs, 3);
            reveal_with_fuel(op_bound_vars, 3);
        }
        let mut aggregates: Vec<AggregateExpr> = Vec::new();
        aggregates.push(
            AggregateExpr { function, expression: argument, distinct: false, alias: Some(alias) },
        );
        proof {
            assert forall|v: Seq<char>|
                crate::plan::aggregates_free_vars(aggregates@).contains(v) implies Set::empty()
                .insert(current_var@).contains(v) by {
                let i = choose|i: int|
                    0 <= i < aggregates@.len() && (match (#[trigger] aggregates@[i]).expression {
                        Some(e) => expr_free_vars(e).contains(v),
                        None => false,
                    });
            }
            assert forall|v: Seq<char>| !crate::plan::exprs_free_vars(
                Seq::<LogicalExpression>::empty(),
            ).contains(v) by {}
        }
        LogicalOperator::Aggregate(
            AggregateOp { group_by: Vec::new(), aggregates, input: Box::new(input) },
        )
    }

    /// Creates the edge a finished [`PendingEdge`] describes on top
    /// of `plan`, returning the grown plan and the edge's variable.
    fn create_pending_edge(&mut self, edge: PendingEdge, plan: LogicalOperator) -> (r: (
        LogicalOperator,
        String,
    ))
        requires
            old(self).counter() < u64::MAX,
            edge.from_var is Some,
            edge.to_var is Some,
            props_free_vars(edge.properties@) == Set::<Seq<char>>::empty(),
        ensures
            final(self).counter() == old(self).counter() + 1,
            final(self).counter() >= 1,
            op_bound_vars(plan).subset_of(op_bound_vars(r.0)),
            op_open_refs(r.0).subset_of(
                op_open_refs(plan).union(
                    Set::empty().insert(edge.from_var->0@).insert(edge.to_var->0@),
                ),
            ),
            op_bound_vars(r.0).contains(r.1@),
            edge_completion(
                edge.edge_type@,
                edge.from_var->0@,
                edge.to_var->0@,
                edge.properties@,
                plan,
                old(self).counter() as nat,
                r.0,
            ),
            r.1@ == var_name(old(self).counter() as nat),
    {
        proof {
            reveal_with_fuel(op_open_refs, 3);
            reveal_with_fuel(op_bound_vars, 3);
        }
        let edge_var = self.next_var();
        let from_v = edge.from_var.unwrap();
        let to_v = edge.to_var.unwrap();
        let out = LogicalOperator::CreateEdge(
            CreateEdgeOp {
                variable: Some(edge_var.clone()),
                from_variable: from_v,
                to_variable: to_v,
                edge_type: edge.edge_type,
                properties: edge.properties,
                input: Box::new(plan),
            },
        );
        (out, edge_var)
    }

    /// Lowers a whole statement: the source, then each step in
    /// order, assembling `addE`/`from`/`to` runs into edge
    /// creations, and a final `Return` of the current element unless
    /// the chain already ends in one. Lowering fails exactly when an
    /// edge-building step is unusable, and on success the whole
    /// output tree is pinned by [`stmt_lowers`]: its root is a
    /// `Return`, its only open references are aliases the statement
    /// itself introduced, and every operator is the one the
    /// statement's source and steps prescribe.
    pub fn translate_statement(&mut self, stmt: &Statement) -> (r: Result<LogicalPlan, Error>)
        requires
            stmt_wf(*stmt),
            old(self).counter() + 4 + 3 * stmt.steps@.len() <= u64::MAX,
        ensures
            r is Ok <==> stmt_translates(*stmt),
            r is Ok ==> r->Ok_0.root matches LogicalOperator::Return(_),
            r is Ok ==> op_open_refs(r->Ok_0.root).subset_of(stmt_labels(*stmt)),
            r is Ok ==> stmt_lowers(*stmt, old(self).counter() as nat, r->Ok_0),
    {
        proof {
            reveal_with_fuel(expr_free_vars, 6);
            reveal_with_fuel(op_open_refs, 4);
            reveal_with_fuel(op_bound_vars, 4);
        }
        match &stmt.source {
            TraversalSource::AddE(edge_type) => {
                let r = self.translate_add_edge_traversal(edge_type.as_str(), &stmt.steps);
                proof {
                    if r is Ok {
                        assert(stmt_lowers(*stmt, old(self).counter() as nat, r->Ok_0));
                    }
                }
                return r;
            },
            _ => {},
        }
        let mut plan = match self.translate_source(&stmt.source) {
            Ok(p) => p,
            Err(e) => {
                proof {
                    assert(false);
                }
                return Err(e);
            },
        };
        let ghost src_op = plan;
        let mut current_var = self.get_current_var();
        let mut pending_edge: Option<PendingEdge> = None;
        let n = stmt.steps.len();
        let mut i: usize = 0;
        let ghost steps = stmt.steps@;
        let ghost labels = stmt_labels(*stmt);
        let ghost init = LowerState {
            pend: None,
            plan: src_op,
            cv: current_var@,
            cnt: self.counter() as nat,
        };
        proof {
            assert(steps.skip(0) =~= steps);
            assert(steps.take(0) =~= Seq::<Step>::empty());
            assert(prefix_rel(steps.take(0), init, init));
            assert(init.cv == var_name(
                (old(self).counter() + source_vars_used(stmt.source) - 1) as nat,
            ));
            assert(init.cnt == old(self).counter() + source_vars_used(stmt.source));
        }
        while i < n
            invariant
                i <= n,
                n == stmt.steps@.len(),
                steps == stmt.steps@,
                labels == stmt_labels(*stmt),
                stmt_wf(*stmt),
                old(self).counter() + 4 + 3 * n <= u64::MAX,
                self.counter() >= 1,
                self.counter() <= old(self).counter() + 3 + 3 * i,
                steps_ok(steps.skip(i as int), pend_spec(pending_edge)) == steps_ok(steps, None),
                source_shape(stmt.source, old(self).counter() as nat, src_op),
                init == (LowerState {
                    pend: None,
                    plan: src_op,
                    cv: var_name(
                        (old(self).counter() + source_vars_used(stmt.source) - 1) as nat,
                    ),
                    cnt: (old(self).counter() + source_vars_used(stmt.source)) as nat,
                }),
                prefix_rel(
                    steps.take(i as int),
                    init,
                    LowerState {
                        pend: pend_view(pending_edge),
                        plan: plan,
                        cv: current_var@,
                        cnt: self.counter() as nat,
                    },
                ),
                op_open_refs(plan).subset_of(labels),
                op_bound_vars(plan).union(labels).contains(current_var@),
                (pending_edge matches Some(pe) ==> ({
                    &&& (pe.from_var matches Some(v) ==> labels.contains(v@))
                    &&& (pe.to_var matches Some(v) ==> labels.contains(v@))
                    &&& props_free_vars(pe.properties@) == Set::<Seq<char>>::empty()
                })),
            decreases n - i,
        {
            proof {
                assert(steps.skip(i as int).first() == steps[i as int]);
                assert(steps.skip(i as int).drop_first() =~= steps.skip(i + 1));
                assert(step_wf(steps[i as int]));
            }
            let ghost pre_st = LowerState {
                pend: pend_view(pending_edge),
                plan: plan,
                cv: current_var@,
                cnt: self.counter() as nat,
            };
            let ghost mut mid_st = pre_st;
            let step = &stmt.steps[i];
            let pe_state = pending_edge;
            pending_edge = None;
            let mut handled = false;
            match pe_state {
                Some(edge) => {
                    let mut edge = edge;
                    match step {
                        Step::From(ft) => {
                            match self.extract_from_to_var(ft) {
                                Ok(v) => {
                                    proof {
                                        assert(step_labels(steps[i as int]).contains(v@));
                                        assert(labels.contains(v@));
                                    }
                                    edge.from_var = Some(v);
                                    pending_edge = Some(edge);
                                    handled = true;
                                },
                                Err(e) => {
                                    return Err(e);
                                },
                            }
                        },
                        Step::To(ft) => {
                            match self.extract_from_to_var(ft) {
                                Ok(v) => {
                                    proof {
                                        assert(step_labels(steps[i as int]).contains(v@));
                                        assert(labels.contains(v@));
                                    }
                                    edge.to_var = Some(v);
                                    if edge.from_var.is_some() {
                                        let created = self.create_pending_edge(edge, plan);
                                        plan = created.0;
                                        current_var = created.1;
                                        pending_edge = None;
                                    } else {
                                        pending_edge = Some(edge);
                                    }
                                    handled = true;
                                },
                                Err(e) => {
                                    return Err(e);
                                },
                            }
                        },
                        Step::Property(prop_step) => {
                            let ghost pre_props = edge.properties@;
                            edge.properties.push(
                                (
                                    prop_step.key.clone(),
                                    LogicalExpression::Literal(prop_step.value.clone()),
                                ),
                            );
                            proof {
                                assert forall|v: Seq<char>| !props_free_vars(
                                    edge.properties@,
                                ).contains(v) by {
                                    if props_free_vars(edge.properties@).contains(v) {
                                        let j = choose|j: int|
                                            0 <= j < edge.properties@.len() && expr_free_vars(
                                                (#[trigger] edge.properties@[j]).1,
                                            ).contains(v);
                                        if j < pre_props.len() {
                                            assert(expr_free_vars(pre_props[j].1).contains(v));
                                            assert(props_free_vars(pre_props).contains(v));
                                        }
                                    }
                                }
                                assert(props_free_vars(edge.properties@) =~= Set::<
                                    Seq<char>,
                                >::empty());
                                assert(edge.properties@.drop_last() =~= pre_props);
                            }
                            pending_edge = Some(edge);
                            handled = true;
                        },
                        Step::AddE(edge_type) => {
                            if edge.from_var.is_some() && edge.to_var.is_some() {
                                let created = self.create_pending_edge(edge, plan);
                                plan = created.0;
                                current_var = created.1;
                            }
                            pending_edge = Some(
                                PendingEdge {
                                    edge_type: edge_type.clone(),
                                    from_var: None,
                                    to_var: None,
                                    properties: Vec::new(),
                                },
                            );
                            proof {
                                assert(props_free_vars(
                                    pending_edge->Some_0.properties@,
                                ) =~= Set::<Seq<char>>::empty());
                                assert(pending_edge->Some_0.properties@ =~= Seq::<
                                    (String, LogicalExpression),
                                >::empty());
                            }
                            handled = true;
                        },
                        _ => {
                            if edge.from_var.is_some() && edge.to_var.is_some() {
                                let created = self.create_pending_edge(edge, plan);
                                plan = created.0;
                                current_var = created.1;
                                pending_edge = None;
                            } else {
                                pending_edge = Some(edge);
                            }
                            handled = false;
                        },
                    }
                },
                None => {
                    match step {
                        Step::AddE(edge_type) => {
                            pending_edge = Some(
                                PendingEdge {
                                    edge_type: edge_type.clone(),
                                    from_var: None,
                                    to_var: None,
                                    properties: Vec::new(),
                                },
                            );
                            proof {
                                assert(props_free_vars(
                                    pending_edge->Some_0.properties@,
                                ) =~= Set::<Seq<char>>::empty());
                                assert(pending_edge->Some_0.properties@ =~= Seq::<
                                    (String, LogicalExpression),
                                >::empty());
                            }
                            handled = true;
                        },
                        _ => {
                            handled = false;
                        },
                    }
                },
            }
            proof {
                mid_st = LowerState {
                    pend: pend_view(pending_edge),
                    plan: plan,
                    cv: current_var@,
                    cnt: self.counter() as nat,
                };
            }
            if !handled {
                match self.translate_step(step, plan, current_var.as_str()) {
                    Ok(stepped) => {
                        plan = stepped.0;
                        let ghost nvg = opt_str_view(stepped.1);
                        match stepped.1 {
                            Some(v) => {
                                proof {
                                    assert(op_bound_vars(plan).union(
                                        step_labels(steps[i as int]),
                                    ).contains(v@));
                                    assert(step_labels(steps[i as int]).contains(v@)
                                        ==> labels.contains(v@));
                                }
                                current_var = v;
                            },
                            None => {},
                        }
                        proof {
                            assert(step_shape(
                                steps[i as int],
                                mid_st.plan,
                                mid_st.cv,
                                mid_st.cnt,
                                plan,
                                nvg,
                            ));
                            assert(nvg == step_new_var(steps[i as int], mid_st.cnt));
                            assert(current_var@ == (match nvg {
                                Some(v) => v,
                                None => mid_st.cv,
                            }));
                        }
                    },
                    Err(e) => {
                        proof {
                            assert(false);
                        }
                        return Err(e);
                    },
                }
            }
            proof {
                let s = steps[i as int];
                let cur_st = LowerState {
                    pend: pend_view(pending_edge),
                    plan: plan,
                    cv: current_var@,
                    cnt: self.counter() as nat,
                };
                if pre_st.pend is Some {
                    // An ordinary step under a pending edge first
                    // settles the edge when it is complete; walk the
                    // relation through that intermediate state.
                    match s {
                        Step::From(_) | Step::To(_) | Step::Property(_) | Step::AddE(_) => {},
                        _ => {
                            let pv = pre_st.pend->0;
                            if pv.from is Some && pv.to is Some {
                                assert(edge_completion(
                                    pv.etype,
                                    pv.from->0,
                                    pv.to->0,
                                    pv.props,
                                    pre_st.plan,
                                    pre_st.cnt,
                                    mid_st.plan,
                                ));
                                assert(mid_st.cv == var_name(pre_st.cnt));
                                assert(mid_st.cnt == pre_st.cnt + 1);
                                assert(step_shape(
                                    s,
                                    mid_st.plan,
                                    var_name(pre_st.cnt),
                                    pre_st.cnt + 1,
                                    cur_st.plan,
                                    step_new_var(s, pre_st.cnt + 1),
                                ));
                                assert(cur_st.cv == (match step_new_var(s, pre_st.cnt + 1) {
                                    Some(v) => v,
                                    None => var_name(pre_st.cnt),
                                }));
                                assert(cur_st.cnt == pre_st.cnt + 1 + step_vars_used(s));
                                assert(cur_st.pend is None);
                            } else {
                                assert(step_shape(
                                    s,
                                    pre_st.plan,
                                    pre_st.cv,
                                    pre_st.cnt,
                                    cur_st.plan,
                                    step_new_var(s, pre_st.cnt),
                                ));
                                assert(cur_st.pend == pre_st.pend);
                            }
                        },
                    }
                }
                assert(iter_rel(s, pre_st, cur_st));
                assert(steps.take(i + 1).drop_last() =~= steps.take(i as int));
                assert(steps.take(i + 1).last() == s);
                assert(prefix_rel(steps.take(i + 1), init, cur_st));
            }
            i = i + 1;
        }
        proof {
            assert(steps.skip(n as int) =~= Seq::<Step>::empty());
        }
        let ghost st_loop = LowerState {
            pend: pend_view(pending_edge),
            plan: plan,
            cv: current_var@,
            cnt: self.counter() as nat,
        };
        match pending_edge {
            Some(edge) => {
                if edge.from_var.is_some() && edge.to_var.is_some() {
                    let created = self.create_pending_edge(edge, plan);
                    plan = created.0;
                    current_var = created.1;
                }
            },
            None => {},
        }
        let ghost fin_plan = plan;
        let ghost fin_cv = current_var@;
        let is_return = match &plan {
            LogicalOperator::Return(_) => true,
            _ => false,
        };
        if !is_return {
            let mut items: Vec<ReturnItem> = Vec::new();
            items.push(
                ReturnItem {
                    expression: LogicalExpression::Variable(current_var),
                    alias: None,
                },
            );
            proof {
                assert forall|v: Seq<char>|
                    items_free_vars(items@).contains(v) implies op_bound_vars(plan).union(
                    labels,
                ).contains(v) by {
                    let j = choose|j: int|
                        0 <= j < items@.len() && expr_free_vars(
                            (#[trigger] items@[j]).expression,
                        ).contains(v);
                }
            }
            plan = LogicalOperator::Return(
                ReturnOp { items, distinct: false, input: Box::new(plan) },
            );
        }
        proof {
            assert(final_wrap(fin_plan, fin_cv, plan));
            assert(final_rel(st_loop, plan));
            assert(steps.take(n as int) =~= steps);
            assert(prefix_rel(stmt.steps@, init, st_loop));
            assert(stmt_lowers(*stmt, old(self).counter() as nat, LogicalPlan { root: plan }));
        }
        Ok(LogicalPlan::new(plan))
    }

    /// Lowers `g.addE(type).from(a).to(b)...`: a node scan for
    /// context, the edge creation between the two named aliases, and
    /// a `Return` of the new edge. Fails exactly when an endpoint is
    /// missing or given as an inner traversal.
    fn translate_add_edge_traversal(&mut self, edge_type: &str, steps: &Vec<Step>) -> (r: Result<
        LogicalPlan,
        Error,
    >)
        requires
            old(self).counter() <= u64::MAX - 2,
        ensures
            r is Ok <==> add_edge_ok(steps@),
            r is Ok ==> final(self).counter() == old(self).counter() + 2,
            r is Err ==> final(self).counter() == old(self).counter(),
            r is Ok ==> add_edge_plan_shape(
                edge_type@,
                steps@,
                old(self).counter() as nat,
                r->Ok_0,
            ),
            r is Ok ==> op_open_refs(r->Ok_0.root).subset_of(steps_labels(steps@)),
    {
        proof {
            reveal_with_fuel(expr_free_vars, 6);
            reveal_with_fuel(op_open_refs, 4);
            reveal_with_fuel(op_bound_vars, 4);
        }
        let mut from_var: Option<String> = None;
        let mut to_var: Option<String> = None;
        let mut properties: Vec<(String, LogicalExpression)> = Vec::new();
        let n = steps.len();
        let mut i: usize = 0;
        proof {
            assert(steps@.take(0) =~= Seq::<Step>::empty());
            assert(edge_props(steps@.take(0)) =~= Seq::<(Seq<char>, ValueView)>::empty());
        }
        while i < n
            invariant
                i <= n,
                n == steps@.len(),
                forall|j: int|
                    0 <= j < i ==> !((#[trigger] steps@[j]) matches Step::From(
                        FromTo::Traversal(_),
                    )),
                forall|j: int|
                    0 <= j < i ==> !((#[trigger] steps@[j]) matches Step::To(
                        FromTo::Traversal(_),
                    )),
                (from_var is Some) <==> (last_from(steps@.take(i as int)) is Some),
                (last_from(steps@.take(i as int)) matches Some(ft) ==> (ft matches FromTo::Label(
                    l,
                ) && from_var->0@ == l@)),
                (to_var is Some) <==> (last_to(steps@.take(i as int)) is Some),
                (last_to(steps@.take(i as int)) matches Some(ft) ==> (ft matches FromTo::Label(l)
                    && to_var->0@ == l@)),
                from_var matches Some(v) ==> steps_labels(steps@).contains(v@),
                to_var matches Some(v) ==> steps_labels(steps@).contains(v@),
                properties@.len() == edge_props(steps@.take(i as int)).len(),
                forall|j: int|
                    0 <= j < properties@.len() ==> ({
                        &&& (#[trigger] properties@[j]).0@ == edge_props(
                            steps@.take(i as int),
                        )[j].0
                        &&& properties@[j].1 matches LogicalExpression::Literal(lv)
                        &&& lv@ == edge_props(steps@.take(i as int))[j].1
                    }),
            decreases n - i,
        {
            proof {
                assert(steps@.take(i + 1).drop_last() =~= steps@.take(i as int));
                assert(steps@.take(i + 1).last() == steps@[i as int]);
            }
            match &steps[i] {
                Step::From(from_to) => {
                    match self.extract_from_to_var(from_to) {
                        Ok(v) => {
                            proof {
                                assert(step_labels(steps@[i as int]).contains(v@));
                            }
                            from_var = Some(v);
                        },
                        Err(e) => {
                            proof {
                                assert(steps@[i as int] matches Step::From(FromTo::Traversal(_)));
                                assert(!add_edge_ok(steps@));
                            }
                            return Err(e);
                        },
                    }
                },
                Step::To(from_to) => {
                    match self.extract_from_to_var(from_to) {
                        Ok(v) => {
                            proof {
                                assert(step_labels(steps@[i as int]).contains(v@));
                            }
                            to_var = Some(v);
                        },
                        Err(e) => {
                            proof {
                                assert(steps@[i as int] matches Step::To(FromTo::Traversal(_)));
                                assert(!add_edge_ok(steps@));
                            }
                            return Err(e);
                        },
                    }
                },
                Step::Property(prop_step) => {
                    properties.push(
                        (
                            prop_step.key.clone(),
                            LogicalExpression::Literal(prop_step.value.clone()),
                        ),
                    );
                },
                _ => {},
            }
            i = i + 1;
        }
        proof {
            assert(steps@.take(n as int) =~= steps@);
            lemma_last_from_exists(steps@);
            lemma_last_to_exists(steps@);
        }
        let from_label = match from_var {
            Some(v) => v,
            None => {
                return Err(Error::Internal(String::from_str("addE requires from() step")));
            },
        };
        let to_label = match to_var {
            Some(v) => v,
            None => {
                return Err(Error::Internal(String::from_str("addE requires to() step")));
            },
        };
        let scan_var = self.next_var();
        let scan = LogicalOperator::NodeScan(
            NodeScanOp { variable: scan_var, label: None, input: None },
        );
        let edge_var = self.next_var();
        proof {
            assert forall|v: Seq<char>| !props_free_vars(properties@).contains(v) by {
                if props_free_vars(properties@).contains(v) {
                    let j = choose|j: int|
                        0 <= j < properties@.len() && expr_free_vars(
                            (#[trigger] properties@[j]).1,
                        ).contains(v);
                }
            }
        }
        let create_edge = LogicalOperator::CreateEdge(
            CreateEdgeOp {
                variable: Some(edge_var.clone()),
                from_variable: from_label,
                to_variable: to_label,
                edge_type: edge_type.to_owned(),
                properties,
                input: Box::new(scan),
            },
        );
        let mut items: Vec<ReturnItem> = Vec::new();
        items.push(ReturnItem { expression: LogicalExpression::Variable(edge_var), alias: None });
        proof {
            assert forall|v: Seq<char>|
                items_free_vars(items@).contains(v) implies op_bound_vars(
                create_edge,
            ).contains(v) by {
                let j = choose|j: int|
                    0 <= j < items@.len() && expr_free_vars(
                        (#[trigger] items@[j]).expression,
                    ).contains(v);
            }
        }
        let plan = LogicalOperator::Return(
            ReturnOp { items, distinct: false, input: Box::new(create_edge) },
        );
        Ok(LogicalPlan::new(plan))
    }

    /// Lowers one `has` filter over the element bound to `var`. The
    /// result references no variable but `var`.
    fn translate_has_step(&self, has: &HasStep, var: &str) -> (r: Result<LogicalExpression, Error>)
        requires
            (match *has {
                HasStep::KeyPredicate(_, p) => pred_wf(p),
                _ => true,
            }),
        ensures
            r is Ok,
            r is Ok ==> expr_free_vars(r->Ok_0).subset_of(Set::empty().insert(var@)),
            (match *has {
                HasStep::Key(k) => ({
                    &&& r->Ok_0 matches LogicalExpression::Unary { op, operand }
                    &&& op == UnaryOp::IsNotNull
                    &&& *operand matches LogicalExpression::Property { variable, property }
                    &&& variable@ == var@
                    &&& property@ == k@
                }),
                HasStep::KeyValue(k, v) => ({
                    &&& r->Ok_0 matches LogicalExpression::Binary { left, op, right }
                    &&& op == BinaryOp::Eq
                    &&& *left matches LogicalExpression::Property { variable, property }
                    &&& variable@ == var@
                    &&& property@ == k@
                    &&& *right matches LogicalExpression::Literal(lv)
                    &&& lv@ == v@
                }),
                HasStep::KeyPredicate(_, _) => true,
                HasStep::LabelKeyValue(l, k, v) => ({
                    &&& r->Ok_0 matches LogicalExpression::Binary { left, op, right }
                    &&& op == BinaryOp::And
                    &&& *left matches LogicalExpression::Binary { left: ll, op: lop, right: lr }
                    &&& lop == BinaryOp::Eq
                    &&& *ll matches LogicalExpression::Labels(lvar)
                    &&& lvar@ == var@
                    &&& *lr matches LogicalExpression::Literal(llit)
                    &&& llit matches Value::Str(ls)
                    &&& ls@ == l@
                    &&& *right matches LogicalExpression::Binary { left: rl, op: rop, right: rr }
                    &&& rop == BinaryOp::Eq
                    &&& *rl matches LogicalExpression::Property { variable, property }
                    &&& variable@ == var@
                    &&& property@ == k@
                    &&& *rr matches LogicalExpression::Literal(rlit)
                    &&& rlit@ == v@
                }),
            }),
    {
        proof {
            reveal_with_fuel(expr_free_vars, 6);
        }
        match has {
            HasStep::Key(key) => Ok(
                LogicalExpression::Unary {
                    op: UnaryOp::IsNotNull,
                    operand: Box::new(
                        LogicalExpression::Property {
                            variable: var.to_owned(),
                            property: key.clone(),
                        },
                    ),
                },
            ),
            HasStep::KeyValue(key, value) => Ok(
                LogicalExpression::Binary {
                    left: Box::new(
                        LogicalExpression::Property {
                            variable: var.to_owned(),
                            property: key.clone(),
                        },
                    ),
                    op: BinaryOp::Eq,
                    right: Box::new(LogicalExpression::Literal(value.clone())),
                },
            ),
            HasStep::KeyPredicate(key, pred) => {
                let prop = LogicalExpression::Property {
                    variable: var.to_owned(),
                    property: key.clone(),
                };
                Self::translate_predicate(pred, prop)
            },
            HasStep::LabelKeyValue(label, key, value) => {
                let label_check = LogicalExpression::Binary {
                    left: Box::new(LogicalExpression::Labels(var.to_owned())),
                    op: BinaryOp::Eq,
                    right: Box::new(LogicalExpression::Literal(Value::Str(label.clone()))),
                };
                let prop_check = LogicalExpression::Binary {
                    left: Box::new(
                        LogicalExpression::Property {
                            variable: var.to_owned(),
                            property: key.clone(),
                        },
                    ),
                    op: BinaryOp::Eq,
                    right: Box::new(LogicalExpression::Literal(value.clone())),
                };
                Ok(
                    LogicalExpression::Binary {
                        left: Box::new(label_check),
                        op: BinaryOp::And,
                        right: Box::new(prop_check),
                    },
                )
            },
        }
    }
}

/// Translates a Gremlin query string to a logical plan: parse, then
/// lower. On success the plan's root is a `Return` projecting the
/// statement's result, and the plan is the lowering of a well-formed
/// statement — every open variable reference in it names one of that
/// statement's own aliases, and its whole operator tree is pinned by
/// [`stmt_lowers`] from the anonymous counter's start.
pub fn translate(query: &str) -> (r: Result<LogicalPlan, Error>)
    ensures
        r is Ok ==> r->Ok_0.root matches LogicalOperator::Return(_),
        r is Ok ==> exists|stmt: Statement|
            #![auto]
            {
                &&& stmt_wf(stmt)
                &&& stmt_translates(stmt)
                &&& op_open_refs(r->Ok_0.root).subset_of(stmt_labels(stmt))
                &&& stmt_lowers(stmt, 0, r->Ok_0)
            },
{
    let statement = match crate::parser::parse(query) {
        Ok(s) => s,
        Err(e) => {
            return Err(e);
        },
    };
    let mut translator = GremlinTranslator::new();
    let r = translator.translate_statement(&statement);
    proof {
        if r is Ok {
            assert({
                &&& stmt_wf(statement)
                &&& stmt_translates(statement)
                &&& op_open_refs(r->Ok_0.root).subset_of(stmt_labels(statement))
                &&& stmt_lowers(statement, 0, r->Ok_0)
            });
        }
    }
    r
}

/// Law: translator closure. A statement whose steps introduce no
/// aliases lowers to a plan with no open references at all: every
/// variable its expressions mention is bound by a scan, expand or
/// create beneath the mention.
pub proof fn lemma_translator_closure(stmt: Statement, root: LogicalOperator)
    requires
        stmt_labels(stmt) == Set::<Seq<char>>::empty(),
        op_open_refs(root).subset_of(stmt_labels(stmt)),
    ensures
        op_open_refs(root) == Set::<Seq<char>>::empty(),
{
    assert(op_open_refs(root) =~= Set::<Seq<char>>::empty());
}

/// Whether none of the expressions references a variable.
pub open spec fn exprs_no_vars(s: Seq<LogicalExpression>) -> bool {
    forall|i: int| 0 <= i < s.len() ==> expr_free_vars(#[trigger] s[i]) == Set::<Seq<char>>::empty()
}

/// Whether `g.addE(t)` followed by these steps can be lowered: no
/// traversal-valued `from`/`to` argument, and both endpoints named.
pub open spec fn add_edge_ok(steps: Seq<Step>) -> bool {
    &&& forall|i: int|
        0 <= i < steps.len() ==> !((#[trigger] steps[i]) matches Step::From(FromTo::Traversal(_)))
    &&& forall|i: int|
        0 <= i < steps.len() ==> !((#[trigger] steps[i]) matches Step::To(FromTo::Traversal(_)))
    &&& exists|i: int| 0 <= i < steps.len() && ((#[trigger] steps[i]) matches Step::From(_))
    &&& exists|i: int| 0 <= i < steps.len() && ((#[trigger] steps[i]) matches Step::To(_))
}

/// The argument of the last `from` step, if any.
pub open spec fn last_from(steps: Seq<Step>) -> Option<FromTo>
    decreases steps.len(),
{
    if steps.len() == 0 {
        None
    } else {
        match steps.last() {
            Step::From(ft) => Some(ft),
            _ => last_from(steps.drop_last()),
        }
    }
}

/// The argument of the last `to` step, if any.
pub open spec fn last_to(steps: Seq<Step>) -> Option<FromTo>
    decreases steps.len(),
{
    if steps.len() == 0 {
        None
    } else {
        match steps.last() {
            Step::To(ft) => Some(ft),
            _ => last_to(steps.drop_last()),
        }
    }
}

/// The properties the `property` steps of an edge-building chain
/// attach, in order.
pub open spec fn edge_props(steps: Seq<Step>) -> Seq<(Seq<char>, crate::value::ValueView)>
    decreases steps.len(),
{
    if steps.len() == 0 {
        Seq::empty()
    } else {
        let rest = edge_props(steps.drop_last());
        match steps.last() {
            Step::Property(ps) => rest.push((ps.key@, ps.value@)),
            _ => rest,
        }
    }
}

/// There is a last `from` step exactly when there is a `from` step.
proof fn lemma_last_from_exists(steps: Seq<Step>)
    ensures
        (last_from(steps) is Some) <==> exists|i: int|
            0 <= i < steps.len() && (#[trigger] steps[i]) matches Step::From(_),
    decreases steps.len(),
{
    if steps.len() > 0 {
        lemma_last_from_exists(steps.drop_last());
        assert(forall|i: int|
            0 <= i < steps.len() - 1 ==> #[trigger] steps.drop_last()[i] == steps[i]);
        if steps.last() matches Step::From(_) {
            assert(steps[steps.len() - 1] matches Step::From(_));
        } else {
            if exists|i: int| 0 <= i < steps.len() && (#[trigger] steps[i]) matches Step::From(_) {
                let i = choose|i: int|
                    0 <= i < steps.len() && (#[trigger] steps[i]) matches Step::From(_);
                assert(i < steps.len() - 1);
                assert(steps.drop_last()[i] matches Step::From(_));
            }
        }
    }
}

/// There is a last `to` step exactly when there is a `to` step.
proof fn lemma_last_to_exists(steps: Seq<Step>)
    ensures
        (last_to(steps) is Some) <==> exists|i: int|
            0 <= i < steps.len() && (#[trigger] steps[i]) matches Step::To(_),
    decreases steps.len(),
{
    if steps.len() > 0 {
        lemma_last_to_exists(steps.drop_last());
        assert(forall|i: int|
            0 <= i < steps.len() - 1 ==> #[trigger] steps.drop_last()[i] == steps[i]);
        if steps.last() matches Step::To(_) {
            assert(steps[steps.len() - 1] matches Step::To(_));
        } else {
            if exists|i: int| 0 <= i < steps.len() && (#[trigger] steps[i]) matches Step::To(_) {
                let i = choose|i: int|
                    0 <= i < steps.len() && (#[trigger] steps[i]) matches Step::To(_);
                assert(i < steps.len() - 1);
                assert(steps.drop_last()[i] matches Step::To(_));
            }
        }
    }
}

/// The state machine of step-level edge building: whether processing
/// the steps with the given pending-edge state (has the source been
/// named, has the destination been named) runs through without a
/// rejected traversal-valued `from`/`to`.
pub open spec fn steps_ok(steps: Seq<Step>, pending: Option<(bool, bool)>) -> bool
    decreases steps.len(),
{
    if steps.len() == 0 {
        true
    } else {
        let s = steps.first();
        let rest = steps.drop_first();
        match pending {
            Some(ft) => match s {
                Step::From(FromTo::Label(_)) => steps_ok(rest, Some((true, ft.1))),
                Step::From(FromTo::Traversal(_)) => false,
                Step::To(FromTo::Label(_)) => if ft.0 {
                    steps_ok(rest, None)
                } else {
                    steps_ok(rest, Some((ft.0, true)))
                },
                Step::To(FromTo::Traversal(_)) => false,
                Step::Property(_) => steps_ok(rest, pending),
                Step::AddE(_) => steps_ok(rest, Some((false, false))),
                _ => if ft.0 && ft.1 {
                    steps_ok(rest, None)
                } else {
                    steps_ok(rest, pending)
                },
            },
            None => match s {
                Step::AddE(_) => steps_ok(rest, Some((false, false))),
                _ => steps_ok(rest, None),
            },
        }
    }
}

/// Whether a whole statement can be lowered: an `addE` source needs
/// usable `from`/`to` steps, anything else runs the edge-building
/// state machine over its steps.
pub open spec fn stmt_translates(stmt: Statement) -> bool {
    match stmt.source {
        TraversalSource::AddE(_) => add_edge_ok(stmt.steps@),
        _ => steps_ok(stmt.steps@, None),
    }
}

} // verus!


