//! The Gremlin abstract syntax: a traversal source followed by a
//! chain of steps, with the predicates and modifiers the supported
//! steps take.

use vstd::prelude::*;

use crate::value::Value;

verus! {

/// A traversal source: what the chain of steps starts from.
#[derive(Debug)]
pub enum TraversalSource {
    /// `g.V()` or `g.V(ids...)`: all nodes, or the listed ones.
    V(Option<Vec<Value>>),
    /// `g.E()` or `g.E(ids...)`: all edges, or the listed ones.
    E(Option<Vec<Value>>),
    /// `g.addV(label?)`: create a node.
    AddV(Option<String>),
    /// `g.addE(type)`: create an edge; needs `from` and `to` steps.
    AddE(String),
}

/// The argument of a `from`/`to` step.
#[derive(Debug)]
pub enum FromTo {
    /// A reference to an `as` label.
    Label(String),
    /// An inner traversal; the reference translator rejects this
    /// form.
    Traversal(Vec<Step>),
}

/// A `property(key, value)` step.
#[derive(Debug)]
pub struct PropertyStep {
    /// The property key.
    pub key: String,
    /// The literal value.
    pub value: Value,
}

/// A token a `by` modifier can select.
#[derive(Debug, Clone, Copy, PartialEq, Eq, Structural)]
pub enum TokenType {
    /// The entity's identifier.
    Id,
    /// The entity's label.
    Label,
}

/// What an `order().by(...)` modifier sorts by.
#[derive(Debug)]
pub enum ByModifier {
    /// The element itself.
    Identity,
    /// A property of the element.
    Key(String),
    /// A token of the element.
    Token(TokenType),
}

/// Sort direction of an `order` modifier.
#[derive(Debug, Clone, Copy, PartialEq, Eq, Structural)]
pub enum SortOrder {
    /// Smallest first.
    Asc,
    /// Largest first.
    Desc,
    /// Random order; not supported downstream, treated as
    /// ascending.
    Shuffle,
}

/// One `by` modifier of an `order` step.
#[derive(Debug)]
pub struct OrderModifier {
    /// What to sort by.
    pub by: ByModifier,
    /// Which way to sort.
    pub order: SortOrder,
}

/// A Gremlin predicate, as `has(key, predicate)` takes it.
#[derive(Debug)]
pub enum Predicate {
    /// Equal to the value.
    Eq(Value),
    /// Not equal to the value.
    Neq(Value),
    /// Less than the value.
    Lt(Value),
    /// Less than or equal to the value.
    Lte(Value),
    /// Greater than the value.
    Gt(Value),
    /// Greater than or equal to the value.
    Gte(Value),
    /// Member of the list.
    Within(Vec<Value>),
    /// Not a member of the list.
    Without(Vec<Value>),
    /// In the half-open interval `[start, end)`.
    Between(Value, Value),
    /// Contains the string.
    Containing(String),
    /// Starts with the string.
    StartingWith(String),
    /// Ends with the string.
    EndingWith(String),
    /// All of the predicates hold; takes at least one.
    And(Vec<Predicate>),
    /// At least one of the predicates holds; takes at least one.
    Or(Vec<Predicate>),
    /// The predicate does not hold.
    Not(Box<Predicate>),
}

/// A `has` step in one of its arities.
#[derive(Debug)]
pub enum HasStep {
    /// `has(key)`: the property exists.
    Key(String),
    /// `has(key, value)`: the property equals the value.
    KeyValue(String, Value),
    /// `has(key, predicate)`: the property satisfies the predicate.
    KeyPredicate(String, Predicate),
    /// `has(label, key, value)`: the label matches and the property
    /// equals the value.
    LabelKeyValue(String, String, Value),
}

/// One step of a traversal.
#[derive(Debug)]
pub enum Step {
    /// Walk outgoing edges to their destinations.
    Out(Vec<String>),
    /// Walk incoming edges to their sources.
    In(Vec<String>),
    /// Walk edges either way to the other endpoint.
    Both(Vec<String>),
    /// Walk to the outgoing edges themselves.
    OutE(Vec<String>),
    /// Walk to the incoming edges themselves.
    InE(Vec<String>),
    /// Walk to the edges themselves, either way.
    BothE(Vec<String>),
    /// Keep elements satisfying a `has` condition.
    Has(HasStep),
    /// Keep elements carrying one of the labels.
    HasLabel(Vec<String>),
    /// Keep elements with one of the identifiers.
    HasId(Vec<Value>),
    /// Keep elements lacking the property.
    HasNot(String),
    /// Drop duplicate elements.
    Dedup(Vec<String>),
    /// Keep at most this many elements.
    Limit(u64),
    /// Drop this many elements.
    Skip(u64),
    /// Keep the elements of the index interval `[start, end)`.
    Range(u64, u64),
    /// Project property values.
    Values(Vec<String>),
    /// Project the identifier.
    Id,
    /// Project the label.
    Label,
    /// Count the elements.
    Count,
    /// Sum the elements.
    Sum,
    /// Average the elements.
    Mean,
    /// Least element.
    Min,
    /// Greatest element.
    Max,
    /// Collect the elements into a list.
    Fold,
    /// Order the elements.
    Order(Vec<OrderModifier>),
    /// Name the current element.
    As(String),
    /// Set a property on the current element.
    Property(PropertyStep),
    /// Delete the current element.
    Drop,
    /// Create a node.
    AddV(Option<String>),
    /// Create an edge; followed by `from` and `to` steps.
    AddE(String),
    /// Source endpoint of an edge being created.
    From(FromTo),
    /// Destination endpoint of an edge being created.
    To(FromTo),
}

/// A parsed statement: a source and its chain of steps.
#[derive(Debug)]
pub struct Statement {
    /// The traversal source.
    pub source: TraversalSource,
    /// The steps, in order.
    pub steps: Vec<Step>,
}

/// Whether a predicate is well formed: `and`/`or` take at least one
/// argument, recursively.
pub open spec fn pred_wf(p: Predicate) -> bool
    decreases p,
{
    match p {
        Predicate::And(ps) => ps@.len() > 0 && forall|i: int|
            0 <= i < ps@.len() ==> pred_wf(#[trigger] ps@[i]),
        Predicate::Or(ps) => ps@.len() > 0 && forall|i: int|
            0 <= i < ps@.len() ==> pred_wf(#[trigger] ps@[i]),
        Predicate::Not(q) => pred_wf(*q),
        _ => true,
    }
}

/// Whether a step is well formed: its predicates are well formed and
/// a `range` interval is not inverted.
pub open spec fn step_wf(s: Step) -> bool {
    match s {
        Step::Has(HasStep::KeyPredicate(_, p)) => pred_wf(p),
        Step::Range(start, end) => start <= end,
        _ => true,
    }
}

/// Whether every step of a statement is well formed.
pub open spec fn stmt_wf(s: Statement) -> bool {
    forall|i: int| 0 <= i < s.steps@.len() ==> step_wf(#[trigger] s.steps@[i])
}

/// The variable names a step introduces for later reference: `as`
/// aliases and the label arguments of `from`/`to`.
pub open spec fn step_labels(s: Step) -> Set<Seq<char>> {
    match s {
        Step::As(l) => Set::empty().insert(l@),
        Step::From(FromTo::Label(l)) => Set::empty().insert(l@),
        Step::To(FromTo::Label(l)) => Set::empty().insert(l@),
        _ => Set::empty(),
    }
}

/// Whether a name has the shape reserved for anonymous variables:
/// `_v` followed by one or more decimal digits.
pub open spec fn reserved_name(s: Seq<char>) -> bool {
    &&& s.len() >= 3
    &&& s[0] == '_'
    &&& s[1] == 'v'
    &&& forall|i: int| 2 <= i < s.len() ==> 48 <= (#[trigger] s[i]) as u32 <= 57
}

/// Whether none of the names a step introduces is reserved.
pub open spec fn step_unreserved(s: Step) -> bool {
    forall|l: Seq<char>| #[trigger] step_labels(s).contains(l) ==> !reserved_name(l)
}

/// Whether none of the names a statement's steps introduce is
/// reserved for anonymous variables.
pub open spec fn stmt_unreserved(s: Statement) -> bool {
    forall|i: int| 0 <= i < s.steps@.len() ==> step_unreserved(#[trigger] s.steps@[i])
}

/// The variable names a chain of steps introduces.
pub open spec fn steps_labels(s: Seq<Step>) -> Set<Seq<char>> {
    Set::new(
        |v: Seq<char>| exists|i: int| 0 <= i < s.len() && step_labels(#[trigger] s[i]).contains(v),
    )
}

/// The variable names a statement's steps introduce.
pub open spec fn stmt_labels(s: Statement) -> Set<Seq<char>> {
    steps_labels(s.steps@)
}

} // verus!
