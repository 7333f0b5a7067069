//! Tests of the Gremlin front end: query strings are lowered to the
//! expected logical operator trees.

use grafeo::ast::Predicate;
use grafeo::plan::{
    AggregateFunction, AggregateOp, BinaryOp, CreateEdgeOp, CreateNodeOp, ExpandDirection,
    ExpandOp, FilterOp, LimitOp, LogicalExpression, LogicalOperator, SkipOp, SortOp, UnaryOp,
};
use grafeo::translator::{translate, GremlinTranslator};
use grafeo::value::Value;

fn find_expand(op: &LogicalOperator) -> Option<&ExpandOp> {
    match op {
        LogicalOperator::Expand(e) => Some(e),
        LogicalOperator::Return(r) => find_expand(&r.input),
        _ => None,
    }
}

fn find_filter(op: &LogicalOperator) -> Option<&FilterOp> {
    match op {
        LogicalOperator::Filter(f) => Some(f),
        LogicalOperator::Return(r) => find_filter(&r.input),
        _ => None,
    }
}

fn find_distinct(op: &LogicalOperator) -> bool {
    match op {
        LogicalOperator::Distinct(_) => true,
        LogicalOperator::Return(r) => find_distinct(&r.input),
        _ => false,
    }
}

fn find_skip(op: &LogicalOperator) -> Option<&SkipOp> {
    match op {
        LogicalOperator::Skip(s) => Some(s),
        LogicalOperator::Return(r) => find_skip(&r.input),
        _ => None,
    }
}

fn find_limit(op: &LogicalOperator) -> Option<&LimitOp> {
    match op {
        LogicalOperator::Limit(l) => Some(l),
        LogicalOperator::Return(r) => find_limit(&r.input),
        _ => None,
    }
}

fn find_aggregate(op: &LogicalOperator) -> Option<&AggregateOp> {
    match op {
        LogicalOperator::Aggregate(a) => Some(a),
        LogicalOperator::Return(r) => find_aggregate(&r.input),
        _ => None,
    }
}

fn find_create(op: &LogicalOperator) -> Option<&CreateNodeOp> {
    match op {
        LogicalOperator::CreateNode(c) => Some(c),
        LogicalOperator::Return(r) => find_create(&r.input),
        _ => None,
    }
}

fn find_delete(op: &LogicalOperator) -> bool {
    match op {
        LogicalOperator::DeleteNode(_) => true,
        LogicalOperator::Return(r) => find_delete(&r.input),
        _ => false,
    }
}

fn find_create_edge(op: &LogicalOperator) -> Option<&CreateEdgeOp> {
    match op {
        LogicalOperator::CreateEdge(e) => Some(e),
        LogicalOperator::Return(r) => find_create_edge(&r.input),
        _ => None,
    }
}

fn find_set_property(op: &LogicalOperator) -> bool {
    match op {
        LogicalOperator::SetProperty(_) => true,
        LogicalOperator::Return(r) => find_set_property(&r.input),
        LogicalOperator::Filter(f) => find_set_property(&f.input),
        _ => false,
    }
}

fn find_sort(op: &LogicalOperator) -> Option<&SortOp> {
    match op {
        LogicalOperator::Sort(s) => Some(s),
        LogicalOperator::Return(r) => find_sort(&r.input),
        _ => None,
    }
}

// === Basic Traversal Tests ===

#[test]
fn test_translate_simple_traversal() {
    let result = translate("g.V()");
    assert!(result.is_ok());
}

#[test]
fn test_translate_with_filter() {
    let result = translate("g.V().hasLabel('Person')");
    assert!(result.is_ok());
}

// === Navigation Tests ===

#[test]
fn test_translate_navigation() {
    let result = translate("g.V().out('knows')");
    assert!(result.is_ok());
    let plan = result.unwrap();
    // Should have NodeScan -> Expand -> Return
    if let LogicalOperator::Return(ret) = &plan.root {
        if let LogicalOperator::Expand(expand) = ret.input.as_ref() {
            assert_eq!(expand.edge_type, Some("knows".to_string()));
            assert_eq!(expand.direction, ExpandDirection::Outgoing);
        } else {
            panic!("Expected Expand operator");
        }
    } else {
        panic!("Expected Return operator");
    }
}

#[test]
fn test_translate_in_navigation() {
    let result = translate("g.V().in('knows')");
    assert!(result.is_ok());
    let plan = result.unwrap();

    let expand = find_expand(&plan.root).expect("Expected Expand");
    assert_eq!(expand.direction, ExpandDirection::Incoming);
}

#[test]
fn test_translate_both_navigation() {
    let result = translate("g.V().both('knows')");
    assert!(result.is_ok());
    let plan = result.unwrap();

    let expand = find_expand(&plan.root).expect("Expected Expand");
    assert_eq!(expand.direction, ExpandDirection::Both);
}

#[test]
fn test_translate_out_e() {
    let result = translate("g.V().outE('knows')");
    assert!(result.is_ok());
    let plan = result.unwrap();

    let expand = find_expand(&plan.root).expect("Expected Expand");
    assert!(expand.edge_variable.is_some());
}

// === Filter Tests ===

#[test]
fn test_translate_has_key_value() {
    let result = translate("g.V().has('name', 'Alice')");
    assert!(result.is_ok());
    let plan = result.unwrap();

    let filter = find_filter(&plan.root).expect("Expected Filter");
    if let LogicalExpression::Binary { op, .. } = &filter.predicate {
        assert_eq!(*op, BinaryOp::Eq);
    }
}

#[test]
fn test_translate_has_not() {
    let result = translate("g.V().hasNot('deleted')");
    assert!(result.is_ok());
    let plan = result.unwrap();

    let filter = find_filter(&plan.root).expect("Expected Filter");
    if let LogicalExpression::Unary { op, .. } = &filter.predicate {
        assert_eq!(*op, UnaryOp::IsNull);
    }
}

#[test]
fn test_translate_dedup() {
    let result = translate("g.V().dedup()");
    assert!(result.is_ok());
    let plan = result.unwrap();

    assert!(find_distinct(&plan.root));
}

// === Pagination Tests ===

#[test]
fn test_translate_limit() {
    let result = translate("g.V().limit(10)");
    assert!(result.is_ok());
}

#[test]
fn test_translate_skip() {
    let result = translate("g.V().skip(5)");
    assert!(result.is_ok());
    let plan = result.unwrap();

    let skip = find_skip(&plan.root).expect("Expected Skip");
    assert_eq!(skip.count, 5);
}

#[test]
fn test_translate_range() {
    let result = translate("g.V().range(5, 15)");
    assert!(result.is_ok());
    let plan = result.unwrap();

    let limit = find_limit(&plan.root).expect("Expected Limit");
    assert_eq!(limit.count, 10); // 15 - 5
}

// === Aggregation Tests ===

#[test]
fn test_translate_count() {
    let result = translate("g.V().count()");
    assert!(result.is_ok());
    let plan = result.unwrap();
    // The result is wrapped in Return(Aggregate(...))
    if let LogicalOperator::Return(ret) = &plan.root {
        if let LogicalOperator::Aggregate(agg) = ret.input.as_ref() {
            assert_eq!(agg.aggregates.len(), 1);
            assert_eq!(agg.aggregates[0].function, AggregateFunction::Count);
        } else {
            panic!("Expected Aggregate operator inside Return");
        }
    } else {
        panic!("Expected Return operator");
    }
}

#[test]
fn test_translate_sum() {
    let result = translate("g.V().values('age').sum()");
    assert!(result.is_ok());
}

#[test]
fn test_translate_mean() {
    let result = translate("g.V().values('age').mean()");
    assert!(result.is_ok());
}

#[test]
fn test_translate_min() {
    let result = translate("g.V().values('age').min()");
    assert!(result.is_ok());
}

#[test]
fn test_translate_max() {
    let result = translate("g.V().values('age').max()");
    assert!(result.is_ok());
}

#[test]
fn test_translate_fold() {
    let result = translate("g.V().fold()");
    assert!(result.is_ok());
    let plan = result.unwrap();

    let agg = find_aggregate(&plan.root).expect("Expected Aggregate");
    assert_eq!(agg.aggregates[0].function, AggregateFunction::Collect);
}

// === Map Steps ===

#[test]
fn test_translate_values() {
    let result = translate("g.V().values('name')");
    assert!(result.is_ok());
    let plan = result.unwrap();

    if let LogicalOperator::Return(ret) = &plan.root {
        assert_eq!(ret.items.len(), 1);
        if let LogicalExpression::Property { property, .. } = &ret.items[0].expression {
            assert_eq!(property, "name");
        }
    }
}

#[test]
fn test_translate_id() {
    let result = translate("g.V().id()");
    assert!(result.is_ok());
    let plan = result.unwrap();

    if let LogicalOperator::Return(ret) = &plan.root {
        if let LogicalExpression::Id(_) = &ret.items[0].expression {
            // OK
        } else {
            panic!("Expected Id expression");
        }
    }
}

#[test]
fn test_translate_label() {
    let result = translate("g.V().label()");
    assert!(result.is_ok());
    let plan = result.unwrap();

    if let LogicalOperator::Return(ret) = &plan.root {
        if let LogicalExpression::Labels(_) = &ret.items[0].expression {
            // OK
        } else {
            panic!("Expected Labels expression");
        }
    }
}

// === Mutation Tests ===

#[test]
fn test_translate_add_v() {
    let result = translate("g.addV('Person')");
    assert!(result.is_ok());
    let plan = result.unwrap();

    let create = find_create(&plan.root).expect("Expected CreateNode");
    assert_eq!(create.labels, vec!["Person".to_string()]);
}

#[test]
fn test_translate_drop() {
    let result = translate("g.V().drop()");
    assert!(result.is_ok());
    let plan = result.unwrap();

    assert!(find_delete(&plan.root));
}

#[test]
fn test_translate_add_v_with_property() {
    let result = translate("g.addV('Person').property('name', 'Alice')");
    assert!(result.is_ok());
    let plan = result.unwrap();

    let create = find_create(&plan.root).expect("Expected CreateNode");
    assert_eq!(create.labels, vec!["Person".to_string()]);
    assert_eq!(create.properties.len(), 1);
    assert_eq!(create.properties[0].0, "name");
}

#[test]
fn test_translate_add_v_with_multiple_properties() {
    let result = translate("g.addV('Person').property('name', 'Alice').property('age', 30)");
    assert!(result.is_ok());
    let plan = result.unwrap();

    let create = find_create(&plan.root).expect("Expected CreateNode");
    assert_eq!(create.labels, vec!["Person".to_string()]);
    assert_eq!(create.properties.len(), 2);
}

#[test]
fn test_translate_property_on_existing_node() {
    // property() on an existing node should create SetPropertyOp
    let result = translate("g.V().has('name', 'Alice').property('updated', true)");
    assert!(result.is_ok());
    let plan = result.unwrap();

    assert!(find_set_property(&plan.root));
}

#[test]
fn test_translate_add_e_with_from_to() {
    let result = translate("g.addE('knows').from('a').to('b')");
    assert!(result.is_ok());
    let plan = result.unwrap();

    let edge = find_create_edge(&plan.root).expect("Expected CreateEdge");
    assert_eq!(edge.edge_type, "knows");
    assert_eq!(edge.from_variable, "a");
    assert_eq!(edge.to_variable, "b");
}

#[test]
fn test_translate_add_e_with_properties() {
    let result = translate("g.addE('knows').from('a').to('b').property('since', 2020)");
    assert!(result.is_ok());
    let plan = result.unwrap();

    let edge = find_create_edge(&plan.root).expect("Expected CreateEdge");
    assert_eq!(edge.edge_type, "knows");
    assert_eq!(edge.properties.len(), 1);
    assert_eq!(edge.properties[0].0, "since");
}

// === Order Tests ===

#[test]
fn test_translate_order() {
    let result = translate("g.V().order()");
    assert!(result.is_ok());
    let plan = result.unwrap();

    assert!(find_sort(&plan.root).is_some());
}

// === Predicate Tests ===

#[test]
fn test_predicate_gt() {
    let expr = LogicalExpression::Variable("x".to_string());
    let pred = Predicate::Gt(Value::Int64(10));
    let result = GremlinTranslator::translate_predicate(&pred, expr).unwrap();

    if let LogicalExpression::Binary { op, .. } = result {
        assert_eq!(op, BinaryOp::Gt);
    } else {
        panic!("Expected Binary expression");
    }
}

#[test]
fn test_predicate_within() {
    let expr = LogicalExpression::Variable("x".to_string());
    let pred = Predicate::Within(vec![Value::Int64(1), Value::Int64(2)]);
    let result = GremlinTranslator::translate_predicate(&pred, expr).unwrap();

    if let LogicalExpression::Binary { op, .. } = result {
        assert_eq!(op, BinaryOp::In);
    } else {
        panic!("Expected Binary expression");
    }
}

#[test]
fn test_predicate_containing() {
    let expr = LogicalExpression::Variable("x".to_string());
    let pred = Predicate::Containing("test".to_string());
    let result = GremlinTranslator::translate_predicate(&pred, expr).unwrap();

    if let LogicalExpression::Binary { op, .. } = result {
        assert_eq!(op, BinaryOp::Contains);
    } else {
        panic!("Expected Binary expression");
    }
}
