//! Tests of configuration, direction, error surfacing, and the
//! end-to-end shape of lowered scenario queries.

use grafeo::ast::{FromTo, Statement, Step, TraversalSource};
use grafeo::config::Config;
use grafeo::error::Error;
use grafeo::graph::Direction;
use grafeo::plan::{LogicalExpression, LogicalOperator};
use grafeo::translator::{translate, GremlinTranslator};

#[test]
fn direction_reverse() {
    assert_eq!(Direction::Outgoing.reverse(), Direction::Incoming);
    assert_eq!(Direction::Incoming.reverse(), Direction::Outgoing);
    assert_eq!(Direction::Both.reverse(), Direction::Both);
}

#[test]
fn config_in_memory() {
    let c = Config::in_memory();
    assert!(c.path.is_none());
    assert!(!c.wal_enabled);
    assert!(c.backward_edges);
    assert!(!c.query_logging);
}

#[test]
fn config_persistent_and_builders() {
    let c = Config::persistent("/data/graph")
        .with_memory_limit(1 << 30)
        .with_threads(8)
        .without_backward_edges()
        .with_query_logging()
        .with_spill_path("/tmp/spill");
    assert_eq!(c.path.as_deref(), Some("/data/graph"));
    assert!(c.wal_enabled);
    assert_eq!(c.memory_limit, Some(1 << 30));
    assert_eq!(c.threads, 8);
    assert!(!c.backward_edges);
    assert!(c.query_logging);
    assert_eq!(c.spill_path.as_deref(), Some("/tmp/spill"));
}

#[test]
fn config_default_values() {
    let c = Config::default();
    assert!(c.path.is_none());
    assert!(c.memory_limit.is_none());
    assert!(c.spill_path.is_none());
    assert!(c.wal_enabled);
    assert_eq!(c.wal_flush_interval_ms, 100);
    assert!(c.backward_edges);
}

#[test]
fn translate_rejects_malformed_queries() {
    assert!(matches!(translate(""), Err(Error::Parse(_))));
    assert!(matches!(translate("V().has"), Err(Error::Parse(_))));
    assert!(matches!(translate("g.V().frobnicate()"), Err(Error::Parse(_))));
    assert!(matches!(translate("g.V().has('age', gt(26)"), Err(Error::Parse(_))));
    assert!(matches!(translate("g.V().limit(-3)"), Err(Error::Parse(_))));
    assert!(matches!(translate("g.V().range(5, 2)"), Err(Error::Parse(_))));
    assert!(matches!(
        translate("g.V().has('name', 'unterminated)"),
        Err(Error::Parse(_))
    ));
}

#[test]
fn translate_rejects_incomplete_add_e() {
    assert!(matches!(translate("g.addE('knows')"), Err(Error::Internal(_))));
    assert!(matches!(
        translate("g.addE('knows').from('a')"),
        Err(Error::Internal(_))
    ));
    assert!(matches!(
        translate("g.addE('knows').to('b')"),
        Err(Error::Internal(_))
    ));
}

#[test]
fn translate_rejects_traversal_from_to() {
    // The reference translator rejects traversal-valued from()/to().
    let stmt = Statement {
        source: TraversalSource::AddE("knows".to_string()),
        steps: vec![
            Step::From(FromTo::Traversal(vec![])),
            Step::To(FromTo::Label("b".to_string())),
        ],
    };
    let mut translator = GremlinTranslator::new();
    let r = translator.translate_statement(&stmt);
    assert!(matches!(r, Err(Error::Internal(_))));
}

#[test]
fn error_message_text() {
    match translate("g.addE('knows')") {
        Err(e) => {
            assert!(!e.message().is_empty());
        }
        Ok(_) => panic!("expected an error"),
    }
}

#[test]
fn anonymous_variables_count_from_zero() {
    let plan = translate("g.V()").unwrap();
    if let LogicalOperator::Return(ret) = &plan.root {
        if let LogicalExpression::Variable(v) = &ret.items[0].expression {
            assert_eq!(v, "_v0");
        } else {
            panic!("expected a variable projection");
        }
        if let LogicalOperator::NodeScan(scan) = ret.input.as_ref() {
            assert_eq!(scan.variable, "_v0");
        } else {
            panic!("expected a node scan");
        }
    } else {
        panic!("expected a Return root");
    }
}

#[test]
fn point_lookup_lowers_to_filter_and_projection() {
    // The point-lookup scenario: a property filter and a value
    // projection over a full node scan.
    let plan = translate("g.V().has('name','Alice').values('age')").unwrap();
    if let LogicalOperator::Return(ret) = &plan.root {
        assert_eq!(ret.items.len(), 1);
        if let LogicalExpression::Property { property, .. } = &ret.items[0].expression {
            assert_eq!(property, "age");
        } else {
            panic!("expected a property projection");
        }
        if let LogicalOperator::Filter(f) = ret.input.as_ref() {
            assert!(matches!(f.input.as_ref(), LogicalOperator::NodeScan(_)));
        } else {
            panic!("expected a filter over the scan");
        }
    } else {
        panic!("expected a Return root");
    }
}

#[test]
fn range_query_lowers_to_sort_and_limit() {
    let plan =
        translate("g.V().hasLabel('Person').has('age', gt(26)).order().by('age').limit(1).values('name')")
            .unwrap();
    fn count_ops(op: &LogicalOperator, seen: &mut (u32, u32, u32)) {
        match op {
            LogicalOperator::Sort(s) => {
                seen.0 += 1;
                count_ops(&s.input, seen);
            }
            LogicalOperator::Limit(l) => {
                assert_eq!(l.count, 1);
                seen.1 += 1;
                count_ops(&l.input, seen);
            }
            LogicalOperator::Filter(f) => {
                seen.2 += 1;
                count_ops(&f.input, seen);
            }
            LogicalOperator::Return(r) => count_ops(&r.input, seen),
            LogicalOperator::NodeScan(_) => {}
            _ => panic!("unexpected operator in the lowered plan"),
        }
    }
    let mut seen = (0, 0, 0);
    count_ops(&plan.root, &mut seen);
    assert_eq!(seen, (1, 1, 2));
}

#[test]
fn two_hop_expansion_lowers_to_two_expands() {
    let plan = translate("g.V().has('name','A').out('knows').out('knows').values('name')").unwrap();
    fn count_expands(op: &LogicalOperator) -> u32 {
        match op {
            LogicalOperator::Expand(e) => 1 + count_expands(&e.input),
            LogicalOperator::Return(r) => count_expands(&r.input),
            LogicalOperator::Filter(f) => count_expands(&f.input),
            LogicalOperator::NodeScan(_) => 0,
            _ => 0,
        }
    }
    assert_eq!(count_expands(&plan.root), 2);
}

#[test]
fn add_vertex_chain_with_alias() {
    // The alias introduced by as() names the created node.
    let plan = translate("g.addV('Person').property('name','A').as('a')").unwrap();
    if let LogicalOperator::Return(ret) = &plan.root {
        if let LogicalExpression::Variable(v) = &ret.items[0].expression {
            assert_eq!(v, "a");
        } else {
            panic!("expected a variable projection");
        }
    } else {
        panic!("expected a Return root");
    }
}

#[test]
fn mean_aggregate_lowers_inside_return() {
    let plan = translate("g.V().values('age').mean()").unwrap();
    fn find_avg(op: &LogicalOperator) -> bool {
        match op {
            LogicalOperator::Aggregate(a) => {
                a.aggregates.len() == 1
                    && a.aggregates[0].function == grafeo::plan::AggregateFunction::Avg
            }
            LogicalOperator::Return(r) => find_avg(&r.input),
            _ => false,
        }
    }
    assert!(find_avg(&plan.root));
}

#[test]
fn within_predicate_lowers_to_membership() {
    let plan = translate("g.V().has('age', within(25, 30))").unwrap();
    fn find_filter(op: &LogicalOperator) -> Option<&grafeo::plan::FilterOp> {
        match op {
            LogicalOperator::Filter(f) => Some(f),
            LogicalOperator::Return(r) => find_filter(&r.input),
            _ => None,
        }
    }
    let f = find_filter(&plan.root).expect("expected a filter");
    if let LogicalExpression::Binary { op, right, .. } = &f.predicate {
        assert_eq!(*op, grafeo::plan::BinaryOp::In);
        if let LogicalExpression::List(items) = right.as_ref() {
            assert_eq!(items.len(), 2);
        } else {
            panic!("expected a list of candidates");
        }
    } else {
        panic!("expected a membership test");
    }
}

#[test]
fn step_level_add_edge_between_aliases() {
    let plan = translate("g.V().as('a').out('knows').as('b').addE('likes').from('a').to('b')")
        .unwrap();
    fn find_create_edge(op: &LogicalOperator) -> Option<&grafeo::plan::CreateEdgeOp> {
        match op {
            LogicalOperator::CreateEdge(e) => Some(e),
            LogicalOperator::Return(r) => find_create_edge(&r.input),
            _ => None,
        }
    }
    let edge = find_create_edge(&plan.root).expect("expected the created edge");
    assert_eq!(edge.edge_type, "likes");
    assert_eq!(edge.from_variable, "a");
    assert_eq!(edge.to_variable, "b");
}

#[test]
fn step_level_add_edge_without_endpoints_is_dropped() {
    // An addE step whose endpoints never arrive creates nothing;
    // the statement still lowers.
    let plan = translate("g.V().addE('knows')").unwrap();
    fn has_create_edge(op: &LogicalOperator) -> bool {
        match op {
            LogicalOperator::CreateEdge(_) => true,
            LogicalOperator::Return(r) => has_create_edge(&r.input),
            _ => false,
        }
    }
    assert!(!has_create_edge(&plan.root));
}

#[test]
fn reserved_alias_names_are_rejected() {
    // Names of the anonymous '_v<number>' shape cannot be aliases,
    // so anonymous variables never collide with user names.
    assert!(matches!(translate("g.V().as('_v0')"), Err(Error::Parse(_))));
    assert!(matches!(
        translate("g.addE('knows').from('_v1').to('b')"),
        Err(Error::Parse(_))
    ));
    // Near misses are ordinary aliases.
    assert!(translate("g.V().as('_vx')").is_ok());
    assert!(translate("g.V().as('v0')").is_ok());
}

#[test]
fn and_predicate_folds_left() {
    let plan = translate("g.V().has('age', and(gte(1), lt(5), neq(3)))").unwrap();
    fn find_filter(op: &LogicalOperator) -> Option<&grafeo::plan::FilterOp> {
        match op {
            LogicalOperator::Filter(f) => Some(f),
            LogicalOperator::Return(r) => find_filter(&r.input),
            _ => None,
        }
    }
    let f = find_filter(&plan.root).expect("expected a filter");
    // ((p1 And p2) And p3): two And nodes leaning left.
    if let LogicalExpression::Binary { left, op, .. } = &f.predicate {
        assert_eq!(*op, grafeo::plan::BinaryOp::And);
        if let LogicalExpression::Binary { op: inner, .. } = left.as_ref() {
            assert_eq!(*inner, grafeo::plan::BinaryOp::And);
        } else {
            panic!("expected a left-leaning fold");
        }
    } else {
        panic!("expected a binary conjunction");
    }
}
