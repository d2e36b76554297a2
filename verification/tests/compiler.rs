use std::collections::BTreeSet;

use wiredtiger_glue::cursor::{Compare, CursorSource, InternalCursor, JoinConfig};
use wiredtiger_glue::error::{ErrorDomain, GlueErrorCode, WT_NOTFOUND};
use wiredtiger_glue::index_spec::{
    are_valid, compare_for, cursor_for_index_specs, cursor_probes, is_valid, Probe, SearchKind,
};
use wiredtiger_glue::query_value::{
    ExternalValue, InternalIndexSpec, InternalValue, Operation, QueryValue,
};

const TABLE: &str = "table:t";
const JOIN: &str = "join:table:t";

/// A stand-in for the engine: a table of rows known by their numbers, and
/// indexes that hold, in key order, one entry (key, row) for each row.
struct Engine {
    rows: Vec<u64>,
    indexes: Vec<(String, Vec<(u64, u64)>)>,
}

impl Engine {
    fn entries(&self, uri: &str) -> Vec<(u64, u64)> {
        if uri == TABLE {
            return self.rows.iter().map(|r| (*r, *r)).collect();
        }
        let mut entries = self.indexes.iter().find(|(name, _)| name == uri).unwrap().1.clone();
        entries.sort();
        entries
    }

    /// Positions a cursor as the probe asks. Returns the key that the
    /// cursor has landed on, and on which side of the probe's key that is.
    fn run(&self, probe: &Probe) -> (Option<u64>, i32) {
        let keys: Vec<u64> = self.entries(&probe.uri).iter().map(|e| e.0).collect();
        if probe.search == SearchKind::Next {
            return (keys.first().copied(), 0);
        }
        let wanted = match &probe.key[0].external_value {
            ExternalValue::UInt(n) => *n,
            _ => panic!("the stand-in knows numbers only"),
        };
        if keys.contains(&wanted) {
            return (Some(wanted), 0);
        }
        if probe.search == SearchKind::Exact {
            return (None, 0);
        }
        if let Some(after) = keys.iter().filter(|k| **k > wanted).min() {
            return (Some(*after), 1);
        }
        (keys.iter().filter(|k| **k < wanted).max().copied(), -1)
    }

    /// The rows that a cursor tree yields.
    fn rows_of(&self, cursor: &InternalCursor, probes: &Vec<Probe>, landed: &Vec<Option<u64>>) -> BTreeSet<u64> {
        match &cursor.source {
            CursorSource::Probe { probe } => {
                let compare = cursor.binding.unwrap().compare.unwrap();
                let at = match landed[*probe] {
                    Some(at) => at,
                    None => return BTreeSet::new(),
                };
                self.entries(&probes[*probe].uri)
                    .iter()
                    .filter(|(key, _)| match compare {
                        Compare::Eq => *key == at,
                        Compare::Le => *key <= at,
                        Compare::Lt => *key < at,
                        Compare::Ge => *key >= at,
                        Compare::Gt => *key > at,
                    })
                    .map(|(_, row)| *row)
                    .collect()
            }
            CursorSource::Open { .. } => {
                let all: BTreeSet<u64> = self.rows.iter().copied().collect();
                if cursor.cursors.is_empty() {
                    return all;
                }
                let parts: Vec<BTreeSet<u64>> =
                    cursor.cursors.iter().map(|c| self.rows_of(c, probes, landed)).collect();
                if cursor.cursors.iter().all(|c| c.binding.unwrap().disjunction) {
                    parts.into_iter().flatten().collect()
                } else {
                    parts.into_iter().fold(all, |rows, part| &rows & &part)
                }
            }
        }
    }

    /// Compiles a forest against the stand-in and yields its rows.
    fn find(&self, specs: &Vec<InternalIndexSpec>) -> Result<Vec<u64>, i32> {
        let probes = cursor_probes(TABLE, specs).unwrap();
        let answers: Vec<(Option<u64>, i32)> = probes.iter().map(|p| self.run(p)).collect();
        let exacts: Vec<i32> = answers.iter().map(|a| a.1).collect();
        let landed: Vec<Option<u64>> = answers.iter().map(|a| a.0).collect();
        match cursor_for_index_specs(TABLE, JOIN, specs, false, &exacts) {
            Ok(cursor) => Ok(self.rows_of(&cursor, &probes, &landed).into_iter().collect()),
            Err(e) => Err(e.wiredtiger_error),
        }
    }
}

fn number(n: u64) -> QueryValue {
    QueryValue {
        data_type: 'q',
        external_value: ExternalValue::UInt(n),
        internal_value: InternalValue::Unset(),
    }
}

fn leaf(index: Option<&str>, operation: Operation, value: u64) -> InternalIndexSpec {
    InternalIndexSpec {
        index_name: index.map(|i| i.to_string()),
        operation,
        sub_conditions: None,
        query_values: Some(vec![number(value)]),
    }
}

fn inner(operation: Operation, conditions: Vec<InternalIndexSpec>) -> InternalIndexSpec {
    InternalIndexSpec {
        index_name: None,
        operation,
        sub_conditions: Some(conditions),
        query_values: None,
    }
}

fn scan(index: &str) -> InternalIndexSpec {
    InternalIndexSpec {
        index_name: Some(index.to_string()),
        operation: Operation::INDEX,
        sub_conditions: None,
        query_values: None,
    }
}

fn config(cursor: &InternalCursor) -> Option<String> {
    cursor.binding.unwrap().config()
}

fn opened_on(cursor: &InternalCursor) -> (String, Option<String>) {
    match &cursor.source {
        CursorSource::Open { uri, config } => (uri.clone(), config.clone()),
        _ => panic!("not an opened cursor"),
    }
}

fn probe_of(cursor: &InternalCursor) -> usize {
    match &cursor.source {
        CursorSource::Probe { probe } => *probe,
        _ => panic!("not a probe"),
    }
}

fn colours() -> Engine {
    // rows 1..=6; index a: row -> row % 3; index b: row -> row % 2
    Engine {
        rows: vec![1, 2, 3, 4, 5, 6],
        indexes: vec![
            ("index:t:a".to_string(), (1..=6).map(|r| (r % 3, r)).collect()),
            ("index:t:b".to_string(), (1..=6).map(|r| (r % 2, r)).collect()),
        ],
    }
}

#[test]
fn an_empty_forest_is_a_plain_cursor_on_the_table() {
    let cursor = cursor_for_index_specs(TABLE, JOIN, &vec![], false, &vec![]).unwrap();
    assert_eq!(opened_on(&cursor), (TABLE.to_string(), None));
    assert!(cursor.cursors.is_empty());
    assert!(cursor.binding.is_none());
    assert!(cursor_probes(TABLE, &vec![]).unwrap().is_empty());
    assert_eq!(colours().find(&vec![]).unwrap(), vec![1, 2, 3, 4, 5, 6]);
}

#[test]
fn a_leaf_is_probed_on_its_index_or_on_the_table() {
    let specs = vec![
        leaf(Some("index:t:a"), Operation::EQ, 4),
        leaf(None, Operation::GE, 5),
    ];
    let probes = cursor_probes(TABLE, &specs).unwrap();
    assert_eq!(probes.len(), 2);
    assert_eq!(probes[0].uri, "index:t:a");
    assert_eq!(probes[0].search, SearchKind::Exact);
    assert!(matches!(probes[0].key[0].external_value, ExternalValue::UInt(4)));
    assert_eq!(probes[0].key.len(), 1);
    assert_eq!(probes[1].uri, TABLE);
    assert_eq!(probes[1].search, SearchKind::Near);
    assert!(matches!(probes[1].key[0].external_value, ExternalValue::UInt(5)));
}

#[test]
fn only_an_equality_searches_for_the_key_itself() {
    for op in [Operation::LT, Operation::LE, Operation::GE, Operation::GT, Operation::AND, Operation::OR] {
        let probes = cursor_probes(TABLE, &vec![leaf(None, op, 1)]).unwrap();
        assert_eq!(probes[0].search, SearchKind::Near);
    }
    let probes = cursor_probes(TABLE, &vec![leaf(None, Operation::EQ, 1)]).unwrap();
    assert_eq!(probes[0].search, SearchKind::Exact);
}

#[test]
fn comparisons_of_bindings() {
    assert_eq!(compare_for(Operation::EQ), Compare::Eq);
    assert_eq!(compare_for(Operation::NE), Compare::Eq);
    assert_eq!(compare_for(Operation::AND), Compare::Eq);
    assert_eq!(compare_for(Operation::OR), Compare::Eq);
    assert_eq!(compare_for(Operation::LE), Compare::Le);
    assert_eq!(compare_for(Operation::LT), Compare::Lt);
    assert_eq!(compare_for(Operation::GE), Compare::Ge);
    assert_eq!(compare_for(Operation::INDEX), Compare::Ge);
    assert_eq!(compare_for(Operation::GT), Compare::Gt);
}

#[test]
fn binding_configurations() {
    let texts = [
        (Compare::Eq, "compare=eq"),
        (Compare::Le, "compare=le"),
        (Compare::Lt, "compare=lt"),
        (Compare::Ge, "compare=ge"),
        (Compare::Gt, "compare=gt"),
    ];
    for (compare, text) in texts {
        let and = JoinConfig { compare: Some(compare), disjunction: false };
        assert_eq!(and.config(), Some(text.to_string()));
        let or = JoinConfig { compare: Some(compare), disjunction: true };
        assert_eq!(or.config(), Some(format!("{},operation=or", text)));
    }
    assert_eq!(JoinConfig { compare: None, disjunction: true }.config(), Some("operation=or".to_string()));
    assert_eq!(JoinConfig { compare: None, disjunction: false }.config(), None);
}

#[test]
fn a_conjunction_is_one_join() {
    let specs = vec![
        leaf(Some("index:t:a"), Operation::EQ, 1),
        leaf(Some("index:t:b"), Operation::GE, 0),
        leaf(None, Operation::LE, 5),
    ];
    let cursor = cursor_for_index_specs(TABLE, JOIN, &specs, false, &vec![0, 0, 0]).unwrap();
    assert_eq!(opened_on(&cursor), (JOIN.to_string(), None));
    assert!(cursor.binding.is_none());
    assert_eq!(cursor.cursors.len(), 3);
    for (i, text) in ["compare=eq", "compare=ge", "compare=le"].iter().enumerate() {
        assert_eq!(probe_of(&cursor.cursors[i]), i);
        assert_eq!(config(&cursor.cursors[i]), Some(text.to_string()));
        assert!(cursor.cursors[i].cursors.is_empty());
    }
}

#[test]
fn equalities_intersect() {
    let engine = colours();
    let specs = vec![
        leaf(Some("index:t:a"), Operation::EQ, 1),
        leaf(Some("index:t:b"), Operation::EQ, 0),
    ];
    // a == 1: rows 1, 4; b == 0: rows 2, 4, 6
    assert_eq!(engine.find(&specs).unwrap(), vec![4]);
    assert_eq!(engine.find(&vec![leaf(Some("index:t:a"), Operation::EQ, 1)]).unwrap(), vec![1, 4]);
    assert_eq!(engine.find(&vec![leaf(Some("index:t:b"), Operation::EQ, 0)]).unwrap(), vec![2, 4, 6]);
    let three = vec![
        leaf(Some("index:t:a"), Operation::EQ, 0),
        leaf(Some("index:t:b"), Operation::EQ, 1),
        leaf(None, Operation::EQ, 3),
    ];
    assert_eq!(engine.find(&three).unwrap(), vec![3]);
    let none = vec![
        leaf(Some("index:t:a"), Operation::EQ, 0),
        leaf(None, Operation::EQ, 4),
    ];
    assert_eq!(engine.find(&none).unwrap(), Vec::<u64>::new());
}

#[test]
fn ranges_intersect() {
    let engine = colours();
    let specs = vec![leaf(None, Operation::GE, 2), leaf(None, Operation::LT, 5)];
    assert_eq!(engine.find(&specs).unwrap(), vec![2, 3, 4]);
    let specs = vec![leaf(None, Operation::GT, 2), leaf(None, Operation::LE, 5)];
    assert_eq!(engine.find(&specs).unwrap(), vec![3, 4, 5]);
}

#[test]
fn an_inequality_is_greater_or_less() {
    let spec = leaf(Some("index:t:a"), Operation::NE, 1);
    let probes = cursor_probes(TABLE, &vec![spec.duplicate()]).unwrap();
    assert_eq!(probes.len(), 2);
    for probe in &probes {
        assert_eq!(probe.uri, "index:t:a");
        assert_eq!(probe.search, SearchKind::Near);
        assert!(matches!(probe.key[0].external_value, ExternalValue::UInt(1)));
    }
    let root = cursor_for_index_specs(TABLE, JOIN, &vec![spec], false, &vec![0, 0]).unwrap();
    assert_eq!(root.cursors.len(), 1);
    let ne = &root.cursors[0];
    assert_eq!(config(ne), Some("compare=eq".to_string()));
    assert_eq!(opened_on(ne), (JOIN.to_string(), None));
    assert_eq!(ne.cursors.len(), 1);
    let greater = &ne.cursors[0];
    assert_eq!(config(greater), Some("operation=or".to_string()));
    assert_eq!(opened_on(greater), (JOIN.to_string(), Some("".to_string())));
    assert_eq!(greater.cursors.len(), 2);
    assert_eq!(probe_of(&greater.cursors[0]), 0);
    assert_eq!(config(&greater.cursors[0]), Some("compare=gt,operation=or".to_string()));
    let less = &greater.cursors[1];
    assert_eq!(config(less), Some("operation=or".to_string()));
    assert_eq!(opened_on(less), (JOIN.to_string(), Some("".to_string())));
    assert_eq!(less.cursors.len(), 1);
    assert_eq!(probe_of(&less.cursors[0]), 1);
    assert_eq!(config(&less.cursors[0]), Some("compare=lt,operation=or".to_string()));
}

#[test]
fn an_inequality_yields_the_rows_that_differ() {
    // keys 1, 2, 2, 3: the queried key occurs twice, next to its neighbours
    let engine = Engine {
        rows: vec![10, 20, 30, 40],
        indexes: vec![("index:t:k".to_string(), vec![(1, 10), (2, 20), (2, 30), (3, 40)])],
    };
    let ne = vec![leaf(Some("index:t:k"), Operation::NE, 2)];
    assert_eq!(engine.find(&ne).unwrap(), vec![10, 40]);
    let gt = vec![leaf(Some("index:t:k"), Operation::GT, 2)];
    let lt = vec![leaf(Some("index:t:k"), Operation::LT, 2)];
    assert_eq!(engine.find(&gt).unwrap(), vec![40]);
    assert_eq!(engine.find(&lt).unwrap(), vec![10]);
    let ne_low = vec![leaf(Some("index:t:k"), Operation::NE, 1)];
    assert_eq!(engine.find(&ne_low).unwrap(), vec![20, 30, 40]);
    let with_other = vec![leaf(Some("index:t:k"), Operation::NE, 2), leaf(None, Operation::GE, 20)];
    assert_eq!(engine.find(&with_other).unwrap(), vec![40]);
}

#[test]
fn a_bound_that_landed_on_the_wrong_side_is_dropped() {
    // rows 10, 20, 30; "less than 40" lands on 30, before the key
    let engine = Engine { rows: vec![10, 20, 30], indexes: vec![] };
    let specs = vec![leaf(None, Operation::GE, 10), leaf(None, Operation::LT, 40)];
    let probes = cursor_probes(TABLE, &specs).unwrap();
    assert_eq!(engine.run(&probes[1]), (Some(30), -1));
    let cursor = cursor_for_index_specs(TABLE, JOIN, &specs, false, &vec![0, -1]).unwrap();
    assert_eq!(cursor.cursors.len(), 1);
    assert_eq!(probe_of(&cursor.cursors[0]), 0);
    assert_eq!(config(&cursor.cursors[0]), Some("compare=ge".to_string()));
    assert_eq!(engine.find(&specs).unwrap(), vec![10, 20, 30]);
    // bound all the same, the cursor on 30 would have shut out row 30
    let mut kept = InternalCursor::new(JOIN.to_string(), None);
    kept.own_joined_cursor(InternalCursor::for_probe(0), JoinConfig { compare: Some(Compare::Ge), disjunction: false });
    kept.own_joined_cursor(InternalCursor::for_probe(1), JoinConfig { compare: Some(Compare::Lt), disjunction: false });
    let rows: Vec<u64> = engine.rows_of(&kept, &probes, &vec![Some(10), Some(30)]).into_iter().collect();
    assert_eq!(rows, vec![10, 20]);
}

#[test]
fn only_less_before_and_greater_after_match_nothing() {
    for (op, exact, dropped) in [
        (Operation::LT, -1, true),
        (Operation::LT, 0, false),
        (Operation::LT, 1, false),
        (Operation::GT, 1, true),
        (Operation::GT, 0, false),
        (Operation::GT, -1, false),
        (Operation::LE, -1, false),
        (Operation::GE, 1, false),
        (Operation::EQ, -1, false),
        (Operation::EQ, 1, false),
    ] {
        let forest = vec![leaf(None, Operation::GE, 0), leaf(None, op, 5)];
        let cursor = cursor_for_index_specs(TABLE, JOIN, &forest, false, &vec![0, exact]).unwrap();
        assert_eq!(cursor.cursors.len(), if dropped { 1 } else { 2 });
    }
}

#[test]
fn a_condition_that_stands_alone_and_matches_nothing_yields_no_rows() {
    for (op, exact) in [(Operation::LT, -1), (Operation::GT, 1)] {
        let forest = vec![leaf(None, op, 5)];
        let e = cursor_for_index_specs(TABLE, JOIN, &forest, false, &vec![exact]).unwrap_err();
        assert_eq!(e.error_domain, ErrorDomain::WIREDTIGER);
        assert_eq!(e.wiredtiger_error, WT_NOTFOUND);
        let nested = vec![inner(Operation::AND, forest), leaf(None, Operation::EQ, 1)];
        let root = cursor_for_index_specs(TABLE, JOIN, &nested, false, &vec![exact, 0]).unwrap();
        assert_eq!(root.cursors.len(), 1);
        assert_eq!(probe_of(&root.cursors[0]), 1);
    }
    let alone = vec![leaf(None, Operation::LT, 5)];
    assert_eq!(cursor_for_index_specs(TABLE, JOIN, &alone, false, &vec![0]).unwrap().cursors.len(), 1);
}

#[test]
fn a_conjunction_that_drops_everything_restricts_nothing() {
    let specs = vec![leaf(None, Operation::LT, 9), leaf(None, Operation::GT, 0)];
    let cursor = cursor_for_index_specs(TABLE, JOIN, &specs, false, &vec![-1, 1]).unwrap();
    assert_eq!(opened_on(&cursor), (JOIN.to_string(), None));
    assert!(cursor.cursors.is_empty());
}

#[test]
fn a_disjunction_groups_neighbours_with_the_same_operation() {
    let or = inner(
        Operation::OR,
        vec![
            leaf(None, Operation::EQ, 1),
            leaf(None, Operation::EQ, 2),
            leaf(None, Operation::LT, 3),
            leaf(None, Operation::EQ, 4),
        ],
    );
    let root = cursor_for_index_specs(TABLE, JOIN, &vec![or], false, &vec![0, 0, 0, 0]).unwrap();
    assert_eq!(root.cursors.len(), 1);
    let union = &root.cursors[0];
    assert_eq!(config(union), Some("compare=eq".to_string()));
    assert_eq!(opened_on(union), (JOIN.to_string(), None));
    assert_eq!(union.cursors.len(), 1);
    let first = &union.cursors[0];
    assert_eq!(config(first), Some("operation=or".to_string()));
    assert_eq!(first.cursors.len(), 3);
    assert_eq!(probe_of(&first.cursors[0]), 0);
    assert_eq!(probe_of(&first.cursors[1]), 1);
    assert_eq!(config(&first.cursors[0]), Some("compare=eq,operation=or".to_string()));
    assert_eq!(config(&first.cursors[1]), Some("compare=eq,operation=or".to_string()));
    let second = &first.cursors[2];
    assert_eq!(config(second), Some("operation=or".to_string()));
    assert_eq!(opened_on(second), (JOIN.to_string(), Some("".to_string())));
    assert_eq!(second.cursors.len(), 2);
    assert_eq!(probe_of(&second.cursors[0]), 2);
    assert_eq!(config(&second.cursors[0]), Some("compare=lt,operation=or".to_string()));
    let third = &second.cursors[1];
    assert_eq!(config(third), Some("operation=or".to_string()));
    assert_eq!(third.cursors.len(), 1);
    assert_eq!(probe_of(&third.cursors[0]), 3);
    assert_eq!(config(&third.cursors[0]), Some("compare=eq,operation=or".to_string()));
}

#[test]
fn a_disjunction_is_a_union() {
    let engine = colours();
    let or = inner(
        Operation::OR,
        vec![
            leaf(Some("index:t:a"), Operation::EQ, 0),
            leaf(None, Operation::EQ, 1),
            leaf(None, Operation::GT, 5),
        ],
    );
    // a == 0: rows 3, 6; row 1; rows above 5: 6
    assert_eq!(engine.find(&vec![or.duplicate()]).unwrap(), vec![1, 3, 6]);
    let both = vec![or, leaf(Some("index:t:b"), Operation::EQ, 1)];
    assert_eq!(engine.find(&both).unwrap(), vec![1, 3]);
}

#[test]
fn an_alternative_that_matches_nothing_adds_nothing() {
    let or = inner(
        Operation::OR,
        vec![
            leaf(None, Operation::EQ, 1),
            leaf(None, Operation::LT, 9),
            leaf(None, Operation::EQ, 4),
        ],
    );
    let root = cursor_for_index_specs(TABLE, JOIN, &vec![or], false, &vec![0, -1, 0]).unwrap();
    let union = &root.cursors[0];
    assert_eq!(union.cursors.len(), 1);
    let group = &union.cursors[0];
    assert_eq!(group.cursors.len(), 2);
    assert_eq!(probe_of(&group.cursors[0]), 0);
    assert_eq!(probe_of(&group.cursors[1]), 2);
}

#[test]
fn a_disjunction_without_a_cursor_matches_nothing() {
    let or = vec![leaf(None, Operation::LT, 9), leaf(None, Operation::GT, 0)];
    let e = cursor_for_index_specs(TABLE, JOIN, &or, true, &vec![-1, 1]).unwrap_err();
    assert_eq!(e.error_domain, ErrorDomain::WIREDTIGER);
    assert_eq!(e.wiredtiger_error, WT_NOTFOUND);
    assert!(e.is_not_found());
    // inside a conjunction it is dropped like a leaf that matches nothing
    let nested = vec![inner(Operation::OR, or), leaf(None, Operation::EQ, 2)];
    let root = cursor_for_index_specs(TABLE, JOIN, &nested, false, &vec![-1, 1, 0]).unwrap();
    assert_eq!(root.cursors.len(), 1);
    assert_eq!(probe_of(&root.cursors[0]), 2);
}

#[test]
fn an_inequality_with_one_side_keeps_that_side() {
    let ne = vec![leaf(None, Operation::NE, 5)];
    let root = cursor_for_index_specs(TABLE, JOIN, &ne, false, &vec![1, 1]).unwrap();
    let union = &root.cursors[0];
    assert_eq!(union.cursors.len(), 1);
    assert_eq!(union.cursors[0].cursors.len(), 1);
    assert_eq!(probe_of(&union.cursors[0].cursors[0]), 1);
    assert_eq!(config(&union.cursors[0].cursors[0]), Some("compare=lt,operation=or".to_string()));
    let e = cursor_for_index_specs(TABLE, JOIN, &ne, false, &vec![1, -1]).unwrap_err();
    assert!(e.is_not_found());
    let beside = vec![leaf(None, Operation::NE, 5), leaf(None, Operation::EQ, 1)];
    let root = cursor_for_index_specs(TABLE, JOIN, &beside, false, &vec![1, -1, 0]).unwrap();
    assert_eq!(root.cursors.len(), 1);
    assert_eq!(probe_of(&root.cursors[0]), 2);
}

#[test]
fn a_nested_conjunction_is_a_join_of_its_own() {
    let and = inner(Operation::AND, vec![leaf(None, Operation::GE, 2), leaf(None, Operation::LE, 4)]);
    let specs = vec![leaf(Some("index:t:b"), Operation::EQ, 0), and];
    let root = cursor_for_index_specs(TABLE, JOIN, &specs, false, &vec![0, 0, 0]).unwrap();
    assert_eq!(root.cursors.len(), 2);
    let nested = &root.cursors[1];
    assert_eq!(config(nested), Some("compare=eq".to_string()));
    assert_eq!(opened_on(nested), (JOIN.to_string(), None));
    assert_eq!(nested.cursors.len(), 2);
    assert_eq!(probe_of(&nested.cursors[0]), 1);
    assert_eq!(probe_of(&nested.cursors[1]), 2);
    assert_eq!(config(&nested.cursors[0]), Some("compare=ge".to_string()));
    assert_eq!(colours().find(&specs).unwrap(), vec![2, 4]);
}

#[test]
fn a_scan_of_an_index_advances_once() {
    let specs = vec![scan("index:t:a")];
    let probes = cursor_probes(TABLE, &specs).unwrap();
    assert_eq!(probes.len(), 1);
    assert_eq!(probes[0].uri, "index:t:a");
    assert_eq!(probes[0].search, SearchKind::Next);
    assert!(probes[0].key.is_empty());
    let root = cursor_for_index_specs(TABLE, JOIN, &specs, false, &vec![0]).unwrap();
    assert_eq!(root.cursors.len(), 1);
    assert_eq!(probe_of(&root.cursors[0]), 0);
    assert_eq!(config(&root.cursors[0]), Some("compare=ge".to_string()));
    assert_eq!(colours().find(&specs).unwrap(), vec![1, 2, 3, 4, 5, 6]);
}

#[test]
fn invalid_nodes_are_rejected() {
    let neither = InternalIndexSpec {
        index_name: None,
        operation: Operation::EQ,
        sub_conditions: None,
        query_values: None,
    };
    let empty = InternalIndexSpec {
        index_name: None,
        operation: Operation::AND,
        sub_conditions: Some(vec![]),
        query_values: Some(vec![]),
    };
    let both = InternalIndexSpec {
        index_name: None,
        operation: Operation::AND,
        sub_conditions: Some(vec![leaf(None, Operation::EQ, 1)]),
        query_values: Some(vec![number(1)]),
    };
    let nameless_scan = InternalIndexSpec {
        index_name: None,
        operation: Operation::INDEX,
        sub_conditions: None,
        query_values: None,
    };
    let deep = inner(Operation::OR, vec![leaf(None, Operation::EQ, 1), neither.duplicate()]);
    for bad in [neither, empty, both, nameless_scan, deep] {
        assert!(!is_valid(&bad));
        let forest = vec![leaf(None, Operation::EQ, 1), bad];
        assert!(!are_valid(&forest));
        let e = cursor_probes(TABLE, &forest).unwrap_err();
        assert_eq!(e.error_domain, ErrorDomain::GLUE);
        assert_eq!(e.glue_error, GlueErrorCode::InvalidIndexSpec);
        let e = cursor_for_index_specs(TABLE, JOIN, &forest, false, &vec![0]).unwrap_err();
        assert_eq!(e.glue_error, GlueErrorCode::InvalidIndexSpec);
    }
    assert!(is_valid(&leaf(None, Operation::EQ, 1)));
    assert!(is_valid(&scan("index:t:a")));
    assert!(are_valid(&vec![]));
}

#[test]
fn every_probe_needs_its_landing() {
    let specs = vec![leaf(None, Operation::NE, 1), leaf(None, Operation::EQ, 1)];
    for exacts in [vec![], vec![0, 0], vec![0, 0, 0, 0]] {
        let e = cursor_for_index_specs(TABLE, JOIN, &specs, false, &exacts).unwrap_err();
        assert_eq!(e.glue_error, GlueErrorCode::InvalidLength);
        assert_eq!(e.extra, "exacts");
    }
    assert!(cursor_for_index_specs(TABLE, JOIN, &specs, false, &vec![0, 0, 0]).is_ok());
    let e = cursor_for_index_specs(TABLE, JOIN, &vec![], false, &vec![0]).unwrap_err();
    assert_eq!(e.glue_error, GlueErrorCode::InvalidLength);
}

#[test]
fn cursors_are_closed_after_what_they_own() {
    let or = inner(
        Operation::OR,
        vec![leaf(None, Operation::EQ, 1), leaf(None, Operation::LT, 3)],
    );
    let specs = vec![leaf(None, Operation::GE, 0), or];
    let root = cursor_for_index_specs(TABLE, JOIN, &specs, false, &vec![0, 0, 0]).unwrap();
    let order = root.close_order();
    let expected: Vec<Vec<usize>> = vec![
        vec![0],
        vec![1, 0, 0],
        vec![1, 0, 1, 0],
        vec![1, 0, 1],
        vec![1, 0],
        vec![1],
        vec![],
    ];
    assert_eq!(order, expected);
    let plain = InternalCursor::new(TABLE.to_string(), None);
    assert_eq!(plain.close_order(), vec![Vec::<usize>::new()]);
}

#[test]
fn an_empty_cursor_is_opened_on_nothing() {
    let cursor = InternalCursor::empty();
    assert_eq!(opened_on(&cursor), ("".to_string(), None));
    assert!(cursor.cursors.is_empty());
    assert!(cursor.binding.is_none());
}

#[test]
fn a_forest_is_copied_whole() {
    let or = inner(
        Operation::OR,
        vec![leaf(Some("index:t:a"), Operation::EQ, 1), leaf(None, Operation::LT, 3)],
    );
    let copy = or.duplicate();
    assert_eq!(copy.operation, Operation::OR);
    assert!(copy.index_name.is_none());
    assert!(copy.query_values.is_none());
    let conditions = copy.sub_conditions.unwrap();
    assert_eq!(conditions.len(), 2);
    assert_eq!(conditions[0].index_name, Some("index:t:a".to_string()));
    assert_eq!(conditions[0].operation, Operation::EQ);
    assert!(matches!(conditions[0].query_values.as_ref().unwrap()[0].external_value, ExternalValue::UInt(1)));
    assert_eq!(conditions[1].operation, Operation::LT);
    let copies = wiredtiger_glue::query_value::duplicate_specs(&vec![or, scan("index:t:b")]);
    assert_eq!(copies.len(), 2);
    assert_eq!(copies[1].operation, Operation::INDEX);
}

#[test]
fn only_the_nested_join_of_a_union_is_joined_when_it_is_opened() {
    let or = inner(Operation::OR, vec![leaf(None, Operation::EQ, 1)]);
    let root = cursor_for_index_specs(TABLE, JOIN, &vec![or], false, &vec![0]).unwrap();
    assert!(!root.joined_when_opened());
    let union = &root.cursors[0];
    assert!(!union.joined_when_opened());
    let group = &union.cursors[0];
    assert!(group.joined_when_opened());
    assert!(!group.cursors[0].joined_when_opened());
}
