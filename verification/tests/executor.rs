use wiredtiger_glue::cursor::{CursorSource, InternalCursor};
use wiredtiger_glue::error::{ErrorDomain, GlueErrorCode, WT_NOTFOUND};
use wiredtiger_glue::find_cursor::{InternalFindCursor, DEFAULT_BATCH_SIZE};
use wiredtiger_glue::index_spec::SearchKind;
use wiredtiger_glue::multi_cursor::{CursorState, MultiCursor, ScanStep};
use wiredtiger_glue::query_value::{
    ExternalValue, InternalDocument, InternalIndexSpec, InternalValue, Operation, QueryValue,
};

fn read(n: u64) -> QueryValue {
    QueryValue {
        data_type: 'q',
        external_value: ExternalValue::Unset(),
        internal_value: InternalValue::UInt(n),
    }
}

fn read_text(s: &str) -> QueryValue {
    QueryValue {
        data_type: 'S',
        external_value: ExternalValue::Unset(),
        internal_value: InternalValue::ByteArrayBox(s.as_bytes().to_vec()),
    }
}

fn token(index: &str, word: &str) -> InternalIndexSpec {
    InternalIndexSpec {
        index_name: Some(index.to_string()),
        operation: Operation::EQ,
        sub_conditions: None,
        query_values: Some(vec![QueryValue::for_string(word.to_string())]),
    }
}

fn either(conditions: Vec<InternalIndexSpec>) -> InternalIndexSpec {
    InternalIndexSpec {
        index_name: None,
        operation: Operation::OR,
        sub_conditions: Some(conditions),
        query_values: None,
    }
}

fn ready(specs: Vec<InternalIndexSpec>) -> MultiCursor {
    let mut cursor = MultiCursor::new("docs".to_string(), specs, None).unwrap();
    let probes = cursor.probes().unwrap();
    cursor.init(&vec![0; probes.len()]).unwrap();
    cursor
}

/// Runs a scan over the rows that the engine steps on, and returns the
/// rows that are yielded.
fn scan(cursor: &mut MultiCursor, rows: &[u64]) -> Vec<u64> {
    let mut yielded = Vec::new();
    for row in rows {
        match cursor.next_with_multikey_check(Some(vec![read(*row)])).unwrap() {
            ScanStep::Row => yielded.push(*row),
            ScanStep::Duplicate => {}
            ScanStep::Exhausted => panic!("the engine had a row"),
        }
    }
    assert_eq!(cursor.next_with_multikey_check(None).unwrap(), ScanStep::Exhausted);
    yielded
}

#[test]
fn a_new_executor_is_not_initialised() {
    let cursor = MultiCursor::new("docs".to_string(), vec![], Some("(a,b)".to_string())).unwrap();
    assert!(!cursor.initted);
    assert!(cursor.multikey);
    assert_eq!(cursor.state, CursorState::Uninitialized);
    assert!(cursor.seen_keys.is_empty());
    assert_eq!(cursor.table_name, "docs");
    assert_eq!(cursor.columns_joined, Some("(a,b)".to_string()));
    assert!(matches!(&cursor.cursor.source, CursorSource::Open { uri, config: None } if uri.is_empty()));
}

#[test]
fn the_uris_of_a_table() {
    let plain = MultiCursor::new("docs".to_string(), vec![], None).unwrap();
    assert_eq!(plain.table_cursor_uri(), "table:docs");
    assert_eq!(plain.table_join_uri(), "join:table:docs");
    let chosen = MultiCursor::new("docs".to_string(), vec![], Some("(a,b)".to_string())).unwrap();
    assert_eq!(chosen.table_cursor_uri(), "table:docs(a,b)");
    assert_eq!(chosen.table_join_uri(), "join:table:docs(a,b)");
}

#[test]
fn operations_before_init_are_refused() {
    let mut cursor = MultiCursor::new("docs".to_string(), vec![], None).unwrap();
    let e = cursor.get_cursor_impl().unwrap_err();
    assert_eq!(e.error_domain, ErrorDomain::GLUE);
    assert_eq!(e.glue_error, GlueErrorCode::NotInitialised);
    assert_eq!(e.extra, "unknown");
    let e = cursor.next_with_multikey_check(Some(vec![read(1)])).unwrap_err();
    assert_eq!(e.glue_error, GlueErrorCode::NotInitialised);
    let e = cursor.next_with_multikey_check(None).unwrap_err();
    assert_eq!(e.glue_error, GlueErrorCode::NotInitialised);
    let e = cursor.reset().unwrap_err();
    assert_eq!(e.glue_error, GlueErrorCode::NotInitialised);
    let e = cursor.close().unwrap_err();
    assert_eq!(e.glue_error, GlueErrorCode::NotInitialised);
    assert_eq!(cursor.state, CursorState::Uninitialized);
    assert!(cursor.seen_keys.is_empty());
}

#[test]
fn init_compiles_the_forest() {
    let mut cursor = MultiCursor::new(
        "docs".to_string(),
        vec![token("index:docs:words", "red")],
        Some("(a)".to_string()),
    )
    .unwrap();
    let probes = cursor.probes().unwrap();
    assert_eq!(probes.len(), 1);
    assert_eq!(probes[0].uri, "index:docs:words");
    assert_eq!(probes[0].search, SearchKind::Exact);
    cursor.init(&vec![0]).unwrap();
    assert!(cursor.initted);
    assert_eq!(cursor.state, CursorState::Initialized);
    let compiled: &InternalCursor = cursor.get_cursor_impl().unwrap();
    assert!(matches!(&compiled.source, CursorSource::Open { uri, config: None } if uri == "join:table:docs(a)"));
    assert_eq!(compiled.cursors.len(), 1);
}

#[test]
fn an_empty_forest_scans_the_table() {
    let mut cursor = MultiCursor::new("docs".to_string(), vec![], None).unwrap();
    assert!(cursor.probes().unwrap().is_empty());
    cursor.init(&vec![]).unwrap();
    let compiled = cursor.get_cursor_impl().unwrap();
    assert!(matches!(&compiled.source, CursorSource::Open { uri, config: None } if uri == "table:docs"));
    assert!(compiled.cursors.is_empty());
}

#[test]
fn init_happens_once() {
    let mut cursor = ready(vec![token("index:docs:words", "red")]);
    cursor.next_with_multikey_check(Some(vec![read(1)])).unwrap();
    // a second init is not looked at: not even landings of the wrong number
    cursor.init(&vec![0, 0, 0]).unwrap();
    assert_eq!(cursor.state, CursorState::Positioned);
    assert_eq!(cursor.seen_keys.len(), 1);
    assert_eq!(cursor.get_cursor_impl().unwrap().cursors.len(), 1);
}

#[test]
fn a_failed_init_counts() {
    let bad = InternalIndexSpec {
        index_name: None,
        operation: Operation::EQ,
        sub_conditions: None,
        query_values: None,
    };
    let mut cursor = MultiCursor::new("docs".to_string(), vec![bad], None).unwrap();
    let e = cursor.probes().unwrap_err();
    assert_eq!(e.glue_error, GlueErrorCode::InvalidIndexSpec);
    let e = cursor.init(&vec![]).unwrap_err();
    assert_eq!(e.glue_error, GlueErrorCode::InvalidIndexSpec);
    assert!(cursor.initted);
    assert_eq!(cursor.state, CursorState::Initialized);
    assert!(cursor.init(&vec![]).is_ok());
    let compiled = cursor.get_cursor_impl().unwrap();
    assert!(matches!(&compiled.source, CursorSource::Open { uri, config: None } if uri.is_empty()));
}

#[test]
fn a_row_reached_twice_is_yielded_once() {
    // document 1 holds both words, so that the union steps on it twice
    let mut cursor = ready(vec![either(vec![
        token("index:docs:words", "red"),
        token("index:docs:words", "green"),
    ])]);
    assert_eq!(scan(&mut cursor, &[1, 2, 1, 3]), vec![1, 2, 3]);
    assert_eq!(cursor.seen_keys.len(), 3);
    assert_eq!(cursor.state, CursorState::Exhausted);
}

#[test]
fn every_step_is_told_apart() {
    let mut cursor = ready(vec![]);
    assert_eq!(cursor.next_with_multikey_check(Some(vec![read(7)])).unwrap(), ScanStep::Row);
    assert_eq!(cursor.state, CursorState::Positioned);
    assert_eq!(cursor.next_with_multikey_check(Some(vec![read(7)])).unwrap(), ScanStep::Duplicate);
    assert_eq!(cursor.state, CursorState::Positioned);
    assert_eq!(cursor.next_with_multikey_check(Some(vec![read(8)])).unwrap(), ScanStep::Row);
    assert_eq!(cursor.next_with_multikey_check(None).unwrap(), ScanStep::Exhausted);
    assert_eq!(cursor.state, CursorState::Exhausted);
    assert_eq!(cursor.next_with_multikey_check(None).unwrap(), ScanStep::Exhausted);
    assert_eq!(cursor.state, CursorState::Exhausted);
    assert_eq!(cursor.seen_keys.len(), 2);
}

#[test]
fn keys_are_compared_column_by_column() {
    let mut cursor = ready(vec![]);
    let step = |c: &mut MultiCursor, n: u64, s: &str| {
        c.next_with_multikey_check(Some(vec![read(n), read_text(s)])).unwrap()
    };
    assert_eq!(step(&mut cursor, 1, "a"), ScanStep::Row);
    assert_eq!(step(&mut cursor, 1, "b"), ScanStep::Row);
    assert_eq!(step(&mut cursor, 2, "a"), ScanStep::Row);
    assert_eq!(step(&mut cursor, 1, "a"), ScanStep::Duplicate);
    assert_eq!(step(&mut cursor, 2, "a"), ScanStep::Duplicate);
    assert_eq!(cursor.next_with_multikey_check(Some(vec![read(1)])).unwrap(), ScanStep::Row);
}

#[test]
fn the_seen_keys_are_materialized() {
    let mut cursor = ready(vec![]);
    cursor.next_with_multikey_check(Some(vec![read_text("k")])).unwrap();
    match &cursor.seen_keys[0][0].external_value {
        ExternalValue::ByteArrayBox(b) => assert_eq!(b, &b"k".to_vec()),
        _ => panic!("the key was not copied"),
    }
}

#[test]
fn a_key_that_was_not_read_is_an_error() {
    let mut cursor = ready(vec![]);
    let e = cursor.next_with_multikey_check(Some(vec![read(1), QueryValue::empty()])).unwrap_err();
    assert_eq!(e.glue_error, GlueErrorCode::AccessEmptyBox);
    assert_eq!(e.extra, " while copying");
    assert!(cursor.seen_keys.is_empty());
    assert_eq!(cursor.state, CursorState::Initialized);
}

#[test]
fn a_reset_repeats_the_scan() {
    let mut cursor = ready(vec![]);
    let rows = [4, 2, 4, 9, 2, 2, 7];
    let first = scan(&mut cursor, &rows);
    assert_eq!(first, vec![4, 2, 9, 7]);
    cursor.reset().unwrap();
    assert_eq!(cursor.state, CursorState::Initialized);
    assert!(cursor.seen_keys.is_empty());
    let second = scan(&mut cursor, &rows);
    assert_eq!(second, first);
    cursor.reset().unwrap();
    cursor.next_with_multikey_check(Some(vec![read(4)])).unwrap();
    cursor.reset().unwrap();
    assert_eq!(scan(&mut cursor, &rows), first);
}

#[test]
fn without_a_reset_the_rows_stay_seen() {
    let mut cursor = ready(vec![]);
    assert_eq!(scan(&mut cursor, &[1, 2]), vec![1, 2]);
    assert_eq!(scan(&mut cursor, &[1, 2, 3]), vec![3]);
}

#[test]
fn close_forgets_the_keys() {
    let mut cursor = ready(vec![]);
    scan(&mut cursor, &[1, 2]);
    cursor.close().unwrap();
    assert_eq!(cursor.state, CursorState::Closed);
    assert!(cursor.seen_keys.is_empty());
    assert!(cursor.initted);
}

fn doc(key: u64, value: &str) -> InternalDocument {
    InternalDocument { key: vec![read(key)], value: vec![read_text(value)] }
}

fn ready_find() -> InternalFindCursor {
    let mut cursor = InternalFindCursor::new("docs".to_string(), vec![], None).unwrap();
    let probes = cursor.probes().unwrap();
    cursor.init(&vec![0; probes.len()]).unwrap();
    cursor
}

#[test]
fn a_batch_ends_at_its_size() {
    let mut cursor = ready_find();
    let mut docs: Vec<InternalDocument> = Vec::new();
    assert!(!cursor.next_batch(Some(2), &mut docs, Some(doc(1, "a"))).unwrap());
    assert!(!cursor.next_batch(Some(2), &mut docs, Some(doc(1, "a"))).unwrap());
    assert_eq!(docs.len(), 1);
    assert!(cursor.next_batch(Some(2), &mut docs, Some(doc(2, "b"))).unwrap());
    assert_eq!(docs.len(), 2);
    assert_eq!(*docs[0].key[0].get_uint().unwrap(), 1);
    assert_eq!(*docs[1].value[0].get_byte_array().unwrap(), b"b".to_vec());
    // the rows of a batch are kept as they were read
    assert!(matches!(docs[0].key[0].external_value, ExternalValue::Unset()));
    let mut next: Vec<InternalDocument> = Vec::new();
    assert!(!cursor.next_batch(Some(2), &mut next, Some(doc(2, "b"))).unwrap());
    assert!(next.is_empty());
    assert!(cursor.next_batch(Some(2), &mut next, None).unwrap());
    assert!(next.is_empty());
}

#[test]
fn a_batch_without_a_size_takes_a_hundred_rows() {
    assert_eq!(DEFAULT_BATCH_SIZE, 100);
    let mut cursor = ready_find();
    let mut docs: Vec<InternalDocument> = Vec::new();
    for n in 1..100 {
        assert!(!cursor.next_batch(None, &mut docs, Some(doc(n, "v"))).unwrap());
    }
    assert!(cursor.next_batch(None, &mut docs, Some(doc(100, "v"))).unwrap());
    assert_eq!(docs.len(), 100);
}

#[test]
fn a_batch_of_no_size_ends_with_the_scan() {
    for size in [0, -1] {
        let mut cursor = ready_find();
        let mut docs: Vec<InternalDocument> = Vec::new();
        for n in 1..=150 {
            assert!(!cursor.next_batch(Some(size), &mut docs, Some(doc(n, "v"))).unwrap());
        }
        assert!(cursor.next_batch(Some(size), &mut docs, None).unwrap());
        assert_eq!(docs.len(), 150);
    }
}

#[test]
fn a_find_cursor_is_initialised_once() {
    let mut cursor = InternalFindCursor::new("docs".to_string(), vec![], None).unwrap();
    assert!(!cursor.initted);
    let e = cursor.get_cursor_impl().unwrap_err();
    assert_eq!(e.glue_error, GlueErrorCode::NotInitialised);
    let mut docs: Vec<InternalDocument> = Vec::new();
    let e = cursor.next_batch(None, &mut docs, Some(doc(1, "a"))).unwrap_err();
    assert_eq!(e.glue_error, GlueErrorCode::NotInitialised);
    cursor.init(&vec![]).unwrap();
    assert!(cursor.initted);
    assert!(cursor.cursor.initted);
    cursor.init(&vec![1, 2, 3]).unwrap();
    assert!(cursor.get_cursor_impl().is_ok());
}

#[test]
fn statuses_are_read() {
    assert_eq!(InternalCursor::next(0).unwrap(), true);
    assert_eq!(InternalCursor::next(WT_NOTFOUND).unwrap(), false);
    let e = InternalCursor::next(-31802).unwrap_err();
    assert_eq!(e.error_domain, ErrorDomain::WIREDTIGER);
    assert_eq!(e.wiredtiger_error, -31802);
    assert_eq!(InternalCursor::prev(0).unwrap(), true);
    assert_eq!(InternalCursor::prev(WT_NOTFOUND).unwrap(), false);
    assert_eq!(InternalCursor::prev(22).unwrap_err().wiredtiger_error, 22);
    assert_eq!(InternalCursor::search(0).unwrap(), true);
    assert_eq!(InternalCursor::search(WT_NOTFOUND).unwrap(), false);
    assert_eq!(InternalCursor::search(22).unwrap_err().wiredtiger_error, 22);
    assert_eq!(InternalCursor::search_near(0, -1).unwrap(), -1);
    assert_eq!(InternalCursor::search_near(0, 1).unwrap(), 1);
    assert_eq!(InternalCursor::search_near(WT_NOTFOUND, 1).unwrap_err().wiredtiger_error, WT_NOTFOUND);
    assert_eq!(InternalCursor::compare(0, -1).unwrap(), -1);
    assert_eq!(InternalCursor::compare(5, -1).unwrap_err().wiredtiger_error, 5);
    assert_eq!(InternalCursor::equals(0, 1).unwrap(), true);
    assert_eq!(InternalCursor::equals(0, 0).unwrap(), false);
    assert_eq!(InternalCursor::equals(5, 1).unwrap_err().wiredtiger_error, 5);
    assert!(InternalCursor::passthrough(0).is_ok());
    assert_eq!(InternalCursor::passthrough(WT_NOTFOUND).unwrap_err().wiredtiger_error, WT_NOTFOUND);
    assert!(InternalCursor::insert(0).is_ok());
    assert_eq!(InternalCursor::insert(-31800).unwrap_err().wiredtiger_error, -31800);
    assert!(InternalCursor::update(0).is_ok());
    assert_eq!(InternalCursor::update(1).unwrap_err().wiredtiger_error, 1);
    assert!(InternalCursor::remove(0).is_ok());
    assert_eq!(InternalCursor::remove(1).unwrap_err().wiredtiger_error, 1);
    assert!(InternalCursor::reset(0).is_ok());
    assert_eq!(InternalCursor::reset(1).unwrap_err().wiredtiger_error, 1);
    assert!(InternalCursor::close(0).is_ok());
    assert_eq!(InternalCursor::close(1).unwrap_err().wiredtiger_error, 1);
    assert!(InternalCursor::bound(0).is_ok());
    assert_eq!(InternalCursor::bound(1).unwrap_err().wiredtiger_error, 1);
}

#[test]
fn plain_steps_move_the_executor() {
    let mut cursor = ready(vec![]);
    assert_eq!(cursor.next(0).unwrap(), true);
    assert_eq!(cursor.state, CursorState::Positioned);
    assert_eq!(cursor.prev(0).unwrap(), true);
    assert_eq!(cursor.state, CursorState::Positioned);
    assert_eq!(cursor.next(WT_NOTFOUND).unwrap(), false);
    assert_eq!(cursor.state, CursorState::Exhausted);
    assert_eq!(cursor.next(WT_NOTFOUND).unwrap(), false);
    assert_eq!(cursor.state, CursorState::Exhausted);
    assert_eq!(cursor.prev(0).unwrap(), true);
    assert_eq!(cursor.state, CursorState::Positioned);
    let e = cursor.next(-31802).unwrap_err();
    assert_eq!(e.error_domain, ErrorDomain::WIREDTIGER);
    assert_eq!(e.wiredtiger_error, -31802);
    assert_eq!(cursor.state, CursorState::Positioned);
    // plain steps do not look at the keys seen
    assert!(cursor.seen_keys.is_empty());
    cursor.reset().unwrap();
    assert_eq!(cursor.state, CursorState::Initialized);
}

#[test]
fn plain_steps_before_init_are_refused() {
    let mut cursor = MultiCursor::new("docs".to_string(), vec![], None).unwrap();
    assert_eq!(cursor.next(0).unwrap_err().glue_error, GlueErrorCode::NotInitialised);
    assert_eq!(cursor.prev(0).unwrap_err().glue_error, GlueErrorCode::NotInitialised);
    assert_eq!(cursor.state, CursorState::Uninitialized);
}

#[test]
fn probes_that_fail_count_as_an_init() {
    let mut cursor = MultiCursor::new("docs".to_string(), vec![token("index:docs:words", "red")], None).unwrap();
    let e = cursor.init_failed(wiredtiger_glue::error::GlueError::for_wiredtiger(2)).unwrap_err();
    assert_eq!(e.wiredtiger_error, 2);
    assert!(cursor.initted);
    assert_eq!(cursor.state, CursorState::Initialized);
    assert!(cursor.init(&vec![0]).is_ok());
    assert!(cursor.get_cursor_impl().unwrap().cursors.is_empty());
    let mut find = InternalFindCursor::new("docs".to_string(), vec![], None).unwrap();
    let e = find.init_failed(wiredtiger_glue::error::GlueError::for_wiredtiger(3)).unwrap_err();
    assert_eq!(e.wiredtiger_error, 3);
    assert!(find.initted);
    assert!(find.cursor.initted);
    assert!(find.get_cursor_impl().is_ok());
}
