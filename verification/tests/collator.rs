use wiredtiger_glue::compound_directional_collator::{
    compare_char_arrays, compare_column, compare_numbers, compare_strings, lex_compare,
    CollatorColumn, CollatorDirection, Comparison, InternalWiredTigerCompoundDirectionalCollator,
};
use wiredtiger_glue::error::GlueErrorCode;
use wiredtiger_glue::query_value::{ExternalValue, Format, InternalValue, QueryValue};
use wiredtiger_glue::wt_item::WT_ITEM;

type Collator = InternalWiredTigerCompoundDirectionalCollator;

fn column(format: &str, direction: i32) -> CollatorColumn {
    CollatorColumn { format: format.to_string(), direction }
}

fn number(n: u64) -> QueryValue {
    QueryValue {
        data_type: 'q',
        external_value: ExternalValue::Unset(),
        internal_value: InternalValue::UInt(n),
    }
}

fn text(s: &str) -> QueryValue {
    QueryValue {
        data_type: 'S',
        external_value: ExternalValue::Unset(),
        internal_value: InternalValue::ByteArrayBox(s.as_bytes().to_vec()),
    }
}

fn item(bytes: &[u8]) -> WT_ITEM {
    WT_ITEM::of(bytes.to_vec())
}

fn collator(key_format: &str, unique: bool, columns: &[(&str, i32)]) -> Collator {
    let columns: Vec<CollatorColumn> = columns.iter().map(|(f, d)| column(f, *d)).collect();
    Collator::static_customize_internal(key_format.to_string(), "index".to_string(), unique, &columns).unwrap()
}

#[test]
fn forward_then_reverse() {
    let c = collator("qS", true, &[("q", 1), ("S", -1)]);
    let one_b = vec![number(1), text("b")];
    let one_a = vec![number(1), text("a")];
    let two_a = vec![number(2), text("a")];
    assert_eq!(c.compare_columns(&one_b, &one_a).unwrap(), -1);
    assert_eq!(c.compare_columns(&one_a, &two_a).unwrap(), -1);
    assert_eq!(c.compare_columns(&one_b, &two_a).unwrap(), -1);
    assert_eq!(c.compare_columns(&one_a, &one_b).unwrap(), 1);
    assert_eq!(c.compare_columns(&two_a, &one_a).unwrap(), 1);
    assert_eq!(c.compare_columns(&two_a, &one_b).unwrap(), 1);
    assert_eq!(c.compare_columns(&one_a, &one_a).unwrap(), 0);
    let mut keys = vec![two_a.clone(), one_a.clone(), one_b.clone()];
    keys.sort_by(|x, y| c.compare_columns(x, y).unwrap().cmp(&0));
    assert_eq!(*keys[0][1].get_byte_array().unwrap(), b"b".to_vec());
    assert_eq!(*keys[1][1].get_byte_array().unwrap(), b"a".to_vec());
    assert_eq!(*keys[2][0].get_uint().unwrap(), 2);
}

#[test]
fn mixed_directions_are_compared_by_column() {
    let c = collator("qS", true, &[("q", 1), ("S", -1)]);
    assert_eq!(c.direction, CollatorDirection::NONE);
    assert!(c.compare(&item(b"a"), &item(b"b")).is_none());
    assert_eq!(c.column_configs.len(), 2);
}

#[test]
fn a_shared_direction_compares_the_packed_keys() {
    let forward = collator("qS", true, &[("q", 1), ("S", 1)]);
    assert_eq!(forward.direction, CollatorDirection::FORWARD);
    assert_eq!(forward.compare(&item(b"ab"), &item(b"ac")), Some(-1));
    assert_eq!(forward.compare(&item(b"ab"), &item(b"ab")), Some(0));
    assert_eq!(forward.compare(&item(b"b"), &item(b"ab")), Some(1));
    let reverse = collator("qS", true, &[("q", -1), ("S", -1)]);
    assert_eq!(reverse.direction, CollatorDirection::REVERSE);
    assert_eq!(reverse.compare(&item(b"ab"), &item(b"ac")), Some(1));
    assert_eq!(reverse.compare(&item(b"ab"), &item(b"ab")), Some(0));
    assert_eq!(reverse.compare(&item(b"b"), &item(b"ab")), Some(-1));
}

#[test]
fn an_item_is_its_first_bytes() {
    let forward = collator("S", true, &[("S", 1)]);
    let long = WT_ITEM { data: b"abXX".to_vec(), size: 2, memsize: 0, flags: 0 };
    assert_eq!(forward.compare(&long, &item(b"ab")), Some(0));
    assert_eq!(long.length(), 2);
    let e = WT_ITEM::empty();
    assert_eq!(e.length(), 0);
    assert_eq!(e.size, 0);
    assert!(e.data.is_empty());
    assert_eq!(forward.compare(&e, &item(b"a")), Some(-1));
}

#[test]
fn an_index_that_is_not_unique_gets_the_row_identity() {
    let c = collator("Sq", false, &[("S", -1)]);
    assert_eq!(c.column_configs.len(), 2);
    assert_eq!(c.column_configs[1].format, Format { format: 'q', size: 0 });
    assert_eq!(c.column_configs[1].direction, CollatorDirection::REVERSE);
    assert_eq!(c.direction, CollatorDirection::REVERSE);
    let a1 = vec![text("a"), number(1)];
    let a2 = vec![text("a"), number(2)];
    assert_eq!(c.compare_columns(&a1, &a2).unwrap(), 1);
    let mixed = collator("qSq", false, &[("q", 1), ("S", -1)]);
    assert_eq!(mixed.direction, CollatorDirection::NONE);
    assert_eq!(mixed.column_configs.len(), 3);
    assert_eq!(mixed.column_configs[2].direction, CollatorDirection::REVERSE);
    let x = vec![number(1), text("a"), number(7)];
    let y = vec![number(1), text("a"), number(8)];
    assert_eq!(mixed.compare_columns(&x, &y).unwrap(), 1);
}

#[test]
fn columns_share_a_direction_when_all_have_the_same() {
    let c = collator("qS", true, &[("q", 0), ("S", 1)]);
    assert_eq!(c.direction, CollatorDirection::NONE);
    let c = collator("qS", true, &[("q", 1), ("S", 0)]);
    assert_eq!(c.direction, CollatorDirection::NONE);
    let c = collator("qS", true, &[("q", 0), ("S", 0)]);
    assert_eq!(c.direction, CollatorDirection::NONE);
    let c = collator("qS", true, &[("q", 7), ("S", -1)]);
    assert_eq!(c.column_configs[0].direction, CollatorDirection::NONE);
    assert_eq!(c.direction, CollatorDirection::NONE);
    let c = collator("qSq", true, &[("q", -1), ("S", -1), ("q", -1)]);
    assert_eq!(c.direction, CollatorDirection::REVERSE);
    let c = collator("q", true, &[("q", 1)]);
    assert_eq!(c.direction, CollatorDirection::FORWARD);
    let c = collator("q", true, &[]);
    assert_eq!(c.direction, CollatorDirection::NONE);
}

#[test]
fn only_the_reverse_direction_inverts_a_column() {
    let c = collator("qS", true, &[("q", 1), ("S", 0)]);
    assert_eq!(c.direction, CollatorDirection::NONE);
    let one_a = vec![number(1), text("a")];
    let one_b = vec![number(1), text("b")];
    assert_eq!(c.compare_columns(&one_a, &one_b).unwrap(), -1);
    let none = collator("qS", true, &[("q", 0), ("S", 0)]);
    assert_eq!(none.compare_columns(&one_a, &one_b).unwrap(), -1);
    assert_eq!(none.compare_columns(&vec![number(2), text("a")], &one_b).unwrap(), 1);
}

#[test]
fn directions_and_numbers() {
    assert_eq!(CollatorDirection::from(1), CollatorDirection::FORWARD);
    assert_eq!(CollatorDirection::from(0), CollatorDirection::NONE);
    assert_eq!(CollatorDirection::from(-1), CollatorDirection::REVERSE);
    assert_eq!(CollatorDirection::from(5), CollatorDirection::NONE);
    assert_eq!(i32::from(CollatorDirection::FORWARD), 1);
    assert_eq!(i32::from(CollatorDirection::NONE), 0);
    assert_eq!(i32::from(CollatorDirection::REVERSE), -1);
}

#[test]
fn a_new_collator_has_no_columns() {
    let c = Collator::new("Sq".to_string(), "id".to_string()).unwrap();
    assert_eq!(c.direction, CollatorDirection::NONE);
    assert!(c.column_configs.is_empty());
    assert!(!c.unique);
    assert_eq!(c.key_format, "Sq");
    assert_eq!(c.compare_format, vec![Format { format: 'S', size: 0 }, Format { format: 'q', size: 0 }]);
    let e = Collator::new("S?".to_string(), "id".to_string()).unwrap_err();
    assert_eq!(e.glue_error, GlueErrorCode::InvalidFormat);
    assert_eq!(e.extra, ": ?");
}

#[test]
fn columns_in_error_stop_the_declaration() {
    let mut c = Collator::new("Sq".to_string(), "id".to_string()).unwrap();
    let e = c
        .extract_columns_configuration(&vec![column("S", 1), column("?", 1), column("q", 1)])
        .unwrap_err();
    assert_eq!(e.glue_error, GlueErrorCode::InvalidFormat);
    assert_eq!(c.column_configs.len(), 1);
    let mut c = Collator::new("Sq".to_string(), "id".to_string()).unwrap();
    let e = c.extract_column_configuration(&column("", 1)).unwrap_err();
    assert_eq!(e.glue_error, GlueErrorCode::UnlikelyNoValue);
    assert!(c.column_configs.is_empty());
    c.extract_column_configuration(&column("5s", -1)).unwrap();
    assert_eq!(c.column_configs[0].format, Format { format: 's', size: 5 });
    assert_eq!(c.column_configs[0].direction, CollatorDirection::REVERSE);
}

#[test]
fn a_key_format_without_columns_has_no_row_identity() {
    let e = Collator::static_customize_internal("".to_string(), "id".to_string(), false, &vec![]).unwrap_err();
    assert_eq!(e.glue_error, GlueErrorCode::UnlikelyNoValue);
    let c = Collator::static_customize_internal("".to_string(), "id".to_string(), true, &vec![]).unwrap();
    assert!(c.column_configs.is_empty());
    assert_eq!(c.compare_columns(&vec![], &vec![]).unwrap(), 0);
}

#[test]
fn byte_order() {
    assert_eq!(lex_compare(&b"abc".to_vec(), &b"abd".to_vec()), -1);
    assert_eq!(lex_compare(&b"abd".to_vec(), &b"abc".to_vec()), 1);
    assert_eq!(lex_compare(&b"ab".to_vec(), &b"abc".to_vec()), -1);
    assert_eq!(lex_compare(&b"abc".to_vec(), &b"ab".to_vec()), 1);
    assert_eq!(lex_compare(&b"abc".to_vec(), &b"abc".to_vec()), 0);
    assert_eq!(lex_compare(&vec![], &vec![]), 0);
    assert_eq!(lex_compare(&vec![0x7f], &vec![0x80]), -1);
    assert_eq!(lex_compare(&b"a\0b".to_vec(), &b"a\0c".to_vec()), -1);
}

#[test]
fn strings_end_at_their_terminator() {
    assert_eq!(compare_strings(&b"a\0b".to_vec(), &b"a\0c".to_vec()), 0);
    assert_eq!(compare_strings(&b"a".to_vec(), &b"a\0".to_vec()), 0);
    assert_eq!(compare_strings(&b"a".to_vec(), &b"b".to_vec()), -1);
    assert_eq!(compare_strings(&b"ab".to_vec(), &b"a".to_vec()), 1);
    assert_eq!(compare_strings(&vec![0xff], &vec![0x01]), 1);
}

#[test]
fn char_arrays_are_bounded() {
    assert_eq!(compare_char_arrays(&b"abcX".to_vec(), &b"abcY".to_vec(), 3), 0);
    assert_eq!(compare_char_arrays(&b"abcX".to_vec(), &b"abcY".to_vec(), 4), -1);
    assert_eq!(compare_char_arrays(&b"ab\0X".to_vec(), &b"ab\0Y".to_vec(), 4), 0);
    assert_eq!(compare_char_arrays(&b"ab".to_vec(), &b"abc".to_vec(), 9), -1);
    assert_eq!(compare_char_arrays(&b"b".to_vec(), &b"a".to_vec(), 0), 0);
}

#[test]
fn numbers_compare_by_raw_value() {
    assert_eq!(compare_numbers(1, 2), -1);
    assert_eq!(compare_numbers(2, 1), 1);
    assert_eq!(compare_numbers(2, 2), 0);
    assert_eq!(compare_numbers(0, u64::MAX), -1);
    assert_eq!(compare_numbers(1 << 32, 0), 1);
}

#[test]
fn columns_are_compared_by_format() {
    let s = Format { format: 'S', size: 0 };
    let a = Format { format: 's', size: 2 };
    let u = Format { format: 'u', size: 0 };
    let q = Format { format: 'q', size: 0 };
    assert_eq!(compare_column(&s, &text("a\0x"), &text("a\0y")).unwrap(), 0);
    assert_eq!(compare_column(&u, &text("a\0x"), &text("a\0y")).unwrap(), -1);
    assert_eq!(compare_column(&a, &text("abx"), &text("aby")).unwrap(), 0);
    assert_eq!(compare_column(&q, &number(3), &number(2)).unwrap(), 1);
    let e = compare_column(&q, &text("a"), &number(2)).unwrap_err();
    assert_eq!(e.glue_error, GlueErrorCode::AccessEmptyBox);
    assert_eq!(e.extra, " getting uint");
    let e = compare_column(&s, &text("a"), &number(2)).unwrap_err();
    assert_eq!(e.extra, " getting byte array");
}

#[test]
fn a_later_column_is_not_looked_at_once_an_earlier_one_differs() {
    let c = collator("qS", true, &[("q", 1), ("S", -1)]);
    let broken = vec![number(1), number(9)];
    let other = vec![number(2), text("a")];
    assert_eq!(c.compare_columns(&broken, &other).unwrap(), -1);
    let same = vec![number(1), text("a")];
    let e = c.compare_columns(&broken, &same).unwrap_err();
    assert_eq!(e.glue_error, GlueErrorCode::AccessEmptyBox);
    let short = vec![number(1)];
    let e = c.compare_columns(&short, &same).unwrap_err();
    assert_eq!(e.glue_error, GlueErrorCode::UnlikelyNoValue);
    assert_eq!(c.compare_columns(&short, &other).unwrap(), -1);
}

#[test]
fn comparisons_have_numbers() {
    assert_eq!(Comparison::LessThan.number(), -1);
    assert_eq!(Comparison::Equal.number(), 0);
    assert_eq!(Comparison::GreaterThan.number(), 1);
    assert_eq!(Comparison::of(-7), Comparison::LessThan);
    assert_eq!(Comparison::of(0), Comparison::Equal);
    assert_eq!(Comparison::of(3), Comparison::GreaterThan);
}
