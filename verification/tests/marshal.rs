use wiredtiger_glue::error::{GlueError, GlueErrorCode};
use wiredtiger_glue::marshal::{
    bigint_from_bytes, bigint_to_bytes, check_formats, double_from_bytes, double_to_bytes,
    error_from_glue_error, extract_values, latin_string_from_bytes, pad_char_array,
    unwrap_or_error, value_in, value_out, Conversion, HostType, HostValue,
};
use wiredtiger_glue::query_value::{ExternalValue, Format, InternalValue, QueryValue};

fn f(format: char, size: u64) -> Format {
    Format { format, size }
}

fn read_bytes(data_type: char, bytes: &[u8]) -> QueryValue {
    QueryValue {
        data_type,
        external_value: ExternalValue::Unset(),
        internal_value: InternalValue::ByteArrayBox(bytes.to_vec()),
    }
}

fn read_number(data_type: char, number: u64) -> QueryValue {
    QueryValue {
        data_type,
        external_value: ExternalValue::Unset(),
        internal_value: InternalValue::UInt(number),
    }
}

const ALL: [HostType; 11] = [
    HostType::Undefined,
    HostType::Null,
    HostType::Boolean,
    HostType::Number,
    HostType::String,
    HostType::Symbol,
    HostType::Object,
    HostType::Function,
    HostType::External,
    HostType::BigInt,
    HostType::Unknown,
];

/// Checks that a format takes the kinds listed, and no other kind.
fn takes(format: char, accepted: &[(HostType, Conversion)]) {
    for host in ALL {
        let result = value_in(&f(format, 0), host, false);
        if host == HostType::Undefined {
            assert_eq!(result.unwrap(), Conversion::Skip);
        } else if let Some((_, conversion)) = accepted.iter().find(|(h, _)| *h == host) {
            assert_eq!(result.unwrap(), *conversion);
        } else {
            let e = result.unwrap_err();
            assert_eq!(e.glue_error, GlueErrorCode::InvalidDataForFormat);
            assert_eq!(e.extra, format!("format={}, data type={}", format, host.name()));
        }
    }
}

#[test]
fn names_of_host_types() {
    let names = [
        "Undefined", "Null", "Boolean", "Number", "String", "Symbol", "Object", "Function",
        "External", "BigInt", "Unknown",
    ];
    for (host, name) in ALL.iter().zip(names) {
        assert_eq!(host.name(), name);
    }
}

#[test]
fn text_formats_take_strings() {
    takes('s', &[(HostType::String, Conversion::CharArray)]);
    takes('S', &[(HostType::String, Conversion::String)]);
}

#[test]
fn number_formats_take_numbers() {
    for format in ['i', 'l', 'b', 'h'] {
        takes(format, &[(HostType::Number, Conversion::Int32)]);
    }
    for format in ['I', 'L', 'B', 'H'] {
        takes(format, &[(HostType::Number, Conversion::Uint32)]);
    }
    for format in ['q', 'Q', 'r'] {
        takes(
            format,
            &[(HostType::Number, Conversion::Int64), (HostType::BigInt, Conversion::BigIntWord)],
        );
    }
    takes('t', &[(HostType::Number, Conversion::Uint32), (HostType::Boolean, Conversion::Boolean)]);
}

#[test]
fn item_formats_take_large_integers_doubles_and_buffers() {
    for format in ['u', 'U', 'd', 'z'] {
        takes(
            format,
            &[(HostType::BigInt, Conversion::BigIntBytes), (HostType::Number, Conversion::DoubleBytes)],
        );
        assert_eq!(value_in(&f(format, 0), HostType::Object, true).unwrap(), Conversion::Buffer);
        assert_eq!(value_in(&f(format, 0), HostType::BigInt, true).unwrap(), Conversion::BigIntBytes);
    }
}

#[test]
fn padding_and_undefined_are_skipped() {
    for host in ALL {
        assert_eq!(value_in(&f('x', 0), host, false).unwrap(), Conversion::Skip);
    }
    assert_eq!(value_in(&f('?', 0), HostType::Undefined, false).unwrap(), Conversion::Skip);
}

#[test]
fn a_format_that_takes_nothing_is_rejected() {
    for format in ['T', '?', 'k'] {
        let e = value_in(&f(format, 0), HostType::Number, false).unwrap_err();
        assert_eq!(e.glue_error, GlueErrorCode::InvalidFormat);
        assert_eq!(e.extra, format.to_string());
    }
}

#[test]
fn char_arrays_are_filled_up() {
    assert_eq!(pad_char_array(b"ab".to_vec(), 4), b"ab\0\0".to_vec());
    assert_eq!(pad_char_array(b"abcd".to_vec(), 4), b"abcd".to_vec());
    assert_eq!(pad_char_array(b"abcdef".to_vec(), 4), b"abcdef".to_vec());
    assert_eq!(pad_char_array(vec![], 2), vec![0, 0]);
    assert_eq!(pad_char_array(vec![], 0), Vec::<u8>::new());
}

#[test]
fn char_arrays_lose_their_filling() {
    assert_eq!(latin_string_from_bytes(&b"ab\0\0".to_vec()), b"ab".to_vec());
    assert_eq!(latin_string_from_bytes(&b"ab".to_vec()), b"ab".to_vec());
    assert_eq!(latin_string_from_bytes(&b"a\0b\0".to_vec()), b"a\0b".to_vec());
    assert_eq!(latin_string_from_bytes(&b"\0ab".to_vec()), b"".to_vec());
    assert_eq!(latin_string_from_bytes(&b"\0\0".to_vec()), b"".to_vec());
    assert_eq!(latin_string_from_bytes(&vec![]), b"".to_vec());
}

#[test]
fn large_integers_as_bytes() {
    assert_eq!(
        bigint_to_bytes(false, &vec![0x0102030405060708]),
        vec![0x80, 1, 2, 3, 4, 5, 6, 7, 8]
    );
    assert_eq!(
        bigint_to_bytes(true, &vec![0x0102030405060708]),
        vec![0x7f, 0xfe, 0xfd, 0xfc, 0xfb, 0xfa, 0xf9, 0xf8, 0xf7]
    );
    assert_eq!(
        bigint_to_bytes(false, &vec![1, 2]),
        vec![0x80, 0, 0, 0, 0, 0, 0, 0, 2, 0, 0, 0, 0, 0, 0, 0, 1]
    );
    assert_eq!(bigint_to_bytes(false, &vec![]), vec![0x80]);
    assert_eq!(bigint_to_bytes(true, &vec![]), vec![0x7f]);
}

#[test]
fn large_integers_come_back() {
    for negative in [false, true] {
        for words in [vec![], vec![0], vec![7], vec![u64::MAX], vec![1, 2, 3], vec![0xdeadbeef, 0, 0x8000000000000000]] {
            let bytes = bigint_to_bytes(negative, &words);
            assert_eq!(bytes.len(), 1 + 8 * words.len());
            assert_eq!(bigint_from_bytes(&bytes).unwrap(), (negative, words));
        }
    }
    // bytes after the last whole word are not looked at
    assert_eq!(bigint_from_bytes(&vec![0x80, 0, 0, 0, 0, 0, 0, 0, 9, 1, 2]).unwrap(), (false, vec![9]));
    let e = bigint_from_bytes(&vec![]).unwrap_err();
    assert_eq!(e.glue_error, GlueErrorCode::InvalidLength);
}

#[test]
fn the_bytes_of_large_integers_order_as_the_numbers() {
    let numbers: [(bool, u64); 6] = [(true, 900), (true, 5), (true, 1), (false, 0), (false, 5), (false, 900)];
    let bytes: Vec<Vec<u8>> = numbers.iter().map(|(n, w)| bigint_to_bytes(*n, &vec![*w])).collect();
    for pair in bytes.windows(2) {
        assert!(pair[0] < pair[1]);
    }
}

#[test]
fn doubles_as_bytes() {
    assert_eq!(double_to_bytes(1.0f64.to_bits()), vec![0xbf, 0xf0, 0, 0, 0, 0, 0, 0]);
    assert_eq!(double_to_bytes(0.0f64.to_bits()), vec![0x80, 0, 0, 0, 0, 0, 0, 0]);
    assert_eq!(double_to_bytes((-1.0f64).to_bits()), vec![0x40, 0x0f, 0xff, 0xff, 0xff, 0xff, 0xff, 0xff]);
}

#[test]
fn doubles_come_back_and_order_as_the_numbers() {
    let numbers = [-1.0e300, -2.5, -1.0, -0.0, 0.0, 1.0e-300, 1.0, 2.5, 1.0e300];
    let mut last: Option<Vec<u8>> = None;
    for n in numbers {
        let bytes = double_to_bytes(f64::to_bits(n));
        assert_eq!(f64::from_bits(double_from_bytes(&bytes).unwrap()).to_bits(), n.to_bits());
        if let Some(before) = last {
            assert!(before < bytes);
        }
        last = Some(bytes);
    }
    let mut long = double_to_bytes(2.5f64.to_bits());
    long.push(9);
    assert_eq!(f64::from_bits(double_from_bytes(&long).unwrap()), 2.5);
    let e = double_from_bytes(&vec![1, 2, 3]).unwrap_err();
    assert_eq!(e.glue_error, GlueErrorCode::InvalidLength);
}

#[test]
fn values_for_the_host() {
    assert!(matches!(value_out(&read_bytes('S', b"ab"), &f('S', 0)).unwrap(), HostValue::Latin1(b) if b == b"ab"));
    assert!(matches!(value_out(&read_bytes('s', b"ab\0\0"), &f('s', 4)).unwrap(), HostValue::Latin1(b) if b == b"ab"));
    for format in ['u', 'U'] {
        assert!(matches!(value_out(&read_bytes(format, b"a\0"), &f(format, 0)).unwrap(), HostValue::Buffer(b) if b == b"a\0"));
    }
    for format in ['i', 'l', 'b', 'h'] {
        assert!(matches!(value_out(&read_number(format, 7), &f(format, 0)).unwrap(), HostValue::Int32(7)));
        assert!(matches!(value_out(&read_number(format, 0xffff_ffff), &f(format, 0)).unwrap(), HostValue::Int32(-1)));
        assert!(matches!(value_out(&read_number(format, u64::MAX - 1), &f(format, 0)).unwrap(), HostValue::Int32(-2)));
    }
    for format in ['I', 'L', 't', 'B', 'H'] {
        assert!(matches!(value_out(&read_number(format, 7), &f(format, 0)).unwrap(), HostValue::Uint32(7)));
        assert!(matches!(value_out(&read_number(format, 0x1_0000_0003), &f(format, 0)).unwrap(), HostValue::Uint32(3)));
    }
    assert!(matches!(value_out(&read_number('q', u64::MAX), &f('q', 0)).unwrap(), HostValue::BigInt64(-1)));
    assert!(matches!(value_out(&read_number('q', 5), &f('q', 0)).unwrap(), HostValue::BigInt64(5)));
    for format in ['Q', 'r'] {
        assert!(matches!(value_out(&read_number(format, u64::MAX), &f(format, 0)).unwrap(), HostValue::BigIntU64(u64::MAX)));
    }
    assert!(matches!(value_out(&read_number('T', 1), &f('T', 0)).unwrap(), HostValue::Boolean(true)));
    assert!(matches!(value_out(&read_number('T', 0), &f('T', 0)).unwrap(), HostValue::Boolean(false)));
    assert!(matches!(value_out(&read_number('T', 2), &f('T', 0)).unwrap(), HostValue::Boolean(false)));
    let big = bigint_to_bytes(true, &vec![3, 4]);
    assert!(matches!(value_out(&read_bytes('z', &big), &f('z', 0)).unwrap(), HostValue::BigInt { negative: true, words } if words == vec![3, 4]));
    let d = double_to_bytes(2.5f64.to_bits());
    assert!(matches!(value_out(&read_bytes('d', &d), &f('d', 0)).unwrap(), HostValue::Double { bits } if f64::from_bits(bits) == 2.5));
}

#[test]
fn values_of_the_wrong_kind_are_refused() {
    let e = value_out(&read_number('S', 1), &f('S', 0)).unwrap_err();
    assert_eq!(e.glue_error, GlueErrorCode::AccessEmptyBox);
    assert_eq!(e.extra, " getting byte array");
    let e = value_out(&read_bytes('q', b"a"), &f('q', 0)).unwrap_err();
    assert_eq!(e.glue_error, GlueErrorCode::AccessEmptyBox);
    assert_eq!(e.extra, " getting uint");
    let e = value_out(&read_bytes('S', b"a"), &f('x', 0)).unwrap_err();
    assert_eq!(e.glue_error, GlueErrorCode::InvalidDataForFormat);
    assert_eq!(e.extra, "format=x, data type=S");
    let e = value_out(&read_bytes('z', b""), &f('z', 0)).unwrap_err();
    assert_eq!(e.glue_error, GlueErrorCode::InvalidLength);
    let e = value_out(&read_bytes('d', b"abc"), &f('d', 0)).unwrap_err();
    assert_eq!(e.glue_error, GlueErrorCode::InvalidLength);
}

#[test]
fn formats_must_have_the_same_number_of_columns() {
    assert!(check_formats(&vec![f('S', 0)], &vec![f('q', 0)]).is_ok());
    assert!(check_formats(&vec![], &vec![]).is_ok());
    let e = check_formats(&vec![f('S', 0)], &vec![f('q', 0), f('q', 0), f('q', 0)]).unwrap_err();
    assert_eq!(e, "Format mismatch provided:1 != 3");
    let twelve: Vec<Format> = (0..12).map(|_| f('q', 0)).collect();
    assert_eq!(check_formats(&twelve, &vec![]).unwrap_err(), "Format mismatch provided:12 != 0");
}

#[test]
fn errors_for_the_host() {
    let glue = GlueError::for_glue_with_extra(GlueErrorCode::InvalidFormat, "k".to_string());
    assert_eq!(error_from_glue_error(glue, "ignored"), "Unrecognised format: k");
    let engine = GlueError::for_wiredtiger(-31803);
    assert_eq!(error_from_glue_error(engine, "WT_NOTFOUND: item not found"), "WT_NOTFOUND: item not found");
    assert_eq!(unwrap_or_error(Ok(5), "ignored"), Ok(5));
    let failed: Result<i32, GlueError> = Err(GlueError::for_glue(GlueErrorCode::NoString));
    assert_eq!(unwrap_or_error(failed, "ignored"), Err("Failed to convert a string".to_string()));
    let failed: Result<i32, GlueError> = Err(GlueError::for_wiredtiger(5));
    assert_eq!(unwrap_or_error(failed, "five"), Err("five".to_string()));
}

fn given(n: u64) -> Option<QueryValue> {
    let mut v = QueryValue::empty();
    v.data_type = 'q';
    v.set_external_unit(n).unwrap();
    Some(v)
}

fn numbers(values: &Vec<QueryValue>) -> Vec<Option<u64>> {
    values
        .iter()
        .map(|v| match v.external_value {
            ExternalValue::UInt(n) => Some(n),
            _ => None,
        })
        .collect()
}

#[test]
fn values_are_collected_in_order() {
    let formats = vec![f('q', 0), f('q', 0), f('x', 0)];
    let values = extract_values(vec![given(1), given(2), None], &formats, false).unwrap();
    assert_eq!(numbers(&values), vec![Some(1), Some(2)]);
    let values = extract_values(vec![given(1), given(2), None], &formats, true).unwrap();
    assert_eq!(numbers(&values), vec![Some(1), Some(2), None]);
    assert_eq!(values[2].data_type, 'x');
    let values = extract_values(vec![given(1), None, given(3)], &formats, false).unwrap();
    assert_eq!(numbers(&values), vec![Some(1), Some(3)]);
    let values = extract_values(vec![None, None, None], &formats, true).unwrap();
    assert_eq!(values.len(), 3);
    assert!(extract_values(vec![], &vec![], false).unwrap().is_empty());
}

#[test]
fn a_second_column_without_a_value_is_refused() {
    let formats = vec![f('q', 0), f('x', 0), f('x', 0)];
    let e = extract_values(vec![given(1), None, None], &formats, false).unwrap_err();
    assert_eq!(e, "Can't have a padding field in the middle of the format");
    let e = extract_values(vec![None, given(1), None], &formats, false).unwrap_err();
    assert_eq!(e, "Can't have a padding field in the middle of the format");
}

#[test]
fn there_must_be_a_value_for_each_column() {
    let formats = vec![f('q', 0), f('q', 0), f('q', 0)];
    let e = extract_values(vec![given(1), given(2)], &formats, false).unwrap_err();
    assert_eq!(e, "Invalid length: Length 2 is invalid for format size 3");
    let e = extract_values(vec![given(1)], &vec![], true).unwrap_err();
    assert_eq!(e, "Invalid length: Length 1 is invalid for format size 0");
}
