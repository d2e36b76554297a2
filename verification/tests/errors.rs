use wiredtiger_glue::error::{
    glue_error_strerror, glue_strerror, ErrorDomain, GlueError, GlueErrorCode, WT_DUPLICATE_KEY,
    WT_NOTFOUND,
};
use wiredtiger_glue::utils::{get_fn, unwrap_or_throw};

#[test]
fn engine_errors() {
    let e = GlueError::for_wiredtiger(-31803);
    assert_eq!(e.error_domain, ErrorDomain::WIREDTIGER);
    assert_eq!(e.wiredtiger_error, -31803);
    assert_eq!(e.glue_error, GlueErrorCode::NoError);
    assert_eq!(e.extra, "");
    assert!(e.is_not_found());
    assert!(!GlueError::for_wiredtiger(WT_DUPLICATE_KEY).is_not_found());
    assert_eq!(WT_NOTFOUND, -31803);
    assert_eq!(WT_DUPLICATE_KEY, -31800);
}

#[test]
fn library_errors() {
    let e = GlueError::for_glue(GlueErrorCode::InvalidIndexSpec);
    assert_eq!(e.error_domain, ErrorDomain::GLUE);
    assert_eq!(e.wiredtiger_error, 0);
    assert_eq!(e.glue_error, GlueErrorCode::InvalidIndexSpec);
    assert_eq!(e.extra, "");
    assert!(!e.is_not_found());
    let e = GlueError::for_glue_with_extra(GlueErrorCode::InvalidFormat, "k".to_string());
    assert_eq!(e.glue_error, GlueErrorCode::InvalidFormat);
    assert_eq!(e.extra, "k");
}

#[test]
fn a_library_error_is_never_not_found() {
    let mut e = GlueError::for_glue(GlueErrorCode::NoString);
    e.wiredtiger_error = WT_NOTFOUND;
    assert!(!e.is_not_found());
}

#[test]
fn error_numbers() {
    let codes = [
        (GlueErrorCode::NoError, 0),
        (GlueErrorCode::UnlikelyNoPtr, 1),
        (GlueErrorCode::UnlikelyNoValue, 2),
        (GlueErrorCode::ImpossibleNoFn, 3),
        (GlueErrorCode::InvalidFormat, 4),
        (GlueErrorCode::InvalidDataForFormat, 5),
        (GlueErrorCode::InvalidLength, 6),
        (GlueErrorCode::NoString, 7),
        (GlueErrorCode::AccessEmptyBox, 8),
        (GlueErrorCode::InvalidIndexSpec, 9),
        (GlueErrorCode::NotInitialised, 10),
        (GlueErrorCode::MissingRequiredConfig, 11),
        (GlueErrorCode::UnlikelyNoRun, 1000),
    ];
    for (code, number) in codes {
        assert_eq!(code.code(), number);
    }
}

#[test]
fn error_texts() {
    let x = "X".to_string();
    let texts = [
        (GlueErrorCode::NoError, "Should not have got here - no error"),
        (GlueErrorCode::ImpossibleNoFn, "Impossible - there's no function available"),
        (GlueErrorCode::UnlikelyNoPtr, "Unlikely - but there's no pointer"),
        (
            GlueErrorCode::UnlikelyNoValue,
            "Unlikely - but there's no value where we tried to extract something",
        ),
        (
            GlueErrorCode::UnlikelyNoRun,
            "Unlikely - but the function never populated the return value ptr",
        ),
        (GlueErrorCode::NoString, "Failed to convert a string"),
        (GlueErrorCode::InvalidIndexSpec, "Invalid index spec (no values or conditions)"),
        (GlueErrorCode::InvalidFormat, "Unrecognised format: X"),
        (GlueErrorCode::InvalidDataForFormat, "Unrecognised data for format: X"),
        (GlueErrorCode::InvalidLength, "Invalid length: X"),
        (GlueErrorCode::AccessEmptyBox, "Tried to access an empty box: X"),
        (GlueErrorCode::NotInitialised, "Tried to access without initializing in: X"),
        (GlueErrorCode::MissingRequiredConfig, "Missing required config: X"),
    ];
    for (code, text) in texts {
        assert_eq!(glue_error_strerror(&code, &x), text);
        assert_eq!(glue_strerror(GlueError::for_glue_with_extra(code, x.clone())), text);
    }
}

#[test]
fn error_lines() {
    let e = GlueError::for_glue_with_extra(GlueErrorCode::NotInitialised, "unknown".to_string());
    assert_eq!(
        e.to_string("ignored"),
        "Glue Error (Domain=Glue,Error=Tried to access without initializing in: unknown)"
    );
    let e = GlueError::for_wiredtiger(WT_NOTFOUND);
    assert_eq!(
        e.to_string("WT_NOTFOUND: item not found"),
        "Glue Error (Domain=WIREDTIGER,Error=WT_NOTFOUND: item not found)"
    );
}

#[test]
fn missing_function_and_missing_value() {
    assert_eq!(get_fn(Some(7)).unwrap(), 7);
    let e = get_fn::<i32>(None).unwrap_err();
    assert_eq!(e.error_domain, ErrorDomain::GLUE);
    assert_eq!(e.glue_error, GlueErrorCode::ImpossibleNoFn);
    assert_eq!(unwrap_or_throw(Some("a")).unwrap(), "a");
    let e = unwrap_or_throw::<i32>(None).unwrap_err();
    assert_eq!(e.glue_error, GlueErrorCode::UnlikelyNoValue);
}
