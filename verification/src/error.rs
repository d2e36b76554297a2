//! The two error domains and the text of each library error.

use vstd::prelude::*;
use vstd::string::*;

verus! {

/// The engine's status code for "no such row".
pub const WT_NOTFOUND: i32 = -31803;

/// The engine's status code for an insert that meets an existing key.
pub const WT_DUPLICATE_KEY: i32 = -31800;

/// Where an error was raised.
#[derive(PartialEq, Eq, Structural, Clone, Copy, Debug)]
pub enum ErrorDomain {
    WIREDTIGER,
    GLUE,
}

/// The errors raised by the library itself.
#[derive(PartialEq, Eq, Structural, Clone, Copy, Debug)]
pub enum GlueErrorCode {
    NoError,
    UnlikelyNoPtr,
    UnlikelyNoValue,
    ImpossibleNoFn,
    InvalidFormat,
    InvalidDataForFormat,
    InvalidLength,
    NoString,
    AccessEmptyBox,
    InvalidIndexSpec,
    NotInitialised,
    MissingRequiredConfig,
    UnlikelyNoRun,
}

/// The number under which each library error is known to the engine.
pub open spec fn code_number(code: GlueErrorCode) -> int {
    match code {
        GlueErrorCode::NoError => 0,
        GlueErrorCode::UnlikelyNoPtr => 1,
        GlueErrorCode::UnlikelyNoValue => 2,
        GlueErrorCode::ImpossibleNoFn => 3,
        GlueErrorCode::InvalidFormat => 4,
        GlueErrorCode::InvalidDataForFormat => 5,
        GlueErrorCode::InvalidLength => 6,
        GlueErrorCode::NoString => 7,
        GlueErrorCode::AccessEmptyBox => 8,
        GlueErrorCode::InvalidIndexSpec => 9,
        GlueErrorCode::NotInitialised => 10,
        GlueErrorCode::MissingRequiredConfig => 11,
        GlueErrorCode::UnlikelyNoRun => 1000,
    }
}

impl GlueErrorCode {
    /// The error's number.
    pub fn code(&self) -> (n: i32)
        ensures
            n == code_number(*self),
    {
        match self {
            GlueErrorCode::NoError => 0,
            GlueErrorCode::UnlikelyNoPtr => 1,
            GlueErrorCode::UnlikelyNoValue => 2,
            GlueErrorCode::ImpossibleNoFn => 3,
            GlueErrorCode::InvalidFormat => 4,
            GlueErrorCode::InvalidDataForFormat => 5,
            GlueErrorCode::InvalidLength => 6,
            GlueErrorCode::NoString => 7,
            GlueErrorCode::AccessEmptyBox => 8,
            GlueErrorCode::InvalidIndexSpec => 9,
            GlueErrorCode::NotInitialised => 10,
            GlueErrorCode::MissingRequiredConfig => 11,
            GlueErrorCode::UnlikelyNoRun => 1000,
        }
    }
}

/// An error of either domain. Only the field of its own domain is
/// meaningful: an engine error carries `NoError`, a library error carries
/// the engine code 0.
#[derive(Debug)]
pub struct GlueError {
    pub error_domain: ErrorDomain,
    pub wiredtiger_error: i32,
    pub glue_error: GlueErrorCode,
    pub extra: String,
}

/// What an error is, with its text as a sequence of characters.
pub struct GlueErrorView {
    pub error_domain: ErrorDomain,
    pub wiredtiger_error: i32,
    pub glue_error: GlueErrorCode,
    pub extra: Seq<char>,
}

impl View for GlueError {
    type V = GlueErrorView;

    open spec fn view(&self) -> GlueErrorView {
        GlueErrorView {
            error_domain: self.error_domain,
            wiredtiger_error: self.wiredtiger_error,
            glue_error: self.glue_error,
            extra: self.extra@,
        }
    }
}

/// The engine error with the given status code.
pub open spec fn wiredtiger_error(error: i32) -> GlueErrorView {
    GlueErrorView {
        error_domain: ErrorDomain::WIREDTIGER,
        wiredtiger_error: error,
        glue_error: GlueErrorCode::NoError,
        extra: Seq::empty(),
    }
}

/// The library error with the given code and detail.
pub open spec fn glue_error(error: GlueErrorCode, extra: Seq<char>) -> GlueErrorView {
    GlueErrorView {
        error_domain: ErrorDomain::GLUE,
        wiredtiger_error: 0,
        glue_error: error,
        extra,
    }
}

/// The "no such row" error of the engine, which also serves as the signal
/// that a range condition matches nothing.
pub open spec fn not_found() -> GlueErrorView {
    wiredtiger_error(WT_NOTFOUND)
}

impl GlueErrorView {
    /// Whether this is the engine's "no such row".
    pub open spec fn is_not_found(self) -> bool {
        self.error_domain == ErrorDomain::WIREDTIGER && self.wiredtiger_error == WT_NOTFOUND
    }
}

impl GlueError {
    /// The engine error with the given status code.
    pub fn for_wiredtiger(error: i32) -> (e: Self)
        ensures
            e@ == wiredtiger_error(error),
    {
        GlueError {
            error_domain: ErrorDomain::WIREDTIGER,
            wiredtiger_error: error,
            glue_error: GlueErrorCode::NoError,
            extra: String::new(),
        }
    }

    /// The library error with the given code and no detail.
    pub fn for_glue(error: GlueErrorCode) -> (e: Self)
        ensures
            e@ == glue_error(error, Seq::empty()),
    {
        GlueError {
            error_domain: ErrorDomain::GLUE,
            wiredtiger_error: 0,
            glue_error: error,
            extra: String::new(),
        }
    }

    /// The library error with the given code and detail.
    pub fn for_glue_with_extra(error: GlueErrorCode, extra: String) -> (e: Self)
        ensures
            e@ == glue_error(error, extra@),
    {
        GlueError { error_domain: ErrorDomain::GLUE, wiredtiger_error: 0, glue_error: error, extra }
    }

    /// Whether this is the engine's "no such row".
    pub fn is_not_found(&self) -> (b: bool)
        ensures
            b == self@.is_not_found(),
    {
        self.error_domain == ErrorDomain::WIREDTIGER && self.wiredtiger_error == WT_NOTFOUND
    }

    /// The error as a line of text. For an engine error the engine's own
    /// message for the status code is passed in.
    pub fn to_string(&self, wiredtiger_message: &str) -> (s: String)
        ensures
            s@ == display_text(self@, wiredtiger_message@),
    {
        let head = String::from_str("Glue Error (");
        let body = match self.error_domain {
            ErrorDomain::GLUE => {
                let text = glue_error_strerror(&self.glue_error, &self.extra);
                head.concat("Domain=Glue,").concat("Error=").concat(text.as_str())
            },
            ErrorDomain::WIREDTIGER => {
                head.concat("Domain=WIREDTIGER,").concat("Error=").concat(wiredtiger_message)
            },
        };
        let s = body.concat(")");
        proof {
            assert(s@ =~= display_text(self@, wiredtiger_message@));
        }
        s
    }
}

/// The text of a library error: a fixed sentence, followed for some codes
/// by the detail that came with the error.
pub open spec fn strerror_text(error: GlueErrorCode, extra: Seq<char>) -> Seq<char> {
    match error {
        GlueErrorCode::NoError => "Should not have got here - no error"@,
        GlueErrorCode::ImpossibleNoFn => "Impossible - there's no function available"@,
        GlueErrorCode::UnlikelyNoPtr => "Unlikely - but there's no pointer"@,
        GlueErrorCode::UnlikelyNoValue =>
            "Unlikely - but there's no value where we tried to extract something"@,
        GlueErrorCode::UnlikelyNoRun =>
            "Unlikely - but the function never populated the return value ptr"@,
        GlueErrorCode::NoString => "Failed to convert a string"@,
        GlueErrorCode::InvalidIndexSpec => "Invalid index spec (no values or conditions)"@,
        GlueErrorCode::InvalidFormat => "Unrecognised format: "@ + extra,
        GlueErrorCode::InvalidDataForFormat => "Unrecognised data for format: "@ + extra,
        GlueErrorCode::InvalidLength => "Invalid length: "@ + extra,
        GlueErrorCode::AccessEmptyBox => "Tried to access an empty box: "@ + extra,
        GlueErrorCode::NotInitialised => "Tried to access without initializing in: "@ + extra,
        GlueErrorCode::MissingRequiredConfig => "Missing required config: "@ + extra,
    }
}

/// The full line for an error of either domain.
pub open spec fn display_text(error: GlueErrorView, wiredtiger_message: Seq<char>) -> Seq<char> {
    match error.error_domain {
        ErrorDomain::GLUE => "Glue Error ("@ + "Domain=Glue,"@ + "Error="@ + strerror_text(
            error.glue_error,
            error.extra,
        ) + ")"@,
        ErrorDomain::WIREDTIGER => "Glue Error ("@ + "Domain=WIREDTIGER,"@ + "Error="@
            + wiredtiger_message + ")"@,
    }
}

/// The text of a library error with the given code and detail.
pub fn glue_error_strerror(error: &GlueErrorCode, extra: &String) -> (s: String)
    ensures
        s@ == strerror_text(*error, extra@),
{
    match error {
        GlueErrorCode::NoError => String::from_str("Should not have got here - no error"),
        GlueErrorCode::ImpossibleNoFn => String::from_str(
            "Impossible - there's no function available",
        ),
        GlueErrorCode::UnlikelyNoPtr => String::from_str("Unlikely - but there's no pointer"),
        GlueErrorCode::UnlikelyNoValue => String::from_str(
            "Unlikely - but there's no value where we tried to extract something",
        ),
        GlueErrorCode::UnlikelyNoRun => String::from_str(
            "Unlikely - but the function never populated the return value ptr",
        ),
        GlueErrorCode::NoString => String::from_str("Failed to convert a string"),
        GlueErrorCode::InvalidIndexSpec => String::from_str(
            "Invalid index spec (no values or conditions)",
        ),
        GlueErrorCode::InvalidFormat => String::from_str("Unrecognised format: ").concat(
            extra.as_str(),
        ),
        GlueErrorCode::InvalidDataForFormat => String::from_str(
            "Unrecognised data for format: ",
        ).concat(extra.as_str()),
        GlueErrorCode::InvalidLength => String::from_str("Invalid length: ").concat(extra.as_str()),
        GlueErrorCode::AccessEmptyBox => String::from_str("Tried to access an empty box: ").concat(
            extra.as_str(),
        ),
        GlueErrorCode::NotInitialised => String::from_str(
            "Tried to access without initializing in: ",
        ).concat(extra.as_str()),
        GlueErrorCode::MissingRequiredConfig => String::from_str(
            "Missing required config: ",
        ).concat(extra.as_str()),
    }
}

/// The text of a library error.
pub fn glue_strerror(error: GlueError) -> (s: String)
    ensures
        s@ == strerror_text(error.glue_error, error.extra@),
{
    glue_error_strerror(&error.glue_error, &error.extra)
}

} // verus!
