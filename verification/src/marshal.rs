//! The passage of values between the host language and the engine's
//! formats: which kind of host value each format takes and gives, and the
//! byte encodings of large integers and of doubles, whose bytes order as
//! the numbers do.

use vstd::prelude::*;
use vstd::string::*;
use crate::error::{
    ErrorDomain, GlueError, GlueErrorCode, GlueErrorView, glue_error, glue_strerror,
    strerror_text,
};
use crate::query_value::{
    ExternalValueView, Format, InternalValueView, QueryValue, QueryValueView, views,
};
use crate::utils::{
    decimal, flip_sign, is_wt_item, lemma_flip_sign_twice, push_decimal, sign_flipped,
    string_push,
};

verus! {

/// The kinds of values of the host language.
#[derive(PartialEq, Eq, Structural, Clone, Copy, Debug)]
pub enum HostType {
    Undefined,
    Null,
    Boolean,
    Number,
    String,
    Symbol,
    Object,
    Function,
    External,
    BigInt,
    Unknown,
}

/// The name of a kind of host value.
pub open spec fn host_type_name(host: HostType) -> Seq<char> {
    match host {
        HostType::Undefined => "Undefined"@,
        HostType::Null => "Null"@,
        HostType::Boolean => "Boolean"@,
        HostType::Number => "Number"@,
        HostType::String => "String"@,
        HostType::Symbol => "Symbol"@,
        HostType::Object => "Object"@,
        HostType::Function => "Function"@,
        HostType::External => "External"@,
        HostType::BigInt => "BigInt"@,
        HostType::Unknown => "Unknown"@,
    }
}

impl HostType {
    /// The name of the kind.
    pub fn name(&self) -> (s: String)
        ensures
            s@ == host_type_name(*self),
    {
        String::from_str(
            match self {
                HostType::Undefined => "Undefined",
                HostType::Null => "Null",
                HostType::Boolean => "Boolean",
                HostType::Number => "Number",
                HostType::String => "String",
                HostType::Symbol => "Symbol",
                HostType::Object => "Object",
                HostType::Function => "Function",
                HostType::External => "External",
                HostType::BigInt => "BigInt",
                HostType::Unknown => "Unknown",
            },
        )
    }
}

/// How a host value is taken in as a column value.
#[derive(PartialEq, Eq, Structural, Clone, Copy, Debug)]
pub enum Conversion {
    /// The column has no value: the host gave none, or the column is
    /// padding.
    Skip,
    /// The Latin-1 bytes of a string, filled up with zero bytes to the
    /// size of the column.
    CharArray,
    /// The Latin-1 bytes of a string.
    String,
    /// The number as a signed 32-bit integer.
    Int32,
    /// The number as an unsigned 32-bit integer.
    Uint32,
    /// 0 or 1.
    Boolean,
    /// The bytes of a large integer.
    BigIntBytes,
    /// The bytes of a double.
    DoubleBytes,
    /// The bytes of a buffer.
    Buffer,
    /// The number as a signed 64-bit integer.
    Int64,
    /// The low 64 bits of a large integer.
    BigIntWord,
}

/// The text of a mismatch between a format and the kind of a value.
pub open spec fn mismatch_text(format: char, kind: Seq<char>) -> Seq<char> {
    "format="@.push(format) + ", data type="@ + kind
}

/// How a host value of the given kind is taken in under a format. A value
/// that the host left undefined, and any value for a padding column, is
/// skipped. A string takes text, a number format takes a number (a long
/// one a large integer too), a bit field a number or a boolean, and an
/// item a large integer, a double or a buffer. Any other pairing is a
/// mismatch, and a format that takes no values is rejected.
pub open spec fn conversion_of(format: char, host: HostType, is_buffer: bool) -> Result<
    Conversion,
    GlueErrorView,
> {
    let mismatch = Err(
        glue_error(
            GlueErrorCode::InvalidDataForFormat,
            mismatch_text(format, host_type_name(host)),
        ),
    );
    if host == HostType::Undefined || format == 'x' {
        Ok(Conversion::Skip)
    } else if format == 's' {
        if host == HostType::String {
            Ok(Conversion::CharArray)
        } else {
            mismatch
        }
    } else if format == 'S' {
        if host == HostType::String {
            Ok(Conversion::String)
        } else {
            mismatch
        }
    } else if format == 'i' || format == 'l' || format == 'b' || format == 'h' {
        if host == HostType::Number {
            Ok(Conversion::Int32)
        } else {
            mismatch
        }
    } else if format == 't' {
        if host == HostType::Number {
            Ok(Conversion::Uint32)
        } else if host == HostType::Boolean {
            Ok(Conversion::Boolean)
        } else {
            mismatch
        }
    } else if format == 'I' || format == 'L' || format == 'B' || format == 'H' {
        if host == HostType::Number {
            Ok(Conversion::Uint32)
        } else {
            mismatch
        }
    } else if is_wt_item(format) {
        if host == HostType::BigInt {
            Ok(Conversion::BigIntBytes)
        } else if host == HostType::Number {
            Ok(Conversion::DoubleBytes)
        } else if is_buffer {
            Ok(Conversion::Buffer)
        } else {
            mismatch
        }
    } else if format == 'q' || format == 'Q' || format == 'r' {
        if host == HostType::Number {
            Ok(Conversion::Int64)
        } else if host == HostType::BigInt {
            Ok(Conversion::BigIntWord)
        } else {
            mismatch
        }
    } else {
        Err(glue_error(GlueErrorCode::InvalidFormat, Seq::empty().push(format)))
    }
}

/// The error for a value of a kind that its format does not take.
fn mismatch(format: char, kind: &str) -> (e: GlueError)
    ensures
        e@ == glue_error(GlueErrorCode::InvalidDataForFormat, mismatch_text(format, kind@)),
{
    let mut extra = String::from_str("format=");
    string_push(&mut extra, format);
    let extra = extra.concat(", data type=").concat(kind);
    GlueError::for_glue_with_extra(GlueErrorCode::InvalidDataForFormat, extra)
}

/// Tells how a host value of the given kind is taken in under a format.
pub fn value_in(format: &Format, host: HostType, is_buffer: bool) -> (r: Result<
    Conversion,
    GlueError,
>)
    ensures
        match conversion_of(format.format, host, is_buffer) {
            Ok(conversion) => r == Ok::<Conversion, GlueError>(conversion),
            Err(error) => r matches Err(e) && e@ == error,
        },
{
    let f = format.format;
    if host == HostType::Undefined || f == 'x' {
        return Ok(Conversion::Skip);
    }
    let taken = if f == 's' {
        if host == HostType::String {
            Some(Conversion::CharArray)
        } else {
            None
        }
    } else if f == 'S' {
        if host == HostType::String {
            Some(Conversion::String)
        } else {
            None
        }
    } else if f == 'i' || f == 'l' || f == 'b' || f == 'h' {
        if host == HostType::Number {
            Some(Conversion::Int32)
        } else {
            None
        }
    } else if f == 't' {
        if host == HostType::Number {
            Some(Conversion::Uint32)
        } else if host == HostType::Boolean {
            Some(Conversion::Boolean)
        } else {
            None
        }
    } else if f == 'I' || f == 'L' || f == 'B' || f == 'H' {
        if host == HostType::Number {
            Some(Conversion::Uint32)
        } else {
            None
        }
    } else if f == 'u' || f == 'U' || f == 'd' || f == 'z' {
        if host == HostType::BigInt {
            Some(Conversion::BigIntBytes)
        } else if host == HostType::Number {
            Some(Conversion::DoubleBytes)
        } else if is_buffer {
            Some(Conversion::Buffer)
        } else {
            None
        }
    } else if f == 'q' || f == 'Q' || f == 'r' {
        if host == HostType::Number {
            Some(Conversion::Int64)
        } else if host == HostType::BigInt {
            Some(Conversion::BigIntWord)
        } else {
            None
        }
    } else {
        let mut extra = String::new();
        string_push(&mut extra, f);
        return Err(GlueError::for_glue_with_extra(GlueErrorCode::InvalidFormat, extra));
    };
    match taken {
        Some(conversion) => Ok(conversion),
        None => Err(mismatch(f, host.name().as_str())),
    }
}

/// The bytes of a character array: the text, filled up with zero bytes to
/// the size of the column. A text longer than the column is kept whole.
pub open spec fn padded(text: Seq<u8>, size: nat) -> Seq<u8> {
    if text.len() >= size {
        text
    } else {
        text + Seq::new((size - text.len()) as nat, |i: int| 0u8)
    }
}

/// Fills a text up with zero bytes to the size of its column.
pub fn pad_char_array(text: Vec<u8>, size: u64) -> (bytes: Vec<u8>)
    ensures
        bytes@ == padded(text@, size as nat),
{
    let mut bytes = text;
    while (bytes.len() as u64) < size
        invariant
            text@.len() <= bytes@.len(),
            bytes@.len() <= size || bytes@.len() == text@.len(),
            bytes@ == text@ + Seq::new((bytes@.len() - text@.len()) as nat, |i: int| 0u8),
        decreases size - bytes@.len(),
    {
        let ghost before = bytes@;
        bytes.push(0);
        assert(bytes@ =~= text@ + Seq::new((bytes@.len() - text@.len()) as nat, |i: int| 0u8));
    }
    assert(bytes@ =~= padded(text@, size as nat));
    bytes
}

/// The length of the text in a character array: up to its last byte that
/// is not zero. An array that starts with a zero byte holds no text.
pub open spec fn latin_length(chars: Seq<u8>) -> int {
    if chars.len() == 0 || chars[0] == 0 {
        0
    } else {
        last_nonzero(chars, chars.len() as int) + 1
    }
}

/// The position of the last byte before `n` that is not zero; -1 where
/// there is none.
pub open spec fn last_nonzero(chars: Seq<u8>, n: int) -> int
    decreases n,
{
    if n <= 0 {
        -1
    } else if chars[n - 1] != 0 {
        n - 1
    } else {
        last_nonzero(chars, n - 1)
    }
}

/// The text of a character array, without the zero bytes that fill it up.
pub fn latin_string_from_bytes(chars: &Vec<u8>) -> (text: Vec<u8>)
    ensures
        text@ == chars@.take(latin_length(chars@)),
        0 <= latin_length(chars@) <= chars@.len(),
{
    let mut len: usize = 0;
    if chars.len() > 0 && chars[0] != 0 {
        let mut i: usize = chars.len();
        while i > 0 && chars[i - 1] == 0
            invariant
                i <= chars.len(),
                chars@.len() > 0,
                chars@[0] != 0,
                last_nonzero(chars@, chars@.len() as int) == last_nonzero(chars@, i as int),
            decreases i,
        {
            i -= 1;
        }
        len = i;
    }
    let mut text = chars.clone();
    text.truncate(len);
    assert(text@ =~= chars@.take(latin_length(chars@)));
    text
}

/// The error for two formats that do not have the same number of columns.
pub open spec fn format_mismatch_text(provided: nat, expected: nat) -> Seq<char> {
    "Format mismatch provided:"@ + decimal(provided) + " != "@
        + decimal(expected)
}

/// Checks that a format given by the caller has as many columns as the
/// format of the cursor.
pub fn check_formats(parsed_formats: &Vec<Format>, default_formats: &Vec<Format>) -> (r: Result<
    (),
    String,
>)
    ensures
        r is Ok <==> parsed_formats@.len() == default_formats@.len(),
        r matches Err(text) ==> text@ == format_mismatch_text(
            parsed_formats@.len(),
            default_formats@.len(),
        ),
{
    if parsed_formats.len() != default_formats.len() {
        let mut text = String::from_str("Format mismatch provided:");
        push_decimal(&mut text, parsed_formats.len() as u64);
        let mut text = text.concat(" != ");
        push_decimal(&mut text, default_formats.len() as u64);
        return Err(text);
    }
    Ok(())
}

/// The text of an error for the host: that of the library for its own
/// errors, the engine's message for the engine's.
pub fn error_from_glue_error(error: GlueError, wiredtiger_message: &str) -> (text: String)
    ensures
        text@ == (match error.error_domain {
            ErrorDomain::GLUE => strerror_text(error.glue_error, error.extra@),
            ErrorDomain::WIREDTIGER => wiredtiger_message@,
        }),
{
    match error.error_domain {
        ErrorDomain::GLUE => glue_strerror(error),
        ErrorDomain::WIREDTIGER => String::from_str(wiredtiger_message),
    }
}

/// A result with its error turned into text for the host.
pub fn unwrap_or_error<T>(result: Result<T, GlueError>, wiredtiger_message: &str) -> (r: Result<
    T,
    String,
>)
    ensures
        result is Ok <==> r is Ok,
        result matches Ok(t) ==> r == Ok::<T, String>(t),
        result matches Err(e) ==> r matches Err(text) && text@ == (match e.error_domain {
            ErrorDomain::GLUE => strerror_text(e.glue_error, e.extra@),
            ErrorDomain::WIREDTIGER => wiredtiger_message@,
        }),
{
    match result {
        Err(error) => Err(error_from_glue_error(error, wiredtiger_message)),
        Ok(t) => Ok(t),
    }
}

/// The bytes of a 64-bit word, the most significant first.
pub open spec fn be_bytes(w: u64) -> Seq<u8> {
    seq![
        ((w >> 56) & 0xff) as u8,
        ((w >> 48) & 0xff) as u8,
        ((w >> 40) & 0xff) as u8,
        ((w >> 32) & 0xff) as u8,
        ((w >> 24) & 0xff) as u8,
        ((w >> 16) & 0xff) as u8,
        ((w >> 8) & 0xff) as u8,
        (w & 0xff) as u8,
    ]
}

/// The 64-bit word whose bytes, the most significant first, are the eight
/// bytes of `bytes` from `at` on.
pub open spec fn be_word(bytes: Seq<u8>, at: int) -> u64 {
    (bytes[at] as u64) << 56 | (bytes[at + 1] as u64) << 48 | (bytes[at + 2] as u64) << 40 | (
    bytes[at + 3] as u64) << 32 | (bytes[at + 4] as u64) << 24 | (bytes[at + 5] as u64) << 16 | (
    bytes[at + 6] as u64) << 8 | (bytes[at + 7] as u64)
}

/// A word is the word of its bytes.
pub proof fn lemma_be_word(w: u64)
    ensures
        be_word(be_bytes(w), 0) == w,
{
    let b0 = ((w >> 56) & 0xff) as u8;
    let b1 = ((w >> 48) & 0xff) as u8;
    let b2 = ((w >> 40) & 0xff) as u8;
    let b3 = ((w >> 32) & 0xff) as u8;
    let b4 = ((w >> 24) & 0xff) as u8;
    let b5 = ((w >> 16) & 0xff) as u8;
    let b6 = ((w >> 8) & 0xff) as u8;
    let b7 = (w & 0xff) as u8;
    assert((b0 as u64) << 56 | (b1 as u64) << 48 | (b2 as u64) << 40 | (b3 as u64) << 32 | (
    b4 as u64) << 24 | (b5 as u64) << 16 | (b6 as u64) << 8 | (b7 as u64) == w) by (bit_vector)
        requires
            b0 == ((w >> 56) & 0xff) as u8,
            b1 == ((w >> 48) & 0xff) as u8,
            b2 == ((w >> 40) & 0xff) as u8,
            b3 == ((w >> 32) & 0xff) as u8,
            b4 == ((w >> 24) & 0xff) as u8,
            b5 == ((w >> 16) & 0xff) as u8,
            b6 == ((w >> 8) & 0xff) as u8,
            b7 == (w & 0xff) as u8,
    ;
}

/// Appends the bytes of a word, the most significant first.
fn push_be_bytes(bytes: &mut Vec<u8>, w: u64)
    ensures
        final(bytes)@ == old(bytes)@ + be_bytes(w),
{
    bytes.push(((w >> 56) & 0xff) as u8);
    bytes.push(((w >> 48) & 0xff) as u8);
    bytes.push(((w >> 40) & 0xff) as u8);
    bytes.push(((w >> 32) & 0xff) as u8);
    bytes.push(((w >> 24) & 0xff) as u8);
    bytes.push(((w >> 16) & 0xff) as u8);
    bytes.push(((w >> 8) & 0xff) as u8);
    bytes.push((w & 0xff) as u8);
    assert(bytes@ =~= old(bytes)@ + be_bytes(w));
}

/// Reads the word whose bytes start at `at`.
fn read_be_word(bytes: &Vec<u8>, at: usize) -> (w: u64)
    requires
        at + 8 <= bytes@.len(),
    ensures
        w == be_word(bytes@, at as int),
{
    let n = bytes.len();
    assert(at + 8 <= n);
    (bytes[at] as u64) << 56 | (bytes[at + 1] as u64) << 48 | (bytes[at + 2] as u64) << 40 | (
    bytes[at + 3] as u64) << 32 | (bytes[at + 4] as u64) << 24 | (bytes[at + 5] as u64) << 16 | (
    bytes[at + 6] as u64) << 8 | (bytes[at + 7] as u64)
}

/// A large integer before its sign is flipped: a sign byte, which is 0x80
/// for a negative number, and the words of its magnitude from the most
/// significant (the last) to the least, each the most significant byte
/// first.
pub open spec fn bigint_raw(negative: bool, words: Seq<u64>) -> Seq<u8> {
    seq![if negative { 0x80u8 } else { 0u8 }] + Seq::new(
        8 * words.len(),
        |p: int| be_bytes(words[words.len() - 1 - p / 8])[p % 8],
    )
}

/// The bytes of a large integer. They order as the numbers do: the sign
/// is flipped, for a positive number in the sign byte and for a negative
/// one in every byte.
pub open spec fn bigint_bytes(negative: bool, words: Seq<u64>) -> Seq<u8> {
    sign_flipped(bigint_raw(negative, words), (1 + 8 * words.len()) as int, !negative)
}

/// Whether the sign bit of a first byte is set.
pub open spec fn sign_bit(first: u8) -> bool {
    first & 0x80 == 0x80
}

/// The large integer that bytes stand for: whether it is negative, and
/// the words of its magnitude, the least significant first. Bytes after
/// the last whole word are not looked at. `None` for no bytes.
pub open spec fn bigint_of(bytes: Seq<u8>) -> Option<(bool, Seq<u64>)> {
    if bytes.len() == 0 {
        None
    } else {
        let raw = sign_flipped(bytes, bytes.len() as int, sign_bit(bytes[0]));
        let count = (bytes.len() - 1) / 8;
        Some(
            (
                !sign_bit(bytes[0]),
                Seq::new(count as nat, |i: int| be_word(raw, 1 + 8 * (count - 1 - i))),
            ),
        )
    }
}

/// Writes a large integer as bytes.
pub fn bigint_to_bytes(negative: bool, words: &Vec<u64>) -> (bytes: Vec<u8>)
    ensures
        bytes@ == bigint_bytes(negative, words@),
{
    let mut bytes: Vec<u8> = Vec::new();
    bytes.push(if negative { 0x80 } else { 0 });
    let n = words.len();
    let mut j: usize = 0;
    while j < n
        invariant
            j <= n,
            n == words@.len(),
            bytes@ == seq![if negative { 0x80u8 } else { 0u8 }] + Seq::new(
                (8 * j) as nat,
                |p: int| be_bytes(words@[words@.len() - 1 - p / 8])[p % 8],
            ),
        decreases n - j,
    {
        let ghost before = bytes@;
        let w = words[n - 1 - j];
        push_be_bytes(&mut bytes, w);
        proof {
            let now = seq![if negative { 0x80u8 } else { 0u8 }] + Seq::new(
                (8 * (j + 1)) as nat,
                |p: int| be_bytes(words@[words@.len() - 1 - p / 8])[p % 8],
            );
            assert(bytes@.len() == now.len());
            assert forall|p: int| 0 <= p < now.len() implies bytes@[p] == now[p] by {
                if p >= before.len() {
                    let q = p - 1;
                    assert(q / 8 == j);
                    assert(bytes@[p] == be_bytes(w)[q % 8]);
                } else {
                    assert(bytes@[p] == before[p]);
                }
            }
            assert(bytes@ =~= now);
        }
        j += 1;
    }
    let len = bytes.len();
    assert(bytes@ =~= bigint_raw(negative, words@));
    flip_sign(bytes.as_mut_slice(), len, !negative);
    bytes
}

/// Reads a large integer from its bytes.
pub fn bigint_from_bytes(bytes: &Vec<u8>) -> (r: Result<(bool, Vec<u64>), GlueError>)
    ensures
        r is Ok <==> bigint_of(bytes@) is Some,
        r matches Ok(n) ==> Some((n.0, n.1@)) == bigint_of(bytes@),
        r matches Err(e) ==> e@ == glue_error(GlueErrorCode::InvalidLength, "0"@),
{
    if bytes.len() == 0 {
        return Err(
            GlueError::for_glue_with_extra(GlueErrorCode::InvalidLength, String::from_str("0")),
        );
    }
    let mut raw = bytes.clone();
    let byte_length = raw.len();
    let sign = raw[0] & 0x80 == 0x80;
    flip_sign(raw.as_mut_slice(), byte_length, sign);
    let word_count = (byte_length - 1) / 8;
    let mut words: Vec<u64> = Vec::with_capacity(word_count);
    let mut i: usize = 0;
    while i < word_count
        invariant
            i <= word_count,
            word_count == (raw@.len() - 1) / 8,
            raw@.len() > 0,
            raw@.len() == byte_length,
            words@.len() == i,
            forall|k: int|
                0 <= k < i ==> #[trigger] words@[k] == be_word(raw@, 1 + 8 * (word_count - 1 - k)),
        decreases word_count - i,
    {
        assert(8 * word_count <= byte_length - 1);
        words.push(read_be_word(&raw, 1 + 8 * (word_count - 1 - i)));
        i += 1;
    }
    let ghost expected = bigint_of(bytes@)->0;
    assert(words@ =~= expected.1);
    Ok((!sign, words))
}

/// A large integer is read back from its bytes as it was written.
pub proof fn lemma_bigint_round_trip(negative: bool, words: Seq<u64>)
    ensures
        bigint_of(bigint_bytes(negative, words)) == Some((negative, words)),
{
    let raw = bigint_raw(negative, words);
    let len = 1 + 8 * words.len();
    let bytes = bigint_bytes(negative, words);
    assert(raw.len() == len);
    assert(bytes.len() == len);
    let first = raw[0];
    if negative {
        assert(first == 0x80u8);
        assert(bytes[0] == first ^ 0xff);
        assert(!sign_bit(0x80u8 ^ 0xff)) by (bit_vector);
    } else {
        assert(first == 0u8);
        assert(bytes[0] == first ^ 0x80);
        assert(sign_bit(0u8 ^ 0x80)) by (bit_vector);
    }
    assert(sign_bit(bytes[0]) == !negative);
    lemma_flip_sign_twice(raw, len as int, !negative);
    let back = sign_flipped(bytes, bytes.len() as int, sign_bit(bytes[0]));
    assert(back == raw);
    let count = (bytes.len() - 1) / 8;
    assert(count == words.len());
    let (sign, read) = bigint_of(bytes)->0;
    assert forall|i: int| 0 <= i < words.len() implies read[i] == words[i] by {
        let at = 1 + 8 * (count - 1 - i);
        lemma_be_word(words[i]);
        assert forall|k: int| 0 <= k < 8 implies raw[at + k] == be_bytes(words[i])[k] by {
            let p = at + k - 1;
            assert(p / 8 == count - 1 - i);
            assert(p % 8 == k);
        }
        assert(be_word(raw, at) == be_word(be_bytes(words[i]), 0));
    }
    assert(read =~= words);
}

/// The bytes of a double, given by its bits. They order as the numbers
/// do: the sign is flipped, for a positive number in the sign bit and for
/// a negative one in every bit.
pub open spec fn double_bytes(bits: u64) -> Seq<u8> {
    sign_flipped(be_bytes(bits), 8, !sign_bit(be_bytes(bits)[0]))
}

/// The bits of the double that the first eight bytes stand for. `None`
/// for fewer bytes.
pub open spec fn double_of(bytes: Seq<u8>) -> Option<u64> {
    if bytes.len() < 8 {
        None
    } else {
        Some(be_word(sign_flipped(bytes.take(8), 8, sign_bit(bytes[0])), 0))
    }
}

/// Writes a double, given by its bits, as bytes.
pub fn double_to_bytes(bits: u64) -> (bytes: Vec<u8>)
    ensures
        bytes@ == double_bytes(bits),
{
    let mut bytes: Vec<u8> = Vec::new();
    push_be_bytes(&mut bytes, bits);
    assert(bytes@ =~= be_bytes(bits));
    let positive = bytes[0] & 0x80 != 0x80;
    flip_sign(bytes.as_mut_slice(), 8, positive);
    bytes
}

/// Reads the bits of a double from its bytes.
pub fn double_from_bytes(bytes: &Vec<u8>) -> (r: Result<u64, GlueError>)
    ensures
        r is Ok <==> double_of(bytes@) is Some,
        r matches Ok(bits) ==> Some(bits) == double_of(bytes@),
        r matches Err(e) ==> e@ == glue_error(GlueErrorCode::InvalidLength, "8"@),
{
    if bytes.len() < 8 {
        return Err(
            GlueError::for_glue_with_extra(GlueErrorCode::InvalidLength, String::from_str("8")),
        );
    }
    let mut double_bytes = bytes.clone();
    double_bytes.truncate(8);
    let positive = double_bytes[0] & 0x80 == 0x80;
    flip_sign(double_bytes.as_mut_slice(), 8, positive);
    Ok(read_be_word(&double_bytes, 0))
}

/// A double is read back from its bytes as it was written.
pub proof fn lemma_double_round_trip(bits: u64)
    ensures
        double_of(double_bytes(bits)) == Some(bits),
{
    let raw = be_bytes(bits);
    let first = raw[0];
    let positive = !sign_bit(first);
    let bytes = double_bytes(bits);
    if positive {
        assert(bytes[0] == first ^ 0x80);
        assert(first & 0x80 != 0x80 ==> (first ^ 0x80) & 0x80 == 0x80) by (bit_vector);
    } else {
        assert(bytes[0] == first ^ 0xff);
        assert(first & 0x80 == 0x80 ==> (first ^ 0xff) & 0x80 != 0x80) by (bit_vector);
    }
    assert(sign_bit(bytes[0]) == positive);
    lemma_flip_sign_twice(raw, 8, positive);
    assert(bytes.take(8) =~= bytes);
    lemma_be_word(bits);
}

/// A column value as the host language takes it.
#[derive(Clone, Debug)]
pub enum HostValue {
    /// A string, given by its Latin-1 bytes.
    Latin1(Vec<u8>),
    Int32(i32),
    Uint32(u32),
    Buffer(Vec<u8>),
    BigInt64(i64),
    BigIntU64(u64),
    Boolean(bool),
    /// A large integer, given by its sign and the words of its magnitude,
    /// the least significant first.
    BigInt { negative: bool, words: Vec<u64> },
    /// A double, given by its bits.
    Double { bits: u64 },
}

/// A host value with sequences in place of its vectors.
pub enum HostValueView {
    Latin1(Seq<u8>),
    Int32(i32),
    Uint32(u32),
    Buffer(Seq<u8>),
    BigInt64(i64),
    BigIntU64(u64),
    Boolean(bool),
    BigInt { negative: bool, words: Seq<u64> },
    Double { bits: u64 },
}

impl View for HostValue {
    type V = HostValueView;

    open spec fn view(&self) -> HostValueView {
        match self {
            HostValue::Latin1(b) => HostValueView::Latin1(b@),
            HostValue::Int32(n) => HostValueView::Int32(*n),
            HostValue::Uint32(n) => HostValueView::Uint32(*n),
            HostValue::Buffer(b) => HostValueView::Buffer(b@),
            HostValue::BigInt64(n) => HostValueView::BigInt64(*n),
            HostValue::BigIntU64(n) => HostValueView::BigIntU64(*n),
            HostValue::Boolean(b) => HostValueView::Boolean(*b),
            HostValue::BigInt { negative, words } => HostValueView::BigInt {
                negative: *negative,
                words: words@,
            },
            HostValue::Double { bits } => HostValueView::Double { bits: *bits },
        }
    }
}

/// The error for a value that was not read as bytes.
pub open spec fn no_bytes() -> GlueErrorView {
    glue_error(GlueErrorCode::AccessEmptyBox, " getting byte array"@)
}

/// The error for a value that was not read as a number.
pub open spec fn no_number() -> GlueErrorView {
    glue_error(GlueErrorCode::AccessEmptyBox, " getting uint"@)
}

/// What the host is given for bytes read under a format that is read as
/// bytes.
pub open spec fn host_bytes(format: char, b: Seq<u8>) -> Result<HostValueView, GlueErrorView> {
    if format == 'S' {
        Ok(HostValueView::Latin1(b))
    } else if format == 's' {
        Ok(HostValueView::Latin1(b.take(latin_length(b))))
    } else if format == 'z' {
        match bigint_of(b) {
            Some(n) => Ok(HostValueView::BigInt { negative: n.0, words: n.1 }),
            None => Err(glue_error(GlueErrorCode::InvalidLength, "0"@)),
        }
    } else if format == 'd' {
        match double_of(b) {
            Some(bits) => Ok(HostValueView::Double { bits }),
            None => Err(glue_error(GlueErrorCode::InvalidLength, "8"@)),
        }
    } else {
        Ok(HostValueView::Buffer(b))
    }
}

/// What the host is given for a number read under a format that is read
/// as a number.
pub open spec fn host_number(format: char, u: u64) -> HostValueView {
    if format == 'i' || format == 'l' || format == 'b' || format == 'h' {
        HostValueView::Int32(u as i32)
    } else if format == 'I' || format == 'L' || format == 't' || format == 'B' || format == 'H' {
        HostValueView::Uint32(u as u32)
    } else if format == 'q' {
        HostValueView::BigInt64(u as i64)
    } else if format == 'T' {
        HostValueView::Boolean(u == 1)
    } else {
        HostValueView::BigIntU64(u)
    }
}

/// Whether a format gives bytes to the host.
pub open spec fn gives_bytes(format: char) -> bool {
    format == 'S' || format == 's' || format == 'u' || format == 'U' || format == 'z' || format
        == 'd'
}

/// Whether a format gives a number to the host.
pub open spec fn gives_number(format: char) -> bool {
    format == 'i' || format == 'l' || format == 'b' || format == 'h' || format == 'I' || format
        == 'L' || format == 't' || format == 'B' || format == 'H' || format == 'q' || format == 'Q'
        || format == 'r' || format == 'T'
}

/// What the host is given for a value that was read under a format: text
/// for strings and character arrays, numbers of the width of the format,
/// a buffer for an item, and the number that the bytes of a large integer
/// or of a double stand for. A format that gives nothing is a mismatch
/// with the kind of the value.
pub open spec fn host_value_of(value: QueryValueView, format: char) -> Result<
    HostValueView,
    GlueErrorView,
> {
    if gives_bytes(format) {
        match value.internal_value {
            InternalValueView::ByteArrayBox(b) => host_bytes(format, b),
            _ => Err(no_bytes()),
        }
    } else if gives_number(format) {
        match value.internal_value {
            InternalValueView::UInt(u) => Ok(host_number(format, u)),
            _ => Err(no_number()),
        }
    } else {
        Err(
            glue_error(
                GlueErrorCode::InvalidDataForFormat,
                mismatch_text(format, Seq::empty().push(value.data_type)),
            ),
        )
    }
}

/// Gives a value that was read under a format to the host.
pub fn value_out(value: &QueryValue, format: &Format) -> (r: Result<HostValue, GlueError>)
    ensures
        match host_value_of(value@, format.format) {
            Ok(host) => r matches Ok(h) && h@ == host,
            Err(error) => r matches Err(e) && e@ == error,
        },
{
    let f = format.format;
    if f == 'S' || f == 's' || f == 'u' || f == 'U' || f == 'z' || f == 'd' {
        let bytes = value.get_byte_array()?;
        if f == 'S' {
            Ok(HostValue::Latin1(bytes.clone()))
        } else if f == 's' {
            Ok(HostValue::Latin1(latin_string_from_bytes(bytes)))
        } else if f == 'z' {
            let (negative, words) = bigint_from_bytes(bytes)?;
            Ok(HostValue::BigInt { negative, words })
        } else if f == 'd' {
            let bits = double_from_bytes(bytes)?;
            Ok(HostValue::Double { bits })
        } else {
            Ok(HostValue::Buffer(bytes.clone()))
        }
    } else if f == 'i' || f == 'l' || f == 'b' || f == 'h' || f == 'I' || f == 'L' || f == 't' || f
        == 'B' || f == 'H' || f == 'q' || f == 'Q' || f == 'r' || f == 'T' {
        let u = *value.get_uint()?;
        if f == 'i' || f == 'l' || f == 'b' || f == 'h' {
            Ok(HostValue::Int32(#[verifier::truncate] (u as i32)))
        } else if f == 'I' || f == 'L' || f == 't' || f == 'B' || f == 'H' {
            Ok(HostValue::Uint32(#[verifier::truncate] (u as u32)))
        } else if f == 'q' {
            Ok(HostValue::BigInt64(#[verifier::truncate] (u as i64)))
        } else if f == 'T' {
            Ok(HostValue::Boolean(u == 1))
        } else {
            Ok(HostValue::BigIntU64(u))
        }
    } else {
        let mut kind = String::new();
        string_push(&mut kind, value.data_type);
        Err(mismatch(f, kind.as_str()))
    }
}

/// The error for a second column without a value.
pub open spec fn padding_in_the_middle() -> Seq<char> {
    "Can't have a padding field in the middle of the format"@
}

/// The values of a key or a row as the host gave them, among the first
/// `n`: each value that was taken in, in order. A column without a value
/// (a padding column, or a value left undefined) is kept as an empty
/// value where padding is included; else the first such column is left
/// out.
pub open spec fn taken_values(
    values: Seq<Option<QueryValue>>,
    include_padding: bool,
    n: int,
) -> Seq<QueryValueView>
    decreases n,
{
    if n <= 0 {
        Seq::empty()
    } else {
        match values[n - 1] {
            Some(v) => taken_values(values, include_padding, n - 1).push(v@),
            None => if include_padding {
                taken_values(values, include_padding, n - 1).push(
                    QueryValueView {
                        data_type: 'x',
                        external_value: ExternalValueView::Unset,
                        internal_value: InternalValueView::Unset,
                    },
                )
            } else {
                taken_values(values, include_padding, n - 1)
            },
        }
    }
}

/// The number of columns without a value among the first `n`.
pub open spec fn missing_values(values: Seq<Option<QueryValue>>, n: int) -> nat
    decreases n,
{
    if n <= 0 {
        0
    } else if values[n - 1] is None {
        missing_values(values, n - 1) + 1
    } else {
        missing_values(values, n - 1)
    }
}

/// The error for values that are not as many as the columns of their
/// format.
pub open spec fn length_mismatch_text(given: nat, expected: nat) -> Seq<char> {
    "Invalid length: "@ + "Length "@ + decimal(given) + " is invalid for format size "@
        + decimal(expected)
}

/// Collects the values of a key or a row that were taken in from the
/// host. There must be one for each column of the format; without
/// padding, at most one column may be without a value.
pub fn extract_values(values: Vec<Option<QueryValue>>, formats: &Vec<Format>, include_padding: bool) -> (r:
    Result<Vec<QueryValue>, String>)
    ensures
        r is Ok <==> values@.len() == formats@.len() && (include_padding || missing_values(
            values@,
            values@.len() as int,
        ) <= 1),
        r matches Ok(converted) ==> views(converted@) == taken_values(
            values@,
            include_padding,
            values@.len() as int,
        ),
        r matches Err(text) ==> text@ == (if values@.len() != formats@.len() {
            length_mismatch_text(values@.len(), formats@.len())
        } else {
            padding_in_the_middle()
        }),
{
    if values.len() != formats.len() {
        let mut text = String::from_str("Invalid length: ").concat("Length ");
        push_decimal(&mut text, values.len() as u64);
        let mut text = text.concat(" is invalid for format size ");
        push_decimal(&mut text, formats.len() as u64);
        return Err(text);
    }
    let mut converted: Vec<QueryValue> = Vec::new();
    let mut seen_padding = false;
    let mut i: usize = 0;
    assert(views(converted@) =~= Seq::empty());
    while i < values.len()
        invariant
            i <= values.len(),
            values@.len() == formats@.len(),
            views(converted@) == taken_values(values@, include_padding, i as int),
            seen_padding == (missing_values(values@, i as int) >= 1),
            include_padding || missing_values(values@, i as int) <= 1,
        decreases values.len() - i,
    {
        let ghost before = views(converted@);
        match &values[i] {
            Some(qv) => {
                let copy = qv.duplicate();
                converted.push(copy);
                assert(views(converted@) =~= before.push(copy@));
            },
            None => {
                if include_padding {
                    let empty = QueryValue::empty();
                    converted.push(empty);
                    assert(views(converted@) =~= before.push(empty@));
                    seen_padding = true;
                } else if seen_padding {
                    proof {
                        lemma_missing_values_grow(values@, i as int + 1, values@.len() as int);
                    }
                    return Err(
                        String::from_str("Can't have a padding field in the middle of the format"),
                    );
                } else {
                    seen_padding = true;
                }
            },
        }
        i += 1;
    }
    Ok(converted)
}

/// More columns are without a value among more columns.
pub proof fn lemma_missing_values_grow(values: Seq<Option<QueryValue>>, n: int, m: int)
    requires
        n <= m,
    ensures
        missing_values(values, n) <= missing_values(values, m),
    decreases m - n,
{
    if n < m {
        lemma_missing_values_grow(values, n, m - 1);
    }
}

} // verus!
