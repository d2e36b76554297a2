//! Format strings, tokenizers and small helpers.

use vstd::prelude::*;
use vstd::string::*;
use vstd::slice::*;
use crate::error::{GlueError, GlueErrorCode, GlueErrorView, glue_error};
use crate::query_value::{FieldFormat, Format, nul_from, until_nul};
use crate::wt_item::{
    WT_CONFIG_ITEM, WT_CONFIG_ITEM_BOOL, WT_CONFIG_ITEM_STRUCT, WT_CONFIG_ITEM_VIEW,
};

verus! {

/// Whether a format code names one of the raw item formats.
pub open spec fn is_wt_item(field: char) -> bool {
    field == 'u' || field == 'U' || field == 'd' || field == 'z'
}

/// Tells whether a column with this format code is stored as a raw item.
#[inline(always)]
pub fn field_is_wt_item(field: char) -> (r: bool)
    ensures
        r == is_wt_item(field),
{
    field == FieldFormat::WT_ITEM || field == FieldFormat::WT_UITEM || field
        == FieldFormat::WT_ITEM_DOUBLE || field == FieldFormat::WT_ITEM_BIGINT
}

/// The value behind an engine function slot, or the error for an empty one.
#[inline(always)]
pub fn get_fn<T>(fn_prop: Option<T>) -> (r: Result<T, GlueError>)
    ensures
        fn_prop is Some <==> r is Ok,
        r matches Ok(f) ==> fn_prop == Some(f),
        r matches Err(e) ==> e@ == glue_error(GlueErrorCode::ImpossibleNoFn, Seq::empty()),
{
    match fn_prop {
        Some(f) => Ok(f),
        None => Err(GlueError::for_glue(GlueErrorCode::ImpossibleNoFn)),
    }
}

/// The value of an option, or the error for a missing value.
pub fn unwrap_or_throw<T>(thing: Option<T>) -> (r: Result<T, GlueError>)
    ensures
        thing is Some <==> r is Ok,
        r matches Ok(t) ==> thing == Some(t),
        r matches Err(e) ==> e@ == glue_error(GlueErrorCode::UnlikelyNoValue, Seq::empty()),
{
    match thing {
        Some(a_thing) => Ok(a_thing),
        None => Err(GlueError::for_glue(GlueErrorCode::UnlikelyNoValue)),
    }
}

/// Whether a character is a decimal digit.
pub open spec fn is_digit(c: char) -> bool {
    '0' <= c <= '9'
}

/// The value of a decimal digit.
pub open spec fn digit_value(c: char) -> nat {
    (c as u32 - '0' as u32) as nat
}

/// The column that a format code stands for, given the size written before
/// it; `None` for a character that is no format code. A fixed-width number
/// has no size, and a character array has at least one byte.
pub open spec fn column_of(c: char, size: nat) -> Option<Format> {
    if c == 's' {
        Some(Format { format: c, size: (if size < 1 { 1 } else { size }) as u64 })
    } else if c == 'b' || c == 'h' || c == 'i' || c == 'l' || c == 'q' || c == 'B' || c == 'H' || c
        == 'I' || c == 'L' || c == 'Q' || c == 'r' {
        Some(Format { format: c, size: 0 })
    } else if c == 't' || c == 'S' || c == 'u' || c == 'U' || c == 'z' || c == 'd' || c == 'T' || c
        == 'x' {
        Some(Format { format: c, size: size as u64 })
    } else {
        None
    }
}

/// How the reading of a format string ended.
pub enum FormatEnd {
    /// The whole string was read.
    Complete,
    /// This character is no format code.
    Unrecognised(char),
    /// A size does not fit in 32 bits.
    Oversized,
}

/// The columns read from `chars[i..]`, with `size` the value of the digits
/// just before `i`, and how the reading ended. Reading stops at the first
/// character that is no digit and no format code, and at a size that does
/// not fit in 32 bits. Digits at the end of the string stand for nothing.
pub open spec fn parse_from(chars: Seq<char>, i: int, size: nat) -> (Seq<Format>, FormatEnd)
    decreases chars.len() - i,
{
    if i < 0 || i >= chars.len() {
        (Seq::empty(), FormatEnd::Complete)
    } else if is_digit(chars[i]) {
        if size * 10 + digit_value(chars[i]) > u32::MAX {
            (Seq::empty(), FormatEnd::Oversized)
        } else {
            parse_from(chars, i + 1, size * 10 + digit_value(chars[i]))
        }
    } else {
        match column_of(chars[i], size) {
            Some(f) => {
                let (rest, end) = parse_from(chars, i + 1, 0);
                (seq![f] + rest, end)
            },
            None => (Seq::empty(), FormatEnd::Unrecognised(chars[i])),
        }
    }
}

/// The columns of a whole format string.
pub open spec fn parsed_format(chars: Seq<char>) -> (Seq<Format>, FormatEnd) {
    parse_from(chars, 0, 0)
}

/// The error that the reading of a format string ended with, if any.
pub open spec fn format_error(text: Seq<char>) -> Option<GlueErrorView> {
    match parsed_format(text).1 {
        FormatEnd::Complete => None,
        FormatEnd::Unrecognised(c) => Some(
            glue_error(GlueErrorCode::InvalidFormat, ": "@.push(c)),
        ),
        FormatEnd::Oversized => Some(glue_error(GlueErrorCode::InvalidLength, text)),
    }
}

/// Appends a character to a string.
///
/// Trusted: `String::push` of std, which appends the given character to the
/// end of the string.
#[verifier::external_body]
pub(crate) fn string_push(s: &mut String, c: char)
    ensures
        final(s)@ == old(s)@.push(c),
{
    s.push(c);
}

/// Reads a format string and appends its columns to `formats`. The columns
/// read before a failure are appended too.
pub fn parse_format(format: String, formats: &mut Vec<Format>) -> (r: Result<(), GlueError>)
    ensures
        final(formats)@ == old(formats)@ + parsed_format(format@).0,
        r is Ok <==> parsed_format(format@).1 is Complete,
        parsed_format(format@).1 matches FormatEnd::Unrecognised(c) ==> (r matches Err(e) && e@
            == glue_error(GlueErrorCode::InvalidFormat, ": "@.push(c))),
        parsed_format(format@).1 is Oversized ==> (r matches Err(e) && e@ == glue_error(
            GlueErrorCode::InvalidLength,
            format@,
        )),
{
    let mut size: u32 = 0;
    let n = format.as_str().unicode_len();
    let mut i: usize = 0;
    while i < n
        invariant
            n == format@.len(),
            i <= n,
            parsed_format(format@) == ({
                let (rest, end) = parse_from(format@, i as int, size as nat);
                ((formats@.subrange(old(formats)@.len() as int, formats@.len() as int) + rest), end)
            }),
            formats@.len() >= old(formats)@.len(),
            formats@.subrange(0, old(formats)@.len() as int) == old(formats)@,
        decreases n - i,
    {
        let c = format.as_str().get_char(i);
        let ghost before = formats@;
        if c >= '0' && c <= '9' {
            let d: u32 = c as u32 - '0' as u32;
            if size > (u32::MAX - d) / 10 {
                proof {
                    assert(formats@ =~= old(formats)@ + parsed_format(format@).0);
                }
                return Err(GlueError::for_glue_with_extra(GlueErrorCode::InvalidLength, format));
            }
            size = size * 10 + d;
            i += 1;
            continue ;
        }
        let column = if c == FieldFormat::CHAR_ARRAY {
            Some(Format { format: c, size: if size < 1 { 1 } else { size as u64 } })
        } else if c == FieldFormat::BYTE || c == FieldFormat::HALF || c == FieldFormat::INT || c
            == FieldFormat::INT2 || c == FieldFormat::LONG || c == FieldFormat::UBYTE || c
            == FieldFormat::UHALF || c == FieldFormat::UINT || c == FieldFormat::UINT2 || c
            == FieldFormat::ULONG || c == FieldFormat::RECID {
            Some(Format { format: c, size: 0 })
        } else if c == FieldFormat::BITFIELD || c == FieldFormat::STRING || c
            == FieldFormat::WT_ITEM || c == FieldFormat::WT_UITEM || c
            == FieldFormat::WT_ITEM_BIGINT || c == FieldFormat::WT_ITEM_DOUBLE || c
            == FieldFormat::BOOLEAN || c == FieldFormat::PADDING {
            Some(Format { format: c, size: size as u64 })
        } else {
            None
        };
        assert(column == column_of(c, size as nat));
        match column {
            Some(f) => {
                formats.push(f);
                proof {
                    let (rest, end) = parse_from(format@, i as int + 1, 0);
                    let start = old(formats)@.len() as int;
                    assert(formats@.subrange(start, formats@.len() as int) + rest
                        =~= before.subrange(start, before.len() as int) + (seq![f] + rest));
                    assert(formats@.subrange(0, start) =~= before.subrange(0, start));
                }
            },
            None => {
                proof {
                    assert(formats@ =~= old(formats)@ + parsed_format(format@).0);
                }
                let mut extra = String::from_str(": ");
                string_push(&mut extra, c);
                return Err(GlueError::for_glue_with_extra(GlueErrorCode::InvalidFormat, extra));
            },
        }
        size = 0;
        i += 1;
    }
    proof {
        assert(formats@ =~= old(formats)@ + parsed_format(format@).0);
    }
    Ok(())
}

/// The character of a decimal digit.
pub open spec fn digit_char(d: nat) -> char
    recommends
        d < 10,
{
    ((48 + d) as u8) as char
}

/// A number written in decimal, without leading zeros.
pub open spec fn decimal(n: nat) -> Seq<char>
    decreases n,
{
    if n < 10 {
        seq![digit_char(n)]
    } else {
        decimal(n / 10).push(digit_char(n % 10))
    }
}

/// Appends a number, written in decimal, to a string.
pub fn push_decimal(s: &mut String, n: u64)
    ensures
        final(s)@ == old(s)@ + decimal(n as nat),
    decreases n,
{
    if n >= 10 {
        push_decimal(s, n / 10);
    }
    let d: u8 = (n % 10) as u8;
    string_push(s, (48 + d) as char);
    proof {
        assert(final(s)@ =~= old(s)@ + decimal(n as nat));
    }
}

/// One column written back as text: its size unless that is 0, then its
/// code, with `u` for every raw item format.
pub open spec fn column_text(f: Format) -> Seq<char> {
    (if f.size != 0 {
        decimal(f.size as nat)
    } else {
        Seq::empty()
    }).push(
        if is_wt_item(f.format) {
            'u'
        } else {
            f.format
        },
    )
}

/// The text of the first `n` columns of a format.
pub open spec fn formats_text(formats: Seq<Format>, n: int) -> Seq<char>
    decreases n,
{
    if n <= 0 {
        Seq::empty()
    } else {
        formats_text(formats, n - 1) + column_text(formats[n - 1])
    }
}

/// Writes a parsed format back as a format string.
pub fn formats_to_string(formats: &Vec<Format>) -> (text: String)
    ensures
        text@ == formats_text(formats@, formats@.len() as int),
{
    let mut text = String::new();
    let mut i: usize = 0;
    while i < formats.len()
        invariant
            i <= formats.len(),
            text@ == formats_text(formats@, i as int),
        decreases formats.len() - i,
    {
        let format = formats[i];
        if format.size != 0 {
            push_decimal(&mut text, format.size);
        }
        if field_is_wt_item(format.format) {
            string_push(&mut text, 'u');
        } else {
            string_push(&mut text, format.format);
        }
        proof {
            assert(text@ =~= formats_text(formats@, i as int) + column_text(formats@[i as int]));
        }
        i += 1;
    }
    text
}

/// A buffer after its sign was flipped: for a positive number the top bit
/// of the first byte is inverted, for a negative one every bit of the first
/// `bytes` bytes.
pub open spec fn sign_flipped(buffer: Seq<u8>, bytes: int, positive: bool) -> Seq<u8> {
    if positive {
        buffer.update(0, buffer[0] ^ 0x80)
    } else {
        Seq::new(buffer.len(), |i: int| if i < bytes { buffer[i] ^ 0xff } else { buffer[i] })
    }
}

/// Turns a big-endian two's-complement-like buffer into one whose bytes
/// order as the numbers do, and back.
pub fn flip_sign(buffer: &mut [u8], bytes: usize, positive: bool)
    requires
        positive ==> old(buffer)@.len() > 0,
        !positive ==> bytes <= old(buffer)@.len(),
    ensures
        final(buffer)@ == sign_flipped(old(buffer)@, bytes as int, positive),
{
    if positive {
        let b = buffer[0];
        buffer[0] = b ^ 0x80;
    } else {
        let mut i: usize = 0;
        while i < bytes
            invariant
                i <= bytes <= buffer@.len(),
                buffer@.len() == old(buffer)@.len(),
                forall|j: int| 0 <= j < i ==> buffer@[j] == old(buffer)@[j] ^ 0xff,
                forall|j: int| i <= j < buffer@.len() ==> buffer@[j] == old(buffer)@[j],
            decreases bytes - i,
        {
            let b = buffer[i];
            buffer[i] = b ^ 0xff;
            i += 1;
        }
        proof {
            assert(buffer@ =~= sign_flipped(old(buffer)@, bytes as int, positive));
        }
    }
}

/// Flipping the sign twice, for the same sign, gives the buffer back.
pub proof fn lemma_flip_sign_twice(buffer: Seq<u8>, bytes: int, positive: bool)
    requires
        positive ==> buffer.len() > 0,
        !positive ==> 0 <= bytes <= buffer.len(),
    ensures
        sign_flipped(sign_flipped(buffer, bytes, positive), bytes, positive) == buffer,
{
    let once = sign_flipped(buffer, bytes, positive);
    let twice = sign_flipped(once, bytes, positive);
    if positive {
        let b = buffer[0];
        assert((b ^ 0x80) ^ 0x80 == b) by (bit_vector);
        assert(twice =~= buffer);
    } else {
        assert forall|i: int| 0 <= i < buffer.len() implies twice[i] == buffer[i] by {
            let b = buffer[i];
            assert((b ^ 0xff) ^ 0xff == b) by (bit_vector);
        }
        assert(twice =~= buffer);
    }
}

/// The bytes that separate tokens: the space and the control characters
/// from tab to carriage return.
pub open spec fn is_whitespace(b: u8) -> bool {
    b == 0x20 || (0x09 <= b <= 0x0d)
}

/// The tokens of `bytes[start..]`, where the first of them began at `start`
/// and has no whitespace before `i`.
pub open spec fn tokens_from(bytes: Seq<u8>, start: int, i: int) -> Seq<Seq<u8>>
    decreases bytes.len() - i,
{
    if i < 0 || i >= bytes.len() {
        seq![bytes.subrange(start, bytes.len() as int)]
    } else if is_whitespace(bytes[i]) {
        seq![bytes.subrange(start, i)] + tokens_from(bytes, i + 1, i + 1)
    } else {
        tokens_from(bytes, start, i + 1)
    }
}

/// The tokens of a text: the runs of bytes between its whitespace bytes,
/// in order. Each whitespace byte ends one token and starts the next, so
/// two of them in a row, or one at either end, give an empty token, and
/// the empty text has one empty token.
pub open spec fn words(bytes: Seq<u8>) -> Seq<Seq<u8>> {
    tokens_from(bytes, 0, 0)
}

/// The number of whitespace bytes of `bytes[i..]`.
pub open spec fn whitespace_count(bytes: Seq<u8>, i: int) -> nat
    decreases bytes.len() - i,
{
    if i < 0 || i >= bytes.len() {
        0
    } else if is_whitespace(bytes[i]) {
        1 + whitespace_count(bytes, i + 1)
    } else {
        whitespace_count(bytes, i + 1)
    }
}

/// The tokens of a text: there is one more than the text has whitespace
/// bytes, and no token holds a whitespace byte.
pub proof fn lemma_tokens(bytes: Seq<u8>, start: int, i: int)
    requires
        0 <= start <= i <= bytes.len(),
        forall|j: int| start <= j < i ==> !is_whitespace(bytes[j]),
    ensures
        tokens_from(bytes, start, i).len() == whitespace_count(bytes, i) + 1,
        forall|t: int, j: int|
            0 <= t < tokens_from(bytes, start, i).len() && 0 <= j < tokens_from(
                bytes,
                start,
                i,
            )[t].len() ==> !is_whitespace(#[trigger] tokens_from(bytes, start, i)[t][j]),
    decreases bytes.len() - i,
{
    let tokens = tokens_from(bytes, start, i);
    if i >= bytes.len() {
        assert forall|t: int, j: int| 0 <= t < tokens.len() && 0 <= j < tokens[t].len() implies
            !is_whitespace(#[trigger] tokens[t][j]) by {
            assert(tokens[t][j] == bytes[start + j]);
        }
    } else if is_whitespace(bytes[i]) {
        lemma_tokens(bytes, i + 1, i + 1);
        let rest = tokens_from(bytes, i + 1, i + 1);
        assert forall|t: int, j: int| 0 <= t < tokens.len() && 0 <= j < tokens[t].len() implies
            !is_whitespace(#[trigger] tokens[t][j]) by {
            if t == 0 {
                assert(tokens[t][j] == bytes[start + j]);
            } else {
                assert(tokens[t] == rest[t - 1]);
            }
        }
    } else {
        lemma_tokens(bytes, start, i + 1);
    }
}

/// The words of a text: there is one more than the text has whitespace
/// bytes, and no word holds a whitespace byte.
pub proof fn lemma_words(bytes: Seq<u8>)
    ensures
        words(bytes).len() == whitespace_count(bytes, 0) + 1,
        forall|t: int, j: int|
            0 <= t < words(bytes).len() && 0 <= j < words(bytes)[t].len() ==> !is_whitespace(
                #[trigger] words(bytes)[t][j],
            ),
{
    lemma_tokens(bytes, 0, 0);
}

/// The n-grams of a token that is longer than `n`: one for each place
/// where `n` bytes fit, each of `n` bytes, the `i`-th starting at the
/// `i`-th byte of the token.
pub proof fn lemma_ngrams_of(token: Seq<u8>, n: nat)
    requires
        token.len() > n,
    ensures
        ngrams_of(token, n).len() == token.len() - n + 1,
        forall|i: int|
            0 <= i < ngrams_of(token, n).len() ==> (#[trigger] ngrams_of(token, n)[i]).len() == n
                && forall|j: int| 0 <= j < n ==> ngrams_of(token, n)[i][j] == token[i + j],
{
}

/// The n-grams of one token: the token itself if it has at most `n` bytes,
/// else each of its windows of `n` bytes, from left to right.
pub open spec fn ngrams_of(token: Seq<u8>, n: nat) -> Seq<Seq<u8>> {
    if token.len() <= n {
        seq![token]
    } else {
        Seq::new((token.len() - n + 1) as nat, |i: int| token.subrange(i, i + n))
    }
}

/// The n-grams of the first `k` tokens, in order.
pub open spec fn ngrams_upto(tokens: Seq<Seq<u8>>, n: nat, k: int) -> Seq<Seq<u8>>
    decreases k,
{
    if k <= 0 {
        Seq::empty()
    } else {
        ngrams_upto(tokens, n, k - 1) + ngrams_of(tokens[k - 1], n)
    }
}

/// The n-grams of a text: those of each of its tokens, in order.
pub open spec fn ngrams(bytes: Seq<u8>, n: nat) -> Seq<Seq<u8>> {
    ngrams_upto(words(bytes), n, words(bytes).len() as int)
}

/// The contents of a list of byte strings, one for one.
pub open spec fn byte_views(store: Seq<Vec<u8>>) -> Seq<Seq<u8>> {
    store.map_values(|v: Vec<u8>| v@)
}

/// Tells whether a byte separates tokens.
pub fn byte_is_whitespace(b: u8) -> (r: bool)
    ensures
        r == is_whitespace(b),
{
    b == 0x20 || (0x09 <= b && b <= 0x0d)
}

/// A copy of `bytes[from..to]`.
fn copy_range(bytes: &[u8], from: usize, to: usize) -> (copy: Vec<u8>)
    requires
        from <= to <= bytes@.len(),
    ensures
        copy@ == bytes@.subrange(from as int, to as int),
{
    vstd::slice::slice_to_vec(vstd::slice::slice_subrange(bytes, from, to))
}

/// Splits a text into its tokens and appends them to `ngram_store`.
pub fn extract_words_for_string(cstr: &[u8], ngram_store: &mut Vec<Vec<u8>>)
    ensures
        byte_views(final(ngram_store)@) == byte_views(old(ngram_store)@) + words(cstr@),
{
    let mut start: usize = 0;
    let mut i: usize = 0;
    while i < cstr.len()
        invariant
            start <= i <= cstr@.len(),
            byte_views(ngram_store@) + tokens_from(cstr@, start as int, i as int) == byte_views(
                old(ngram_store)@,
            ) + words(cstr@),
        decreases cstr@.len() - i,
    {
        if byte_is_whitespace(cstr[i]) {
            let ghost before = ngram_store@;
            let token = copy_range(cstr, start, i);
            ngram_store.push(token);
            proof {
                assert(byte_views(ngram_store@) =~= byte_views(before).push(token@));
                assert(byte_views(ngram_store@) + tokens_from(cstr@, i as int + 1, i as int + 1)
                    =~= byte_views(before) + tokens_from(cstr@, start as int, i as int));
            }
            start = i + 1;
        }
        i += 1;
    }
    let ghost before = ngram_store@;
    let token = copy_range(cstr, start, cstr.len());
    ngram_store.push(token);
    proof {
        assert(byte_views(ngram_store@) =~= byte_views(before).push(token@));
        assert(byte_views(ngram_store@) =~= byte_views(before) + tokens_from(
            cstr@,
            start as int,
            i as int,
        ));
    }
}

/// Splits a text into its tokens and appends the n-grams of each to
/// `ngram_store`.
pub fn extract_ngrams_for_string(cstr: &[u8], ngram_length: usize, ngram_store: &mut Vec<Vec<u8>>)
    ensures
        byte_views(final(ngram_store)@) == byte_views(old(ngram_store)@) + ngrams(
            cstr@,
            ngram_length as nat,
        ),
{
    let mut tokens: Vec<Vec<u8>> = Vec::new();
    extract_words_for_string(cstr, &mut tokens);
    assert(byte_views(tokens@) =~= words(cstr@));
    let mut k: usize = 0;
    while k < tokens.len()
        invariant
            k <= tokens.len(),
            byte_views(tokens@) == words(cstr@),
            byte_views(ngram_store@) == byte_views(old(ngram_store)@) + ngrams_upto(
                words(cstr@),
                ngram_length as nat,
                k as int,
            ),
        decreases tokens.len() - k,
    {
        let token = &tokens[k];
        let token_len = token.len();
        assert(token@ == words(cstr@)[k as int]);
        let ghost before = ngram_store@;
        if token_len <= ngram_length {
            ngram_store.push(token.clone());
            proof {
                assert(byte_views(ngram_store@) =~= byte_views(before) + ngrams_of(
                    token@,
                    ngram_length as nat,
                ));
            }
        } else {
            let last: usize = token_len - ngram_length;
            let mut i: usize = 0;
            loop
                invariant_except_break
                    i <= last,
                    byte_views(ngram_store@) == byte_views(before) + ngrams_of(
                        token@,
                        ngram_length as nat,
                    ).subrange(0, i as int),
                invariant
                    last == token_len - ngram_length,
                    token_len == token@.len(),
                    token_len > ngram_length,
                ensures
                    byte_views(ngram_store@) == byte_views(before) + ngrams_of(
                        token@,
                        ngram_length as nat,
                    ),
                decreases last - i,
            {
                let ghost inner = ngram_store@;
                let gram = copy_range(token.as_slice(), i, i + ngram_length);
                ngram_store.push(gram);
                proof {
                    assert(byte_views(ngram_store@) =~= byte_views(inner).push(gram@));
                    assert(byte_views(ngram_store@) =~= byte_views(before) + ngrams_of(
                        token@,
                        ngram_length as nat,
                    ).subrange(0, i as int + 1));
                }
                if i == last {
                    proof {
                        assert(ngrams_of(token@, ngram_length as nat).subrange(0, i as int + 1)
                            =~= ngrams_of(token@, ngram_length as nat));
                    }
                    break ;
                }
                i += 1;
            }
        }
        proof {
            assert(byte_views(ngram_store@) =~= byte_views(old(ngram_store)@) + ngrams_upto(
                words(cstr@),
                ngram_length as nat,
                k as int + 1,
            ));
        }
        k += 1;
    }
}

/// The first `len` bytes of `text`, or all of it where it is shorter.
pub open spec fn prefix(text: Seq<u8>, len: nat) -> Seq<u8> {
    if len < text.len() {
        text.take(len as int)
    } else {
        text
    }
}

/// The text of a configuration value: its bytes up to its length, or up to
/// the first zero byte before that. `None` for a value that was not found,
/// is empty, or is of no known kind.
pub open spec fn cfg_value(cfg: WT_CONFIG_ITEM_VIEW) -> Option<Seq<u8>> {
    if cfg.type_ > WT_CONFIG_ITEM_STRUCT || cfg.len == 0 || cfg.str_ is None {
        None
    } else {
        Some(until_nul(prefix(cfg.str_->0, cfg.len as nat)))
    }
}

/// The text of a configuration value without its first and its last byte,
/// which for a structure or a list are its brackets. `None` as for
/// `cfg_value`, and for a value too short to have both.
pub open spec fn cfg_value_trim_ends(cfg: WT_CONFIG_ITEM_VIEW) -> Option<Seq<u8>> {
    if cfg.type_ > WT_CONFIG_ITEM_STRUCT || cfg.len < 2 || cfg.str_ is None {
        None
    } else {
        Some(until_nul(prefix(after_first(cfg.str_->0), (cfg.len - 2) as nat)))
    }
}

/// A text without its first byte.
pub open spec fn after_first(text: Seq<u8>) -> Seq<u8> {
    if text.len() == 0 {
        text
    } else {
        text.skip(1)
    }
}

/// A copy of `text[from..]` up to `len` bytes, ending at the first zero
/// byte.
fn copy_text(text: &Vec<u8>, from: usize, len: u64) -> (copy: Vec<u8>)
    requires
        from <= text@.len(),
    ensures
        copy@ == until_nul(prefix(text@.skip(from as int), len as nat)),
{
    let ghost rest = text@.skip(from as int);
    let ghost bounded = prefix(rest, len as nat);
    let available = text.len() - from;
    let end: usize = if len < available as u64 {
        from + len as usize
    } else {
        text.len()
    };
    assert(bounded =~= text@.subrange(from as int, end as int));
    let mut i: usize = from;
    while i < end && text[i] != 0
        invariant
            from <= i <= end <= text@.len(),
            bounded == text@.subrange(from as int, end as int),
            nul_from(bounded, 0) == nul_from(bounded, i - from),
        decreases end - i,
    {
        i += 1;
    }
    let copy = copy_range(text.as_slice(), from, i);
    assert(copy@ =~= bounded.subrange(0, i - from));
    copy
}

/// Copies the text of a configuration value.
pub fn copy_cfg_value(cfg: &WT_CONFIG_ITEM) -> (value: Option<Vec<u8>>)
    ensures
        value is Some <==> cfg_value(cfg@) is Some,
        value matches Some(v) ==> Some(v@) == cfg_value(cfg@),
{
    if cfg.type_ > WT_CONFIG_ITEM_STRUCT || cfg.len == 0 {
        return None;
    }
    match &cfg.str_ {
        None => None,
        Some(text) => {
            assert(text@.skip(0) =~= text@);
            Some(copy_text(text, 0, cfg.len))
        },
    }
}

/// Copies the text of a configuration value without its first and last
/// byte.
pub fn copy_cfg_value_trim_ends(cfg: &WT_CONFIG_ITEM) -> (value: Option<Vec<u8>>)
    ensures
        value is Some <==> cfg_value_trim_ends(cfg@) is Some,
        value matches Some(v) ==> Some(v@) == cfg_value_trim_ends(cfg@),
{
    if cfg.type_ > WT_CONFIG_ITEM_STRUCT || cfg.len < 2 {
        return None;
    }
    match &cfg.str_ {
        None => None,
        Some(text) => {
            if text.len() == 0 {
                assert(prefix(after_first(text@), (cfg.len - 2) as nat) =~= Seq::<u8>::empty());
                return Some(Vec::new());
            }
            Some(copy_text(text, 1, cfg.len - 2))
        },
    }
}

/// The error for a setting that must be there and is not.
pub open spec fn missing_config(field_name: Seq<char>) -> GlueErrorView {
    glue_error(GlueErrorCode::MissingRequiredConfig, field_name)
}

/// Tells whether an optional boolean setting is set: it is when the
/// configuration holds it as a boolean.
pub fn get_optional_boolean(cfg: &WT_CONFIG_ITEM) -> (r: Result<bool, GlueError>)
    ensures
        r == Ok::<bool, GlueError>(cfg.type_ == WT_CONFIG_ITEM_BOOL),
{
    if cfg.type_ == WT_CONFIG_ITEM_BOOL {
        return Ok(true);
    }
    Ok(false)
}

/// The text of a setting that must be there.
pub fn get_mandatory_string(cfg: &WT_CONFIG_ITEM, field_name: &str) -> (r: Result<
    Vec<u8>,
    GlueError,
>)
    ensures
        r is Ok <==> cfg_value(cfg@) is Some,
        r matches Ok(v) ==> Some(v@) == cfg_value(cfg@),
        r matches Err(e) ==> e@ == missing_config(field_name@),
{
    match copy_cfg_value(cfg) {
        Some(value) => Ok(value),
        None => Err(
            GlueError::for_glue_with_extra(
                GlueErrorCode::MissingRequiredConfig,
                String::from_str(field_name),
            ),
        ),
    }
}

/// The text, without its brackets, of a setting that must be there.
pub fn get_mandatory_string_trim_ends(cfg: &WT_CONFIG_ITEM, field_name: &str) -> (r: Result<
    Vec<u8>,
    GlueError,
>)
    ensures
        r is Ok <==> cfg_value_trim_ends(cfg@) is Some,
        r matches Ok(v) ==> Some(v@) == cfg_value_trim_ends(cfg@),
        r matches Err(e) ==> e@ == missing_config(field_name@),
{
    match copy_cfg_value_trim_ends(cfg) {
        Some(value) => Ok(value),
        None => Err(
            GlueError::for_glue_with_extra(
                GlueErrorCode::MissingRequiredConfig,
                String::from_str(field_name),
            ),
        ),
    }
}

/// The text of a setting that may be missing.
pub fn get_optional_string(cfg: &WT_CONFIG_ITEM) -> (r: Result<Option<Vec<u8>>, GlueError>)
    ensures
        r matches Ok(value) && (value is Some <==> cfg_value(cfg@) is Some) && (value matches Some(
            v,
        ) ==> Some(v@) == cfg_value(cfg@)),
{
    Ok(copy_cfg_value(cfg))
}

} // verus!
