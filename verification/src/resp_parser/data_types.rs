//! The data types of the wire format: reading a bulk string off the front of
//! a buffer, and writing status lines, bulk strings and the null bulk string.

use vstd::prelude::*;
use vstd::slice::slice_subrange;
use crate::error::RespError;
use crate::resp_parser::shared::{
    ARRAYS_BYTE,
    BULK_STRINGS_BYTE,
    ERRORS_BYTE,
    SIMPLE_STRINGS_BYTE,
};
use crate::utils::{
    all_digits,
    append_bytes,
    ascii,
    ascii_bytes,
    crlf_at,
    decimal_digits,
    is_digit,
    lemma_decimal_digits,
    lemma_find_crlf_is,
    lemma_split_line_append,
    parse_decimal,
    parse_decimal_bounded,
    push_decimal,
    split_at_crlf,
    split_line,
    CR,
    LF,
};

verus! {

/// The line break that ends every line of the wire format.
pub open spec fn crlf() -> Seq<u8> {
    seq![CR, LF]
}

/// The bulk string at the front of `s` and the bytes that follow it: the
/// marker, the payload's length in decimal, a line break, the payload, and a
/// line break. There is none where `s` does not start this way.
pub open spec fn parse_bulk_string(s: Seq<u8>) -> Option<(Seq<u8>, Seq<u8>)> {
    if s.len() > 0 && s[0] == BULK_STRINGS_BYTE {
        match split_line(s.skip(1)) {
            Some((length, after)) => match parse_decimal(length) {
                Some(n) => if n + 2 <= after.len() && after[n as int] == CR && after[n as int
                    + 1] == LF {
                    Some((after.take(n as int), after.skip(n as int + 2)))
                } else {
                    None
                },
                None => None,
            },
            None => None,
        }
    } else {
        None
    }
}

/// Reads the bulk string at the front of `buffer`: its payload and the rest
/// of the buffer behind its closing line break.
pub fn move_resp_bulk_string(buffer: &[u8]) -> (moved: Result<(&[u8], &[u8]), RespError>)
    ensures
        match parse_bulk_string(buffer@) {
            Some((payload, rest)) => moved matches Ok((head, tail)) && head@ == payload && tail@
                == rest,
            None => moved == Err::<(&[u8], &[u8]), RespError>(RespError::MalformedRequest),
        },
{
    if buffer.len() == 0 || buffer[0] != BULK_STRINGS_BYTE {
        return Err(RespError::MalformedRequest);
    }
    let after_marker = slice_subrange(buffer, 1, buffer.len());
    assert(after_marker@ =~= buffer@.skip(1));
    match split_at_crlf(after_marker) {
        None => Err(RespError::MalformedRequest),
        Some((length, after)) => match parse_decimal_bounded(length, after.len() as u64) {
            None => Err(RespError::MalformedRequest),
            Some(n) => {
                let n: usize = n as usize;
                if after.len() - n < 2 || after[n] != CR || after[n + 1] != LF {
                    return Err(RespError::MalformedRequest);
                }
                let head = slice_subrange(after, 0, n);
                let tail = slice_subrange(after, n + 2, after.len());
                assert(head@ =~= after@.take(n as int));
                assert(tail@ =~= after@.skip(n + 2));
                Ok((head, tail))
            },
        },
    }
}

/// A simple status line: the marker, the text, a line break.
pub open spec fn simple_string(text: Seq<u8>) -> Seq<u8> {
    seq![SIMPLE_STRINGS_BYTE] + text + crlf()
}

/// An error status line: the marker, the text, a line break.
pub open spec fn error_string(text: Seq<u8>) -> Seq<u8> {
    seq![ERRORS_BYTE] + text + crlf()
}

/// A bulk string: the marker, the payload's length in decimal, a line break,
/// the payload, a line break.
pub open spec fn bulk_string(payload: Seq<u8>) -> Seq<u8> {
    seq![BULK_STRINGS_BYTE] + decimal_digits(payload.len()) + crlf() + payload + crlf()
}

/// The null bulk string, which stands for an absent value and differs from
/// the empty bulk string.
pub open spec fn null_bulk_string() -> Seq<u8> {
    ascii("$-1\r\n"@)
}

/// The header of an array of `count` elements.
pub open spec fn array_header(count: nat) -> Seq<u8> {
    seq![ARRAYS_BYTE] + decimal_digits(count) + crlf()
}

/// Writes a simple status line.
pub fn encode_simple_string(text: &[u8]) -> (encoded: Vec<u8>)
    ensures
        encoded@ == simple_string(text@),
{
    let mut encoded: Vec<u8> = Vec::new();
    encoded.push(SIMPLE_STRINGS_BYTE);
    append_bytes(&mut encoded, text);
    encoded.push(CR);
    encoded.push(LF);
    assert(encoded@ =~= simple_string(text@));
    encoded
}

/// Writes an error status line.
pub fn encode_error_string(text: &[u8]) -> (encoded: Vec<u8>)
    ensures
        encoded@ == error_string(text@),
{
    let mut encoded: Vec<u8> = Vec::new();
    encoded.push(ERRORS_BYTE);
    append_bytes(&mut encoded, text);
    encoded.push(CR);
    encoded.push(LF);
    assert(encoded@ =~= error_string(text@));
    encoded
}

/// Appends a bulk string to a buffer.
pub fn push_bulk_string(buffer: &mut Vec<u8>, payload: &[u8])
    ensures
        final(buffer)@ == old(buffer)@ + bulk_string(payload@),
{
    buffer.push(BULK_STRINGS_BYTE);
    push_decimal(buffer, payload.len() as u128);
    buffer.push(CR);
    buffer.push(LF);
    append_bytes(buffer, payload);
    buffer.push(CR);
    buffer.push(LF);
    assert(buffer@ =~= old(buffer)@ + bulk_string(payload@));
}

/// Writes a bulk string.
pub fn encode_bulk_string(payload: &[u8]) -> (encoded: Vec<u8>)
    ensures
        encoded@ == bulk_string(payload@),
{
    let mut encoded: Vec<u8> = Vec::new();
    push_bulk_string(&mut encoded, payload);
    assert(encoded@ =~= bulk_string(payload@));
    encoded
}

/// Writes the null bulk string.
pub fn encode_null_bulk_string() -> (encoded: Vec<u8>)
    ensures
        encoded@ == null_bulk_string(),
{
    proof {
        reveal_strlit("$-1\r\n");
    }
    let mut encoded: Vec<u8> = Vec::new();
    append_bytes(&mut encoded, ascii_bytes("$-1\r\n"));
    assert(encoded@ =~= null_bulk_string());
    encoded
}

/// A string of digits followed by a line break splits at that line break.
pub proof fn lemma_split_line_after_digits(head: Seq<u8>, digits: Seq<u8>, rest: Seq<u8>)
    requires
        all_digits(digits),
        forall|i: int| 0 <= i < head.len() ==> head[i] != CR,
    ensures
        split_line(head + digits + crlf() + rest) == Some((head + digits, rest)),
{
    let s = head + digits + crlf() + rest;
    let p = (head.len() + digits.len()) as int;
    assert(s[p] == CR);
    assert(s[p + 1] == LF);
    assert forall|j: int| 0 <= j < p implies !crlf_at(s, j) by {
        if j < head.len() {
            assert(s[j] == head[j]);
        } else {
            assert(s[j] == digits[j - head.len()]);
            assert(is_digit(digits[j - head.len()]));
        }
    }
    lemma_find_crlf_is(s, 0, p);
    assert(s.take(p) =~= head + digits);
    assert(s.skip(p + 2) =~= rest);
}

/// A bulk string at the front of a byte string is read the same when bytes
/// are put behind the string.
pub proof fn lemma_parse_bulk_string_append(s: Seq<u8>, behind: Seq<u8>)
    ensures
        parse_bulk_string(s) matches Some((payload, rest)) ==> parse_bulk_string(s + behind)
            == Some((payload, rest + behind)),
{
    if let Some((payload, rest)) = parse_bulk_string(s) {
        let longer = s + behind;
        assert(longer.skip(1) =~= s.skip(1) + behind);
        lemma_split_line_append(s.skip(1), behind);
        let (length, after) = split_line(s.skip(1)).unwrap();
        let n = parse_decimal(length).unwrap() as int;
        let after_longer = after + behind;
        assert(after_longer[n] == after[n]);
        assert(after_longer[n + 1] == after[n + 1]);
        assert(after_longer.take(n) =~= after.take(n));
        assert(after_longer.skip(n + 2) =~= after.skip(n + 2) + behind);
    }
}

/// Reading a written bulk string gives back its payload, and leaves what
/// follows it.
pub proof fn lemma_parse_bulk_string_of_encoded(payload: Seq<u8>, rest: Seq<u8>)
    ensures
        parse_bulk_string(bulk_string(payload) + rest) == Some((payload, rest)),
{
    let digits = decimal_digits(payload.len());
    let s = bulk_string(payload) + rest;
    let after = payload + crlf() + rest;
    lemma_decimal_digits(payload.len());
    assert(s[0] == BULK_STRINGS_BYTE);
    assert(s.skip(1) =~= Seq::<u8>::empty() + digits + crlf() + after);
    lemma_split_line_after_digits(Seq::<u8>::empty(), digits, after);
    assert(Seq::<u8>::empty() + digits =~= digits);
    let n = payload.len() as int;
    assert(after[n] == CR);
    assert(after[n + 1] == LF);
    assert(after.take(n) =~= payload);
    assert(after.skip(n + 2) =~= rest);
}

} // verus!
