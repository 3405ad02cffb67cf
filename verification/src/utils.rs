//! Byte-level helpers shared by the codec: line breaks, ASCII case folding
//! and decimal numbers.

use vstd::prelude::*;
use vstd::slice::slice_subrange;

verus! {

/// Carriage return, the first byte of a line break.
pub const CR: u8 = 13;

/// Line feed, the second byte of a line break.
pub const LF: u8 = 10;

/// The plus sign that may precede a decimal number.
pub const PLUS: u8 = 43;

/// The digit zero.
pub const ZERO: u8 = 48;

/// The digit nine.
pub const NINE: u8 = 57;

/// The first lower-case letter.
pub const LOWER_A: u8 = 97;

/// The last lower-case letter.
pub const LOWER_Z: u8 = 122;

/// How far a lower-case letter lies behind its upper-case form.
pub const CASE_DISTANCE: u8 = 32;

/// The bytes of a text made of ASCII characters only.
pub open spec fn ascii(text: Seq<char>) -> Seq<u8> {
    Seq::new(text.len(), |i: int| text[i] as u8)
}

/// The bytes of an ASCII string literal.
pub fn ascii_bytes(text: &'static str) -> (bytes: &'static [u8])
    requires
        text.is_ascii(),
    ensures
        bytes@ == ascii(text@),
{
    broadcast use vstd::string::is_ascii_spec_bytes;

    text.as_bytes()
}

/// Whether two byte strings hold the same bytes.
pub fn bytes_eq(left: &[u8], right: &[u8]) -> (same: bool)
    ensures
        same == (left@ == right@),
{
    if left.len() != right.len() {
        return false;
    }
    let mut i: usize = 0;
    while i < left.len()
        invariant
            left@.len() == right@.len(),
            i <= left@.len(),
            forall|j: int| 0 <= j < i ==> left@[j] == right@[j],
        decreases left@.len() - i,
    {
        if left[i] != right[i] {
            return false;
        }
        i += 1;
    }
    assert(left@ =~= right@);
    true
}

/// A copy of a byte string.
pub fn copy_bytes(source: &[u8]) -> (copy: Vec<u8>)
    ensures
        copy@ == source@,
{
    let mut copy: Vec<u8> = Vec::new();
    let mut i: usize = 0;
    while i < source.len()
        invariant
            i <= source@.len(),
            copy@ == source@.take(i as int),
        decreases source@.len() - i,
    {
        copy.push(source[i]);
        assert(source@.take(i + 1) =~= source@.take(i as int).push(source@[i as int]));
        i += 1;
    }
    assert(source@.take(source@.len() as int) =~= source@);
    copy
}

/// Appends a byte string to a buffer.
pub fn append_bytes(buffer: &mut Vec<u8>, source: &[u8])
    ensures
        final(buffer)@ == old(buffer)@ + source@,
{
    let ghost before = buffer@;
    let mut i: usize = 0;
    while i < source.len()
        invariant
            i <= source@.len(),
            buffer@ == before + source@.take(i as int),
        decreases source@.len() - i,
    {
        buffer.push(source[i]);
        assert(source@.take(i + 1) =~= source@.take(i as int).push(source@[i as int]));
        assert(buffer@ =~= before + source@.take(i + 1));
        i += 1;
    }
    assert(source@.take(source@.len() as int) =~= source@);
}

/// The upper-case form of an ASCII letter; any other byte is itself.
pub open spec fn upper_byte(b: u8) -> u8 {
    if LOWER_A <= b <= LOWER_Z {
        (b - CASE_DISTANCE) as u8
    } else {
        b
    }
}

/// A byte string with each ASCII letter in upper case.
pub open spec fn upper(s: Seq<u8>) -> Seq<u8> {
    Seq::new(s.len(), |i: int| upper_byte(s[i]))
}

/// Folds the ASCII letters of a byte string to upper case.
pub fn to_ascii_uppercase(source: &[u8]) -> (folded: Vec<u8>)
    ensures
        folded@ == upper(source@),
{
    let mut folded: Vec<u8> = Vec::new();
    let mut i: usize = 0;
    while i < source.len()
        invariant
            i <= source@.len(),
            folded@.len() == i,
            forall|j: int| 0 <= j < i ==> folded@[j] == upper_byte(source@[j]),
        decreases source@.len() - i,
    {
        let b: u8 = source[i];
        let c: u8 = if LOWER_A <= b && b <= LOWER_Z { b - CASE_DISTANCE } else { b };
        folded.push(c);
        i += 1;
    }
    assert(folded@ =~= upper(source@));
    folded
}

/// Case folding changes nothing in a string already folded.
pub proof fn lemma_upper_idempotent(s: Seq<u8>)
    ensures
        upper(upper(s)) == upper(s),
{
    assert(upper(upper(s)) =~= upper(s));
}

/// Whether a line break starts at index `i` of `s`.
pub open spec fn crlf_at(s: Seq<u8>, i: int) -> bool {
    0 <= i && i + 1 < s.len() && s[i] == CR && s[i + 1] == LF
}

/// The index of the first line break of `s` at or after `from`.
pub open spec fn find_crlf(s: Seq<u8>, from: int) -> Option<int>
    decreases s.len() - from,
{
    if from < 0 || from + 1 >= s.len() {
        None
    } else if s[from] == CR && s[from + 1] == LF {
        Some(from)
    } else {
        find_crlf(s, from + 1)
    }
}

/// `find_crlf` gives the least index of a line break, and none where there
/// is no line break.
pub proof fn lemma_find_crlf(s: Seq<u8>, from: int)
    requires
        0 <= from,
    ensures
        match find_crlf(s, from) {
            Some(p) => from <= p && crlf_at(s, p) && forall|j: int| from <= j < p ==> !crlf_at(
                s,
                j,
            ),
            None => forall|j: int| from <= j ==> !crlf_at(s, j),
        },
    decreases s.len() - from,
{
    if from + 1 >= s.len() {
    } else if s[from] == CR && s[from + 1] == LF {
    } else {
        lemma_find_crlf(s, from + 1);
    }
}

/// A line break at `p` with none before it is what `find_crlf` finds.
pub proof fn lemma_find_crlf_is(s: Seq<u8>, from: int, p: int)
    requires
        0 <= from <= p,
        crlf_at(s, p),
        forall|j: int| from <= j < p ==> !crlf_at(s, j),
    ensures
        find_crlf(s, from) == Some(p),
{
    lemma_find_crlf(s, from);
}

/// The bytes before the first line break of `s` and the bytes after it.
pub open spec fn split_line(s: Seq<u8>) -> Option<(Seq<u8>, Seq<u8>)> {
    match find_crlf(s, 0) {
        Some(p) => Some((s.take(p), s.skip(p + 2))),
        None => None,
    }
}

/// Splits a byte string at its first line break: the line before the break
/// and what follows it, or nothing where no line break occurs.
pub fn split_at_crlf(buffer: &[u8]) -> (parts: Option<(&[u8], &[u8])>)
    ensures
        match split_line(buffer@) {
            Some((line, rest)) => parts matches Some((head, tail)) && head@ == line && tail@
                == rest,
            None => parts is None,
        },
{
    let n: usize = buffer.len();
    let mut i: usize = 0;
    while i < n && n - i >= 2
        invariant
            n == buffer@.len(),
            i <= n,
            find_crlf(buffer@, 0) == find_crlf(buffer@, i as int),
        decreases n - i,
    {
        if buffer[i] == CR && buffer[i + 1] == LF {
            let head = slice_subrange(buffer, 0, i);
            let tail = slice_subrange(buffer, i + 2, n);
            return Some((head, tail));
        }
        i += 1;
    }
    None
}

/// The first line of a byte string stays its first line when bytes are put
/// behind the string.
pub proof fn lemma_split_line_append(s: Seq<u8>, behind: Seq<u8>)
    ensures
        split_line(s) matches Some((line, rest)) ==> split_line(s + behind) == Some(
            (line, rest + behind),
        ),
{
    if let Some(p) = find_crlf(s, 0) {
        let longer = s + behind;
        lemma_find_crlf(s, 0);
        assert(crlf_at(longer, p));
        assert forall|j: int| 0 <= j < p implies !crlf_at(longer, j) by {
            assert(!crlf_at(s, j));
            assert(longer[j] == s[j]);
            assert(longer[j + 1] == s[j + 1]);
        }
        lemma_find_crlf_is(longer, 0, p);
        assert(longer.take(p) =~= s.take(p));
        assert(longer.skip(p + 2) =~= s.skip(p + 2) + behind);
    }
}

/// The space that separates the words of a status line.
pub const SPACE: u8 = 32;

/// Whether `s` can stand as one word of a status line: it is not empty and
/// holds no space and no line break byte.
pub open spec fn is_token(s: Seq<u8>) -> bool {
    s.len() > 0 && forall|i: int| 0 <= i < s.len() ==> is_token_byte(#[trigger] s[i])
}

/// Whether a byte may occur in a word of a status line.
pub open spec fn is_token_byte(b: u8) -> bool {
    b != SPACE && b != CR && b != LF
}

/// Whether `bytes` can stand as one word of a status line.
pub fn check_token(bytes: &[u8]) -> (ok: bool)
    ensures
        ok == is_token(bytes@),
{
    if bytes.len() == 0 {
        return false;
    }
    let mut i: usize = 0;
    while i < bytes.len()
        invariant
            i <= bytes@.len(),
            forall|j: int| 0 <= j < i ==> is_token_byte(#[trigger] bytes@[j]),
        decreases bytes@.len() - i,
    {
        let b: u8 = bytes[i];
        if b == SPACE || b == CR || b == LF {
            assert(!is_token_byte(bytes@[i as int]));
            return false;
        }
        i += 1;
    }
    true
}

/// The index of the first occurrence of `byte` in `s` at or after `from`.
pub open spec fn find_byte(s: Seq<u8>, byte: u8, from: int) -> Option<int>
    decreases s.len() - from,
{
    if from < 0 || from >= s.len() {
        None
    } else if s[from] == byte {
        Some(from)
    } else {
        find_byte(s, byte, from + 1)
    }
}

/// `find_byte` gives the least index at which the byte occurs, and none
/// where it does not occur.
pub proof fn lemma_find_byte(s: Seq<u8>, byte: u8, from: int)
    requires
        0 <= from,
    ensures
        match find_byte(s, byte, from) {
            Some(p) => from <= p < s.len() && s[p] == byte && forall|j: int|
                from <= j < p ==> s[j] != byte,
            None => forall|j: int| from <= j < s.len() ==> s[j] != byte,
        },
    decreases s.len() - from,
{
    if from < s.len() && s[from] != byte {
        lemma_find_byte(s, byte, from + 1);
    }
}

/// Finds the first occurrence of a byte.
pub fn position_of(bytes: &[u8], byte: u8) -> (found: Option<usize>)
    ensures
        match find_byte(bytes@, byte, 0) {
            Some(p) => found == Some(p as usize),
            None => found is None,
        },
{
    let mut i: usize = 0;
    while i < bytes.len()
        invariant
            i <= bytes@.len(),
            find_byte(bytes@, byte, 0) == find_byte(bytes@, byte, i as int),
        decreases bytes@.len() - i,
    {
        if bytes[i] == byte {
            return Some(i);
        }
        i += 1;
    }
    None
}

/// Whether a byte is a decimal digit.
pub open spec fn is_digit(b: u8) -> bool {
    ZERO <= b <= NINE
}

/// Whether every byte of `s` is a decimal digit.
pub open spec fn all_digits(s: Seq<u8>) -> bool {
    forall|i: int| 0 <= i < s.len() ==> is_digit(#[trigger] s[i])
}

/// The number that a string of decimal digits writes, most significant
/// digit first.
pub open spec fn decimal_value(digits: Seq<u8>) -> nat
    decreases digits.len(),
{
    if digits.len() == 0 {
        0
    } else {
        decimal_value(digits.drop_last()) * 10 + (digits.last() - ZERO) as nat
    }
}

/// A number's text without the plus sign that may precede it.
pub open spec fn unsigned_part(s: Seq<u8>) -> Seq<u8> {
    if s.len() > 0 && s[0] == PLUS {
        s.skip(1)
    } else {
        s
    }
}

/// The number written by `s`: an optional plus sign, then one or more
/// decimal digits. Anything else writes no number.
pub open spec fn parse_decimal(s: Seq<u8>) -> Option<nat> {
    let digits = unsigned_part(s);
    if digits.len() > 0 && all_digits(digits) {
        Some(decimal_value(digits))
    } else {
        None
    }
}

/// The number written by `s` where it is at most `max`.
pub open spec fn parse_decimal_up_to(s: Seq<u8>, max: nat) -> Option<nat> {
    match parse_decimal(s) {
        Some(n) => if n <= max {
            Some(n)
        } else {
            None
        },
        None => None,
    }
}

/// The value of a prefix of a digit string is at most the value of the
/// whole.
pub proof fn lemma_decimal_value_prefix(digits: Seq<u8>, k: int)
    requires
        0 <= k <= digits.len(),
        all_digits(digits),
    ensures
        decimal_value(digits.take(k)) <= decimal_value(digits),
    decreases digits.len() - k,
{
    if k == digits.len() {
        assert(digits.take(k) =~= digits);
    } else {
        let longer = digits.take(k + 1);
        assert(longer.drop_last() =~= digits.take(k));
        assert(longer.last() == digits[k]);
        assert(is_digit(digits[k]));
        lemma_decimal_value_prefix(digits, k + 1);
    }
}

/// Reads a decimal number of at most `max`: an optional plus sign, then one
/// or more digits.
pub fn parse_decimal_bounded(text: &[u8], max: u64) -> (number: Option<u64>)
    ensures
        match parse_decimal_up_to(text@, max as nat) {
            Some(n) => number == Some(n as u64),
            None => number is None,
        },
{
    let n: usize = text.len();
    let start: usize = if n > 0 && text[0] == PLUS { 1 } else { 0 };
    if start == n {
        return None;
    }
    let ghost digits = unsigned_part(text@);
    assert(digits =~= text@.skip(start as int));
    let mut value: u64 = 0;
    let mut i: usize = start;
    while i < n
        invariant
            n == text@.len(),
            start <= i <= n,
            start <= 1,
            digits == text@.skip(start as int),
            digits == unsigned_part(text@),
            all_digits(digits.take(i - start)),
            value == decimal_value(digits.take(i - start)),
            value <= max,
        decreases n - i,
    {
        let b: u8 = text[i];
        let ghost longer = digits.take(i - start + 1);
        proof {
            assert(longer.drop_last() =~= digits.take(i - start));
            assert(longer.last() == b);
        }
        if b < ZERO || b > NINE {
            assert(digits[i - start] == b);
            assert(!all_digits(digits));
            return None;
        }
        let d: u64 = (b - ZERO) as u64;
        if d > max || value > (max - d) / 10 {
            proof {
                assert(decimal_value(longer) == value * 10 + d);
                assert(decimal_value(longer) > max);
                if all_digits(digits) {
                    lemma_decimal_value_prefix(digits, i - start + 1);
                }
            }
            return None;
        }
        value = value * 10 + d;
        proof {
            assert forall|j: int| 0 <= j < longer.len() implies is_digit(#[trigger] longer[j]) by {
                if j < i - start {
                    assert(longer[j] == digits.take(i - start)[j]);
                }
            }
        }
        i += 1;
    }
    assert(digits.take(n - start) =~= digits);
    Some(value)
}

/// The decimal digits of a number, most significant first, without leading
/// zeros.
pub open spec fn decimal_digits(n: nat) -> Seq<u8>
    decreases n,
{
    if n < 10 {
        seq![(ZERO + n) as u8]
    } else {
        decimal_digits(n / 10).push((ZERO + n % 10) as u8)
    }
}

/// The digits of a number are digits, at least one of them, and write that
/// number.
pub proof fn lemma_decimal_digits(n: nat)
    ensures
        decimal_digits(n).len() > 0,
        all_digits(decimal_digits(n)),
        decimal_value(decimal_digits(n)) == n,
        parse_decimal(decimal_digits(n)) == Some(n),
    decreases n,
{
    let digits = decimal_digits(n);
    if n < 10 {
        assert(digits.drop_last() =~= Seq::<u8>::empty());
        assert(decimal_value(digits.drop_last()) == 0);
    } else {
        lemma_decimal_digits(n / 10);
        assert(digits.drop_last() =~= decimal_digits(n / 10));
        assert forall|i: int| 0 <= i < digits.len() implies is_digit(#[trigger] digits[i]) by {
            if i < digits.len() - 1 {
                assert(digits[i] == decimal_digits(n / 10)[i]);
            }
        }
    }
    assert(is_digit(digits[0]));
    assert(unsigned_part(digits) == digits);
}

/// Appends the decimal digits of a number to a buffer.
pub fn push_decimal(buffer: &mut Vec<u8>, n: u128)
    ensures
        final(buffer)@ == old(buffer)@ + decimal_digits(n as nat),
    decreases n,
{
    if n >= 10 {
        push_decimal(buffer, n / 10);
    }
    let digit: u8 = ZERO + (n % 10) as u8;
    buffer.push(digit);
    assert(buffer@ =~= old(buffer)@ + decimal_digits(n as nat));
}

} // verus!
