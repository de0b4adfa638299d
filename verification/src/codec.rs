//! The hexadecimal text form of a bit sequence.
//!
//! A sequence of `n` bits is written as `ceil(n / 4)` lowercase hex digits.
//! Zero bits are set in front of the sequence until its length is a multiple
//! of four; each group of four bits then gives one digit, most significant
//! bit first. Reading takes either case and drops the leading fill.

use vstd::prelude::*;
use vstd::utf8::{encode_utf8, is_ascii_chars, is_ascii_chars_encode_utf8};

verus! {

/// Why a text does not decode to a bit matrix of a given shape.
#[derive(Clone, Copy, Debug, PartialEq, Eq, Structural)]
pub enum DecodeError {
    /// The width or the height is zero.
    ZeroDimension,
    /// The text is empty.
    EmptyText,
    /// The text does not have one digit for every four bits.
    WrongLength,
    /// The text holds a byte that is no hex digit.
    InvalidDigit,
}

impl DecodeError {
    /// The message that goes with the error.
    pub open spec fn text(self) -> Seq<char> {
        match self {
            DecodeError::ZeroDimension => "Width or height cannot be 0"@,
            DecodeError::EmptyText => "String is empty"@,
            DecodeError::WrongLength => "String is too short or too long for the specified size"@,
            DecodeError::InvalidDigit => "invalid digit found in string"@,
        }
    }

    /// The message that goes with the error.
    pub fn message(&self) -> (msg: String)
        ensures
            msg@ == self.text(),
    {
        match self {
            DecodeError::ZeroDimension => "Width or height cannot be 0".to_string(),
            DecodeError::EmptyText => "String is empty".to_string(),
            DecodeError::WrongLength => {
                "String is too short or too long for the specified size".to_string()
            },
            DecodeError::InvalidDigit => "invalid digit found in string".to_string(),
        }
    }
}

/// `String::push` sets one character behind the text that is there.
pub assume_specification[ String::push ](text: &mut String, c: char)
    ensures
        final(text)@ == old(text)@.push(c),
;

/// Number of hex digits that hold `len` bits.
pub open spec fn digit_count(len: nat) -> nat {
    (len + 3) / 4
}

/// Number of zero bits set in front of `len` bits to fill the first digit.
pub open spec fn lead(len: nat) -> nat {
    (4 * digit_count(len) - len) as nat
}

/// The bits with the zero bits that fill the first digit in front of them.
pub open spec fn padded(bits: Seq<bool>) -> Seq<bool> {
    Seq::new(lead(bits.len()), |i: int| false) + bits
}

/// The number that four bits spell, most significant bit first.
pub open spec fn group_value(b3: bool, b2: bool, b1: bool, b0: bool) -> nat {
    let eights: nat = if b3 { 8 } else { 0 };
    let fours: nat = if b2 { 4 } else { 0 };
    let twos: nat = if b1 { 2 } else { 0 };
    let ones: nat = if b0 { 1 } else { 0 };
    eights + fours + twos + ones
}

/// The value of digit `k` of the text form of `bits`.
pub open spec fn digit_value(bits: Seq<bool>, k: int) -> nat {
    let p = padded(bits);
    group_value(p[4 * k], p[4 * k + 1], p[4 * k + 2], p[4 * k + 3])
}

/// The lowercase hex digit for a value below sixteen, as an ASCII code.
pub open spec fn lower_hex(value: nat) -> u8 {
    if value < 10 {
        (48 + value) as u8
    } else {
        (87 + value) as u8
    }
}

/// The text form of `bits`.
pub open spec fn encoded(bits: Seq<bool>) -> Seq<char> {
    Seq::new(digit_count(bits.len()), |k: int| lower_hex(digit_value(bits, k)) as char)
}

/// The value of a hex digit given as an ASCII code, in either case.
pub open spec fn hex_value(code: u8) -> Option<nat> {
    if 48 <= code <= 57 {
        Some((code - 48) as nat)
    } else if 97 <= code <= 102 {
        Some((code - 87) as nat)
    } else if 65 <= code <= 70 {
        Some((code - 55) as nat)
    } else {
        None
    }
}

/// Bit `place` of a digit value, counted from the most significant of four.
pub open spec fn digit_bit(value: nat, place: int) -> bool {
    if place == 0 {
        value / 8 % 2 == 1
    } else if place == 1 {
        value / 4 % 2 == 1
    } else if place == 2 {
        value / 2 % 2 == 1
    } else {
        value % 2 == 1
    }
}

/// Bit `i` of the matrix that `text` spells when `len` bits are wanted.
pub open spec fn text_bit(text: Seq<u8>, len: nat, i: int) -> bool {
    let j = i + lead(len);
    digit_bit(hex_value(text[j / 4]).unwrap(), j % 4)
}

/// What the UTF-8 bytes `text` decode to for a matrix of `width` columns and
/// `height` rows: its bits in row-major order, or the first check that fails.
pub open spec fn decoded(text: Seq<u8>, width: u32, height: u32) -> Result<Seq<bool>, DecodeError> {
    let len = (width * height) as nat;
    if len == 0 {
        Err(DecodeError::ZeroDimension)
    } else if text.len() == 0 {
        Err(DecodeError::EmptyText)
    } else if text.len() != digit_count(len) {
        Err(DecodeError::WrongLength)
    } else if exists|k: int| 0 <= k < text.len() && hex_value(#[trigger] text[k]) is None {
        Err(DecodeError::InvalidDigit)
    } else {
        Ok(Seq::new(len, |i: int| text_bit(text, len, i)))
    }
}

/// The value of a hex digit, if the byte is one.
pub fn parse_digit(code: u8) -> (value: Option<u8>)
    ensures
        match hex_value(code) {
            Some(v) => value == Some(v as u8) && v < 16,
            None => value is None,
        },
{
    if 48 <= code && code <= 57 {
        Some(code - 48)
    } else if 97 <= code && code <= 102 {
        Some(code - 87)
    } else if 65 <= code && code <= 70 {
        Some(code - 55)
    } else {
        None
    }
}

/// The lowercase hex digit for a value below sixteen.
pub fn hex_digit(value: u8) -> (digit: char)
    requires
        value < 16,
    ensures
        digit == lower_hex(value as nat) as char,
{
    let code: u8 = if value < 10 { 48 + value } else { 87 + value };
    code as char
}

/// Reading a written digit gives its value back.
pub proof fn lemma_hex_value_of_lower_hex(value: nat)
    requires
        value < 16,
    ensures
        hex_value(lower_hex(value)) == Some(value),
        lower_hex(value) < 128,
        (lower_hex(value) as char) as u8 == lower_hex(value),
{
}

/// Each bit of a group is found again in the group's value.
pub proof fn lemma_digit_bit_of_group(b3: bool, b2: bool, b1: bool, b0: bool)
    ensures
        group_value(b3, b2, b1, b0) < 16,
        digit_bit(group_value(b3, b2, b1, b0), 0) == b3,
        digit_bit(group_value(b3, b2, b1, b0), 1) == b2,
        digit_bit(group_value(b3, b2, b1, b0), 2) == b1,
        digit_bit(group_value(b3, b2, b1, b0), 3) == b0,
{
}

/// The bytes of a text form are its digits, one byte each.
pub proof fn lemma_encoded_bytes(bits: Seq<bool>)
    ensures
        is_ascii_chars(encoded(bits)),
        encode_utf8(encoded(bits)).len() == digit_count(bits.len()),
        forall|k: int|
            0 <= k < digit_count(bits.len()) ==> #[trigger] encode_utf8(encoded(bits))[k]
                == lower_hex(digit_value(bits, k)),
{
    let text = encoded(bits);
    assert forall|k: int| 0 <= k < text.len() implies '\0' <= #[trigger] text[k] <= '\u{7f}'
        && text[k] as u8 == lower_hex(digit_value(bits, k)) by {
        let p = padded(bits);
        lemma_digit_bit_of_group(p[4 * k], p[4 * k + 1], p[4 * k + 2], p[4 * k + 3]);
        lemma_hex_value_of_lower_hex(digit_value(bits, k));
    }
    is_ascii_chars_encode_utf8(text);
}

/// Reading the text form of a bit matrix gives the matrix back: for every
/// shape without a zero side and every bit sequence of that shape, the text
/// form decodes, under the same shape, to the same bits.
pub proof fn lemma_decode_encode(bits: Seq<bool>, width: u32, height: u32)
    requires
        width > 0,
        height > 0,
        bits.len() == width * height,
    ensures
        decoded(encode_utf8(encoded(bits)), width, height) == Ok::<Seq<bool>, DecodeError>(bits),
{
    let len = bits.len();
    let text = encode_utf8(encoded(bits));
    assert(width * height > 0) by (nonlinear_arith)
        requires
            width > 0,
            height > 0,
    ;
    lemma_encoded_bytes(bits);
    assert forall|k: int| 0 <= k < text.len() implies hex_value(#[trigger] text[k]) == Some(
        digit_value(bits, k),
    ) by {
        let p = padded(bits);
        lemma_digit_bit_of_group(p[4 * k], p[4 * k + 1], p[4 * k + 2], p[4 * k + 3]);
        lemma_hex_value_of_lower_hex(digit_value(bits, k));
    }
    let back = Seq::new(len, |i: int| text_bit(text, len, i));
    assert forall|i: int| 0 <= i < len implies back[i] == bits[i] by {
        let j = i + lead(len);
        let k = j / 4;
        let p = padded(bits);
        lemma_digit_bit_of_group(p[4 * k], p[4 * k + 1], p[4 * k + 2], p[4 * k + 3]);
        assert(hex_value(text[k]) == Some(digit_value(bits, k)));
        assert(p[j] == bits[i]);
    }
    assert(back =~= bits);
}

} // verus!
