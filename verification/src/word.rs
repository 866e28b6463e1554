//! Register values on the wire: a 16-bit word as four hexadecimal
//! characters, a 32-bit double word as eight, both in two's complement.

use vstd::prelude::*;
use vstd::string::*;
use vstd::utf8::is_ascii_chars;
use crate::error::FrameError;
use crate::hex::{
    hex_number, hex_text, is_hex_text, lemma_hex_number_bound, lemma_hex_round_trip,
    lemma_pow16_values, parse_hex, push_hex,
};
use crate::roundtrip::lemma_hex_text_plain;
use crate::text::{ascii_string, bytes_text, lemma_ascii_is_utf8, lemma_text_bytes, text_bytes};

verus! {

/// The unsigned number with the same `bits` bits as `value` in two's
/// complement.
pub open spec fn unsigned_of(value: int, bits: nat) -> nat {
    if value >= 0 {
        value as nat
    } else {
        (value + vstd::arithmetic::power2::pow2(bits)) as nat
    }
}

/// The signed number with the same `bits` bits as `number` in two's
/// complement.
pub open spec fn signed_of(number: nat, bits: nat) -> int {
    if 2 * number < vstd::arithmetic::power2::pow2(bits) {
        number as int
    } else {
        number - vstd::arithmetic::power2::pow2(bits)
    }
}

/// The text of a register value of `digits` hexadecimal characters.
pub open spec fn value_text(value: int, digits: nat) -> Seq<char> {
    bytes_text(hex_text(unsigned_of(value, 4 * digits), digits))
}

/// The register value that `data` spells in `digits` hexadecimal characters.
///
/// The text must be ASCII, of exactly that many characters, all of them
/// hexadecimal digits of either case.
pub open spec fn read_value(data: Seq<char>, digits: nat) -> Result<int, FrameError> {
    if !is_ascii_chars(data) {
        Err(FrameError::NotText)
    } else if data.len() != digits {
        Err(FrameError::DataLength)
    } else if !is_hex_text(text_bytes(data)) {
        Err(FrameError::InvalidNumber)
    } else {
        Ok(signed_of(hex_number(text_bytes(data)), 4 * digits))
    }
}

/// The powers of two that bound a word and a double word.
pub proof fn lemma_pow2_values()
    ensures
        vstd::arithmetic::power2::pow2(16) == 0x1_0000,
        vstd::arithmetic::power2::pow2(32) == 0x1_0000_0000,
{
    vstd::arithmetic::power2::lemma2_to64();
}

/// Width semantics for words: every 16-bit value, written as four
/// hexadecimal characters, is read back as itself.
pub proof fn lemma_word_round_trip(value: i16)
    ensures
        read_value(value_text(value as int, 4), 4) == Ok::<int, FrameError>(value as int),
{
    lemma_pow2_values();
    lemma_pow16_values();
    let n = unsigned_of(value as int, 16);
    lemma_hex_text_plain(n, 4);
    lemma_ascii_is_utf8(hex_text(n, 4));
    lemma_hex_round_trip(n, 4);
}

/// Width semantics for double words: every 32-bit value, written as eight
/// hexadecimal characters, is read back as itself.
pub proof fn lemma_dword_round_trip(value: i32)
    ensures
        read_value(value_text(value as int, 8), 8) == Ok::<int, FrameError>(value as int),
{
    lemma_pow2_values();
    lemma_pow16_values();
    let n = unsigned_of(value as int, 32);
    lemma_hex_text_plain(n, 8);
    lemma_ascii_is_utf8(hex_text(n, 8));
    lemma_hex_round_trip(n, 8);
}

/// Writes a number below `16^digits` as a string of `digits` characters.
fn format_number(number: u32, digits: usize) -> (r: String)
    ensures
        r@ == bytes_text(hex_text(number as nat, digits as nat)),
{
    let mut out: Vec<u8> = Vec::new();
    push_hex(&mut out, number, digits);
    proof {
        lemma_hex_text_plain(number as nat, digits as nat);
        assert(out@ =~= hex_text(number as nat, digits as nat));
    }
    ascii_string(out.as_slice())
}

/// Reads a string of exactly `digits` hexadecimal characters as a number.
fn parse_number(data: &str, digits: usize) -> (r: Result<u32, FrameError>)
    requires
        digits <= 8,
    ensures
        match r {
            Ok(n) => {
                &&& is_ascii_chars(data@)
                &&& data@.len() == digits
                &&& is_hex_text(text_bytes(data@))
                &&& n == hex_number(text_bytes(data@))
            },
            Err(e) => read_value(data@, digits as nat) == Err::<int, FrameError>(e),
        },
{
    if !data.is_ascii() {
        return Err(FrameError::NotText);
    }
    let bytes = data.as_bytes();
    proof {
        lemma_text_bytes(data@);
    }
    if bytes.len() != digits {
        return Err(FrameError::DataLength);
    }
    match parse_hex(bytes) {
        Some(n) => Ok(n),
        None => Err(FrameError::InvalidNumber),
    }
}

/// A 16-bit value as four upper-case hexadecimal characters.
pub fn format_i16(value: i16) -> (r: String)
    ensures
        r@ == value_text(value as int, 4),
{
    proof {
        lemma_pow2_values();
    }
    let number: u32 = if value >= 0 {
        value as u32
    } else {
        (value as i32 + 0x1_0000) as u32
    };
    format_number(number, 4)
}

/// A 32-bit value as eight upper-case hexadecimal characters.
pub fn format_i32(value: i32) -> (r: String)
    ensures
        r@ == value_text(value as int, 8),
{
    proof {
        lemma_pow2_values();
    }
    let number: u32 = if value >= 0 {
        value as u32
    } else {
        (value as i64 + 0x1_0000_0000) as u32
    };
    format_number(number, 8)
}

/// Reads four hexadecimal characters as a 16-bit value: as an unsigned
/// number first, whose bits are then taken as signed.
pub fn parse_i16(data: &str) -> (r: Result<i16, FrameError>)
    ensures
        match read_value(data@, 4) {
            Ok(v) => r == Ok::<i16, FrameError>(v as i16) && i16::MIN <= v <= i16::MAX,
            Err(e) => r == Err::<i16, FrameError>(e),
        },
{
    proof {
        lemma_pow2_values();
        lemma_pow16_values();
        lemma_hex_number_bound(text_bytes(data@));
    }
    match parse_number(data, 4) {
        Ok(n) => if n < 0x8000 {
            Ok(n as i16)
        } else {
            Ok((n as i32 - 0x1_0000) as i16)
        },
        Err(e) => Err(e),
    }
}

/// Reads eight hexadecimal characters as a 32-bit value: as an unsigned
/// number first, whose bits are then taken as signed.
pub fn parse_i32(data: &str) -> (r: Result<i32, FrameError>)
    ensures
        match read_value(data@, 8) {
            Ok(v) => r == Ok::<i32, FrameError>(v as i32) && i32::MIN <= v <= i32::MAX,
            Err(e) => r == Err::<i32, FrameError>(e),
        },
{
    proof {
        lemma_pow2_values();
        lemma_pow16_values();
        lemma_hex_number_bound(text_bytes(data@));
    }
    match parse_number(data, 8) {
        Ok(n) => if n < 0x8000_0000 {
            Ok(n as i32)
        } else {
            Ok((n as i64 - 0x1_0000_0000) as i32)
        },
        Err(e) => Err(e),
    }
}

} // verus!
