//! Fixed-width hexadecimal text, as every numeric field of a frame is written.

use vstd::prelude::*;

verus! {

/// The upper-case hexadecimal digit that stands for `n`, for `n` below 16.
pub open spec fn digit_of(n: nat) -> u8 {
    if n < 10 {
        (0x30 + n) as u8
    } else {
        (0x41 + n - 10) as u8
    }
}

/// True for the ASCII digits `0`-`9`, `A`-`F` and `a`-`f`.
pub open spec fn is_hex_digit(b: u8) -> bool {
    (0x30 <= b <= 0x39) || (0x41 <= b <= 0x46) || (0x61 <= b <= 0x66)
}

/// The number that a hexadecimal digit stands for; 0 for any other byte.
pub open spec fn digit_value(b: u8) -> nat {
    if 0x30 <= b <= 0x39 {
        (b - 0x30) as nat
    } else if 0x41 <= b <= 0x46 {
        (b - 0x41 + 10) as nat
    } else if 0x61 <= b <= 0x66 {
        (b - 0x61 + 10) as nat
    } else {
        0
    }
}

/// True when every byte of `text` is a hexadecimal digit.
pub open spec fn is_hex_text(text: Seq<u8>) -> bool {
    forall|i: int| 0 <= i < text.len() ==> is_hex_digit(#[trigger] text[i])
}

/// 16 to the power `n`.
pub open spec fn pow16(n: nat) -> nat
    decreases n,
{
    if n == 0 {
        1
    } else {
        16 * pow16((n - 1) as nat)
    }
}

/// The low `width` hexadecimal digits of `value`, most significant first,
/// in upper case.
pub open spec fn hex_text(value: nat, width: nat) -> Seq<u8>
    decreases width,
{
    if width == 0 {
        Seq::empty()
    } else {
        hex_text(value / 16, (width - 1) as nat).push(digit_of(value % 16))
    }
}

/// The number written by the digits of `text`, most significant first.
pub open spec fn hex_number(text: Seq<u8>) -> nat
    decreases text.len(),
{
    if text.len() == 0 {
        0
    } else {
        hex_number(text.drop_last()) * 16 + digit_value(text.last())
    }
}

/// `hex_text` has exactly `width` digits, all of them hexadecimal.
pub proof fn lemma_hex_text_shape(value: nat, width: nat)
    ensures
        hex_text(value, width).len() == width,
        is_hex_text(hex_text(value, width)),
    decreases width,
{
    if width > 0 {
        lemma_hex_text_shape(value / 16, (width - 1) as nat);
    }
}

/// A number below `16^width` is read back from its `width` digits.
pub proof fn lemma_hex_round_trip(value: nat, width: nat)
    requires
        value < pow16(width),
    ensures
        hex_number(hex_text(value, width)) == value,
    decreases width,
{
    if width > 0 {
        let head = hex_text(value / 16, (width - 1) as nat);
        let text = hex_text(value, width);
        lemma_hex_round_trip(value / 16, (width - 1) as nat);
        assert(text.drop_last() =~= head);
        assert(digit_value(digit_of(value % 16)) == value % 16);
    }
}

/// Digits written by `hex_number` stay below `16^len`.
pub proof fn lemma_hex_number_bound(text: Seq<u8>)
    ensures
        hex_number(text) < pow16(text.len()),
    decreases text.len(),
{
    if text.len() > 0 {
        lemma_hex_number_bound(text.drop_last());
    }
}

/// The upper-case digit for a value below 16.
pub(crate) fn hex_digit(n: u8) -> (c: u8)
    requires
        n < 16,
    ensures
        c == digit_of(n as nat),
{
    if n < 10 {
        0x30 + n
    } else {
        0x41 + (n - 10)
    }
}

/// The value of a hexadecimal digit of either case, `None` for any other byte.
pub fn hex_value(b: u8) -> (r: Option<u8>)
    ensures
        r is Some <==> is_hex_digit(b),
        r is Some ==> r->0 == digit_value(b),
{
    if 0x30 <= b && b <= 0x39 {
        Some(b - 0x30)
    } else if 0x41 <= b && b <= 0x46 {
        Some(b - 0x41 + 10)
    } else if 0x61 <= b && b <= 0x66 {
        Some(b - 0x61 + 10)
    } else {
        None
    }
}

/// Appends the low `width` digits of `value` to `out`.
pub fn push_hex(out: &mut Vec<u8>, value: u32, width: usize)
    ensures
        final(out)@ == old(out)@ + hex_text(value as nat, width as nat),
    decreases width,
{
    if width > 0 {
        push_hex(out, value / 16, width - 1);
        out.push(hex_digit((value % 16) as u8));
        assert(final(out)@ =~= old(out)@ + hex_text(value as nat, width as nat));
    } else {
        assert(final(out)@ =~= old(out)@ + hex_text(value as nat, width as nat));
    }
}

/// Reads up to eight hexadecimal digits as a number.
///
/// Succeeds exactly when `text` holds at most eight bytes and each is a
/// hexadecimal digit; an empty text reads as 0.
pub fn parse_hex(text: &[u8]) -> (r: Option<u32>)
    ensures
        r is Some <==> text@.len() <= 8 && is_hex_text(text@),
        r is Some ==> r->0 == hex_number(text@),
{
    if text.len() > 8 {
        return None;
    }
    let mut acc: u32 = 0;
    let mut i: usize = 0;
    while i < text.len()
        invariant
            i <= text@.len() <= 8,
            is_hex_text(text@.take(i as int)),
            acc == hex_number(text@.take(i as int)),
        decreases text@.len() - i,
    {
        let ghost before = text@.take(i as int);
        let ghost after = text@.take(i + 1);
        proof {
            assert(after.drop_last() =~= before);
            assert(after.last() == text@[i as int]);
            lemma_hex_number_bound(before);
            lemma_pow16_monotone(i as nat, 7);
            lemma_pow16_values();
        }
        match hex_value(text[i]) {
            Some(d) => {
                acc = acc * 16 + d as u32;
                proof {
                    assert forall|k: int| 0 <= k < after.len() implies is_hex_digit(
                        #[trigger] after[k],
                    ) by {
                        if k < i {
                            assert(after[k] == before[k]);
                        }
                    }
                }
            },
            None => {
                proof {
                    assert(!is_hex_digit(text@[i as int]));
                }
                return None;
            },
        }
        i += 1;
    }
    proof {
        assert(text@.take(i as int) =~= text@);
    }
    Some(acc)
}

/// `pow16` grows with its exponent.
pub proof fn lemma_pow16_monotone(a: nat, b: nat)
    requires
        a <= b,
    ensures
        pow16(a) <= pow16(b),
    decreases b,
{
    if a < b {
        lemma_pow16_monotone(a, (b - 1) as nat);
    }
}

/// The powers of 16 that bound a byte, a word and a double word.
pub proof fn lemma_pow16_values()
    ensures
        pow16(2) == 0x100,
        pow16(4) == 0x1_0000,
        pow16(7) == 0x1000_0000,
        pow16(8) == 0x1_0000_0000,
{
    reveal_with_fuel(pow16, 9);
}

} // verus!
