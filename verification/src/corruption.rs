//! What the checksum is good for: a line with one byte changed is never
//! taken for a message.

use vstd::prelude::*;
use crate::error::FrameError;
use crate::hex::{hex_text, is_hex_digit, lemma_pow16_values};
use crate::message::MessageView;
use crate::roundtrip::{lemma_hex_text_plain, lemma_line_is_plain, lemma_number_at};
use crate::text::{is_ascii_bytes, strip_cr};
use crate::wire::{
    address_at, byte_sum, check_sum, has_checksum, line_of, marker_of, parse_command,
    parse_line, parse_request, parse_response, payload_of, total,
};

verus! {

/// Changing one byte changes the sum by the difference of the two bytes.
pub proof fn lemma_total_update(bytes: Seq<u8>, at: int, byte: u8)
    requires
        0 <= at < bytes.len(),
    ensures
        total(bytes.update(at, byte)) == total(bytes) - bytes[at] + byte,
    decreases bytes.len(),
{
    let changed = bytes.update(at, byte);
    if at == bytes.len() - 1 {
        assert(changed.drop_last() =~= bytes.drop_last());
    } else {
        assert(changed.drop_last() =~= bytes.drop_last().update(at, byte));
        lemma_total_update(bytes.drop_last(), at, byte);
    }
}

/// Checksum correctness: the 8-bit sum of a sequence changes whenever one of
/// its bytes changes.
pub proof fn lemma_sum_detects_change(bytes: Seq<u8>, at: int, byte: u8)
    requires
        0 <= at < bytes.len(),
        byte != bytes[at],
    ensures
        byte_sum(bytes.update(at, byte)) != byte_sum(bytes),
{
    lemma_total_update(bytes, at, byte);
    let a = total(bytes);
    let d = byte - bytes[at];
    assert((a + d) % 256 != a % 256) by (nonlinear_arith)
        requires
            -256 < d < 256,
            d != 0,
    ;
}

/// The line with its last two bytes replaced by the checksum that its body
/// calls for.
pub open spec fn resummed(line: Seq<u8>) -> Seq<u8> {
    let n = line.len() as int;
    line.subrange(0, n - 2) + hex_text(byte_sum(line.subrange(1, n - 2)) as nat, 2)
}

/// Two bodies that differ in their checksums only are read alike up to the
/// checksum: where the one with the wrong checksum fails earlier, so does the
/// other.
proof fn lemma_same_layout(body: Seq<u8>, other: Seq<u8>)
    requires
        body.len() == other.len(),
        body.len() >= 2,
        forall|j: int| 0 <= j < body.len() - 2 ==> body[j] == other[j],
        check_sum(body) == Err::<(), FrameError>(FrameError::ChecksumMismatch),
    ensures
        parse_response(body) is Err,
        parse_request(body) is Err,
        parse_response(other) is Ok ==> parse_response(body) == Err::<MessageView, FrameError>(
            FrameError::ChecksumMismatch,
        ),
        parse_request(other) is Ok ==> parse_request(body) == Err::<MessageView, FrameError>(
            FrameError::ChecksumMismatch,
        ),
{
    let n = body.len() as int;
    if n >= 7 {
        assert(body.subrange(0, 2) =~= other.subrange(0, 2));
        assert(body.subrange(2, 4) =~= other.subrange(2, 4));
        assert(address_at(body) == address_at(other));
        assert(body[n - 3] == other[n - 3]);
        if n >= 16 {
            assert(body[4] == other[4]);
            assert(body[5] == other[5]);
            assert(body.subrange(6, 7) =~= other.subrange(6, 7));
            assert(body.subrange(7, 12) =~= other.subrange(7, 12));
            assert(body.subrange(12, 14) =~= other.subrange(12, 14));
            assert(body.subrange(14, n - 2) =~= other.subrange(14, n - 2));
            assert(parse_command(body) == parse_command(other));
        }
    }
}

/// The body of a line with a checksum in which one byte in front of the
/// checksum was changed: the changed payload and the old checksum, which no
/// longer fits.
proof fn lemma_changed_body(m: MessageView, at: int, byte: u8)
    requires
        m.valid(),
        has_checksum(marker_of(m)),
        1 <= at <= payload_of(m).len(),
        byte != line_of(m)[at],
    ensures
        ({
            let bad = line_of(m).update(at, byte);
            let body = bad.skip(1);
            let other = resummed(bad).skip(1);
            &&& bad.len() == resummed(bad).len()
            &&& bad.len() >= 3
            &&& bad[0] == marker_of(m)
            &&& resummed(bad)[0] == marker_of(m)
            &&& strip_cr(body) == body
            &&& strip_cr(other) == other
            &&& forall|j: int| 0 <= j < body.len() - 2 ==> body[j] == other[j]
            &&& is_ascii_bytes(body) == is_ascii_bytes(other)
            &&& check_sum(body) == Err::<(), FrameError>(FrameError::ChecksumMismatch)
        }),
{
    lemma_pow16_values();
    lemma_line_is_plain(m);
    let payload = payload_of(m);
    let sum = hex_text(byte_sum(payload) as nat, 2);
    lemma_hex_text_plain(byte_sum(payload) as nat, 2);
    let line = line_of(m);
    let bad = line.update(at, byte);
    let n = (line.len() - 1) as int;
    let body = bad.skip(1);
    let changed = payload.update(at - 1, byte);
    assert(body =~= changed + sum);
    assert(is_hex_digit(sum[1]));
    assert(body.last() == sum[1]);
    assert(body.subrange(n - 2, n) =~= sum);
    assert(body.subrange(0, n - 2) =~= changed);
    lemma_number_at(body, n - 2, 2, byte_sum(payload) as nat);
    lemma_sum_detects_change(payload, at - 1, byte);
    let good = resummed(bad);
    let fixed = hex_text(byte_sum(changed) as nat, 2);
    lemma_hex_text_plain(byte_sum(changed) as nat, 2);
    assert(bad.subrange(1, bad.len() - 2) =~= changed);
    let other = good.skip(1);
    assert(other =~= changed + fixed);
    assert(is_hex_digit(fixed[1]));
    assert(other.last() == fixed[1]);
    assert(is_hex_digit(fixed[0]));
    assert(is_hex_digit(sum[0]));
    if is_ascii_bytes(body) {
        assert forall|i: int| 0 <= i < other.len() implies #[trigger] other[i] < 128 by {
            if i < n - 2 {
                assert(other[i] == body[i]);
            } else {
                assert(other[i] == fixed[i - (n - 2)]);
            }
        }
    }
    if is_ascii_bytes(other) {
        assert forall|i: int| 0 <= i < body.len() implies #[trigger] body[i] < 128 by {
            if i < n - 2 {
                assert(body[i] == other[i]);
            } else {
                assert(body[i] == sum[i - (n - 2)]);
            }
        }
    }
}

/// Corruption is detected: take the line of a valid response or request and
/// change one byte between the marker and the checksum. The changed line is
/// never decoded to a message. The error is `ChecksumMismatch` whenever the
/// change leaves a line that would be accepted with the right checksum; a
/// change that breaks the layout is reported as what it breaks.
pub proof fn lemma_corruption_detected(m: MessageView, at: int, byte: u8)
    requires
        m.valid(),
        has_checksum(marker_of(m)),
        1 <= at <= payload_of(m).len(),
        byte != line_of(m)[at],
    ensures
        parse_line(line_of(m).update(at, byte)) is Err,
        parse_line(resummed(line_of(m).update(at, byte))) is Ok ==> parse_line(
            line_of(m).update(at, byte),
        ) == Err::<MessageView, FrameError>(FrameError::ChecksumMismatch),
{
    let bad = line_of(m).update(at, byte);
    lemma_changed_body(m, at, byte);
    lemma_same_layout(bad.skip(1), resummed(bad).skip(1));
}

/// A single-bit flip is detected: the line of a valid response or request
/// with one bit flipped between the marker and the checksum is never decoded
/// to a message, and is reported as `ChecksumMismatch` wherever the flip
/// leaves the layout of the line intact.
pub proof fn lemma_bit_flip_detected(m: MessageView, at: int, bit: u8)
    requires
        m.valid(),
        has_checksum(marker_of(m)),
        1 <= at <= payload_of(m).len(),
        bit < 8,
    ensures
        parse_line(line_of(m).update(at, line_of(m)[at] ^ (1u8 << bit))) is Err,
        parse_line(resummed(line_of(m).update(at, line_of(m)[at] ^ (1u8 << bit)))) is Ok
            ==> parse_line(line_of(m).update(at, line_of(m)[at] ^ (1u8 << bit))) == Err::<
            MessageView,
            FrameError,
        >(FrameError::ChecksumMismatch),
{
    let old = line_of(m)[at];
    assert(old ^ (1u8 << bit) != old) by (bit_vector)
        requires
            bit < 8,
    ;
    lemma_corruption_detected(m, at, old ^ (1u8 << bit));
}

} // verus!
