//! Decoding undoes encoding: the line written for a message reads back as
//! that message.

use vstd::prelude::*;
use crate::error::FrameError;
use crate::hex::{
    hex_text, is_hex_digit, is_hex_text, lemma_hex_round_trip, lemma_hex_text_shape,
    lemma_pow16_values, pow16,
};
use crate::message::{Address, CommandView, MessageView};
use crate::text::{
    bytes_text, is_ascii_bytes, is_text, lemma_text_bytes, strip_cr, text_bytes, LF,
};
use crate::wire::{
    address_at, address_text, byte_sum, check_sum, command_code, command_data, line_of, marker_of,
    number_at, parse_command, parse_line, parse_request, payload_of, ENQ, ETX, STX,
};

verus! {

/// True when no byte of `bytes` is outside ASCII or a line feed.
pub open spec fn is_plain(bytes: Seq<u8>) -> bool {
    forall|i: int| 0 <= i < bytes.len() ==> #[trigger] bytes[i] < 128 && bytes[i] != LF
}

/// Hexadecimal text is plain, and has the width asked for.
pub proof fn lemma_hex_text_plain(value: nat, width: nat)
    ensures
        hex_text(value, width).len() == width,
        is_hex_text(hex_text(value, width)),
        is_plain(hex_text(value, width)),
        is_ascii_bytes(hex_text(value, width)),
{
    lemma_hex_text_shape(value, width);
    let t = hex_text(value, width);
    assert forall|i: int| 0 <= i < t.len() implies #[trigger] t[i] < 128 && t[i] != LF by {
        assert(is_hex_digit(t[i]));
    }
}

/// A text field is written as plain bytes that read back as the text.
pub proof fn lemma_text_plain(chars: Seq<char>)
    requires
        is_text(chars),
    ensures
        text_bytes(chars).len() == chars.len(),
        is_plain(text_bytes(chars)),
        bytes_text(text_bytes(chars)) == chars,
{
    lemma_text_bytes(chars);
    let b = text_bytes(chars);
    assert forall|i: int| 0 <= i < b.len() implies #[trigger] b[i] < 128 && b[i] != LF by {
        assert(chars.contains(chars[i]));
        assert('\0' <= chars[i] <= '\u{7f}');
        assert(b[i] == chars[i] as u8);
        if b[i] == 10 {
            assert(chars[i] == '\n');
        }
    }
}

/// Plain bytes joined are plain.
pub proof fn lemma_plain_concat(a: Seq<u8>, b: Seq<u8>)
    requires
        is_plain(a),
        is_plain(b),
    ensures
        is_plain(a + b),
{
    let c = a + b;
    assert forall|i: int| 0 <= i < c.len() implies #[trigger] c[i] < 128 && c[i] != LF by {
        if i < a.len() {
            assert(c[i] == a[i]);
        } else {
            assert(c[i] == b[i - a.len()]);
        }
    }
}

/// A field that holds the digits of a number reads as that number.
pub proof fn lemma_number_at(body: Seq<u8>, at: int, width: nat, value: nat)
    requires
        0 <= at,
        at + width <= body.len(),
        body.subrange(at, at + width) == hex_text(value, width),
        value < pow16(width),
    ensures
        number_at(body, at, width as int) == Some(value),
{
    lemma_hex_text_shape(value, width);
    lemma_hex_round_trip(value, width);
}

/// An address is written as four plain bytes.
pub proof fn lemma_address_text(address: Address)
    ensures
        is_plain(address_text(address)),
        address_text(address).len() == 4,
{
    let s = hex_text(address.station as nat, 2);
    let p = hex_text(address.plc as nat, 2);
    lemma_hex_text_plain(address.station as nat, 2);
    lemma_hex_text_plain(address.plc as nat, 2);
    lemma_plain_concat(s, p);
}

/// A body that starts with the text of an address reads as that address.
pub proof fn lemma_address(body: Seq<u8>, address: Address)
    requires
        body.len() >= 4,
        body.subrange(0, 4) == address_text(address),
    ensures
        address_at(body) == Some(address),
{
    lemma_pow16_values();
    let s = hex_text(address.station as nat, 2);
    let p = hex_text(address.plc as nat, 2);
    lemma_hex_text_plain(address.station as nat, 2);
    lemma_hex_text_plain(address.plc as nat, 2);
    assert(body.subrange(0, 2) =~= s) by {
        assert(body.subrange(0, 2) =~= body.subrange(0, 4).subrange(0, 2));
        assert((s + p).subrange(0, 2) =~= s);
    }
    assert(body.subrange(2, 4) =~= p) by {
        assert(body.subrange(2, 4) =~= body.subrange(0, 4).subrange(2, 4));
        assert((s + p).subrange(2, 4) =~= p);
    }
    lemma_number_at(body, 0, 2, address.station as nat);
    lemma_number_at(body, 2, 2, address.plc as nat);
}

/// The checksum that ends a line is accepted when it is the sum of what
/// stands before it.
pub proof fn lemma_check_sum(body: Seq<u8>, payload: Seq<u8>)
    requires
        body == payload + hex_text(byte_sum(payload) as nat, 2),
    ensures
        check_sum(body) == Ok::<(), FrameError>(()),
        body.len() == payload.len() + 2,
{
    lemma_pow16_values();
    let sum = hex_text(byte_sum(payload) as nat, 2);
    lemma_hex_text_plain(byte_sum(payload) as nat, 2);
    let n = body.len() as int;
    assert(body.subrange(n - 2, n) =~= sum);
    assert(body.subrange(0, n - 2) =~= payload);
    lemma_number_at(body, n - 2, 2, byte_sum(payload) as nat);
}

/// The line of a valid message holds no line feed and nothing outside ASCII.
pub proof fn lemma_line_is_plain(m: MessageView)
    requires
        m.valid(),
    ensures
        is_plain(line_of(m)),
        is_plain(payload_of(m)),
        line_of(m).len() >= 5,
        line_of(m).last() != crate::text::CR,
{
    let payload = payload_of(m);
    let head = seq![marker_of(m)];
    assert(is_plain(head));
    match m {
        MessageView::Request { address, wait_time, command } => {
            lemma_address_text(address);
            lemma_hex_text_plain(wait_time as nat, 1);
            lemma_hex_text_plain(command.count() as nat, 2);
            lemma_text_plain(command.head_device());
            lemma_text_plain(command_data(command));
            let code = command_code(command);
            assert(is_plain(code));
            let p1 = address_text(address) + code;
            lemma_plain_concat(address_text(address), code);
            let p2 = p1 + hex_text(wait_time as nat, 1);
            lemma_plain_concat(p1, hex_text(wait_time as nat, 1));
            let p3 = p2 + text_bytes(command.head_device());
            lemma_plain_concat(p2, text_bytes(command.head_device()));
            let p4 = p3 + hex_text(command.count() as nat, 2);
            lemma_plain_concat(p3, hex_text(command.count() as nat, 2));
            lemma_plain_concat(p4, text_bytes(command_data(command)));
        },
        MessageView::Ack(address) => {
            lemma_address_text(address);
        },
        MessageView::Nak(address) => {
            lemma_address_text(address);
        },
        MessageView::NakWithError { address, error_code } => {
            lemma_address_text(address);
            lemma_hex_text_plain(error_code as nat, 2);
            lemma_plain_concat(address_text(address), hex_text(error_code as nat, 2));
        },
        MessageView::Response { address, data } => {
            lemma_address_text(address);
            lemma_text_plain(data);
            let end = seq![ETX];
            assert(is_plain(end));
            lemma_plain_concat(address_text(address), text_bytes(data));
            lemma_plain_concat(address_text(address) + text_bytes(data), end);
        },
    }
    lemma_plain_concat(head, payload);
    let sum = hex_text(byte_sum(payload) as nat, 2);
    lemma_hex_text_plain(byte_sum(payload) as nat, 2);
    lemma_plain_concat(head + payload, sum);
    let line = line_of(m);
    if marker_of(m) == STX || marker_of(m) == ENQ {
        assert(line.last() == sum[1]);
        assert(is_hex_digit(sum[1]));
    } else {
        let a = match m {
            MessageView::Ack(a) => a,
            MessageView::Nak(a) => a,
            MessageView::NakWithError { address, .. } => address,
            _ => arbitrary(),
        };
        let p = hex_text(a.plc as nat, 2);
        lemma_hex_text_plain(a.plc as nat, 2);
        if m is NakWithError {
            let e = hex_text(m->error_code as nat, 2);
            assert(line.last() == e[1]);
            assert(is_hex_digit(e[1]));
        } else {
            assert(line.last() == p[1]);
            assert(is_hex_digit(p[1]));
        }
    }
}

/// The body of a line as the decoder sees it: the line without its marker.
proof fn lemma_body(m: MessageView) -> (body: Seq<u8>)
    requires
        m.valid(),
    ensures
        body == strip_cr(line_of(m).skip(1)),
        is_ascii_bytes(body),
        line_of(m).len() > 0,
        line_of(m)[0] == marker_of(m),
        crate::wire::has_checksum(marker_of(m)) ==> body == payload_of(m) + hex_text(
            byte_sum(payload_of(m)) as nat,
            2,
        ),
        !crate::wire::has_checksum(marker_of(m)) ==> body == payload_of(m),
{
    lemma_line_is_plain(m);
    let line = line_of(m);
    let body = line.skip(1);
    assert(body.last() == line.last());
    assert forall|i: int| 0 <= i < body.len() implies #[trigger] body[i] < 128 by {
        assert(body[i] == line[i + 1]);
    }
    let payload = payload_of(m);
    if crate::wire::has_checksum(marker_of(m)) {
        assert(body =~= payload + hex_text(byte_sum(payload) as nat, 2));
    } else {
        assert(body =~= payload);
    }
    body
}

/// The command of a valid request reads back from the request's line.
proof fn lemma_command_round_trip(body: Seq<u8>, address: Address, wait_time: u8, command: CommandView)
    requires
        command.valid(),
        wait_time <= 15,
        body == payload_of(MessageView::Request { address, wait_time, command }) + hex_text(
            byte_sum(payload_of(MessageView::Request { address, wait_time, command })) as nat,
            2,
        ),
    ensures
        body.len() >= 16,
        body.subrange(0, 4) == address_text(address),
        parse_command(body) == Ok::<CommandView, FrameError>(command),
        number_at(body, 6, 1) == Some(wait_time as nat),
{
    lemma_pow16_values();
    crate::hex::lemma_pow16_monotone(1, 2);
    reveal_with_fuel(pow16, 2);
    let m = MessageView::Request { address, wait_time, command };
    let payload = payload_of(m);
    let head = command.head_device();
    let data = command_data(command);
    let count = command.count();
    lemma_address_text(address);
    lemma_hex_text_plain(wait_time as nat, 1);
    lemma_hex_text_plain(count as nat, 2);
    lemma_hex_text_plain(byte_sum(payload) as nat, 2);
    lemma_text_plain(head);
    lemma_text_plain(data);
    let n = body.len() as int;
    assert(n == 16 + data.len());
    assert(body.subrange(0, 4) =~= address_text(address));
    assert(body.subrange(4, 6) =~= command_code(command));
    assert(body[4] == body.subrange(4, 6)[0]);
    assert(body[5] == body.subrange(4, 6)[1]);
    assert(body.subrange(6, 7) =~= hex_text(wait_time as nat, 1));
    assert(body.subrange(7, 12) =~= text_bytes(head));
    assert(body.subrange(12, 14) =~= hex_text(count as nat, 2));
    assert(body.subrange(14, n - 2) =~= text_bytes(data));
    lemma_number_at(body, 6, 1, wait_time as nat);
    lemma_number_at(body, 12, 2, count as nat);
}

/// Round trip of one line: for every message that meets the message model,
/// the line written for it is read back as the same message.
pub proof fn lemma_line_round_trip(m: MessageView)
    requires
        m.valid(),
    ensures
        parse_line(line_of(m)) == Ok::<MessageView, FrameError>(m),
{
    lemma_pow16_values();
    let body = lemma_body(m);
    let payload = payload_of(m);
    match m {
        MessageView::Request { address, wait_time, command } => {
            lemma_command_round_trip(body, address, wait_time, command);
            lemma_address(body, address);
            lemma_check_sum(body, payload);
            assert(parse_request(body) == Ok::<MessageView, FrameError>(m));
        },
        MessageView::Ack(address) => {
            lemma_address_text(address);
            assert(body.subrange(0, 4) =~= address_text(address));
            lemma_address(body, address);
        },
        MessageView::Nak(address) => {
            lemma_address_text(address);
            assert(body.subrange(0, 4) =~= address_text(address));
            lemma_address(body, address);
        },
        MessageView::NakWithError { address, error_code } => {
            lemma_address_text(address);
            lemma_hex_text_plain(error_code as nat, 2);
            assert(body.subrange(0, 4) =~= address_text(address));
            assert(body.subrange(4, 6) =~= hex_text(error_code as nat, 2));
            lemma_address(body, address);
            lemma_number_at(body, 4, 2, error_code as nat);
        },
        MessageView::Response { address, data } => {
            lemma_address_text(address);
            lemma_text_plain(data);
            lemma_check_sum(body, payload);
            let n = body.len() as int;
            assert(n == data.len() + 7);
            assert(body.subrange(0, 4) =~= address_text(address));
            assert(body.subrange(4, n - 3) =~= text_bytes(data));
            assert(body[n - 3] == ETX);
            lemma_address(body, address);
        },
    }
}

} // verus!
