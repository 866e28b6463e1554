//! The wire format: one message as one line.
//!
//! A line starts with a marker byte that selects the kind of message:
//!
//! | marker | kind | body after the marker |
//! |---|---|---|
//! | `STX` | response | station(2) plc(2) data `ETX` checksum(2) |
//! | `ACK` | acknowledgement | station(2) plc(2) |
//! | `NAK` | negative acknowledgement | station(2) plc(2) \[error code(2)\] |
//! | `ENQ` | request | station(2) plc(2) command(2) wait(1) device(5) count(2) \[data\] checksum(2) |
//!
//! Numbers are upper-case hexadecimal of the width given. The checksum is the
//! sum, modulo 256, of the bytes between the marker and the checksum itself.

use vstd::prelude::*;
use crate::error::FrameError;
use crate::hex::{
    hex_number, hex_text, is_hex_text, lemma_hex_number_bound, lemma_pow16_values, parse_hex,
    push_hex,
};
use crate::message::{
    Address, Command, CommandView, Message, MessageView, NakWithError, ReadWordsCommand, Request,
    Response, WriteWordsCommand,
};
use crate::text::{
    all_ascii, ascii_string, bytes_text, is_ascii_bytes, lemma_text_bytes, strip_cr, text_bytes,
    without_carriage_return, LF,
};

verus! {

pub const STX: u8 = 2;

pub const ETX: u8 = 3;

pub const ENQ: u8 = 5;

pub const ACK: u8 = 6;

pub const NAK: u8 = 21;

/// The letter `W`, first byte of both command codes.
pub const CODE_W: u8 = 0x57;

/// The letter `R`, second byte of the code for reading words.
pub const CODE_R: u8 = 0x52;

/// The sum of the bytes as a mathematical integer.
pub open spec fn total(bytes: Seq<u8>) -> int
    decreases bytes.len(),
{
    if bytes.len() == 0 {
        0
    } else {
        total(bytes.drop_last()) + bytes.last()
    }
}

/// The sum of the bytes modulo 256.
pub open spec fn byte_sum(bytes: Seq<u8>) -> u8 {
    (total(bytes) % 256) as u8
}

/// The 8-bit wraparound sum of `data`.
pub fn checksum(data: &[u8]) -> (r: u8)
    ensures
        r == byte_sum(data@),
{
    let mut sum: u8 = 0;
    let mut i: usize = 0;
    while i < data.len()
        invariant
            i <= data@.len(),
            sum == byte_sum(data@.take(i as int)),
        decreases data@.len() - i,
    {
        proof {
            assert(data@.take(i + 1).drop_last() =~= data@.take(i as int));
        }
        sum = sum.wrapping_add(data[i]);
        i += 1;
    }
    proof {
        assert(data@.take(i as int) =~= data@);
    }
    sum
}

/// The number written in `width` bytes of `body` from `at` on, if they are
/// hexadecimal digits.
pub open spec fn number_at(body: Seq<u8>, at: int, width: int) -> Option<nat> {
    let field = body.subrange(at, at + width);
    if is_hex_text(field) {
        Some(hex_number(field))
    } else {
        None
    }
}

/// The address in the first four bytes of `body`.
pub open spec fn address_at(body: Seq<u8>) -> Option<Address> {
    match (number_at(body, 0, 2), number_at(body, 2, 2)) {
        (Some(station), Some(plc)) => Some(Address { station: station as u8, plc: plc as u8 }),
        _ => None,
    }
}

/// What the body of an `ACK` line says.
pub open spec fn parse_ack(body: Seq<u8>) -> Result<MessageView, FrameError> {
    if body.len() != 4 {
        Err(FrameError::InvalidAck)
    } else {
        match address_at(body) {
            Some(address) => Ok(MessageView::Ack(address)),
            None => Err(FrameError::InvalidNumber),
        }
    }
}

/// What the body of a `NAK` line says.
pub open spec fn parse_nak(body: Seq<u8>) -> Result<MessageView, FrameError> {
    if body.len() != 4 && body.len() != 6 {
        Err(FrameError::InvalidNak)
    } else {
        match address_at(body) {
            Some(address) => if body.len() == 4 {
                Ok(MessageView::Nak(address))
            } else {
                match number_at(body, 4, 2) {
                    Some(code) => Ok(
                        MessageView::NakWithError { address, error_code: code as u8 },
                    ),
                    None => Err(FrameError::InvalidNumber),
                }
            },
            None => Err(FrameError::InvalidNumber),
        }
    }
}

/// The verdict on the checksum in the last two bytes of `body`, which must
/// equal the sum of the bytes before it.
pub open spec fn check_sum(body: Seq<u8>) -> Result<(), FrameError> {
    let n = body.len() as int;
    match number_at(body, n - 2, 2) {
        None => Err(FrameError::InvalidNumber),
        Some(stated) => if stated == byte_sum(body.subrange(0, n - 2)) {
            Ok(())
        } else {
            Err(FrameError::ChecksumMismatch)
        },
    }
}

/// What the body of an `STX` line says.
pub open spec fn parse_response(body: Seq<u8>) -> Result<MessageView, FrameError> {
    let n = body.len() as int;
    if n < 7 {
        Err(FrameError::Truncated)
    } else {
        match address_at(body) {
            None => Err(FrameError::InvalidNumber),
            Some(address) => if body[n - 3] != ETX {
                Err(FrameError::MissingEtx)
            } else {
                match check_sum(body) {
                    Err(e) => Err(e),
                    Ok(_) => Ok(
                        MessageView::Response {
                            address,
                            data: bytes_text(body.subrange(4, n - 3)),
                        },
                    ),
                }
            },
        }
    }
}

/// The command in the body of an `ENQ` line of at least seven bytes.
pub open spec fn parse_command(body: Seq<u8>) -> Result<CommandView, FrameError> {
    let n = body.len() as int;
    if body[4] != CODE_W || (body[5] != CODE_W && body[5] != CODE_R) {
        Err(FrameError::UnknownCommand(body[4], body[5]))
    } else if n < 16 {
        Err(FrameError::Truncated)
    } else {
        let head_device = bytes_text(body.subrange(7, 12));
        match number_at(body, 12, 2) {
            None => Err(FrameError::InvalidNumber),
            Some(count) => if body[5] == CODE_W {
                if n - 16 != count * 4 {
                    Err(FrameError::DataLength)
                } else {
                    Ok(
                        CommandView::WriteWords {
                            head_device,
                            count: count as u8,
                            data: bytes_text(body.subrange(14, n - 2)),
                        },
                    )
                }
            } else {
                if n != 16 {
                    Err(FrameError::DataLength)
                } else {
                    Ok(CommandView::ReadWords { head_device, count: count as u8 })
                }
            },
        }
    }
}

/// What the body of an `ENQ` line says.
pub open spec fn parse_request(body: Seq<u8>) -> Result<MessageView, FrameError> {
    if body.len() < 7 {
        Err(FrameError::IncompleteHeader)
    } else {
        match address_at(body) {
            None => Err(FrameError::InvalidNumber),
            Some(address) => match parse_command(body) {
                Err(e) => Err(e),
                Ok(command) => match number_at(body, 6, 1) {
                    None => Err(FrameError::InvalidNumber),
                    Some(wait) => match check_sum(body) {
                        Err(e) => Err(e),
                        Ok(_) => Ok(
                            MessageView::Request { address, wait_time: wait as u8, command },
                        ),
                    },
                },
            },
        }
    }
}

/// What a line says, the line feed at its end left out.
///
/// The checks are made in this order: the line is not empty; its body, without
/// a carriage return at its end, is ASCII; the marker is known; then the
/// fields from left to right, and the checksum last.
pub open spec fn parse_line(line: Seq<u8>) -> Result<MessageView, FrameError> {
    if line.len() == 0 {
        Err(FrameError::InvalidMarker)
    } else {
        let body = strip_cr(line.skip(1));
        if !is_ascii_bytes(body) {
            Err(FrameError::NotText)
        } else if line[0] == STX {
            parse_response(body)
        } else if line[0] == ACK {
            parse_ack(body)
        } else if line[0] == NAK {
            parse_nak(body)
        } else if line[0] == ENQ {
            parse_request(body)
        } else {
            Err(FrameError::InvalidMarker)
        }
    }
}

/// An address as four hexadecimal digits.
pub open spec fn address_text(address: Address) -> Seq<u8> {
    hex_text(address.station as nat, 2) + hex_text(address.plc as nat, 2)
}

/// The two letters that name a command.
pub open spec fn command_code(command: CommandView) -> Seq<u8> {
    match command {
        CommandView::ReadWords { .. } => seq![CODE_W, CODE_R],
        CommandView::WriteWords { .. } => seq![CODE_W, CODE_W],
    }
}

/// The data that a command writes; none for a read.
pub open spec fn command_data(command: CommandView) -> Seq<char> {
    match command {
        CommandView::ReadWords { .. } => Seq::empty(),
        CommandView::WriteWords { data, .. } => data,
    }
}

/// The marker byte of a message.
pub open spec fn marker_of(m: MessageView) -> u8 {
    match m {
        MessageView::Request { .. } => ENQ,
        MessageView::Ack(_) => ACK,
        MessageView::Nak(_) => NAK,
        MessageView::NakWithError { .. } => NAK,
        MessageView::Response { .. } => STX,
    }
}

/// The bytes of a message between the marker and the checksum.
pub open spec fn payload_of(m: MessageView) -> Seq<u8> {
    match m {
        MessageView::Request { address, wait_time, command } => address_text(address)
            + command_code(command) + hex_text(wait_time as nat, 1) + text_bytes(
            command.head_device(),
        ) + hex_text(command.count() as nat, 2) + text_bytes(command_data(command)),
        MessageView::Ack(address) => address_text(address),
        MessageView::Nak(address) => address_text(address),
        MessageView::NakWithError { address, error_code } => address_text(address) + hex_text(
            error_code as nat,
            2,
        ),
        MessageView::Response { address, data } => address_text(address) + text_bytes(data)
            + seq![ETX],
    }
}

/// True for the two markers whose lines end in a checksum.
pub open spec fn has_checksum(marker: u8) -> bool {
    marker == STX || marker == ENQ
}

/// The line that stands for a message, without the line feed.
pub open spec fn line_of(m: MessageView) -> Seq<u8> {
    let payload = payload_of(m);
    if has_checksum(marker_of(m)) {
        seq![marker_of(m)] + payload + hex_text(byte_sum(payload) as nat, 2)
    } else {
        seq![marker_of(m)] + payload
    }
}

/// The frame that stands for a message: its line and a line feed.
pub open spec fn frame_of(m: MessageView) -> Seq<u8> {
    line_of(m).push(LF)
}

/// True when `r` is what the specification `v` says: the message with that
/// view, or that error.
pub open spec fn agrees(r: Result<Message, FrameError>, v: Result<MessageView, FrameError>) -> bool {
    match v {
        Ok(m) => r is Ok && r->Ok_0@ == m,
        Err(e) => r is Err && r->Err_0 == e,
    }
}

/// Reads the two hexadecimal digits of `body` at `at`.
fn read_byte(body: &[u8], at: usize) -> (r: Option<u8>)
    requires
        at + 2 <= body.len(),
    ensures
        r is Some <==> number_at(body@, at as int, 2) is Some,
        r is Some ==> r->0 == number_at(body@, at as int, 2)->0,
{
    let field = &body[at..at + 2];
    proof {
        lemma_hex_number_bound(field@);
        lemma_pow16_values();
    }
    match parse_hex(field) {
        Some(n) => Some(n as u8),
        None => None,
    }
}

/// Reads the address in the first four bytes of `body`.
fn read_address(body: &[u8]) -> (r: Option<Address>)
    requires
        body@.len() >= 4,
    ensures
        r == address_at(body@),
{
    match read_byte(body, 0) {
        Some(station) => match read_byte(body, 2) {
            Some(plc) => Some(Address { station, plc }),
            None => None,
        },
        None => None,
    }
}

/// Compares the checksum at the end of `body` with the sum of what stands
/// before it.
fn verify_sum(body: &[u8]) -> (r: Result<(), FrameError>)
    requires
        body@.len() >= 2,
    ensures
        r == check_sum(body@),
{
    let n = body.len();
    match read_byte(body, n - 2) {
        None => Err(FrameError::InvalidNumber),
        Some(stated) => if stated == checksum(&body[0..n - 2]) {
            Ok(())
        } else {
            Err(FrameError::ChecksumMismatch)
        },
    }
}

fn decode_ack(body: &[u8]) -> (r: Result<Message, FrameError>)
    ensures
        agrees(r, parse_ack(body@)),
{
    if body.len() != 4 {
        return Err(FrameError::InvalidAck);
    }
    match read_address(body) {
        Some(address) => Ok(Message::Ack(address)),
        None => Err(FrameError::InvalidNumber),
    }
}

fn decode_nak(body: &[u8]) -> (r: Result<Message, FrameError>)
    ensures
        agrees(r, parse_nak(body@)),
{
    if body.len() != 4 && body.len() != 6 {
        return Err(FrameError::InvalidNak);
    }
    match read_address(body) {
        Some(address) => if body.len() == 4 {
            Ok(Message::Nak(address))
        } else {
            match read_byte(body, 4) {
                Some(error_code) => Ok(Message::NakWithError(NakWithError { address, error_code })),
                None => Err(FrameError::InvalidNumber),
            }
        },
        None => Err(FrameError::InvalidNumber),
    }
}

fn decode_response(body: &[u8]) -> (r: Result<Message, FrameError>)
    requires
        is_ascii_bytes(body@),
    ensures
        agrees(r, parse_response(body@)),
{
    let n = body.len();
    if n < 7 {
        return Err(FrameError::Truncated);
    }
    let address = match read_address(body) {
        Some(address) => address,
        None => {
            return Err(FrameError::InvalidNumber);
        },
    };
    if body[n - 3] != ETX {
        return Err(FrameError::MissingEtx);
    }
    match verify_sum(body) {
        Err(e) => Err(e),
        Ok(_) => {
            let data = ascii_string(&body[4..n - 3]);
            Ok(Message::Response(Response { address, data }))
        },
    }
}

fn decode_command(body: &[u8]) -> (r: Result<Command, FrameError>)
    requires
        is_ascii_bytes(body@),
        body@.len() >= 7,
    ensures
        match parse_command(body@) {
            Ok(c) => r is Ok && r->Ok_0@ == c,
            Err(e) => r is Err && r->Err_0 == e,
        },
{
    let n = body.len();
    if body[4] != CODE_W || (body[5] != CODE_W && body[5] != CODE_R) {
        return Err(FrameError::UnknownCommand(body[4], body[5]));
    }
    if n < 16 {
        return Err(FrameError::Truncated);
    }
    let head_device = ascii_string(&body[7..12]);
    let number_of_device_points = match read_byte(body, 12) {
        Some(count) => count,
        None => {
            return Err(FrameError::InvalidNumber);
        },
    };
    if body[5] == CODE_W {
        if n - 16 != number_of_device_points as usize * 4 {
            return Err(FrameError::DataLength);
        }
        let data = ascii_string(&body[14..n - 2]);
        Ok(Command::WriteWords(WriteWordsCommand { head_device, number_of_device_points, data }))
    } else {
        if n != 16 {
            return Err(FrameError::DataLength);
        }
        Ok(Command::ReadWords(ReadWordsCommand { head_device, number_of_device_points }))
    }
}

fn decode_request(body: &[u8]) -> (r: Result<Message, FrameError>)
    requires
        is_ascii_bytes(body@),
    ensures
        agrees(r, parse_request(body@)),
{
    if body.len() < 7 {
        return Err(FrameError::IncompleteHeader);
    }
    let address = match read_address(body) {
        Some(address) => address,
        None => {
            return Err(FrameError::InvalidNumber);
        },
    };
    let command = match decode_command(body) {
        Ok(command) => command,
        Err(e) => {
            return Err(e);
        },
    };
    let msg_wait_time = match parse_hex(&body[6..7]) {
        Some(wait) => {
            proof {
                lemma_hex_number_bound(body@.subrange(6, 7));
                crate::hex::lemma_pow16_monotone(1, 2);
                lemma_pow16_values();
            }
            wait as u8
        },
        None => {
            return Err(FrameError::InvalidNumber);
        },
    };
    match verify_sum(body) {
        Err(e) => Err(e),
        Ok(_) => Ok(Message::Request(Request { address, command, msg_wait_time })),
    }
}

/// Decodes one line, the line feed at its end left out.
///
/// Returns the message that `parse_line` finds in the line, or the error that
/// it gives; it fails on no input.
pub fn decode_line(line: &[u8]) -> (r: Result<Message, FrameError>)
    ensures
        agrees(r, parse_line(line@)),
{
    if line.len() == 0 {
        return Err(FrameError::InvalidMarker);
    }
    let first: u8 = line[0];
    let body = without_carriage_return(&line[1..line.len()]);
    proof {
        assert(line@.subrange(1, line@.len() as int) =~= line@.skip(1));
    }
    if !all_ascii(body) {
        return Err(FrameError::NotText);
    }
    if first == STX {
        decode_response(body)
    } else if first == ACK {
        decode_ack(body)
    } else if first == NAK {
        decode_nak(body)
    } else if first == ENQ {
        decode_request(body)
    } else {
        Err(FrameError::InvalidMarker)
    }
}

/// Appends an address as four hexadecimal digits.
fn push_address(out: &mut Vec<u8>, address: Address)
    ensures
        final(out)@ == old(out)@ + address_text(address),
{
    push_hex(out, address.station as u32, 2);
    push_hex(out, address.plc as u32, 2);
    assert(final(out)@ =~= old(out)@ + address_text(address));
}

/// Appends a text field, one byte for each character.
fn push_text(out: &mut Vec<u8>, text: &str)
    requires
        vstd::utf8::is_ascii_chars(text@),
    ensures
        final(out)@ == old(out)@ + text_bytes(text@),
{
    proof {
        lemma_text_bytes(text@);
    }
    out.extend_from_slice(text.as_bytes());
}

/// Appends the checksum of everything behind the marker, then the line feed.
fn push_sum_and_end(out: &mut Vec<u8>)
    requires
        old(out)@.len() >= 1,
    ensures
        final(out)@ == (old(out)@ + hex_text(byte_sum(old(out)@.skip(1)) as nat, 2)).push(LF),
{
    let n = out.len();
    let sum = checksum(&out.as_slice()[1..n]);
    proof {
        assert(out@.subrange(1, n as int) =~= out@.skip(1));
    }
    push_hex(out, sum as u32, 2);
    out.push(LF);
}

/// Encodes one message as a frame: its line and the line feed.
///
/// Succeeds exactly on the messages that meet the message model; the checksum
/// is computed from the body that this call builds.
pub fn encode_frame(item: &Message) -> (r: Result<Vec<u8>, FrameError>)
    ensures
        item@.valid() ==> r is Ok && r->Ok_0@ == frame_of(item@),
        !item@.valid() ==> r is Err && r->Err_0 == FrameError::InvalidMessage,
{
    if !item.is_valid() {
        return Err(FrameError::InvalidMessage);
    }
    let mut out: Vec<u8> = Vec::new();
    match item {
        Message::Response(p) => {
            out.push(STX);
            push_address(&mut out, p.address);
            push_text(&mut out, p.data.as_str());
            out.push(ETX);
            proof {
                assert(out@.skip(1) =~= payload_of(item@));
                assert(out@ =~= seq![marker_of(item@)] + payload_of(item@));
            }
            push_sum_and_end(&mut out);
        },
        Message::Ack(p) => {
            out.push(ACK);
            push_address(&mut out, *p);
            out.push(LF);
            proof {
                assert(out@ =~= frame_of(item@));
            }
        },
        Message::Nak(p) => {
            out.push(NAK);
            push_address(&mut out, *p);
            out.push(LF);
            proof {
                assert(out@ =~= frame_of(item@));
            }
        },
        Message::NakWithError(p) => {
            out.push(NAK);
            push_address(&mut out, p.address);
            push_hex(&mut out, p.error_code as u32, 2);
            out.push(LF);
            proof {
                assert(out@ =~= frame_of(item@));
            }
        },
        Message::Request(p) => {
            out.push(ENQ);
            push_address(&mut out, p.address);
            out.push(CODE_W);
            match &p.command {
                Command::WriteWords(_) => {
                    out.push(CODE_W);
                },
                Command::ReadWords(_) => {
                    out.push(CODE_R);
                },
            }
            push_hex(&mut out, p.msg_wait_time as u32, 1);
            match &p.command {
                Command::WriteWords(c) => {
                    push_text(&mut out, c.head_device.as_str());
                    push_hex(&mut out, c.number_of_device_points as u32, 2);
                    push_text(&mut out, c.data.as_str());
                },
                Command::ReadWords(c) => {
                    push_text(&mut out, c.head_device.as_str());
                    push_hex(&mut out, c.number_of_device_points as u32, 2);
                },
            }
            proof {
                assert(out@.skip(1) =~= payload_of(item@));
                assert(out@ =~= seq![marker_of(item@)] + payload_of(item@));
            }
            push_sum_and_end(&mut out);
        },
    }
    Ok(out)
}

} // verus!
