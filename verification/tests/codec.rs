use bytes::BytesMut;
use fx_communication::codec::FxCodec;
use fx_communication::error::FrameError;
use fx_communication::message::{
    Address, Command, Message, NakWithError, ReadWordsCommand, Request, Response,
    WriteWordsCommand,
};
use fx_communication::wire::{checksum, decode_line, encode_frame};
use fx_communication::word::{format_i16, format_i32, parse_i16, parse_i32};

fn write_request() -> Message {
    let address = Address::new(0, 255);
    Message::Request(Request::new(
        address,
        0,
        Command::WriteWords(WriteWordsCommand::new(
            "M0640".to_string(),
            2,
            "2347AB96".to_string(),
        )),
    ))
}

#[test]
#[allow(non_snake_case)]
fn decode_WriteWordsCommand() {
    let mut codec = FxCodec::new();
    let mut buf = BytesMut::with_capacity(1000);

    let message = write_request();

    codec.encode(message, &mut buf).unwrap();
    let b = buf.split();
    let result = b.as_ref();

    assert_eq!(result, b"\x0500FFWW0M0640022347AB9605\n");
}

#[test]
fn check_checksum() {
    let result = checksum(b"05FFBRAX004005");
    assert_eq!(result, 0x47);
}

#[test]
fn hex2i16() {
    let v: i16 = i16::MAX;
    let v = v.wrapping_add(100);
    assert_eq!(v, i16::MIN + 100 - 1);
    let data = format_i16(v);
    assert_eq!(data, "8063");
    let result = parse_i16(&data).unwrap();
    assert_eq!(result, v);
}

#[test]
fn round_trip_of_every_kind() {
    let address = Address::new(5, 255);
    let messages = vec![
        write_request(),
        Message::Request(Request::new(
            address,
            15,
            Command::ReadWords(ReadWordsCommand::new("D0106".to_string(), 1)),
        )),
        Message::Ack(address),
        Message::Nak(address),
        Message::NakWithError(NakWithError::new(address, 0x1F)),
        Message::Response(Response::new(address, "0065".to_string())),
        Message::Response(Response::new(address, String::new())),
    ];
    for message in messages {
        let mut codec = FxCodec::new();
        let mut buf = BytesMut::new();
        codec.encode(message.clone(), &mut buf).unwrap();
        let decoded = codec.decode(&mut buf).unwrap();
        assert_eq!(decoded, Some(message));
        assert!(buf.is_empty());
        assert_eq!(codec.decode(&mut buf), Ok(None));
    }
}

#[test]
fn exact_frames() {
    let address = Address::new(5, 255);
    assert_eq!(encode_frame(&Message::Ack(address)).unwrap(), b"\x0605FF\n");
    assert_eq!(encode_frame(&Message::Nak(address)).unwrap(), b"\x1505FF\n");
    assert_eq!(
        encode_frame(&Message::NakWithError(NakWithError::new(address, 10))).unwrap(),
        b"\x1505FF0A\n"
    );
    // '0' '5' 'F' 'F' '0' '0' '6' '5' ETX sum to 0x1BF
    assert_eq!(
        encode_frame(&Message::Response(Response::new(address, "0065".to_string()))).unwrap(),
        b"\x0205FF0065\x03BF\n"
    );
    assert_eq!(
        encode_frame(&Message::Request(Request::new(
            address,
            10,
            Command::ReadWords(ReadWordsCommand::new("D0106".to_string(), 1)),
        )))
        .unwrap(),
        b"\x0505FFWRAD01060147\n"
    );
}

#[test]
fn width_semantics() {
    assert_eq!(format_i16(-101), "FF9B");
    assert_eq!(parse_i16("FF9B"), Ok(-101));
    assert_eq!(parse_i16("ff9b"), Ok(-101));
    assert_eq!(format_i16(101), "0065");
    assert_eq!(format_i32(-1), "FFFFFFFF");
    assert_eq!(format_i32(10), "0000000A");
    assert_eq!(parse_i32("80000000"), Ok(i32::MIN));
    assert_eq!(parse_i32("7FFFFFFF"), Ok(i32::MAX));
    assert_eq!(parse_i16("065"), Err(FrameError::DataLength));
    assert_eq!(parse_i16("00065"), Err(FrameError::DataLength));
    assert_eq!(parse_i16("+065"), Err(FrameError::InvalidNumber));
    assert_eq!(parse_i16("00\u{e9}5"), Err(FrameError::NotText));
    assert_eq!(parse_i32("0065"), Err(FrameError::DataLength));
}

#[test]
fn decode_line_errors() {
    assert_eq!(decode_line(b""), Err(FrameError::InvalidMarker));
    assert_eq!(decode_line(b"X05FF"), Err(FrameError::InvalidMarker));
    assert_eq!(decode_line(b"\x0605\xFFF"), Err(FrameError::NotText));
    assert_eq!(decode_line(b"\x0605F"), Err(FrameError::InvalidAck));
    assert_eq!(decode_line(b"\x0605FG"), Err(FrameError::InvalidNumber));
    assert_eq!(decode_line(b"\x1505FF0"), Err(FrameError::InvalidNak));
    assert_eq!(decode_line(b"\x0205FF\x03"), Err(FrameError::Truncated));
    assert_eq!(decode_line(b"\x0205FF0065_DA"), Err(FrameError::MissingEtx));
    assert_eq!(decode_line(b"\x0205FF0065\x03DB"), Err(FrameError::ChecksumMismatch));
    assert_eq!(decode_line(b"\x0505FFWR"), Err(FrameError::IncompleteHeader));
    assert_eq!(
        decode_line(b"\x0505FFBRAD01060147"),
        Err(FrameError::UnknownCommand(b'B', b'R'))
    );
    assert_eq!(decode_line(b"\x0505FFWRAD010601"), Err(FrameError::Truncated));
    assert_eq!(decode_line(b"\x0500FFWW0M0640022347AB05"), Err(FrameError::DataLength));
    assert_eq!(decode_line(b"\x0505FFWRAD0106010037"), Err(FrameError::DataLength));
    assert_eq!(decode_line(b"\x0505FFWRAD01060136"), Err(FrameError::ChecksumMismatch));
}

#[test]
fn carriage_return_is_tolerated() {
    let address = Address::new(5, 255);
    assert_eq!(decode_line(b"\x0605FF\r"), Ok(Message::Ack(address)));
    let mut codec = FxCodec::new();
    let mut buf = BytesMut::from(&b"\x0605FF\r\n"[..]);
    assert_eq!(codec.decode(&mut buf), Ok(Some(Message::Ack(address))));
}

#[test]
fn encode_refuses_invalid_messages() {
    let address = Address::new(0, 0);
    let mut codec = FxCodec::new();
    let mut buf = BytesMut::from(&b"kept"[..]);
    let short_name = Message::Request(Request::new(
        address,
        0,
        Command::ReadWords(ReadWordsCommand::new("D01".to_string(), 1)),
    ));
    assert_eq!(codec.encode(short_name, &mut buf), Err(FrameError::InvalidMessage));
    let wide_wait = Message::Request(Request::new(
        address,
        16,
        Command::ReadWords(ReadWordsCommand::new("D0106".to_string(), 1)),
    ));
    assert_eq!(codec.encode(wide_wait, &mut buf), Err(FrameError::InvalidMessage));
    let short_data = Message::Request(Request::new(
        address,
        0,
        Command::WriteWords(WriteWordsCommand::new("D0106".to_string(), 2, "0065".to_string())),
    ));
    assert_eq!(codec.encode(short_data, &mut buf), Err(FrameError::InvalidMessage));
    let line_feed = Message::Response(Response::new(address, "00\n5".to_string()));
    assert_eq!(codec.encode(line_feed, &mut buf), Err(FrameError::InvalidMessage));
    assert_eq!(&buf[..], b"kept");
}

#[test]
fn try_encode_appends_like_encode() {
    let address = Address::new(5, 255);
    let mut codec = FxCodec::new();
    let mut buf = BytesMut::from(&b"\x0605FF\n"[..]);
    assert_eq!(codec.try_encode(Message::Nak(address), &mut buf), Some(Ok(())));
    assert_eq!(&buf[..], b"\x0605FF\n\x1505FF\n");
    let invalid = Message::Response(Response::new(address, "\u{e9}".to_string()));
    assert_eq!(
        codec.try_encode(invalid, &mut buf),
        Some(Err(FrameError::InvalidMessage))
    );
    assert_eq!(&buf[..], b"\x0605FF\n\x1505FF\n");
    assert_eq!(codec.decode(&mut buf), Ok(Some(Message::Ack(address))));
    assert_eq!(codec.decode(&mut buf), Ok(Some(Message::Nak(address))));
}

#[test]
fn checksum_wraps_around() {
    assert_eq!(checksum(b""), 0);
    assert_eq!(checksum(&[0xFF, 0x01]), 0);
    assert_eq!(checksum(&[0xFF, 0xFF, 0x03]), 0x01);
    assert_eq!(checksum(b"00FFWW0M0640022347AB96"), 0x05);
}
