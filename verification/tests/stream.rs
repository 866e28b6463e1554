use bytes::BytesMut;
use fx_communication::wire::{decode_line, encode_frame};
use fx_communication::{
    Address, Command, FrameError, FxCodec, Message, NakWithError, ReadWordsCommand, Request,
    Response, WriteWordsCommand,
};

fn sample() -> Vec<Message> {
    let address = Address::new(5, 255);
    vec![
        Message::Request(Request::new(
            address,
            0,
            Command::WriteWords(WriteWordsCommand::new(
                "M0640".to_string(),
                2,
                "2347AB96".to_string(),
            )),
        )),
        Message::Ack(address),
        Message::Request(Request::new(
            address,
            3,
            Command::ReadWords(ReadWordsCommand::new("D0106".to_string(), 1)),
        )),
        Message::Response(Response::new(address, "FF9B".to_string())),
        Message::Nak(address),
        Message::NakWithError(NakWithError::new(address, 0xA0)),
    ]
}

fn stream_of(messages: &[Message]) -> Vec<u8> {
    let mut stream = Vec::new();
    for message in messages {
        stream.extend_from_slice(&encode_frame(message).unwrap());
    }
    stream
}

/// Feeds `stream` in pieces of the given sizes, the sizes taken in turn, and
/// drains the decoder after each piece.
fn feed(codec: &mut FxCodec, stream: &[u8], sizes: &[usize]) -> Vec<Result<Message, FrameError>> {
    let mut buf = BytesMut::new();
    let mut outputs = Vec::new();
    let mut at = 0;
    let mut turn = 0;
    while at < stream.len() {
        let size = sizes[turn % sizes.len()].min(stream.len() - at);
        turn += 1;
        buf.extend_from_slice(&stream[at..at + size]);
        at += size;
        loop {
            match codec.decode(&mut buf) {
                Ok(Some(message)) => outputs.push(Ok(message)),
                Ok(None) => break,
                Err(e) => outputs.push(Err(e)),
            }
        }
    }
    outputs
}

#[test]
fn pieces_do_not_matter() {
    let messages = sample();
    let stream = stream_of(&messages);
    let expected: Vec<Result<Message, FrameError>> = messages.into_iter().map(Ok).collect();
    let whole = [stream.len()];
    assert_eq!(feed(&mut FxCodec::new(), &stream, &whole), expected);
    assert_eq!(feed(&mut FxCodec::new(), &stream, &[1]), expected);
    assert_eq!(feed(&mut FxCodec::new(), &stream, &[2, 3, 5, 7, 11]), expected);
    assert_eq!(feed(&mut FxCodec::new(), &stream, &[23, 1]), expected);
    assert_eq!(feed(&mut FxCodec::new_with_max_length(25), &stream, &[1]), expected);
    assert_eq!(feed(&mut FxCodec::new_with_max_length(25), &stream, &[9, 40]), expected);
}

#[test]
fn pieces_do_not_matter_for_garbage() {
    let mut stream = b"\x0605FF\nxxxxxxxxxxxxxxxxxxxxxxxxxxxxxx\n\n\x0605F\n".to_vec();
    stream.extend_from_slice(&stream_of(&sample()));
    stream.extend_from_slice(b"yyyyyyyyyyyyyyyyyyyyyyyyyyyyyyyyyyyyyyyyyyyyyyyyyyyyyy");
    let whole = [stream.len()];
    for max_length in [8usize, 25, 31, 1000] {
        let at_once = feed(&mut FxCodec::new_with_max_length(max_length), &stream, &whole);
        for sizes in [&[1usize][..], &[2, 3, 5, 7, 11], &[30, 1], &[9]] {
            let in_pieces = feed(&mut FxCodec::new_with_max_length(max_length), &stream, sizes);
            assert_eq!(in_pieces, at_once);
        }
    }
    let address = Address::new(5, 255);
    let outputs = feed(&mut FxCodec::new_with_max_length(8), &stream, &[4]);
    assert_eq!(
        outputs,
        vec![
            Ok(Message::Ack(address)),
            Err(FrameError::LineTooLong),
            Err(FrameError::InvalidMarker),
            Err(FrameError::InvalidAck),
            Err(FrameError::LineTooLong),
            Ok(Message::Ack(address)),
            Err(FrameError::LineTooLong),
            Err(FrameError::LineTooLong),
            Ok(Message::Nak(address)),
            Ok(Message::NakWithError(NakWithError::new(address, 0xA0))),
            Err(FrameError::LineTooLong),
        ]
    );
}

#[test]
fn oversized_line_costs_one_error() {
    let address = Address::new(5, 255);
    let mut stream = vec![b'x'; 40];
    stream.push(b'\n');
    stream.extend_from_slice(b"\x0605FF\n");
    for sizes in [&[100usize][..], &[1], &[7], &[41, 1]] {
        let mut codec = FxCodec::new_with_max_length(16);
        let outputs = feed(&mut codec, &stream, sizes);
        assert_eq!(
            outputs,
            vec![Err(FrameError::LineTooLong), Ok(Message::Ack(address))]
        );
        assert!(!codec.is_discarding());
    }
}

#[test]
fn discarding_waits_for_the_line_feed() {
    let mut codec = FxCodec::new_with_max_length(5);
    assert_eq!(codec.max_length(), 5);
    let mut buf = BytesMut::from(&b"xxxxxx"[..]);
    assert_eq!(codec.decode(&mut buf), Err(FrameError::LineTooLong));
    assert!(codec.is_discarding());
    assert_eq!(codec.decode(&mut buf), Ok(None));
    assert!(buf.is_empty());
    assert!(codec.is_discarding());
    buf.extend_from_slice(b"xxxxxxxxxxxx");
    assert_eq!(codec.decode(&mut buf), Ok(None));
    assert!(buf.is_empty());
    buf.extend_from_slice(b"xx\n\x0605");
    assert_eq!(codec.decode(&mut buf), Ok(None));
    assert!(!codec.is_discarding());
    assert_eq!(&buf[..], b"\x0605");
    buf.extend_from_slice(b"FF\n");
    assert_eq!(codec.decode(&mut buf), Ok(Some(Message::Ack(Address::new(5, 255)))));
}

#[test]
fn line_of_exactly_the_maximum_length_is_accepted() {
    let address = Address::new(5, 255);
    let mut codec = FxCodec::new_with_max_length(5);
    let mut buf = BytesMut::from(&b"\x0605FF\n"[..]);
    assert_eq!(codec.decode(&mut buf), Ok(Some(Message::Ack(address))));
    let mut codec = FxCodec::new_with_max_length(4);
    let mut buf = BytesMut::from(&b"\x0605FF\n"[..]);
    assert_eq!(codec.decode(&mut buf), Err(FrameError::LineTooLong));
}

#[test]
fn failed_line_is_not_put_back() {
    let mut codec = FxCodec::new();
    let mut buf = BytesMut::from(&b"\x0205FF0065\x03DB\n\x0605FF\n"[..]);
    assert_eq!(codec.decode(&mut buf), Err(FrameError::ChecksumMismatch));
    assert_eq!(&buf[..], b"\x0605FF\n");
    assert_eq!(codec.decode(&mut buf), Ok(Some(Message::Ack(Address::new(5, 255)))));
    assert_eq!(codec.decode(&mut buf), Ok(None));
}

#[test]
fn every_bit_flip_is_detected() {
    for message in sample() {
        let frame = encode_frame(&message).unwrap();
        if frame[0] != 2 && frame[0] != 5 {
            continue;
        }
        let line = &frame[..frame.len() - 1];
        assert_eq!(decode_line(line), Ok(message));
        for at in 1..line.len() - 2 {
            for bit in 0..8 {
                let mut flipped = line.to_vec();
                flipped[at] ^= 1 << bit;
                assert!(decode_line(&flipped).is_err());
            }
        }
    }
}

#[test]
fn bit_flip_in_the_data_is_a_checksum_mismatch() {
    let address = Address::new(5, 255);
    let message = Message::Response(Response::new(address, "0065".to_string()));
    let frame = encode_frame(&message).unwrap();
    let line = &frame[..frame.len() - 1];
    // the data stands behind the marker and the address
    for at in 5..9 {
        for bit in 0..7 {
            let mut flipped = line.to_vec();
            flipped[at] ^= 1 << bit;
            assert_eq!(decode_line(&flipped), Err(FrameError::ChecksumMismatch));
        }
    }
    // a flip in the command code is reported as the code it makes
    let request = encode_frame(&sample()[2]).unwrap();
    let mut flipped = request[..request.len() - 1].to_vec();
    flipped[6] ^= 1;
    assert_eq!(decode_line(&flipped), Err(FrameError::UnknownCommand(b'W', b'S')));
}
