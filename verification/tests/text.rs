use fx_communication::client::parse_reply;
use fx_communication::hex::{hex_value, parse_hex, push_hex};
use fx_communication::message::check_device_name;
use fx_communication::text::{all_ascii, is_text_str, utf8, without_carriage_return};
use fx_communication::{
    Address, Command, FrameError, Message, ReadWordsCommand, Reply, Request, Response, Width,
    WriteWordsCommand,
};

#[test]
fn hex_digits_of_either_case() {
    assert_eq!(hex_value(b'0'), Some(0));
    assert_eq!(hex_value(b'9'), Some(9));
    assert_eq!(hex_value(b'A'), Some(10));
    assert_eq!(hex_value(b'F'), Some(15));
    assert_eq!(hex_value(b'a'), Some(10));
    assert_eq!(hex_value(b'f'), Some(15));
    assert_eq!(hex_value(b'G'), None);
    assert_eq!(hex_value(b'g'), None);
    assert_eq!(hex_value(b'/'), None);
    assert_eq!(hex_value(b':'), None);
    assert_eq!(hex_value(b'@'), None);
    assert_eq!(hex_value(b'`'), None);
    assert_eq!(hex_value(b'+'), None);
}

#[test]
fn hex_numbers() {
    assert_eq!(parse_hex(b""), Some(0));
    assert_eq!(parse_hex(b"0"), Some(0));
    assert_eq!(parse_hex(b"fF"), Some(255));
    assert_eq!(parse_hex(b"0065"), Some(101));
    assert_eq!(parse_hex(b"FFFFFFFF"), Some(u32::MAX));
    assert_eq!(parse_hex(b"000000000"), None);
    assert_eq!(parse_hex(b"-1"), None);
    assert_eq!(parse_hex(b"1 "), None);
}

#[test]
fn hex_text_is_cut_or_padded_to_its_width() {
    let mut out = b">".to_vec();
    push_hex(&mut out, 0x2347AB96, 8);
    push_hex(&mut out, 0x2347AB96, 2);
    push_hex(&mut out, 10, 4);
    push_hex(&mut out, 10, 0);
    assert_eq!(out, b">2347AB9696000A");
}

#[test]
fn text_is_ascii_without_line_feed() {
    assert!(is_text_str(""));
    assert!(is_text_str("D0106"));
    assert!(is_text_str("a\rb\x03\x7f"));
    assert!(!is_text_str("D01\n6"));
    assert!(!is_text_str("D01\u{e9}6"));
    assert!(all_ascii(b"D0106\n"));
    assert!(!all_ascii(b"D01\x806"));
}

#[test]
fn utf8_is_checked() {
    assert_eq!(utf8(b"D0106"), Ok("D0106"));
    assert_eq!(utf8("D01\u{e9}6".as_bytes()), Ok("D01\u{e9}6"));
    assert_eq!(utf8(b"D01\xFF6"), Err(FrameError::NotText));
}

#[test]
fn one_carriage_return_is_stripped() {
    assert_eq!(without_carriage_return(b"05FF\r"), b"05FF");
    assert_eq!(without_carriage_return(b"05FF\r\r"), b"05FF\r");
    assert_eq!(without_carriage_return(b"05\rFF"), b"05\rFF");
    assert_eq!(without_carriage_return(b"\r"), b"");
    assert_eq!(without_carriage_return(b""), b"");
}

#[test]
fn device_names_have_five_characters() {
    assert!(check_device_name("D0106"));
    assert!(!check_device_name("D010"));
    assert!(!check_device_name("D01067"));
    assert!(!check_device_name("D01\n6"));
    assert!(!check_device_name("D0\u{e9}6"));
    assert!(!check_device_name("D01\u{e9}6"));
}

#[test]
fn message_model() {
    let address = Address::new(1, 2);
    let read = |name: &str, wait: u8| {
        Message::Request(Request::new(
            address,
            wait,
            Command::ReadWords(ReadWordsCommand::new(name.to_string(), 1)),
        ))
    };
    let write = |points: u8, data: &str| {
        Message::Request(Request::new(
            address,
            0,
            Command::WriteWords(WriteWordsCommand::new(
                "D0106".to_string(),
                points,
                data.to_string(),
            )),
        ))
    };
    assert!(read("D0106", 15).is_valid());
    assert!(!read("D0106", 16).is_valid());
    assert!(!read("D010", 0).is_valid());
    assert!(write(0, "").is_valid());
    assert!(write(1, "ZZZZ").is_valid());
    assert!(write(255, &"0".repeat(1020)).is_valid());
    assert!(!write(1, "00000000").is_valid());
    assert!(!write(2, "0000").is_valid());
    assert!(!write(1, "00\n0").is_valid());
    assert!(Message::Ack(address).is_valid());
    assert!(Message::Response(Response::new(address, "anything".to_string())).is_valid());
    assert!(!Message::Response(Response::new(address, "\n".to_string())).is_valid());
}

#[test]
fn replies_by_width() {
    assert_eq!(parse_reply("FF9B", Width::Word), Ok(Reply::Word(-101)));
    assert_eq!(parse_reply("0000FF9B", Width::DoubleWord), Ok(Reply::DoubleWord(0xFF9B)));
    assert_eq!(parse_reply("FFFFFF9B", Width::DoubleWord), Ok(Reply::DoubleWord(-101)));
    assert_eq!(parse_reply("FF9B", Width::DoubleWord), Err(FrameError::DataLength));
    assert_eq!(parse_reply("0000FF9B", Width::Word), Err(FrameError::DataLength));
    assert_eq!(parse_reply("FF9 ", Width::Word), Err(FrameError::InvalidNumber));
}
