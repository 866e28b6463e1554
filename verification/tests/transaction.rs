use bytes::BytesMut;
use fx_communication::{
    Action, Address, Client, Command, Event, FrameError, FxCodec, Message, NakWithError, Peer,
    PeerAction, ReadWordsCommand, RegisterStore, Reply, Request, Response, TransactionError,
    WriteWordsCommand,
};

/// What went over the link in one transaction, in order.
struct Trace {
    to_peer: Vec<Message>,
    to_master: Vec<Message>,
    outcome: Result<Reply, TransactionError>,
}

/// Runs one transaction of `client` against `peer`, every frame going
/// through the codec on both sides.
fn exchange(client: &mut Client, peer: &mut Peer, first: Action) -> Trace {
    let mut master_codec = FxCodec::new();
    let mut peer_codec = FxCodec::new();
    let mut wire_down = BytesMut::new();
    let mut wire_up = BytesMut::new();
    let mut to_peer = Vec::new();
    let mut to_master = Vec::new();
    let mut action = first;
    loop {
        match action {
            Action::Send(frame) => {
                to_peer.push(frame.clone());
                master_codec.encode(frame, &mut wire_down).unwrap();
                while let Some(message) = peer_codec.decode(&mut wire_down).unwrap() {
                    if let PeerAction::Reply(reply) = peer.handle(message) {
                        to_master.push(reply.clone());
                        peer_codec.encode(reply, &mut wire_up).unwrap();
                    }
                }
                action = client.handle(Event::Sent);
            }
            Action::Receive => {
                let event = match master_codec.decode(&mut wire_up) {
                    Ok(Some(message)) => Event::Received(message),
                    Ok(None) => Event::TimedOut,
                    Err(e) => Event::DecodeFailed(e),
                };
                action = client.handle(event);
            }
            Action::Done(outcome) => {
                return Trace { to_peer, to_master, outcome };
            }
            Action::Nothing => panic!("no transaction is outstanding"),
        }
    }
}

fn read_request(address: Address, device: &str, points: u8) -> Message {
    Message::Request(Request::new(
        address,
        0,
        Command::ReadWords(ReadWordsCommand::new(device.to_string(), points)),
    ))
}

fn write_request(address: Address, device: &str, points: u8, data: &str) -> Message {
    Message::Request(Request::new(
        address,
        0,
        Command::WriteWords(WriteWordsCommand::new(device.to_string(), points, data.to_string())),
    ))
}

#[test]
fn write_word_to_empty_store() {
    let mut client = Client::new(5, 255);
    let mut peer = Peer::new();
    let first = client.write_i16("D0106".to_string(), 101);
    assert!(!client.is_idle());
    let trace = exchange(&mut client, &mut peer, first);
    let address = Address::new(5, 255);
    assert_eq!(trace.to_peer, vec![write_request(address, "D0106", 1, "0065")]);
    assert_eq!(trace.to_master, vec![Message::Ack(address)]);
    assert_eq!(trace.outcome, Ok(Reply::Written));
    assert_eq!(peer.register("D0106"), Some("0065".to_string()));
    assert!(client.is_idle());
}

#[test]
fn read_word_from_empty_store() {
    let mut client = Client::new(5, 255);
    let mut peer = Peer::new();
    let first = client.read_i16("D0106".to_string());
    let trace = exchange(&mut client, &mut peer, first);
    let address = Address::new(5, 255);
    assert_eq!(
        trace.to_peer,
        vec![read_request(address, "D0106", 1), Message::Ack(address)]
    );
    assert_eq!(
        trace.to_master,
        vec![Message::Response(Response::new(address, "0000".to_string()))]
    );
    assert_eq!(trace.outcome, Ok(Reply::Word(0)));
    assert!(client.is_idle());
    assert!(!peer.is_awaiting_close());
    assert_eq!(peer.register("D0106"), None);
}

#[test]
fn negative_word_reads_back() {
    let mut client = Client::new(5, 255);
    let mut peer = Peer::new();
    let first = client.write_i16("D0106".to_string(), -101);
    assert_eq!(exchange(&mut client, &mut peer, first).outcome, Ok(Reply::Written));
    assert_eq!(peer.register("D0106"), Some("FF9B".to_string()));
    let first = client.read_i16("D0106".to_string());
    assert_eq!(exchange(&mut client, &mut peer, first).outcome, Ok(Reply::Word(-101)));
}

#[test]
fn wrapped_word_reads_back() {
    let mut client = Client::new(5, 255);
    let mut peer = Peer::new();
    let value = i16::MAX.wrapping_add(100);
    let first = client.write_i16("D0106".to_string(), value);
    assert_eq!(exchange(&mut client, &mut peer, first).outcome, Ok(Reply::Written));
    assert_eq!(peer.register("D0106"), Some("8063".to_string()));
    let first = client.read_i16("D0106".to_string());
    assert_eq!(exchange(&mut client, &mut peer, first).outcome, Ok(Reply::Word(value)));
    assert_eq!(value, -32669);
}

#[test]
fn double_word_reads_back() {
    let mut client = Client::new(0, 255);
    let mut peer = Peer::new();
    let first = client.read_i32("D0105".to_string());
    let trace = exchange(&mut client, &mut peer, first);
    assert_eq!(
        trace.to_master,
        vec![Message::Response(Response::new(Address::new(0, 255), "00000000".to_string()))]
    );
    assert_eq!(trace.outcome, Ok(Reply::DoubleWord(0)));
    let first = client.write_i32("D0105".to_string(), -2);
    assert_eq!(exchange(&mut client, &mut peer, first).outcome, Ok(Reply::Written));
    assert_eq!(peer.register("D0105"), Some("FFFFFFFE".to_string()));
    let first = client.read_i32("D0105".to_string());
    assert_eq!(exchange(&mut client, &mut peer, first).outcome, Ok(Reply::DoubleWord(-2)));
}

#[test]
fn last_write_wins() {
    let mut store = RegisterStore::new();
    assert_eq!(store.get("D0106"), None);
    store.set("D0106".to_string(), "0001".to_string());
    store.set("D0107".to_string(), "0002".to_string());
    store.set("D0106".to_string(), "0003".to_string());
    assert_eq!(store.get("D0106"), Some("0003".to_string()));
    assert_eq!(store.get("D0107"), Some("0002".to_string()));
}

#[test]
fn read_times_out_before_the_response() {
    let mut client = Client::new(5, 255);
    let first = client.read_i16("D0106".to_string());
    assert!(matches!(first, Action::Send(_)));
    assert_eq!(client.handle(Event::Sent), Action::Receive);
    assert_eq!(client.handle(Event::TimedOut), Action::Done(Err(TransactionError::Timeout)));
    assert!(client.is_idle());
}

#[test]
fn read_times_out_before_it_is_closed() {
    let address = Address::new(5, 255);
    let mut client = Client::new(5, 255);
    let first = client.read_i16("D0106".to_string());
    assert!(matches!(first, Action::Send(_)));
    assert_eq!(client.handle(Event::Sent), Action::Receive);
    let response = Message::Response(Response::new(address, "0065".to_string()));
    assert_eq!(
        client.handle(Event::Received(response)),
        Action::Send(Message::Ack(address))
    );
    assert!(!client.is_idle());
    assert_eq!(client.handle(Event::TimedOut), Action::Done(Err(TransactionError::Timeout)));
    assert!(client.is_idle());
    // the next call starts a fresh transaction
    assert!(matches!(client.read_i16("D0106".to_string()), Action::Send(_)));
}

#[test]
fn write_times_out() {
    let mut client = Client::new(5, 255);
    let first = client.write_i32("D0106".to_string(), 7);
    assert!(matches!(first, Action::Send(_)));
    assert_eq!(client.handle(Event::Sent), Action::Receive);
    assert_eq!(client.handle(Event::TimedOut), Action::Done(Err(TransactionError::Timeout)));
    assert!(client.is_idle());
}

#[test]
fn second_transaction_is_refused_while_one_is_outstanding() {
    let mut client = Client::new(5, 255);
    assert!(matches!(client.write_i16("D0106".to_string(), 1), Action::Send(_)));
    assert_eq!(
        client.read_i16("D0106".to_string()),
        Action::Done(Err(TransactionError::Busy))
    );
    assert_eq!(
        client.write_i32("D0106".to_string(), 1),
        Action::Done(Err(TransactionError::Busy))
    );
    assert_eq!(client.handle(Event::Sent), Action::Receive);
    assert_eq!(
        client.handle(Event::Received(Message::Ack(Address::new(5, 255)))),
        Action::Done(Ok(Reply::Written))
    );
    assert!(matches!(client.read_i16("D0106".to_string()), Action::Send(_)));
}

#[test]
fn invalid_request_is_refused() {
    let mut client = Client::new(5, 255);
    assert_eq!(
        client.read_i16("D01".to_string()),
        Action::Done(Err(TransactionError::Frame(FrameError::InvalidMessage)))
    );
    assert!(client.is_idle());
    client.msg_wait_time = 16;
    assert_eq!(
        client.write_i16("D0106".to_string(), 1),
        Action::Done(Err(TransactionError::Frame(FrameError::InvalidMessage)))
    );
    client.msg_wait_time = 15;
    assert!(matches!(client.write_i16("D0106".to_string(), 1), Action::Send(_)));
}

#[test]
fn write_fails_on_any_reply_but_ack() {
    let address = Address::new(5, 255);
    let replies = vec![
        Message::Nak(address),
        Message::NakWithError(NakWithError::new(address, 3)),
        Message::Response(Response::new(address, "0000".to_string())),
    ];
    for reply in replies {
        let mut client = Client::new(5, 255);
        assert!(matches!(client.write_i16("D0106".to_string(), 1), Action::Send(_)));
        assert_eq!(client.handle(Event::Sent), Action::Receive);
        assert_eq!(
            client.handle(Event::Received(reply.clone())),
            Action::Done(Err(TransactionError::ProtocolViolation(reply)))
        );
        assert!(client.is_idle());
    }
}

#[test]
fn read_closes_an_unexpected_reply_with_nak() {
    let address = Address::new(5, 255);
    let mut client = Client::new(5, 255);
    assert!(matches!(client.read_i16("D0106".to_string()), Action::Send(_)));
    assert_eq!(client.handle(Event::Sent), Action::Receive);
    assert_eq!(
        client.handle(Event::Received(Message::Ack(address))),
        Action::Send(Message::Nak(address))
    );
    assert_eq!(
        client.handle(Event::Sent),
        Action::Done(Err(TransactionError::ProtocolViolation(Message::Ack(address))))
    );
    assert!(client.is_idle());
}

#[test]
fn read_fails_on_data_of_the_wrong_width() {
    let address = Address::new(5, 255);
    let cases = vec![
        ("00000065", FrameError::DataLength),
        ("", FrameError::DataLength),
        ("00G5", FrameError::InvalidNumber),
    ];
    for (data, error) in cases {
        let mut client = Client::new(5, 255);
        assert!(matches!(client.read_i16("D0106".to_string()), Action::Send(_)));
        assert_eq!(client.handle(Event::Sent), Action::Receive);
        let response = Message::Response(Response::new(address, data.to_string()));
        assert_eq!(
            client.handle(Event::Received(response)),
            Action::Done(Err(TransactionError::Frame(error)))
        );
        assert!(client.is_idle());
    }
}

#[test]
fn errors_end_the_transaction() {
    let mut client = Client::new(5, 255);
    assert!(matches!(client.read_i32("D0106".to_string()), Action::Send(_)));
    assert_eq!(
        client.handle(Event::TransportFailed),
        Action::Done(Err(TransactionError::Transport))
    );
    assert!(client.is_idle());
    assert!(matches!(client.read_i32("D0106".to_string()), Action::Send(_)));
    assert_eq!(client.handle(Event::Sent), Action::Receive);
    assert_eq!(
        client.handle(Event::DecodeFailed(FrameError::ChecksumMismatch)),
        Action::Done(Err(TransactionError::Frame(FrameError::ChecksumMismatch)))
    );
    assert!(client.is_idle());
    assert_eq!(client.handle(Event::Sent), Action::Nothing);
    assert_eq!(client.handle(Event::TimedOut), Action::Nothing);
}

#[test]
fn peer_drops_what_it_does_not_await() {
    let address = Address::new(5, 255);
    let mut peer = Peer::new();
    let stray = vec![
        Message::Ack(address),
        Message::Nak(address),
        Message::NakWithError(NakWithError::new(address, 1)),
        Message::Response(Response::new(address, "0000".to_string())),
    ];
    for message in stray {
        assert_eq!(peer.handle(message.clone()), PeerAction::Unexpected(message));
        assert!(!peer.is_awaiting_close());
    }
    assert_eq!(
        peer.handle(write_request(address, "D0106", 1, "0065")),
        PeerAction::Reply(Message::Ack(address))
    );
}

#[test]
fn peer_waits_for_the_read_to_be_closed() {
    let address = Address::new(5, 255);
    let mut peer = Peer::new();
    peer.handle(write_request(address, "D0106", 1, "0065"));
    let response = PeerAction::Reply(Message::Response(Response::new(address, "0065".to_string())));
    assert_eq!(peer.handle(read_request(address, "D0106", 1)), response);
    assert!(peer.is_awaiting_close());
    assert_eq!(peer.handle(Message::Ack(address)), PeerAction::Closed);
    assert!(!peer.is_awaiting_close());
    assert_eq!(peer.handle(read_request(address, "D0106", 1)), response);
    assert_eq!(peer.handle(Message::Nak(address)), PeerAction::Refused);
    assert_eq!(peer.handle(read_request(address, "D0106", 1)), response);
    // a request that comes in place of the closing frame is dropped
    let stray = write_request(address, "D0106", 1, "FFFF");
    assert_eq!(peer.handle(stray.clone()), PeerAction::Unexpected(stray));
    assert!(!peer.is_awaiting_close());
    assert_eq!(peer.register("D0106"), Some("0065".to_string()));
    assert_eq!(peer.handle(read_request(address, "D0106", 1)), response);
    peer.abort();
    assert!(!peer.is_awaiting_close());
}

#[test]
fn peer_pads_an_absent_register_to_the_width_asked_for() {
    let address = Address::new(1, 2);
    let mut peer = Peer::new();
    assert_eq!(
        peer.handle(read_request(address, "D0001", 3)),
        PeerAction::Reply(Message::Response(Response::new(address, "000000000000".to_string())))
    );
    peer.abort();
    assert_eq!(
        peer.handle(read_request(address, "D0001", 0)),
        PeerAction::Reply(Message::Response(Response::new(address, String::new())))
    );
}
