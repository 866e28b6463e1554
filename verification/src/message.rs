//! The message model: every message that can travel on the link.

use vstd::prelude::*;
use vstd::string::*;
use crate::text::{is_text, is_text_str};

verus! {

/// The two-part address of the responding device.
#[derive(Debug, Clone, Copy, PartialEq, Eq, Structural)]
pub struct Address {
    pub station: u8,
    pub plc: u8,
}

impl Address {
    pub fn new(station: u8, plc: u8) -> (r: Self)
        ensures
            r.station == station,
            r.plc == plc,
    {
        Address { station, plc }
    }
}

/// A negative acknowledgement that carries a diagnostic code.
#[derive(Debug, Clone, Copy, PartialEq, Eq, Structural)]
pub struct NakWithError {
    pub address: Address,
    pub error_code: u8,
}

impl NakWithError {
    pub fn new(address: Address, error_code: u8) -> (r: Self)
        ensures
            r.address == address,
            r.error_code == error_code,
    {
        NakWithError { address, error_code }
    }
}

/// Reads `number_of_device_points` words, starting at `head_device`.
#[derive(Debug, Clone, PartialEq, Eq)]
pub struct ReadWordsCommand {
    pub head_device: String,
    pub number_of_device_points: u8,
}

impl ReadWordsCommand {
    pub fn new(head_device: String, number_of_device_points: u8) -> (r: Self)
        ensures
            r.head_device == head_device,
            r.number_of_device_points == number_of_device_points,
    {
        ReadWordsCommand { head_device, number_of_device_points }
    }
}

/// Writes `number_of_device_points` words, starting at `head_device`; `data`
/// holds four hexadecimal characters for each word.
#[derive(Debug, Clone, PartialEq, Eq)]
pub struct WriteWordsCommand {
    pub head_device: String,
    pub number_of_device_points: u8,
    pub data: String,
}

impl WriteWordsCommand {
    pub fn new(head_device: String, number_of_device_points: u8, data: String) -> (r: Self)
        ensures
            r.head_device == head_device,
            r.number_of_device_points == number_of_device_points,
            r.data == data,
    {
        WriteWordsCommand { head_device, number_of_device_points, data }
    }
}

#[derive(Debug, Clone, PartialEq, Eq)]
pub enum Command {
    ReadWords(ReadWordsCommand),
    WriteWords(WriteWordsCommand),
}

/// A command sent to the device at `address`; `msg_wait_time` is the
/// response-delay code, 0 to 15.
#[derive(Debug, Clone, PartialEq, Eq)]
pub struct Request {
    pub address: Address,
    pub command: Command,
    pub msg_wait_time: u8,
}

impl Request {
    pub fn new(address: Address, msg_wait_time: u8, command: Command) -> (r: Self)
        ensures
            r.address == address,
            r.msg_wait_time == msg_wait_time,
            r.command == command,
    {
        Request { address, msg_wait_time, command }
    }
}

/// The values that a read returns.
#[derive(Debug, Clone, PartialEq, Eq)]
pub struct Response {
    pub address: Address,
    pub data: String,
}

impl Response {
    pub fn new(address: Address, data: String) -> (r: Self)
        ensures
            r.address == address,
            r.data == data,
    {
        Response { address, data }
    }
}

#[derive(Debug, Clone, PartialEq, Eq)]
pub enum Message {
    Request(Request),
    Ack(Address),
    Nak(Address),
    NakWithError(NakWithError),
    Response(Response),
}

/// The number of characters in a device name.
pub const DEVICE_NAME_LEN: usize = 5;

/// A command as a mathematical value.
pub enum CommandView {
    ReadWords { head_device: Seq<char>, count: u8 },
    WriteWords { head_device: Seq<char>, count: u8, data: Seq<char> },
}

/// A message as a mathematical value: the strings as sequences of characters.
pub enum MessageView {
    Request { address: Address, wait_time: u8, command: CommandView },
    Ack(Address),
    Nak(Address),
    NakWithError { address: Address, error_code: u8 },
    Response { address: Address, data: Seq<char> },
}

/// True for a text of exactly five characters.
pub open spec fn is_device_name(name: Seq<char>) -> bool {
    name.len() == 5 && is_text(name)
}

impl CommandView {
    pub open spec fn head_device(self) -> Seq<char> {
        match self {
            CommandView::ReadWords { head_device, .. } => head_device,
            CommandView::WriteWords { head_device, .. } => head_device,
        }
    }

    pub open spec fn count(self) -> u8 {
        match self {
            CommandView::ReadWords { count, .. } => count,
            CommandView::WriteWords { count, .. } => count,
        }
    }

    /// The head device is a device name, and written data holds four
    /// characters of text for each device point.
    pub open spec fn valid(self) -> bool {
        match self {
            CommandView::ReadWords { head_device, .. } => is_device_name(head_device),
            CommandView::WriteWords { head_device, count, data } => {
                &&& is_device_name(head_device)
                &&& data.len() == count * 4
                &&& is_text(data)
            },
        }
    }
}

impl MessageView {
    /// The invariants of the message model: what a message must meet to be
    /// written as a frame.
    pub open spec fn valid(self) -> bool {
        match self {
            MessageView::Request { wait_time, command, .. } => wait_time <= 15 && command.valid(),
            MessageView::Response { data, .. } => is_text(data),
            _ => true,
        }
    }
}

impl View for Command {
    type V = CommandView;

    open spec fn view(&self) -> CommandView {
        match self {
            Command::ReadWords(c) => CommandView::ReadWords {
                head_device: c.head_device@,
                count: c.number_of_device_points,
            },
            Command::WriteWords(c) => CommandView::WriteWords {
                head_device: c.head_device@,
                count: c.number_of_device_points,
                data: c.data@,
            },
        }
    }
}

impl View for Message {
    type V = MessageView;

    open spec fn view(&self) -> MessageView {
        match self {
            Message::Request(r) => MessageView::Request {
                address: r.address,
                wait_time: r.msg_wait_time,
                command: r.command@,
            },
            Message::Ack(a) => MessageView::Ack(*a),
            Message::Nak(a) => MessageView::Nak(*a),
            Message::NakWithError(n) => MessageView::NakWithError {
                address: n.address,
                error_code: n.error_code,
            },
            Message::Response(r) => MessageView::Response { address: r.address, data: r.data@ },
        }
    }
}

/// True when `name` is a device name: five characters of text.
pub fn check_device_name(name: &str) -> (r: bool)
    ensures
        r == is_device_name(name@),
{
    let ok = is_text_str(name);
    if !ok {
        return false;
    }
    proof {
        crate::text::lemma_text_bytes(name@);
    }
    name.as_bytes().len() == DEVICE_NAME_LEN
}

impl Command {
    /// True when the command meets the invariants of the message model.
    pub fn is_valid(&self) -> (r: bool)
        ensures
            r == self@.valid(),
    {
        match self {
            Command::ReadWords(c) => check_device_name(c.head_device.as_str()),
            Command::WriteWords(c) => {
                if !check_device_name(c.head_device.as_str()) {
                    return false;
                }
                if !is_text_str(c.data.as_str()) {
                    return false;
                }
                proof {
                    crate::text::lemma_text_bytes(c.data@);
                }
                let want: usize = c.number_of_device_points as usize * 4;
                c.data.as_str().as_bytes().len() == want
            },
        }
    }
}

impl Message {
    /// True when the message meets the invariants of the message model.
    pub fn is_valid(&self) -> (r: bool)
        ensures
            r == self@.valid(),
    {
        match self {
            Message::Request(r) => r.msg_wait_time <= 15 && r.command.is_valid(),
            Message::Response(r) => is_text_str(r.data.as_str()),
            _ => true,
        }
    }
}

} // verus!
