//! The transaction engine of the master.
//!
//! A transaction is one request and its answer: a write and its
//! acknowledgement, or a read, its response and the closing acknowledgement.
//! The link carries one transaction at a time. `Client` makes the decisions
//! of a transaction and leaves the sending and receiving to its caller: each
//! call returns the next `Action`, and the caller reports what came of it as
//! an `Event`.
//!
//! The phases of a write are `Idle`, `AwaitingReply`, `Idle`; those of a read
//! are `Idle`, `AwaitingResponse`, `AwaitingClose`, `Idle`.

use vstd::prelude::*;
use crate::error::FrameError;
use crate::message::{
    Address, Command, CommandView, Message, MessageView, ReadWordsCommand, Request,
    WriteWordsCommand,
};
use crate::word::{format_i16, format_i32, parse_i16, parse_i32, read_value, value_text};

verus! {

/// The width of a register value.
#[derive(Debug, Clone, Copy, PartialEq, Eq, Structural)]
pub enum Width {
    /// 16 bits: one device point, four hexadecimal characters.
    Word,
    /// 32 bits: two device points, eight hexadecimal characters.
    DoubleWord,
}

impl Width {
    /// The number of device points that a value of this width takes.
    pub open spec fn points(self) -> u8 {
        match self {
            Width::Word => 1,
            Width::DoubleWord => 2,
        }
    }

    /// The number of hexadecimal characters that a value of this width takes.
    pub open spec fn digits(self) -> nat {
        match self {
            Width::Word => 4,
            Width::DoubleWord => 8,
        }
    }
}

/// What a transaction yields when it succeeds.
#[derive(Debug, Clone, Copy, PartialEq, Eq, Structural)]
pub enum Reply {
    /// The write was acknowledged.
    Written,
    /// The 16-bit value that was read.
    Word(i16),
    /// The 32-bit value that was read.
    DoubleWord(i32),
}

/// Why a transaction failed.
#[derive(Debug, Clone, PartialEq, Eq)]
pub enum TransactionError {
    /// Another transaction is still outstanding.
    Busy,
    /// The request cannot be written as a frame, or the reply could not be
    /// decoded.
    Frame(FrameError),
    /// The byte stream failed or ended.
    Transport,
    /// No reply came in time.
    Timeout,
    /// A reply of the wrong kind came; it is attached.
    ProtocolViolation(Message),
}

/// What the caller reports to the transaction.
#[derive(Debug, Clone, PartialEq, Eq)]
pub enum Event {
    /// The frame of the last `Send` was written and flushed.
    Sent,
    /// A frame arrived and was decoded.
    Received(Message),
    /// A line arrived and could not be decoded.
    DecodeFailed(FrameError),
    /// The byte stream failed or ended.
    TransportFailed,
    /// The time allowed for the step has passed.
    TimedOut,
}

/// What the caller is to do next.
#[derive(Debug, PartialEq, Eq)]
pub enum Action {
    /// Write and flush this frame, then report `Sent`.
    Send(Message),
    /// Wait for the next frame, within the time allowed, and report it.
    Receive,
    /// The transaction is over, with this result.
    Done(Result<Reply, TransactionError>),
    /// No transaction is outstanding: there is nothing to do.
    Nothing,
}

/// Where a transaction stands.
#[derive(Debug, PartialEq, Eq)]
pub enum Phase {
    /// No transaction is outstanding.
    Idle,
    /// A write was requested; its acknowledgement is awaited.
    AwaitingReply,
    /// A read of this width was requested; its response is awaited.
    AwaitingResponse(Width),
    /// The answer to a read has come and is being closed by an `Ack` or a
    /// `Nak`; the result is held until that frame is out.
    AwaitingClose(Result<Reply, TransactionError>),
}

pub enum TransactionErrorView {
    Busy,
    Frame(FrameError),
    Transport,
    Timeout,
    ProtocolViolation(MessageView),
}

pub enum EventView {
    Sent,
    Received(MessageView),
    DecodeFailed(FrameError),
    TransportFailed,
    TimedOut,
}

pub type Outcome = Result<Reply, TransactionErrorView>;

pub enum ActionView {
    Send(MessageView),
    Receive,
    Done(Outcome),
    Nothing,
}

pub enum PhaseView {
    Idle,
    AwaitingReply,
    AwaitingResponse(Width),
    AwaitingClose(Outcome),
}

/// The master as a mathematical value.
pub struct ClientView {
    pub address: Address,
    pub wait_time: u8,
    pub phase: PhaseView,
}

impl View for TransactionError {
    type V = TransactionErrorView;

    open spec fn view(&self) -> TransactionErrorView {
        match self {
            TransactionError::Busy => TransactionErrorView::Busy,
            TransactionError::Frame(e) => TransactionErrorView::Frame(*e),
            TransactionError::Transport => TransactionErrorView::Transport,
            TransactionError::Timeout => TransactionErrorView::Timeout,
            TransactionError::ProtocolViolation(m) => TransactionErrorView::ProtocolViolation(m@),
        }
    }
}

/// The result of a transaction as a mathematical value.
pub open spec fn outcome_view(outcome: Result<Reply, TransactionError>) -> Outcome {
    match outcome {
        Ok(reply) => Ok(reply),
        Err(e) => Err(e@),
    }
}

impl View for Event {
    type V = EventView;

    open spec fn view(&self) -> EventView {
        match self {
            Event::Sent => EventView::Sent,
            Event::Received(m) => EventView::Received(m@),
            Event::DecodeFailed(e) => EventView::DecodeFailed(*e),
            Event::TransportFailed => EventView::TransportFailed,
            Event::TimedOut => EventView::TimedOut,
        }
    }
}

impl View for Action {
    type V = ActionView;

    open spec fn view(&self) -> ActionView {
        match self {
            Action::Send(m) => ActionView::Send(m@),
            Action::Receive => ActionView::Receive,
            Action::Done(outcome) => ActionView::Done(outcome_view(*outcome)),
            Action::Nothing => ActionView::Nothing,
        }
    }
}

impl View for Phase {
    type V = PhaseView;

    open spec fn view(&self) -> PhaseView {
        match self {
            Phase::Idle => PhaseView::Idle,
            Phase::AwaitingReply => PhaseView::AwaitingReply,
            Phase::AwaitingResponse(width) => PhaseView::AwaitingResponse(*width),
            Phase::AwaitingClose(outcome) => PhaseView::AwaitingClose(outcome_view(*outcome)),
        }
    }
}

/// The request that writes `value`, of the given width, to `head_device`.
pub open spec fn write_request(
    st: ClientView,
    head_device: Seq<char>,
    width: Width,
    value: int,
) -> MessageView {
    MessageView::Request {
        address: st.address,
        wait_time: st.wait_time,
        command: CommandView::WriteWords {
            head_device,
            count: width.points(),
            data: value_text(value, width.digits()),
        },
    }
}

/// The request that reads a value of the given width from `head_device`.
pub open spec fn read_request(st: ClientView, head_device: Seq<char>, width: Width) -> MessageView {
    MessageView::Request {
        address: st.address,
        wait_time: st.wait_time,
        command: CommandView::ReadWords { head_device, count: width.points() },
    }
}

/// The start of a transaction.
///
/// While another transaction is outstanding the attempt is refused as `Busy`,
/// and a request that breaks the message model as `InvalidMessage`; neither
/// changes the state. Otherwise the request is to be sent and the
/// transaction enters `phase`.
pub open spec fn begin(st: ClientView, request: MessageView, phase: PhaseView) -> (
    ClientView,
    ActionView,
) {
    if !(st.phase is Idle) {
        (st, ActionView::Done(Err(TransactionErrorView::Busy)))
    } else if !request.valid() {
        (st, ActionView::Done(Err(TransactionErrorView::Frame(FrameError::InvalidMessage))))
    } else {
        (
            ClientView { address: st.address, wait_time: st.wait_time, phase },
            ActionView::Send(request),
        )
    }
}

/// The transaction ends with `outcome`: the master is idle again.
pub open spec fn finish(st: ClientView, outcome: Outcome) -> (ClientView, ActionView) {
    (
        ClientView { address: st.address, wait_time: st.wait_time, phase: PhaseView::Idle },
        ActionView::Done(outcome),
    )
}

/// The transaction is closed by sending `frame`; `outcome` is held until
/// the frame is out.
pub open spec fn close(st: ClientView, frame: MessageView, outcome: Outcome) -> (
    ClientView,
    ActionView,
) {
    (
        ClientView {
            address: st.address,
            wait_time: st.wait_time,
            phase: PhaseView::AwaitingClose(outcome),
        },
        ActionView::Send(frame),
    )
}

/// The error that an event stands for, where it is not the event awaited.
pub open spec fn failure(event: EventView) -> TransactionErrorView {
    match event {
        EventView::Received(m) => TransactionErrorView::ProtocolViolation(m),
        EventView::DecodeFailed(e) => TransactionErrorView::Frame(e),
        EventView::TimedOut => TransactionErrorView::Timeout,
        _ => TransactionErrorView::Transport,
    }
}

/// The value of the given width that the data of a response spells.
pub open spec fn read_reply(data: Seq<char>, width: Width) -> Result<Reply, FrameError> {
    match read_value(data, width.digits()) {
        Ok(v) => Ok(
            match width {
                Width::Word => Reply::Word(v as i16),
                Width::DoubleWord => Reply::DoubleWord(v as i32),
            },
        ),
        Err(e) => Err(e),
    }
}

/// The answer to a read request.
///
/// A response whose data spells a value of the width asked for is closed
/// with `Ack` and yields the value. A response with other data is a decode
/// error, which ends the transaction with nothing sent. Any other message is
/// closed with `Nak` and reported, the message attached.
pub open spec fn on_response(st: ClientView, width: Width, m: MessageView) -> (
    ClientView,
    ActionView,
) {
    match m {
        MessageView::Response { data, .. } => match read_reply(data, width) {
            Ok(reply) => close(st, MessageView::Ack(st.address), Ok(reply)),
            Err(e) => finish(st, Err(TransactionErrorView::Frame(e))),
        },
        _ => close(
            st,
            MessageView::Nak(st.address),
            Err(TransactionErrorView::ProtocolViolation(m)),
        ),
    }
}

/// One step of a transaction: the state and the event give the next state
/// and what the caller is to do.
///
/// While idle, every event is ignored. Once a frame is out, the reply is
/// awaited. An acknowledgement ends a write; any other message fails it. A
/// read goes on as `on_response` says, and ends when the closing frame is
/// out. A decode error, a transport failure or a timeout ends the transaction
/// at once, with nothing sent.
pub open spec fn react(st: ClientView, event: EventView) -> (ClientView, ActionView) {
    match st.phase {
        PhaseView::Idle => (st, ActionView::Nothing),
        PhaseView::AwaitingReply => match event {
            EventView::Sent => (st, ActionView::Receive),
            EventView::Received(MessageView::Ack(_)) => finish(st, Ok(Reply::Written)),
            _ => finish(st, Err(failure(event))),
        },
        PhaseView::AwaitingResponse(width) => match event {
            EventView::Sent => (st, ActionView::Receive),
            EventView::Received(m) => on_response(st, width, m),
            _ => finish(st, Err(failure(event))),
        },
        PhaseView::AwaitingClose(outcome) => match event {
            EventView::Sent => finish(st, outcome),
            _ => finish(st, Err(failure(event))),
        },
    }
}

/// The master's side of the link: the address it talks to, the wait time it
/// asks for, and the transaction that is outstanding, if any.
pub struct Client {
    pub address: Address,
    pub msg_wait_time: u8,
    phase: Phase,
}

impl View for Client {
    type V = ClientView;

    closed spec fn view(&self) -> ClientView {
        ClientView { address: self.address, wait_time: self.msg_wait_time, phase: self.phase@ }
    }
}

impl Client {
    /// An idle master that talks to the device at `station` and `plc`, with
    /// wait time 0.
    pub fn new(station: u8, plc: u8) -> (r: Self)
        ensures
            r@ == (ClientView {
                address: Address { station, plc },
                wait_time: 0,
                phase: PhaseView::Idle,
            }),
    {
        Client { address: Address { station, plc }, msg_wait_time: 0, phase: Phase::Idle }
    }

    /// True when no transaction is outstanding.
    pub fn is_idle(&self) -> (r: bool)
        ensures
            r == (self@.phase is Idle),
    {
        match self.phase {
            Phase::Idle => true,
            _ => false,
        }
    }

    /// Starts a transaction with `request`, which on success enters `phase`.
    fn start(&mut self, request: Message, phase: Phase) -> (action: Action)
        ensures
            (final(self)@, action@) == begin(old(self)@, request@, phase@),
    {
        if !self.is_idle() {
            return Action::Done(Err(TransactionError::Busy));
        }
        if !request.is_valid() {
            return Action::Done(Err(TransactionError::Frame(FrameError::InvalidMessage)));
        }
        self.phase = phase;
        Action::Send(request)
    }

    /// Starts the write of a 16-bit value to `head_device`.
    pub fn write_i16(&mut self, head_device: String, value: i16) -> (action: Action)
        ensures
            (final(self)@, action@) == begin(
                old(self)@,
                write_request(old(self)@, head_device@, Width::Word, value as int),
                PhaseView::AwaitingReply,
            ),
    {
        let data = format_i16(value);
        let request = Message::Request(
            Request::new(
                self.address,
                self.msg_wait_time,
                Command::WriteWords(WriteWordsCommand::new(head_device, 1, data)),
            ),
        );
        self.start(request, Phase::AwaitingReply)
    }

    /// Starts the write of a 32-bit value to `head_device` and the device
    /// behind it.
    pub fn write_i32(&mut self, head_device: String, value: i32) -> (action: Action)
        ensures
            (final(self)@, action@) == begin(
                old(self)@,
                write_request(old(self)@, head_device@, Width::DoubleWord, value as int),
                PhaseView::AwaitingReply,
            ),
    {
        let data = format_i32(value);
        let request = Message::Request(
            Request::new(
                self.address,
                self.msg_wait_time,
                Command::WriteWords(WriteWordsCommand::new(head_device, 2, data)),
            ),
        );
        self.start(request, Phase::AwaitingReply)
    }

    /// Starts the read of a 32-bit value from `head_device` and the device
    /// behind it.
    pub fn read_i32(&mut self, head_device: String) -> (action: Action)
        ensures
            (final(self)@, action@) == begin(
                old(self)@,
                read_request(old(self)@, head_device@, Width::DoubleWord),
                PhaseView::AwaitingResponse(Width::DoubleWord),
            ),
    {
        let request = Message::Request(
            Request::new(
                self.address,
                self.msg_wait_time,
                Command::ReadWords(ReadWordsCommand::new(head_device, 2)),
            ),
        );
        self.start(request, Phase::AwaitingResponse(Width::DoubleWord))
    }

    /// Starts the read of a 16-bit value from `head_device`.
    pub fn read_i16(&mut self, head_device: String) -> (action: Action)
        ensures
            (final(self)@, action@) == begin(
                old(self)@,
                read_request(old(self)@, head_device@, Width::Word),
                PhaseView::AwaitingResponse(Width::Word),
            ),
    {
        let request = Message::Request(
            Request::new(
                self.address,
                self.msg_wait_time,
                Command::ReadWords(ReadWordsCommand::new(head_device, 1)),
            ),
        );
        self.start(request, Phase::AwaitingResponse(Width::Word))
    }

    /// Takes the next step of the transaction: exactly what `react` says.
    pub fn handle(&mut self, event: Event) -> (action: Action)
        ensures
            (final(self)@, action@) == react(old(self)@, event@),
    {
        let mut phase = Phase::Idle;
        core::mem::swap(&mut self.phase, &mut phase);
        match phase {
            Phase::Idle => Action::Nothing,
            Phase::AwaitingReply => match event {
                Event::Sent => {
                    self.phase = Phase::AwaitingReply;
                    Action::Receive
                },
                Event::Received(Message::Ack(_)) => Action::Done(Ok(Reply::Written)),
                other => Action::Done(Err(failure_of(other))),
            },
            Phase::AwaitingResponse(width) => match event {
                Event::Sent => {
                    self.phase = Phase::AwaitingResponse(width);
                    Action::Receive
                },
                Event::Received(message) => self.answer(width, message),
                other => Action::Done(Err(failure_of(other))),
            },
            Phase::AwaitingClose(outcome) => match event {
                Event::Sent => Action::Done(outcome),
                other => Action::Done(Err(failure_of(other))),
            },
        }
    }

    /// Decides on the answer to a read request.
    fn answer(&mut self, width: Width, message: Message) -> (action: Action)
        requires
            old(self).phase is Idle,
        ensures
            (final(self)@, action@) == on_response(old(self)@, width, message@),
    {
        match message {
            Message::Response(response) => match parse_reply(response.data.as_str(), width) {
                Ok(reply) => {
                    self.phase = Phase::AwaitingClose(Ok(reply));
                    Action::Send(Message::Ack(self.address))
                },
                Err(e) => Action::Done(Err(TransactionError::Frame(e))),
            },
            other => {
                let nak = Message::Nak(self.address);
                self.phase = Phase::AwaitingClose(Err(TransactionError::ProtocolViolation(other)));
                Action::Send(nak)
            },
        }
    }
}

/// The error that an event stands for, where it is not the event awaited.
fn failure_of(event: Event) -> (r: TransactionError)
    ensures
        r@ == failure(event@),
{
    match event {
        Event::Received(m) => TransactionError::ProtocolViolation(m),
        Event::DecodeFailed(e) => TransactionError::Frame(e),
        Event::TimedOut => TransactionError::Timeout,
        _ => TransactionError::Transport,
    }
}

/// Reads the data of a response as a value of the given width.
pub fn parse_reply(data: &str, width: Width) -> (r: Result<Reply, FrameError>)
    ensures
        r == read_reply(data@, width),
{
    match width {
        Width::Word => match parse_i16(data) {
            Ok(v) => Ok(Reply::Word(v)),
            Err(e) => Err(e),
        },
        Width::DoubleWord => match parse_i32(data) {
            Ok(v) => Ok(Reply::DoubleWord(v)),
            Err(e) => Err(e),
        },
    }
}

/// One transaction at a time: while a transaction is outstanding, the start
/// of another is refused as `Busy` and changes nothing.
pub proof fn lemma_one_at_a_time(st: ClientView, request: MessageView, phase: PhaseView)
    requires
        !(st.phase is Idle),
    ensures
        begin(st, request, phase) == (st, ActionView::Done(Err(TransactionErrorView::Busy))),
{
}

/// The phases follow each other in one order only. A write goes from
/// `AwaitingReply` to `Idle`; a read from `AwaitingResponse` to
/// `AwaitingClose` or `Idle`, and from `AwaitingClose` to `Idle`. A step ends
/// the transaction exactly when it returns `Done`; a frame is sent in the
/// middle of a transaction only to close a read; and the address and the
/// wait time never change.
pub proof fn lemma_phase_order(st: ClientView, event: EventView)
    ensures
        ({
            let (next, action) = react(st, event);
            &&& next.address == st.address
            &&& next.wait_time == st.wait_time
            &&& st.phase is Idle ==> next == st && action is Nothing
            &&& st.phase is AwaitingReply ==> next == st || next.phase is Idle
            &&& st.phase is AwaitingResponse ==> next == st || next.phase is AwaitingClose
                || next.phase is Idle
            &&& st.phase is AwaitingClose ==> next.phase is Idle
            &&& action is Done <==> !(st.phase is Idle) && next.phase is Idle
            &&& action is Send ==> st.phase is AwaitingResponse && next.phase is AwaitingClose
            &&& action is Receive ==> event is Sent && next == st
        }),
{
}

} // verus!
