//! The peer engine: the slave's side of a transaction.
//!
//! The peer owns the register store. It answers a write with `Ack` and a read
//! with the stored value, and then waits for the master to close the read
//! before it takes the next request.

use vstd::prelude::*;
use vstd::hash_map::StringHashMap;
use crate::message::{Address, Command, CommandView, Message, MessageView, Response};
use crate::text::ascii_string;

verus! {

/// The registers of the slave: the latest value written under each device
/// name, as the text that was written.
pub struct RegisterStore {
    map: StringHashMap<String>,
}

impl View for RegisterStore {
    type V = Map<Seq<char>, Seq<char>>;

    closed spec fn view(&self) -> Map<Seq<char>, Seq<char>> {
        self.map@.map_values(|v: String| v@)
    }
}

/// The text of a register that was never written: a zero for each
/// hexadecimal digit of the device points asked for.
pub open spec fn zeros(points: u8) -> Seq<char> {
    Seq::new(4 * points as nat, |i: int| '0')
}

/// What a read of `points` device points at `name` returns: the value last
/// written there, or zeros.
pub open spec fn stored(store: Map<Seq<char>, Seq<char>>, name: Seq<char>, points: u8) -> Seq<
    char,
> {
    if store.contains_key(name) {
        store[name]
    } else {
        zeros(points)
    }
}

impl RegisterStore {
    /// A store in which nothing was written yet.
    pub fn new() -> (r: Self)
        ensures
            r@ == Map::<Seq<char>, Seq<char>>::empty(),
    {
        let r = RegisterStore { map: StringHashMap::new() };
        assert(r@ =~= Map::<Seq<char>, Seq<char>>::empty());
        r
    }

    /// The value last written under `name`, if any.
    pub fn get(&self, name: &str) -> (r: Option<String>)
        ensures
            r is Some <==> self@.contains_key(name@),
            r is Some ==> r->0@ == self@[name@],
    {
        match self.map.get(name) {
            Some(value) => Some(value.clone()),
            None => None,
        }
    }

    /// Writes `value` under `name`; what was there before is overwritten.
    pub fn set(&mut self, name: String, value: String)
        ensures
            final(self)@ == old(self)@.insert(name@, value@),
    {
        self.map.insert(name, value);
        assert(final(self)@ =~= old(self)@.insert(name@, value@));
    }
}

/// Where the peer stands.
#[derive(Debug, Clone, Copy, PartialEq, Eq, Structural)]
pub enum PeerPhase {
    /// The next request is awaited.
    Idle,
    /// A response was sent; the master's closing `Ack` or `Nak` is awaited.
    AwaitingClose,
}

/// What the peer does about a message.
#[derive(Debug, Clone, PartialEq, Eq)]
pub enum PeerAction {
    /// This frame is to be sent in answer.
    Reply(Message),
    /// The master has closed the read with `Ack`.
    Closed,
    /// The master has closed the read with `Nak`.
    Refused,
    /// The message was not awaited: it is to be logged and dropped.
    Unexpected(Message),
}

pub enum PeerActionView {
    Reply(MessageView),
    Closed,
    Refused,
    Unexpected(MessageView),
}

impl View for PeerAction {
    type V = PeerActionView;

    open spec fn view(&self) -> PeerActionView {
        match self {
            PeerAction::Reply(m) => PeerActionView::Reply(m@),
            PeerAction::Closed => PeerActionView::Closed,
            PeerAction::Refused => PeerActionView::Refused,
            PeerAction::Unexpected(m) => PeerActionView::Unexpected(m@),
        }
    }
}

/// The peer as a mathematical value.
pub struct PeerView {
    pub store: Map<Seq<char>, Seq<char>>,
    pub phase: PeerPhase,
}

/// The peer's answer to a request.
///
/// A write puts its data under the head device, whatever was there and
/// whatever the count, and is acknowledged. A read is answered with what is
/// stored there, and the peer waits for the read to be closed.
pub open spec fn answer(st: PeerView, address: Address, command: CommandView) -> (
    PeerView,
    PeerActionView,
) {
    match command {
        CommandView::WriteWords { head_device, data, .. } => (
            PeerView { store: st.store.insert(head_device, data), phase: PeerPhase::Idle },
            PeerActionView::Reply(MessageView::Ack(address)),
        ),
        CommandView::ReadWords { head_device, count } => (
            PeerView { store: st.store, phase: PeerPhase::AwaitingClose },
            PeerActionView::Reply(
                MessageView::Response { address, data: stored(st.store, head_device, count) },
            ),
        ),
    }
}

/// One step of the peer: the state and the message that came give the next
/// state and what is to be done.
///
/// While idle, a request is answered and anything else is unexpected. While a
/// read waits to be closed, `Ack` and `Nak` close it and anything else is
/// unexpected; in every case the peer is idle again.
pub open spec fn serve(st: PeerView, m: MessageView) -> (PeerView, PeerActionView) {
    match st.phase {
        PeerPhase::Idle => match m {
            MessageView::Request { address, command, .. } => answer(st, address, command),
            _ => (st, PeerActionView::Unexpected(m)),
        },
        PeerPhase::AwaitingClose => (
            PeerView { store: st.store, phase: PeerPhase::Idle },
            match m {
                MessageView::Ack(_) => PeerActionView::Closed,
                MessageView::Nak(_) => PeerActionView::Refused,
                MessageView::NakWithError { .. } => PeerActionView::Refused,
                _ => PeerActionView::Unexpected(m),
            },
        ),
    }
}

/// The slave's side of the link: the register store and the read that waits
/// to be closed, if any.
pub struct Peer {
    store: RegisterStore,
    phase: PeerPhase,
}

impl View for Peer {
    type V = PeerView;

    closed spec fn view(&self) -> PeerView {
        PeerView { store: self.store@, phase: self.phase }
    }
}

/// The text of `points` device points of zeros.
fn zero_text(points: u8) -> (r: String)
    ensures
        r@ == zeros(points),
{
    let n: usize = 4 * points as usize;
    let mut bytes: Vec<u8> = Vec::new();
    let mut i: usize = 0;
    while i < n
        invariant
            i <= n,
            bytes@.len() == i,
            forall|k: int| 0 <= k < i ==> bytes@[k] == 0x30,
        decreases n - i,
    {
        bytes.push(0x30);
        i += 1;
    }
    let r = ascii_string(bytes.as_slice());
    assert(r@ =~= zeros(points));
    r
}

impl Peer {
    /// An idle peer with an empty register store.
    pub fn new() -> (r: Self)
        ensures
            r@ == (PeerView {
                store: Map::<Seq<char>, Seq<char>>::empty(),
                phase: PeerPhase::Idle,
            }),
    {
        Peer { store: RegisterStore::new(), phase: PeerPhase::Idle }
    }

    /// The value last written under `name`, if any.
    pub fn register(&self, name: &str) -> (r: Option<String>)
        ensures
            r is Some <==> self@.store.contains_key(name@),
            r is Some ==> r->0@ == self@.store[name@],
    {
        self.store.get(name)
    }

    /// True while a read waits to be closed.
    pub fn is_awaiting_close(&self) -> (r: bool)
        ensures
            r == (self@.phase == PeerPhase::AwaitingClose),
    {
        match self.phase {
            PeerPhase::AwaitingClose => true,
            PeerPhase::Idle => false,
        }
    }

    /// Takes the next message: exactly what `serve` says.
    pub fn handle(&mut self, message: Message) -> (action: PeerAction)
        ensures
            (final(self)@, action@) == serve(old(self)@, message@),
    {
        match self.phase {
            PeerPhase::Idle => match message {
                Message::Request(request) => {
                    let address = request.address;
                    match request.command {
                        Command::WriteWords(c) => {
                            self.store.set(c.head_device, c.data);
                            PeerAction::Reply(Message::Ack(address))
                        },
                        Command::ReadWords(c) => {
                            let data = match self.store.get(c.head_device.as_str()) {
                                Some(value) => value,
                                None => zero_text(c.number_of_device_points),
                            };
                            self.phase = PeerPhase::AwaitingClose;
                            PeerAction::Reply(Message::Response(Response::new(address, data)))
                        },
                    }
                },
                other => PeerAction::Unexpected(other),
            },
            PeerPhase::AwaitingClose => {
                self.phase = PeerPhase::Idle;
                match message {
                    Message::Ack(_) => PeerAction::Closed,
                    Message::Nak(_) => PeerAction::Refused,
                    Message::NakWithError(_) => PeerAction::Refused,
                    other => PeerAction::Unexpected(other),
                }
            },
        }
    }

    /// Gives up on the read that waits to be closed, as after a line that
    /// could not be decoded: the peer is idle again and its store untouched.
    pub fn abort(&mut self)
        ensures
            final(self)@ == (PeerView { store: old(self)@.store, phase: PeerPhase::Idle }),
    {
        self.phase = PeerPhase::Idle;
    }
}

} // verus!
