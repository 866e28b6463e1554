//! Master and peer on a link that loses nothing.
//!
//! `exchange` is one whole transaction: every frame that the master sends
//! reaches the peer, and the peer's answer reaches the master. The lemmas
//! below say what the two engines do together: a write reaches the store, and a
//! read returns what the store holds.

use vstd::prelude::*;
use vstd::utf8::is_ascii_chars;
use crate::client::{
    begin, react, read_reply, read_request, write_request, ActionView, ClientView, EventView,
    PhaseView, Reply, Width,
};
use crate::error::FrameError;
use crate::hex::{hex_number, hex_text, is_hex_digit, is_hex_text};
use crate::message::{is_device_name, MessageView};
use crate::peer::{serve, stored, zeros, PeerActionView, PeerPhase, PeerView};
use crate::roundtrip::lemma_hex_text_plain;
use crate::text::{bytes_text, is_text, lemma_ascii_is_utf8, text_bytes};
use crate::word::{
    lemma_dword_round_trip, lemma_pow2_values, lemma_word_round_trip, read_value, unsigned_of,
    value_text,
};

verus! {

/// One frame of the master and what comes of it: the peer takes the frame,
/// the master learns that it is out and, where it then waits for a reply, gets
/// the peer's answer, or a timeout where the peer has none. Any other action
/// is left as it is.
pub open spec fn round(client: ClientView, peer: PeerView, action: ActionView) -> (
    ClientView,
    PeerView,
    ActionView,
) {
    match action {
        ActionView::Send(frame) => {
            let (served, answer) = serve(peer, frame);
            let (sent, next) = react(client, EventView::Sent);
            if next is Receive {
                let event = match answer {
                    PeerActionView::Reply(reply) => EventView::Received(reply),
                    _ => EventView::TimedOut,
                };
                let (got, after) = react(sent, event);
                (got, served, after)
            } else {
                (sent, served, next)
            }
        },
        _ => (client, peer, action),
    }
}

/// One whole transaction, from its first action on: at most two frames of
/// the master, the request and the frame that closes a read.
pub open spec fn exchange(client: ClientView, peer: PeerView, first: ActionView) -> (
    ClientView,
    PeerView,
    ActionView,
) {
    let (c, p, a) = round(client, peer, first);
    round(c, p, a)
}

/// The write of `value` to `device`, as one whole transaction.
pub open spec fn write_exchange(
    client: ClientView,
    peer: PeerView,
    device: Seq<char>,
    width: Width,
    value: int,
) -> (ClientView, PeerView, ActionView) {
    let (started, first) = begin(
        client,
        write_request(client, device, width, value),
        PhaseView::AwaitingReply,
    );
    exchange(started, peer, first)
}

/// The read of `device`, as one whole transaction.
pub open spec fn read_exchange(
    client: ClientView,
    peer: PeerView,
    device: Seq<char>,
    width: Width,
) -> (ClientView, PeerView, ActionView) {
    let (started, first) = begin(
        client,
        read_request(client, device, width),
        PhaseView::AwaitingResponse(width),
    );
    exchange(started, peer, first)
}

/// True when master and peer are both idle and the master's wait time can be
/// written in a request.
pub open spec fn at_rest(client: ClientView, peer: PeerView) -> bool {
    &&& client.phase is Idle
    &&& client.wait_time <= 15
    &&& peer.phase == PeerPhase::Idle
}

/// The text of a register value is text of its width.
pub proof fn lemma_value_text(value: int, digits: nat)
    ensures
        value_text(value, digits).len() == digits,
        is_text(value_text(value, digits)),
{
    let n = unsigned_of(value, 4 * digits);
    let bytes = hex_text(n, digits);
    lemma_hex_text_plain(n, digits);
    lemma_ascii_is_utf8(bytes);
    let chars = bytes_text(bytes);
    assert(!chars.contains('\n')) by {
        if chars.contains('\n') {
            let i = choose|i: int| 0 <= i < chars.len() && chars[i] == '\n';
            assert(is_hex_digit(bytes[i]));
            assert(bytes[i] as char == '\n');
        }
    }
}

/// A write reaches the store: from rest, the write of any value to any
/// device name is acknowledged, yields `Written`, leaves under the device
/// name the text of the value, and leaves both sides at rest.
pub proof fn lemma_write_exchange(
    client: ClientView,
    peer: PeerView,
    device: Seq<char>,
    width: Width,
    value: int,
)
    requires
        at_rest(client, peer),
        is_device_name(device),
    ensures
        write_exchange(client, peer, device, width, value) == (
            client,
            PeerView {
                store: peer.store.insert(device, value_text(value, width.digits())),
                phase: PeerPhase::Idle,
            },
            ActionView::Done(Ok(Reply::Written)),
        ),
{
    lemma_value_text(value, width.digits());
    let request = write_request(client, device, width, value);
    assert(request.valid());
}

/// A read returns what the store holds: from rest, the read of a device name
/// whose text in the store, or the zeros in its place, spells a value of the
/// width asked for, yields that value, is closed with `Ack`, and leaves both
/// sides at rest and the store as it was.
pub proof fn lemma_read_exchange(
    client: ClientView,
    peer: PeerView,
    device: Seq<char>,
    width: Width,
)
    requires
        at_rest(client, peer),
        is_device_name(device),
        read_reply(stored(peer.store, device, width.points()), width) is Ok,
    ensures
        read_exchange(client, peer, device, width) == (
            client,
            peer,
            ActionView::Done(
                Ok(read_reply(stored(peer.store, device, width.points()), width)->Ok_0),
            ),
        ),
{
    let request = read_request(client, device, width);
    assert(request.valid());
    let (started, first) = begin(client, request, PhaseView::AwaitingResponse(width));
    let (c1, p1, a1) = round(started, peer, first);
    assert(a1 == ActionView::Send(MessageView::Ack(client.address)));
    assert(p1 == PeerView { store: peer.store, phase: PeerPhase::AwaitingClose });
    let (c2, p2, a2) = round(c1, p1, a1);
    assert(p2 == peer);
}

/// Width semantics, end to end: a value written as a word or a double word
/// is the value that the next read of the same device returns.
pub proof fn lemma_written_value_is_read(
    client: ClientView,
    peer: PeerView,
    device: Seq<char>,
    width: Width,
    value: int,
)
    requires
        at_rest(client, peer),
        is_device_name(device),
        width == Width::Word ==> i16::MIN <= value <= i16::MAX,
        width == Width::DoubleWord ==> i32::MIN <= value <= i32::MAX,
    ensures
        ({
            let (c, p, written) = write_exchange(client, peer, device, width, value);
            let (c2, p2, read) = read_exchange(c, p, device, width);
            &&& written == ActionView::Done(Ok(Reply::Written))
            &&& c2 == client
            &&& p2 == p
            &&& read == ActionView::Done(
                Ok(
                    match width {
                        Width::Word => Reply::Word(value as i16),
                        Width::DoubleWord => Reply::DoubleWord(value as i32),
                    },
                ),
            )
        }),
{
    lemma_write_exchange(client, peer, device, width, value);
    let (c, p, written) = write_exchange(client, peer, device, width, value);
    match width {
        Width::Word => {
            lemma_word_round_trip(value as i16);
        },
        Width::DoubleWord => {
            lemma_dword_round_trip(value as i32);
        },
    }
    assert(stored(p.store, device, width.points()) == value_text(value, width.digits()));
    lemma_read_exchange(c, p, device, width);
}

/// The number that a text of zeros spells is 0.
proof fn lemma_zeros_number(text: Seq<u8>)
    requires
        forall|i: int| 0 <= i < text.len() ==> text[i] == 0x30,
    ensures
        is_hex_text(text),
        hex_number(text) == 0,
    decreases text.len(),
{
    if text.len() > 0 {
        lemma_zeros_number(text.drop_last());
    }
}

/// A register that was never written reads as 0, at either width.
pub proof fn lemma_absent_register_reads_zero(
    client: ClientView,
    peer: PeerView,
    device: Seq<char>,
    width: Width,
)
    requires
        at_rest(client, peer),
        is_device_name(device),
        !peer.store.contains_key(device),
    ensures
        read_exchange(client, peer, device, width) == (
            client,
            peer,
            ActionView::Done(
                Ok(
                    match width {
                        Width::Word => Reply::Word(0),
                        Width::DoubleWord => Reply::DoubleWord(0),
                    },
                ),
            ),
        ),
{
    lemma_pow2_values();
    let data = zeros(width.points());
    assert(is_ascii_chars(data));
    lemma_zeros_number(text_bytes(data));
    assert(read_value(data, width.digits()) == Ok::<int, FrameError>(0));
    lemma_read_exchange(client, peer, device, width);
}

} // verus!
