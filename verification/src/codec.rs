//! The incremental framing codec.
//!
//! The decoder cuts a byte stream, delivered in pieces of any size, into
//! lines and turns each line into a message. It keeps two things between
//! calls: how far it has looked for a line feed, and whether it is skipping
//! the rest of a line that grew past the maximum length.

use vstd::prelude::*;
use bytes::BytesMut;
use crate::buffer::{buffer_advance, buffer_bytes, buffer_put_slice, buffer_slice, buffer_split_to};
use crate::error::FrameError;
use crate::message::{Message, MessageView};
use crate::text::LF;
use crate::wire::{decode_line, encode_frame, frame_of, parse_line};

verus! {

/// What the decoder remembers between two calls.
pub struct DecoderState {
    /// How many bytes at the head of the buffer are known to hold no line feed.
    pub next_index: nat,
    /// The longest line, without its line feed, that is accepted.
    pub max_length: nat,
    /// True while the rest of an oversized line is being skipped.
    pub is_discarding: bool,
}

/// What one call of the decoder yields: a message; nothing yet, because the
/// buffer holds no complete line; or an error.
pub type Output = Result<Option<MessageView>, FrameError>;

/// One call of the decoder: the state and the buffer it leaves, and what it
/// returns.
pub struct Step {
    pub state: DecoderState,
    pub rest: Seq<u8>,
    pub output: Output,
}

/// The index of the first line feed in `bytes[from..to]`.
pub open spec fn find_lf(bytes: Seq<u8>, from: int, to: int) -> Option<int>
    decreases to - from,
{
    if from >= to {
        None
    } else if bytes[from] == LF {
        Some(from)
    } else {
        find_lf(bytes, from + 1, to)
    }
}

/// How far into a buffer of `len` bytes a line feed is looked for: one byte
/// past the maximum length at most.
pub open spec fn scan_limit(max_length: nat, len: nat) -> nat {
    if len <= max_length {
        len
    } else {
        max_length + 1
    }
}

/// Where the search for a line feed starts: at the remembered offset, or at
/// the limit where the buffer has shrunk below it.
pub open spec fn scan_start(st: DecoderState, len: nat) -> nat {
    let limit = scan_limit(st.max_length, len);
    if st.next_index <= limit {
        st.next_index
    } else {
        limit
    }
}

/// What a line says, as the decoder's output.
pub open spec fn line_output(line: Seq<u8>) -> Output {
    match parse_line(line) {
        Ok(m) => Ok(Some(m)),
        Err(e) => Err(e),
    }
}

/// One call of the decoder while it is not discarding.
///
/// A line feed within the limit ends a line: the line is taken out of the
/// buffer, whatever it says. Without one, a buffer longer than the maximum
/// length is an oversized line, and the decoder starts discarding; a shorter
/// one waits for more data.
pub open spec fn read_step(st: DecoderState, buf: Seq<u8>) -> Step {
    let limit = scan_limit(st.max_length, buf.len());
    let start = scan_start(st, buf.len());
    match find_lf(buf, start as int, limit as int) {
        Some(i) => Step {
            state: DecoderState {
                next_index: 0,
                max_length: st.max_length,
                is_discarding: false,
            },
            rest: buf.skip(i + 1),
            output: line_output(buf.take(i)),
        },
        None => if buf.len() > st.max_length {
            Step {
                state: DecoderState {
                    next_index: start,
                    max_length: st.max_length,
                    is_discarding: true,
                },
                rest: buf,
                output: Err(FrameError::LineTooLong),
            }
        } else {
            Step {
                state: DecoderState {
                    next_index: limit,
                    max_length: st.max_length,
                    is_discarding: false,
                },
                rest: buf,
                output: Ok(None),
            }
        },
    }
}

/// One call of the decoder.
///
/// While discarding, everything up to the next line feed is dropped; once
/// that line feed is found, the same call goes on to read what follows it.
#[verifier::opaque]
pub open spec fn decode_step(st: DecoderState, buf: Seq<u8>) -> Step {
    if st.is_discarding {
        let start = scan_start(st, buf.len());
        match find_lf(buf, start as int, buf.len() as int) {
            Some(i) => read_step(
                DecoderState { next_index: 0, max_length: st.max_length, is_discarding: false },
                buf.skip(i + 1),
            ),
            None => Step {
                state: DecoderState {
                    next_index: 0,
                    max_length: st.max_length,
                    is_discarding: true,
                },
                rest: Seq::empty(),
                output: Ok(None),
            },
        }
    } else {
        read_step(st, buf)
    }
}

/// What `find_lf` finds is the first line feed of the range.
pub proof fn lemma_find_lf_found(bytes: Seq<u8>, from: int, to: int)
    requires
        0 <= from,
        to <= bytes.len(),
    ensures
        match find_lf(bytes, from, to) {
            Some(i) => {
                &&& from <= i < to
                &&& bytes[i] == LF
                &&& forall|j: int| from <= j < i ==> bytes[j] != LF
            },
            None => forall|j: int| from <= j < to ==> bytes[j] != LF,
        },
    decreases to - from,
{
    if from < to && bytes[from] != LF {
        lemma_find_lf_found(bytes, from + 1, to);
    }
}

/// The first line feed of a range is what `find_lf` finds.
pub proof fn lemma_find_lf_is(bytes: Seq<u8>, from: int, to: int, i: int)
    requires
        0 <= from <= i < to <= bytes.len(),
        bytes[i] == LF,
        forall|j: int| from <= j < i ==> bytes[j] != LF,
    ensures
        find_lf(bytes, from, to) == Some(i),
    decreases i - from,
{
    if from < i {
        lemma_find_lf_is(bytes, from + 1, to, i);
    }
}

/// A range without a line feed yields nothing.
pub proof fn lemma_find_lf_none(bytes: Seq<u8>, from: int, to: int)
    requires
        0 <= from,
        to <= bytes.len(),
        forall|j: int| from <= j < to ==> bytes[j] != LF,
    ensures
        find_lf(bytes, from, to) is None,
    decreases to - from,
{
    if from < to {
        lemma_find_lf_none(bytes, from + 1, to);
    }
}

/// True when `r` is what the specification `out` says.
pub open spec fn output_agrees(r: Result<Option<Message>, FrameError>, out: Output) -> bool {
    match out {
        Ok(Some(m)) => r is Ok && r->Ok_0 is Some && r->Ok_0->0@ == m,
        Ok(None) => r is Ok && r->Ok_0 is None,
        Err(e) => r is Err && r->Err_0 == e,
    }
}

/// Looks for the first line feed in `bytes[from..to]` and gives its offset
/// from `from`.
fn find_newline(bytes: &[u8], from: usize, to: usize) -> (r: Option<usize>)
    requires
        from <= to <= bytes.len(),
    ensures
        match r {
            Some(offset) => find_lf(bytes@, from as int, to as int) == Some(from + offset),
            None => find_lf(bytes@, from as int, to as int) is None,
        },
{
    let mut i: usize = from;
    while i < to
        invariant
            from <= i <= to <= bytes.len(),
            forall|j: int| from <= j < i ==> bytes@[j] != LF,
        decreases to - i,
    {
        if bytes[i] == LF {
            proof {
                lemma_find_lf_is(bytes@, from as int, to as int, i as int);
            }
            return Some(i - from);
        }
        i += 1;
    }
    proof {
        lemma_find_lf_none(bytes@, from as int, to as int);
    }
    None
}

/// The framing codec: the decoder's memory. Encoding keeps no state.
pub struct FxCodec {
    next_index: usize,
    max_length: usize,
    is_discarding: bool,
}

impl View for FxCodec {
    type V = DecoderState;

    closed spec fn view(&self) -> DecoderState {
        DecoderState {
            next_index: self.next_index as nat,
            max_length: self.max_length as nat,
            is_discarding: self.is_discarding,
        }
    }
}

/// The state of a decoder that has seen nothing yet.
pub open spec fn fresh(max_length: nat) -> DecoderState {
    DecoderState { next_index: 0, max_length, is_discarding: false }
}

impl FxCodec {
    /// A codec that accepts lines of any length.
    pub fn new() -> (r: FxCodec)
        ensures
            r@ == fresh(usize::MAX as nat),
    {
        FxCodec { next_index: 0, max_length: usize::MAX, is_discarding: false }
    }

    /// A codec that accepts lines of up to `max_length` bytes, the line feed
    /// not counted.
    pub fn new_with_max_length(max_length: usize) -> (r: FxCodec)
        ensures
            r@ == fresh(max_length as nat),
    {
        FxCodec { next_index: 0, max_length, is_discarding: false }
    }

    /// The longest line that is accepted.
    pub fn max_length(&self) -> (r: usize)
        ensures
            r == self@.max_length,
    {
        self.max_length
    }

    /// True while the rest of an oversized line is being skipped.
    pub fn is_discarding(&self) -> (r: bool)
        ensures
            r == self@.is_discarding,
    {
        self.is_discarding
    }

    /// Drops what was searched of an oversized line: up to the line feed at
    /// `newline_offset` behind the remembered offset, where one was found,
    /// and up to `read_to` where none was. Discarding ends with the line feed.
    fn discard(&mut self, newline_offset: Option<usize>, read_to: usize, buf: &mut BytesMut)
        requires
            read_to <= buffer_bytes(*old(buf)).len(),
            newline_offset is Some ==> newline_offset->0 + old(self).next_index < read_to,
        ensures
            final(self).max_length == old(self).max_length,
            final(self).next_index == 0,
            final(self).is_discarding == (old(self).is_discarding && newline_offset is None),
            buffer_bytes(*final(buf)) == buffer_bytes(*old(buf)).skip(
                match newline_offset {
                    Some(offset) => offset + old(self).next_index + 1,
                    None => read_to as int,
                },
            ),
    {
        let discard_to = if let Some(offset) = newline_offset {
            self.is_discarding = false;
            offset + self.next_index + 1
        } else {
            read_to
        };
        buffer_advance(buf, discard_to);
        self.next_index = 0;
    }

    /// Looks for a line feed in what `bytes` holds behind the remembered
    /// offset, up to the limit. Gives the offset of the line feed from there,
    /// if there is one, and the limit.
    fn scan(&mut self, bytes: &[u8]) -> (r: (Option<usize>, usize))
        ensures
            final(self).max_length == old(self).max_length,
            final(self).is_discarding == old(self).is_discarding,
            final(self).next_index == scan_start(old(self)@, bytes@.len()),
            r.1 == scan_limit(old(self)@.max_length, bytes@.len()),
            match r.0 {
                Some(offset) => find_lf(bytes@, final(self).next_index as int, r.1 as int) == Some(
                    final(self).next_index + offset,
                ),
                None => find_lf(bytes@, final(self).next_index as int, r.1 as int) is None,
            },
    {
        let len = bytes.len();
        let limit = self.max_length.saturating_add(1);
        let read_to = if limit < len {
            limit
        } else {
            len
        };
        if self.next_index > read_to {
            self.next_index = read_to;
        }
        let newline_offset = find_newline(bytes, self.next_index, read_to);
        (newline_offset, read_to)
    }

    /// One call of the decoder while it is not discarding.
    fn read(&mut self, buf: &mut BytesMut) -> (r: Result<Option<Message>, FrameError>)
        requires
            !old(self).is_discarding,
        ensures
            ({
                let step = read_step(old(self)@, buffer_bytes(*old(buf)));
                &&& final(self)@ == step.state
                &&& buffer_bytes(*final(buf)) == step.rest
                &&& output_agrees(r, step.output)
            }),
    {
        let ghost before = buffer_bytes(*buf);
        let (newline_offset, read_to) = self.scan(buffer_slice(buf));
        proof {
            lemma_find_lf_found(before, self.next_index as int, read_to as int);
        }
        match newline_offset {
            Some(offset) => {
                let newline_index = offset + self.next_index;
                self.next_index = 0;
                let line = buffer_split_to(buf, newline_index + 1);
                let text = buffer_slice(&line);
                proof {
                    assert(text@.subrange(0, newline_index as int) =~= before.take(
                        newline_index as int,
                    ));
                }
                match decode_line(&text[0..newline_index]) {
                    Ok(message) => Ok(Some(message)),
                    Err(e) => Err(e),
                }
            },
            None => {
                if buffer_slice(buf).len() > self.max_length {
                    self.is_discarding = true;
                    Err(FrameError::LineTooLong)
                } else {
                    self.next_index = read_to;
                    Ok(None)
                }
            },
        }
    }

    /// One round of discarding: searches the buffer up to the limit and drops
    /// what was searched, up to the line feed if one was found. Returns true
    /// when the buffer has run out without a line feed.
    fn skip(&mut self, buf: &mut BytesMut) -> (done: bool)
        requires
            old(self).is_discarding,
        ensures
            decode_step(final(self)@, buffer_bytes(*final(buf))) == decode_step(
                old(self)@,
                buffer_bytes(*old(buf)),
            ),
            done ==> final(self)@ == idle_discarding(old(self)@.max_length) && buffer_bytes(
                *final(buf),
            ).len() == 0,
            !done ==> buffer_bytes(*final(buf)).len() < buffer_bytes(*old(buf)).len(),
    {
        let ghost before = buffer_bytes(*buf);
        let ghost state = self@;
        let (newline_offset, read_to) = self.scan(buffer_slice(buf));
        let emptied = read_to == buffer_slice(buf).len();
        proof {
            lemma_discard_round(state, before);
        }
        self.discard(newline_offset, read_to, buf);
        newline_offset.is_none() && emptied
    }

    /// Takes the next message out of `buf`, if a complete line is there.
    ///
    /// `Ok(None)` says that more data is needed; the caller appends to `buf`
    /// and calls again. An error costs the one line that it is about, and the
    /// next call goes on behind it. The call does exactly what `decode_step`
    /// says, for every state and every buffer.
    pub fn decode(&mut self, buf: &mut BytesMut) -> (r: Result<Option<Message>, FrameError>)
        ensures
            ({
                let step = decode_step(old(self)@, buffer_bytes(*old(buf)));
                &&& final(self)@ == step.state
                &&& buffer_bytes(*final(buf)) == step.rest
                &&& output_agrees(r, step.output)
            }),
    {
        let ghost goal = decode_step(self@, buffer_bytes(*buf));
        while self.is_discarding
            invariant
                goal == decode_step(old(self)@, buffer_bytes(*old(buf))),
                decode_step(self@, buffer_bytes(*buf)) == goal,
            decreases buffer_bytes(*buf).len(),
        {
            if self.skip(buf) {
                proof {
                    lemma_discard_empty(self@.max_length, buffer_bytes(*buf));
                }
                return Ok(None);
            }
        }
        proof {
            reveal(decode_step);
        }
        self.read(buf)
    }

    /// Appends the frame of `item` to `dst`.
    ///
    /// Succeeds exactly on the messages that meet the message model; a
    /// message that does not is refused and `dst` is left as it was. The
    /// frame must fit into what a buffer can hold; `try_encode` asks for
    /// nothing.
    pub fn encode(&mut self, item: Message, dst: &mut BytesMut) -> (r: Result<(), FrameError>)
        requires
            buffer_bytes(*old(dst)).len() + frame_of(item@).len() <= isize::MAX,
        ensures
            final(self)@ == old(self)@,
            item@.valid() ==> r is Ok && buffer_bytes(*final(dst)) == buffer_bytes(*old(dst))
                + frame_of(item@),
            !item@.valid() ==> r == Err::<(), FrameError>(FrameError::InvalidMessage)
                && buffer_bytes(*final(dst)) == buffer_bytes(*old(dst)),
    {
        match encode_frame(&item) {
            Ok(frame) => {
                buffer_put_slice(dst, frame.as_slice());
                Ok(())
            },
            Err(e) => Err(e),
        }
    }

    /// Appends the frame of `item` to `dst` if the buffer has room for it.
    ///
    /// Returns `None`, with `dst` as it was, where the frame of a valid
    /// message would take the buffer past what can be allocated; otherwise
    /// what `encode` returns.
    pub fn try_encode(&mut self, item: Message, dst: &mut BytesMut) -> (r: Option<
        Result<(), FrameError>,
    >)
        ensures
            final(self)@ == old(self)@,
            !item@.valid() ==> r == Some(Err::<(), FrameError>(FrameError::InvalidMessage))
                && buffer_bytes(*final(dst)) == buffer_bytes(*old(dst)),
            item@.valid() && buffer_bytes(*old(dst)).len() + frame_of(item@).len() <= isize::MAX
                ==> r == Some(Ok::<(), FrameError>(())) && buffer_bytes(*final(dst))
                == buffer_bytes(*old(dst)) + frame_of(item@),
            item@.valid() && buffer_bytes(*old(dst)).len() + frame_of(item@).len() > isize::MAX
                ==> r is None && buffer_bytes(*final(dst)) == buffer_bytes(*old(dst)),
    {
        match encode_frame(&item) {
            Ok(frame) => {
                let held = buffer_slice(dst).len();
                let limit = isize::MAX as usize;
                if frame.len() > limit || held > limit - frame.len() {
                    None
                } else {
                    buffer_put_slice(dst, frame.as_slice());
                    Some(Ok(()))
                }
            },
            Err(e) => Some(Err(e)),
        }
    }
}

/// The state of a decoder that is discarding and has dropped all it was given.
pub open spec fn idle_discarding(max_length: nat) -> DecoderState {
    DecoderState { next_index: 0, max_length, is_discarding: true }
}

/// A discarding decoder with nothing in its buffer waits for more data.
proof fn lemma_discard_empty(max_length: nat, buf: Seq<u8>)
    requires
        buf.len() == 0,
    ensures
        decode_step(idle_discarding(max_length), buf) == (Step {
            state: idle_discarding(max_length),
            rest: buf,
            output: Ok(None),
        }),
{
    reveal(decode_step);
    assert(buf =~= Seq::<u8>::empty());
}

/// One round of discarding leaves the decoder with the same call to finish:
/// what was searched and dropped held no line feed, or ended with the first.
proof fn lemma_discard_round(st: DecoderState, buf: Seq<u8>)
    requires
        st.is_discarding,
    ensures
        ({
            let start = scan_start(st, buf.len()) as int;
            let read_to = scan_limit(st.max_length, buf.len()) as int;
            let found = find_lf(buf, start, read_to);
            let after = DecoderState {
                next_index: 0,
                max_length: st.max_length,
                is_discarding: found is None,
            };
            let dropped = if found is Some {
                found->0 + 1
            } else {
                read_to
            };
            &&& 0 <= start <= read_to <= buf.len()
            &&& found is Some ==> start <= found->0 < read_to
            &&& decode_step(st, buf) == decode_step(after, buf.skip(dropped))
        }),
{
    reveal(decode_step);
    let start = scan_start(st, buf.len()) as int;
    let read_to = scan_limit(st.max_length, buf.len()) as int;
    lemma_find_lf_found(buf, start, read_to);
    lemma_find_lf_found(buf, start, buf.len() as int);
    match find_lf(buf, start, read_to) {
        Some(i) => {
            lemma_find_lf_is(buf, start, buf.len() as int, i);
        },
        None => {
            let tail = buf.skip(read_to);
            assert(scan_start(idle_discarding(st.max_length), tail.len()) == 0);
            match find_lf(buf, start, buf.len() as int) {
                Some(i) => {
                    assert(i >= read_to);
                    assert forall|j: int| 0 <= j < i - read_to implies tail[j] != LF by {
                        assert(tail[j] == buf[j + read_to]);
                    }
                    assert(tail[i - read_to] == buf[i]);
                    lemma_find_lf_is(tail, 0, tail.len() as int, i - read_to);
                    assert(tail.skip(i - read_to + 1) =~= buf.skip(i + 1));
                },
                None => {
                    assert forall|j: int| 0 <= j < tail.len() implies tail[j] != LF by {
                        assert(tail[j] == buf[j + read_to]);
                    }
                    lemma_find_lf_none(tail, 0, tail.len() as int);
                },
            }
        },
    }
}

} // verus!
