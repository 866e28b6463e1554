//! The decoder over a whole byte stream.
//!
//! `drain` is the decoder called until it asks for more data; `feed` is a
//! stream that arrives in pieces, the decoder drained after each. The lemmas
//! below say that the pieces do not matter, that every frame written comes
//! out again, and that an oversized line costs one error and nothing else.

use vstd::prelude::*;
use crate::codec::{
    decode_step, find_lf, fresh, lemma_find_lf_found, lemma_find_lf_is, lemma_find_lf_none,
    read_step, scan_limit, scan_start, DecoderState, Step,
};
use crate::error::FrameError;
use crate::message::MessageView;
use crate::roundtrip::{lemma_line_is_plain, lemma_line_round_trip};
use crate::text::LF;
use crate::wire::{frame_of, line_of};

verus! {

/// What the decoder hands out per line: a message or an error.
pub type Item = Result<MessageView, FrameError>;

/// The decoder after a run of calls: its state, what is left in the buffer,
/// and all it has handed out, in order.
pub struct Run {
    pub state: DecoderState,
    pub rest: Seq<u8>,
    pub outputs: Seq<Item>,
}

/// The run that hands out `first` and then goes on as `run`.
pub open spec fn after(first: Item, run: Run) -> Run {
    Run { state: run.state, rest: run.rest, outputs: seq![first] + run.outputs }
}

/// The decoder is called on `buf` until it asks for more data.
pub open spec fn drain(st: DecoderState, buf: Seq<u8>) -> Run
    decreases
            buf.len(),
            (if st.is_discarding {
                0nat
            } else {
                1nat
            }),
    via drain_decreases
{
    let step = decode_step(st, buf);
    match step.output {
        Ok(None) => Run { state: step.state, rest: step.rest, outputs: Seq::empty() },
        Ok(Some(m)) => after(Ok(m), drain(step.state, step.rest)),
        Err(e) => after(Err(e), drain(step.state, step.rest)),
    }
}

#[via_fn]
proof fn drain_decreases(st: DecoderState, buf: Seq<u8>) {
    lemma_step_shape(st, buf);
}

/// The stream arrives in `chunks`: each is appended to what the buffer still
/// holds, and the decoder is drained before the next arrives.
pub open spec fn feed(st: DecoderState, buf: Seq<u8>, chunks: Seq<Seq<u8>>) -> Run
    decreases chunks.len(),
{
    if chunks.len() == 0 {
        Run { state: st, rest: buf, outputs: Seq::empty() }
    } else {
        let first = drain(st, buf + chunks[0]);
        let more = feed(first.state, first.rest, chunks.drop_first());
        Run { state: more.state, rest: more.rest, outputs: first.outputs + more.outputs }
    }
}

/// The chunks joined into one stream.
pub open spec fn concat(chunks: Seq<Seq<u8>>) -> Seq<u8>
    decreases chunks.len(),
{
    if chunks.len() == 0 {
        Seq::empty()
    } else {
        chunks[0] + concat(chunks.drop_first())
    }
}

/// The frames of `messages`, one behind the other.
pub open spec fn frames_of(messages: Seq<MessageView>) -> Seq<u8>
    decreases messages.len(),
{
    if messages.len() == 0 {
        Seq::empty()
    } else {
        frame_of(messages[0]) + frames_of(messages.drop_first())
    }
}

/// True when the remembered offset lies within what the buffer holds, as it
/// does as long as the caller only appends to the buffer between calls.
pub open spec fn in_step(st: DecoderState, buf: Seq<u8>) -> bool {
    st.next_index <= scan_limit(st.max_length, buf.len())
}

/// What every call of the decoder keeps: the maximum length, an offset within
/// the buffer, and progress whenever something is handed out.
pub proof fn lemma_step_shape(st: DecoderState, buf: Seq<u8>)
    ensures
        ({
            let step = decode_step(st, buf);
            &&& step.state.max_length == st.max_length
            &&& step.rest.len() <= buf.len()
            &&& in_step(step.state, step.rest)
            &&& !(step.output is Ok && step.output->Ok_0 is None) ==> {
                ||| step.rest.len() < buf.len()
                ||| (step.rest == buf && !st.is_discarding && step.state.is_discarding)
            }
        }),
{
    reveal(decode_step);
    let start = scan_start(st, buf.len()) as int;
    let limit = scan_limit(st.max_length, buf.len()) as int;
    if st.is_discarding {
        lemma_find_lf_found(buf, start, buf.len() as int);
        match find_lf(buf, start, buf.len() as int) {
            Some(i) => {
                let tail = buf.skip(i + 1);
                let inner = DecoderState {
                    next_index: 0,
                    max_length: st.max_length,
                    is_discarding: false,
                };
                lemma_find_lf_found(
                    tail,
                    scan_start(inner, tail.len()) as int,
                    scan_limit(inner.max_length, tail.len()) as int,
                );
            },
            None => {},
        }
    } else {
        lemma_find_lf_found(buf, start, limit);
    }
}

/// True when two states differ at most in how far they have searched, and
/// nothing lies between the two offsets that the search could find.
pub open spec fn same_scan(a: DecoderState, b: DecoderState, buf: Seq<u8>) -> bool {
    let from_a = scan_start(a, buf.len()) as int;
    let from_b = scan_start(b, buf.len()) as int;
    &&& a.max_length == b.max_length
    &&& a.is_discarding == b.is_discarding
    &&& forall|j: int| from_a <= j < from_b || from_b <= j < from_a ==> buf[j] != LF
}

/// A search finds the same from two offsets with no line feed between them.
proof fn lemma_find_lf_from(buf: Seq<u8>, from_a: int, from_b: int, to: int)
    requires
        0 <= from_a <= to <= buf.len(),
        0 <= from_b <= to,
        forall|j: int| from_a <= j < from_b || from_b <= j < from_a ==> buf[j] != LF,
    ensures
        find_lf(buf, from_a, to) == find_lf(buf, from_b, to),
{
    lemma_find_lf_found(buf, from_a, to);
    lemma_find_lf_found(buf, from_b, to);
    match find_lf(buf, from_a, to) {
        Some(i) => {
            lemma_find_lf_is(buf, from_b, to, i);
        },
        None => {
            lemma_find_lf_none(buf, from_b, to);
        },
    }
}

/// What one call does to two states that search alike.
proof fn lemma_step_same_scan(a: DecoderState, b: DecoderState, buf: Seq<u8>)
    requires
        same_scan(a, b, buf),
    ensures
        decode_step(a, buf).output == decode_step(b, buf).output,
        decode_step(a, buf).rest == decode_step(b, buf).rest,
        decode_step(a, buf).state != decode_step(b, buf).state ==> {
            &&& decode_step(a, buf).output == Err::<Option<MessageView>, FrameError>(
                FrameError::LineTooLong,
            )
            &&& !a.is_discarding
            &&& decode_step(a, buf).rest == buf
            &&& same_scan(decode_step(a, buf).state, decode_step(b, buf).state, buf)
        },
{
    reveal(decode_step);
    let from_a = scan_start(a, buf.len()) as int;
    let from_b = scan_start(b, buf.len()) as int;
    let limit = scan_limit(a.max_length, buf.len()) as int;
    if a.is_discarding {
        lemma_find_lf_from(buf, from_a, from_b, buf.len() as int);
    } else {
        lemma_find_lf_from(buf, from_a, from_b, limit);
    }
}

/// Two states that search alike hand out the same and end alike.
proof fn lemma_drain_same_scan(a: DecoderState, b: DecoderState, buf: Seq<u8>)
    requires
        same_scan(a, b, buf),
    ensures
        drain(a, buf) == drain(b, buf),
    decreases
            buf.len(),
            (if a.is_discarding {
                0nat
            } else {
                1nat
            }),
{
    lemma_step_same_scan(a, b, buf);
    lemma_step_shape(a, buf);
    lemma_step_shape(b, buf);
    let sa = decode_step(a, buf);
    let sb = decode_step(b, buf);
    if !(sa.output is Ok && sa.output->Ok_0 is None) {
        if sa.state != sb.state {
            lemma_drain_same_scan(sa.state, sb.state, sa.rest);
        }
    }
}

/// What a call hands out, it hands out whatever follows in the stream.
proof fn lemma_read_append(st: DecoderState, buf: Seq<u8>, more: Seq<u8>)
    requires
        in_step(st, buf),
        !(read_step(st, buf).output is Ok && read_step(st, buf).output->Ok_0 is None),
    ensures
        read_step(st, buf + more) == (Step {
            state: read_step(st, buf).state,
            rest: read_step(st, buf).rest + more,
            output: read_step(st, buf).output,
        }),
{
    let all = buf + more;
    let start = scan_start(st, buf.len()) as int;
    let limit = scan_limit(st.max_length, buf.len()) as int;
    let limit2 = scan_limit(st.max_length, all.len()) as int;
    lemma_find_lf_found(buf, start, limit);
    match find_lf(buf, start, limit) {
        Some(i) => {
            assert forall|j: int| start <= j < i implies all[j] != LF by {
                assert(all[j] == buf[j]);
            }
            assert(all[i] == buf[i]);
            lemma_find_lf_is(all, start, limit2, i);
            assert(all.take(i) =~= buf.take(i));
            assert(all.skip(i + 1) =~= buf.skip(i + 1) + more);
        },
        None => {
            assert forall|j: int| start <= j < limit2 implies all[j] != LF by {
                assert(all[j] == buf[j]);
            }
            lemma_find_lf_none(all, start, limit2);
        },
    }
}

/// What a call hands out, it hands out whatever follows in the stream.
proof fn lemma_step_append(st: DecoderState, buf: Seq<u8>, more: Seq<u8>)
    requires
        in_step(st, buf),
        !(decode_step(st, buf).output is Ok && decode_step(st, buf).output->Ok_0 is None),
    ensures
        decode_step(st, buf + more) == (Step {
            state: decode_step(st, buf).state,
            rest: decode_step(st, buf).rest + more,
            output: decode_step(st, buf).output,
        }),
{
    reveal(decode_step);
    if st.is_discarding {
        let all = buf + more;
        let start = scan_start(st, buf.len()) as int;
        lemma_find_lf_found(buf, start, buf.len() as int);
        match find_lf(buf, start, buf.len() as int) {
            Some(i) => {
                assert forall|j: int| start <= j < i implies all[j] != LF by {
                    assert(all[j] == buf[j]);
                }
                assert(all[i] == buf[i]);
                lemma_find_lf_is(all, start, all.len() as int, i);
                assert(all.skip(i + 1) =~= buf.skip(i + 1) + more);
                let inner = DecoderState {
                    next_index: 0,
                    max_length: st.max_length,
                    is_discarding: false,
                };
                lemma_read_append(inner, buf.skip(i + 1), more);
            },
            None => {},
        }
    } else {
        lemma_read_append(st, buf, more);
    }
}

/// A call that asked for more data is made good by the next call, once the
/// data is there.
proof fn lemma_pending_append(st: DecoderState, buf: Seq<u8>, more: Seq<u8>)
    requires
        in_step(st, buf),
        decode_step(st, buf).output == Ok::<Option<MessageView>, FrameError>(None),
    ensures
        drain(st, buf + more) == drain(decode_step(st, buf).state, decode_step(st, buf).rest + more),
{
    reveal(decode_step);
    let all = buf + more;
    let start = scan_start(st, buf.len()) as int;
    let limit = scan_limit(st.max_length, buf.len()) as int;
    let step = decode_step(st, buf);
    if st.is_discarding {
        lemma_find_lf_found(buf, start, buf.len() as int);
        match find_lf(buf, start, buf.len() as int) {
            Some(i) => {
                let inner = DecoderState {
                    next_index: 0,
                    max_length: st.max_length,
                    is_discarding: false,
                };
                let tail = buf.skip(i + 1);
                assert forall|j: int| start <= j < i implies all[j] != LF by {
                    assert(all[j] == buf[j]);
                }
                assert(all[i] == buf[i]);
                lemma_find_lf_is(all, start, all.len() as int, i);
                assert(all.skip(i + 1) =~= tail + more);
                assert(decode_step(st, all) == read_step(inner, tail + more));
                assert(step == read_step(inner, tail));
                lemma_find_lf_found(
                    tail,
                    scan_start(inner, tail.len()) as int,
                    scan_limit(inner.max_length, tail.len()) as int,
                );
                assert(step.rest == tail);
                assert(same_scan(inner, step.state, tail + more)) by {
                    let t2 = tail + more;
                    let lim = scan_limit(inner.max_length, tail.len()) as int;
                    assert forall|j: int| 0 <= j < lim implies t2[j] != LF by {
                        assert(t2[j] == tail[j]);
                    }
                }
                lemma_drain_same_scan(inner, step.state, tail + more);
                assert(drain(inner, tail + more) == drain(st, all)) by {
                    assert(decode_step(inner, tail + more) == read_step(inner, tail + more));
                }
            },
            None => {
                assert(step.rest + more =~= more);
                lemma_find_lf_found(more, 0, more.len() as int);
                match find_lf(more, 0, more.len() as int) {
                    Some(k) => {
                        assert forall|j: int| start <= j < buf.len() + k implies all[j] != LF by {
                            if j < buf.len() {
                                assert(all[j] == buf[j]);
                            } else {
                                assert(all[j] == more[j - buf.len()]);
                            }
                        }
                        assert(all[buf.len() + k] == more[k]);
                        lemma_find_lf_is(all, start, all.len() as int, buf.len() + k);
                        assert(all.skip(buf.len() + k + 1) =~= more.skip(k + 1));
                    },
                    None => {
                        assert forall|j: int| start <= j < all.len() implies all[j] != LF by {
                            if j < buf.len() {
                                assert(all[j] == buf[j]);
                            } else {
                                assert(all[j] == more[j - buf.len()]);
                            }
                        }
                        lemma_find_lf_none(all, start, all.len() as int);
                    },
                }
                assert(decode_step(st, all) == decode_step(step.state, more));
            },
        }
    } else {
        lemma_find_lf_found(buf, start, limit);
        assert(same_scan(st, step.state, all)) by {
            assert forall|j: int| start <= j < limit implies all[j] != LF by {
                assert(all[j] == buf[j]);
            }
        }
        lemma_drain_same_scan(st, step.state, all);
    }
}

/// The run `run`, then the decoder drained once `more` has arrived.
pub open spec fn resume(run: Run, more: Seq<u8>) -> Run {
    let next = drain(run.state, run.rest + more);
    Run { state: next.state, rest: next.rest, outputs: run.outputs + next.outputs }
}

/// Draining a stream at once is draining its head, then the rest.
pub proof fn lemma_drain_append(st: DecoderState, buf: Seq<u8>, more: Seq<u8>)
    requires
        in_step(st, buf),
    ensures
        drain(st, buf + more) == resume(drain(st, buf), more),
    decreases
            buf.len(),
            (if st.is_discarding {
                0nat
            } else {
                1nat
            }),
{
    let step = decode_step(st, buf);
    lemma_step_shape(st, buf);
    if step.output is Ok && step.output->Ok_0 is None {
        lemma_pending_append(st, buf, more);
        let run = drain(st, buf);
        assert(run.outputs + drain(run.state, run.rest + more).outputs =~= drain(
            run.state,
            run.rest + more,
        ).outputs);
    } else {
        lemma_step_append(st, buf, more);
        lemma_drain_append(step.state, step.rest, more);
        let item: Item = match step.output {
            Ok(Some(m)) => Ok(m),
            Ok(None) => arbitrary(),
            Err(e) => Err(e),
        };
        let tail = drain(step.state, step.rest);
        let next = drain(tail.state, tail.rest + more);
        assert(drain(st, buf) == after(item, tail));
        assert(drain(st, buf + more) == after(item, drain(step.state, step.rest + more)));
        assert((seq![item] + tail.outputs) + next.outputs =~= seq![item] + (tail.outputs
            + next.outputs));
    }
}

/// A drained decoder stays as it is until more data arrives.
pub proof fn lemma_drain_settles(st: DecoderState, buf: Seq<u8>)
    requires
        in_step(st, buf),
    ensures
        in_step(drain(st, buf).state, drain(st, buf).rest),
        drain(st, buf).state.max_length == st.max_length,
        drain(drain(st, buf).state, drain(st, buf).rest) == (Run {
            state: drain(st, buf).state,
            rest: drain(st, buf).rest,
            outputs: Seq::empty(),
        }),
    decreases
            buf.len(),
            (if st.is_discarding {
                0nat
            } else {
                1nat
            }),
{
    let step = decode_step(st, buf);
    lemma_step_shape(st, buf);
    if step.output is Ok && step.output->Ok_0 is None {
        reveal(decode_step);
        let start = scan_start(st, buf.len()) as int;
        let limit = scan_limit(st.max_length, buf.len()) as int;
        if st.is_discarding {
            lemma_find_lf_found(buf, start, buf.len() as int);
            match find_lf(buf, start, buf.len() as int) {
                Some(i) => {
                    let inner = DecoderState {
                        next_index: 0,
                        max_length: st.max_length,
                        is_discarding: false,
                    };
                    let tail = buf.skip(i + 1);
                    let lim = scan_limit(inner.max_length, tail.len()) as int;
                    lemma_find_lf_found(tail, 0, lim);
                    lemma_find_lf_none(tail, lim, lim);
                },
                None => {
                    lemma_find_lf_none(step.rest, 0, 0);
                },
            }
        } else {
            lemma_find_lf_found(buf, start, limit);
            lemma_find_lf_none(buf, limit, limit);
        }
    } else {
        lemma_drain_settles(step.state, step.rest);
    }
}

/// A stream in pieces is the stream at once, from any drained decoder.
pub proof fn lemma_feed_is_drain(st: DecoderState, buf: Seq<u8>, chunks: Seq<Seq<u8>>)
    requires
        in_step(st, buf),
        drain(st, buf) == (Run { state: st, rest: buf, outputs: Seq::empty() }),
    ensures
        feed(st, buf, chunks) == drain(st, buf + concat(chunks)),
    decreases chunks.len(),
{
    if chunks.len() == 0 {
        assert(buf + concat(chunks) =~= buf);
    } else {
        let head = chunks[0];
        let tail = chunks.drop_first();
        let first = drain(st, buf + head);
        lemma_step_shape(st, buf);
        assert(in_step(st, buf + head));
        lemma_drain_settles(st, buf + head);
        lemma_feed_is_drain(first.state, first.rest, tail);
        lemma_drain_append(st, buf + head, concat(tail));
        assert((buf + head) + concat(tail) =~= buf + concat(chunks));
    }
}

/// Partial-delivery invariance: a stream that arrives in pieces, cut at any
/// byte, yields what the same stream yields when it arrives at once: the same
/// messages and errors in the same order, the same bytes left over, and the
/// same state of the decoder.
pub proof fn lemma_partial_delivery(max_length: nat, chunks: Seq<Seq<u8>>)
    ensures
        feed(fresh(max_length), Seq::empty(), chunks) == drain(fresh(max_length), concat(chunks)),
        feed(fresh(max_length), Seq::empty(), chunks) == feed(
            fresh(max_length),
            Seq::empty(),
            seq![concat(chunks)],
        ),
{
    let st = fresh(max_length);
    let none = Seq::<u8>::empty();
    lemma_fresh_is_drained(max_length);
    lemma_feed_is_drain(st, none, chunks);
    lemma_feed_is_drain(st, none, seq![concat(chunks)]);
    assert(none + concat(chunks) =~= concat(chunks));
    let one = seq![concat(chunks)];
    assert(concat(one) =~= concat(chunks)) by {
        assert(one.drop_first() =~= Seq::<Seq<u8>>::empty());
        assert(concat(one.drop_first()) =~= Seq::<u8>::empty());
        assert(one[0] == concat(chunks));
    }
    assert(none + concat(one) =~= concat(chunks));
}

/// A fresh decoder with an empty buffer waits for data.
pub proof fn lemma_fresh_is_drained(max_length: nat)
    ensures
        in_step(fresh(max_length), Seq::empty()),
        drain(fresh(max_length), Seq::empty()) == (Run {
            state: fresh(max_length),
            rest: Seq::empty(),
            outputs: Seq::empty(),
        }),
{
    reveal(decode_step);
    lemma_find_lf_none(Seq::<u8>::empty(), 0, 0);
}

/// The messages as the decoder hands them out: each one decoded.
pub open spec fn delivered(messages: Seq<MessageView>) -> Seq<Item> {
    Seq::new(messages.len(), |i: int| Ok(messages[i]))
}

/// Round trip through the codec: from a fresh decoder, one call on the frame
/// of a message that meets the message model, and whose line is within the
/// maximum length, yields that message, takes exactly the frame out of the
/// buffer and leaves the decoder fresh.
pub proof fn lemma_frame_round_trip(max_length: nat, m: MessageView, more: Seq<u8>)
    requires
        m.valid(),
        line_of(m).len() <= max_length,
    ensures
        decode_step(fresh(max_length), frame_of(m) + more) == (Step {
            state: fresh(max_length),
            rest: more,
            output: Ok(Some(m)),
        }),
{
    reveal(decode_step);
    lemma_line_is_plain(m);
    lemma_line_round_trip(m);
    let line = line_of(m);
    let all = frame_of(m) + more;
    let n = line.len() as int;
    let limit = scan_limit(max_length, all.len()) as int;
    assert forall|j: int| 0 <= j < n implies all[j] != LF by {
        assert(all[j] == line[j]);
    }
    assert(all[n] == LF);
    lemma_find_lf_is(all, 0, limit, n);
    assert(all.take(n) =~= line);
    assert(all.skip(n + 1) =~= more);
}

/// Every frame written comes out again: the frames of any number of valid
/// messages, one behind the other, decode to those messages in order, with
/// nothing left over.
pub proof fn lemma_frames_round_trip(max_length: nat, messages: Seq<MessageView>)
    requires
        forall|i: int|
            0 <= i < messages.len() ==> (#[trigger] messages[i]).valid() && line_of(
                messages[i],
            ).len() <= max_length,
    ensures
        drain(fresh(max_length), frames_of(messages)) == (Run {
            state: fresh(max_length),
            rest: Seq::empty(),
            outputs: delivered(messages),
        }),
    decreases messages.len(),
{
    if messages.len() == 0 {
        lemma_fresh_is_drained(max_length);
        assert(delivered(messages) =~= Seq::<Item>::empty());
    } else {
        let tail = messages.drop_first();
        assert forall|i: int| 0 <= i < tail.len() implies (#[trigger] tail[i]).valid() && line_of(
            tail[i],
        ).len() <= max_length by {
            assert(tail[i] == messages[i + 1]);
        }
        lemma_frame_round_trip(max_length, messages[0], frames_of(tail));
        lemma_frames_round_trip(max_length, tail);
        assert(seq![Ok::<MessageView, FrameError>(messages[0])] + delivered(tail) =~= delivered(
            messages,
        ));
    }
}

/// Partial delivery of frames: the frames of valid messages, cut into pieces
/// at any byte and fed piece by piece, yield those messages in order.
pub proof fn lemma_frames_in_pieces(
    max_length: nat,
    messages: Seq<MessageView>,
    chunks: Seq<Seq<u8>>,
)
    requires
        forall|i: int|
            0 <= i < messages.len() ==> (#[trigger] messages[i]).valid() && line_of(
                messages[i],
            ).len() <= max_length,
        concat(chunks) == frames_of(messages),
    ensures
        feed(fresh(max_length), Seq::empty(), chunks).outputs == delivered(messages),
        feed(fresh(max_length), Seq::empty(), chunks).rest.len() == 0,
{
    lemma_partial_delivery(max_length, chunks);
    lemma_frames_round_trip(max_length, messages);
}

/// The stream of an oversized line and a frame behind it: `junk`, a line
/// feed, and the frame of `m`.
pub open spec fn junk_then_frame(junk: Seq<u8>, m: MessageView) -> Seq<u8> {
    junk.push(LF) + frame_of(m)
}

/// Discard recovery: a line longer than the maximum length, followed by the
/// frame of a valid message, yields exactly one `LineTooLong` and then that
/// message; nothing of the oversized line is decoded and nothing of the frame
/// is lost. This holds however the stream is cut into pieces.
pub proof fn lemma_discard_recovery(
    max_length: nat,
    junk: Seq<u8>,
    m: MessageView,
    chunks: Seq<Seq<u8>>,
)
    requires
        junk.len() > max_length,
        forall|j: int| 0 <= j < junk.len() ==> junk[j] != LF,
        m.valid(),
        line_of(m).len() <= max_length,
        concat(chunks) == junk_then_frame(junk, m),
    ensures
        drain(fresh(max_length), junk_then_frame(junk, m)) == (Run {
            state: fresh(max_length),
            rest: Seq::empty(),
            outputs: seq![Err(FrameError::LineTooLong), Ok(m)],
        }),
        feed(fresh(max_length), Seq::empty(), chunks) == drain(
            fresh(max_length),
            junk_then_frame(junk, m),
        ),
{
    let st = fresh(max_length);
    let all = junk_then_frame(junk, m);
    let n = junk.len() as int;
    let skipping = DecoderState { next_index: 0, max_length, is_discarding: true };
    let none = Seq::<u8>::empty();
    assert forall|j: int| 0 <= j < n implies all[j] != LF by {
        assert(all[j] == junk[j]);
    }
    assert(all[n] == LF);
    assert(all.skip(n + 1) =~= frame_of(m) + none);
    lemma_frame_round_trip(max_length, m, none);
    lemma_fresh_is_drained(max_length);
    assert(decode_step(st, all) == (Step {
        state: skipping,
        rest: all,
        output: Err(FrameError::LineTooLong),
    })) by {
        reveal(decode_step);
        lemma_find_lf_none(all, 0, (max_length + 1) as int);
    }
    assert(decode_step(skipping, all) == (Step { state: st, rest: none, output: Ok(Some(m)) }))
        by {
        reveal(decode_step);
        lemma_find_lf_is(all, 0, all.len() as int, n);
    }
    let last = drain(st, none);
    let second = drain(skipping, all);
    assert(second == after(Ok(m), last));
    assert(drain(st, all) == after(Err(FrameError::LineTooLong), second));
    assert(drain(st, all).outputs =~= seq![Err(FrameError::LineTooLong), Ok(m)]);
    lemma_partial_delivery(max_length, chunks);
}

} // verus!
