//! The output relay.
//!
//! One relay runs per session on a dedicated worker. It takes what the
//! blocking read loop observed — a chunk of raw bytes, a clean end of
//! stream, or a read failure — decodes chunks as UTF-8 text, and produces
//! the messages the consumer polls, in strict arrival order. The first end
//! condition produces exactly one end-of-session marker; nothing follows
//! it.

use vstd::prelude::*;
use vstd::utf8::*;
use crate::codec::decode_chunk;
use crate::codec::lemma_decode_utf8_concat;

verus! {

/// Why a session's output ended: a clean close with the remote exit
/// status, a transport failure during the read loop, or an invalid UTF-8
/// sequence in the stream.
#[derive(Debug)]
pub enum EndReason {
    Closed(i32),
    IoFailure(String),
    EncodingFailure,
}

/// The mathematical value of an `EndReason`.
pub enum EndReasonView {
    Closed(int),
    IoFailure(Seq<char>),
    EncodingFailure,
}

impl View for EndReason {
    type V = EndReasonView;

    open spec fn view(&self) -> EndReasonView {
        match self {
            EndReason::Closed(status) => EndReasonView::Closed(*status as int),
            EndReason::IoFailure(cause) => EndReasonView::IoFailure(cause@),
            EndReason::EncodingFailure => EndReasonView::EncodingFailure,
        }
    }
}

/// One unit passed from a session worker to its consumer: a decoded text
/// chunk, or the end-of-session marker carrying the outcome.
#[derive(Debug)]
pub enum RelayMessage {
    Chunk(String),
    Ended(EndReason),
}

/// The mathematical value of a `RelayMessage`.
pub enum RelayMessageView {
    Chunk(Seq<char>),
    Ended(EndReasonView),
}

impl View for RelayMessage {
    type V = RelayMessageView;

    open spec fn view(&self) -> RelayMessageView {
        match self {
            RelayMessage::Chunk(text) => RelayMessageView::Chunk(text@),
            RelayMessage::Ended(reason) => RelayMessageView::Ended(reason@),
        }
    }
}

/// What the worker's read loop observes in one iteration: a non-empty
/// chunk of raw bytes, a zero-length read (clean end of stream), or a
/// transport-level read error with its cause.
#[derive(Debug)]
pub enum ReadEvent {
    Data(Vec<u8>),
    Eof,
    Failed(String),
}

/// The mathematical value of a `ReadEvent`.
pub enum ReadEventView {
    Data(Seq<u8>),
    Eof,
    Failed(Seq<char>),
}

impl View for ReadEvent {
    type V = ReadEventView;

    open spec fn view(&self) -> ReadEventView {
        match self {
            ReadEvent::Data(bytes) => ReadEventView::Data(bytes@),
            ReadEvent::Eof => ReadEventView::Eof,
            ReadEvent::Failed(cause) => ReadEventView::Failed(cause@),
        }
    }
}

/// The values of a sequence of read events.
pub open spec fn event_views(events: Seq<ReadEvent>) -> Seq<ReadEventView> {
    events.map_values(|e: ReadEvent| e@)
}

/// The values of a sequence of relay messages.
pub open spec fn message_views(msgs: Seq<RelayMessage>) -> Seq<RelayMessageView> {
    msgs.map_values(|m: RelayMessage| m@)
}

/// The messages the relay produces for the given read observations, in
/// delivery order: each valid chunk is decoded and delivered in arrival
/// order; the first end condition — invalid bytes, end of stream, or a
/// read failure — produces exactly one end marker and nothing after it.
/// `exit` is the remote exit status retrieved once the channel closed.
pub open spec fn relay_output(events: Seq<ReadEventView>, exit: int) -> Seq<RelayMessageView>
    decreases events.len(),
{
    if events.len() == 0 {
        Seq::empty()
    } else {
        match events[0] {
            ReadEventView::Data(bytes) => if valid_utf8(bytes) {
                seq![RelayMessageView::Chunk(decode_utf8(bytes))] + relay_output(
                    events.drop_first(),
                    exit,
                )
            } else {
                seq![RelayMessageView::Ended(EndReasonView::EncodingFailure)]
            },
            ReadEventView::Eof => seq![RelayMessageView::Ended(EndReasonView::Closed(exit))],
            ReadEventView::Failed(cause) => seq![
                RelayMessageView::Ended(EndReasonView::IoFailure(cause)),
            ],
        }
    }
}

/// Runs the relay decisions over recorded read observations, producing
/// the messages in delivery order. `exit_status` is the remote exit
/// status observed when the channel closed cleanly.
pub fn relay_run(events: &Vec<ReadEvent>, exit_status: i32) -> (r: Vec<RelayMessage>)
    ensures
        message_views(r@) == relay_output(event_views(events@), exit_status as int),
{
    let ghost evs = event_views(events@);
    let ghost total = relay_output(evs, exit_status as int);
    let mut out: Vec<RelayMessage> = Vec::new();
    let n = events.len();
    let mut i: usize = 0;
    proof {
        assert(evs.skip(0) =~= evs);
        assert(message_views(out@) =~= Seq::<RelayMessageView>::empty());
        assert(message_views(out@) + total =~= total);
    }
    while i < n
        invariant
            0 <= i <= n,
            n == events@.len(),
            evs == event_views(events@),
            total == relay_output(evs, exit_status as int),
            message_views(out@) + relay_output(evs.skip(i as int), exit_status as int) == total,
        decreases n - i,
    {
        proof {
            assert(evs.skip(i as int).len() > 0);
            assert(evs.skip(i as int)[0] == evs[i as int]);
            assert(evs.skip(i as int).drop_first() =~= evs.skip(i as int + 1));
            assert(evs[i as int] == events@[i as int]@);
        }
        match &events[i] {
            ReadEvent::Data(bytes) => {
                match decode_chunk(bytes.as_slice()) {
                    Ok(text) => {
                        let msg = RelayMessage::Chunk(text);
                        proof {
                            assert(message_views(out@.push(msg)) =~= message_views(out@).push(
                                msg@,
                            ));
                            assert(message_views(out@).push(msg@) =~= message_views(out@) + seq![
                                msg@,
                            ]);
                            assert(message_views(out@) + seq![msg@] + relay_output(
                                evs.skip(i as int + 1),
                                exit_status as int,
                            ) =~= total);
                        }
                        out.push(msg);
                    },
                    Err(_) => {
                        let msg = RelayMessage::Ended(EndReason::EncodingFailure);
                        proof {
                            assert(message_views(out@.push(msg)) =~= message_views(out@).push(
                                msg@,
                            ));
                            assert(message_views(out@).push(msg@) =~= total);
                        }
                        out.push(msg);
                        return out;
                    },
                }
            },
            ReadEvent::Eof => {
                let msg = RelayMessage::Ended(EndReason::Closed(exit_status));
                proof {
                    assert(message_views(out@.push(msg)) =~= message_views(out@).push(msg@));
                    assert(message_views(out@).push(msg@) =~= total);
                }
                out.push(msg);
                return out;
            },
            ReadEvent::Failed(cause) => {
                let kept = cause.clone();
                let msg = RelayMessage::Ended(EndReason::IoFailure(kept));
                proof {
                    assert(message_views(out@.push(msg)) =~= message_views(out@).push(msg@));
                    assert(message_views(out@).push(msg@) =~= total);
                }
                out.push(msg);
                return out;
            },
        }
        i += 1;
    }
    proof {
        assert(evs.skip(n as int) =~= Seq::<ReadEventView>::empty());
        assert(message_views(out@) =~= total);
    }
    out
}

/// The raw bytes of all chunk observations, in arrival order.
pub open spec fn stream_bytes(events: Seq<ReadEventView>) -> Seq<u8>
    decreases events.len(),
{
    if events.len() == 0 {
        Seq::empty()
    } else {
        (match events[0] {
            ReadEventView::Data(bytes) => bytes,
            _ => Seq::empty(),
        }) + stream_bytes(events.drop_first())
    }
}

/// The concatenated text of the delivered chunks.
pub open spec fn delivered_text(msgs: Seq<RelayMessageView>) -> Seq<char>
    decreases msgs.len(),
{
    if msgs.len() == 0 {
        Seq::empty()
    } else {
        (match msgs[0] {
            RelayMessageView::Chunk(text) => text,
            _ => Seq::empty(),
        }) + delivered_text(msgs.drop_first())
    }
}

/// Valid chunks are delivered in order with identical content: when every
/// observation is a chunk of valid UTF-8 bytes, the relay delivers one
/// decoded chunk per observation, in arrival order; the concatenation of
/// the delivered texts is exactly the decoding of the whole byte stream,
/// and encoding it reproduces that stream byte for byte.
pub proof fn lemma_chunks_delivered_in_order(events: Seq<ReadEventView>, exit: int)
    requires
        forall|i: int| 0 <= i < events.len() ==> ((#[trigger] events[i])
            matches ReadEventView::Data(b) && valid_utf8(b)),
    ensures
        relay_output(events, exit).len() == events.len(),
        forall|i: int| 0 <= i < events.len() ==> relay_output(events, exit)[i]
            == RelayMessageView::Chunk(decode_utf8(events[i]->Data_0)),
        valid_utf8(stream_bytes(events)),
        delivered_text(relay_output(events, exit)) == decode_utf8(stream_bytes(events)),
        encode_utf8(delivered_text(relay_output(events, exit))) == stream_bytes(events),
    decreases events.len(),
{
    if events.len() == 0 {
        assert(valid_utf8(stream_bytes(events)));
        assert(delivered_text(relay_output(events, exit)) =~= decode_utf8(stream_bytes(events)));
    } else {
        assert(events[0] matches ReadEventView::Data(b) && valid_utf8(b));
        let b0 = events[0]->Data_0;
        let rest = events.drop_first();
        assert(forall|i: int|
            0 <= i < rest.len() ==> rest[i] == events[i + 1] && (rest[i]
                matches ReadEventView::Data(b) && valid_utf8(b)));
        lemma_chunks_delivered_in_order(rest, exit);
        let out = relay_output(events, exit);
        let out_rest = relay_output(rest, exit);
        assert(out =~= seq![RelayMessageView::Chunk(decode_utf8(b0))] + out_rest);
        assert(forall|i: int| 1 <= i < out.len() ==> out[i] == out_rest[i - 1]);
        assert(stream_bytes(events) =~= b0 + stream_bytes(rest));
        lemma_decode_utf8_concat(b0, stream_bytes(rest));
        assert(out.drop_first() =~= out_rest);
        assert(delivered_text(out) =~= decode_utf8(b0) + delivered_text(out_rest));
        decode_utf8_encode_utf8(stream_bytes(events));
    }
}

/// A single invalid sequence ends the stream with exactly one encoding
/// failure: when the first `k` observations are valid chunks and
/// observation `k` holds invalid bytes, the relay delivers exactly those
/// `k` decoded chunks, in order, followed by one `EncodingFailure` end
/// marker — and nothing after it, whatever observations follow.
pub proof fn lemma_invalid_chunk_ends_stream(events: Seq<ReadEventView>, exit: int, k: int)
    requires
        0 <= k < events.len(),
        forall|i: int| 0 <= i < k ==> ((#[trigger] events[i]) matches ReadEventView::Data(b)
            && valid_utf8(b)),
        events[k] matches ReadEventView::Data(b) && !valid_utf8(b),
    ensures
        relay_output(events, exit).len() == k + 1,
        forall|i: int| 0 <= i < k ==> relay_output(events, exit)[i] == RelayMessageView::Chunk(
            decode_utf8(events[i]->Data_0),
        ),
        relay_output(events, exit)[k] == RelayMessageView::Ended(EndReasonView::EncodingFailure),
    decreases k,
{
    if k == 0 {
    } else {
        assert(events[0] matches ReadEventView::Data(b) && valid_utf8(b));
        let b0 = events[0]->Data_0;
        let rest = events.drop_first();
        assert(forall|i: int| 0 <= i < k - 1 ==> rest[i] == events[i + 1]);
        assert(rest[k - 1] == events[k]);
        lemma_invalid_chunk_ends_stream(rest, exit, k - 1);
        let out = relay_output(events, exit);
        let out_rest = relay_output(rest, exit);
        assert(out =~= seq![RelayMessageView::Chunk(decode_utf8(b0))] + out_rest);
        assert(forall|i: int| 1 <= i < out.len() ==> out[i] == out_rest[i - 1]);
    }
}

/// A clean end of stream after valid chunks yields exactly one `Closed`
/// end marker carrying the observed exit status, after the chunks and
/// nothing else.
pub proof fn lemma_clean_close_ends_stream(events: Seq<ReadEventView>, exit: int, k: int)
    requires
        0 <= k < events.len(),
        forall|i: int| 0 <= i < k ==> ((#[trigger] events[i]) matches ReadEventView::Data(b)
            && valid_utf8(b)),
        events[k] is Eof,
    ensures
        relay_output(events, exit).len() == k + 1,
        forall|i: int| 0 <= i < k ==> relay_output(events, exit)[i] == RelayMessageView::Chunk(
            decode_utf8(events[i]->Data_0),
        ),
        relay_output(events, exit)[k] == RelayMessageView::Ended(EndReasonView::Closed(exit)),
    decreases k,
{
    if k == 0 {
    } else {
        assert(events[0] matches ReadEventView::Data(b) && valid_utf8(b));
        let b0 = events[0]->Data_0;
        let rest = events.drop_first();
        assert(forall|i: int| 0 <= i < k - 1 ==> rest[i] == events[i + 1]);
        assert(rest[k - 1] == events[k]);
        lemma_clean_close_ends_stream(rest, exit, k - 1);
        let out = relay_output(events, exit);
        let out_rest = relay_output(rest, exit);
        assert(out =~= seq![RelayMessageView::Chunk(decode_utf8(b0))] + out_rest);
        assert(forall|i: int| 1 <= i < out.len() ==> out[i] == out_rest[i - 1]);
    }
}

/// Whatever the observations, every message before the last one is a
/// text chunk: the relay sends at most one end-of-session marker, and
/// nothing follows it.
pub proof fn lemma_end_marker_is_last(events: Seq<ReadEventView>, exit: int)
    ensures
        forall|i: int|
            0 <= i < relay_output(events, exit).len() - 1 ==> relay_output(events, exit)[i]
                is Chunk,
    decreases events.len(),
{
    if events.len() == 0 {
    } else {
        match events[0] {
            ReadEventView::Data(bytes) => {
                if valid_utf8(bytes) {
                    let rest = events.drop_first();
                    lemma_end_marker_is_last(rest, exit);
                    let out = relay_output(events, exit);
                    let out_rest = relay_output(rest, exit);
                    assert(out == seq![RelayMessageView::Chunk(decode_utf8(bytes))] + out_rest);
                    assert(forall|i: int| 1 <= i < out.len() ==> out[i] == out_rest[i - 1]);
                }
            },
            _ => {
            },
        }
    }
}

/// True when the messages contain an end-of-session marker.
pub open spec fn has_end_marker(msgs: Seq<RelayMessageView>) -> bool {
    exists|i: int| 0 <= i < msgs.len() && msgs[i] is Ended
}

/// The text delivered by a message sequence grows at its end exactly by
/// the text of an appended chunk; an appended marker adds nothing.
pub proof fn lemma_delivered_text_push(msgs: Seq<RelayMessageView>, m: RelayMessageView)
    ensures
        delivered_text(msgs.push(m)) == delivered_text(msgs) + (match m {
            RelayMessageView::Chunk(text) => text,
            _ => Seq::<char>::empty(),
        }),
    decreases msgs.len(),
{
    let tail = (match m {
        RelayMessageView::Chunk(text) => text,
        _ => Seq::<char>::empty(),
    });
    if msgs.len() == 0 {
        assert(msgs.push(m).len() == 1);
        assert(msgs.push(m)[0] == m);
        assert(msgs.push(m).drop_first() =~= Seq::<RelayMessageView>::empty());
        assert(delivered_text(msgs.push(m)) == tail + delivered_text(
            Seq::<RelayMessageView>::empty(),
        ));
        assert(delivered_text(msgs) == Seq::<char>::empty());
        assert(delivered_text(msgs.push(m)) =~= delivered_text(msgs) + tail);
    } else {
        assert(msgs.push(m)[0] == msgs[0]);
        assert(msgs.push(m).drop_first() =~= msgs.drop_first().push(m));
        lemma_delivered_text_push(msgs.drop_first(), m);
        let head = (match msgs[0] {
            RelayMessageView::Chunk(text) => text,
            _ => Seq::<char>::empty(),
        });
        assert(delivered_text(msgs.push(m)) == head + delivered_text(msgs.drop_first().push(m)));
        assert(delivered_text(msgs) == head + delivered_text(msgs.drop_first()));
        vstd::seq_lib::lemma_concat_associative(head, delivered_text(msgs.drop_first()), tail);
        assert(delivered_text(msgs.push(m)) =~= delivered_text(msgs) + tail);
    }
}

} // verus!
