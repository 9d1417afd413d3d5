//! What holds of the messages of a connection as a whole.

use crate::auth::{opener_view, sealer_view};
use crate::buffer::{bytes_contents, bytes_mut_contents};
use crate::error::{DsError, ErrorView};
use crate::stream::{opened_chunk, sealed_chunk, ChunkTag, StreamState};
use crate::transfer::{
    accept_chunk, chunk_frames, forward_queue_to_sealed_sink, open_message, opened_message,
    opener_after, read_frame, read_reassembled_message, seal_message, seals, send_chunked,
    send_plan, wire_frames, ForwardAction, MessageReader, MessageSender, ReadOutcome, ReadStep,
    ReaderState, SendAction, SendStep, WireFormat, CHUNK_FINAL, CHUNK_SEND_DELAY_MS,
    MAX_WIRE_CHUNK_PAYLOAD,
};
use bytes::{Bytes, BytesMut};
use orion::aead::streaming::{StreamOpener, StreamSealer};
use vstd::prelude::*;

verus! {

/// What a reader in `state` makes of the frames that arrive, until a message is complete, a frame
/// is invalid or the connection ends, and the frames that it leaves for the next reader.
pub open spec fn read_frames(state: ReaderState, frames: Seq<Seq<u8>>) -> (
    ReadOutcome,
    Seq<Seq<u8>>,
)
    decreases frames.len(),
{
    if frames.len() == 0 {
        (read_frame(state, None), frames)
    } else {
        match read_frame(state, Some(frames[0])) {
            ReadOutcome::More(next) => read_frames(next, frames.skip(1)),
            outcome => (outcome, frames.skip(1)),
        }
    }
}

/// The frames of messages that are sent one after the other.
pub open spec fn transmitted(format: WireFormat, messages: Seq<Seq<u8>>) -> Seq<Seq<u8>>
    decreases messages.len(),
{
    if messages.len() == 0 {
        Seq::empty()
    } else {
        wire_frames(format, messages[0]) + transmitted(format, messages.skip(1))
    }
}

/// What the receiver of `count` messages gets out of the frames that arrive: the messages, the
/// stream that may be missing after the last of them, and the frames that are left. Nothing, where
/// one of the messages is not to be had.
pub open spec fn received(
    opener: Option<StreamState>,
    format: WireFormat,
    frames: Seq<Seq<u8>>,
    count: nat,
) -> Option<(Seq<Seq<u8>>, Option<StreamState>, Seq<Seq<u8>>)>
    decreases count,
{
    if count == 0 {
        Some((Seq::empty(), opener, frames))
    } else {
        match read_frames(ReaderState::fresh(format), frames) {
            (ReadOutcome::Complete(Some(data)), rest) => match opened_message(opener, data) {
                Ok(Some(message)) => match received(
                    opener_after(opener, data),
                    format,
                    rest,
                    (count - 1) as nat,
                ) {
                    Some((messages, after, left)) => Some((seq![message] + messages, after, left)),
                    None => None,
                },
                _ => None,
            },
            _ => None,
        }
    }
}

/// The frames of the chunked format are never empty and never longer than the marker and the most
/// that a frame carries, and the last of them, and no other, is marked as the last.
pub proof fn chunk_frames_are_small_and_marked(data: Seq<u8>)
    ensures
        chunk_frames(data).len() >= 1,
        forall|i: int|
            0 <= i < chunk_frames(data).len() ==> 1 <= (#[trigger] chunk_frames(data)[i]).len()
                <= MAX_WIRE_CHUNK_PAYLOAD + 1,
        forall|i: int|
            0 <= i < chunk_frames(data).len() ==> ((#[trigger] chunk_frames(data)[i])[0]
                == CHUNK_FINAL <==> i == chunk_frames(data).len() - 1),
    decreases data.len(),
{
    if data.len() > MAX_WIRE_CHUNK_PAYLOAD {
        let rest = data.skip(MAX_WIRE_CHUNK_PAYLOAD as int);
        chunk_frames_are_small_and_marked(rest);
        assert forall|i: int| 0 < i < chunk_frames(data).len() implies chunk_frames(data)[i]
            == #[trigger] chunk_frames(rest)[i - 1] by {}
        assert forall|i: int| 0 <= i < chunk_frames(data).len() implies 1 <= (
        #[trigger] chunk_frames(data)[i]).len() <= MAX_WIRE_CHUNK_PAYLOAD + 1 && (
        chunk_frames(data)[i][0] == CHUNK_FINAL <==> i == chunk_frames(data).len() - 1) by {
            if i > 0 {
                assert(chunk_frames(data)[i] == chunk_frames(rest)[i - 1]);
            }
        }
    }
}

/// Frames are sent in their order, with a pause between any two and none before the first or after
/// the last.
pub proof fn frames_are_sent_with_pauses_between(frames: Seq<Seq<u8>>)
    requires
        frames.len() > 0,
    ensures
        send_plan(frames).len() == 2 * frames.len() - 1,
        forall|i: int|
            0 <= i < frames.len() ==> send_plan(frames)[2 * i] == SendStep::Send(
                #[trigger] frames[i],
            ),
        forall|i: int|
            0 <= i < frames.len() - 1 ==> #[trigger] send_plan(frames)[2 * i + 1]
                == SendStep::Pause,
    decreases frames.len(),
{
    if frames.len() > 1 {
        let rest = frames.skip(1);
        frames_are_sent_with_pauses_between(rest);
        assert forall|i: int| 0 <= i < frames.len() implies send_plan(frames)[2 * i]
            == SendStep::Send(#[trigger] frames[i]) by {
            if i > 0 {
                assert(rest[i - 1] == frames[i]);
                assert(send_plan(frames)[2 * i] == send_plan(rest)[2 * (i - 1)]);
            }
        }
        assert forall|i: int| 0 <= i < frames.len() - 1 implies #[trigger] send_plan(frames)[2 * i
            + 1] == SendStep::Pause by {
            if i > 0 {
                assert(send_plan(frames)[2 * i + 1] == send_plan(rest)[2 * (i - 1) + 1]);
            }
        }
    }
}

/// Reading on from `earlier` completes `earlier` and the data that was cut into frames.
proof fn lemma_chunks_are_joined(earlier: Option<Seq<u8>>, data: Seq<u8>, rest: Seq<Seq<u8>>)
    ensures
        read_frames(
            ReaderState { format: WireFormat::Chunked, accumulated: earlier },
            chunk_frames(data) + rest,
        ) == (
            ReadOutcome::Complete(
                Some(
                    match earlier {
                        Some(earlier) => earlier + data,
                        None => data,
                    },
                ),
            ),
            rest,
        ),
    decreases data.len(),
{
    let frames = chunk_frames(data) + rest;
    assert(frames[0] == chunk_frames(data)[0]);
    if data.len() <= MAX_WIRE_CHUNK_PAYLOAD {
        assert(frames[0].skip(1) =~= data);
        assert(frames.skip(1) =~= rest);
    } else {
        let size = MAX_WIRE_CHUNK_PAYLOAD as int;
        let joined = match earlier {
            Some(earlier) => earlier + data.take(size),
            None => data.take(size),
        };
        assert(frames[0].skip(1) =~= data.take(size));
        assert(frames.skip(1) =~= chunk_frames(data.skip(size)) + rest);
        lemma_chunks_are_joined(Some(joined), data.skip(size), rest);
        assert(data.take(size) + data.skip(size) =~= data);
        if let Some(earlier) = earlier {
            assert(joined + data.skip(size) =~= earlier + data);
        }
    }
}

/// Reading undoes sending: the frames of a message, whatever follows them, give the message back,
/// and what follows is left alone.
pub proof fn reading_undoes_sending(format: WireFormat, data: Seq<u8>, rest: Seq<Seq<u8>>)
    ensures
        read_frames(ReaderState::fresh(format), wire_frames(format, data) + rest) == (
            ReadOutcome::Complete(Some(data)),
            rest,
        ),
{
    match format {
        WireFormat::Plain => {
            let frames = seq![data] + rest;
            assert(frames[0] == data);
            assert(frames.skip(1) =~= rest);
        },
        WireFormat::Chunked => {
            lemma_chunks_are_joined(None, data, rest);
        },
    }
}

/// Opening undoes sealing: an opener in the state of the sealer, or none where there is none, gives
/// the message back, and both are in the same state again after it.
pub proof fn opening_undoes_sealing(
    stream: Option<StreamState>,
    data: Seq<u8>,
    sealed: Seq<u8>,
    after: Option<StreamState>,
)
    requires
        seals(stream, data, sealed, after),
    ensures
        opened_message(stream, sealed) == Ok::<Option<Seq<u8>>, ErrorView>(Some(data)),
        opener_after(stream, sealed) == after,
{
}

/// Messages arrive as they were sent and in their order: the receiver of messages that were sealed
/// one after the other by a sealer that it is in step with, or by none, and put into frames, gets
/// the same messages out of the frames, and is in step with the sealer again after them.
///
/// `streams` are the states of the sealer, before each of the messages and after the last.
pub proof fn messages_arrive_in_order(
    format: WireFormat,
    messages: Seq<Seq<u8>>,
    sealed: Seq<Seq<u8>>,
    streams: Seq<Option<StreamState>>,
    rest: Seq<Seq<u8>>,
)
    requires
        sealed.len() == messages.len(),
        streams.len() == messages.len() + 1,
        forall|i: int|
            0 <= i < messages.len() ==> seals(
                streams[i],
                #[trigger] messages[i],
                sealed[i],
                streams[i + 1],
            ),
    ensures
        received(streams[0], format, transmitted(format, sealed) + rest, messages.len()) == Some(
            (messages, streams[messages.len() as int], rest),
        ),
    decreases messages.len(),
{
    if messages.len() == 0 {
        assert(transmitted(format, sealed) + rest =~= rest);
        assert(messages =~= Seq::empty());
    } else {
        let later = transmitted(format, sealed.skip(1)) + rest;
        assert(transmitted(format, sealed) + rest =~= wire_frames(format, sealed[0]) + later);
        reading_undoes_sending(format, sealed[0], later);
        assert(seals(streams[0], messages[0], sealed[0], streams[1]));
        opening_undoes_sealing(streams[0], messages[0], sealed[0], streams[1]);
        assert forall|i: int| 0 <= i < messages.skip(1).len() implies seals(
            streams.skip(1)[i],
            #[trigger] messages.skip(1)[i],
            sealed.skip(1)[i],
            streams.skip(1)[i + 1],
        ) by {
            assert(messages.skip(1)[i] == messages[i + 1]);
        }
        messages_arrive_in_order(
            format,
            messages.skip(1),
            sealed.skip(1),
            streams.skip(1),
            rest,
        );
        assert(seq![messages[0]] + messages.skip(1) =~= messages);
    }
}

/// What frames carry, one after the other: all but the first byte of each.
pub open spec fn payloads(frames: Seq<BytesMut>) -> Seq<u8>
    decreases frames.len(),
{
    if frames.len() == 0 {
        Seq::empty()
    } else {
        payloads(frames.drop_last()) + bytes_mut_contents(frames.last()).skip(1)
    }
}

/// Whether `readers` are the readers of a message in the chunked format before each of `frames` and
/// after the last, none of which completes it.
pub open spec fn reads_on(readers: Seq<MessageReader>, frames: Seq<BytesMut>) -> bool {
    &&& readers.len() == frames.len() + 1
    &&& call_ensures(read_reassembled_message, (WireFormat::Chunked,), readers[0])
    &&& forall|k: int|
        0 <= k < frames.len() ==> call_ensures(
            MessageReader::on_frame,
            (readers[k], Some(#[trigger] frames[k])),
            ReadStep::More(readers[k + 1]),
        )
}

/// What a reader that reads on has got.
proof fn lemma_reader_has_payloads(readers: Seq<MessageReader>, frames: Seq<BytesMut>)
    requires
        reads_on(readers, frames),
    ensures
        readers.last()@.format == WireFormat::Chunked,
        frames.len() == 0 ==> readers.last()@.accumulated is None,
        frames.len() > 0 ==> readers.last()@.accumulated == Some(payloads(frames)),
        forall|k: int|
            0 <= k < frames.len() ==> bytes_mut_contents(#[trigger] frames[k]).len() > 0
                && bytes_mut_contents(frames[k])[0] != 0,
    decreases frames.len(),
{
    if frames.len() > 0 {
        let n = frames.len() - 1;
        let earlier = frames.drop_last();
        assert forall|k: int| 0 <= k < earlier.len() implies call_ensures(
            MessageReader::on_frame,
            (readers.drop_last()[k], Some(#[trigger] earlier[k])),
            ReadStep::More(readers.drop_last()[k + 1]),
        ) by {
            assert(earlier[k] == frames[k]);
        }
        lemma_reader_has_payloads(readers.drop_last(), earlier);
        let step = ReadStep::More(readers[n + 1]);
        assert(call_ensures(MessageReader::on_frame, (readers[n], Some(frames[n])), step));
        assert(step@ == ReadOutcome::More(readers[n + 1]@));
        assert forall|k: int| 0 <= k < frames.len() implies bytes_mut_contents(
            #[trigger] frames[k],
        ).len() > 0 && bytes_mut_contents(frames[k])[0] != 0 by {
            if k < n {
                assert(earlier[k] == frames[k]);
            }
        }
        if n == 0 {
            assert(payloads(earlier) =~= Seq::empty());
            assert(payloads(frames) =~= bytes_mut_contents(frames[0]).skip(1));
        }
    }
}

/// A message goes on after a frame whose first byte is not nought, is complete with the first frame
/// whose first byte is, and is then what the frames carry, one after the other. A frame without a
/// first byte is an error.
pub proof fn message_is_what_its_frames_carry(
    readers: Seq<MessageReader>,
    frames: Seq<BytesMut>,
    frame: BytesMut,
    r: ReadStep,
)
    requires
        reads_on(readers, frames),
        call_ensures(MessageReader::on_frame, (readers.last(), Some(frame)), r),
    ensures
        forall|k: int|
            0 <= k < frames.len() ==> bytes_mut_contents(#[trigger] frames[k]).len() > 0
                && bytes_mut_contents(frames[k])[0] != 0,
        ({
            let bytes = bytes_mut_contents(frame);
            if bytes.len() == 0 {
                r matches ReadStep::Invalid(text) && text@
                    == "received an empty chunked-message frame (missing continuation marker)"@
            } else if bytes[0] == 0 {
                r matches ReadStep::Complete(Some(message)) && bytes_mut_contents(message)
                    == payloads(frames) + bytes.skip(1)
            } else {
                r is More
            }
        }),
{
    lemma_reader_has_payloads(readers, frames);
    if frames.len() == 0 {
        let rest = bytes_mut_contents(frame).skip(1);
        assert(payloads(frames) + rest =~= rest);
    }
}

/// No message comes of a connection that ends before a frame that completes one: what has arrived
/// of it is dropped, however much it is.
pub proof fn cut_off_message_is_dropped(reader: MessageReader, r: ReadStep)
    requires
        call_ensures(MessageReader::on_frame, (reader, None::<BytesMut>), r),
    ensures
        r matches ReadStep::Complete(None),
{
}

/// A message is complete only on a frame that is there, and in the chunked format only on one whose
/// first byte is nought. It ends with what the frame carries.
pub proof fn message_is_complete_only_on_a_final_frame(
    reader: MessageReader,
    frame: Option<BytesMut>,
    message: BytesMut,
)
    requires
        call_ensures(
            MessageReader::on_frame,
            (reader, frame),
            ReadStep::Complete(Some(message)),
        ),
    ensures
        frame matches Some(last) && {
            let bytes = bytes_mut_contents(last);
            match reader@.format {
                WireFormat::Plain => bytes_mut_contents(message) == bytes,
                WireFormat::Chunked => {
                    &&& bytes.len() > 0
                    &&& bytes[0] == 0
                    &&& bytes.skip(1).is_suffix_of(bytes_mut_contents(message))
                },
            }
        },
{
    let step = ReadStep::Complete(Some(message));
    assert(step@ == ReadOutcome::Complete(Some(bytes_mut_contents(message))));
    if let Some(last) = frame {
        if reader@.format == WireFormat::Chunked {
            let rest = bytes_mut_contents(last).skip(1);
            let whole = bytes_mut_contents(message);
            assert(whole.subrange(whole.len() - rest.len(), whole.len() as int) =~= rest);
        }
    }
}

/// In the plain format every frame is a message, as it is.
pub proof fn plain_frame_is_a_message(reader: MessageReader, frame: BytesMut, r: ReadStep)
    requires
        call_ensures(read_reassembled_message, (WireFormat::Plain,), reader),
        call_ensures(MessageReader::on_frame, (reader, Some(frame)), r),
    ensures
        r matches ReadStep::Complete(Some(message)) && bytes_mut_contents(message)
            == bytes_mut_contents(frame),
{
}

/// There is room for a frame unless what has arrived and what it carries are together more than an
/// allocation can hold.
pub proof fn room_is_for_an_allocation(
    readers: Seq<MessageReader>,
    frames: Seq<BytesMut>,
    frame: Option<BytesMut>,
    r: bool,
)
    requires
        reads_on(readers, frames),
        call_ensures(MessageReader::has_room, (&readers.last(), &frame), r),
    ensures
        !r <==> {
            &&& frames.len() > 0
            &&& frame matches Some(frame) && payloads(frames).len() + bytes_mut_contents(
                frame,
            ).len() - 1 > isize::MAX
        },
{
    lemma_reader_has_payloads(readers, frames);
}

/// Reading any number of the frames of a message but not all of them, and then the end of the
/// connection, gives no message.
pub proof fn prefix_of_a_message_is_no_message(format: WireFormat, data: Seq<u8>, n: int)
    requires
        0 <= n < wire_frames(format, data).len(),
    ensures
        read_frames(ReaderState::fresh(format), wire_frames(format, data).take(n))
            == (ReadOutcome::Complete(None::<Seq<u8>>), Seq::<Seq<u8>>::empty()),
{
    let frames = wire_frames(format, data).take(n);
    if format == WireFormat::Chunked {
        chunk_frames_are_small_and_marked(data);
        assert forall|k: int| 0 <= k < frames.len() implies (#[trigger] frames[k]).len() > 0
            && frames[k][0] != CHUNK_FINAL by {
            assert(frames[k] == chunk_frames(data)[k]);
        }
        lemma_unfinished_is_nothing(ReaderState::fresh(format), frames);
    } else {
        assert(frames =~= Seq::empty());
    }
}

/// Frames none of which completes a message, and then the end, give no message.
proof fn lemma_unfinished_is_nothing(state: ReaderState, frames: Seq<Seq<u8>>)
    requires
        state.format == WireFormat::Chunked,
        forall|k: int|
            0 <= k < frames.len() ==> (#[trigger] frames[k]).len() > 0 && frames[k][0]
                != CHUNK_FINAL,
    ensures
        read_frames(state, frames) == (
            ReadOutcome::Complete(None::<Seq<u8>>),
            Seq::<Seq<u8>>::empty(),
        ),
    decreases frames.len(),
{
    if frames.len() > 0 {
        let next = read_frame(state, Some(frames[0]))->More_0;
        assert forall|k: int| 0 <= k < frames.skip(1).len() implies (
        #[trigger] frames.skip(1)[k]).len() > 0 && frames.skip(1)[k][0] != CHUNK_FINAL by {
            assert(frames.skip(1)[k] == frames[k + 1]);
        }
        lemma_unfinished_is_nothing(next, frames.skip(1));
    } else {
        assert(frames =~= Seq::empty());
    }
}

/// How many frames a message of `length` bytes takes: in the chunked format one for every 1200
/// bytes and one for the rest, and at least one.
pub open spec fn frame_count(format: WireFormat, length: nat) -> int {
    match format {
        WireFormat::Plain => 1,
        WireFormat::Chunked => if length == 0 {
            1
        } else {
            (length + 1199) as int / 1200
        },
    }
}

/// The `i`th frame of a message: the message itself in the plain format. In the chunked format it
/// is the `i`th 1200 bytes, or what is left of them, behind a one, or a nought in the last frame.
pub open spec fn nth_frame(format: WireFormat, data: Seq<u8>, i: int) -> Seq<u8> {
    match format {
        WireFormat::Plain => data,
        WireFormat::Chunked => if i < frame_count(format, data.len()) - 1 {
            seq![1u8] + data.subrange(1200 * i, 1200 * i + 1200)
        } else {
            seq![0u8] + data.subrange(1200 * i, data.len() as int)
        },
    }
}

/// What the frames of a message are.
proof fn lemma_frames(format: WireFormat, data: Seq<u8>)
    ensures
        wire_frames(format, data).len() == frame_count(format, data.len()),
        forall|i: int|
            0 <= i < frame_count(format, data.len()) ==> #[trigger] wire_frames(format, data)[i]
                == nth_frame(format, data, i),
    decreases data.len(),
{
    if format == WireFormat::Chunked {
        if data.len() <= 1200 {
            assert(data.subrange(0, data.len() as int) =~= data);
        } else {
            let rest = data.skip(1200);
            lemma_frames(format, rest);
            assert(frame_count(format, data.len()) == frame_count(format, rest.len()) + 1);
            assert forall|i: int| 0 <= i < frame_count(
                format,
                data.len(),
            ) implies #[trigger] wire_frames(format, data)[i] == nth_frame(format, data, i) by {
                if i == 0 {
                    assert(data.take(1200) =~= data.subrange(0, 1200));
                } else {
                    assert(wire_frames(format, data)[i] == wire_frames(format, rest)[i - 1]);
                    if i < frame_count(format, data.len()) - 1 {
                        assert(rest.subrange(1200 * (i - 1), 1200 * (i - 1) + 1200)
                            =~= data.subrange(1200 * i, 1200 * i + 1200));
                    } else {
                        assert(rest.subrange(1200 * (i - 1), rest.len() as int)
                            =~= data.subrange(1200 * i, data.len() as int));
                    }
                }
            }
        }
    }
}

/// Sending goes through a list of things to do.
proof fn lemma_plan_is_followed(
    senders: Seq<MessageSender>,
    actions: Seq<SendAction>,
    n: int,
)
    requires
        senders.len() == actions.len() + 1,
        forall|k: int|
            0 <= k < actions.len() ==> exists|sender: &mut MessageSender|
                {
                    &&& call_ensures(MessageSender::next_action, (sender,), #[trigger] actions[k])
                    &&& *sender == senders[k]
                    &&& *final(sender) == senders[k + 1]
                },
        0 <= n <= actions.len(),
    ensures
        senders[n].plan() == senders[0].plan().skip(
            if n < senders[0].plan().len() {
                n
            } else {
                senders[0].plan().len() as int
            },
        ),
    decreases n,
{
    let plan = senders[0].plan();
    if n == 0 {
        assert(plan.skip(0) =~= plan);
    } else {
        lemma_plan_is_followed(senders, actions, n - 1);
        let action = actions[n - 1];
        if n - 1 < plan.len() {
            assert(plan.skip(n - 1).skip(1) =~= plan.skip(n));
        }
    }
}

/// A message is sent frame by frame, with a pause of two milliseconds between any two frames and
/// none before the first or after the last. In the chunked format a frame carries 1200 bytes of the
/// message, in their order, and the last what is left; in the plain format there is a single frame,
/// the message itself.
///
/// `actions` are what the sender does, one after the other, and `senders` are the states that it is
/// in before each of them and after the last.
pub proof fn message_is_sent_frame_by_frame(
    format: WireFormat,
    data: Bytes,
    senders: Seq<MessageSender>,
    actions: Seq<SendAction>,
    k: int,
)
    requires
        senders.len() == actions.len() + 1,
        call_ensures(send_chunked, (format, data), senders[0]),
        forall|k: int|
            0 <= k < actions.len() ==> exists|sender: &mut MessageSender|
                {
                    &&& call_ensures(MessageSender::next_action, (sender,), #[trigger] actions[k])
                    &&& *sender == senders[k]
                    &&& *final(sender) == senders[k + 1]
                },
        0 <= k < actions.len(),
    ensures
        ({
            let count = frame_count(format, bytes_contents(data).len());
            if k >= 2 * count - 1 {
                actions[k] is Done
            } else if k % 2 == 1 {
                actions[k] is Pause
            } else {
                actions[k] matches SendAction::Send(frame) && bytes_contents(frame) == nth_frame(
                    format,
                    bytes_contents(data),
                    k / 2,
                )
            }
        }),
        CHUNK_SEND_DELAY_MS == 2,
{
    let contents = bytes_contents(data);
    let frames = wire_frames(format, contents);
    let plan = send_plan(frames);
    lemma_frames(format, contents);
    frames_are_sent_with_pauses_between(frames);
    lemma_plan_is_followed(senders, actions, k);
    let action = actions[k];
    if k < plan.len() {
        assert(plan.skip(k)[0] == plan[k]);
        if k % 2 == 1 {
            assert(plan[2 * (k / 2) + 1] == SendStep::Pause);
        } else {
            assert(plan[2 * (k / 2)] == SendStep::Send(frames[k / 2]));
        }
    }
}

/// Every frame of the chunked format fits into a network segment of 1460 bytes, with more than two
/// hundred bytes to spare.
pub proof fn chunked_frames_fit_into_a_segment(data: Seq<u8>, i: int)
    requires
        0 <= i < wire_frames(WireFormat::Chunked, data).len(),
    ensures
        1 <= wire_frames(WireFormat::Chunked, data)[i].len() < 1460 - 200,
{
    lemma_frames(WireFormat::Chunked, data);
}

/// Whether `sealed` is what becomes of `data` in a stream that may be missing: itself where it is,
/// and else the next chunk of the stream, which opens to `data` and the tag of a message.
pub open spec fn carries(
    before: Option<StreamState>,
    data: Seq<u8>,
    sealed: Seq<u8>,
    after: Option<StreamState>,
) -> bool {
    match before {
        Some(stream) => {
            &&& sealed == sealed_chunk(stream.key, stream.nonce, stream.chunks, data, 0)
            &&& opened_chunk(stream.key, stream.nonce, stream.chunks, sealed) == Some((data, 0u8))
            &&& sealed.len() == data.len() + 17
            &&& after == Some(
                StreamState {
                    key: stream.key,
                    nonce: stream.nonce,
                    chunks: stream.chunks.push(sealed),
                },
            )
        },
        None => sealed == data && after is None,
    }
}

/// A message is sealed as the next chunk of the stream, and goes out as it is where there is none.
pub proof fn message_is_the_next_chunk(
    before: Option<StreamSealer>,
    after: Option<StreamSealer>,
    data: Bytes,
    r: Bytes,
)
    requires
        exists|sealer: &mut Option<StreamSealer>|
            {
                &&& #[trigger] call_ensures(seal_message, (sealer, data), r)
                &&& *sealer == before
                &&& *final(sealer) == after
            },
    ensures
        carries(sealer_view(before), bytes_contents(data), bytes_contents(r), sealer_view(after)),
{
}

/// What is opened is the message of an authentic chunk. A chunk that is not authentic is an error
/// and leaves the stream where it was; one with another tag than that of a message is none. Without
/// a stream everything is a message, as it is.
pub proof fn message_is_what_its_chunk_opens_to(
    before: Option<StreamOpener>,
    after: Option<StreamOpener>,
    data: &[u8],
    r: Result<Option<Vec<u8>>, DsError>,
)
    requires
        exists|opener: &mut Option<StreamOpener>|
            {
                &&& #[trigger] call_ensures(open_message, (opener, data), r)
                &&& *opener == before
                &&& *final(opener) == after
            },
    ensures
        match opener_view(before) {
            Some(stream) => match opened_chunk(stream.key, stream.nonce, stream.chunks, data@) {
                Some((text, tag)) => {
                    &&& tag == 0 ==> (r matches Ok(Some(message)) && message@ == text)
                    &&& tag != 0 ==> (r matches Ok(None))
                    &&& opener_view(after) == Some(
                        StreamState {
                            key: stream.key,
                            nonce: stream.nonce,
                            chunks: stream.chunks.push(data@),
                        },
                    )
                },
                None => {
                    &&& r matches Err(DsError::GenericError(text)) && text@
                        == "Cannot decrypt message"@
                    &&& opener_view(after) == opener_view(before)
                },
            },
            None => {
                &&& r matches Ok(Some(message)) && message@ == data@
                &&& opener_view(after) is None
            },
        },
{
}

/// The message of an opened chunk is its plaintext where it has the tag of a message.
pub proof fn chunk_is_accepted_by_its_tag(
    text: Vec<u8>,
    tag: ChunkTag,
    r: Result<Option<Vec<u8>>, DsError>,
    unopened: Result<Option<Vec<u8>>, DsError>,
)
    requires
        call_ensures(accept_chunk, (Some((text, tag)),), r),
        call_ensures(accept_chunk, (None::<(Vec<u8>, ChunkTag)>,), unopened),
    ensures
        tag == ChunkTag::Message ==> (r matches Ok(Some(message)) && message@ == text@),
        tag != ChunkTag::Message ==> (r matches Ok(None)),
        unopened matches Err(DsError::GenericError(text)) && text@ == "Cannot decrypt message"@,
{
}

/// An opener in the state of the sealer gives back every message that was sealed, and is in the
/// state of the sealer again; so do two sides without a stream.
pub proof fn sealed_message_opens_to_itself(
    sealer: Option<StreamSealer>,
    sealer_then: Option<StreamSealer>,
    opener: Option<StreamOpener>,
    opener_then: Option<StreamOpener>,
    data: Bytes,
    sealed: Bytes,
    arrived: &[u8],
    r: Result<Option<Vec<u8>>, DsError>,
)
    requires
        exists|stream: &mut Option<StreamSealer>|
            {
                &&& #[trigger] call_ensures(seal_message, (stream, data), sealed)
                &&& *stream == sealer
                &&& *final(stream) == sealer_then
            },
        exists|stream: &mut Option<StreamOpener>|
            {
                &&& #[trigger] call_ensures(open_message, (stream, arrived), r)
                &&& *stream == opener
                &&& *final(stream) == opener_then
            },
        opener_view(opener) == sealer_view(sealer),
        arrived@ == bytes_contents(sealed),
    ensures
        r matches Ok(Some(message)) && message@ == bytes_contents(data),
        opener_view(opener_then) == sealer_view(sealer_then),
{
    message_is_the_next_chunk(sealer, sealer_then, data, sealed);
    message_is_what_its_chunk_opens_to(opener, opener_then, arrived, r);
}

/// A message from a queue is sealed once and sent in the frames of what it was sealed to; the end
/// of the queue ends the sending and leaves the stream alone.
pub proof fn queued_message_is_sealed_and_sent(
    before: Option<StreamSealer>,
    after: Option<StreamSealer>,
    format: WireFormat,
    message: Option<Bytes>,
    r: ForwardAction,
)
    requires
        exists|sealer: &mut Option<StreamSealer>|
            {
                &&& #[trigger] call_ensures(
                    forward_queue_to_sealed_sink,
                    (sealer, format, message),
                    r,
                )
                &&& *sealer == before
                &&& *final(sealer) == after
            },
    ensures
        match message {
            Some(data) => {
                &&& r matches ForwardAction::Transmit(sender)
                &&& exists|sealed: Seq<u8>|
                    {
                        &&& #[trigger] carries(
                            sealer_view(before),
                            bytes_contents(data),
                            sealed,
                            sealer_view(after),
                        )
                        &&& forall|bytes: Bytes, other: MessageSender|
                            bytes_contents(bytes) == sealed && #[trigger] call_ensures(
                                send_chunked,
                                (format, bytes),
                                other,
                            ) ==> sender.plan() == other.plan()
                    }
            },
            None => r is Finish && sealer_view(after) == sealer_view(before),
        },
{
    if let Some(data) = message {
        let sender = r->Transmit_0;
        let sealed = choose|sealed: Seq<u8>|
            {
                &&& #[trigger] seals(
                    sealer_view(before),
                    bytes_contents(data),
                    sealed,
                    sealer_view(after),
                )
                &&& sender.plan() == send_plan(wire_frames(format, sealed))
            };
        assert(carries(sealer_view(before), bytes_contents(data), sealed, sealer_view(after)));
    }
}

/// In the plain format there is room for every frame.
pub proof fn plain_frame_needs_no_room(
    reader: MessageReader,
    frame: Option<BytesMut>,
    r: bool,
)
    requires
        call_ensures(read_reassembled_message, (WireFormat::Plain,), reader),
        call_ensures(MessageReader::has_room, (&reader, &frame), r),
    ensures
        r,
{
}

} // verus!
