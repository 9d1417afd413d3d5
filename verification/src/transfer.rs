//! The messages of a connection: how they are sealed, cut into frames, put together and opened.
//!
//! There are two wire formats. In the plain one a message is one frame. In the chunked one a
//! message is cut into frames that each fit into a single segment of a standard network path: the
//! first byte of a frame tells whether the message goes on in the next.

use crate::auth::{opener_view, sealer_view};
use crate::buffer::{
    bytes_contents, bytes_from_vec, bytes_mut_contents, bytes_mut_slice, bytes_slice,
};
use crate::error::{DsError, ErrorView};
use crate::stream::{
    open_chunk, opener_state, seal_chunk, sealer_state, ChunkTag, StreamState, CHUNK_OVERHEAD,
    MAX_CHUNK_PLAINTEXT,
};
use bytes::{Bytes, BytesMut};
use orion::aead::streaming::{StreamOpener, StreamSealer};
use vstd::prelude::*;

verus! {

/// The most bytes of a message that one frame of the chunked format carries. Some network paths
/// silently drop a connection when a single write needs more than one segment of about 1460 bytes;
/// a frame of this size fits into one with margin to spare.
pub const MAX_WIRE_CHUNK_PAYLOAD: usize = 1200;

/// The first byte of a frame that the message goes on after.
pub const CHUNK_CONTINUES: u8 = 1;

/// The first byte of a frame that completes its message.
pub const CHUNK_FINAL: u8 = 0;

/// The pause between two frames of one message, in milliseconds. It lets each frame leave as a
/// packet of its own; frames queued back to back could be joined into larger packets again.
pub const CHUNK_SEND_DELAY_MS: u64 = 2;

/// How messages are put into frames.
#[derive(Clone, Copy, Debug, PartialEq, Eq, Structural)]
pub enum WireFormat {
    /// One frame for each message.
    Plain,
    /// As many frames as it takes to keep each of them small.
    Chunked,
}

/// What a stream that may be missing makes of a message, and the state that it is in then.
pub open spec fn seals(
    before: Option<StreamState>,
    data: Seq<u8>,
    sealed: Seq<u8>,
    after: Option<StreamState>,
) -> bool {
    match before {
        Some(stream) => {
            &&& sealed == stream.seal(data, ChunkTag::Message)
            &&& stream.open(sealed) == Some((data, ChunkTag::Message.code()))
            &&& sealed.len() == data.len() + CHUNK_OVERHEAD
            &&& after == Some(stream.after(sealed))
        },
        None => sealed == data && after is None,
    }
}

/// Whether a stream that may be missing can seal a message of `length` bytes.
pub open spec fn can_seal(sealer: Option<StreamState>, length: nat) -> bool {
    sealer is Some ==> length <= MAX_CHUNK_PLAINTEXT && length + CHUNK_OVERHEAD <= isize::MAX
}

/// Seals a message for the peer, if the connection is encrypted.
pub fn seal_message(sealer: &mut Option<StreamSealer>, data: Bytes) -> (r: Bytes)
    requires
        can_seal(sealer_view(*old(sealer)), bytes_contents(data).len()),
    ensures
        seals(
            sealer_view(*old(sealer)),
            bytes_contents(data),
            bytes_contents(r),
            sealer_view(*final(sealer)),
        ),
{
    if let Some(stream) = sealer {
        bytes_from_vec(seal_chunk(stream, bytes_slice(&data), ChunkTag::Message).unwrap())
    } else {
        data
    }
}

/// What becomes of an opened chunk: its plaintext is the message where it has the tag of one, an
/// unopened chunk is an error, and anything else is no message at all.
pub open spec fn accepted_chunk(opened: Option<(Seq<u8>, u8)>) -> Result<
    Option<Seq<u8>>,
    ErrorView,
> {
    match opened {
        Some((plaintext, tag)) => if tag == ChunkTag::Message.code() {
            Ok(Some(plaintext))
        } else {
            Ok(None)
        },
        None => Err(ErrorView::Generic("Cannot decrypt message"@)),
    }
}

/// What comes of opening `data` with a stream that may be missing.
pub open spec fn opened_message(opener: Option<StreamState>, data: Seq<u8>) -> Result<
    Option<Seq<u8>>,
    ErrorView,
> {
    match opener {
        Some(stream) => accepted_chunk(stream.open(data)),
        None => Ok(Some(data)),
    }
}

/// The state of a stream that may be missing after `data` was opened with it.
pub open spec fn opener_after(opener: Option<StreamState>, data: Seq<u8>) -> Option<StreamState> {
    match opener {
        Some(stream) => if stream.open(data) is Some {
            Some(stream.after(data))
        } else {
            Some(stream)
        },
        None => None,
    }
}

/// A message, nothing or an error, with their contents as sequences.
pub open spec fn message_view(r: Result<Option<Vec<u8>>, DsError>) -> Result<
    Option<Seq<u8>>,
    ErrorView,
> {
    match r {
        Ok(Some(message)) => Ok(Some(message@)),
        Ok(None) => Ok(None),
        Err(e) => Err(e@),
    }
}

/// An opened chunk that may be missing, with its contents as a sequence.
pub open spec fn chunk_view(opened: Option<(Vec<u8>, ChunkTag)>) -> Option<(Seq<u8>, u8)> {
    match opened {
        Some((plaintext, tag)) => Some((plaintext@, tag.code())),
        None => None,
    }
}

/// The message in an opened chunk. Nothing comes back for a chunk with another tag than that of a
/// message, which no peer sends.
pub fn accept_chunk(opened: Option<(Vec<u8>, ChunkTag)>) -> (r: Result<Option<Vec<u8>>, DsError>)
    ensures
        message_view(r) == accepted_chunk(chunk_view(opened)),
{
    match opened {
        Some((plaintext, tag)) => if tag == ChunkTag::Message {
            Ok(Some(plaintext))
        } else {
            Ok(None)
        },
        None => Err(DsError::generic("Cannot decrypt message")),
    }
}

/// Opens a message of the peer, if the connection is encrypted. Nothing comes back for an authentic
/// chunk with another tag than that of a message. No peer sends one, and no caller can tell the tag
/// of a chunk before it is opened, so such a chunk is let in and it is for the caller to give up.
pub fn open_message(opener: &mut Option<StreamOpener>, message_data: &[u8]) -> (r: Result<
    Option<Vec<u8>>,
    DsError,
>)
    ensures
        message_view(r) == opened_message(opener_view(*old(opener)), message_data@),
        opener_view(*final(opener)) == opener_after(opener_view(*old(opener)), message_data@),
{
    if let Some(stream) = opener {
        match open_chunk(stream, message_data) {
            Ok(opened) => accept_chunk(Some(opened)),
            Err(_) => accept_chunk(None),
        }
    } else {
        let mut message: Vec<u8> = Vec::new();
        message.extend_from_slice(message_data);
        assert(message@ =~= message_data@);
        Ok(Some(message))
    }
}

/// A frame of the chunked format.
pub open spec fn chunk_frame(marker: u8, payload: Seq<u8>) -> Seq<u8> {
    seq![marker] + payload
}

/// The frames of a message in the chunked format.
pub open spec fn chunk_frames(data: Seq<u8>) -> Seq<Seq<u8>>
    decreases data.len(),
{
    if data.len() <= MAX_WIRE_CHUNK_PAYLOAD {
        seq![chunk_frame(CHUNK_FINAL, data)]
    } else {
        seq![chunk_frame(CHUNK_CONTINUES, data.take(MAX_WIRE_CHUNK_PAYLOAD as int))]
            + chunk_frames(data.skip(MAX_WIRE_CHUNK_PAYLOAD as int))
    }
}

/// The frames of a message.
pub open spec fn wire_frames(format: WireFormat, data: Seq<u8>) -> Seq<Seq<u8>> {
    match format {
        WireFormat::Plain => seq![data],
        WireFormat::Chunked => chunk_frames(data),
    }
}

/// A thing to do in sending a message.
pub enum SendStep {
    /// Hand a frame to the network.
    Send(Seq<u8>),
    /// Wait for `CHUNK_SEND_DELAY_MS`.
    Pause,
}

/// What to do to send frames: one after the other, with a pause between any two.
pub open spec fn send_plan(frames: Seq<Seq<u8>>) -> Seq<SendStep>
    decreases frames.len(),
{
    if frames.len() == 0 {
        Seq::empty()
    } else if frames.len() == 1 {
        seq![SendStep::Send(frames[0])]
    } else {
        seq![SendStep::Send(frames[0]), SendStep::Pause] + send_plan(frames.skip(1))
    }
}

/// What the sender of a message does next.
pub enum SendAction {
    /// Hand a frame to the network.
    Send(Bytes),
    /// Wait for `CHUNK_SEND_DELAY_MS`.
    Pause,
    /// Nothing: the message is sent.
    Done,
}

/// A message on its way out.
pub struct MessageSender {
    format: WireFormat,
    /// The message, while something of it is left to send.
    data: Option<Bytes>,
    /// How much of the message was sent.
    offset: usize,
    /// Whether a pause comes first.
    pause: bool,
}

impl MessageSender {
    /// The parts of the sender fit together.
    #[verifier::type_invariant]
    spec fn wf(&self) -> bool {
        &&& self.data matches Some(data) ==> {
            &&& self.offset <= bytes_contents(data).len()
            &&& self.format is Plain ==> self.offset == 0 && !self.pause
        }
        &&& self.data is None ==> !self.pause
    }

    /// What is left to do.
    pub closed spec fn plan(&self) -> Seq<SendStep> {
        match self.data {
            Some(data) => {
                let steps = send_plan(
                    wire_frames(self.format, bytes_contents(data).skip(self.offset as int)),
                );
                if self.pause {
                    seq![SendStep::Pause] + steps
                } else {
                    steps
                }
            },
            None => Seq::empty(),
        }
    }

    /// What to do next.
    pub fn next_action(&mut self) -> (r: SendAction)
        ensures
            match r {
                SendAction::Send(frame) => {
                    &&& old(self).plan().len() > 0
                    &&& old(self).plan()[0] == SendStep::Send(bytes_contents(frame))
                    &&& final(self).plan() == old(self).plan().skip(1)
                },
                SendAction::Pause => {
                    &&& old(self).plan().len() > 0
                    &&& old(self).plan()[0] == SendStep::Pause
                    &&& final(self).plan() == old(self).plan().skip(1)
                },
                SendAction::Done => {
                    &&& old(self).plan().len() == 0
                    &&& final(self).plan() == old(self).plan()
                },
            },
    {
        proof {
            use_type_invariant(&*self);
        }
        if self.pause {
            self.pause = false;
            assert(self.plan() =~= old(self).plan().skip(1));
            return SendAction::Pause;
        }
        if self.format == WireFormat::Plain {
            let mut whole: Option<Bytes> = None;
            std::mem::swap(&mut whole, &mut self.data);
            return match whole {
                Some(data) => {
                    assert(bytes_contents(data).skip(0) =~= bytes_contents(data));
                    assert(self.plan() =~= old(self).plan().skip(1));
                    SendAction::Send(data)
                },
                None => SendAction::Done,
            };
        }
        let (frame, end, last) = match &self.data {
            Some(data) => {
                let rest = data.len() - self.offset;
                let last = rest <= MAX_WIRE_CHUNK_PAYLOAD;
                let size: usize = if last {
                    rest
                } else {
                    MAX_WIRE_CHUNK_PAYLOAD
                };
                let end = self.offset + size;
                let marker: u8 = if last {
                    CHUNK_FINAL
                } else {
                    CHUNK_CONTINUES
                };
                let mut frame = BytesMut::with_capacity(size + 1);
                let head: [u8; 1] = [marker];
                frame.extend_from_slice(head.as_slice());
                frame.extend_from_slice(&bytes_slice(data)[self.offset..end]);
                (frame.freeze(), end, last)
            },
            None => {
                return SendAction::Done;
            },
        };
        let ghost left = bytes_contents(self.data->0).skip(self.offset as int);
        let ghost frames = chunk_frames(left);
        if last {
            proof {
                assert(bytes_contents(frame) =~= chunk_frame(CHUNK_FINAL, left));
            }
            self.data = None;
            assert(self.plan() =~= old(self).plan().skip(1));
        } else {
            proof {
                let size = MAX_WIRE_CHUNK_PAYLOAD as int;
                assert(bytes_contents(frame) =~= chunk_frame(CHUNK_CONTINUES, left.take(size)));
                assert(frames.skip(1) =~= chunk_frames(left.skip(size)));
                assert(left.skip(size) =~= bytes_contents(self.data->0).skip(end as int));
                assert(frames.len() > 1) by {
                    assert(chunk_frames(left.skip(size)).len() > 0);
                }
            }
            self.offset = end;
            self.pause = true;
            assert(self.plan() =~= old(self).plan().skip(1));
        }
        SendAction::Send(frame)
    }
}

/// Starts sending a message.
pub fn send_chunked(format: WireFormat, data: Bytes) -> (r: MessageSender)
    ensures
        r.plan() == send_plan(wire_frames(format, bytes_contents(data))),
{
    assert(bytes_contents(data).skip(0) =~= bytes_contents(data));
    MessageSender { format, data: Some(data), offset: 0, pause: false }
}

/// What the forwarder of a queue does next.
pub enum ForwardAction {
    /// Send a message to its end, then take the next from the queue.
    Transmit(MessageSender),
    /// Stop: the queue has ended.
    Finish,
}

/// Takes a message from a queue, or the end of the queue, and seals the message for sending.
pub fn forward_queue_to_sealed_sink(
    sealer: &mut Option<StreamSealer>,
    format: WireFormat,
    message: Option<Bytes>,
) -> (r: ForwardAction)
    requires
        message matches Some(data) ==> can_seal(
            sealer_view(*old(sealer)),
            bytes_contents(data).len(),
        ),
    ensures
        match message {
            Some(data) => {
                &&& r matches ForwardAction::Transmit(sender)
                &&& exists|sealed: Seq<u8>|
                    {
                        &&& #[trigger] seals(
                            sealer_view(*old(sealer)),
                            bytes_contents(data),
                            sealed,
                            sealer_view(*final(sealer)),
                        )
                        &&& sender.plan() == send_plan(wire_frames(format, sealed))
                    }
            },
            None => r is Finish && sealer_view(*final(sealer)) == sealer_view(*old(sealer)),
        },
{
    match message {
        Some(data) => {
            let sealed = seal_message(sealer, data);
            ForwardAction::Transmit(send_chunked(format, sealed))
        },
        None => ForwardAction::Finish,
    }
}

/// A message on its way in.
pub struct MessageReader {
    format: WireFormat,
    accumulated: Option<BytesMut>,
}

/// What of a message on its way in has arrived.
pub struct ReaderState {
    pub format: WireFormat,
    /// The payloads that have arrived, one after the other; nothing before the first.
    pub accumulated: Option<Seq<u8>>,
}

impl ReaderState {
    /// A message that nothing of has arrived.
    pub open spec fn fresh(format: WireFormat) -> ReaderState {
        ReaderState { format, accumulated: None }
    }
}

/// What comes of a frame.
pub enum ReadStep {
    /// The message goes on.
    More(MessageReader),
    /// The message is complete, or there is none because the connection has ended.
    Complete(Option<BytesMut>),
    /// The frame is not one of the format, as the text tells.
    Invalid(String),
}

/// What comes of a frame, with the contents as sequences.
pub enum ReadOutcome {
    More(ReaderState),
    Complete(Option<Seq<u8>>),
    Invalid(Seq<char>),
}

/// A growing buffer that may be missing, as a sequence of bytes.
pub open spec fn buffer_view(buffer: Option<BytesMut>) -> Option<Seq<u8>> {
    match buffer {
        Some(buffer) => Some(bytes_mut_contents(buffer)),
        None => None,
    }
}

impl View for MessageReader {
    type V = ReaderState;

    closed spec fn view(&self) -> ReaderState {
        ReaderState { format: self.format, accumulated: buffer_view(self.accumulated) }
    }
}

impl View for ReadStep {
    type V = ReadOutcome;

    open spec fn view(&self) -> ReadOutcome {
        match self {
            ReadStep::More(reader) => ReadOutcome::More(reader@),
            ReadStep::Complete(message) => ReadOutcome::Complete(buffer_view(*message)),
            ReadStep::Invalid(text) => ReadOutcome::Invalid(text@),
        }
    }
}

/// What has arrived once `payload` has.
pub open spec fn joined(accumulated: Option<Seq<u8>>, payload: Seq<u8>) -> Seq<u8> {
    match accumulated {
        Some(earlier) => earlier + payload,
        None => payload,
    }
}

/// What comes of the next frame, or of the end of the connection in its place. In the plain format
/// a frame is a message. In the chunked format its first byte tells whether it is the last, and
/// the rest belongs to the message. A connection that ends gives no message, and what had arrived
/// of one is dropped.
pub open spec fn read_frame(state: ReaderState, frame: Option<Seq<u8>>) -> ReadOutcome {
    match (state.format, frame) {
        (_, None) => ReadOutcome::Complete(None),
        (WireFormat::Plain, Some(frame)) => ReadOutcome::Complete(Some(frame)),
        (WireFormat::Chunked, Some(frame)) => if frame.len() == 0 {
            ReadOutcome::Invalid(
                "received an empty chunked-message frame (missing continuation marker)"@,
            )
        } else {
            let message = joined(state.accumulated, frame.skip(1));
            if frame[0] == CHUNK_FINAL {
                ReadOutcome::Complete(Some(message))
            } else {
                ReadOutcome::More(ReaderState { accumulated: Some(message), ..state })
            }
        },
    }
}

/// Whether what arrives with a frame fits in memory.
pub open spec fn has_room_for(state: ReaderState, frame: Option<Seq<u8>>) -> bool {
    match (state.format, frame) {
        (WireFormat::Chunked, Some(frame)) => state.accumulated matches Some(earlier) ==> {
            earlier.len() + frame.len() <= isize::MAX + 1
        },
        _ => true,
    }
}

impl MessageReader {
    /// Whether what arrives with `frame` fits in memory.
    pub fn has_room(&self, frame: &Option<BytesMut>) -> (r: bool)
        ensures
            r == has_room_for(self@, buffer_view(*frame)),
    {
        if self.format == WireFormat::Plain {
            return true;
        }
        match (&self.accumulated, frame) {
            (Some(earlier), Some(frame)) => match earlier.len().checked_add(frame.len()) {
                Some(total) => total <= isize::MAX as usize + 1,
                None => false,
            },
            _ => true,
        }
    }

    /// Takes the next frame, or the end of the connection in its place.
    pub fn on_frame(self, frame: Option<BytesMut>) -> (r: ReadStep)
        requires
            has_room_for(self@, buffer_view(frame)),
        ensures
            r@ == read_frame(self@, buffer_view(frame)),
    {
        let mut frame = match frame {
            Some(frame) => frame,
            None => {
                return ReadStep::Complete(None);
            },
        };
        if self.format == WireFormat::Plain {
            return ReadStep::Complete(Some(frame));
        }
        if frame.is_empty() {
            return ReadStep::Invalid(
                "received an empty chunked-message frame (missing continuation marker)".to_owned(),
            );
        }
        let head = frame.split_to(1);
        let marker = bytes_mut_slice(&head)[0];
        let message = match self.accumulated {
            Some(earlier) => {
                let mut earlier = earlier;
                earlier.unsplit(frame);
                earlier
            },
            None => frame,
        };
        if marker == CHUNK_FINAL {
            ReadStep::Complete(Some(message))
        } else {
            ReadStep::More(MessageReader { format: self.format, accumulated: Some(message) })
        }
    }
}

/// Starts reading a message.
pub fn read_reassembled_message(format: WireFormat) -> (r: MessageReader)
    ensures
        r@ == ReaderState::fresh(format),
{
    MessageReader { format, accumulated: None }
}

} // verus!
