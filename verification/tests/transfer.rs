use bytes::{Bytes, BytesMut};
use orion::aead::streaming::{StreamOpener, StreamSealer, StreamTag};
use orion::kdf::SecretKey;
use tako::error::DsError;
use tako::stream::ChunkTag;
use tako::transfer::{
    accept_chunk, forward_queue_to_sealed_sink, open_message, read_reassembled_message,
    seal_message, send_chunked, ForwardAction, MessageSender, ReadStep, SendAction, WireFormat,
};

/// The frames that a sender sends, and the number of pauses between them.
fn drain(mut sender: MessageSender) -> (Vec<Bytes>, usize) {
    let mut frames: Vec<Bytes> = Vec::new();
    let mut pauses = 0;
    loop {
        match sender.next_action() {
            SendAction::Send(frame) => frames.push(frame),
            SendAction::Pause => {
                pauses += 1;
                assert_eq!(pauses, frames.len());
            }
            SendAction::Done => return (frames, pauses),
        }
    }
}

fn read(format: WireFormat, frames: &[Bytes]) -> Result<Option<Vec<u8>>, String> {
    let mut reader = read_reassembled_message(format);
    for frame in frames {
        match reader.on_frame(Some(BytesMut::from(&frame[..]))) {
            ReadStep::More(next) => reader = next,
            ReadStep::Complete(message) => return Ok(message.map(|m| m.to_vec())),
            ReadStep::Invalid(text) => return Err(text),
        }
    }
    match reader.on_frame(None) {
        ReadStep::Complete(message) => Ok(message.map(|m| m.to_vec())),
        _ => panic!("expected the end"),
    }
}

fn sample(length: usize) -> Vec<u8> {
    (0..length).map(|i| (i % 251) as u8).collect()
}

fn stream() -> (Option<StreamSealer>, Option<StreamOpener>) {
    let key = SecretKey::generate(32).unwrap();
    let (sealer, nonce) = StreamSealer::new(&key).unwrap();
    let opener = StreamOpener::new(&key, &nonce).unwrap();
    (Some(sealer), Some(opener))
}

#[test]
fn small_message_is_one_final_frame() {
    for length in [0, 1, 1199, 1200] {
        let (frames, pauses) = drain(send_chunked(
            WireFormat::Chunked,
            Bytes::from(sample(length)),
        ));
        assert_eq!(frames.len(), 1);
        assert_eq!(pauses, 0);
        assert_eq!(frames[0][0], 0);
        assert_eq!(&frames[0][1..], &sample(length)[..]);
    }
}

#[test]
fn large_message_is_cut_into_frames() {
    let data = sample(3000);
    let (frames, pauses) = drain(send_chunked(
        WireFormat::Chunked,
        Bytes::from(data.clone()),
    ));
    assert_eq!(pauses, 2);
    let lengths: Vec<usize> = frames.iter().map(|f| f.len()).collect();
    assert_eq!(lengths, vec![1201, 1201, 601]);
    let markers: Vec<u8> = frames.iter().map(|f| f[0]).collect();
    assert_eq!(markers, vec![1, 1, 0]);
    assert_eq!(&frames[0][1..], &data[..1200]);
    assert_eq!(&frames[1][1..], &data[1200..2400]);
    assert_eq!(&frames[2][1..], &data[2400..]);
}

#[test]
fn message_of_whole_frames_has_no_empty_frame() {
    let (frames, _) = drain(send_chunked(
        WireFormat::Chunked,
        Bytes::from(sample(2400)),
    ));
    let lengths: Vec<usize> = frames.iter().map(|f| f.len()).collect();
    assert_eq!(lengths, vec![1201, 1201]);
    let markers: Vec<u8> = frames.iter().map(|f| f[0]).collect();
    assert_eq!(markers, vec![1, 0]);
}

#[test]
fn plain_message_is_one_frame_as_it_is() {
    let (frames, pauses) = drain(send_chunked(WireFormat::Plain, Bytes::from(sample(5000))));
    assert_eq!(frames.len(), 1);
    assert_eq!(pauses, 0);
    assert_eq!(&frames[0][..], &sample(5000)[..]);
}

#[test]
fn finished_sender_stays_finished() {
    for format in [WireFormat::Plain, WireFormat::Chunked] {
        let mut sender = send_chunked(format, Bytes::from_static(b"x"));
        assert!(matches!(sender.next_action(), SendAction::Send(_)));
        assert!(matches!(sender.next_action(), SendAction::Done));
        assert!(matches!(sender.next_action(), SendAction::Done));
    }
}

#[test]
fn reading_gives_back_what_was_sent() {
    for format in [WireFormat::Plain, WireFormat::Chunked] {
        for length in [0, 1, 1200, 1201, 2400, 10000] {
            let (frames, _) = drain(send_chunked(format, Bytes::from(sample(length))));
            assert_eq!(read(format, &frames), Ok(Some(sample(length))));
        }
    }
}

#[test]
fn empty_chunked_frame_is_invalid() {
    assert_eq!(
        read(WireFormat::Chunked, &[Bytes::new()]),
        Err("received an empty chunked-message frame (missing continuation marker)".to_string())
    );
    assert_eq!(
        read(
            WireFormat::Chunked,
            &[Bytes::from_static(&[1, 5]), Bytes::new()]
        ),
        Err("received an empty chunked-message frame (missing continuation marker)".to_string())
    );
}

#[test]
fn empty_plain_frame_is_an_empty_message() {
    assert_eq!(read(WireFormat::Plain, &[Bytes::new()]), Ok(Some(vec![])));
}

#[test]
fn end_of_the_connection_gives_no_message() {
    assert_eq!(read(WireFormat::Plain, &[]), Ok(None));
    assert_eq!(read(WireFormat::Chunked, &[]), Ok(None));
    assert_eq!(
        read(WireFormat::Chunked, &[Bytes::from_static(&[1, 5])]),
        Ok(None)
    );
}

#[test]
fn any_marker_but_the_final_one_goes_on() {
    let frames = [
        Bytes::from_static(&[2, 10]),
        Bytes::from_static(&[255, 20]),
        Bytes::from_static(&[0, 30]),
    ];
    assert_eq!(read(WireFormat::Chunked, &frames), Ok(Some(vec![10, 20, 30])));
}

#[test]
fn ordinary_frames_have_room() {
    let reader = read_reassembled_message(WireFormat::Chunked);
    assert!(reader.has_room(&Some(BytesMut::from(&[1u8, 2][..]))));
    let ReadStep::More(reader) = reader.on_frame(Some(BytesMut::from(&[1u8, 2][..]))) else {
        panic!("expected more");
    };
    assert!(reader.has_room(&Some(BytesMut::from(&[1u8, 2][..]))));
    assert!(reader.has_room(&None));
}

#[test]
fn sealed_message_is_opened() {
    let (mut sealer, mut opener) = stream();
    for length in [0, 1, 5000] {
        let sealed = seal_message(&mut sealer, Bytes::from(sample(length)));
        assert_eq!(sealed.len(), length + 17);
        assert_ne!(&sealed[..], &sample(length)[..]);
        let opened = open_message(&mut opener, &sealed).unwrap();
        assert_eq!(opened, Some(sample(length)));
    }
}

#[test]
fn message_without_a_stream_stays_as_it_is() {
    let sealed = seal_message(&mut None, Bytes::from(sample(10)));
    assert_eq!(&sealed[..], &sample(10)[..]);
    assert_eq!(open_message(&mut None, &sealed).unwrap(), Some(sample(10)));
}

#[test]
fn forged_message_is_an_error_and_leaves_the_stream_alone() {
    let (mut sealer, mut opener) = stream();
    let sealed = seal_message(&mut sealer, Bytes::from(sample(10)));
    let mut forged = sealed.to_vec();
    forged[5] ^= 1;
    match open_message(&mut opener, &forged) {
        Err(DsError::GenericError(text)) => assert_eq!(text, "Cannot decrypt message"),
        _ => panic!("expected an error"),
    }
    assert_eq!(
        open_message(&mut opener, &sealed).unwrap(),
        Some(sample(10))
    );
}

#[test]
fn messages_out_of_order_are_errors() {
    let (mut sealer, mut opener) = stream();
    let first = seal_message(&mut sealer, Bytes::from(sample(1)));
    let second = seal_message(&mut sealer, Bytes::from(sample(2)));
    assert!(open_message(&mut opener, &second).is_err());
    assert_eq!(open_message(&mut opener, &first).unwrap(), Some(sample(1)));
    assert!(open_message(&mut opener, &first).is_err());
    assert_eq!(open_message(&mut opener, &second).unwrap(), Some(sample(2)));
}

#[test]
fn chunk_with_another_tag_is_no_message() {
    let (sealer, mut opener) = stream();
    let mut sealer = sealer.unwrap();
    for tag in [StreamTag::Push, StreamTag::Rekey, StreamTag::Finish] {
        let sealed = sealer.seal_chunk(b"x", &tag).unwrap();
        assert_eq!(open_message(&mut opener, &sealed).unwrap(), None);
    }
    let sealed = sealer.seal_chunk(b"x", &StreamTag::Message).unwrap();
    assert_eq!(
        open_message(&mut opener, &sealed).unwrap(),
        Some(b"x".to_vec())
    );
}

#[test]
fn opened_chunks_are_accepted_by_their_tag() {
    let message = accept_chunk(Some((vec![1, 2], ChunkTag::Message))).unwrap();
    assert_eq!(message, Some(vec![1, 2]));
    for tag in [ChunkTag::Push, ChunkTag::Rekey, ChunkTag::Finish] {
        assert_eq!(accept_chunk(Some((vec![1, 2], tag))).unwrap(), None);
    }
    assert!(accept_chunk(None).is_err());
}

#[test]
fn forwarded_messages_arrive_in_order() {
    for format in [WireFormat::Plain, WireFormat::Chunked] {
        let (mut sealer, mut opener) = stream();
        let mut frames: Vec<Bytes> = Vec::new();
        for length in [3000, 0, 7] {
            let action =
                forward_queue_to_sealed_sink(&mut sealer, format, Some(Bytes::from(sample(length))));
            let ForwardAction::Transmit(sender) = action else {
                panic!("expected a message");
            };
            frames.extend(drain(sender).0);
        }
        assert!(matches!(
            forward_queue_to_sealed_sink(&mut sealer, format, None),
            ForwardAction::Finish
        ));

        let mut received: Vec<Vec<u8>> = Vec::new();
        let mut reader = read_reassembled_message(format);
        for frame in frames {
            match reader.on_frame(Some(BytesMut::from(&frame[..]))) {
                ReadStep::More(next) => reader = next,
                ReadStep::Complete(message) => {
                    let sealed = message.unwrap();
                    received.push(open_message(&mut opener, &sealed).unwrap().unwrap());
                    reader = read_reassembled_message(format);
                }
                ReadStep::Invalid(text) => panic!("{text}"),
            }
        }
        assert_eq!(received, vec![sample(3000), sample(0), sample(7)]);
    }
}
