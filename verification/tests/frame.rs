use audioipc::frame::{framed, FrameWriter, ReadAction, ReadState};
use bytes::BytesMut;

#[test]
fn reader_decodes_until_empty_then_reads() {
    let mut r = ReadState::new();
    assert!(matches!(r.next_action(), ReadAction::Read));
    r.read_completed(10);
    assert!(matches!(r.next_action(), ReadAction::Decode));
    r.decoded_nothing();
    assert!(matches!(r.next_action(), ReadAction::Read));
    r.read_completed(0);
    assert!(matches!(r.next_action(), ReadAction::DecodeEof));
    // decode_eof may give several messages before it finds nothing.
    assert!(matches!(r.next_action(), ReadAction::DecodeEof));
    r.decoded_nothing_at_eof();
    // The stream has ended, on this poll and every later one.
    assert!(matches!(r.next_action(), ReadAction::Ended));
    assert!(matches!(r.next_action(), ReadAction::Ended));
}

#[test]
fn writer_frames_buffered_bytes() {
    let mut w = FrameWriter::new();
    assert!(w.next_frame().is_none());
    assert_eq!(w.current_frame_len(), None);
    w.start_send(BytesMut::from(&b"ab"[..]));
    w.start_send(BytesMut::from(&b"cd"[..]));
    assert_eq!(w.buffered_len(), 4);
    let f = w.next_frame().unwrap();
    assert_eq!(&f[..], b"abcd");
    assert_eq!(w.current_frame_len(), Some(4));
    w.start_send(BytesMut::from(&b"ef"[..]));
    assert!(w.fits(&BytesMut::from(&b"gh"[..])));
    // A partial write leaves the rest of the frame.
    w.frame_written(1);
    let f = w.next_frame().unwrap();
    assert_eq!(&f[..], b"bcd");
    // Writing the rest uses the frame up; the buffered bytes come next.
    w.frame_written(3);
    assert_eq!(w.current_frame_len(), None);
    let f = w.next_frame().unwrap();
    assert_eq!(&f[..], b"ef");
    w.frame_written(2);
    assert!(w.next_frame().is_none());
}

#[test]
fn framed_starts_empty() {
    let mut f = framed(1u8, 2u8);
    assert_eq!(f.io, 1);
    assert_eq!(f.codec, 2);
    assert!(f.read_buf.is_empty());
    assert!(matches!(f.reader.next_action(), ReadAction::Read));
    assert!(f.writer.next_frame().is_none());
}

#[test]
fn writer_writes_queued_bytes_once_in_order() {
    let mut w = FrameWriter::new();
    let mut out = Vec::new();
    w.start_send(BytesMut::from(&b"one"[..]));
    while let Some(f) = w.next_frame() {
        out.extend_from_slice(&f[..1]);
        w.frame_written(1);
        if out.len() == 2 {
            w.start_send(BytesMut::from(&b"two"[..]));
        }
    }
    assert_eq!(out, b"onetwo".to_vec());
}
