use mousqlite::frame::{frame, FrameReader, FramingError};

#[test]
fn frame_bytes() {
    assert_eq!(frame(b"abc"), vec![0, 0, 0, 0, 0, 0, 0, 3, 97, 98, 99]);
    assert_eq!(frame(b""), vec![0, 0, 0, 0, 0, 0, 0, 0]);
}

#[test]
fn split_reads_give_the_same_frame() {
    let bytes = frame(b"hello frame");
    let mut whole = FrameReader::new();
    whole.push(&bytes);
    let mut bytewise = FrameReader::new();
    for (i, b) in bytes.iter().enumerate() {
        if i + 1 < bytes.len() {
            bytewise.push(&[*b]);
            assert_eq!(bytewise.poll(), None);
        } else {
            bytewise.push(&[*b]);
        }
    }
    assert_eq!(whole.poll(), Some(b"hello frame".to_vec()));
    assert_eq!(bytewise.poll(), whole.poll());
    assert_eq!(bytewise.finish(), Ok(b"hello frame".to_vec()));
}

#[test]
fn truncated_frame_is_a_framing_error() {
    let mut reader = FrameReader::new();
    let mut bytes = vec![0, 0, 0, 0, 0, 0, 0, 100];
    bytes.extend(std::iter::repeat(7u8).take(40));
    reader.push(&bytes);
    assert_eq!(reader.poll(), None);
    assert_eq!(reader.finish(), Err(FramingError::Truncated { declared: 100, received: 40 }));
}

#[test]
fn short_prefix_is_a_framing_error() {
    let mut reader = FrameReader::new();
    reader.push(&[0, 0, 0]);
    assert_eq!(reader.finish(), Err(FramingError::ShortPrefix { received: 3 }));
    assert_eq!(FrameReader::new().finish(), Err(FramingError::ShortPrefix { received: 0 }));
}
