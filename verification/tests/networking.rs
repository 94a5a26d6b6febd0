use remora::networking::worker::{handle_write_stream, push_frame, FrameReader, MAX_MESSAGE_SIZE};

#[test]
fn a_frame_is_a_length_and_its_bytes() {
    let mut out = vec![9];
    push_frame(&mut out, &vec![1, 2, 3]);
    assert_eq!(out, vec![9, 0, 0, 0, 3, 1, 2, 3]);
    assert_eq!(
        handle_write_stream(&vec![vec![7], vec![]]),
        vec![0, 0, 0, 1, 7, 0, 0, 0, 0]
    );
}

#[test]
fn reading_gives_back_what_was_written() {
    let messages = vec![vec![1, 2, 3], vec![], vec![0; 300]];
    let bytes = handle_write_stream(&messages);
    let mut reader = FrameReader::new();
    reader.receive(&bytes);
    assert_eq!(reader.handle_read_stream().ok(), Some(messages));
    assert_eq!(reader.handle_read_stream().ok(), Some(vec![]));
}

#[test]
fn pieces_are_read_as_one() {
    let messages = vec![vec![1, 2, 3], vec![4, 5], vec![0x01, 0x02, 0x03, 0x04, 0x05]];
    let bytes = handle_write_stream(&messages);
    for cut in 0..=bytes.len() {
        let mut reader = FrameReader::new();
        let mut read = Vec::new();
        reader.receive(&bytes[..cut].to_vec());
        read.extend(reader.handle_read_stream().ok().unwrap());
        reader.receive(&bytes[cut..].to_vec());
        read.extend(reader.handle_read_stream().ok().unwrap());
        assert_eq!(read, messages, "cut at {}", cut);
    }
}

#[test]
fn lengths_are_big_endian() {
    let mut reader = FrameReader::new();
    let mut bytes = vec![0, 0, 1, 2];
    bytes.extend(vec![5; 258]);
    reader.receive(&bytes);
    assert_eq!(reader.handle_read_stream().ok(), Some(vec![vec![5; 258]]));
}

#[test]
fn a_frame_that_is_too_large_is_refused() {
    let mut reader = FrameReader::new();
    let length = (MAX_MESSAGE_SIZE as u32 + 1).to_be_bytes().to_vec();
    reader.receive(&length);
    let error = reader.handle_read_stream().err().unwrap();
    assert!(error.message().contains(&(MAX_MESSAGE_SIZE + 1).to_string()));
    let mut reader = FrameReader::new();
    reader.receive(&(MAX_MESSAGE_SIZE as u32).to_be_bytes().to_vec());
    assert_eq!(reader.handle_read_stream().ok(), Some(vec![]));
}
