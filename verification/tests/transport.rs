use management::transport::{frame_length, frame_of, Ack, Codec, FrameLength, Protocol, MAX_REQUEST, MAX_RESPONSE};

#[test]
fn protocol_has_its_name() {
    assert_eq!(Protocol.protocol_name(), "/digital-fax/0.1.0");
}

#[test]
fn frame_is_length_then_body() {
    assert_eq!(frame_of(&[7, 8, 9]), vec![3, 7, 8, 9]);
    assert_eq!(frame_of(&[]), vec![0]);
    let body = vec![1u8; 300];
    let frame = frame_of(&body);
    assert_eq!(&frame[..2], &[0xac, 0x02]);
    assert_eq!(&frame[2..], &body[..]);
}

#[test]
fn length_is_read_byte_by_byte() {
    assert_eq!(frame_length(&[], MAX_REQUEST), FrameLength::Incomplete);
    assert_eq!(frame_length(&[0xac], MAX_REQUEST), FrameLength::Incomplete);
    assert_eq!(frame_length(&[0xac, 0x02], MAX_REQUEST), FrameLength::Of(300));
    assert_eq!(frame_length(&[0x00], MAX_REQUEST), FrameLength::Of(0));
    assert_eq!(frame_length(&[0x80, 0x08], MAX_REQUEST), FrameLength::Of(1024));
}

#[test]
fn overlong_frames_and_bad_lengths_are_invalid() {
    assert_eq!(frame_length(&[0x81, 0x08], MAX_REQUEST), FrameLength::Invalid);
    assert_eq!(frame_length(&[0x02], MAX_RESPONSE), FrameLength::Invalid);
    assert_eq!(frame_length(&[0x01], MAX_RESPONSE), FrameLength::Of(1));
    // bytes after the end of the length
    assert_eq!(frame_length(&[0x01, 0x01], MAX_REQUEST), FrameLength::Invalid);
    // ten bytes that never end
    assert_eq!(frame_length(&[0x80; 10], usize::MAX), FrameLength::Invalid);
    assert_eq!(frame_length(&[0x80; 9], usize::MAX), FrameLength::Incomplete);
}

#[test]
fn empty_frames_carry_nothing() {
    assert_eq!(Codec.read_request(vec![]), None);
    assert_eq!(Codec.read_request(vec![1, 2]), Some(vec![1, 2]));
    assert_eq!(Codec.read_response(&[]), None);
    assert_eq!(Codec.read_response(&[0]), Some(Ack));
    assert_eq!(Codec.write_request(vec![5]), vec![5]);
    assert_eq!(Codec.write_response(Ack), vec![0]);
}
