use remote_dict::frame::extract_frame;
use remote_dict::frame::frame_message;

#[test]
fn frame_exact_bytes() {
    let payload = vec![1u8, 2, 3];
    let framed = frame_message(&payload).expect("payload fits");
    assert_eq!(framed, vec![0u8, 0, 0, 3, 1, 2, 3]);
}

#[test]
fn frame_then_extract() {
    let payload = vec![9u8, 8, 7, 6];
    let mut buf = frame_message(&payload).expect("payload fits");
    // trailing bytes of the next frame must not disturb extraction
    buf.push(0);
    buf.push(0);
    let (got, consumed) = extract_frame(&buf).expect("complete frame");
    assert_eq!(got, payload);
    assert_eq!(consumed, 8);
}

#[test]
fn frame_empty_payload() {
    let framed = frame_message(&Vec::new()).expect("payload fits");
    assert_eq!(framed, vec![0u8, 0, 0, 0]);
    let (got, consumed) = extract_frame(&framed).expect("complete frame");
    assert_eq!(got, Vec::<u8>::new());
    assert_eq!(consumed, 4);
}

#[test]
fn extract_incomplete() {
    // fewer than 4 bytes: no length prefix yet
    assert_eq!(extract_frame(&vec![0u8, 0, 0]), None);
    // length prefix promises more bytes than the buffer holds
    assert_eq!(extract_frame(&vec![0u8, 0, 0, 5, 1, 2]), None);
}
