use libipc::buffer::IpcBuffer;
use libipc::proto::Message;

struct RawMsg;

fn make_raw_payload(tag: u32) -> Vec<u8> {
    let mut v = Vec::with_capacity(8);
    v.extend_from_slice(&4u32.to_le_bytes());
    v.extend_from_slice(&tag.to_le_bytes());
    v
}

fn read_raw_payload(data: &[u8]) -> u32 {
    assert!(data.len() >= 8);
    u32::from_le_bytes(data[4..8].try_into().unwrap())
}

#[test]
fn message_empty() {
    let msg: Message<RawMsg> = Message::empty();
    assert!(msg.is_empty());
    assert_eq!(msg.size(), 0);
    assert_eq!(msg.data(), &[] as &[u8]);
}

#[test]
fn message_from_buffer() {
    let payload = make_raw_payload(42);
    let buf = IpcBuffer::from_slice(&payload);
    let msg: Message<RawMsg> = Message::new(buf);
    assert!(!msg.is_empty());
    assert_eq!(msg.size(), 8);
    assert_eq!(read_raw_payload(msg.data()), 42);
}

#[test]
fn message_data_roundtrip() {
    let payload = b"hello flatbuffers".to_vec();
    let buf = IpcBuffer::from_slice(&payload);
    let msg: Message<RawMsg> = Message::new(buf);
    assert_eq!(msg.data(), payload.as_slice());
}
