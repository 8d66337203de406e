//! Byte-level codec tests: each primitive's exact wire bytes and its round
//! trip through the cursor.

use wl_protocol::codec::{
    next_bytes, next_fd, next_i32, next_u32, push_bytes, push_fd, push_i32, push_u32, Message,
};

#[test]
fn u32_wire_bytes_are_little_endian() {
    let mut payload: Vec<u8> = Vec::new();
    push_u32(&mut payload, 0x0403_0201);
    assert_eq!(payload, vec![0x01, 0x02, 0x03, 0x04]);
}

#[test]
fn u32_round_trip() {
    let mut payload: Vec<u8> = Vec::new();
    push_u32(&mut payload, 100);
    push_u32(&mut payload, 4_000_000_000);
    let (a, pos) = next_u32(&payload, 0).unwrap();
    let (b, pos) = next_u32(&payload, pos).unwrap();
    assert_eq!(a, 100);
    assert_eq!(b, 4_000_000_000);
    assert_eq!(pos, 8);
    assert!(next_u32(&payload, pos).is_none());
}

#[test]
fn i32_round_trip_negative() {
    let mut payload: Vec<u8> = Vec::new();
    push_i32(&mut payload, -12345);
    push_i32(&mut payload, i32::MIN);
    push_i32(&mut payload, i32::MAX);
    let (a, pos) = next_i32(&payload, 0).unwrap();
    let (b, pos) = next_i32(&payload, pos).unwrap();
    let (c, _) = next_i32(&payload, pos).unwrap();
    assert_eq!(a, -12345);
    assert_eq!(b, i32::MIN);
    assert_eq!(c, i32::MAX);
}

#[test]
fn bytes_are_length_prefixed() {
    let mut payload: Vec<u8> = Vec::new();
    push_bytes(&mut payload, &b"hey".to_vec());
    assert_eq!(payload, vec![3, 0, 0, 0, b'h', b'e', b'y']);
    let (b, pos) = next_bytes(&payload, 0).unwrap();
    assert_eq!(b, b"hey".to_vec());
    assert_eq!(pos, 7);
}

#[test]
fn empty_bytes_round_trip() {
    let mut payload: Vec<u8> = Vec::new();
    push_bytes(&mut payload, &Vec::new());
    assert_eq!(payload, vec![0, 0, 0, 0]);
    let (b, pos) = next_bytes(&payload, 0).unwrap();
    assert!(b.is_empty());
    assert_eq!(pos, 4);
}

#[test]
fn truncated_reads_fail() {
    let payload = vec![1, 2, 3];
    assert!(next_u32(&payload, 0).is_none());
    assert!(next_i32(&payload, 0).is_none());
    assert!(next_bytes(&payload, 0).is_none());
    // A length prefix promising more bytes than remain also fails.
    let lying = vec![10, 0, 0, 0, 1, 2];
    assert!(next_bytes(&lying, 0).is_none());
}

#[test]
fn descriptors_travel_out_of_band() {
    let mut fds: Vec<i32> = Vec::new();
    push_fd(&mut fds, 5);
    push_fd(&mut fds, 9);
    let (a, fp) = next_fd(&fds, 0).unwrap();
    let (b, fp) = next_fd(&fds, fp).unwrap();
    assert_eq!((a, b, fp), (5, 9, 2));
    assert!(next_fd(&fds, fp).is_none());
}

#[test]
fn fresh_message_is_empty() {
    let msg = Message::new(17, 4);
    assert_eq!(msg.object, 17);
    assert_eq!(msg.opcode, 4);
    assert!(msg.payload.is_empty());
    assert!(msg.fds.is_empty());
}
