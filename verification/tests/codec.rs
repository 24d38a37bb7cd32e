//! VarInt, packet framing and handshake codec tests.

use lazymc::packet::{FrameStatus, RawPacket};
use lazymc::proto::Handshake;
use lazymc::varint::{read_var_int, write_var_int, VarIntError};

fn round_trip(n: i32) {
    let bytes = write_var_int(n);
    let (consumed, value) = read_var_int(&bytes).expect("encoding must read back");
    assert_eq!(consumed, bytes.len());
    assert_eq!(value, n);
}

#[test]
fn var_int_round_trips() {
    for &n in &[
        0i32,
        1,
        2,
        127,
        128,
        255,
        300,
        754,
        25565,
        0x7fff_ffff,
        -1,
        -2,
        -754,
        -0x8000_0000,
    ] {
        round_trip(n);
    }
}

#[test]
fn var_int_known_encodings() {
    assert_eq!(write_var_int(0), vec![0x00]);
    assert_eq!(write_var_int(1), vec![0x01]);
    assert_eq!(write_var_int(127), vec![0x7f]);
    assert_eq!(write_var_int(128), vec![0x80, 0x01]);
    assert_eq!(write_var_int(300), vec![0xac, 0x02]);
    assert_eq!(write_var_int(25565), vec![0xdd, 0xc7, 0x01]);
    assert_eq!(write_var_int(-1), vec![0xff, 0xff, 0xff, 0xff, 0x0f]);
}

#[test]
fn var_int_incomplete() {
    assert_eq!(read_var_int(&[]), Err(VarIntError::Incomplete));
    assert_eq!(read_var_int(&[0x80]), Err(VarIntError::Incomplete));
    assert_eq!(read_var_int(&[0x80, 0x80, 0x80]), Err(VarIntError::Incomplete));
}

#[test]
fn var_int_overflow() {
    assert_eq!(
        read_var_int(&[0x80, 0x80, 0x80, 0x80, 0x80, 0x01]),
        Err(VarIntError::Overflow)
    );
}

#[test]
fn var_int_reads_prefix_only() {
    let (consumed, value) = read_var_int(&[0xac, 0x02, 0xff, 0xff]).unwrap();
    assert_eq!((consumed, value), (2, 300));
}

#[test]
fn raw_packet_round_trips() {
    for (id, data) in [
        (0i32, vec![]),
        (0, vec![1u8, 2, 3]),
        (1, vec![0, 0, 0, 0, 0, 0, 0, 0x2a]),
        (0x7fff_ffff, vec![9; 300]),
    ] {
        let packet = RawPacket::new(id, data.clone());
        let wire = packet.encode();
        let back = RawPacket::decode(&wire).expect("frame must decode");
        assert_eq!(back.id, id);
        assert_eq!(back.data, data);
    }
}

#[test]
fn raw_packet_decode_rejects_length_mismatch() {
    let packet = RawPacket::new(0, vec![1, 2, 3]);
    let mut wire = packet.encode();
    wire.push(0xff);
    assert_eq!(RawPacket::decode(&wire), None);
}

#[test]
fn frame_status_need_more_then_ready() {
    let wire = RawPacket::new(0, vec![7; 40]).encode();
    assert_eq!(lazymc::packet::check_frame(&[]), FrameStatus::NeedMore);
    assert_eq!(lazymc::packet::check_frame(&wire[..1]), FrameStatus::NeedMore);
    assert_eq!(lazymc::packet::check_frame(&wire[..10]), FrameStatus::NeedMore);
    assert_eq!(lazymc::packet::check_frame(&wire), FrameStatus::Ready(wire.len()));
    let mut longer = wire.clone();
    longer.extend_from_slice(&[1, 2, 3]);
    assert_eq!(lazymc::packet::check_frame(&longer), FrameStatus::Ready(wire.len()));
}

#[test]
fn frame_status_malformed_length() {
    assert_eq!(
        lazymc::packet::check_frame(&[0x80, 0x80, 0x80, 0x80, 0x80, 0x01]),
        FrameStatus::Malformed
    );
    // a negative frame length
    assert_eq!(
        lazymc::packet::check_frame(&[0xff, 0xff, 0xff, 0xff, 0x0f, 0x00]),
        FrameStatus::Malformed
    );
}

#[test]
fn handshake_round_trips() {
    let handshake = Handshake {
        protocol_version: 754,
        server_address: b"host".to_vec(),
        server_port: 25565,
        next_state: 1,
    };
    let wire = handshake.encode();
    let back = Handshake::decode(&wire).expect("handshake must decode");
    assert_eq!(back, handshake);
}

#[test]
fn handshake_decode_rejects_truncation() {
    let handshake = Handshake {
        protocol_version: 754,
        server_address: b"example.com".to_vec(),
        server_port: 25565,
        next_state: 2,
    };
    let wire = handshake.encode();
    assert_eq!(Handshake::decode(&wire[..wire.len() - 3]), None);
}
