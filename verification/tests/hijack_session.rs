//! End-to-end hijack handler scenarios at the byte level: list ping, ping
//! echo, and wake-on-join.

use lazymc::hijack::{handle_packet, ServeAction};
use lazymc::packet::RawPacket;
use lazymc::proto::{Client, ClientState, Handshake};
use lazymc::server::{start_server, ServerState};
use lazymc::status::{decode_status, OnlinePlayers, ServerStatus, ServerVersion};
use lazymc::varint::read_var_int;

const MOTD_SLEEPING: &[u8] = b"Server is sleeping";
const MOTD_STARTING: &[u8] = b"Server is starting";
const LOGIN_STARTING: &[u8] = b"Server is starting, try again in a moment";

fn handshake_packet(next_state: i32) -> RawPacket {
    let data = Handshake {
        protocol_version: 754,
        server_address: b"host".to_vec(),
        server_port: 25565,
        next_state,
    }
    .encode();
    RawPacket::new(0, data)
}

fn drive(
    client: &mut Client,
    packet: &RawPacket,
    starting: bool,
    last_status: &Option<ServerStatus>,
) -> ServeAction {
    let raw = packet.encode();
    handle_packet(
        client,
        packet,
        &raw,
        starting,
        last_status,
        &MOTD_SLEEPING.to_vec(),
        &MOTD_STARTING.to_vec(),
        &LOGIN_STARTING.to_vec(),
    )
}

/// Unwrap a response packet: returns (packet id, string field contents).
fn response_payload(response: &[u8]) -> (i32, Vec<u8>) {
    let packet = RawPacket::decode(response).expect("response must be a frame");
    let (consumed, len) = read_var_int(&packet.data).expect("string field length");
    assert_eq!(packet.data.len(), consumed + len as usize);
    (packet.id, packet.data[consumed..].to_vec())
}

#[test]
fn sleeping_server_list_ping() {
    let mut client = Client::new();

    let action = drive(&mut client, &handshake_packet(1), false, &None);
    assert_eq!(action, ServeAction::HandshakeOk);
    assert_eq!(client.state(), ClientState::Status);

    let action = drive(&mut client, &RawPacket::new(0, vec![]), false, &None);
    let response = match action {
        ServeAction::StatusResponse { response } => response,
        other => panic!("expected a status response, got {:?}", other),
    };
    let (id, json) = response_payload(&response);
    assert_eq!(id, 0);
    let status = decode_status(&json).expect("response must carry a status");
    assert_eq!(status.version.name, b"1.16.5".to_vec());
    assert_eq!(status.version.protocol, 754);
    assert_eq!(status.description, MOTD_SLEEPING.to_vec());
    assert_eq!(status.players.online, 0);
    assert_eq!(status.players.max, 0);
}

#[test]
fn status_uses_last_known_version_and_max() {
    let mut client = Client::new();
    drive(&mut client, &handshake_packet(1), false, &None);
    let last = Some(ServerStatus {
        version: ServerVersion { name: b"1.19.2".to_vec(), protocol: 760 },
        description: b"real motd".to_vec(),
        players: OnlinePlayers { online: 5, max: 32 },
    });
    let action = drive(&mut client, &RawPacket::new(0, vec![]), true, &last);
    let response = match action {
        ServeAction::StatusResponse { response } => response,
        other => panic!("expected a status response, got {:?}", other),
    };
    let (_, json) = response_payload(&response);
    let status = decode_status(&json).unwrap();
    assert_eq!(status.version.name, b"1.19.2".to_vec());
    assert_eq!(status.version.protocol, 760);
    // starting flag picks the starting MOTD
    assert_eq!(status.description, MOTD_STARTING.to_vec());
    // player max carries over; the online count is always zero while asleep
    assert_eq!(status.players.max, 32);
    assert_eq!(status.players.online, 0);
}

#[test]
fn ping_echo() {
    let mut client = Client::new();
    drive(&mut client, &handshake_packet(1), false, &None);

    let ping = RawPacket::new(1, vec![0x00, 0x00, 0x00, 0x00, 0x00, 0x00, 0x00, 0x2a]);
    let raw = ping.encode();
    let action = drive(&mut client, &ping, false, &None);
    match action {
        ServeAction::PingEcho { response } => assert_eq!(response, raw),
        other => panic!("expected a ping echo, got {:?}", other),
    }
    assert_eq!(client.state(), ClientState::Status);
}

#[test]
fn wake_on_join() {
    let mut client = Client::new();

    let action = drive(&mut client, &handshake_packet(2), false, &None);
    assert_eq!(action, ServeAction::HandshakeOk);
    assert_eq!(client.state(), ClientState::Login);

    // Login Start: id 0, payload carries the player name as a string field
    let mut payload = vec![6u8];
    payload.extend_from_slice(b"player");
    let action = drive(&mut client, &RawPacket::new(0, payload), false, &None);
    let response = match action {
        ServeAction::LoginStart { response } => response,
        other => panic!("expected a login disconnect, got {:?}", other),
    };
    let (id, chat) = response_payload(&response);
    assert_eq!(id, 0);
    let mut expected = b"{\"text\":\"".to_vec();
    expected.extend_from_slice(LOGIN_STARTING);
    expected.extend_from_slice(b"\"}");
    assert_eq!(chat, expected);

    // the server-process controller is admitted exactly once
    let mut state = ServerState::new();
    assert!(start_server(&mut state, 1_000));
    assert!(!start_server(&mut state, 1_000));
}

#[test]
fn unknown_next_state_closes_session() {
    let mut client = Client::new();
    let action = drive(&mut client, &handshake_packet(9), false, &None);
    assert_eq!(action, ServeAction::Close);
    assert_eq!(client.state(), ClientState::Handshake);
}

#[test]
fn malformed_handshake_closes_session() {
    let mut client = Client::new();
    let action = drive(&mut client, &RawPacket::new(0, vec![0x80]), false, &None);
    assert_eq!(action, ServeAction::Close);
}

#[test]
fn unhandled_packet_is_ignored() {
    let mut client = Client::new();
    drive(&mut client, &handshake_packet(1), false, &None);
    let action = drive(&mut client, &RawPacket::new(7, vec![1, 2]), false, &None);
    assert_eq!(action, ServeAction::Ignore);
    assert_eq!(client.state(), ClientState::Status);
}
