//! Status JSON encode/decode tests.

use lazymc::status::{decode_status, encode_status, OnlinePlayers, ServerStatus, ServerVersion};

fn status(name: &str, protocol: i32, motd: &str, online: i32, max: i32) -> ServerStatus {
    ServerStatus {
        version: ServerVersion { name: name.as_bytes().to_vec(), protocol },
        description: motd.as_bytes().to_vec(),
        players: OnlinePlayers { online, max },
    }
}

#[test]
fn encode_status_exact_json() {
    let st = status("1.16.5", 754, "sleeping", 0, 0);
    let json = encode_status(&st);
    assert_eq!(
        String::from_utf8(json).unwrap(),
        "{\"version\":{\"name\":\"1.16.5\",\"protocol\":754},\
         \"description\":{\"text\":\"sleeping\"},\
         \"players\":{\"max\":0,\"online\":0,\"sample\":[]}}"
    );
}

#[test]
fn status_round_trips() {
    let cases = vec![
        status("1.16.5", 754, "sleeping", 0, 0),
        status("1.19.2", 760, "Hello, world!", 3, 20),
        status("weird \"name\"", -1, "back\\slash and \"quotes\"", 0, 2147483647),
        status("", 0, "", -2147483648, -1),
    ];
    for st in cases {
        let json = encode_status(&st);
        let back = decode_status(&json).expect("own encoding must decode");
        assert_eq!(back, st);
    }
}

#[test]
fn decode_status_rejects_noise() {
    assert_eq!(decode_status(b""), None);
    assert_eq!(decode_status(b"{}"), None);
    // a member is missing: no players object
    assert_eq!(decode_status(b"{\"version\":{\"name\":\"x\",\"protocol\":1}}"), None);
    // trailing bytes after the object
    let st = status("1.16.5", 754, "m", 0, 0);
    let mut json = encode_status(&st);
    json.push(b'x');
    assert_eq!(decode_status(&json), None);
    // unterminated object
    let json = encode_status(&st);
    assert_eq!(decode_status(&json[..json.len() - 1]), None);
}

#[test]
fn decode_status_accepts_real_server_shape() {
    // member order, whitespace, unknown members, a non-empty sample and a
    // \u-free escape as a real backend would send them
    let text = "{ \"enforcesSecureChat\": true,\n  \"description\": {\"text\": \"A Minecraft\\nServer\", \"color\": \"red\"},\n  \"players\": {\"sample\": [{\"id\": \"x\", \"name\": \"y\"}], \"online\": 3, \"max\": 20},\n  \"version\": {\"protocol\": 754, \"name\": \"1.16.5\"},\n  \"favicon\": \"data:image/png;base64,AAAA\" }";
    let st = decode_status(text.as_bytes()).expect("real server shape must decode");
    assert_eq!(st.version.name, b"1.16.5".to_vec());
    assert_eq!(st.version.protocol, 754);
    assert_eq!(st.description, b"A Minecraft\nServer".to_vec());
    assert_eq!(st.players.online, 3);
    assert_eq!(st.players.max, 20);
}

#[test]
fn decode_status_accepts_string_description() {
    let text = "{\"version\":{\"name\":\"1.8.8\",\"protocol\":47},\"players\":{\"max\":64,\"online\":0},\"description\":\"plain motd\"}";
    let st = decode_status(text.as_bytes()).expect("string description must decode");
    assert_eq!(st.description, b"plain motd".to_vec());
    assert_eq!(st.version.protocol, 47);
}

#[test]
fn decode_status_accepts_trailing_whitespace() {
    let st = status("1.16.5", 754, "m", 0, 0);
    let mut json = encode_status(&st);
    json.insert(0, b' ');
    json.push(b'\n');
    let back = decode_status(&json).expect("whitespace around the object is fine");
    assert_eq!(back, st);
}

#[test]
fn decode_status_last_duplicate_member_wins() {
    let text = "{\"version\":{\"name\":\"a\",\"protocol\":1,\"protocol\":2},\"players\":{\"max\":0,\"online\":0},\"description\":\"m\"}";
    let st = decode_status(text.as_bytes()).unwrap();
    assert_eq!(st.version.protocol, 2);
}

#[test]
fn decode_status_rejects_out_of_range_numbers() {
    let good = encode_status(&status("n", 2147483647, "m", 0, 0));
    let text = String::from_utf8(good).unwrap();
    let bad = text.replace("2147483647", "2147483648");
    assert_eq!(decode_status(bad.as_bytes()), None);
}
