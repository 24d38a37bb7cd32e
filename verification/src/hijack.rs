//! Per-packet decisions of the status hijack handler: what to answer a
//! client while the backend sleeps, and when to wake it.
//!
//! The surrounding connection loop frames packets off the socket, hands each
//! one here, performs the returned action (write bytes, start the backend,
//! close), and loops.

use vstd::prelude::*;
use crate::json::{
    lemma_dec_rep_len, lemma_escape_len, lemma_lit_first_bytes, lit_text_close,
    lit_text_close_vec, lit_text_open, lit_text_open_vec, push_escaped, spec_escape, int_rep,
    dec_rep,
};
use crate::packet::{packet_wire, RawPacket};
use crate::proto::{
    spec_state_from_id, Client, ClientState, Handshake, LOGIN_PACKET_ID_LOGIN_START,
    PROTO_DEFAULT_PROTOCOL, STATUS_PACKET_ID_PING, STATUS_PACKET_ID_STATUS,
};
use crate::status::{
    encode_status, status_json, OnlinePlayers, ServerStatus, ServerVersion, StatusView,
};
use crate::util::{copy_range, push_all};
use crate::varint::{u32_val, varint_encoding, write_var_int};

verus! {

/// The default version name reported before any probe succeeded: `1.16.5`.
pub open spec fn default_version_name() -> Seq<u8> {
    seq![49u8, 46u8, 49u8, 54u8, 46u8, 53u8]
}

/// Exec copy of [`default_version_name`].
pub fn default_version_name_vec() -> (r: Vec<u8>)
    ensures
        r@ == default_version_name(),
{
    let mut v: Vec<u8> = Vec::new();
    v.push(49);
    v.push(46);
    v.push(49);
    v.push(54);
    v.push(46);
    v.push(53);
    proof {
        assert(v@ =~= default_version_name());
    }
    v
}

/// The chat JSON carrying a plain text message.
pub open spec fn chat_json(msg: Seq<u8>) -> Seq<u8> {
    lit_text_open() + spec_escape(msg) + lit_text_close()
}

/// A protocol string field: VarInt byte length, then the bytes.
pub open spec fn string_field(s: Seq<u8>) -> Seq<u8> {
    varint_encoding(s.len() as nat) + s
}

/// The status served while the backend sleeps: version and player maximum
/// from the last known status (defaults before any probe), the MOTD chosen
/// by the starting flag, and zero players online.
pub open spec fn spec_status_reply(
    last_status: Option<ServerStatus>,
    starting: bool,
    motd_sleeping: Seq<u8>,
    motd_starting: Seq<u8>,
) -> StatusView {
    let desc = if starting {
        motd_starting
    } else {
        motd_sleeping
    };
    match last_status {
        Some(s) => StatusView {
            name: s.version.name@,
            protocol: s.version.protocol as int,
            description: desc,
            online: 0,
            max: s.players.max as int,
        },
        None => StatusView {
            name: default_version_name(),
            protocol: PROTO_DEFAULT_PROTOCOL as int,
            description: desc,
            online: 0,
            max: 0,
        },
    }
}

/// Emit a string field around `data`.
pub fn encode_string_field(data: Vec<u8>) -> (r: Vec<u8>)
    requires
        data@.len() <= 0x7fff_fff0,
    ensures
        r@ == string_field(data@),
        r@.len() <= data@.len() + 5,
{
    let mut out = write_var_int(data.len() as i32);
    push_all(&mut out, data.as_slice());
    proof {
        assert(u32_val(data@.len() as i32) == data@.len() as nat);
    }
    out
}

/// The wire bytes of the disconnect packet that answers a join attempt
/// while the backend starts.
pub fn login_disconnect_response(message: &Vec<u8>) -> (r: Vec<u8>)
    requires
        message@.len() <= 0x10_0000,
    ensures
        r@ == packet_wire(0, string_field(chat_json(message@))),
{
    let mut json = lit_text_open_vec();
    push_escaped(&mut json, message.as_slice());
    let close = lit_text_close_vec();
    push_all(&mut json, close.as_slice());
    proof {
        lemma_lit_first_bytes();
        lemma_escape_len(message@);
        assert(json@ =~= chat_json(message@));
    }
    let field = encode_string_field(json);
    let packet = RawPacket::new(0, field);
    packet.encode()
}

/// The length of a status JSON text, bounded by its variable parts.
pub proof fn lemma_status_json_len(v: StatusView)
    requires
        -0x8000_0000 <= v.protocol <= 0x7fff_ffff,
        -0x8000_0000 <= v.online <= 0x7fff_ffff,
        -0x8000_0000 <= v.max <= 0x7fff_ffff,
    ensures
        status_json(v).len() <= 135 + 2 * v.name.len() + 2 * v.description.len(),
{
    lemma_lit_first_bytes();
    lemma_escape_len(v.name);
    lemma_escape_len(v.description);
    lemma_int_rep_len(v.protocol);
    lemma_int_rep_len(v.online);
    lemma_int_rep_len(v.max);
}

/// The decimal text of a 32-bit integer is 1 to 11 bytes.
pub proof fn lemma_int_rep_len(n: int)
    requires
        -0x8000_0000 <= n <= 0x7fff_ffff,
    ensures
        1 <= int_rep(n).len() <= 11,
{
    if n >= 0 {
        lemma_dec_rep_len(n as nat);
    } else {
        lemma_dec_rep_len((-n) as nat);
        assert(int_rep(n) == seq![45u8] + dec_rep((-n) as nat));
    }
}

/// The wire bytes of the status response packet carrying `st`.
pub fn status_response(st: &ServerStatus) -> (r: Vec<u8>)
    requires
        st.version.name@.len() <= 0x10_0000,
        st.description@.len() <= 0x10_0000,
    ensures
        r@ == packet_wire(0, string_field(status_json(st@))),
{
    let json = encode_status(st);
    proof {
        lemma_status_json_len(st@);
    }
    let field = encode_string_field(json);
    let packet = RawPacket::new(0, field);
    packet.encode()
}

/// What the hijack handler decided to do with one framed packet.
#[derive(Debug, PartialEq, Eq)]
pub enum ServeAction {
    /// Write these bytes (a login disconnect), ask the lifecycle state to
    /// start the backend, and end the session.
    LoginStart { response: Vec<u8> },
    /// The handshake was consumed; the session changed phase.  No response.
    HandshakeOk,
    /// Write these bytes (a status response) and keep the session open.
    StatusResponse { response: Vec<u8> },
    /// Write back these bytes (the ping packet verbatim) and keep going.
    PingEcho { response: Vec<u8> },
    /// Malformed or unknown handshake: end the session.
    Close,
    /// An unhandled packet: log it and keep the session open.
    Ignore,
}

/// Decide what to do with one framed packet of a hijacked session.
///
/// Mirrors the serve loop: a Login Start is answered with a disconnect and a
/// start request; a handshake moves the session's phase; a status request is
/// answered from the last known status and the configured MOTDs; a ping is
/// echoed verbatim; anything else is ignored.
pub fn handle_packet(
    client: &mut Client,
    packet: &RawPacket,
    raw: &Vec<u8>,
    starting: bool,
    last_status: &Option<ServerStatus>,
    motd_sleeping: &Vec<u8>,
    motd_starting: &Vec<u8>,
    login_starting: &Vec<u8>,
) -> (action: ServeAction)
    requires
        motd_sleeping@.len() <= 0x10_0000,
        motd_starting@.len() <= 0x10_0000,
        login_starting@.len() <= 0x10_0000,
        match *last_status {
            Some(s) => s.version.name@.len() <= 0x10_0000,
            None => true,
        },
    ensures
        old(client).state is Login && packet.id == LOGIN_PACKET_ID_LOGIN_START ==> {
            &&& action matches ServeAction::LoginStart { response }
                && response@ == packet_wire(0, string_field(chat_json(login_starting@)))
            &&& final(client).state == old(client).state
        },
        old(client).state is Handshake && packet.id == STATUS_PACKET_ID_STATUS
            ==> match crate::proto::handshake_decode(packet.data@) {
                Some((pv, addr, port, next)) => match spec_state_from_id(next as int) {
                    Some(st) => action is HandshakeOk && final(client).state == st,
                    None => action is Close && final(client).state == old(client).state,
                },
                None => action is Close && final(client).state == old(client).state,
            },
        old(client).state is Status && packet.id == STATUS_PACKET_ID_STATUS ==> {
            &&& action matches ServeAction::StatusResponse { response }
                && response@ == packet_wire(0, string_field(status_json(spec_status_reply(
                    *last_status,
                    starting,
                    motd_sleeping@,
                    motd_starting@,
                ))))
            &&& final(client).state == old(client).state
        },
        old(client).state is Status && packet.id == STATUS_PACKET_ID_PING ==> {
            &&& action matches ServeAction::PingEcho { response } && response@ == raw@
            &&& final(client).state == old(client).state
        },
        !(old(client).state is Login && packet.id == LOGIN_PACKET_ID_LOGIN_START)
            && !(old(client).state is Handshake && packet.id == STATUS_PACKET_ID_STATUS)
            && !(old(client).state is Status && packet.id == STATUS_PACKET_ID_STATUS)
            && !(old(client).state is Status && packet.id == STATUS_PACKET_ID_PING) ==> {
            &&& action is Ignore
            &&& final(client).state == old(client).state
        },
{
    let state = client.state();
    if state == ClientState::Login && packet.id == LOGIN_PACKET_ID_LOGIN_START {
        let response = login_disconnect_response(login_starting);
        return ServeAction::LoginStart { response };
    }
    if state == ClientState::Handshake && packet.id == STATUS_PACKET_ID_STATUS {
        let handshake = match Handshake::decode(packet.data.as_slice()) {
            Some(h) => h,
            None => {
                return ServeAction::Close;
            },
        };
        match ClientState::from_id(handshake.next_state) {
            Some(next) => {
                client.set_state(next);
                return ServeAction::HandshakeOk;
            },
            None => {
                return ServeAction::Close;
            },
        }
    }
    if state == ClientState::Status && packet.id == STATUS_PACKET_ID_STATUS {
        let description = if starting {
            copy_range(motd_starting.as_slice(), 0, motd_starting.len())
        } else {
            copy_range(motd_sleeping.as_slice(), 0, motd_sleeping.len())
        };
        let st = match last_status {
            Some(s) => ServerStatus {
                version: ServerVersion {
                    name: copy_range(s.version.name.as_slice(), 0, s.version.name.len()),
                    protocol: s.version.protocol,
                },
                description,
                players: OnlinePlayers { online: 0, max: s.players.max },
            },
            None => ServerStatus {
                version: ServerVersion {
                    name: default_version_name_vec(),
                    protocol: PROTO_DEFAULT_PROTOCOL,
                },
                description,
                players: OnlinePlayers { online: 0, max: 0 },
            },
        };
        proof {
            assert(motd_starting@.subrange(0, motd_starting@.len() as int) =~= motd_starting@);
            assert(motd_sleeping@.subrange(0, motd_sleeping@.len() as int) =~= motd_sleeping@);
            match last_status {
                Some(s) => {
                    assert(s.version.name@.subrange(0, s.version.name@.len() as int)
                        =~= s.version.name@);
                },
                None => {},
            }
            assert(st@ =~= spec_status_reply(
                *last_status,
                starting,
                motd_sleeping@,
                motd_starting@,
            ));
        }
        let response = status_response(&st);
        return ServeAction::StatusResponse { response };
    }
    if state == ClientState::Status && packet.id == STATUS_PACKET_ID_PING {
        let response = copy_range(raw.as_slice(), 0, raw.len());
        proof {
            assert(raw@.subrange(0, raw@.len() as int) =~= raw@);
        }
        return ServeAction::PingEcho { response };
    }
    ServeAction::Ignore
}

} // verus!
