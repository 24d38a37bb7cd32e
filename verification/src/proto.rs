//! Protocol phase tracking and the handshake packet.
//!
//! A session starts in `Handshake` and transitions at most once, via the
//! `next_state` field of the handshake packet.

use vstd::prelude::*;
use vstd::arithmetic::div_mod::{lemma_fundamental_div_mod, lemma_small_mod};
use crate::util::copy_range;
use crate::varint::{
    lemma_read_of_encoding, read_var_int_from, to_i32_val, u32_val, varint_encoding, varint_read,
    write_var_int,
};

verus! {

/// Packet id of Login Start in the Login state.
pub const LOGIN_PACKET_ID_LOGIN_START: i32 = 0;

/// Packet id of the status request (and of the handshake) in their states.
pub const STATUS_PACKET_ID_STATUS: i32 = 0;

/// Packet id of the ping packet in the Status state.
pub const STATUS_PACKET_ID_PING: i32 = 1;

/// Protocol number reported before any probe succeeded.
pub const PROTO_DEFAULT_PROTOCOL: i32 = 754;

/// The protocol phase of one client connection.
#[derive(Debug, Clone, Copy, PartialEq, Eq, Structural)]
pub enum ClientState {
    /// Initial phase, before the handshake packet.
    Handshake,
    /// Server list status exchange.
    Status,
    /// Join attempt.
    Login,
    /// In game.
    Play,
}

/// The phase selected by a handshake `next_state` value, if it is known.
pub open spec fn spec_state_from_id(id: int) -> Option<ClientState> {
    if id == 1 {
        Some(ClientState::Status)
    } else if id == 2 {
        Some(ClientState::Login)
    } else {
        None
    }
}

impl ClientState {
    /// Map a handshake `next_state` value to a phase: 1 is Status, 2 is
    /// Login, anything else is unknown.
    pub fn from_id(id: i32) -> (r: Option<ClientState>)
        ensures
            r == spec_state_from_id(id as int),
    {
        if id == 1 {
            Some(ClientState::Status)
        } else if id == 2 {
            Some(ClientState::Login)
        } else {
            None
        }
    }
}

/// Per-connection session state, owned by the task handling the connection.
pub struct Client {
    /// Current protocol phase.
    pub state: ClientState,
}

impl Client {
    /// A fresh session, in the Handshake phase.
    pub fn new() -> (r: Self)
        ensures
            r.state == ClientState::Handshake,
    {
        Client { state: ClientState::Handshake }
    }

    /// The session's current phase.
    pub fn state(&self) -> (r: ClientState)
        ensures
            r == self.state,
    {
        self.state
    }

    /// Move the session to a new phase (done once, after the handshake).
    pub fn set_state(&mut self, state: ClientState)
        ensures
            final(self).state == state,
    {
        self.state = state;
    }
}

/// The handshake packet: protocol version, server address and port, and the
/// protocol branch the client asks for next.
#[derive(Debug, PartialEq, Eq)]
pub struct Handshake {
    pub protocol_version: i32,
    /// Server address as UTF-8 bytes.
    pub server_address: Vec<u8>,
    pub server_port: u16,
    /// 1 selects Status, 2 selects Login.
    pub next_state: i32,
}

/// The payload bytes of a handshake packet.
pub open spec fn handshake_wire(proto: i32, addr: Seq<u8>, port: u16, next: i32) -> Seq<u8> {
    varint_encoding(u32_val(proto)) + varint_encoding(addr.len() as nat) + addr
        + seq![(port / 256) as u8, (port % 256) as u8] + varint_encoding(u32_val(next))
}

/// What decoding a handshake payload yields: protocol version, address
/// bytes, port and `next_state`; nothing when the payload is malformed.
/// Bytes after the `next_state` field are ignored.
pub open spec fn handshake_decode(s: Seq<u8>) -> Option<(i32, Seq<u8>, u16, i32)> {
    match varint_read(s) {
        Ok((c1, proto)) => {
            let s1 = s.skip(c1);
            match varint_read(s1) {
                Ok((c2, alen)) => if alen >= 0 && s1.len() >= c2 + alen + 2 {
                    let addr = s1.subrange(c2, c2 + alen);
                    let s2 = s1.skip(c2 + alen);
                    let port = (s2[0] as int) * 256 + (s2[1] as int);
                    match varint_read(s2.skip(2)) {
                        Ok((c4, next)) => Some((proto, addr, port as u16, next)),
                        Err(_) => None,
                    }
                } else {
                    None
                },
                Err(_) => None,
            }
        },
        Err(_) => None,
    }
}

impl Handshake {
    /// Emit the handshake payload bytes.
    pub fn encode(&self) -> (r: Vec<u8>)
        requires
            self.server_address@.len() <= 0x7fff_ffff,
        ensures
            r@ == handshake_wire(
                self.protocol_version,
                self.server_address@,
                self.server_port,
                self.next_state,
            ),
    {
        let mut out = write_var_int(self.protocol_version);
        let alen = write_var_int(self.server_address.len() as i32);
        crate::util::push_all(&mut out, alen.as_slice());
        crate::util::push_all(&mut out, self.server_address.as_slice());
        out.push((self.server_port / 256) as u8);
        out.push((self.server_port % 256) as u8);
        let next = write_var_int(self.next_state);
        crate::util::push_all(&mut out, next.as_slice());
        proof {
            assert(u32_val(self.server_address@.len() as i32) == self.server_address@.len() as nat);
            assert(out@ =~= handshake_wire(
                self.protocol_version,
                self.server_address@,
                self.server_port,
                self.next_state,
            ));
        }
        out
    }

    /// Decode a handshake payload (see [`handshake_decode`]).
    pub fn decode(data: &[u8]) -> (r: Option<Handshake>)
        ensures
            match r {
                Some(h) => handshake_decode(data@) == Some((
                    h.protocol_version,
                    h.server_address@,
                    h.server_port,
                    h.next_state,
                )),
                None => handshake_decode(data@) is None,
            },
    {
        proof {
            assert(data@.skip(0) =~= data@);
        }
        let (c1, proto) = match read_var_int_from(data, 0) {
            Ok(ok) => ok,
            Err(_) => {
                return None;
            },
        };
        let (c2, alen) = match read_var_int_from(data, c1) {
            Ok(ok) => ok,
            Err(_) => {
                return None;
            },
        };
        proof {
            assert(data@.skip(c1 as int).skip(c2 as int) =~= data@.skip(c1 as int + c2 as int));
        }
        if alen < 0 {
            return None;
        }
        let alen = alen as usize;
        if (data.len() as u64) - (c1 as u64) < (c2 as u64) + (alen as u64) + 2 {
            return None;
        }
        let addr_start = c1 + c2;
        proof {
            assert(data@.skip(c1 as int).subrange(c2 as int, c2 as int + alen as int)
                =~= data@.subrange(addr_start as int, addr_start as int + alen as int));
            assert(data@.skip(c1 as int).skip(c2 as int + alen as int)
                =~= data@.skip(addr_start as int + alen as int));
            assert(data@.skip(addr_start as int + alen as int).skip(2)
                =~= data@.skip(addr_start as int + alen as int + 2));
        }
        let server_address = copy_range(data, addr_start, addr_start + alen);
        let hi = data[addr_start + alen];
        let lo = data[addr_start + alen + 1];
        let server_port: u16 = (hi as u16) * 256 + (lo as u16);
        let (c4, next_state) = match read_var_int_from(data, addr_start + alen + 2) {
            Ok(ok) => ok,
            Err(_) => {
                return None;
            },
        };
        Some(Handshake { protocol_version: proto, server_address, server_port, next_state })
    }
}


/// Law: decoding an encoded handshake yields the handshake back, for every
/// address that fits a protocol string.
pub proof fn lemma_handshake_round_trip(proto: i32, addr: Seq<u8>, port: u16, next: i32)
    requires
        addr.len() <= 0x7fff_ffff,
    ensures
        handshake_decode(handshake_wire(proto, addr, port, next))
            == Some((proto, addr, port, next)),
{
    let ep = varint_encoding(u32_val(proto));
    let ea = varint_encoding(addr.len() as nat);
    let pb = seq![(port / 256) as u8, (port % 256) as u8];
    let en = varint_encoding(u32_val(next));
    let s = handshake_wire(proto, addr, port, next);
    let rest0 = ea + addr + pb + en;
    assert(s =~= ep + rest0);
    lemma_read_of_encoding(u32_val(proto), rest0);
    lemma_small_mod(u32_val(proto), 0x1_0000_0000);
    assert(to_i32_val(u32_val(proto) as int) == proto);
    let s1 = s.skip(ep.len() as int);
    assert(s1 =~= rest0);
    let rest1 = addr + pb + en;
    assert(rest0 =~= ea + rest1);
    lemma_read_of_encoding(addr.len() as nat, rest1);
    lemma_small_mod(addr.len() as nat, 0x1_0000_0000);
    assert(to_i32_val(addr.len() as int) == addr.len() as i32);
    assert(s1.subrange(ea.len() as int, ea.len() as int + addr.len() as int) =~= addr);
    let s2 = s1.skip(ea.len() as int + addr.len() as int);
    assert(s2 =~= pb + en);
    assert(s2[0] == (port / 256) as u8);
    assert(s2[1] == (port % 256) as u8);
    lemma_fundamental_div_mod(port as int, 256);
    assert((s2[0] as int) * 256 + (s2[1] as int) == port as int);
    assert(s2.skip(2) =~= en);
    lemma_read_of_encoding(u32_val(next), Seq::<u8>::empty());
    assert(en + Seq::<u8>::empty() =~= en);
    lemma_small_mod(u32_val(next), 0x1_0000_0000);
    assert(to_i32_val(u32_val(next) as int) == next);
}

} // verus!
