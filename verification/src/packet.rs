//! Length-delimited Minecraft packet framing.
//!
//! Wire form of a packet: `VarInt(total_len) ‖ VarInt(id) ‖ data`, where
//! `total_len` counts the bytes of `VarInt(id) ‖ data`.

use vstd::prelude::*;
use vstd::arithmetic::div_mod::lemma_small_mod;
use crate::varint::{
    lemma_read_of_encoding, lemma_varint_len, read_var_int, read_var_int_from, to_i32_val,
    u32_val, varint_encoding, varint_read, write_var_int, VarIntError,
};
use crate::util::{copy_range, push_all};

verus! {

/// A framed packet: its id and its payload bytes.
#[derive(Debug, PartialEq, Eq)]
pub struct RawPacket {
    pub id: i32,
    pub data: Vec<u8>,
}

/// The wire bytes of a packet with the given id and payload.
pub open spec fn packet_wire(id: i32, data: Seq<u8>) -> Seq<u8> {
    let body = varint_encoding(u32_val(id)) + data;
    varint_encoding(body.len() as nat) + body
}

/// What decoding an exact frame yields: the id and the payload, or nothing
/// when the frame is malformed (bad length VarInt, length mismatch, bad id).
pub open spec fn packet_decode(s: Seq<u8>) -> Option<(i32, Seq<u8>)> {
    match varint_read(s) {
        Ok((c, len)) => if len >= 0 && s.len() == c + len {
            match varint_read(s.skip(c)) {
                Ok((c2, id)) => if c2 <= len {
                    Some((id, s.subrange(c + c2, s.len() as int)))
                } else {
                    None
                },
                Err(_) => None,
            }
        } else {
            None
        },
        Err(_) => None,
    }
}

impl RawPacket {
    /// Pack an id and a payload into a packet value.
    pub fn new(id: i32, data: Vec<u8>) -> (r: Self)
        ensures
            r.id == id,
            r.data == data,
    {
        RawPacket { id, data }
    }

    /// Emit the packet's wire bytes.
    pub fn encode(&self) -> (r: Vec<u8>)
        requires
            0 <= self.id,
            self.data@.len() + 5 <= 0x7fff_ffff,
        ensures
            r@ == packet_wire(self.id, self.data@),
    {
        let id_bytes = write_var_int(self.id);
        let total: usize = id_bytes.len() + self.data.len();
        let mut out = write_var_int(total as i32);
        push_all(&mut out, id_bytes.as_slice());
        push_all(&mut out, self.data.as_slice());
        proof {
            let body = varint_encoding(u32_val(self.id)) + self.data@;
            assert(u32_val(total as i32) == body.len() as nat);
            assert(out@ =~= varint_encoding(body.len() as nat) + body);
        }
        out
    }

    /// Decode one exact frame, as split off the stream by the framer.
    pub fn decode(raw: &[u8]) -> (r: Option<RawPacket>)
        ensures
            match r {
                Some(p) => packet_decode(raw@) == Some((p.id, p.data@)),
                None => packet_decode(raw@) is None,
            },
    {
        let (c, len) = match read_var_int(raw) {
            Ok(ok) => ok,
            Err(_) => {
                return None;
            },
        };
        if len < 0 {
            return None;
        }
        if (raw.len() as u64) != c as u64 + len as u64 {
            return None;
        }
        let (c2, id) = match read_var_int_from(raw, c) {
            Ok(ok) => ok,
            Err(_) => {
                return None;
            },
        };
        if (c2 as u64) > (len as u64) {
            return None;
        }
        let data = copy_range(raw, c + c2, raw.len());
        Some(RawPacket { id, data })
    }
}

/// Law: for every packet with id in [0, 2^31) whose payload leaves room for
/// the frame header, decoding the encoded frame yields the packet back.
pub proof fn lemma_raw_packet_round_trip(id: i32, data: Seq<u8>)
    requires
        0 <= id,
        data.len() + 5 <= 0x7fff_ffff,
    ensures
        packet_decode(packet_wire(id, data)) == Some((id, data)),
{
    let idb = varint_encoding(u32_val(id));
    let body = idb + data;
    let lenb = varint_encoding(body.len() as nat);
    let s = packet_wire(id, data);
    lemma_varint_len(u32_val(id));
    lemma_read_of_encoding(body.len() as nat, body);
    lemma_small_mod(body.len() as nat, 0x1_0000_0000);
    assert(to_i32_val(body.len() as int) == body.len() as i32);
    assert(varint_read(s) == Ok::<(int, i32), VarIntError>((
        lenb.len() as int,
        body.len() as i32,
    )));
    assert(s.skip(lenb.len() as int) =~= body);
    lemma_read_of_encoding(u32_val(id), data);
    lemma_small_mod(u32_val(id), 0x1_0000_0000);
    assert(to_i32_val(u32_val(id) as int) == id);
    assert(varint_read(body) == Ok::<(int, i32), VarIntError>((idb.len() as int, id)));
    assert(s.subrange(lenb.len() as int + idb.len() as int, s.len() as int) =~= data);
}

/// What the framer decided about the bytes buffered so far.
#[derive(Debug, Clone, Copy, PartialEq, Eq)]
pub enum FrameStatus {
    /// Not enough bytes buffered yet to split off a frame.
    NeedMore,
    /// A full frame of this many bytes sits at the front of the buffer.
    Ready(usize),
    /// The length prefix is malformed; the connection must be closed.
    Malformed,
}

/// Decide whether `buf` starts with a complete frame.
///
/// Mirrors the stream framer: fewer than 2 buffered bytes are never inspected;
/// an incomplete length prefix or a short buffer asks for more bytes; an
/// overlong or negative length prefix is malformed.
pub fn check_frame(buf: &[u8]) -> (r: FrameStatus)
    ensures
        buf@.len() < 2 ==> r == FrameStatus::NeedMore,
        buf@.len() >= 2 ==> match varint_read(buf@) {
            Ok((c, len)) => if len < 0 {
                r == FrameStatus::Malformed
            } else if buf@.len() < c + len {
                r == FrameStatus::NeedMore
            } else {
                r == FrameStatus::Ready((c + len) as usize)
            },
            Err(VarIntError::Incomplete) => r == FrameStatus::NeedMore,
            Err(VarIntError::Overflow) => r == FrameStatus::Malformed,
        },
{
    if buf.len() < 2 {
        return FrameStatus::NeedMore;
    }
    match read_var_int(buf) {
        Ok((c, len)) => {
            if len < 0 {
                FrameStatus::Malformed
            } else if (buf.len() as u64) < c as u64 + len as u64 {
                FrameStatus::NeedMore
            } else {
                FrameStatus::Ready(c + (len as usize))
            }
        },
        Err(VarIntError::Incomplete) => FrameStatus::NeedMore,
        Err(VarIntError::Overflow) => FrameStatus::Malformed,
    }
}

} // verus!
