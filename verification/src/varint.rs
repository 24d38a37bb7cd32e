//! Minecraft VarInt codec: little-endian base-128 with a continuation bit in
//! bit 7 of each byte.  A 32-bit value takes at most 5 bytes on the wire.

use vstd::prelude::*;
use vstd::arithmetic::div_mod::lemma_fundamental_div_mod;

verus! {

/// Why a VarInt could not be read out of a buffer.
#[derive(Clone, Copy, PartialEq, Eq, Structural, Debug)]
pub enum VarIntError {
    /// The buffer holds only a proper prefix of an encoding; more bytes are
    /// needed before a value can be produced.
    Incomplete,
    /// Five continuation bytes in a row: no 32-bit VarInt is that long.
    Overflow,
}

/// The canonical wire bytes of `n`: base-128 digits, least significant first,
/// every byte but the last carrying the continuation bit.
pub open spec fn varint_encoding(n: nat) -> Seq<u8>
    decreases n,
{
    if n < 128 {
        seq![n as u8]
    } else {
        seq![((n % 128) + 128) as u8] + varint_encoding(n / 128)
    }
}

/// The unsigned 32-bit pattern that an `i32` is carried as on the wire.
pub open spec fn u32_val(n: i32) -> nat {
    if n >= 0 {
        n as nat
    } else {
        (n + 0x1_0000_0000) as nat
    }
}

/// The signed 32-bit value denoted by the (arbitrarily large) digit sum `v`:
/// reduce modulo 2^32, then read the top bit as the sign.
pub open spec fn to_i32_val(v: int) -> i32 {
    let m = v % 0x1_0000_0000;
    if m < 0x8000_0000 {
        m as i32
    } else {
        (m - 0x1_0000_0000) as i32
    }
}

/// Scan a VarInt at the front of `s`, with `depth` bytes of budget left.
/// Returns the count of bytes consumed and the raw (unreduced) digit sum.
pub open spec fn varint_scan(s: Seq<u8>, depth: int) -> Result<(int, int), VarIntError>
    decreases depth,
{
    if depth <= 0 {
        Err(VarIntError::Overflow)
    } else if s.len() == 0 {
        Err(VarIntError::Incomplete)
    } else if s[0] < 128 {
        Ok((1, s[0] as int))
    } else {
        match varint_scan(s.skip(1), depth - 1) {
            Ok((c, v)) => Ok((c + 1, (s[0] - 128) + 128 * v)),
            Err(e) => Err(e),
        }
    }
}

/// What reading a VarInt from the front of `s` yields: the count of bytes
/// consumed and the 32-bit value, or the reason none could be read.
pub open spec fn varint_read(s: Seq<u8>) -> Result<(int, i32), VarIntError> {
    match varint_scan(s, 5) {
        Ok((c, v)) => Ok((c, to_i32_val(v))),
        Err(e) => Err(e),
    }
}

/// 128^k, the place value of the k-th VarInt digit.
pub open spec fn pow128(k: int) -> int
    decreases k,
{
    if k <= 0 {
        1
    } else {
        128 * pow128(k - 1)
    }
}

pub proof fn lemma_pow128_pos(k: int)
    ensures
        pow128(k) >= 1,
    decreases k,
{
    if k > 0 {
        lemma_pow128_pos(k - 1);
    }
}

pub proof fn lemma_pow128_mono(a: int, b: int)
    requires
        a <= b,
    ensures
        pow128(a) <= pow128(b),
    decreases b - a,
{
    if a < b {
        lemma_pow128_mono(a, b - 1);
        lemma_pow128_pos(b - 1);
    }
}

/// The concrete powers that bound a 5-byte scan.
pub proof fn lemma_pow128_concrete()
    ensures
        pow128(4) == 0x1000_0000,
        pow128(5) == 0x8_0000_0000,
{
    assert(pow128(0) == 1);
    assert(pow128(1) == 128);
    assert(pow128(2) == 16384);
    assert(pow128(3) == 0x20_0000);
    assert(pow128(4) == 0x1000_0000);
    assert(pow128(5) == 0x8_0000_0000);
}

/// A value below 128^k encodes in at most k bytes.
pub proof fn lemma_varint_len_bound(n: nat, k: int)
    requires
        1 <= k,
        n < pow128(k),
    ensures
        1 <= varint_encoding(n).len() <= k,
    decreases n,
{
    if n >= 128 {
        lemma_fundamental_div_mod(n as int, 128);
        assert(pow128(k) == 128 * pow128(k - 1));
        assert(((n / 128) as int) < pow128(k - 1));
        lemma_varint_len_bound(n / 128, k - 1);
    }
}

/// An encoding is 1 to 5 bytes long for any value below 2^32.
pub proof fn lemma_varint_len(n: nat)
    requires
        n < 0x1_0000_0000,
    ensures
        1 <= varint_encoding(n).len() <= 5,
{
    lemma_pow128_concrete();
    lemma_varint_len_bound(n, 5);
}

/// Scanning the encoding of `n` (with anything after it) consumes exactly the
/// encoding and yields the digit sum `n`, given enough depth budget.
pub proof fn lemma_scan_of_encoding(n: nat, rest: Seq<u8>, depth: int)
    requires
        varint_encoding(n).len() <= depth,
    ensures
        varint_scan(varint_encoding(n) + rest, depth)
            == Ok::<(int, int), VarIntError>((varint_encoding(n).len() as int, n as int)),
    decreases n,
{
    let e = varint_encoding(n);
    let s = e + rest;
    if n < 128 {
        assert(s[0] == n as u8);
    } else {
        let tail = varint_encoding(n / 128);
        assert(e == seq![((n % 128) + 128) as u8] + tail);
        assert(s[0] == ((n % 128) + 128) as u8);
        assert(s.skip(1) =~= tail + rest);
        lemma_scan_of_encoding(n / 128, rest, depth - 1);
        lemma_fundamental_div_mod(n as int, 128);
    }
}

/// Reading the encoding of a 32-bit pattern (with anything after it) yields
/// the encoding's length and the corresponding signed value.
pub proof fn lemma_read_of_encoding(n: nat, rest: Seq<u8>)
    requires
        n < 0x1_0000_0000,
    ensures
        varint_read(varint_encoding(n) + rest)
            == Ok::<(int, i32), VarIntError>((varint_encoding(n).len() as int, to_i32_val(n as int))),
{
    lemma_varint_len(n);
    lemma_scan_of_encoding(n, rest, 5);
}

/// Law: for every 32-bit integer `n`, reading back the bytes written for `n`
/// consumes the whole encoding and returns `n` itself.
pub proof fn lemma_var_int_round_trip(n: i32)
    ensures
        varint_read(varint_encoding(u32_val(n)))
            == Ok::<(int, i32), VarIntError>((varint_encoding(u32_val(n)).len() as int, n)),
{
    let u = u32_val(n);
    lemma_read_of_encoding(u, Seq::<u8>::empty());
    assert(varint_encoding(u) + Seq::<u8>::empty() =~= varint_encoding(u));
    assert(to_i32_val(u as int) == n);
}

/// Read a VarInt from the front of `buf`.
///
/// On success returns the count of bytes consumed (1 to 5) and the decoded
/// 32-bit value; `Incomplete` when the buffer ends inside an encoding,
/// `Overflow` when five continuation bytes appear in a row.
pub fn read_var_int(buf: &[u8]) -> (r: Result<(usize, i32), VarIntError>)
    ensures
        match r {
            Ok((consumed, value)) => {
                &&& 1 <= consumed <= 5
                &&& consumed <= buf@.len()
                &&& varint_read(buf@) == Ok::<(int, i32), VarIntError>((consumed as int, value))
            },
            Err(e) => varint_read(buf@) == Err::<(int, i32), VarIntError>(e),
        },
{
    proof {
        assert(buf@.skip(0) =~= buf@);
    }
    read_var_int_from(buf, 0)
}

/// Read a VarInt out of `buf` starting at position `from`; the contract
/// speaks of the suffix `buf[from..]`.
pub fn read_var_int_from(buf: &[u8], from: usize) -> (r: Result<(usize, i32), VarIntError>)
    requires
        from <= buf@.len(),
    ensures
        match r {
            Ok((consumed, value)) => {
                &&& 1 <= consumed <= 5
                &&& from + consumed <= buf@.len()
                &&& varint_read(buf@.skip(from as int))
                    == Ok::<(int, i32), VarIntError>((consumed as int, value))
            },
            Err(e) => varint_read(buf@.skip(from as int)) == Err::<(int, i32), VarIntError>(e),
        },
{
    let ghost s = buf@.skip(from as int);
    let mut i: usize = 0;
    let mut acc: u64 = 0;
    let mut mult: u64 = 1;
    proof {
        assert(s.skip(0) =~= s);
    }
    while i < 5
        invariant
            i <= 5,
            from + i <= buf@.len(),
            s == buf@.skip(from as int),
            mult == pow128(i as int),
            acc < mult,
            match varint_scan(s.skip(i as int), 5 - i as int) {
                Ok((c, v)) => varint_scan(s, 5) == Ok::<(int, int), VarIntError>((
                    c + i,
                    acc + mult * v,
                )),
                Err(e) => varint_scan(s, 5) == Err::<(int, int), VarIntError>(e),
            },
        decreases 5 - i,
    {
        proof {
            lemma_pow128_concrete();
            lemma_pow128_mono(i as int, 4);
        }
        if i >= buf.len() - from {
            return Err(VarIntError::Incomplete);
        }
        let b = buf[from + i];
        if b < 128 {
            proof {
                assert(s.skip(i as int)[0] == s[i as int]);
                assert(s[i as int] == buf@[from + i]);
                assert(mult * (b as int) <= mult * 127) by (nonlinear_arith)
                    requires
                        b < 128,
                        mult >= 0,
                ;
            }
            let raw: u64 = acc + mult * (b as u64);
            let m: u64 = raw % 0x1_0000_0000;
            let value: i32 = if m < 0x8000_0000 {
                m as i32
            } else {
                ((m as i64) - 0x1_0000_0000i64) as i32
            };
            return Ok((i + 1, value));
        }
        proof {
            assert(s.skip(i as int)[0] == s[i as int]);
            assert(s[i as int] == buf@[from + i]);
            assert(s.skip(i as int).skip(1) =~= s.skip(i as int + 1));
            assert(mult * ((b - 128) as int) <= mult * 127) by (nonlinear_arith)
                requires
                    b < 256,
                    mult >= 0,
            ;
            let tail_scan = varint_scan(s.skip(i as int + 1), 5 - (i as int + 1));
            match tail_scan {
                Ok((c, v)) => {
                    assert(mult * ((s[i as int] - 128) + 128 * v)
                        == mult * ((s[i as int] - 128) as int) + (128 * mult) * v)
                        by (nonlinear_arith);
                }
                Err(_) => {}
            }
        }
        acc = acc + mult * ((b - 128) as u64);
        mult = mult * 128;
        i = i + 1;
    }
    Err(VarIntError::Overflow)
}

/// Write `n` as a VarInt: 1 to 5 bytes, no superfluous trailing zero digits.
pub fn write_var_int(n: i32) -> (r: Vec<u8>)
    ensures
        r@ == varint_encoding(u32_val(n)),
        1 <= r@.len() <= 5,
{
    let mut x: u32 = if n >= 0 {
        n as u32
    } else {
        ((n as i64) + 0x1_0000_0000i64) as u32
    };
    proof {
        assert(x as nat == u32_val(n));
        lemma_varint_len(u32_val(n));
    }
    let mut out: Vec<u8> = Vec::new();
    while x >= 128
        invariant
            varint_encoding(u32_val(n)) == out@ + varint_encoding(x as nat),
        decreases x,
    {
        let ghost out_before = out@;
        let ghost x_before = x as nat;
        out.push((x % 128 + 128) as u8);
        proof {
            lemma_fundamental_div_mod(x as int, 128);
            assert(varint_encoding(x_before)
                == seq![((x_before % 128) + 128) as u8] + varint_encoding(x_before / 128));
            assert(out@ + varint_encoding(x_before / 128)
                =~= out_before + varint_encoding(x_before));
        }
        x = x / 128;
    }
    out.push(x as u8);
    proof {
        assert(varint_encoding(x as nat) =~= seq![x as u8]);
        assert(out@ =~= varint_encoding(u32_val(n)));
    }
    out
}

} // verus!
