//! The VarInt wire format: a signed 32-bit integer carried in one to
//! five bytes, seven data bits per byte, least-significant group first,
//! with the high bit of each byte marking a continuation.

use vstd::prelude::*;

use crate::error::CodecError;

verus! {

/// A decoded VarInt: the value and the number of bytes its encoding
/// occupied on the wire.
#[derive(Debug)]
pub struct VarInt {
    pub value: i32,
    pub length: i32,
}

/// The two's-complement reinterpretation of an `i32` as an unsigned value.
pub open spec fn u32_of_i32(n: i32) -> u32 {
    if n >= 0 {
        n as u32
    } else {
        (n + 0x1_0000_0000) as u32
    }
}

/// The signed value carried by the low 32 bits of `n`.
pub open spec fn wrap_i32(n: int) -> int {
    let m = n % 0x1_0000_0000;
    if m >= 0x8000_0000 {
        m - 0x1_0000_0000
    } else {
        m
    }
}

/// Little-endian base-128 groups of `n`, the continuation bit set on
/// every byte but the last.
pub open spec fn varint_bytes_u(n: u32) -> Seq<u8>
    decreases n,
{
    if n < 128 {
        seq![n as u8]
    } else {
        seq![(n % 128 + 128) as u8] + varint_bytes_u(n / 128)
    }
}

/// The wire encoding of a signed 32-bit VarInt.
pub open spec fn varint_bytes(n: i32) -> Seq<u8> {
    varint_bytes_u(u32_of_i32(n))
}

pub open spec fn pow128(k: nat) -> nat
    decreases k,
{
    if k == 0 {
        1
    } else {
        128 * pow128((k - 1) as nat)
    }
}

/// The value carried by the first `k` groups of `bytes`, continuation
/// bits ignored.
pub open spec fn varint_sum(bytes: Seq<u8>, k: int) -> nat
    decreases k,
{
    if k <= 0 {
        0
    } else {
        varint_sum(bytes, k - 1) + ((bytes[k - 1] % 128) as nat) * pow128((k - 1) as nat)
    }
}

/// Where a VarInt encoding beginning at group `k` of `bytes` ends.
pub enum VarIntScan {
    /// The final group sits at this index.
    End(int),
    /// A sixth byte was demanded by a fifth continuation bit.
    TooLong,
    /// The bytes ran out mid-encoding.
    NeedMore,
}

pub open spec fn varint_scan_from(bytes: Seq<u8>, k: int) -> VarIntScan
    decreases 5 - k,
{
    if k < 0 {
        VarIntScan::NeedMore
    } else if k >= bytes.len() {
        VarIntScan::NeedMore
    } else if k >= 5 {
        VarIntScan::TooLong
    } else if bytes[k] < 128 {
        VarIntScan::End(k)
    } else {
        varint_scan_from(bytes, k + 1)
    }
}

/// Outcome of decoding a VarInt from the front of a byte sequence.
pub enum VarIntDecode {
    /// The decoded value and the number of bytes consumed.
    Done { value: int, length: int },
    /// A sixth byte was demanded by a fifth continuation bit.
    TooLong,
    /// The bytes end before the encoding does.
    NeedMore,
}

/// What decoding a VarInt from the front of `bytes` yields.
pub open spec fn varint_decode(bytes: Seq<u8>) -> VarIntDecode {
    match varint_scan_from(bytes, 0) {
        VarIntScan::End(e) => VarIntDecode::Done {
            value: wrap_i32(varint_sum(bytes, e + 1) as int),
            length: e + 1,
        },
        VarIntScan::TooLong => VarIntDecode::TooLong,
        VarIntScan::NeedMore => VarIntDecode::NeedMore,
    }
}

proof fn lemma_pow128_bounds()
    ensures
        pow128(0) == 1,
        pow128(1) == 128,
        pow128(2) == 0x4000,
        pow128(3) == 0x20_0000,
        pow128(4) == 0x1000_0000,
        pow128(5) == 0x8_0000_0000,
{
    reveal_with_fuel(pow128, 6);
}

proof fn lemma_pow128_at_most(k: nat)
    requires
        k <= 5,
    ensures
        pow128(k) <= 0x8_0000_0000,
        k <= 4 ==> pow128(k) <= 0x1000_0000,
{
    lemma_pow128_bounds();
    if k == 0 {
    } else if k == 1 {
    } else if k == 2 {
    } else if k == 3 {
    } else if k == 4 {
    } else {
        assert(k == 5);
    }
}

proof fn lemma_varint_sum_bound(bytes: Seq<u8>, k: int)
    requires
        0 <= k,
    ensures
        varint_sum(bytes, k) < pow128(k as nat),
    decreases k,
{
    if k == 0 {
    } else {
        lemma_varint_sum_bound(bytes, k - 1);
        let g = (bytes[k - 1] % 128) as nat;
        let p = pow128((k - 1) as nat);
        assert(g * p <= 127 * p) by (nonlinear_arith)
            requires
                g < 128,
                p >= 0,
        ;
        assert(pow128(k as nat) == 128 * pow128((k - 1) as nat));
    }
}

/// Emit the VarInt encoding of `value`.
pub fn write_varint(value: i32) -> (r: Vec<u8>)
    ensures
        r@ == varint_bytes(value),
        1 <= r@.len() <= 5,
{
    proof {
        lemma_varint_bytes_u_len(u32_of_i32(value));
    }
    let mut v: u32 = u32_from_i32(value);
    let ghost v0: u32 = v;
    let mut buf: Vec<u8> = Vec::new();
    proof {
        assert(varint_bytes_u(v0) =~= buf@ + varint_bytes_u(v));
    }
    loop
        invariant
            v0 == u32_of_i32(value),
            varint_bytes_u(v0) == buf@ + varint_bytes_u(v),
        decreases v,
    {
        let ghost prev: Seq<u8> = buf@;
        let group: u8 = (v % 128) as u8;
        let rest: u32 = v / 128;
        if rest != 0 {
            buf.push(group + 128);
            proof {
                assert(v >= 128);
                assert(varint_bytes_u(v) == seq![(v % 128 + 128) as u8] + varint_bytes_u(rest));
                assert(varint_bytes_u(v0) =~= buf@ + varint_bytes_u(rest));
            }
            v = rest;
        } else {
            buf.push(group);
            proof {
                assert(v < 128);
                assert(varint_bytes_u(v) == seq![v as u8]);
                assert(buf@ =~= varint_bytes_u(v0));
                lemma_varint_bytes_u_len(v0);
            }
            return buf;
        }
    }
}

/// The two's-complement reinterpretation, executably.
fn u32_from_i32(n: i32) -> (r: u32)
    ensures
        r == u32_of_i32(n),
{
    if n >= 0 {
        n as u32
    } else {
        ((n as i64) + 0x1_0000_0000) as u32
    }
}

/// How many bytes the encoding of `n` occupies, by the magnitude of `n`.
pub proof fn lemma_varint_bytes_u_len(n: u32)
    ensures
        n < 0x80 ==> varint_bytes_u(n).len() == 1,
        0x80 <= n < 0x4000 ==> varint_bytes_u(n).len() == 2,
        0x4000 <= n < 0x20_0000 ==> varint_bytes_u(n).len() == 3,
        0x20_0000 <= n < 0x1000_0000 ==> varint_bytes_u(n).len() == 4,
        0x1000_0000 <= n ==> varint_bytes_u(n).len() == 5,
        1 <= varint_bytes_u(n).len() <= 5,
    decreases n,
{
    if n < 128 {
    } else {
        lemma_varint_bytes_u_len(n / 128);
    }
}

/// Boundary lengths for the signed encoding: small non-negative values
/// take one byte, each 7-bit step adds one, and every negative value
/// (including `i32::MIN`) takes the full five bytes.
pub proof fn lemma_varint_boundary_lengths(n: i32)
    ensures
        0 <= n < 0x80 ==> varint_bytes(n).len() == 1,
        0x80 <= n < 0x4000 ==> varint_bytes(n).len() == 2,
        0x4000 <= n < 0x20_0000 ==> varint_bytes(n).len() == 3,
        0x20_0000 <= n < 0x1000_0000 ==> varint_bytes(n).len() == 4,
        0x1000_0000 <= n ==> varint_bytes(n).len() == 5,
        n < 0 ==> varint_bytes(n).len() == 5,
        1 <= varint_bytes(n).len() <= 5,
{
    lemma_varint_bytes_u_len(u32_of_i32(n));
}

/// Read a VarInt from `data` beginning at `start`.
///
/// The result mirrors `varint_decode` on the bytes from `start` on:
/// the exact value and length on success, `MalformedVarInt` when a
/// sixth byte would be needed, and `Incomplete` when the buffer ends
/// mid-encoding.
pub fn read_varint(data: &[u8], start: usize) -> (r: Result<VarInt, CodecError>)
    requires
        start <= data@.len(),
    ensures
        match r {
            Ok(v) => {
                &&& varint_decode(data@.skip(start as int)) == (VarIntDecode::Done {
                    value: v.value as int,
                    length: v.length as int,
                })
                &&& 1 <= v.length <= 5
                &&& start + v.length <= data@.len()
            },
            Err(CodecError::MalformedVarInt) => varint_decode(data@.skip(start as int))
                is TooLong,
            Err(CodecError::Incomplete) => varint_decode(data@.skip(start as int)) is NeedMore,
            Err(_) => false,
        },
{
    let ghost s: Seq<u8> = data@.skip(start as int);
    let mut k: usize = 0;
    let mut acc: u64 = 0;
    let mut mult: u64 = 1;
    proof {
        lemma_pow128_bounds();
    }
    loop
        invariant
            start <= data@.len(),
            s == data@.skip(start as int),
            k <= 5,
            start + k <= data@.len(),
            mult == pow128(k as nat),
            acc == varint_sum(s, k as int),
            varint_scan_from(s, 0) == varint_scan_from(s, k as int),
        decreases 6 - k,
    {
        proof {
            lemma_pow128_bounds();
            lemma_pow128_at_most(k as nat);
            lemma_varint_sum_bound(s, k as int);
        }
        if data.len() - start <= k {
            assert(varint_scan_from(s, k as int) is NeedMore);
            return Err(CodecError::Incomplete);
        }
        if k >= 5 {
            assert(varint_scan_from(s, k as int) is TooLong);
            return Err(CodecError::MalformedVarInt);
        }
        let b: u8 = data[start + k];
        assert(b == s[k as int]);
        proof {
            let g: u64 = (b % 128) as u64;
            assert(g * mult <= 127 * mult) by (nonlinear_arith)
                requires
                    g <= 127,
                    mult >= 0,
            ;
        }
        acc = acc + ((b % 128) as u64) * mult;
        assert(acc == varint_sum(s, k as int + 1));
        if b < 128 {
            assert(varint_scan_from(s, k as int) == VarIntScan::End(k as int));
            proof {
                lemma_varint_sum_bound(s, k as int + 1);
                lemma_pow128_at_most((k + 1) as nat);
                assert(acc < 0x8_0000_0000);
            }
            let low: u64 = acc % 0x1_0000_0000;
            let value: i32 = if low >= 0x8000_0000 {
                ((low as i64) - 0x1_0000_0000) as i32
            } else {
                low as i32
            };
            assert(value as int == wrap_i32(acc as int));
            return Ok(VarInt { value, length: (k + 1) as i32 });
        }
        proof {
            assert(varint_scan_from(s, k as int) == varint_scan_from(s, k as int + 1));
        }
        k = k + 1;
        mult = mult * 128;
    }
}

/// Prefixing one continuation byte shifts a successful scan by one.
proof fn lemma_scan_shift_end(c: u8, tail: Seq<u8>, k: int, e: int)
    requires
        0 <= k <= 3,
        e <= 3,
        c >= 128,
        varint_scan_from(tail, k) == VarIntScan::End(e),
    ensures
        varint_scan_from(seq![c] + tail, k + 1) == VarIntScan::End(e + 1),
    decreases 5 - k,
{
    let s = seq![c] + tail;
    assert(s.len() == 1 + tail.len());
    assert(k < tail.len());
    assert(s[k + 1] == tail[k]);
    if tail[k] < 128 {
        assert(e == k);
    } else {
        assert(varint_scan_from(tail, k + 1) == VarIntScan::End(e));
        assert(k + 1 <= 3) by {
            if k + 1 == 4 {
                if tail.len() <= 4 {
                    assert(!(varint_scan_from(tail, 4) is End));
                } else if tail[4] < 128 {
                    assert(varint_scan_from(tail, 4) == VarIntScan::End(4));
                } else {
                    assert(varint_scan_from(tail, 4) == varint_scan_from(tail, 5));
                    assert(!(varint_scan_from(tail, 5) is End));
                }
            }
        }
        lemma_scan_shift_end(c, tail, k + 1, e);
    }
}

proof fn lemma_sum_shift(c: u8, tail: Seq<u8>, k: int)
    requires
        0 <= k <= tail.len(),
    ensures
        varint_sum(seq![c] + tail, k + 1) == ((c % 128) as nat) + 128 * varint_sum(tail, k),
    decreases k,
{
    let s = seq![c] + tail;
    if k == 0 {
        assert(varint_sum(s, 1) == varint_sum(s, 0) + ((s[0] % 128) as nat) * pow128(0));
        assert(s[0] == c);
        assert(pow128(0) == 1);
        assert(varint_sum(s, 0) == 0);
        assert(varint_sum(tail, 0) == 0);
        assert(((c % 128) as nat) * 1 == ((c % 128) as nat));
        assert(varint_sum(s, 1) == ((c % 128) as nat) + 128 * varint_sum(tail, 0));
    } else {
        lemma_sum_shift(c, tail, k - 1);
        assert(s[k] == tail[k - 1]);
        assert(varint_sum(s, k + 1) == varint_sum(s, k) + ((s[k] % 128) as nat) * pow128(k as nat));
        assert(varint_sum(tail, k) == varint_sum(tail, k - 1) + ((tail[k - 1] % 128) as nat)
            * pow128((k - 1) as nat));
        assert(pow128(k as nat) == 128 * pow128((k - 1) as nat));
        let g = (tail[k - 1] % 128) as nat;
        let p = pow128((k - 1) as nat);
        assert(g * (128 * p) == 128 * (g * p)) by (nonlinear_arith);
        assert(varint_sum(s, k + 1) == ((c % 128) as nat) + 128 * varint_sum(tail, k - 1) + g * (
        128 * p));
        assert(varint_sum(s, k + 1) == ((c % 128) as nat) + 128 * (varint_sum(tail, k - 1) + g
            * p));
        assert(varint_sum(s, k + 1) == ((c % 128) as nat) + 128 * varint_sum(tail, k));
    }
}

proof fn lemma_varint_round_trip_u(m: u32, rest: Seq<u8>)
    ensures
        varint_scan_from(varint_bytes_u(m) + rest, 0) == VarIntScan::End(
            varint_bytes_u(m).len() - 1,
        ),
        varint_sum(varint_bytes_u(m) + rest, varint_bytes_u(m).len() as int) == m,
    decreases m,
{
    lemma_varint_bytes_u_len(m);
    let g = varint_bytes_u(m);
    let s = g + rest;
    if m < 128 {
        assert(g == seq![m as u8]);
        assert(s[0] == m as u8);
        assert(varint_sum(s, 1) == varint_sum(s, 0) + ((s[0] % 128) as nat) * pow128(0));
        assert(varint_sum(s, 0) == 0);
        assert(pow128(0) == 1);
        assert(s[0] % 128 == m as u8);
        let d = (s[0] % 128) as nat;
        assert(d * pow128(0) == d * 1);
        assert(d * 1 == d) by (nonlinear_arith);
        assert(varint_sum(s, 1) == m);
        assert(varint_scan_from(s, 0) == VarIntScan::End(0));
    } else {
        let c: u8 = (m % 128 + 128) as u8;
        let g2 = varint_bytes_u(m / 128);
        assert(g == seq![c] + g2);
        lemma_varint_round_trip_u(m / 128, rest);
        assert(s =~= seq![c] + (g2 + rest));
        lemma_varint_bytes_u_len(m / 128);
        assert(g2.len() <= (g2 + rest).len());
        lemma_scan_shift_end(c, g2 + rest, 0, g2.len() as int - 1);
        lemma_sum_shift(c, g2 + rest, g2.len() as int);
        assert(s[0] == c);
        assert(c >= 128);
        assert(varint_scan_from(s, 0) == varint_scan_from(s, 1));
        assert(varint_scan_from(s, 1) == VarIntScan::End(g2.len() as int));
        assert(varint_sum(s, g.len() as int) == ((c % 128) as nat) + 128 * varint_sum(
            g2 + rest,
            g2.len() as int,
        ));
        assert(varint_sum(g2 + rest, g2.len() as int) == (m / 128));
        assert(c % 128 == m % 128);
        assert(((m % 128) as nat) + 128 * ((m / 128) as nat) == m);
        assert(varint_sum(s, g.len() as int) == m);
    }
}

/// VarInt round trip: decoding an encoded value, with anything at all
/// after it in the buffer, yields exactly that value and its encoded
/// length, which never exceeds five bytes.
pub proof fn lemma_varint_round_trip(n: i32, rest: Seq<u8>)
    ensures
        varint_decode(varint_bytes(n) + rest) == (VarIntDecode::Done {
            value: n as int,
            length: varint_bytes(n).len() as int,
        }),
        1 <= varint_bytes(n).len() <= 5,
{
    let m = u32_of_i32(n);
    lemma_varint_round_trip_u(m, rest);
    lemma_varint_bytes_u_len(m);
}

} // verus!
