//! Fixed-width integer fields of the wire protocol, all big-endian:
//! the handshake port (`u16`), the ping payload (`i64`) and the login
//! uuid (`u128`).

use vstd::prelude::*;

verus! {

/// Big-endian bytes of a `u16`.
pub open spec fn be16_bytes(v: u16) -> Seq<u8> {
    seq![(v / 0x100) as u8, (v % 0x100) as u8]
}

/// The `u16` carried by two big-endian bytes.
pub open spec fn u16_of_be(b0: u8, b1: u8) -> u16 {
    (b0 * 0x100 + b1) as u16
}

/// Big-endian bytes of a `u64`.
pub open spec fn be64_bytes(v: u64) -> Seq<u8> {
    seq![
        ((v / 0x100_0000_0000_0000) % 0x100) as u8,
        ((v / 0x1_0000_0000_0000) % 0x100) as u8,
        ((v / 0x100_0000_0000) % 0x100) as u8,
        ((v / 0x1_0000_0000) % 0x100) as u8,
        ((v / 0x100_0000) % 0x100) as u8,
        ((v / 0x1_0000) % 0x100) as u8,
        ((v / 0x100) % 0x100) as u8,
        (v % 0x100) as u8,
    ]
}

/// The `u64` carried by eight big-endian bytes.
pub open spec fn u64_of_be(b: Seq<u8>) -> u64
    recommends
        b.len() == 8,
{
    (b[0] * 0x100_0000_0000_0000 + b[1] * 0x1_0000_0000_0000 + b[2] * 0x100_0000_0000 + b[3]
        * 0x1_0000_0000 + b[4] * 0x100_0000 + b[5] * 0x1_0000 + b[6] * 0x100 + b[7]) as u64
}

/// The two's-complement reinterpretations between `i64` and `u64`.
pub open spec fn u64_of_i64(v: i64) -> u64 {
    if v >= 0 {
        v as u64
    } else {
        (v + 0x1_0000_0000_0000_0000) as u64
    }
}

pub open spec fn i64_of_u64(v: u64) -> i64 {
    if v >= 0x8000_0000_0000_0000 {
        (v - 0x1_0000_0000_0000_0000) as i64
    } else {
        v as i64
    }
}

/// Big-endian bytes of an `i64`, as the protocol sends ping payloads.
pub open spec fn be64_bytes_i(v: i64) -> Seq<u8> {
    be64_bytes(u64_of_i64(v))
}

/// The `i64` carried by eight big-endian bytes.
pub open spec fn i64_of_be(b: Seq<u8>) -> i64
    recommends
        b.len() == 8,
{
    i64_of_u64(u64_of_be(b))
}

/// The `u128` carried by sixteen big-endian bytes.
pub open spec fn u128_of_be(b: Seq<u8>) -> u128
    recommends
        b.len() == 16,
{
    (u64_of_be(b.take(8)) * 0x1_0000_0000_0000_0000 + u64_of_be(b.skip(8))) as u128
}

/// Append the big-endian bytes of `v` to `out`.
pub fn push_u16_be(out: &mut Vec<u8>, v: u16)
    ensures
        final(out)@ == old(out)@ + be16_bytes(v),
{
    out.push((v / 0x100) as u8);
    out.push((v % 0x100) as u8);
    proof {
        assert(out@ =~= old(out)@ + be16_bytes(v));
    }
}

/// Read a big-endian `u16` at `at`.
pub fn read_u16_be(data: &[u8], at: usize) -> (r: u16)
    requires
        at + 2 <= data@.len(),
    ensures
        r == u16_of_be(data@[at as int], data@[at as int + 1]),
{
    let b0 = data[at];
    let b1 = data[at + 1];
    (b0 as u16) * 0x100 + (b1 as u16)
}

/// `u16` big-endian round trip, in both directions.
pub proof fn lemma_u16_be_round_trip(v: u16, b0: u8, b1: u8)
    ensures
        u16_of_be(be16_bytes(v)[0], be16_bytes(v)[1]) == v,
        be16_bytes(u16_of_be(b0, b1)) == seq![b0, b1],
{
    assert((v / 0x100) * 0x100 + v % 0x100 == v) by (bit_vector);
    assert((b0 * 0x100 + b1) / 0x100 == b0 && (b0 * 0x100 + b1) % 0x100 == b1) by {
        let s: u16 = ((b0 as int) * 0x100 + (b1 as int)) as u16;
        assert(s / 0x100 == b0 as u16 && s % 0x100 == b1 as u16) by (bit_vector)
            requires
                s == (b0 as u16) * 0x100 + (b1 as u16),
        ;
    }
    assert(be16_bytes(u16_of_be(b0, b1)) =~= seq![b0, b1]);
}

/// Append the big-endian bytes of `v` to `out`.
pub fn push_u64_be(out: &mut Vec<u8>, v: u64)
    ensures
        final(out)@ == old(out)@ + be64_bytes(v),
{
    out.push(((v / 0x100_0000_0000_0000) % 0x100) as u8);
    out.push(((v / 0x1_0000_0000_0000) % 0x100) as u8);
    out.push(((v / 0x100_0000_0000) % 0x100) as u8);
    out.push(((v / 0x1_0000_0000) % 0x100) as u8);
    out.push(((v / 0x100_0000) % 0x100) as u8);
    out.push(((v / 0x1_0000) % 0x100) as u8);
    out.push(((v / 0x100) % 0x100) as u8);
    out.push((v % 0x100) as u8);
    proof {
        assert(out@ =~= old(out)@ + be64_bytes(v));
    }
}

/// Append the big-endian bytes of the ping payload `v` to `out`.
pub fn push_i64_be(out: &mut Vec<u8>, v: i64)
    ensures
        final(out)@ == old(out)@ + be64_bytes_i(v),
{
    let u: u64 = if v >= 0 {
        v as u64
    } else {
        ((v as i128) + 0x1_0000_0000_0000_0000) as u64
    };
    assert(u == u64_of_i64(v));
    push_u64_be(out, u);
}

/// Read a big-endian `u64` at `at`.
pub fn read_u64_be(data: &[u8], at: usize) -> (r: u64)
    requires
        at + 8 <= data@.len(),
    ensures
        r == u64_of_be(data@.subrange(at as int, at as int + 8)),
{
    let ghost b = data@.subrange(at as int, at as int + 8);
    let r: u64 = (data[at] as u64) * 0x100_0000_0000_0000 + (data[at + 1] as u64)
        * 0x1_0000_0000_0000 + (data[at + 2] as u64) * 0x100_0000_0000 + (data[at + 3] as u64)
        * 0x1_0000_0000 + (data[at + 4] as u64) * 0x100_0000 + (data[at + 5] as u64) * 0x1_0000 + (
    data[at + 6] as u64) * 0x100 + (data[at + 7] as u64);
    proof {
        assert(b[0] == data@[at as int] && b[1] == data@[at as int + 1] && b[2] == data@[at as int
            + 2] && b[3] == data@[at as int + 3] && b[4] == data@[at as int + 4] && b[5]
            == data@[at as int + 5] && b[6] == data@[at as int + 6] && b[7] == data@[at as int
            + 7]);
    }
    r
}

/// Read a big-endian `i64` at `at`.
pub fn read_i64_be(data: &[u8], at: usize) -> (r: i64)
    requires
        at + 8 <= data@.len(),
    ensures
        r == i64_of_be(data@.subrange(at as int, at as int + 8)),
{
    let u = read_u64_be(data, at);
    if u >= 0x8000_0000_0000_0000 {
        (((u as i128) - 0x1_0000_0000_0000_0000) as i64)
    } else {
        u as i64
    }
}

/// Read a big-endian `u128` at `at`.
pub fn read_u128_be(data: &[u8], at: usize) -> (r: u128)
    requires
        at + 16 <= data@.len(),
    ensures
        r == u128_of_be(data@.subrange(at as int, at as int + 16)),
{
    let ghost b = data@.subrange(at as int, at as int + 16);
    let n = data.len();
    assert(at + 16 <= n);
    let hi = read_u64_be(data, at);
    let lo = read_u64_be(data, at + 8);
    proof {
        assert(b.take(8) =~= data@.subrange(at as int, at as int + 8));
        assert(b.skip(8) =~= data@.subrange(at as int + 8, at as int + 16));
    }
    (hi as u128) * 0x1_0000_0000_0000_0000 + (lo as u128)
}

/// `u64` big-endian round trip: re-reading written bytes gives the
/// value back, and re-writing read bytes gives the bytes back.
pub proof fn lemma_u64_be_round_trip(v: u64, b: Seq<u8>)
    requires
        b.len() == 8,
    ensures
        u64_of_be(be64_bytes(v)) == v,
        be64_bytes(u64_of_be(b)) == b,
{
    assert(((v / 0x100_0000_0000_0000) % 0x100) * 0x100_0000_0000_0000 + ((v / 0x1_0000_0000_0000)
        % 0x100) * 0x1_0000_0000_0000 + ((v / 0x100_0000_0000) % 0x100) * 0x100_0000_0000 + ((v
        / 0x1_0000_0000) % 0x100) * 0x1_0000_0000 + ((v / 0x100_0000) % 0x100) * 0x100_0000 + ((v
        / 0x1_0000) % 0x100) * 0x1_0000 + ((v / 0x100) % 0x100) * 0x100 + (v % 0x100) == v)
        by (bit_vector);
    let b0 = b[0];
    let b1 = b[1];
    let b2 = b[2];
    let b3 = b[3];
    let b4 = b[4];
    let b5 = b[5];
    let b6 = b[6];
    let b7 = b[7];
    let s: u64 = ((b0 as u64) * 0x100_0000_0000_0000 + (b1 as u64) * 0x1_0000_0000_0000 + (
    b2 as u64) * 0x100_0000_0000 + (b3 as u64) * 0x1_0000_0000 + (b4 as u64) * 0x100_0000 + (
    b5 as u64) * 0x1_0000 + (b6 as u64) * 0x100 + (b7 as u64)) as u64;
    assert((s / 0x100_0000_0000_0000) % 0x100 == b0 && (s / 0x1_0000_0000_0000) % 0x100 == b1 && (s
        / 0x100_0000_0000) % 0x100 == b2 && (s / 0x1_0000_0000) % 0x100 == b3 && (s / 0x100_0000)
        % 0x100 == b4 && (s / 0x1_0000) % 0x100 == b5 && (s / 0x100) % 0x100 == b6 && s % 0x100
        == b7) by (bit_vector)
        requires
            s == (b0 as u64) * 0x100_0000_0000_0000 + (b1 as u64) * 0x1_0000_0000_0000 + (
            b2 as u64) * 0x100_0000_0000 + (b3 as u64) * 0x1_0000_0000 + (b4 as u64) * 0x100_0000
                + (b5 as u64) * 0x1_0000 + (b6 as u64) * 0x100 + (b7 as u64),
    ;
    assert(u64_of_be(b) == s);
    assert(be64_bytes(u64_of_be(b)) =~= b);
}

/// `i64` big-endian round trip, as the ping/pong packets use it.
pub proof fn lemma_i64_be_round_trip(v: i64, b: Seq<u8>)
    requires
        b.len() == 8,
    ensures
        i64_of_be(be64_bytes_i(v)) == v,
        be64_bytes_i(i64_of_be(b)) == b,
{
    lemma_u64_be_round_trip(u64_of_i64(v), b);
    assert(i64_of_u64(u64_of_i64(v)) == v);
    assert(u64_of_i64(i64_of_u64(u64_of_be(b))) == u64_of_be(b));
}

} // verus!
