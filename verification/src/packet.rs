//! Packet framing: `VarInt(length) || VarInt(id) || data`, where
//! `length` counts the id's encoding plus the data bytes. Readers bound
//! the declared length so a peer cannot demand an unbounded allocation.

use vstd::prelude::*;

use crate::error::CodecError;
use crate::varint::{read_varint, varint_bytes, varint_decode, write_varint, VarIntDecode,
    lemma_varint_round_trip, lemma_varint_boundary_lengths};

verus! {

/// The hard cap a reader places on a packet's declared length.
pub const MAX_PACKET_LENGTH: usize = 0x1f_ffff;

/// A framed packet: the declared length, the id, and the payload bytes.
#[derive(Debug)]
pub struct Packet {
    pub length: i32,
    pub id: i32,
    pub data: Vec<u8>,
}

/// The mathematical shadow of a `Packet`.
pub struct SpecPacket {
    pub length: int,
    pub id: int,
    pub data: Seq<u8>,
}

impl View for Packet {
    type V = SpecPacket;

    open spec fn view(&self) -> SpecPacket {
        SpecPacket { length: self.length as int, id: self.id as int, data: self.data@ }
    }
}

/// The wire form of a packet with this id and payload.
pub open spec fn packet_bytes(id: i32, data: Seq<u8>) -> Seq<u8> {
    varint_bytes((varint_bytes(id).len() + data.len()) as i32) + varint_bytes(id) + data
}

/// What reading a packet from the front of `bytes` yields: the packet
/// and the total number of bytes consumed.
pub open spec fn packet_decode(bytes: Seq<u8>) -> Result<(SpecPacket, int), CodecError> {
    match varint_decode(bytes) {
        VarIntDecode::Done { value: len, length: p1 } => {
            if len < 0 || len > MAX_PACKET_LENGTH {
                Err(CodecError::MalformedPacket)
            } else {
                match varint_decode(bytes.skip(p1)) {
                    VarIntDecode::Done { value: id, length: p2 } => {
                        if p2 > len {
                            Err(CodecError::MalformedPacket)
                        } else if p1 + len > bytes.len() {
                            Err(CodecError::Incomplete)
                        } else {
                            Ok(
                                (
                                    SpecPacket {
                                        length: len,
                                        id: id,
                                        data: bytes.subrange(p1 + p2, p1 + len),
                                    },
                                    p1 + len,
                                ),
                            )
                        }
                    },
                    VarIntDecode::TooLong => Err(CodecError::MalformedVarInt),
                    VarIntDecode::NeedMore => Err(CodecError::Incomplete),
                }
            }
        },
        VarIntDecode::TooLong => Err(CodecError::MalformedVarInt),
        VarIntDecode::NeedMore => Err(CodecError::Incomplete),
    }
}

/// Emit the wire form of a packet: length prefix, id, payload.
pub fn write_packet(id: i32, data: &[u8]) -> (r: Vec<u8>)
    requires
        varint_bytes(id).len() + data@.len() <= 0x7fff_ffff,
    ensures
        r@ == packet_bytes(id, data@),
{
    let ser_id = write_varint(id);
    let length: i32 = (data.len() + ser_id.len()) as i32;
    let mut out = write_varint(length);
    out.extend_from_slice(ser_id.as_slice());
    out.extend_from_slice(data);
    proof {
        assert(out@ =~= packet_bytes(id, data@));
    }
    out
}

/// The concatenation of a batch of payload slices.
pub open spec fn concat_of(parts: Seq<Seq<u8>>) -> Seq<u8>
    decreases parts.len(),
{
    if parts.len() == 0 {
        Seq::empty()
    } else {
        parts[0] + concat_of(parts.drop_first())
    }
}

proof fn lemma_concat_of_take_step(parts: Seq<Seq<u8>>, i: int)
    requires
        0 <= i < parts.len(),
    ensures
        concat_of(parts.take(i + 1)) == concat_of(parts.take(i)) + parts[i],
    decreases i,
{
    if i == 0 {
        assert(parts.take(1) =~= seq![parts[0]]);
        assert(concat_of(seq![parts[0]].drop_first()) == concat_of(
            Seq::<Seq<u8>>::empty(),
        )) by {
            assert(seq![parts[0]].drop_first() =~= Seq::<Seq<u8>>::empty());
        }
        assert(concat_of(parts.take(1)) =~= parts[0]);
        assert(parts.take(0) =~= Seq::<Seq<u8>>::empty());
        assert(concat_of(parts.take(0)) + parts[0] =~= parts[0]);
    } else {
        let sub = parts.drop_first();
        lemma_concat_of_take_step(sub, i - 1);
        assert(parts.take(i + 1).drop_first() =~= sub.take(i));
        assert(parts.take(i).drop_first() =~= sub.take(i - 1));
        assert(parts.take(i + 1)[0] == parts[0]);
        assert(parts.take(i)[0] == parts[0]);
        assert(sub[i - 1] == parts[i]);
        assert(concat_of(parts.take(i + 1)) == parts[0] + concat_of(sub.take(i)));
        assert(concat_of(parts.take(i)) == parts[0] + concat_of(sub.take(i - 1)));
        assert(concat_of(parts.take(i + 1)) =~= concat_of(parts.take(i)) + parts[i]);
    }
}

/// Emit the wire form of a packet whose payload is given in pieces; the
/// output is byte-identical to writing the concatenated payload.
pub fn write_packet_vectored(id: i32, parts: &[&[u8]]) -> (r: Vec<u8>)
    requires
        varint_bytes(id).len() + concat_of(parts@.map_values(|p: &[u8]| p@)).len()
            <= 0x7fff_ffff,
    ensures
        r@ == packet_bytes(id, concat_of(parts@.map_values(|p: &[u8]| p@))),
{
    let ghost views = parts@.map_values(|p: &[u8]| p@);
    let ghost whole = concat_of(views);
    let mut payload: Vec<u8> = Vec::new();
    let mut i: usize = 0;
    proof {
        assert(views.take(0) =~= Seq::<Seq<u8>>::empty());
    }
    while i < parts.len()
        invariant
            i <= parts.len(),
            views == parts@.map_values(|p: &[u8]| p@),
            whole == concat_of(views),
            concat_of(views).len() <= 0x7fff_ffff,
            payload@ == concat_of(views.take(i as int)),
        decreases parts.len() - i,
    {
        proof {
            lemma_concat_of_take_step(views, i as int);
            assert(views.take(views.len() as int) =~= views);
            lemma_concat_of_take_prefix(views, i as int + 1);
        }
        let part: &[u8] = parts[i];
        assert(part@ == views[i as int]);
        payload.extend_from_slice(part);
        proof {
            assert(payload@ =~= concat_of(views.take(i as int + 1)));
        }
        i = i + 1;
    }
    proof {
        assert(views.take(views.len() as int) =~= views);
    }
    write_packet(id, payload.as_slice())
}

/// A prefix of the batch never concatenates to more than the whole.
proof fn lemma_concat_of_take_prefix(parts: Seq<Seq<u8>>, i: int)
    requires
        0 <= i <= parts.len(),
    ensures
        concat_of(parts.take(i)).len() <= concat_of(parts).len(),
    decreases i,
{
    if i == 0 {
        assert(parts.take(0) =~= Seq::<Seq<u8>>::empty());
    } else {
        lemma_concat_of_take_step(parts, i - 1);
        lemma_concat_of_take_prefix(parts, i - 1);
        if i < parts.len() {
            lemma_concat_grows(parts, i);
        } else {
            assert(parts.take(i) =~= parts);
        }
    }
}

proof fn lemma_concat_grows(parts: Seq<Seq<u8>>, i: int)
    requires
        0 <= i <= parts.len(),
    ensures
        concat_of(parts.take(i)).len() <= concat_of(parts).len(),
    decreases parts.len(),
{
    if i == 0 {
        assert(parts.take(0) =~= Seq::<Seq<u8>>::empty());
    } else {
        let sub = parts.drop_first();
        lemma_concat_grows(sub, i - 1);
        assert(parts.take(i).drop_first() =~= sub.take(i - 1));
        assert(parts.take(i)[0] == parts[0]);
        assert(concat_of(parts.take(i)) == parts[0] + concat_of(sub.take(i - 1)));
        assert(concat_of(parts) == parts[0] + concat_of(sub));
    }
}

/// Read a packet from `data` beginning at `start`; on success the
/// returned offset points just past the packet.
pub fn read_packet(data: &[u8], start: usize) -> (r: Result<(Packet, usize), CodecError>)
    requires
        start <= data@.len(),
    ensures
        match r {
            Ok((p, end)) => {
                &&& packet_decode(data@.skip(start as int)) matches Ok((sp, used)) && p@ == sp
                    && end as int == start + used
                &&& start <= end <= data@.len()
                &&& 0 <= p.length <= MAX_PACKET_LENGTH
            },
            Err(e) => packet_decode(data@.skip(start as int)) == Err::<(SpecPacket, int), CodecError>(e),
        },
{
    let ghost tail = data@.skip(start as int);
    let len_vi = match read_varint(data, start) {
        Ok(vi) => vi,
        Err(e) => {
            return Err(e);
        },
    };
    if len_vi.value < 0 || len_vi.value > MAX_PACKET_LENGTH as i32 {
        return Err(CodecError::MalformedPacket);
    }
    let p1: usize = len_vi.length as usize;
    let total = data.len();
    assert(start + p1 <= total);
    let ghost tail2 = data@.skip(start as int + p1 as int);
    proof {
        assert(tail2 =~= tail.skip(p1 as int));
    }
    let id_vi = match read_varint(data, start + p1) {
        Ok(vi) => vi,
        Err(e) => {
            return Err(e);
        },
    };
    if id_vi.length > len_vi.value {
        return Err(CodecError::MalformedPacket);
    }
    let len: usize = len_vi.value as usize;
    let p2: usize = id_vi.length as usize;
    if len > total - (start + p1) {
        proof {
            assert(p1 + len_vi.value > tail.len());
        }
        return Err(CodecError::Incomplete);
    }
    let body: &[u8] = vstd::slice::slice_subrange(data, start + p1 + p2, start + p1 + len);
    let mut payload: Vec<u8> = Vec::new();
    payload.extend_from_slice(body);
    proof {
        assert(payload@ =~= tail.subrange(p1 as int + p2 as int, p1 as int + len_vi.value));
    }
    Ok((Packet { length: len_vi.value, id: id_vi.value, data: payload }, start + p1 + len))
}

/// Packet framing round trip: a written packet followed by anything at
/// all reads back with the same id, a length that counts the id's
/// encoding plus the payload, and the payload unchanged.
pub proof fn lemma_packet_round_trip(id: i32, data: Seq<u8>, rest: Seq<u8>)
    requires
        varint_bytes(id).len() + data.len() <= MAX_PACKET_LENGTH,
    ensures
        packet_decode(packet_bytes(id, data) + rest) == Ok::<(SpecPacket, int), CodecError>(
            (
                SpecPacket {
                    length: varint_bytes(id).len() + data.len() as int,
                    id: id as int,
                    data: data,
                },
                packet_bytes(id, data).len() as int,
            ),
        ),
{
    let idb = varint_bytes(id);
    let len: i32 = (idb.len() + data.len()) as i32;
    let lenb = varint_bytes(len);
    let whole = packet_bytes(id, data) + rest;
    assert(whole =~= lenb + (idb + data + rest));
    lemma_varint_round_trip(len, idb + data + rest);
    let p1 = lenb.len() as int;
    assert(whole.skip(p1) =~= idb + (data + rest));
    lemma_varint_round_trip(id, data + rest);
    lemma_varint_boundary_lengths(id);
    let p2 = idb.len() as int;
    assert(whole.subrange(p1 + p2, p1 + len as int) =~= data);
    assert(whole.len() >= p1 + len);
}

} // verus!
