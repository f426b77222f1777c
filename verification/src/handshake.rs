//! The typed packets of the handshaking, status and login phases:
//! what each one's payload means, byte for byte.

use vstd::prelude::*;
use vstd::std_specs::iter::IteratorSpec;
use vstd::string::StringExecFns;
use vstd::utf8::encode_utf8;

use crate::decimal::{dec_of_int, push_dec_i32};
use crate::error::CodecError;
use crate::mcstring::{read_string, string_bytes, string_decode, MAX_STRING_LENGTH};
use crate::model::Hostname;
use crate::packet::{packet_bytes, write_packet, Packet};
use crate::strutil::push_char;
use crate::varint::{read_varint, varint_bytes, varint_decode, write_varint, VarIntDecode};
use crate::wire::{be16_bytes, be64_bytes_i, i64_of_be, push_i64_be, push_u16_be, read_i64_be,
    read_u128_be, read_u16_be, u128_of_be, u16_of_be};

verus! {

/// The protocol phase a client asks for in its handshake.
#[derive(Debug, Clone, Copy, PartialEq, Eq, Structural)]
pub enum NextState {
    Ping,
    Login,
    Transfer,
    Unknown(i32),
}

/// The wire discriminator of a next-state.
pub open spec fn next_state_code(s: NextState) -> i32 {
    match s {
        NextState::Ping => 1,
        NextState::Login => 2,
        NextState::Transfer => 3,
        NextState::Unknown(x) => x,
    }
}

/// The next-state a wire discriminator denotes.
pub open spec fn next_state_of_code(code: i32) -> NextState {
    if code == 1 {
        NextState::Ping
    } else if code == 2 {
        NextState::Login
    } else if code == 3 {
        NextState::Transfer
    } else {
        NextState::Unknown(code)
    }
}

/// The display name of a next-state: a word for the known phases, the
/// decimal discriminator otherwise.
pub open spec fn next_state_name(s: NextState) -> Seq<char> {
    match s {
        NextState::Ping => "ping"@,
        NextState::Login => "login"@,
        NextState::Transfer => "transfer"@,
        NextState::Unknown(x) => dec_of_int(x as int),
    }
}

impl NextState {
    /// Decode a wire discriminator.
    pub fn from_code(code: i32) -> (r: NextState)
        ensures
            r == next_state_of_code(code),
    {
        match code {
            1 => NextState::Ping,
            2 => NextState::Login,
            3 => NextState::Transfer,
            _ => NextState::Unknown(code),
        }
    }

    /// The wire discriminator of this next-state.
    pub fn code(&self) -> (r: i32)
        ensures
            r == next_state_code(*self),
    {
        match self {
            NextState::Ping => 1,
            NextState::Login => 2,
            NextState::Transfer => 3,
            NextState::Unknown(x) => *x,
        }
    }

    /// The display name of this next-state.
    pub fn name(&self) -> (r: String)
        ensures
            r@ == next_state_name(*self),
    {
        proof {
            reveal_strlit("ping");
            reveal_strlit("login");
            reveal_strlit("transfer");
            reveal_strlit("");
        }
        match self {
            NextState::Ping => String::from_str("ping"),
            NextState::Login => String::from_str("login"),
            NextState::Transfer => String::from_str("transfer"),
            NextState::Unknown(x) => {
                let mut s = String::new();
                push_dec_i32(&mut s, *x);
                s
            },
        }
    }
}

impl From<i32> for NextState {
    fn from(code: i32) -> (r: NextState) {
        NextState::from_code(code)
    }
}

impl vstd::std_specs::convert::FromSpecImpl<i32> for NextState {
    open spec fn obeys_from_spec() -> bool {
        true
    }

    open spec fn from_spec(code: i32) -> NextState {
        next_state_of_code(code)
    }
}

impl From<NextState> for i32 {
    fn from(s: NextState) -> (r: i32) {
        s.code()
    }
}

impl vstd::std_specs::convert::FromSpecImpl<NextState> for i32 {
    open spec fn obeys_from_spec() -> bool {
        true
    }

    open spec fn from_spec(s: NextState) -> i32 {
        next_state_code(s)
    }
}

/// The opening packet of every connection: protocol version, the
/// virtual address the client dialed, the port, and the next phase.
#[derive(Debug)]
pub struct Handshake {
    pub protocol_version: i32,
    pub address: Hostname,
    pub address_forge_version: Option<String>,
    pub port: u16,
    pub next_state: NextState,
}

/// The mathematical shadow of a `Handshake`.
pub struct SpecHandshake {
    pub protocol_version: i32,
    pub address: Seq<char>,
    pub address_forge_version: Option<Seq<char>>,
    pub port: u16,
    pub next_state: NextState,
}

impl View for Handshake {
    type V = SpecHandshake;

    open spec fn view(&self) -> SpecHandshake {
        SpecHandshake {
            protocol_version: self.protocol_version,
            address: self.address@,
            address_forge_version: match self.address_forge_version {
                Some(ref f) => Some(f@),
                None => None,
            },
            port: self.port,
            next_state: self.next_state,
        }
    }
}

/// The address field as it crosses the wire: the hostname, and for a
/// Forge client the forge marker between NUL separators.
pub open spec fn address_field_chars(h: SpecHandshake) -> Seq<char> {
    match h.address_forge_version {
        Some(f) => h.address + seq!['\0'] + f + seq!['\0'],
        None => h.address,
    }
}

/// The handshake packet's payload bytes.
pub open spec fn handshake_payload(h: SpecHandshake) -> Seq<u8> {
    varint_bytes(h.protocol_version) + string_bytes(address_field_chars(h)) + be16_bytes(h.port)
        + varint_bytes(next_state_code(h.next_state))
}

/// The whole handshake packet on the wire.
pub open spec fn handshake_packet_bytes(h: SpecHandshake) -> Seq<u8> {
    packet_bytes(0, handshake_payload(h))
}

/// The index of the first NUL, scanning left to right.
pub open spec fn find_nul(chars: Seq<char>) -> Option<int>
    decreases chars.len(),
{
    if chars.len() == 0 {
        None
    } else if chars[0] == '\0' {
        Some(0)
    } else {
        match find_nul(chars.drop_first()) {
            Some(i) => Some(i + 1),
            None => None,
        }
    }
}

/// How an address field splits at its NUL separators: the hostname,
/// then at most one more segment (the forge version), a single
/// trailing empty segment being dropped. A third segment is refused.
pub open spec fn split_address_field(chars: Seq<char>) -> Result<
    (Seq<char>, Option<Seq<char>>),
    CodecError,
> {
    match find_nul(chars) {
        None => Ok((chars, None)),
        Some(i) => {
            let rest = chars.skip(i + 1);
            match find_nul(rest) {
                None => if rest.len() == 0 {
                    Ok((chars.take(i), None))
                } else {
                    Ok((chars.take(i), Some(rest)))
                },
                Some(j) => if j == rest.len() - 1 {
                    Ok((chars.take(i), Some(rest.take(j))))
                } else {
                    Err(CodecError::MalformedPacket)
                },
            }
        },
    }
}

/// Split a wire address field into hostname and optional forge
/// version, exactly as `split_address_field` describes.
fn split_address(s: &str) -> (r: Result<(Hostname, Option<String>), CodecError>)
    ensures
        match r {
            Ok((host, forge)) => split_address_field(s@) matches Ok((h, f)) && host@ == h && (match (
                forge,
                f,
            ) {
                (Some(fs), Some(fc)) => fs@ == fc,
                (None, None) => true,
                _ => false,
            }),
            Err(e) => split_address_field(s@) == Err::<(Seq<char>, Option<Seq<char>>), CodecError>(
                e,
            ),
        },
{
    broadcast use vstd::string::axiom_spec_iter, vstd::string::next_postcondition;

    let ghost full: Seq<char> = s@;
    let mut it = s.chars();
    let mut host = String::new();
    let ghost mut k: int = 0;
    loop
        invariant
            0 <= k <= full.len(),
            full == s@,
            it.remaining() == full.skip(k),
            host@ == full.take(k),
            forall|j: int| 0 <= j < k ==> full[j] != '\0',
        decreases full.len() - k,
    {
        let c = match it.next() {
            None => {
                proof {
                    lemma_find_nul_none(full);
                    assert(full.take(k) =~= full);
                }
                return Ok((Hostname::new(host), None));
            },
            Some(c) => c,
        };
        assert(c == full[k]);
        if c == '\0' {
            proof {
                lemma_find_nul_at(full, k);
            }
            let ghost rest: Seq<char> = full.skip(k + 1);
            let mut forge = String::new();
            let ghost mut m: int = 0;
            loop
                invariant
                    0 <= m <= rest.len(),
                    full == s@,
                    0 <= k < full.len(),
                    rest == full.skip(k + 1),
                    it.remaining() == rest.skip(m),
                    forge@ == rest.take(m),
                    find_nul(full) == Some(k),
                    host@ == full.take(k),
                    forall|j: int| 0 <= j < m ==> rest[j] != '\0',
                decreases rest.len() - m,
            {
                let c2 = match it.next() {
                    None => {
                        proof {
                            lemma_find_nul_none(rest);
                            assert(rest.take(m) =~= rest);
                        }
                        if forge.as_str().is_empty() {
                            return Ok((Hostname::new(host), None));
                        } else {
                            return Ok((Hostname::new(host), Some(forge)));
                        }
                    },
                    Some(c2) => c2,
                };
                assert(c2 == rest[m]);
                if c2 == '\0' {
                    proof {
                        lemma_find_nul_at(rest, m);
                    }
                    match it.next() {
                        None => {
                            proof {
                                assert(it.remaining().len() == 0);
                                assert(m == rest.len() - 1);
                            }
                            return Ok((Hostname::new(host), Some(forge)));
                        },
                        Some(_) => {
                            proof {
                                assert(rest.skip(m + 1).len() > 0);
                                assert(m < rest.len() - 1);
                            }
                            return Err(CodecError::MalformedPacket);
                        },
                    }
                }
                push_char(&mut forge, c2);
                proof {
                    assert(forge@ =~= rest.take(m + 1));
                    m = m + 1;
                }
            }
        }
        push_char(&mut host, c);
        proof {
            assert(host@ =~= full.take(k + 1));
            k = k + 1;
        }
    }
}

proof fn lemma_find_nul_none(chars: Seq<char>)
    requires
        forall|j: int| 0 <= j < chars.len() ==> chars[j] != '\0',
    ensures
        find_nul(chars) is None,
    decreases chars.len(),
{
    if chars.len() > 0 {
        assert(forall|j: int|
            0 <= j < chars.drop_first().len() ==> #[trigger] chars.drop_first()[j] == chars[j
                + 1]);
        lemma_find_nul_none(chars.drop_first());
    }
}

proof fn lemma_find_nul_at(chars: Seq<char>, k: int)
    requires
        0 <= k < chars.len(),
        chars[k] == '\0',
        forall|j: int| 0 <= j < k ==> chars[j] != '\0',
    ensures
        find_nul(chars) == Some(k),
    decreases k,
{
    if k == 0 {
    } else {
        assert(forall|j: int|
            0 <= j < chars.drop_first().len() ==> #[trigger] chars.drop_first()[j] == chars[j
                + 1]);
        lemma_find_nul_at(chars.drop_first(), k - 1);
    }
}

/// What parsing a handshake packet yields. The packet must carry id 0;
/// its payload is a VarInt protocol version, the address string, a
/// big-endian port and a VarInt next-state, and the address field must
/// split into at most two NUL-terminated segments.
pub open spec fn handshake_decode(id: int, data: Seq<u8>) -> Result<SpecHandshake, CodecError> {
    if id != 0 {
        Err(CodecError::UnexpectedPacket)
    } else {
        match varint_decode(data) {
            VarIntDecode::Done { value: pv, length: o1 } => {
                match string_decode(data.skip(o1)) {
                    Ok((chars, used)) => {
                        let o2 = o1 + used;
                        if o2 + 2 > data.len() {
                            Err(CodecError::Incomplete)
                        } else {
                            let port = u16_of_be(data[o2], data[o2 + 1]);
                            match varint_decode(data.skip(o2 + 2)) {
                                VarIntDecode::Done { value: ns, .. } => {
                                    match split_address_field(chars) {
                                        Ok((host, forge)) => Ok(
                                            SpecHandshake {
                                                protocol_version: pv as i32,
                                                address: host,
                                                address_forge_version: forge,
                                                port: port,
                                                next_state: next_state_of_code(ns as i32),
                                            },
                                        ),
                                        Err(e) => Err(e),
                                    }
                                },
                                VarIntDecode::TooLong => Err(CodecError::MalformedVarInt),
                                VarIntDecode::NeedMore => Err(CodecError::Incomplete),
                            }
                        }
                    },
                    Err(e) => Err(e),
                }
            },
            VarIntDecode::TooLong => Err(CodecError::MalformedVarInt),
            VarIntDecode::NeedMore => Err(CodecError::Incomplete),
        }
    }
}

/// Parse a handshake out of a framed packet.
pub fn read_handshake(packet: &Packet) -> (r: Result<Handshake, CodecError>)
    ensures
        match r {
            Ok(h) => handshake_decode(packet.id as int, packet.data@) == Ok::<
                SpecHandshake,
                CodecError,
            >(h@),
            Err(e) => handshake_decode(packet.id as int, packet.data@) == Err::<
                SpecHandshake,
                CodecError,
            >(e),
        },
{
    if packet.id != 0 {
        return Err(CodecError::UnexpectedPacket);
    }
    let data: &[u8] = packet.data.as_slice();
    let pv = match read_varint(data, 0) {
        Ok(vi) => vi,
        Err(e) => {
            proof {
                assert(data@.skip(0) =~= data@);
            }
            return Err(e);
        },
    };
    proof {
        assert(data@.skip(0) =~= data@);
    }
    let o1: usize = pv.length as usize;
    let (address_raw, o2) = match read_string(data, o1) {
        Ok(p) => p,
        Err(e) => {
            return Err(e);
        },
    };
    let total = data.len();
    if total - o2 < 2 {
        return Err(CodecError::Incomplete);
    }
    let port = read_u16_be(data, o2);
    let ns = match read_varint(data, o2 + 2) {
        Ok(vi) => vi,
        Err(e) => {
            return Err(e);
        },
    };
    let (host, forge) = match split_address(address_raw.as_str()) {
        Ok(p) => p,
        Err(e) => {
            return Err(e);
        },
    };
    Ok(
        Handshake {
            protocol_version: pv.value,
            address: host,
            address_forge_version: forge,
            port,
            next_state: NextState::from_code(ns.value),
        },
    )
}

/// Emit a handshake packet, rebuilding the NUL-separated address field.
pub fn write_handshake(h: &Handshake) -> (r: Vec<u8>)
    requires
        encode_utf8(address_field_chars(h@)).len() <= MAX_STRING_LENGTH,
    ensures
        r@ == handshake_packet_bytes(h@),
{
    let mut address = String::from_str(h.address.as_ref());
    match &h.address_forge_version {
        Some(forge) => {
            push_char(&mut address, '\0');
            address.append(forge.as_str());
            push_char(&mut address, '\0');
            proof {
                assert(address@ =~= address_field_chars(h@));
            }
        },
        None => {
            proof {
                assert(address@ =~= address_field_chars(h@));
            }
        },
    }
    let mut payload = write_varint(h.protocol_version);
    crate::mcstring::write_string(&mut payload, address.as_str());
    push_u16_be(&mut payload, h.port);
    let code = h.next_state.code();
    let tail = write_varint(code);
    payload.extend_from_slice(tail.as_slice());
    proof {
        assert(payload@ =~= handshake_payload(h@));
        crate::varint::lemma_varint_boundary_lengths(h.protocol_version);
        crate::varint::lemma_varint_boundary_lengths(code);
        crate::varint::lemma_varint_boundary_lengths(0);
        crate::varint::lemma_varint_boundary_lengths(
            encode_utf8(address_field_chars(h@)).len() as i32,
        );
    }
    write_packet(0, payload.as_slice())
}

/// Whether a packet is a well-formed status request: id 0 and a
/// declared length of exactly one byte.
pub open spec fn status_request_ok(id: int, length: int) -> Result<(), CodecError> {
    if id != 0 {
        Err(CodecError::UnexpectedPacket)
    } else if length != 1 {
        Err(CodecError::MalformedPacket)
    } else {
        Ok(())
    }
}

/// Check a status request packet: empty body, id 0.
pub fn read_status_request(packet: &Packet) -> (r: Result<(), CodecError>)
    ensures
        r == status_request_ok(packet.id as int, packet.length as int),
{
    if packet.id != 0 {
        return Err(CodecError::UnexpectedPacket);
    }
    if packet.length != 1 {
        return Err(CodecError::MalformedPacket);
    }
    Ok(())
}

/// The wire form of a status request: an empty packet with id 0.
pub fn write_status_request() -> (r: Vec<u8>)
    ensures
        r@ == packet_bytes(0, Seq::<u8>::empty()),
{
    let empty: Vec<u8> = Vec::new();
    write_packet(0, empty.as_slice())
}

/// What a ping or pong packet carries: id 1 and at least eight bytes,
/// read big-endian.
pub open spec fn ping_pong_decode(id: int, data: Seq<u8>) -> Result<i64, CodecError> {
    if id != 1 {
        Err(CodecError::UnexpectedPacket)
    } else if data.len() < 8 {
        Err(CodecError::MalformedPacket)
    } else {
        Ok(i64_of_be(data.take(8)))
    }
}

/// Read the payload of a ping or pong packet.
pub fn read_ping_pong(packet: &Packet) -> (r: Result<i64, CodecError>)
    ensures
        r == ping_pong_decode(packet.id as int, packet.data@),
{
    if packet.id != 1 {
        return Err(CodecError::UnexpectedPacket);
    }
    if packet.data.len() < 8 {
        return Err(CodecError::MalformedPacket);
    }
    let payload = read_i64_be(packet.data.as_slice(), 0);
    proof {
        assert(packet.data@.subrange(0, 8) =~= packet.data@.take(8));
    }
    Ok(payload)
}

/// The wire form of a ping or pong carrying `payload`.
pub fn write_ping_pong(payload: i64) -> (r: Vec<u8>)
    ensures
        r@ == packet_bytes(1, be64_bytes_i(payload)),
{
    let mut data: Vec<u8> = Vec::new();
    push_i64_be(&mut data, payload);
    proof {
        crate::varint::lemma_varint_boundary_lengths(1);
    }
    write_packet(1, data.as_slice())
}

/// What a login start packet carries: id 0, a name string, then a
/// sixteen-byte uuid.
pub open spec fn login_start_decode(id: int, data: Seq<u8>) -> Result<
    (Seq<char>, u128),
    CodecError,
> {
    if id != 0 {
        Err(CodecError::UnexpectedPacket)
    } else {
        match string_decode(data) {
            Ok((name, used)) => {
                if used + 16 > data.len() {
                    Err(CodecError::Incomplete)
                } else {
                    Ok((name, u128_of_be(data.subrange(used, used + 16))))
                }
            },
            Err(e) => Err(e),
        }
    }
}

/// Read the player name and uuid out of a login start packet.
pub fn read_login_start(packet: &Packet) -> (r: Result<(String, u128), CodecError>)
    ensures
        match r {
            Ok((name, uuid)) => login_start_decode(packet.id as int, packet.data@) matches Ok(
                (n, u),
            ) && name@ == n && uuid == u,
            Err(e) => login_start_decode(packet.id as int, packet.data@) == Err::<
                (Seq<char>, u128),
                CodecError,
            >(e),
        },
{
    if packet.id != 0 {
        return Err(CodecError::UnexpectedPacket);
    }
    let data: &[u8] = packet.data.as_slice();
    proof {
        assert(data@.skip(0) =~= data@);
    }
    let (name, used) = match read_string(data, 0) {
        Ok(p) => p,
        Err(e) => {
            return Err(e);
        },
    };
    let total = data.len();
    if total - used < 16 {
        return Err(CodecError::Incomplete);
    }
    let uuid = read_u128_be(data, used);
    Ok((name, uuid))
}

/// What a status response packet carries: id 0 and one string, the
/// JSON document.
pub open spec fn status_response_payload_decode(id: int, data: Seq<u8>) -> Result<
    Seq<char>,
    CodecError,
> {
    if id != 0 {
        Err(CodecError::UnexpectedPacket)
    } else {
        match string_decode(data) {
            Ok((json, _)) => Ok(json),
            Err(e) => Err(e),
        }
    }
}

/// Read the JSON document out of a status response packet.
pub fn read_status_response_payload(packet: &Packet) -> (r: Result<String, CodecError>)
    ensures
        match r {
            Ok(json) => status_response_payload_decode(packet.id as int, packet.data@) matches Ok(
                j,
            ) && json@ == j,
            Err(e) => status_response_payload_decode(packet.id as int, packet.data@) == Err::<
                Seq<char>,
                CodecError,
            >(e),
        },
{
    if packet.id != 0 {
        return Err(CodecError::UnexpectedPacket);
    }
    let data: &[u8] = packet.data.as_slice();
    proof {
        assert(data@.skip(0) =~= data@);
    }
    match read_string(data, 0) {
        Ok((json, _)) => Ok(json),
        Err(e) => Err(e),
    }
}

} // verus!

