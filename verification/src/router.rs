//! The per-connection routing decisions and the placeholder responder:
//! everything the connection task decides, stated over the handshake,
//! the configuration snapshot and the discovered registry. The
//! surrounding task performs the dials, reads and writes these
//! decisions call for.

use vstd::prelude::*;
use vstd::string::{StrSliceExecFns, StringSliceAdditionalSpecFns};
use vstd::utf8::encode_utf8;

use crate::config::{lookup_static, Config};
use crate::error::CodecError;
use crate::handshake::{ping_pong_decode, Handshake};
use crate::json::{json_of_component, json_of_status, status_to_json};
use crate::mcstring::string_bytes;
use crate::model::Upstream;
use crate::packet::{packet_bytes, write_packet, Packet, MAX_PACKET_LENGTH};
use crate::registry::{registry_wf, DiscoveredServers};
use crate::status::StatusResponse;
use crate::text::{text_view, RawTextComponent};
use crate::varint::{varint_bytes, lemma_varint_boundary_lengths};
use crate::wire::be64_bytes_i;

verus! {

/// Which placeholder response a refused connection is answered from.
#[derive(Debug, Clone, Copy, PartialEq, Eq, Structural)]
pub enum PlaceholderKind {
    /// No mapping existed for the hostname.
    NoMapping,
    /// A mapping existed but the upstream could not be reached.
    Offline,
}

/// What resolving a hostname yields: static routes take priority, the
/// discovered registry is the fallback.
pub open spec fn resolved_upstream(
    config: &Config,
    registry: crate::registry::SpecRegistry,
    h: Seq<char>,
) -> Option<crate::model::SpecUpstream> {
    match lookup_static(config.static_servers@, h) {
        Some(u) => Some(u),
        None => {
            if registry.index.contains_key(h) {
                Some(registry.servers[registry.index[h]].upstream)
            } else {
                None
            }
        },
    }
}

/// Resolve the hostname a client addressed: the static routes first,
/// then the discovered servers.
pub fn resolve_upstream(config: &Config, discovered: &DiscoveredServers, h: &Handshake) -> (r:
    Option<Upstream>)
    requires
        registry_wf(discovered@),
    ensures
        match r {
            Some(u) => resolved_upstream(config, discovered@, h.address@) == Some(u@),
            None => resolved_upstream(config, discovered@, h.address@) is None,
        },
{
    match config.static_upstream(&h.address) {
        Some(u) => Some(u),
        None => {
            match discovered.get_by_hostname(h.address.as_ref()) {
                Some(server) => Some(server.upstream),
                None => None,
            }
        },
    }
}

/// The placeholder status response configured for this refusal, if
/// any.
pub fn placeholder_status<'a>(config: &'a Config, kind: PlaceholderKind) -> (r: &'a Option<
    StatusResponse,
>)
    ensures
        *r == (match kind {
            PlaceholderKind::NoMapping => config.placeholder_server.responses.no_mapping,
            PlaceholderKind::Offline => config.placeholder_server.responses.offline,
        }),
{
    match kind {
        PlaceholderKind::NoMapping => &config.placeholder_server.responses.no_mapping,
        PlaceholderKind::Offline => &config.placeholder_server.responses.offline,
    }
}

/// The wire form of a status response packet: the JSON document as one
/// length-prefixed string, framed under id 0.
pub open spec fn status_response_packet_bytes(s: crate::status::StatusV) -> Seq<u8> {
    packet_bytes(0, string_bytes(json_of_status(s)))
}

/// Emit a status response packet. The document must fit the packet
/// length bound; a response too large to frame is refused, never
/// truncated.
pub fn write_status_response(response: &StatusResponse) -> (r: Result<Vec<u8>, CodecError>)
    ensures
        match r {
            Ok(bytes) => encode_utf8(json_of_status(response@)).len() + 6 <= MAX_PACKET_LENGTH
                && bytes@ == status_response_packet_bytes(response@),
            Err(e) => e == CodecError::StringTooLong && encode_utf8(
                json_of_status(response@),
            ).len() + 6 > MAX_PACKET_LENGTH,
        },
{
    let json = status_to_json(response);
    let json_bytes = json.as_str().as_bytes_vec();
    let byte_len = json_bytes.len();
    assert(byte_len == encode_utf8(json@).len());
    if byte_len > MAX_PACKET_LENGTH - 6 {
        return Err(CodecError::StringTooLong);
    }
    let mut payload: Vec<u8> = Vec::new();
    crate::mcstring::write_string(&mut payload, json.as_str());
    proof {
        lemma_varint_boundary_lengths(encode_utf8(json@).len() as i32);
        lemma_varint_boundary_lengths(0);
        assert(payload@ =~= string_bytes(json_of_status(response@)));
    }
    Ok(write_packet(0, payload.as_slice()))
}

/// The wire form of a login disconnect packet: the JSON chat component
/// as one length-prefixed string, framed under id 0.
pub open spec fn login_disconnect_packet_bytes(t: crate::text::TextV) -> Seq<u8> {
    packet_bytes(0, string_bytes(json_of_component(t)))
}

/// Emit a login disconnect packet carrying this chat component.
pub fn write_login_disconnect(description: &RawTextComponent) -> (r: Result<Vec<u8>, CodecError>)
    ensures
        match r {
            Ok(bytes) => encode_utf8(json_of_component(text_view(*description))).len() + 6
                <= MAX_PACKET_LENGTH && bytes@ == login_disconnect_packet_bytes(
                text_view(*description),
            ),
            Err(e) => e == CodecError::StringTooLong && encode_utf8(
                json_of_component(text_view(*description)),
            ).len() + 6 > MAX_PACKET_LENGTH,
        },
{
    let mut json = String::new();
    crate::json::push_json_component(&mut json, description);
    let json_bytes = json.as_str().as_bytes_vec();
    let byte_len = json_bytes.len();
    assert(byte_len == encode_utf8(json@).len());
    if byte_len > MAX_PACKET_LENGTH - 6 {
        return Err(CodecError::StringTooLong);
    }
    let mut payload: Vec<u8> = Vec::new();
    crate::mcstring::write_string(&mut payload, json.as_str());
    proof {
        lemma_varint_boundary_lengths(encode_utf8(json@).len() as i32);
        lemma_varint_boundary_lengths(0);
        assert(payload@ =~= string_bytes(json_of_component(text_view(*description))));
    }
    Ok(write_packet(0, payload.as_slice()))
}

/// Echo a ping: the pong carries exactly the payload the ping carried.
pub fn pong_reply(ping: &Packet) -> (r: Result<Vec<u8>, CodecError>)
    ensures
        match r {
            Ok(bytes) => ping_pong_decode(ping.id as int, ping.data@) matches Ok(payload)
                && bytes@ == packet_bytes(1, be64_bytes_i(payload)),
            Err(e) => ping_pong_decode(ping.id as int, ping.data@) == Err::<i64, CodecError>(e),
        },
{
    let payload = match crate::handshake::read_ping_pong(ping) {
        Ok(p) => p,
        Err(e) => {
            return Err(e);
        },
    };
    Ok(crate::handshake::write_ping_pong(payload))
}

/// Re-emit a parsed packet verbatim: the id and payload unchanged,
/// framed exactly as the writer frames them.
pub fn forward_packet_bytes(packet: &Packet) -> (r: Vec<u8>)
    requires
        packet.data@.len() <= MAX_PACKET_LENGTH,
    ensures
        r@ == packet_bytes(packet.id, packet.data@),
{
    proof {
        lemma_varint_boundary_lengths(packet.id);
    }
    write_packet(packet.id, packet.data.as_slice())
}

/// Forwarding verbatim: a canonically framed packet, once read and
/// re-emitted by id and payload, is byte-identical on the upstream
/// side to what the client sent. Together with `resolved_upstream`
/// this is the router's correctness: the upstream sees exactly the
/// original handshake bytes.
pub proof fn lemma_forward_verbatim(id: i32, data: Seq<u8>, rest: Seq<u8>)
    requires
        varint_bytes(id).len() + data.len() <= MAX_PACKET_LENGTH,
    ensures
        crate::packet::packet_decode(packet_bytes(id, data) + rest) matches Ok((p, used))
            && p.id == id as int && p.data == data && packet_bytes(id, data) == packet_bytes(
            id,
            p.data,
        ),
{
    crate::packet::lemma_packet_round_trip(id, data, rest);
}

} // verus!
