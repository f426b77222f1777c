use mcproxy::config::{Config, PlaceholderServerConfig, PlaceholderServerResponses, ProxyConfig};
use mcproxy::handshake::{
    read_handshake, read_login_start, read_ping_pong, read_status_request,
    read_status_response_payload, write_handshake, write_ping_pong, write_status_request,
    Handshake, NextState,
};
use mcproxy::model::{Hostname, Upstream};
use mcproxy::packet::read_packet;
use mcproxy::registry::{ActiveServer, ContainerId, DiscoveredServers, ServerId};
use mcproxy::router::{
    forward_packet_bytes, placeholder_status, pong_reply, resolve_upstream,
    write_login_disconnect, write_status_response, PlaceholderKind,
};
use mcproxy::status::{StatusResponse, Version};
use mcproxy::text::RawTextComponent;

fn test_config(no_mapping: Option<StatusResponse>, offline: Option<StatusResponse>) -> Config {
    Config {
        placeholder_server: PlaceholderServerConfig {
            responses: PlaceholderServerResponses {
                offline,
                no_mapping,
            },
        },
        static_servers: vec![(
            Hostname::from_str("mc.example"),
            Upstream {
                host: String::from("127.0.0.1"),
                port: 25570,
            },
        )],
        ui: None,
        proxy: ProxyConfig {
            listen_address: String::from("0.0.0.0:25565"),
        },
    }
}

fn placeholder(description: &str) -> StatusResponse {
    StatusResponse {
        version: Version {
            name: String::from("1.20"),
            protocol: 764,
        },
        players: None,
        description: RawTextComponent::String(String::from(description)),
        favicon: None,
    }
}

fn handshake(address: &str, next_state: NextState) -> Handshake {
    Handshake {
        protocol_version: 764,
        address: Hostname::from_str(address),
        address_forge_version: None,
        port: 25565,
        next_state,
    }
}

/// A status ping for a known host: the mapping resolves, and the
/// handshake the upstream would receive is byte-identical to the
/// client's.
#[test]
fn status_ping_known_host() {
    let config = test_config(None, None);
    let registry = DiscoveredServers::new();
    let client_bytes = write_handshake(&handshake("mc.example", NextState::Ping));

    let (packet, consumed) = read_packet(&client_bytes, 0).unwrap();
    assert_eq!(consumed, client_bytes.len());
    let hs = read_handshake(&packet).unwrap();
    assert_eq!(hs.address.as_ref(), "mc.example");
    assert!(matches!(hs.next_state, NextState::Ping));

    let upstream = resolve_upstream(&config, &registry, &hs).unwrap();
    assert_eq!(upstream.host, "127.0.0.1");
    assert_eq!(upstream.port, 25570);

    // the router re-emits the handshake verbatim
    let forwarded = forward_packet_bytes(&packet);
    assert_eq!(forwarded, client_bytes);

    // followed by the client's status request, unchanged
    let request = write_status_request();
    let (req_packet, _) = read_packet(&request, 0).unwrap();
    assert!(read_status_request(&req_packet).is_ok());
}

/// A status ping for an unknown host with `no_mapping` configured: the
/// client gets the placeholder JSON and its ping payload echoed back.
#[test]
fn status_ping_unknown_host_with_no_mapping() {
    let config = test_config(Some(placeholder("unmapped")), None);
    let registry = DiscoveredServers::new();
    let hs = handshake("absent.example", NextState::Ping);
    assert!(resolve_upstream(&config, &registry, &hs).is_none());

    let response = placeholder_status(&config, PlaceholderKind::NoMapping);
    let response = response.as_ref().expect("no_mapping is configured");
    let bytes = write_status_response(response).unwrap();
    let (packet, _) = read_packet(&bytes, 0).unwrap();
    let json = read_status_response_payload(&packet).unwrap();
    assert_eq!(
        json,
        "{\"version\":{\"name\":\"1.20\",\"protocol\":764},\"description\":\"unmapped\"}"
    );
    let value: serde_json::Value = serde_json::from_str(&json).unwrap();
    assert_eq!(value["description"], "unmapped");
    assert_eq!(value["version"]["protocol"], 764);

    let ping = write_ping_pong(7);
    let (ping_packet, _) = read_packet(&ping, 0).unwrap();
    let pong = pong_reply(&ping_packet).unwrap();
    let (pong_packet, _) = read_packet(&pong, 0).unwrap();
    assert_eq!(read_ping_pong(&pong_packet).unwrap(), 7);
}

/// A status ping for an unknown host with no `no_mapping` configured:
/// nothing is written for the request, but the pong still echoes.
#[test]
fn status_ping_unknown_host_without_no_mapping() {
    let config = test_config(None, None);
    let registry = DiscoveredServers::new();
    let hs = handshake("absent.example", NextState::Ping);
    assert!(resolve_upstream(&config, &registry, &hs).is_none());
    assert!(placeholder_status(&config, PlaceholderKind::NoMapping).is_none());

    let ping = write_ping_pong(7);
    let (ping_packet, _) = read_packet(&ping, 0).unwrap();
    let pong = pong_reply(&ping_packet).unwrap();
    assert_eq!(pong, write_ping_pong(7));
}

/// A login to a known host whose upstream is unreachable, with
/// `offline` configured: the disconnect payload is the JSON of the
/// placeholder's description.
#[test]
fn login_unreachable_upstream_offline_configured() {
    let config = test_config(None, Some(placeholder("server offline")));
    let registry = DiscoveredServers::new();
    let hs = handshake("mc.example", NextState::Login);
    // the mapping resolves; the dial failure is the caller's event
    assert!(resolve_upstream(&config, &registry, &hs).is_some());

    let response = placeholder_status(&config, PlaceholderKind::Offline);
    let response = response.as_ref().expect("offline is configured");
    let bytes = write_login_disconnect(&response.description).unwrap();
    let (packet, _) = read_packet(&bytes, 0).unwrap();
    assert_eq!(packet.id, 0);
    let json = read_status_response_payload(&packet).unwrap();
    assert_eq!(json, "\"server offline\"");

    // the login start the placeholder read before disconnecting
    let mut payload = Vec::new();
    mcproxy::mcstring::write_string(&mut payload, "alice");
    payload.extend_from_slice(&[0u8; 16]);
    let login = mcproxy::packet::write_packet(0, &payload);
    let (login_packet, _) = read_packet(&login, 0).unwrap();
    let (name, uuid) = read_login_start(&login_packet).unwrap();
    assert_eq!(name, "alice");
    assert_eq!(uuid, 0);
}

/// A handshake whose address carries the Forge tail: the hostname and
/// the forge version separate, and lookup uses the bare hostname.
#[test]
fn handshake_with_forge_tail() {
    let config = test_config(None, None);
    let registry = DiscoveredServers::new();
    let hs = Handshake {
        protocol_version: 764,
        address: Hostname::from_str("mc.example"),
        address_forge_version: Some(String::from("FML")),
        port: 25565,
        next_state: NextState::Login,
    };
    let bytes = write_handshake(&hs);
    let (packet, _) = read_packet(&bytes, 0).unwrap();
    let parsed = read_handshake(&packet).unwrap();
    assert_eq!(parsed.address.as_ref(), "mc.example");
    assert_eq!(parsed.address_forge_version.as_deref(), Some("FML"));
    assert!(resolve_upstream(&config, &registry, &parsed).is_some());
}

/// The same Forge address assembled by hand, NULs included.
#[test]
fn forge_tail_from_raw_address_field() {
    let mut payload = mcproxy::varint::write_varint(764);
    mcproxy::mcstring::write_string(&mut payload, "mc.example\0FML\0");
    payload.extend_from_slice(&[0x63, 0xdd]); // port 25565, big-endian
    payload.extend_from_slice(&mcproxy::varint::write_varint(2));
    let bytes = mcproxy::packet::write_packet(0, &payload);
    let (packet, _) = read_packet(&bytes, 0).unwrap();
    let parsed = read_handshake(&packet).unwrap();
    assert_eq!(parsed.address.as_ref(), "mc.example");
    assert_eq!(parsed.address_forge_version.as_deref(), Some("FML"));
    assert_eq!(parsed.port, 25565);
    assert!(matches!(parsed.next_state, NextState::Login));
}

/// Three NUL-separated segments are rejected.
#[test]
fn address_with_three_segments_is_rejected() {
    let mut payload = mcproxy::varint::write_varint(764);
    mcproxy::mcstring::write_string(&mut payload, "a\0b\0c");
    payload.extend_from_slice(&[0x63, 0xdd]);
    payload.extend_from_slice(&mcproxy::varint::write_varint(1));
    let bytes = mcproxy::packet::write_packet(0, &payload);
    let (packet, _) = read_packet(&bytes, 0).unwrap();
    assert!(matches!(
        read_handshake(&packet),
        Err(mcproxy::error::CodecError::MalformedPacket)
    ));
}

/// A packet with the wrong id is refused by every typed reader.
#[test]
fn unexpected_packet_ids() {
    let bytes = mcproxy::packet::write_packet(9, &[]);
    let (packet, _) = read_packet(&bytes, 0).unwrap();
    assert!(matches!(
        read_handshake(&packet),
        Err(mcproxy::error::CodecError::UnexpectedPacket)
    ));
    assert!(matches!(
        read_status_request(&packet),
        Err(mcproxy::error::CodecError::UnexpectedPacket)
    ));
    assert!(matches!(
        read_ping_pong(&packet),
        Err(mcproxy::error::CodecError::UnexpectedPacket)
    ));
}

/// The ping payload survives the whole echo byte-exactly.
#[test]
fn ping_pong_echo_is_exact() {
    let payload: i64 = 0x0123_4567_89ab_cdef;
    let ping = write_ping_pong(payload);
    let (ping_packet, _) = read_packet(&ping, 0).unwrap();
    assert_eq!(read_ping_pong(&ping_packet).unwrap(), payload);
    let pong = pong_reply(&ping_packet).unwrap();
    assert_eq!(pong, ping);
    let negative = write_ping_pong(-12345);
    let (np, _) = read_packet(&negative, 0).unwrap();
    assert_eq!(read_ping_pong(&np).unwrap(), -12345);
}

/// A status request must declare exactly one byte of length.
#[test]
fn status_request_length_is_checked() {
    let bytes = mcproxy::packet::write_packet(0, &[1, 2]);
    let (packet, _) = read_packet(&bytes, 0).unwrap();
    assert!(matches!(
        read_status_request(&packet),
        Err(mcproxy::error::CodecError::MalformedPacket)
    ));
}

#[test]
fn trailing_empty_segment_means_no_forge_version() {
    let mut payload = mcproxy::varint::write_varint(764);
    mcproxy::mcstring::write_string(&mut payload, "mc.example\0");
    payload.extend_from_slice(&[0x63, 0xdd]);
    payload.extend_from_slice(&mcproxy::varint::write_varint(1));
    let bytes = mcproxy::packet::write_packet(0, &payload);
    let (packet, _) = read_packet(&bytes, 0).unwrap();
    let parsed = read_handshake(&packet).unwrap();
    assert_eq!(parsed.address.as_ref(), "mc.example");
    assert_eq!(parsed.address_forge_version, None);
}

#[test]
fn discovery_is_the_fallback_behind_static_routes() {
    let config = test_config(None, None);
    let mut registry = DiscoveredServers::new();
    let hex: String = std::iter::repeat('e').take(64).collect();
    registry
        .insert(
            ServerId::Docker(ContainerId::parse(&hex).unwrap()),
            ActiveServer {
                hostnames: vec![
                    Hostname::from_str("mc.example"),
                    Hostname::from_str("dynamic.example"),
                ],
                upstream: Upstream {
                    host: String::from("10.9.9.9"),
                    port: 25599,
                },
            },
        )
        .unwrap();
    // the static route wins for mc.example
    let hs = handshake("mc.example", NextState::Ping);
    let upstream = resolve_upstream(&config, &registry, &hs).unwrap();
    assert_eq!(upstream.host, "127.0.0.1");
    // the discovered entry answers for the hostname the config lacks
    let hs = handshake("dynamic.example", NextState::Ping);
    let upstream = resolve_upstream(&config, &registry, &hs).unwrap();
    assert_eq!(upstream.host, "10.9.9.9");
    assert_eq!(upstream.port, 25599);
}
