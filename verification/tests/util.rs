use mcproxy::config::favicon_data_uri;
use mcproxy::decimal::{dec_i32_string, dec_u32_string, parse_u16};
use mcproxy::discovery::{extract_label, gather_server_information, ReplicaBehavior};
use mcproxy::error::CodecError;
use mcproxy::handshake::NextState;
use mcproxy::html::{config_value, kv_mapping, table, tr_td, Unindenter};
use mcproxy::model::{Hostname, Upstream};
use mcproxy::wire::{read_i64_be, read_u128_be, read_u16_be, push_i64_be, push_u16_be};

#[test]
fn decimal_rendering() {
    assert_eq!(dec_u32_string(0), "0");
    assert_eq!(dec_u32_string(7), "7");
    assert_eq!(dec_u32_string(25565), "25565");
    assert_eq!(dec_u32_string(u32::MAX), "4294967295");
    assert_eq!(dec_i32_string(-1), "-1");
    assert_eq!(dec_i32_string(i32::MIN), "-2147483648");
    assert_eq!(dec_i32_string(764), "764");
}

#[test]
fn port_parsing_matches_the_standard_library() {
    for s in ["0", "80", "+80", "25565", "65535", "00042"] {
        assert_eq!(parse_u16(s), s.parse::<u16>().ok(), "input {}", s);
    }
    for s in ["", "+", "65536", "99999999999999999999", "-1", "1x", " 1", "0x10"] {
        assert_eq!(parse_u16(s), None, "input {}", s);
        assert!(s.parse::<u16>().is_err(), "input {}", s);
    }
}

#[test]
fn upstream_parsing_and_formatting() {
    let u = Upstream::parse("mc.example.net:25570").unwrap();
    assert_eq!(u.host, "mc.example.net");
    assert_eq!(u.port, 25570);
    assert_eq!(u.addr_string(), "mc.example.net:25570");
    let (host, port) = u.addr();
    assert_eq!(host, "mc.example.net");
    assert_eq!(port, 25570);

    // the split happens at the first colon
    assert!(Upstream::parse("a:b:25565").is_none());
    assert!(Upstream::parse("no-port").is_none());
    assert!(Upstream::parse("host:99999").is_none());
    assert!(Upstream::parse("host:").is_none());
    let v = Upstream::parse(":25565").unwrap();
    assert_eq!(v.host, "");
}

#[test]
fn hostnames_compare_byte_exactly() {
    assert_eq!(Hostname::from_str("MC.example"), Hostname::from_str("MC.example"));
    assert_ne!(Hostname::from_str("mc.example"), Hostname::from_str("MC.example"));
    let h = Hostname::new(String::from("abc"));
    assert_eq!(h.as_ref(), "abc");
}

#[test]
fn big_endian_fields() {
    let mut out = Vec::new();
    push_u16_be(&mut out, 25565);
    assert_eq!(out, vec![0x63, 0xdd]);
    assert_eq!(read_u16_be(&out, 0), 25565);

    let mut out = Vec::new();
    push_i64_be(&mut out, 0x0123_4567_89ab_cdef);
    assert_eq!(out, vec![0x01, 0x23, 0x45, 0x67, 0x89, 0xab, 0xcd, 0xef]);
    assert_eq!(read_i64_be(&out, 0), 0x0123_4567_89ab_cdef);

    let mut out = Vec::new();
    push_i64_be(&mut out, -2);
    assert_eq!(read_i64_be(&out, 0), -2);

    let mut bytes = vec![0u8; 16];
    bytes[15] = 9;
    assert_eq!(read_u128_be(&bytes, 0), 9);
}

#[test]
fn labels_resolve_a_discovered_server() {
    let labels = vec![
        (String::from("mcproxy"), String::from("mc.example")),
        (String::from("mcproxy.port"), String::from("25570")),
    ];
    assert_eq!(
        extract_label(&labels, "mcproxy").as_deref(),
        Some("mc.example")
    );
    assert_eq!(extract_label(&labels, "absent"), None);

    let server = gather_server_information("10.0.0.9", &labels).unwrap();
    assert_eq!(server.hostnames.len(), 1);
    assert_eq!(server.hostnames[0].as_ref(), "mc.example");
    assert_eq!(server.upstream.host, "10.0.0.9");
    assert_eq!(server.upstream.port, 25570);
}

#[test]
fn replica_index_prepends_a_subdomain() {
    let labels = vec![
        (String::from("mcproxy"), String::from("mc.example")),
        (
            String::from("mcproxy.replica_behavior"),
            String::from("index-subdomain"),
        ),
        (
            String::from("com.docker.compose.container-number"),
            String::from("2"),
        ),
    ];
    let server = gather_server_information("10.0.0.9", &labels).unwrap();
    assert_eq!(server.hostnames[0].as_ref(), "2.mc.example");
    assert_eq!(server.upstream.port, 25565);

    assert_eq!(
        ReplicaBehavior::parse("index-subdomain"),
        Some(ReplicaBehavior::IndexSubdomain)
    );
    assert_eq!(ReplicaBehavior::parse("other"), None);
}

#[test]
fn unlabeled_container_is_skipped() {
    let labels = vec![(String::from("unrelated"), String::from("x"))];
    assert!(gather_server_information("10.0.0.9", &labels).is_none());
}

#[test]
fn bad_port_label_falls_back_to_the_default() {
    let labels = vec![
        (String::from("mcproxy"), String::from("mc.example")),
        (String::from("mcproxy.port"), String::from("not-a-port")),
    ];
    let server = gather_server_information("10.0.0.9", &labels).unwrap();
    assert_eq!(server.upstream.port, 25565);
}

#[test]
fn favicon_inlines_as_a_data_uri() {
    assert_eq!(favicon_data_uri(&vec![1, 2, 3]), "data:image/png;base64,AQID");
    assert_eq!(favicon_data_uri(&Vec::new()), "data:image/png;base64,");
}

#[test]
fn next_state_names() {
    assert_eq!(NextState::from_code(1).name(), "ping");
    assert_eq!(NextState::from_code(2).name(), "login");
    assert_eq!(NextState::from_code(3).name(), "transfer");
    assert_eq!(NextState::from_code(42).name(), "42");
    assert_eq!(i32::from(NextState::Login), 2);
    assert_eq!(NextState::from(3), NextState::Transfer);
}

#[test]
fn codec_error_descriptions() {
    assert_eq!(CodecError::MalformedVarInt.describe(), "malformed VarInt");
    assert_eq!(CodecError::Incomplete.describe(), "incomplete data");
}

#[test]
fn html_fragments() {
    assert_eq!(tr_td("x"), "<tr><td>x</td></tr>");
    assert_eq!(
        table(None, "<tr></tr>"),
        "<table><tbody><tr></tr></tbody></table>"
    );
    assert_eq!(
        table(Some("<tr><th>k</th></tr>"), ""),
        "<table><thead><tr><th>k</th></tr></thead><tbody></tbody></table>"
    );
    assert_eq!(
        config_value("proxy.listen_address", "0.0.0.0:25565"),
        "<tr><th scope=\"row\"><pre><code>proxy.listen_address</code></pre></th><td>0.0.0.0:25565</td></tr>"
    );
    let pairs = vec![
        (String::from("a.example"), String::from("10.0.0.1:25565")),
        (String::from("b.example"), String::from("10.0.0.2:25566")),
    ];
    assert_eq!(
        kv_mapping(&pairs),
        "<table><tr><th scope=\"row\">a.example</th><td>10.0.0.1:25565</td></tr><tr><th scope=\"row\">b.example</th><td>10.0.0.2:25566</td></tr></table>"
    );
}

#[test]
fn unindenter_strips_leading_whitespace_after_newlines() {
    let mut w = Unindenter::new();
    w.write_str("<html>\n    <body>\n        <p>text</p>");
    w.write_str(" more");
    assert_eq!(w.into_inner(), "<html>\n<body>\n<p>text</p> more");
}
