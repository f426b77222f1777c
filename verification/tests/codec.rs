use mcproxy::error::CodecError;
use mcproxy::packet::{read_packet, write_packet, write_packet_vectored};
use mcproxy::varint::{read_varint, write_varint};
use mcproxy::mcstring::{read_string, write_string};

fn varint_round_trip(n: i32) -> Vec<u8> {
    let bytes = write_varint(n);
    let vi = read_varint(&bytes, 0).expect("decode should succeed");
    assert_eq!(vi.value, n);
    assert_eq!(vi.length as usize, bytes.len());
    bytes
}

#[test]
fn varint_round_trips() {
    for &n in &[
        0i32,
        1,
        2,
        127,
        128,
        255,
        300,
        16383,
        16384,
        25565,
        2097151,
        2097152,
        268435455,
        268435456,
        i32::MAX,
        -1,
        -2147483648,
    ] {
        varint_round_trip(n);
    }
}

#[test]
fn varint_boundary_lengths() {
    assert_eq!(varint_round_trip(0).len(), 1);
    assert_eq!(varint_round_trip(127).len(), 1);
    assert_eq!(varint_round_trip(128).len(), 2);
    assert_eq!(varint_round_trip(16383).len(), 2);
    assert_eq!(varint_round_trip(16384).len(), 3);
    assert_eq!(varint_round_trip(2097151).len(), 3);
    assert_eq!(varint_round_trip(2097152).len(), 4);
    assert_eq!(varint_round_trip(268435455).len(), 4);
    assert_eq!(varint_round_trip(268435456).len(), 5);
    assert_eq!(varint_round_trip(i32::MAX).len(), 5);
    assert_eq!(varint_round_trip(-1).len(), 5);
    assert_eq!(varint_round_trip(i32::MIN).len(), 5);
}

#[test]
fn varint_known_encodings() {
    assert_eq!(write_varint(0), vec![0x00]);
    assert_eq!(write_varint(1), vec![0x01]);
    assert_eq!(write_varint(127), vec![0x7f]);
    assert_eq!(write_varint(128), vec![0x80, 0x01]);
    assert_eq!(write_varint(255), vec![0xff, 0x01]);
    assert_eq!(write_varint(25565), vec![0xdd, 0xc7, 0x01]);
    assert_eq!(write_varint(-1), vec![0xff, 0xff, 0xff, 0xff, 0x0f]);
    assert_eq!(write_varint(i32::MIN), vec![0x80, 0x80, 0x80, 0x80, 0x08]);
}

#[test]
fn varint_rejects_a_sixth_byte() {
    let bytes = vec![0x80u8, 0x80, 0x80, 0x80, 0x80, 0x01];
    assert!(matches!(
        read_varint(&bytes, 0),
        Err(CodecError::MalformedVarInt)
    ));
}

#[test]
fn varint_incomplete_asks_for_more() {
    let bytes = vec![0x80u8, 0x80];
    assert!(matches!(read_varint(&bytes, 0), Err(CodecError::Incomplete)));
}

#[test]
fn varint_decodes_at_an_offset() {
    let mut bytes = vec![0xaau8, 0xbb];
    bytes.extend(write_varint(300));
    let vi = read_varint(&bytes, 2).unwrap();
    assert_eq!(vi.value, 300);
}

#[test]
fn string_round_trip() {
    let mut out = Vec::new();
    write_string(&mut out, "mc.example");
    let (s, end) = read_string(&out, 0).unwrap();
    assert_eq!(s, "mc.example");
    assert_eq!(end, out.len());
}

#[test]
fn string_round_trip_multibyte() {
    let text = "\u{00a7}a caf\u{00e9} \u{1f310}";
    let mut out = Vec::new();
    write_string(&mut out, text);
    let (s, end) = read_string(&out, 0).unwrap();
    assert_eq!(s, text);
    assert_eq!(end, out.len());
}

#[test]
fn string_reader_replaces_invalid_utf8_lossily() {
    // declared length 2, followed by a lone continuation byte and 'a'
    let bytes = vec![0x02u8, 0x80, b'a'];
    let (s, _) = read_string(&bytes, 0).unwrap();
    assert_eq!(s, "\u{fffd}a");
}

#[test]
fn string_reader_caps_the_length() {
    // declared length 32768 exceeds the reader's cap
    let mut bytes = write_varint(32768);
    bytes.extend(std::iter::repeat(b'x').take(40000));
    assert!(matches!(
        read_string(&bytes, 0),
        Err(CodecError::StringTooLong)
    ));
}

#[test]
fn string_reader_rejects_negative_length() {
    let bytes = write_varint(-1);
    assert!(matches!(
        read_string(&bytes, 0),
        Err(CodecError::MalformedPacket)
    ));
}

#[test]
fn packet_round_trip() {
    let data = vec![1u8, 2, 3, 4, 5];
    let bytes = write_packet(0x42, &data);
    let (p, end) = read_packet(&bytes, 0).unwrap();
    assert_eq!(p.id, 0x42);
    assert_eq!(p.data, data);
    assert_eq!(p.length, 6); // one id byte plus five data bytes
    assert_eq!(end, bytes.len());
}

#[test]
fn packet_round_trip_empty() {
    let bytes = write_packet(0x00, &[]);
    assert_eq!(bytes, vec![0x01, 0x00]);
    let (p, _) = read_packet(&bytes, 0).unwrap();
    assert_eq!(p.id, 0);
    assert_eq!(p.length, 1);
    assert!(p.data.is_empty());
}

#[test]
fn packet_vectored_matches_concatenation() {
    let a: &[u8] = &[1, 2, 3];
    let b: &[u8] = &[];
    let c: &[u8] = &[4, 5];
    let vectored = write_packet_vectored(7, &[a, b, c]);
    let plain = write_packet(7, &[1, 2, 3, 4, 5]);
    assert_eq!(vectored, plain);
}

#[test]
fn packet_reader_bounds_the_declared_length() {
    // declared length far over the cap
    let mut bytes = write_varint(0x0020_0000);
    bytes.push(0x00);
    assert!(matches!(
        read_packet(&bytes, 0),
        Err(CodecError::MalformedPacket)
    ));
}

#[test]
fn packet_reader_asks_for_missing_payload() {
    let full = write_packet(1, &[9, 9, 9, 9]);
    let partial = &full[..full.len() - 2];
    assert!(matches!(
        read_packet(partial, 0),
        Err(CodecError::Incomplete)
    ));
}

#[test]
fn packet_reader_rejects_length_shorter_than_id() {
    // declared length 1, but the id encoding takes five bytes
    let mut bytes = write_varint(1);
    bytes.extend(write_varint(-1));
    assert!(matches!(
        read_packet(&bytes, 0),
        Err(CodecError::MalformedPacket)
    ));
}

#[test]
fn varint_noncanonical_encodings_still_decode() {
    // 0 written in two bytes: a continuation byte with no data
    let bytes = vec![0x80u8, 0x00];
    let vi = read_varint(&bytes, 0).unwrap();
    assert_eq!(vi.value, 0);
    assert_eq!(vi.length, 2);
    // five groups whose high bits exceed 32 bits are truncated
    let bytes = vec![0xffu8, 0xff, 0xff, 0xff, 0x7f];
    let vi = read_varint(&bytes, 0).unwrap();
    assert_eq!(vi.value, -1);
}

#[test]
fn string_reader_consumes_only_its_own_bytes() {
    let mut out = Vec::new();
    write_string(&mut out, "ab");
    let boundary = out.len();
    out.extend_from_slice(&[0xde, 0xad]);
    let (s, end) = read_string(&out, 0).unwrap();
    assert_eq!(s, "ab");
    assert_eq!(end, boundary);
}
