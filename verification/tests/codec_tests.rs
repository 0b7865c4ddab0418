use miniredis::{encode_length, RedisData, ReplicationRole};

fn db() -> RedisData {
    RedisData::init_db(ReplicationRole::Master, None, None)
}

fn round_trip(n: u32) {
    let encoded = encode_length(n);
    let mut cursor: usize = 0;
    let decoded = db().decode_length(&encoded, &mut cursor);
    assert_eq!(decoded, Some(n as usize));
    assert_eq!(cursor, encoded.len());
}

#[test]
fn round_trip_six_bit_class() {
    round_trip(0);
    round_trip(1);
    round_trip(42);
    round_trip(63);
}

#[test]
fn round_trip_fourteen_bit_class() {
    round_trip(64);
    round_trip(300);
    round_trip(9999);
    round_trip(16383);
}

#[test]
fn round_trip_thirty_two_bit_class() {
    round_trip(16384);
    round_trip(70000);
    round_trip(1 << 24);
    round_trip(u32::MAX);
}

#[test]
fn encode_exact_bytes() {
    assert_eq!(encode_length(5), vec![0x05]);
    assert_eq!(encode_length(300), vec![0x41, 0x2C]);
    assert_eq!(encode_length(70000), vec![0x80, 0x00, 0x01, 0x11, 0x70]);
}

#[test]
fn decode_six_bit() {
    let content = vec![0x2A, 0xEE];
    let mut cursor: usize = 0;
    assert_eq!(db().decode_length(&content, &mut cursor), Some(42));
    assert_eq!(cursor, 1);
}

#[test]
fn decode_fourteen_bit() {
    // 01 tag: (1 << 8) | 0x2C == 300
    let content = vec![0x41, 0x2C];
    let mut cursor: usize = 0;
    assert_eq!(db().decode_length(&content, &mut cursor), Some(300));
    assert_eq!(cursor, 2);
}

#[test]
fn decode_thirty_two_bit_big_endian() {
    let content = vec![0x80, 0x00, 0x01, 0x11, 0x70];
    let mut cursor: usize = 0;
    assert_eq!(db().decode_length(&content, &mut cursor), Some(70000));
    assert_eq!(cursor, 5);
}

#[test]
fn decode_special_class_falls_back_to_low_six_bits() {
    let content = vec![0xC5];
    let mut cursor: usize = 0;
    assert_eq!(db().decode_length(&content, &mut cursor), Some(5));
    assert_eq!(cursor, 1);
}

#[test]
fn decode_truncated_fourteen_bit() {
    let content = vec![0x41];
    let mut cursor: usize = 0;
    assert_eq!(db().decode_length(&content, &mut cursor), None);
    assert_eq!(cursor, 1);
}

#[test]
fn decode_truncated_thirty_two_bit() {
    let content = vec![0x80, 0x01, 0x02, 0x03];
    let mut cursor: usize = 0;
    assert_eq!(db().decode_length(&content, &mut cursor), None);
    assert_eq!(cursor, 1);
}

#[test]
fn decode_empty_buffer() {
    let content: Vec<u8> = vec![];
    let mut cursor: usize = 0;
    assert_eq!(db().decode_length(&content, &mut cursor), None);
    assert_eq!(cursor, 0);
}

#[test]
fn read_string_basic() {
    let content = vec![0x03, b'f', b'o', b'o'];
    let mut cursor: usize = 0;
    let s = db().read_string(&content, &mut cursor);
    assert_eq!(s.as_deref(), Some("foo"));
    assert_eq!(cursor, 4);
}

#[test]
fn read_string_truncated() {
    let content = vec![0x05, b'f', b'o'];
    let mut cursor: usize = 0;
    assert_eq!(db().read_string(&content, &mut cursor), None);
}

#[test]
fn read_string_invalid_utf8_is_replaced() {
    // the wrapper around lossy decoding must substitute, not echo bytes
    let content = vec![0x01, 0xFF];
    let mut cursor: usize = 0;
    let s = db().read_string(&content, &mut cursor).unwrap();
    assert_eq!(s, "\u{FFFD}");
}

#[test]
fn read_values_string_record() {
    let content = vec![0x00, 0x01, b'k', 0x01, b'v'];
    let mut cursor: usize = 0;
    let kv = db().read_values(&content, &mut cursor).unwrap();
    assert_eq!(kv.0, "k");
    assert_eq!(kv.1, "v");
    assert_eq!(cursor, 5);
}

#[test]
fn read_values_other_type_is_unsupported() {
    let content = vec![0x01, 0x01, b'k'];
    let mut cursor: usize = 0;
    assert_eq!(db().read_values(&content, &mut cursor), None);
    assert_eq!(cursor, 0);
}
