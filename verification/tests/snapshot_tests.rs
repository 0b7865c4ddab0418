use miniredis::{
    dispatch_at, RedisCommand, RedisConfig, RedisData, ReplicationRole, RedisResponse,
};

fn db() -> RedisData {
    RedisData::init_db(ReplicationRole::Master, None, None)
}

fn parse(frame: &str) -> RedisCommand {
    RedisCommand::parser_receive(frame).unwrap()
}

fn is_error_with(r: &RedisResponse, msg: &str) -> bool {
    match r {
        RedisResponse::Error(m) => m == msg,
        RedisResponse::OK(_) => false,
    }
}

fn is_ok(r: &RedisResponse) -> bool {
    matches!(r, RedisResponse::OK(_))
}

#[test]
fn bad_magic_fails_the_load_and_leaves_zero_keys() {
    let mut store = db();
    let content = b"XEDIS0011".to_vec();
    let r = store.load_snapshot(&content);
    assert!(is_error_with(&r, "Magic string failed"));
    assert!(store.get_all_keys().is_none());
}

#[test]
fn short_buffer_fails_the_magic_check() {
    let mut store = db();
    let content = b"RED".to_vec();
    let r = store.load_snapshot(&content);
    assert!(is_error_with(&r, "Magic string failed"));
    assert!(store.get_all_keys().is_none());
}

#[test]
fn scenario_one_record_snapshot_loads_and_serves() {
    let mut store = db();
    let mut content = b"REDIS0011".to_vec();
    content.extend_from_slice(&[0xFB, 1, 0]);
    content.extend_from_slice(&[0x00, 3]);
    content.extend_from_slice(b"foo");
    content.push(3);
    content.extend_from_slice(b"bar");
    content.push(0xFF);
    let r = store.load_snapshot(&content);
    assert!(is_ok(&r));

    let conf = RedisConfig::new();
    let get = parse("*2\r\n$3\r\nGET\r\n$3\r\nfoo\r\n");
    let resp = dispatch_at(&get, &mut store, &conf, 0);
    assert_eq!(resp.as_deref(), Some("$3\r\nbar\r\n"));

    let keys = store.get_all_keys().unwrap();
    assert_eq!(keys, vec!["foo".to_string()]);
}

#[test]
fn millisecond_expiry_record_is_honoured() {
    let mut store = db();
    let mut content = b"REDIS".to_vec();
    content.extend_from_slice(&[0xFB, 1, 1]);
    // deadline 5000 ms, little-endian over eight bytes
    content.push(0xFC);
    content.extend_from_slice(&[0x88, 0x13, 0, 0, 0, 0, 0, 0]);
    content.extend_from_slice(&[0x00, 1, b'k', 1, b'v']);
    content.push(0xFF);
    assert!(is_ok(&store.load_snapshot(&content)));

    let conf = RedisConfig::new();
    let get = parse("*2\r\n$3\r\nGET\r\n$1\r\nk\r\n");
    let before = dispatch_at(&get, &mut store, &conf, 4000);
    assert_eq!(before.as_deref(), Some("$1\r\nv\r\n"));
    let after = dispatch_at(&get, &mut store, &conf, 6000);
    assert_eq!(after.as_deref(), Some("$-1\r\n"));
}

#[test]
fn second_expiry_record_reads_four_bytes_and_advances_eight() {
    let mut store = db();
    let mut content = b"REDIS".to_vec();
    content.extend_from_slice(&[0xFB, 1, 1]);
    // ten seconds, little-endian over four bytes, then four padding bytes
    content.push(0xFD);
    content.extend_from_slice(&[10, 0, 0, 0]);
    content.extend_from_slice(&[0, 0, 0, 0]);
    content.extend_from_slice(&[0x00, 1, b'k', 1, b'v']);
    content.push(0xFF);
    assert!(is_ok(&store.load_snapshot(&content)));

    let conf = RedisConfig::new();
    let get = parse("*2\r\n$3\r\nGET\r\n$1\r\nk\r\n");
    let before = dispatch_at(&get, &mut store, &conf, 9_000);
    assert_eq!(before.as_deref(), Some("$1\r\nv\r\n"));
    let after = dispatch_at(&get, &mut store, &conf, 11_000);
    assert_eq!(after.as_deref(), Some("$-1\r\n"));
}

#[test]
fn truncated_record_fails_the_load_and_changes_nothing() {
    let mut store = db();
    let conf = RedisConfig::new();
    let set = parse("*3\r\n$3\r\nSET\r\n$3\r\nold\r\n$3\r\nval\r\n");
    dispatch_at(&set, &mut store, &conf, 0);

    let mut content = b"REDIS".to_vec();
    content.extend_from_slice(&[0xFB, 2, 0]);
    content.extend_from_slice(&[0x00, 3]);
    content.extend_from_slice(b"foo");
    // the value and the second record are missing
    let r = store.load_snapshot(&content);
    assert!(is_error_with(&r, "Malformed snapshot"));

    let get = parse("*2\r\n$3\r\nGET\r\n$3\r\nold\r\n");
    let resp = dispatch_at(&get, &mut store, &conf, 0);
    assert_eq!(resp.as_deref(), Some("$3\r\nval\r\n"));
    let missing = parse("*2\r\n$3\r\nGET\r\n$3\r\nfoo\r\n");
    assert_eq!(dispatch_at(&missing, &mut store, &conf, 0).as_deref(), Some("$-1\r\n"));
}

#[test]
fn unknown_opcodes_and_auxiliary_fields_are_skipped() {
    let mut store = db();
    let mut content = b"REDIS0007".to_vec();
    content.push(0xFA);
    content.push(0xFE);
    content.push(0x42);
    content.extend_from_slice(&[0xFB, 1, 0]);
    content.extend_from_slice(&[0x00, 1, b'a', 1, b'b']);
    content.push(0xFF);
    // trailing checksum bytes are never inspected
    content.extend_from_slice(&[1, 2, 3, 4, 5, 6, 7, 8]);
    assert!(is_ok(&store.load_snapshot(&content)));
    let keys = store.get_all_keys().unwrap();
    assert_eq!(keys, vec!["a".to_string()]);
}

#[test]
fn end_of_file_opcode_stops_the_scan() {
    let mut store = db();
    let mut content = b"REDIS".to_vec();
    content.push(0xFF);
    // a table after the end marker is never read
    content.extend_from_slice(&[0xFB, 1, 0, 0x00, 1, b'x', 1, b'y']);
    assert!(is_ok(&store.load_snapshot(&content)));
    assert!(store.get_all_keys().is_none());
}

#[test]
fn later_record_overwrites_an_earlier_key() {
    let mut store = db();
    let mut content = b"REDIS".to_vec();
    content.extend_from_slice(&[0xFB, 2, 0]);
    content.extend_from_slice(&[0x00, 1, b'k', 1, b'1']);
    content.extend_from_slice(&[0x00, 1, b'k', 1, b'2']);
    content.push(0xFF);
    assert!(is_ok(&store.load_snapshot(&content)));
    let conf = RedisConfig::new();
    let get = parse("*2\r\n$3\r\nGET\r\n$1\r\nk\r\n");
    let resp = dispatch_at(&get, &mut store, &conf, 0);
    assert_eq!(resp.as_deref(), Some("$1\r\n2\r\n"));
    assert_eq!(store.get_all_keys().unwrap().len(), 1);
}

#[test]
fn invalid_utf8_in_a_record_is_replaced_not_dropped() {
    let mut store = db();
    let mut content = b"REDIS".to_vec();
    content.extend_from_slice(&[0xFB, 1, 0]);
    content.extend_from_slice(&[0x00, 1, b'k', 2, 0xFF, 0xFE]);
    content.push(0xFF);
    assert!(is_ok(&store.load_snapshot(&content)));
    let conf = RedisConfig::new();
    let get = parse("*2\r\n$3\r\nGET\r\n$1\r\nk\r\n");
    let resp = dispatch_at(&get, &mut store, &conf, 0).unwrap();
    assert_eq!(resp, format!("$6\r\n\u{FFFD}\u{FFFD}\r\n"));
}
