use miniredis::{
    dispatch_at, RedisCommand, RedisConfig, RedisData, ReplicationRole,
};

fn db() -> RedisData {
    RedisData::init_db(ReplicationRole::Master, None, None)
}

fn cfg() -> RedisConfig {
    RedisConfig::new()
}

fn parse(frame: &str) -> RedisCommand {
    RedisCommand::parser_receive(frame).unwrap()
}

#[test]
fn scenario_echo_frame() {
    let mut store = db();
    let conf = cfg();
    let cmd = parse("*2\r\n$4\r\nECHO\r\n$2\r\nhi\r\n");
    let resp = dispatch_at(&cmd, &mut store, &conf, 0);
    assert_eq!(resp.as_deref(), Some("$2\r\nhi\r\n"));
}

#[test]
fn scenario_set_then_get() {
    let mut store = db();
    let conf = cfg();
    let set = parse("*3\r\n$3\r\nSET\r\n$1\r\nk\r\n$1\r\nv\r\n");
    let r1 = dispatch_at(&set, &mut store, &conf, 0);
    assert_eq!(r1.as_deref(), Some("+OK\r\n"));
    let get = parse("*2\r\n$3\r\nGET\r\n$1\r\nk\r\n");
    let r2 = dispatch_at(&get, &mut store, &conf, 0);
    assert_eq!(r2.as_deref(), Some("$1\r\nv\r\n"));
}

#[test]
fn echo_replies_with_the_declared_length() {
    // a declared length that disagrees with the payload is echoed as is
    let mut store = db();
    let conf = cfg();
    let cmd = parse("*2\r\n$4\r\nECHO\r\n$3\r\nhi\r\n");
    let resp = dispatch_at(&cmd, &mut store, &conf, 0);
    assert_eq!(resp.as_deref(), Some("$3\r\nhi\r\n"));
}

#[test]
fn ping_answers_pong() {
    let mut store = db();
    let conf = cfg();
    let cmd = parse("*1\r\n$4\r\nPING\r\n");
    let resp = dispatch_at(&cmd, &mut store, &conf, 0);
    assert_eq!(resp.as_deref(), Some("+PONG\r\n"));
}

#[test]
fn get_absent_key_answers_null_bulk() {
    let mut store = db();
    let conf = cfg();
    let cmd = parse("*2\r\n$3\r\nGET\r\n$7\r\nmissing\r\n");
    let resp = dispatch_at(&cmd, &mut store, &conf, 0);
    assert_eq!(resp.as_deref(), Some("$-1\r\n"));
}

#[test]
fn unknown_command_is_silence() {
    let mut store = db();
    let conf = cfg();
    let cmd = parse("*1\r\n$7\r\nUNKNOWN\r\n");
    assert_eq!(dispatch_at(&cmd, &mut store, &conf, 0), None);
}

#[test]
fn set_with_too_few_arguments_is_an_error() {
    let mut store = db();
    let conf = cfg();
    let cmd = parse("*2\r\n$3\r\nSET\r\n$1\r\nk\r\n");
    let resp = dispatch_at(&cmd, &mut store, &conf, 0);
    assert_eq!(resp.as_deref(), Some("-wrong number of arguments\r\n"));
}

#[test]
fn get_with_no_key_is_an_error() {
    let mut store = db();
    let conf = cfg();
    let cmd = parse("*1\r\n$3\r\nGET\r\n");
    let resp = dispatch_at(&cmd, &mut store, &conf, 0);
    assert_eq!(resp.as_deref(), Some("-wrong number of arguments\r\n"));
}

#[test]
fn set_with_unparsable_px_offset_is_an_error() {
    let mut store = db();
    let conf = cfg();
    let cmd = parse("*5\r\n$3\r\nSET\r\n$1\r\nk\r\n$1\r\nv\r\n$2\r\nPX\r\n$4\r\nsoon\r\n");
    let resp = dispatch_at(&cmd, &mut store, &conf, 0);
    assert_eq!(resp.as_deref(), Some("-Parsing time failed!\r\n"));
}

#[test]
fn set_with_overflowing_px_offset_is_an_error() {
    let mut store = db();
    let conf = cfg();
    let cmd = parse(
        "*5\r\n$3\r\nSET\r\n$1\r\nk\r\n$1\r\nv\r\n$2\r\nPX\r\n$20\r\n18446744073709551616\r\n",
    );
    let resp = dispatch_at(&cmd, &mut store, &conf, 0);
    assert_eq!(resp.as_deref(), Some("-Parsing time failed!\r\n"));
}

#[test]
fn set_with_huge_px_offset_saturates_and_survives() {
    let mut store = db();
    let conf = cfg();
    let cmd = parse(
        "*5\r\n$3\r\nSET\r\n$1\r\nk\r\n$1\r\nv\r\n$2\r\nPX\r\n$20\r\n18446744073709551615\r\n",
    );
    let r = dispatch_at(&cmd, &mut store, &conf, 100);
    assert_eq!(r.as_deref(), Some("+OK\r\n"));
    let get = parse("*2\r\n$3\r\nGET\r\n$1\r\nk\r\n");
    let resp = dispatch_at(&get, &mut store, &conf, u64::MAX);
    assert_eq!(resp.as_deref(), Some("$1\r\nv\r\n"));
}

#[test]
fn set_without_ttl_keeps_a_stale_deadline() {
    // a later set without a TTL option does not clear the key's deadline
    let mut store = db();
    let conf = cfg();
    dispatch_at(
        &parse("*5\r\n$3\r\nSET\r\n$1\r\nk\r\n$2\r\nv1\r\n$2\r\nPX\r\n$3\r\n100\r\n"),
        &mut store,
        &conf,
        1000,
    );
    dispatch_at(&parse("*3\r\n$3\r\nSET\r\n$1\r\nk\r\n$2\r\nv2\r\n"), &mut store, &conf, 1050);
    let get = parse("*2\r\n$3\r\nGET\r\n$1\r\nk\r\n");
    let before = dispatch_at(&get, &mut store, &conf, 1080);
    assert_eq!(before.as_deref(), Some("$2\r\nv2\r\n"));
    let after = dispatch_at(&get, &mut store, &conf, 1200);
    assert_eq!(after.as_deref(), Some("$-1\r\n"));
}

#[test]
fn set_without_ttl_persists_indefinitely() {
    let mut store = db();
    let conf = cfg();
    let set = parse("*3\r\n$3\r\nSET\r\n$1\r\nk\r\n$1\r\nv\r\n");
    dispatch_at(&set, &mut store, &conf, 0);
    let get = parse("*2\r\n$3\r\nGET\r\n$1\r\nk\r\n");
    let far_future = u64::MAX;
    let resp = dispatch_at(&get, &mut store, &conf, far_future);
    assert_eq!(resp.as_deref(), Some("$1\r\nv\r\n"));
}

#[test]
fn set_with_px_expires_after_the_deadline() {
    let mut store = db();
    let conf = cfg();
    let set = parse("*5\r\n$3\r\nSET\r\n$1\r\nk\r\n$1\r\nv\r\n$2\r\nPX\r\n$3\r\n100\r\n");
    let r = dispatch_at(&set, &mut store, &conf, 1000);
    assert_eq!(r.as_deref(), Some("+OK\r\n"));
    let get = parse("*2\r\n$3\r\nGET\r\n$1\r\nk\r\n");

    // before the deadline the value is served
    let before = dispatch_at(&get, &mut store, &conf, 1099);
    assert_eq!(before.as_deref(), Some("$1\r\nv\r\n"));

    // the store evicts only strictly past the deadline
    let at = dispatch_at(&get, &mut store, &conf, 1100);
    assert_eq!(at.as_deref(), Some("$1\r\nv\r\n"));

    // past the deadline the key reads absent and leaves enumeration
    let after = dispatch_at(&get, &mut store, &conf, 1101);
    assert_eq!(after.as_deref(), Some("$-1\r\n"));
    let keys = parse("*2\r\n$4\r\nKEYS\r\n$1\r\n*\r\n");
    let listing = dispatch_at(&keys, &mut store, &conf, 1102);
    assert_eq!(listing.as_deref(), Some("*0\r\n"));
}

#[test]
fn sets_on_distinct_keys_are_independent() {
    let mut store = db();
    let conf = cfg();
    dispatch_at(&parse("*3\r\n$3\r\nSET\r\n$1\r\na\r\n$1\r\n1\r\n"), &mut store, &conf, 0);
    dispatch_at(&parse("*3\r\n$3\r\nSET\r\n$1\r\nb\r\n$1\r\n2\r\n"), &mut store, &conf, 0);
    let ra = dispatch_at(&parse("*2\r\n$3\r\nGET\r\n$1\r\na\r\n"), &mut store, &conf, 9);
    let rb = dispatch_at(&parse("*2\r\n$3\r\nGET\r\n$1\r\nb\r\n"), &mut store, &conf, 9);
    assert_eq!(ra.as_deref(), Some("$1\r\n1\r\n"));
    assert_eq!(rb.as_deref(), Some("$1\r\n2\r\n"));
}

#[test]
fn enumerated_keys_are_retrievable() {
    let mut store = db();
    let conf = cfg();
    dispatch_at(&parse("*3\r\n$3\r\nSET\r\n$3\r\nfoo\r\n$3\r\nbar\r\n"), &mut store, &conf, 0);
    let keys = dispatch_at(&parse("*2\r\n$4\r\nKEYS\r\n$1\r\n*\r\n"), &mut store, &conf, 0);
    assert_eq!(keys.as_deref(), Some("*1\r\n$3\r\nfoo\r\n"));
    let got = dispatch_at(&parse("*2\r\n$3\r\nGET\r\n$3\r\nfoo\r\n"), &mut store, &conf, 0);
    assert_eq!(got.as_deref(), Some("$3\r\nbar\r\n"));
}

#[test]
fn keys_on_empty_store_answers_empty_array() {
    let mut store = db();
    let conf = cfg();
    let resp = dispatch_at(&parse("*2\r\n$4\r\nKEYS\r\n$1\r\n*\r\n"), &mut store, &conf, 0);
    assert_eq!(resp.as_deref(), Some("*0\r\n"));
}

#[test]
fn keys_with_other_pattern_is_silence() {
    let mut store = db();
    let conf = cfg();
    dispatch_at(&parse("*3\r\n$3\r\nSET\r\n$1\r\nk\r\n$1\r\nv\r\n"), &mut store, &conf, 0);
    let resp = dispatch_at(&parse("*2\r\n$4\r\nKEYS\r\n$2\r\nk*\r\n"), &mut store, &conf, 0);
    assert_eq!(resp, None);
}

#[test]
fn config_get_answers_name_and_value() {
    let mut store = db();
    let mut conf = cfg();
    conf.put("--dir".to_string(), "data".to_string());
    let cmd = parse("*3\r\n$6\r\nCONFIG\r\n$3\r\nGET\r\n$3\r\ndir\r\n");
    let resp = dispatch_at(&cmd, &mut store, &conf, 0);
    assert_eq!(resp.as_deref(), Some("*2\r\n$3\r\ndir\r\n$4\r\ndata\r\n"));
}

#[test]
fn config_get_unset_name_answers_empty_value() {
    let mut store = db();
    let conf = cfg();
    let cmd = parse("*3\r\n$6\r\nCONFIG\r\n$3\r\nGET\r\n$10\r\ndbfilename\r\n");
    let resp = dispatch_at(&cmd, &mut store, &conf, 0);
    assert_eq!(resp.as_deref(), Some("*2\r\n$10\r\ndbfilename\r\n$0\r\n\r\n"));
}

#[test]
fn config_set_is_accepted_and_silent() {
    let mut store = db();
    let conf = cfg();
    let cmd = parse("*4\r\n$6\r\nCONFIG\r\n$3\r\nSET\r\n$3\r\ndir\r\n$4\r\ndata\r\n");
    assert_eq!(dispatch_at(&cmd, &mut store, &conf, 0), None);
}

#[test]
fn info_reports_master_role() {
    let mut store = db();
    let conf = cfg();
    let resp = dispatch_at(&parse("*1\r\n$4\r\nINFO\r\n"), &mut store, &conf, 0);
    assert_eq!(resp.as_deref(), Some("$11\r\nrole:master\r\n"));
}

#[test]
fn info_reports_slave_role() {
    let mut store = RedisData::init_db(
        ReplicationRole::Slave,
        Some("peer.example".to_string()),
        Some(6380),
    );
    let conf = cfg();
    let resp = dispatch_at(&parse("*1\r\n$4\r\nINFO\r\n"), &mut store, &conf, 0);
    assert_eq!(resp.as_deref(), Some("$10\r\nrole:slave\r\n"));
}

#[test]
fn set_overwrites_the_previous_value() {
    let mut store = db();
    let conf = cfg();
    dispatch_at(&parse("*3\r\n$3\r\nSET\r\n$1\r\nk\r\n$3\r\nold\r\n"), &mut store, &conf, 0);
    dispatch_at(&parse("*3\r\n$3\r\nSET\r\n$1\r\nk\r\n$3\r\nnew\r\n"), &mut store, &conf, 0);
    let resp = dispatch_at(&parse("*2\r\n$3\r\nGET\r\n$1\r\nk\r\n"), &mut store, &conf, 0);
    assert_eq!(resp.as_deref(), Some("$3\r\nnew\r\n"));
}

#[test]
fn get_role_and_host_port_report_identity() {
    let store = RedisData::init_db(
        ReplicationRole::Slave,
        Some("peer.example".to_string()),
        Some(6380),
    );
    assert!(matches!(store.get_role(), ReplicationRole::Slave));
    let (host, port) = store.get_host_port();
    assert_eq!(host.as_deref(), Some("peer.example"));
    assert_eq!(port, Some(6380));
}

#[test]
fn get_all_keys_is_absent_on_an_empty_store() {
    let store = db();
    assert!(store.get_all_keys().is_none());
}

#[test]
fn wall_clock_set_and_get_round_trip() {
    let mut store = db();
    let set = parse("*3\r\n$3\r\nSET\r\n$1\r\nk\r\n$1\r\nv\r\n");
    let r = store.set_value(&set);
    assert_eq!(r.to_string(), "+OK\r\n");
    let get = parse("*2\r\n$3\r\nGET\r\n$1\r\nk\r\n");
    assert_eq!(store.get_value(&get).as_deref(), Some("v"));
}

#[test]
fn wall_clock_dispatch_answers_ping() {
    let mut store = db();
    let conf = cfg();
    let resp = miniredis::dispatch(&parse("*1\r\n$4\r\nPING\r\n"), &mut store, &conf);
    assert_eq!(resp.as_deref(), Some("+PONG\r\n"));
}
