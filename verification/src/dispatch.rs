//! The command dispatcher: one parsed command applied to the store and
//! the configuration, yielding the encoded reply, if any. Unrecognized
//! command names produce no reply and no error, as the protocol's
//! silence policy has it.

use vstd::prelude::*;
use vstd::string::StringExecFns;
use crate::command::echo_bulks;
use crate::command::RedisCommand;
use crate::config::config_get_frame;
use crate::config::RedisConfig;
use crate::store::get_result_spec;
use crate::store::get_value_post;
use crate::store::set_value_post;
use crate::store::RedisData;
use crate::store::ReplicationRole;
use crate::sys::now_millis;
use crate::text::str_eq;
use crate::wire::array_header_of;
use crate::wire::bulk_of;
use crate::wire::bulk_string;
use crate::wire::bulks_of;
use crate::wire::error_of;
use crate::wire::null_bulk;
use crate::wire::u64_to_string;
use crate::wire::RedisResponse;

verus! {

/// The `INFO` role line for a replication role.
pub open spec fn role_line_of(role: ReplicationRole) -> Seq<char> {
    match role {
        ReplicationRole::Master => "role:master"@,
        ReplicationRole::Slave => "role:slave"@,
    }
}

/// The `KEYS *` reply for an enumeration.
pub open spec fn keys_frame_of(keys: Seq<Seq<char>>) -> Seq<char> {
    if keys.len() == 0 {
        "*0\r\n"@
    } else {
        array_header_of(keys.len()) + bulks_of(keys)
    }
}

/// How one dispatched command relates the store before and after, and
/// what reply it sends, at time `now`. `None` is silence.
pub open spec fn dispatch_post(
    pre: RedisData,
    post: RedisData,
    cmd_len: i32,
    lens: Seq<i32>,
    args: Seq<Seq<char>>,
    cfg: Map<Seq<char>, Seq<char>>,
    now: u64,
    resp: Option<Seq<char>>,
) -> bool {
    if args.len() == 0 {
        post == pre && resp is None
    } else if args[0] == "echo"@ {
        post == pre && resp == Some(echo_bulks(lens, args))
    } else if args[0] == "ping"@ {
        post == pre && resp == Some("+PONG\r\n"@)
    } else if args[0] == "set"@ {
        exists|r: RedisResponse|
            set_value_post(pre, post, cmd_len, args, now, r) && resp == Some(r.wire())
    } else if args[0] == "get"@ {
        if args.len() < 2 {
            post == pre && resp == Some(error_of("wrong number of arguments"@))
        } else {
            &&& get_value_post(pre, post, args[1], now, get_result_spec(pre, args[1], now))
            &&& resp == Some(
                match get_result_spec(pre, args[1], now) {
                    Some(v) => bulk_of(v),
                    None => null_bulk(),
                },
            )
        }
    } else if args[0] == "config"@ {
        &&& post == pre
        &&& resp == if args.len() >= 2 && args[1] == "get"@ {
            if args.len() >= 3 {
                Some(config_get_frame(cfg, args[2]))
            } else {
                Some(error_of("wrong number of arguments"@))
            }
        } else {
            None::<Seq<char>>
        }
    } else if args[0] == "keys"@ {
        &&& post == pre
        &&& resp == if args.len() >= 2 && args[1] == "*"@ {
            Some(keys_frame_of(pre.key_seq()))
        } else {
            None::<Seq<char>>
        }
    } else if args[0] == "info"@ {
        post == pre && resp == Some(bulk_of(role_line_of(pre.repl_role())))
    } else {
        post == pre && resp is None
    }
}

/// Dispatch one command at the given time: match its lower-cased name,
/// run the store or configuration operation, and encode the reply.
pub fn dispatch_at(
    command: &RedisCommand,
    db: &mut RedisData,
    config: &RedisConfig,
    now_ms: u64,
) -> (resp: Option<String>)
    requires
        old(db).wf(),
        config.cfg_wf(),
    ensures
        final(db).wf(),
        dispatch_post(
            *old(db),
            *final(db),
            command.cmd_len,
            command.n_chars_len@,
            command.str_cmd.deep_view(),
            config.cfg_map(),
            now_ms,
            resp.deep_view(),
        ),
{
    let ghost args = command.str_cmd.deep_view();
    proof {
        assert(forall|k: int| 0 <= k < args.len() ==> args[k] == command.str_cmd@[k]@);
    }
    if command.str_cmd.len() == 0 {
        return None;
    }
    let name = &command.str_cmd[0];
    if str_eq(name.as_str(), "echo") {
        Some(command.format_response_code(None))
    } else if str_eq(name.as_str(), "ping") {
        Some(String::from_str("+PONG\r\n"))
    } else if str_eq(name.as_str(), "set") {
        let r = db.set_value_at(command, now_ms);
        let out = r.to_string();
        proof {
            assert(set_value_post(*old(db), *db, command.cmd_len, args, now_ms, r));
        }
        Some(out)
    } else if str_eq(name.as_str(), "get") {
        if command.str_cmd.len() < 2 {
            let e = RedisResponse::Error(String::from_str("wrong number of arguments"));
            return Some(e.to_string());
        }
        match db.get_value_at(command, now_ms) {
            Some(v) => Some(command.format_response_code(Some(v))),
            None => {
                let nb = String::from_str("$-1\r\n");
                proof {
                    reveal_strlit("$-1\r\n");
                    assert(nb@ =~= null_bulk());
                }
                Some(nb)
            },
        }
    } else if str_eq(name.as_str(), "config") {
        if command.str_cmd.len() >= 2 {
            if str_eq(command.str_cmd[1].as_str(), "get") {
                if command.str_cmd.len() >= 3 {
                    Some(config.get_config(command))
                } else {
                    let e = RedisResponse::Error(String::from_str("wrong number of arguments"));
                    Some(e.to_string())
                }
            } else {
                None
            }
        } else {
            None
        }
    } else if str_eq(name.as_str(), "keys") {
        if command.str_cmd.len() >= 2 {
            if str_eq(command.str_cmd[1].as_str(), "*") {
                match db.get_all_keys() {
                    None => {
                        let empty_frame = String::from_str("*0\r\n");
                        proof {
                            assert(empty_frame@ == keys_frame_of(db.key_seq()));
                        }
                        Some(empty_frame)
                    },
                    Some(keys) => {
                        let ghost kdv = keys.deep_view();
                        proof {
                            assert(forall|k: int| 0 <= k < kdv.len() ==> kdv[k] == keys@[k]@);
                        }
                        let mut r = String::from_str("*");
                        let num = u64_to_string(keys.len() as u64);
                        r.append(num.as_str());
                        r.append("\r\n");
                        proof {
                            reveal_strlit("*");
                            reveal_strlit("\r\n");
                            assert(r@ =~= array_header_of(kdv.len() as nat));
                            assert(kdv.take(0) =~= Seq::<Seq<char>>::empty());
                        }
                        let n = keys.len();
                        let mut i: usize = 0;
                        while i < n
                            invariant
                                n == keys@.len(),
                                i <= n,
                                kdv == keys.deep_view(),
                                kdv.len() == n,
                                forall|k: int| 0 <= k < kdv.len() ==> kdv[k] == keys@[k]@,
                                r@ == array_header_of(kdv.len() as nat) + bulks_of(
                                    kdv.take(i as int),
                                ),
                            decreases n - i,
                        {
                            let b = bulk_string(keys[i].as_str());
                            r.append(b.as_str());
                            proof {
                                assert(kdv.take(i + 1).drop_last() =~= kdv.take(i as int));
                                assert(kdv.take(i + 1).last() == kdv[i as int]);
                            }
                            i += 1;
                        }
                        proof {
                            assert(kdv.take(n as int) =~= kdv);
                            assert(r@ == keys_frame_of(db.key_seq()));
                        }
                        Some(r)
                    },
                }
            } else {
                None
            }
        } else {
            None
        }
    } else if str_eq(name.as_str(), "info") {
        let role_line = match db.get_role() {
            ReplicationRole::Master => String::from_str("role:master"),
            ReplicationRole::Slave => String::from_str("role:slave"),
        };
        Some(command.format_response_code(Some(role_line)))
    } else {
        None
    }
}

/// As `dispatch_at`, at the wall clock's current time.
pub fn dispatch(command: &RedisCommand, db: &mut RedisData, config: &RedisConfig) -> (resp: Option<
    String,
>)
    requires
        old(db).wf(),
        config.cfg_wf(),
    ensures
        final(db).wf(),
        exists|now: u64| dispatch_post(
            *old(db),
            *final(db),
            command.cmd_len,
            command.n_chars_len@,
            command.str_cmd.deep_view(),
            config.cfg_map(),
            now,
            resp.deep_view(),
        ),
{
    let now = now_millis();
    let resp = dispatch_at(command, db, config, now);
    proof {
        assert(dispatch_post(
            *old(db),
            *db,
            command.cmd_len,
            command.n_chars_len@,
            command.str_cmd.deep_view(),
            config.cfg_map(),
            now,
            resp.deep_view(),
        ));
    }
    resp
}

} // verus!
