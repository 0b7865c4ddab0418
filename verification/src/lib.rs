//! A minimal RESP-style key-value serving engine: a snapshot length codec
//! and loader, a wire-frame parser and response encoder, an expiring
//! key-value store, and a command dispatcher.

use vstd::prelude::*;

mod codec;
mod command;
mod config;
mod dispatch;
mod snapshot;
mod store;
mod sys;
mod text;
mod wire;

pub use config::config_get_frame;
pub use config::pairs_map;
pub use config::unique_pair_keys;
pub use config::RedisConfig;
pub use dispatch::dispatch;
pub use dispatch::dispatch_at;
pub use dispatch::dispatch_post;
pub use dispatch::keys_frame_of;
pub use dispatch::role_line_of;
pub use snapshot::has_magic;
pub use snapshot::le32_at;
pub use snapshot::le64_at;
pub use snapshot::load_snapshot_post;
pub use snapshot::read_string_spec;
pub use snapshot::read_values_spec;
pub use snapshot::rec_views;
pub use snapshot::records_data;
pub use snapshot::records_expiry;
pub use snapshot::scan_ops;
pub use snapshot::scan_records;
pub use snapshot::scan_table;
pub use store::get_removes;
pub use store::get_result_spec;
pub use store::get_value_post;
pub use store::lemma_enumerated_key_retrievable;
pub use store::lemma_set_with_ttl_expires;
pub use store::lemma_set_without_ttl_persists;
pub use store::lemma_sets_on_distinct_keys;
pub use store::plain_set_shape;
pub use store::px_deadline;
pub use store::set_value_post;

pub use command::classify_lines;
pub use command::declared_len;
pub use command::echo_bulks;
pub use command::echo_bulks_upto;
pub use command::find_crlf;
pub use command::frame_lines;
pub use command::nonempty_of;
pub use command::parse_frame_spec;
pub use command::split_crlf;
pub use command::RedisCommand;
pub use sys::lossy_utf8;
pub use sys::lower_of;

pub use codec::be32_at;
pub use codec::decode_len_spec;
pub use codec::encode_length;
pub use store::entries_data;
pub use store::entries_expiry;
pub use store::unique_keys;
pub use store::Entry;
pub use store::RedisData;
pub use store::ReplicationRole;
pub use text::all_digits;
pub use text::digit_char;
pub use text::digit_val;
pub use text::digits_val;
pub use text::is_digit;
pub use text::parse_i32;
pub use text::parse_i32_spec;
pub use text::parse_u64;
pub use text::parse_u64_spec;
pub use text::skip_dollars;
pub use text::str_eq;
pub use text::trim_dollars;
pub use wire::array_header_of;
pub use wire::bulk_of;
pub use wire::bulk_string;
pub use wire::bulk_string_with_len;
pub use wire::bulk_with_len;
pub use wire::bulks_of;
pub use wire::byte_len;
pub use wire::crlf;
pub use wire::dec_of;
pub use wire::error_of;
pub use wire::null_bulk;
pub use wire::simple_of;
pub use wire::u64_to_string;
pub use wire::RedisResponse;

verus! {

} // verus!
