//! The snapshot loader: scans a binary snapshot buffer by leading opcode
//! and populates the store. Only the magic-header check is all-or-nothing;
//! any out-of-bounds read past the header fails the whole load.

use vstd::prelude::*;
use vstd::slice::slice_subrange;
use vstd::string::StringExecFns;
use crate::codec::decode_len_spec;
use crate::store::Entry;
use crate::store::RedisData;
use crate::sys::lossy_utf8;
use crate::sys::utf8_lossy;
use crate::wire::RedisResponse;

verus! {

/// The little-endian 64-bit integer formed by eight bytes of `c` at `p`:
/// how the snapshot format stores a millisecond timestamp.
pub open spec fn le64_at(c: Seq<u8>, p: int) -> int {
    c[p] + c[p + 1] * 0x100 + c[p + 2] * 0x10000 + c[p + 3] * 0x1000000 + c[p + 4] * 0x100000000
        + c[p + 5] * 0x10000000000 + c[p + 6] * 0x1000000000000 + c[p + 7] * 0x100000000000000
}

/// The little-endian 32-bit integer formed by four bytes of `c` at `p`.
pub open spec fn le32_at(c: Seq<u8>, p: int) -> int {
    c[p] + c[p + 1] * 0x100 + c[p + 2] * 0x10000 + c[p + 3] * 0x1000000
}

/// What one length-prefixed string read yields: the decoded characters
/// (absent on truncation) and the cursor afterwards.
pub open spec fn read_string_spec(c: Seq<u8>, p: int) -> (Option<Seq<char>>, int) {
    let dl = decode_len_spec(c, p);
    match dl.0 {
        None => (None::<Seq<char>>, dl.1),
        Some(len) => if dl.1 + len <= c.len() {
            (Some(lossy_utf8(c.subrange(dl.1, dl.1 + len))), dl.1 + len)
        } else {
            (None::<Seq<char>>, dl.1)
        },
    }
}

/// What one key/value read yields: a string-typed record introduced by a
/// zero byte, then two length-prefixed strings. Any other leading byte
/// yields nothing and leaves the cursor in place.
pub open spec fn read_values_spec(c: Seq<u8>, p: int) -> (Option<(Seq<char>, Seq<char>)>, int) {
    if !(0 <= p < c.len()) {
        (None::<(Seq<char>, Seq<char>)>, p)
    } else if c[p] == 0x00 {
        let kr = read_string_spec(c, p + 1);
        match kr.0 {
            None => (None::<(Seq<char>, Seq<char>)>, kr.1),
            Some(k) => {
                let vr = read_string_spec(c, kr.1);
                match vr.0 {
                    None => (None::<(Seq<char>, Seq<char>)>, vr.1),
                    Some(v) => (Some((k, v)), vr.1),
                }
            },
        }
    } else {
        (None::<(Seq<char>, Seq<char>)>, p)
    }
}

/// A successful length decode leaves the cursor past where it began and
/// inside the buffer.
pub proof fn lemma_decode_len_advance(c: Seq<u8>, p: int)
    ensures
        decode_len_spec(c, p).0 is Some ==> p + 1 <= decode_len_spec(c, p).1 <= c.len(),
{
}

/// A successful string read leaves the cursor past where it began and
/// inside the buffer.
pub proof fn lemma_read_string_advance(c: Seq<u8>, p: int)
    ensures
        read_string_spec(c, p).0 is Some ==> p + 1 <= read_string_spec(c, p).1 <= c.len(),
{
    lemma_decode_len_advance(c, p);
}

/// A successful key/value read leaves the cursor past where it began and
/// inside the buffer.
pub proof fn lemma_read_values_advance(c: Seq<u8>, p: int)
    ensures
        read_values_spec(c, p).0 is Some ==> p + 1 <= read_values_spec(c, p).1 <= c.len(),
{
    lemma_read_string_advance(c, p + 1);
    if 0 <= p < c.len() && c[p] == 0x00 {
        let kr = read_string_spec(c, p + 1);
        if kr.0 is Some {
            lemma_read_string_advance(c, kr.1);
        }
    }
}

/// What scanning `n` records from `p` yields: the records in order, with
/// their optional millisecond deadlines, and the cursor afterwards.
///
/// A second-precision record declares a four-byte field, yet the cursor
/// moves eight bytes past the opcode, as the layout this loader accepts
/// has always done; the four bytes read little-endian give the seconds.
pub open spec fn scan_records(c: Seq<u8>, p: int, n: nat) -> Option<
    (Seq<(Seq<char>, Seq<char>, Option<u64>)>, int),
>
    decreases n,
{
    if n == 0 {
        Some((Seq::<(Seq<char>, Seq<char>, Option<u64>)>::empty(), p))
    } else if !(0 <= p < c.len()) {
        None
    } else if c[p] == 0xFC {
        if p + 9 <= c.len() {
            let ms = le64_at(c, p + 1) as u64;
            let kv = read_values_spec(c, p + 9);
            match kv.0 {
                None => None,
                Some(r) => match scan_records(c, kv.1, (n - 1) as nat) {
                    None => None,
                    Some(rest) => Some(
                        (seq![(r.0, r.1, Some(ms))] + rest.0, rest.1),
                    ),
                },
            }
        } else {
            None
        }
    } else if c[p] == 0xFD {
        if p + 5 <= c.len() {
            let dl = (le32_at(c, p + 1) * 1000) as u64;
            let kv = read_values_spec(c, p + 9);
            match kv.0 {
                None => None,
                Some(r) => match scan_records(c, kv.1, (n - 1) as nat) {
                    None => None,
                    Some(rest) => Some(
                        (seq![(r.0, r.1, Some(dl))] + rest.0, rest.1),
                    ),
                },
            }
        } else {
            None
        }
    } else {
        let kv = read_values_spec(c, p);
        match kv.0 {
            None => None,
            Some(r) => match scan_records(c, kv.1, (n - 1) as nat) {
                None => None,
                Some(rest) => Some((seq![(r.0, r.1, None::<u64>)] + rest.0, rest.1)),
            },
        }
    }
}

/// A successful record scan never moves the cursor backwards, and leaves
/// it inside the buffer or at its end.
pub proof fn lemma_scan_records_advance(c: Seq<u8>, p: int, n: nat)
    ensures
        scan_records(c, p, n) matches Some(r) ==> p <= r.1 && (n > 0 ==> r.1 <= c.len()),
    decreases n,
{
    if n > 0 && 0 <= p < c.len() {
        lemma_read_values_advance(c, p);
        lemma_read_values_advance(c, p + 9);
        if c[p] == 0xFC || c[p] == 0xFD {
            let kv = read_values_spec(c, p + 9);
            if kv.0 is Some {
                lemma_scan_records_advance(c, kv.1, (n - 1) as nat);
            }
        } else {
            let kv = read_values_spec(c, p);
            if kv.0 is Some {
                lemma_scan_records_advance(c, kv.1, (n - 1) as nat);
            }
        }
    }
}

/// What one hash-table section yields, `p` standing on its opcode: a
/// declared total record count, a declared expired count that is read and
/// not interpreted, then that many records.
pub open spec fn scan_table(c: Seq<u8>, p: int) -> Option<
    (Seq<(Seq<char>, Seq<char>, Option<u64>)>, int),
> {
    if p + 2 < c.len() {
        scan_records(c, p + 3, c[p + 1] as nat)
    } else {
        None
    }
}

#[via_fn]
proof fn scan_ops_decreases(c: Seq<u8>, p: int) {
    if 0 <= p < c.len() && c[p] == 0xFB {
        if p + 2 < c.len() {
            lemma_scan_records_advance(c, p + 3, c[p + 1] as nat);
        }
    }
}

/// What the opcode scan yields from `p`: every record of every table
/// section up to the end-of-file opcode or the end of the buffer. An
/// auxiliary-field opcode, a database selector, and any unknown byte are
/// each skipped as one lone byte.
pub open spec fn scan_ops(c: Seq<u8>, p: int) -> Option<Seq<(Seq<char>, Seq<char>, Option<u64>)>>
    decreases c.len() - p,
    via scan_ops_decreases
{
    if !(0 <= p < c.len()) {
        Some(Seq::<(Seq<char>, Seq<char>, Option<u64>)>::empty())
    } else if c[p] == 0xFF {
        Some(Seq::<(Seq<char>, Seq<char>, Option<u64>)>::empty())
    } else if c[p] == 0xFB {
        match scan_table(c, p) {
            None => None,
            Some(t) => match scan_ops(c, t.1) {
                None => None,
                Some(rest) => Some(t.0 + rest),
            },
        }
    } else {
        scan_ops(c, p + 1)
    }
}

/// Does the buffer begin with the five magic bytes `REDIS`?
pub open spec fn has_magic(c: Seq<u8>) -> bool {
    c.len() >= 5 && c[0] == 0x52 && c[1] == 0x45 && c[2] == 0x44 && c[3] == 0x49 && c[4] == 0x53
}

/// The value mapping after the records are applied in order.
pub open spec fn records_data(
    m: Map<Seq<char>, Seq<char>>,
    recs: Seq<(Seq<char>, Seq<char>, Option<u64>)>,
) -> Map<Seq<char>, Seq<char>>
    decreases recs.len(),
{
    if recs.len() == 0 {
        m
    } else {
        records_data(m.insert(recs[0].0, recs[0].1), recs.skip(1))
    }
}

/// The expiry mapping after the records are applied in order: a record
/// without a deadline leaves any prior deadline on its key in place.
pub open spec fn records_expiry(
    m: Map<Seq<char>, u64>,
    recs: Seq<(Seq<char>, Seq<char>, Option<u64>)>,
) -> Map<Seq<char>, u64>
    decreases recs.len(),
{
    if recs.len() == 0 {
        m
    } else {
        match recs[0].2 {
            Some(dl) => records_expiry(m.insert(recs[0].0, dl), recs.skip(1)),
            None => records_expiry(m, recs.skip(1)),
        }
    }
}

/// The records a sequence of entries stands for.
pub open spec fn rec_views(s: Seq<Entry>) -> Seq<(Seq<char>, Seq<char>, Option<u64>)> {
    Seq::new(s.len(), |i: int| (s[i].key@, s[i].value@, s[i].deadline_ms))
}

/// The records of a split sequence are the records of its parts.
proof fn lemma_rec_views_split(s: Seq<Entry>, base: int)
    requires
        0 <= base <= s.len(),
    ensures
        rec_views(s) == rec_views(s.take(base)) + rec_views(s.skip(base)),
{
    assert(rec_views(s) =~= rec_views(s.take(base)) + rec_views(s.skip(base)));
}

/// How a snapshot load relates the store before and after, and its
/// reported outcome.
pub open spec fn load_snapshot_post(
    pre: RedisData,
    post: RedisData,
    c: Seq<u8>,
    r: RedisResponse,
) -> bool {
    if !has_magic(c) {
        &&& post == pre
        &&& r matches RedisResponse::Error(m) && m@ == "Magic string failed"@
    } else {
        match scan_ops(c, 0) {
            None => {
                &&& post == pre
                &&& r matches RedisResponse::Error(m) && m@ == "Malformed snapshot"@
            },
            Some(recs) => {
                &&& post.data_map() == records_data(pre.data_map(), recs)
                &&& post.expiry_map() == records_expiry(pre.expiry_map(), recs)
                &&& post.repl_role() == pre.repl_role()
                &&& post.host_view() == pre.host_view()
                &&& post.port_view() == pre.port_view()
                &&& post.wf()
                &&& r matches RedisResponse::OK(m) && m@ == "OK"@
            },
        }
    }
}

impl RedisData {
    /// Read one length-prefixed string at the cursor: a length decode,
    /// then that many raw bytes as lossy UTF-8; truncation yields `None`.
    pub fn read_string(&self, content: &Vec<u8>, cursor: &mut usize) -> (r: Option<String>)
        ensures
            *final(cursor) as int == read_string_spec(content@, *old(cursor) as int).1,
            match r {
                Some(s) => read_string_spec(content@, *old(cursor) as int).0 == Some(s@),
                None => read_string_spec(content@, *old(cursor) as int).0 is None,
            },
    {
        proof {
            lemma_decode_len_advance(content@, *cursor as int);
        }
        match self.decode_length(content, cursor) {
            None => None,
            Some(length) => {
                if length <= content.len() - *cursor {
                    let sub = slice_subrange(content.as_slice(), *cursor, *cursor + length);
                    let s = utf8_lossy(sub);
                    *cursor += length;
                    Some(s)
                } else {
                    None
                }
            },
        }
    }

    /// Read one key/value record at the cursor: a zero byte introduces a
    /// string-typed pair; any other leading byte yields `None` with the
    /// cursor unmoved. Other value types are not represented.
    pub fn read_values(&self, content: &Vec<u8>, cursor: &mut usize) -> (r: Option<(String, String)>)
        ensures
            *final(cursor) as int == read_values_spec(content@, *old(cursor) as int).1,
            match r {
                Some(kv) => read_values_spec(content@, *old(cursor) as int).0 == Some(
                    (kv.0@, kv.1@),
                ),
                None => read_values_spec(content@, *old(cursor) as int).0 is None,
            },
    {
        if *cursor >= content.len() {
            return None;
        }
        if content[*cursor] == 0x00 {
            *cursor += 1;
            let k = match self.read_string(content, cursor) {
                Some(k) => k,
                None => {
                    return None;
                },
            };
            let v = match self.read_string(content, cursor) {
                Some(v) => v,
                None => {
                    return None;
                },
            };
            Some((k, v))
        } else {
            None
        }
    }

    /// Scan one hash-table section at the cursor into `records`: two
    /// declared counts (the expired count is not interpreted), then the
    /// declared number of records, each optionally preceded by an expiry
    /// opcode. On failure, earlier records stay and `false` is reported.
    #[verifier::rlimit(100)]
    pub fn parse_db_key_val(
        &self,
        content: &Vec<u8>,
        cursor: &mut usize,
        records: &mut Vec<Entry>,
    ) -> (ok: bool)
        ensures
            final(records)@.len() >= old(records)@.len(),
            final(records)@.take(old(records)@.len() as int) == old(records)@,
            match scan_table(content@, *old(cursor) as int) {
                Some(t) => ok && *final(cursor) as int == t.1 && rec_views(
                    final(records)@.skip(old(records)@.len() as int),
                ) == t.0,
                None => !ok,
            },
    {
        let ghost p = *cursor as int;
        let ghost base = records@.len() as int;
        proof {
            assert(records@.take(base) =~= records@);
        }
        if content.len() < 3 || *cursor > content.len() - 3 {
            return false;
        }
        let total: u8 = content[*cursor + 1];
        *cursor += 3;
        let ghost n_total = total as nat;
        let mut remaining: u8 = total;
        proof {
            assert(records@.skip(base) =~= Seq::<Entry>::empty());
            assert(rec_views(records@.skip(base)) =~= Seq::<(Seq<char>, Seq<char>, Option<u64>)>::empty());
        }
        while remaining > 0
            invariant
                0 <= base <= records@.len(),
                records@.take(base) == old(records)@,
                base == old(records)@.len(),
                p == *old(cursor) as int,
                p + 2 < content@.len(),
                content@[p + 1] == total,
                n_total == total as nat,
                remaining <= total,
                match scan_records(content@, *cursor as int, remaining as nat) {
                    Some(rr) => scan_records(content@, p + 3, n_total) == Some(
                        (rec_views(records@.skip(base)) + rr.0, rr.1),
                    ),
                    None => scan_records(content@, p + 3, n_total) is None,
                },
            decreases remaining,
        {
            let ghost pc = *cursor as int;
            let ghost old_views = rec_views(records@.skip(base));
            if *cursor >= content.len() {
                return false;
            }
            let op = content[*cursor];
            let deadline: Option<u64>;
            if op == 0xFC {
                if content.len() - *cursor < 9 {
                    return false;
                }
                let b0 = content[*cursor + 1];
                let b1 = content[*cursor + 2];
                let b2 = content[*cursor + 3];
                let b3 = content[*cursor + 4];
                let b4 = content[*cursor + 5];
                let b5 = content[*cursor + 6];
                let b6 = content[*cursor + 7];
                let b7 = content[*cursor + 8];
                let ms: u64 = (b0 as u64) + (b1 as u64) * 0x100 + (b2 as u64) * 0x10000 + (
                b3 as u64) * 0x1000000 + (b4 as u64) * 0x100000000 + (b5 as u64) * 0x10000000000 + (
                b6 as u64) * 0x1000000000000 + (b7 as u64) * 0x100000000000000;
                *cursor += 9;
                proof {
                    assert(ms as int == le64_at(content@, pc + 1));
                }
                deadline = Some(ms);
            } else if op == 0xFD {
                if content.len() - *cursor < 9 {
                    return false;
                }
                let b0 = content[*cursor + 1];
                let b1 = content[*cursor + 2];
                let b2 = content[*cursor + 3];
                let b3 = content[*cursor + 4];
                let secs: u32 = (b0 as u32) + (b1 as u32) * 0x100 + (b2 as u32) * 0x10000 + (
                b3 as u32) * 0x1000000;
                let dl: u64 = (secs as u64) * 1000;
                *cursor += 9;
                proof {
                    assert(dl as int == le32_at(content@, pc + 1) * 1000);
                }
                deadline = Some(dl);
            } else {
                deadline = None;
            }
            let kv = self.read_values(content, cursor);
            match kv {
                None => {
                    return false;
                },
                Some(kvp) => {
                    let (k, v) = kvp;
                    let e = Entry { key: k, value: v, deadline_ms: deadline };
                    records.push(e);
                    proof {
                        assert(records@.take(base) =~= records@.drop_last().take(base));
                        assert(rec_views(records@.skip(base)) =~= old_views.push(
                            (records@.last().key@, records@.last().value@,
                            records@.last().deadline_ms),
                        ));
                        match scan_records(content@, *cursor as int, (remaining - 1) as nat) {
                            Some(rr) => {
                                assert(old_views + (seq![
                                    (records@.last().key@, records@.last().value@,
                                    records@.last().deadline_ms),
                                ] + rr.0) =~= rec_views(records@.skip(base)) + rr.0);
                            },
                            None => {
                                assert(scan_records(content@, pc, remaining as nat) is None);
                            },
                        }
                    }
                },
            }
            remaining -= 1;
        }
        proof {
            assert(scan_records(content@, *cursor as int, 0) == Some(
                (Seq::<(Seq<char>, Seq<char>, Option<u64>)>::empty(), *cursor as int),
            ));
            assert(rec_views(records@.skip(base)) + Seq::<(Seq<char>, Seq<char>,
            Option<u64>)>::empty() =~= rec_views(records@.skip(base)));
        }
        true
    }

    /// Load a snapshot buffer: validate the five magic bytes, scan the
    /// opcode stream, and apply every decoded record. The store changes
    /// only when the whole scan succeeds.
    #[verifier::rlimit(50)]
    pub fn load_snapshot(&mut self, content: &Vec<u8>) -> (r: RedisResponse)
        requires
            old(self).wf(),
        ensures
            load_snapshot_post(*old(self), *final(self), content@, r),
    {
        if content.len() < 5 || content[0] != 0x52 || content[1] != 0x45 || content[2] != 0x44
            || content[3] != 0x49 || content[4] != 0x53 {
            return RedisResponse::Error(String::from_str("Magic string failed"));
        }
        let mut cursor: usize = 0;
        let mut records: Vec<Entry> = Vec::new();
        let mut done = false;
        proof {
            assert(rec_views(records@) =~= Seq::<(Seq<char>, Seq<char>, Option<u64>)>::empty());
        }
        while !done && cursor < content.len()
            invariant
                old(self).wf(),
                *self == *old(self),
                has_magic(content@),
                done ==> scan_ops(content@, 0) == Some(rec_views(records@)),
                !done ==> match scan_ops(content@, cursor as int) {
                    Some(rest) => scan_ops(content@, 0) == Some(rec_views(records@) + rest),
                    None => scan_ops(content@, 0) is None,
                },
            decreases content@.len() - cursor, (if done { 0int } else { 1int }),
        {
            let ghost pc = cursor as int;
            let ghost old_views = rec_views(records@);
            let op = content[cursor];
            if op == 0xFF {
                done = true;
                proof {
                    assert(old_views + Seq::<(Seq<char>, Seq<char>, Option<u64>)>::empty()
                        =~= old_views);
                }
            } else if op == 0xFB {
                let ghost base = records@.len() as int;
                let ok = self.parse_db_key_val(content, &mut cursor, &mut records);
                if !ok {
                    proof {
                        assert(scan_table(content@, pc) is None);
                        assert(scan_ops(content@, pc) is None);
                    }
                    return RedisResponse::Error(String::from_str("Malformed snapshot"));
                }
                proof {
                    let t = scan_table(content@, pc)->Some_0;
                    lemma_rec_views_split(records@, base);
                    assert(rec_views(records@.take(base)) =~= old_views);
                    lemma_scan_records_advance(content@, pc + 3, content@[pc + 1] as nat);
                    match scan_ops(content@, cursor as int) {
                        Some(rest2) => {
                            assert(scan_ops(content@, pc) == Some(t.0 + rest2));
                            assert(old_views + (t.0 + rest2) =~= (old_views + t.0) + rest2);
                        },
                        None => {
                            assert(scan_ops(content@, pc) is None);
                        },
                    }
                }
            } else {
                cursor += 1;
                proof {
                    assert(scan_ops(content@, pc) == scan_ops(content@, pc + 1));
                }
            }
        }
        proof {
            if !done {
                assert(scan_ops(content@, cursor as int) == Some(
                    Seq::<(Seq<char>, Seq<char>, Option<u64>)>::empty(),
                ));
                assert(rec_views(records@) + Seq::<(Seq<char>, Seq<char>, Option<u64>)>::empty()
                    =~= rec_views(records@));
            }
        }
        let ghost rv = rec_views(records@);
        let n = records.len();
        let mut i: usize = 0;
        proof {
            assert(rv.skip(0) =~= rv);
        }
        while i < n
            invariant
                self.wf(),
                has_magic(content@),
                scan_ops(content@, 0) == Some(rv),
                i <= n,
                n == records@.len(),
                rv == rec_views(records@),
                rv.len() == n,
                self.repl_role() == old(self).repl_role(),
                self.host_view() == old(self).host_view(),
                self.port_view() == old(self).port_view(),
                records_data(old(self).data_map(), rv) == records_data(
                    self.data_map(),
                    rv.skip(i as int),
                ),
                records_expiry(old(self).expiry_map(), rv) == records_expiry(
                    self.expiry_map(),
                    rv.skip(i as int),
                ),
            decreases n - i,
        {
            let e = &records[i];
            let key = e.key.clone();
            let value = e.value.clone();
            let dl = e.deadline_ms;
            proof {
                assert(rv.skip(i as int)[0] == rv[i as int]);
                assert(rv.skip(i as int).skip(1) =~= rv.skip(i + 1));
            }
            self.insert_record(key, value, dl);
            i += 1;
        }
        proof {
            assert(rv.skip(n as int).len() == 0);
        }
        RedisResponse::OK(String::from_str("OK"))
    }
}

} // verus!
