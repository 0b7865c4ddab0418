//! The in-memory key-value store: a value mapping plus a parallel expiry
//! mapping, with lazy eviction of expired keys on read.

use vstd::prelude::*;
use vstd::string::StringExecFns;
use crate::command::RedisCommand;
use crate::sys::now_millis;
use crate::text::parse_u64;
use crate::text::parse_u64_spec;
use crate::text::str_eq;
use crate::wire::RedisResponse;

verus! {

/// One stored record: a key, its current value, and an optional absolute
/// expiration deadline in milliseconds since the UNIX epoch.
pub struct Entry {
    pub key: String,
    pub value: String,
    pub deadline_ms: Option<u64>,
}

/// The role this server was started in, derived from whether a peer
/// address was configured at startup.
pub enum ReplicationRole {
    Master,
    Slave,
}

/// The store. It exclusively owns the value mapping and the expiry mapping;
/// every key with a recorded deadline also has a value. Expired entries are
/// evicted lazily, only when the key is read.
pub struct RedisData {
    entries: Vec<Entry>,
    replication_role: ReplicationRole,
    host: Option<String>,
    port: Option<u16>,
}

/// The keys of the entries are pairwise distinct.
pub open spec fn unique_keys(s: Seq<Entry>) -> bool {
    forall|i: int, j: int| 0 <= i < j < s.len() ==> s[i].key@ != s[j].key@
}

/// The value mapping held by a sequence of entries; on duplicate keys the
/// later entry wins.
pub open spec fn entries_data(s: Seq<Entry>) -> Map<Seq<char>, Seq<char>>
    decreases s.len(),
{
    if s.len() == 0 {
        Map::<Seq<char>, Seq<char>>::empty()
    } else {
        entries_data(s.drop_last()).insert(s.last().key@, s.last().value@)
    }
}

/// The expiry mapping held by a sequence of entries: only entries carrying
/// a deadline contribute.
pub open spec fn entries_expiry(s: Seq<Entry>) -> Map<Seq<char>, u64>
    decreases s.len(),
{
    if s.len() == 0 {
        Map::<Seq<char>, u64>::empty()
    } else {
        match s.last().deadline_ms {
            Some(d) => entries_expiry(s.drop_last()).insert(s.last().key@, d),
            None => entries_expiry(s.drop_last()),
        }
    }
}

/// A key is in the value mapping exactly when some entry carries it.
pub proof fn lemma_data_contains(s: Seq<Entry>, k: Seq<char>)
    ensures
        entries_data(s).contains_key(k) <==> exists|i: int|
            0 <= i < s.len() && s[i].key@ == k,
    decreases s.len(),
{
    if s.len() > 0 {
        lemma_data_contains(s.drop_last(), k);
        if s.last().key@ == k {
            assert(s[s.len() - 1].key@ == k);
        } else if entries_data(s).contains_key(k) {
            let i = choose|i: int| 0 <= i < s.drop_last().len() && s.drop_last()[i].key@ == k;
            assert(s[i].key@ == k);
        } else if exists|i: int| 0 <= i < s.len() && s[i].key@ == k {
            let i = choose|i: int| 0 <= i < s.len() && s[i].key@ == k;
            assert(i < s.len() - 1);
            assert(s.drop_last()[i].key@ == k);
        }
    }
}

/// A key is in the expiry mapping exactly when some entry carries it
/// together with a deadline.
pub proof fn lemma_expiry_contains(s: Seq<Entry>, k: Seq<char>)
    ensures
        entries_expiry(s).contains_key(k) <==> exists|i: int|
            0 <= i < s.len() && s[i].key@ == k && s[i].deadline_ms is Some,
    decreases s.len(),
{
    if s.len() > 0 {
        lemma_expiry_contains(s.drop_last(), k);
        if s.last().key@ == k && s.last().deadline_ms is Some {
            assert(s[s.len() - 1].key@ == k && s[s.len() - 1].deadline_ms is Some);
        } else if entries_expiry(s).contains_key(k) {
            let i = choose|i: int|
                0 <= i < s.drop_last().len() && s.drop_last()[i].key@ == k
                    && s.drop_last()[i].deadline_ms is Some;
            assert(s[i].key@ == k && s[i].deadline_ms is Some);
        } else if exists|i: int| 0 <= i < s.len() && s[i].key@ == k && s[i].deadline_ms is Some {
            let i = choose|i: int|
                0 <= i < s.len() && s[i].key@ == k && s[i].deadline_ms is Some;
            assert(i < s.len() - 1);
            assert(s.drop_last()[i].key@ == k && s.drop_last()[i].deadline_ms is Some);
        }
    }
}

/// Under unique keys, the entry at `i` gives the mapped value of its key.
pub proof fn lemma_entry_maps(s: Seq<Entry>, i: int)
    requires
        unique_keys(s),
        0 <= i < s.len(),
    ensures
        entries_data(s).contains_key(s[i].key@),
        entries_data(s)[s[i].key@] == s[i].value@,
        s[i].deadline_ms is Some ==> entries_expiry(s).contains_key(s[i].key@)
            && entries_expiry(s)[s[i].key@] == s[i].deadline_ms->Some_0,
        s[i].deadline_ms is None ==> !entries_expiry(s).contains_key(s[i].key@),
    decreases s.len(),
{
    if i == s.len() - 1 {
        if s[i].deadline_ms is None {
            lemma_expiry_contains(s.drop_last(), s[i].key@);
        }
    } else {
        assert(s.last().key@ != s[i].key@);
        assert(s.drop_last()[i] == s[i]);
        lemma_entry_maps(s.drop_last(), i);
    }
}

/// Replacing the entry at `i` by one with the same key updates the value
/// mapping at that key alone, and the expiry mapping according to the new
/// entry's deadline.
pub proof fn lemma_entries_update(s: Seq<Entry>, i: int, e: Entry)
    requires
        unique_keys(s),
        0 <= i < s.len(),
        e.key@ == s[i].key@,
    ensures
        unique_keys(s.update(i, e)),
        entries_data(s.update(i, e)) == entries_data(s).insert(e.key@, e.value@),
        entries_expiry(s.update(i, e)) == match e.deadline_ms {
            Some(d) => entries_expiry(s).insert(e.key@, d),
            None => entries_expiry(s).remove(e.key@),
        },
    decreases s.len(),
{
    let t = s.update(i, e);
    assert(unique_keys(t)) by {
        assert(forall|x: int| 0 <= x < t.len() ==> t[x].key@ == s[x].key@);
    }
    if i == s.len() - 1 {
        assert(t.drop_last() =~= s.drop_last());
        assert(t.last() == e);
        lemma_expiry_contains(s.drop_last(), e.key@);
        match e.deadline_ms {
            Some(d) => {
                match s[i].deadline_ms {
                    Some(d0) => {
                        assert(entries_expiry(t) =~= entries_expiry(s).insert(e.key@, d));
                    },
                    None => {
                        assert(entries_expiry(t) =~= entries_expiry(s).insert(e.key@, d));
                    },
                }
            },
            None => {
                assert(!entries_expiry(s.drop_last()).contains_key(e.key@));
                assert(entries_expiry(t) =~= entries_expiry(s).remove(e.key@));
            },
        }
        assert(entries_data(t) =~= entries_data(s).insert(e.key@, e.value@));
    } else {
        assert(t.drop_last() =~= s.drop_last().update(i, e));
        assert(t.last() == s.last());
        assert(s.drop_last()[i] == s[i]);
        lemma_entries_update(s.drop_last(), i, e);
        assert(s.last().key@ != e.key@);
        assert(entries_data(t) =~= entries_data(s).insert(e.key@, e.value@));
        match e.deadline_ms {
            Some(d) => {
                assert(entries_expiry(t) =~= entries_expiry(s).insert(e.key@, d));
            },
            None => {
                assert(entries_expiry(t) =~= entries_expiry(s).remove(e.key@));
            },
        }
    }
}

/// Appending an entry with a fresh key extends both mappings.
pub proof fn lemma_entries_push(s: Seq<Entry>, e: Entry)
    requires
        forall|i: int| 0 <= i < s.len() ==> s[i].key@ != e.key@,
    ensures
        unique_keys(s) ==> unique_keys(s.push(e)),
        entries_data(s.push(e)) == entries_data(s).insert(e.key@, e.value@),
        entries_expiry(s.push(e)) == match e.deadline_ms {
            Some(d) => entries_expiry(s).insert(e.key@, d),
            None => entries_expiry(s),
        },
{
    let t = s.push(e);
    assert(t.drop_last() =~= s);
    assert(t.last() == e);
}

/// Removing the entry at `i` removes exactly its key from both mappings.
pub proof fn lemma_entries_remove(s: Seq<Entry>, i: int)
    requires
        unique_keys(s),
        0 <= i < s.len(),
    ensures
        unique_keys(s.remove(i)),
        entries_data(s.remove(i)) == entries_data(s).remove(s[i].key@),
        entries_expiry(s.remove(i)) == entries_expiry(s).remove(s[i].key@),
    decreases s.len(),
{
    let t = s.remove(i);
    assert(unique_keys(t)) by {
        assert(forall|x: int| 0 <= x < i ==> t[x] == s[x]);
        assert(forall|x: int| i <= x < t.len() ==> t[x] == s[x + 1]);
    }
    if i == s.len() - 1 {
        assert(t =~= s.drop_last());
        lemma_data_contains(s.drop_last(), s[i].key@);
        lemma_expiry_contains(s.drop_last(), s[i].key@);
        assert(!entries_data(s.drop_last()).contains_key(s[i].key@));
        assert(!entries_expiry(s.drop_last()).contains_key(s[i].key@));
        assert(entries_data(t) =~= entries_data(s).remove(s[i].key@));
        assert(entries_expiry(t) =~= entries_expiry(s).remove(s[i].key@));
    } else {
        assert(t.drop_last() =~= s.drop_last().remove(i));
        assert(t.last() == s.last());
        assert(s.drop_last()[i] == s[i]);
        lemma_entries_remove(s.drop_last(), i);
        assert(s.last().key@ != s[i].key@);
        assert(entries_data(t) =~= entries_data(s).remove(s[i].key@));
        assert(entries_expiry(t) =~= entries_expiry(s).remove(s[i].key@));
    }
}

impl RedisData {
    /// The keys currently present, in storage order; this is what
    /// enumeration yields, lazily-expired keys included.
    pub closed spec fn key_seq(self) -> Seq<Seq<char>> {
        Seq::new(self.entries@.len(), |i: int| self.entries@[i].key@)
    }

    /// The value mapping.
    pub closed spec fn data_map(self) -> Map<Seq<char>, Seq<char>> {
        entries_data(self.entries@)
    }

    /// The expiry mapping: key to absolute deadline in milliseconds.
    pub closed spec fn expiry_map(self) -> Map<Seq<char>, u64> {
        entries_expiry(self.entries@)
    }

    /// Well-formedness: no key is stored twice.
    pub closed spec fn wf(self) -> bool {
        unique_keys(self.entries@)
    }

    /// The configured replication role.
    pub closed spec fn repl_role(self) -> ReplicationRole {
        self.replication_role
    }

    /// The configured peer host, if any.
    pub closed spec fn host_view(self) -> Option<Seq<char>> {
        self.host.deep_view()
    }

    /// The configured peer port, if any.
    pub closed spec fn port_view(self) -> Option<u16> {
        self.port
    }

    /// A key is enumerated exactly when it is in the value mapping, and
    /// no key is enumerated twice.
    pub proof fn lemma_keys_are_dom(self)
        requires
            self.wf(),
        ensures
            forall|k: Seq<char>| #[trigger] self.key_seq().contains(k)
                <==> self.data_map().contains_key(k),
            forall|i: int, j: int|
                0 <= i < j < self.key_seq().len() ==> self.key_seq()[i] != self.key_seq()[j],
    {
        assert forall|k: Seq<char>| #[trigger] self.key_seq().contains(k)
            <==> self.data_map().contains_key(k) by {
            lemma_data_contains(self.entries@, k);
            if self.key_seq().contains(k) {
                let i = choose|i: int| 0 <= i < self.key_seq().len() && self.key_seq()[i] == k;
                assert(self.entries@[i].key@ == k);
            }
            if self.data_map().contains_key(k) {
                let i = choose|i: int| 0 <= i < self.entries@.len() && self.entries@[i].key@ == k;
                assert(self.key_seq()[i] == k);
            }
        }
    }

    /// Create an empty store with the given replication identity.
    pub fn init_db(role: ReplicationRole, host: Option<String>, port: Option<u16>) -> (db: RedisData)
        ensures
            db.wf(),
            db.data_map() == Map::<Seq<char>, Seq<char>>::empty(),
            db.expiry_map() == Map::<Seq<char>, u64>::empty(),
            db.key_seq().len() == 0,
            db.repl_role() == role,
            db.host_view() == host.deep_view(),
            db.port_view() == port,
    {
        RedisData {
            entries: Vec::new(),
            replication_role: role,
            host,
            port,
        }
    }

    /// Index of the entry holding `key`, if one does.
    fn find_entry(&self, key: &String) -> (r: Option<usize>)
        ensures
            match r {
                Some(i) => i < self.entries@.len() && self.entries@[i as int].key@ == key@,
                None => forall|i: int|
                    0 <= i < self.entries@.len() ==> self.entries@[i].key@ != key@,
            },
    {
        let n = self.entries.len();
        let mut i: usize = 0;
        while i < n
            invariant
                n == self.entries@.len(),
                i <= n,
                forall|j: int| 0 <= j < i ==> self.entries@[j].key@ != key@,
            decreases n - i,
        {
            if self.entries[i].key == *key {
                return Some(i);
            }
            i += 1;
        }
        None
    }

    /// Every currently stored key, or absent when the store is empty.
    pub fn get_all_keys(&self) -> (r: Option<Vec<String>>)
        ensures
            match r {
                None => self.key_seq().len() == 0,
                Some(v) => v.deep_view() == self.key_seq() && self.key_seq().len() > 0,
            },
    {
        let n = self.entries.len();
        if n == 0 {
            return None;
        }
        let mut keys: Vec<String> = Vec::new();
        let mut i: usize = 0;
        while i < n
            invariant
                n == self.entries@.len(),
                i <= n,
                keys@.len() == i,
                forall|j: int| 0 <= j < i ==> keys@[j]@ == self.entries@[j].key@,
            decreases n - i,
        {
            keys.push(self.entries[i].key.clone());
            i += 1;
        }
        proof {
            assert(keys.deep_view() =~= self.key_seq());
        }
        Some(keys)
    }

    /// The replication role this store was created with.
    pub fn get_role(&self) -> (r: &ReplicationRole)
        ensures
            *r == self.repl_role(),
    {
        &self.replication_role
    }

    /// The configured peer host and port.
    pub fn get_host_port(&self) -> (r: (Option<String>, Option<u16>))
        ensures
            r.0.deep_view() == self.host_view(),
            r.1 == self.port_view(),
    {
        let h = match &self.host {
            Some(s) => Some(s.clone()),
            None => None,
        };
        (h, self.port)
    }

    /// Overwrite the value for the key; with a `PX` option, record the
    /// absolute deadline `now + offset` as well, and without one leave
    /// any prior deadline as it stands. Wrong argument shapes and an
    /// unparsable offset are rejected.
    pub fn set_value_at(&mut self, command: &RedisCommand, now_ms: u64) -> (r: RedisResponse)
        requires
            old(self).wf(),
        ensures
            set_value_post(
                *old(self),
                *final(self),
                command.cmd_len,
                command.str_cmd.deep_view(),
                now_ms,
                r,
            ),
    {
        let ghost args = command.str_cmd.deep_view();
        proof {
            assert(forall|k: int| 0 <= k < args.len() ==> args[k] == command.str_cmd@[k]@);
        }
        if command.str_cmd.len() < 3 {
            return RedisResponse::Error(String::from_str("wrong number of arguments"));
        }
        let use_px: bool = if command.cmd_len == 5 {
            if command.str_cmd.len() < 4 {
                return RedisResponse::Error(String::from_str("wrong number of arguments"));
            }
            str_eq(command.str_cmd[3].as_str(), "px")
        } else {
            false
        };
        let mut px_deadline_val: Option<u64> = None;
        if use_px {
            if command.str_cmd.len() < 5 {
                return RedisResponse::Error(String::from_str("wrong number of arguments"));
            }
            match parse_u64(command.str_cmd[4].as_str()) {
                None => {
                    return RedisResponse::Error(String::from_str("Parsing time failed!"));
                },
                Some(d) => {
                    let dl: u64 = if d <= u64::MAX - now_ms {
                        now_ms + d
                    } else {
                        u64::MAX
                    };
                    proof {
                        assert(dl == px_deadline(now_ms, d));
                    }
                    px_deadline_val = Some(dl);
                },
            }
        }
        let key = &command.str_cmd[1];
        let value = command.str_cmd[2].clone();
        match self.find_entry(key) {
            Some(i) => {
                let kept = self.entries[i].deadline_ms;
                let new_deadline = if use_px {
                    px_deadline_val
                } else {
                    kept
                };
                let e = Entry { key: key.clone(), value, deadline_ms: new_deadline };
                let ghost pre_seq = self.entries@;
                proof {
                    lemma_entry_maps(pre_seq, i as int);
                    lemma_entries_update(pre_seq, i as int, e);
                }
                self.entries.remove(i);
                self.entries.insert(i, e);
                proof {
                    assert(self.entries@ =~= pre_seq.update(i as int, e));
                    assert(self.key_seq() =~= old(self).key_seq());
                    if !use_px {
                        match kept {
                            Some(d0) => {
                                assert(entries_expiry(pre_seq).insert(e.key@, d0)
                                    =~= entries_expiry(pre_seq));
                            },
                            None => {
                                assert(entries_expiry(pre_seq).remove(e.key@)
                                    =~= entries_expiry(pre_seq));
                            },
                        }
                    }
                    lemma_data_contains(pre_seq, e.key@);
                }
            },
            None => {
                let e = Entry { key: key.clone(), value, deadline_ms: px_deadline_val };
                let ghost pre_seq = self.entries@;
                proof {
                    lemma_entries_push(pre_seq, e);
                    lemma_data_contains(pre_seq, e.key@);
                }
                self.entries.push(e);
                proof {
                    assert(self.key_seq() =~= old(self).key_seq().push(e.key@));
                }
            },
        }
        RedisResponse::OK(String::from_str("OK"))
    }

    /// As `set_value_at`, at the wall clock's current time.
    pub fn set_value(&mut self, command: &RedisCommand) -> (r: RedisResponse)
        requires
            old(self).wf(),
        ensures
            exists|now: u64| set_value_post(
                *old(self),
                *final(self),
                command.cmd_len,
                command.str_cmd.deep_view(),
                now,
                r,
            ),
    {
        let now = now_millis();
        let r = self.set_value_at(command, now);
        proof {
            assert(set_value_post(
                *old(self),
                *self,
                command.cmd_len,
                command.str_cmd.deep_view(),
                now,
                r,
            ));
        }
        r
    }

    /// Read the key's value; a key whose deadline has passed is removed
    /// from both mappings and reported absent.
    pub fn get_value_at(&mut self, command: &RedisCommand, now_ms: u64) -> (r: Option<String>)
        requires
            old(self).wf(),
            command.str_cmd@.len() >= 2,
        ensures
            get_value_post(*old(self), *final(self), command.str_cmd@[1]@, now_ms, r.deep_view()),
    {
        let key = &command.str_cmd[1];
        match self.find_entry(key) {
            None => {
                proof {
                    lemma_data_contains(self.entries@, key@);
                    lemma_expiry_contains(self.entries@, key@);
                }
                None
            },
            Some(i) => {
                let e = &self.entries[i];
                let expired: bool = match e.deadline_ms {
                    Some(dl) => now_ms > dl,
                    None => false,
                };
                proof {
                    lemma_entry_maps(self.entries@, i as int);
                }
                if expired {
                    let ghost pre_seq = self.entries@;
                    let ghost k = key@;
                    proof {
                        lemma_entries_remove(pre_seq, i as int);
                    }
                    self.entries.remove(i);
                    proof {
                        assert(self.key_seq() =~= old(self).key_seq().remove(i as int));
                        assert(old(self).key_seq()[i as int] == k);
                        assert forall|j: int| 0 <= j < self.key_seq().len()
                            implies #[trigger] self.key_seq()[j] != k by {
                            if j < i {
                                assert(self.entries@[j] == pre_seq[j]);
                            } else {
                                assert(self.entries@[j] == pre_seq[j + 1]);
                            }
                        }
                    }
                    None
                } else {
                    let v = self.entries[i].value.clone();
                    Some(v)
                }
            },
        }
    }

    /// Apply one snapshot record: the value overwrites; a record deadline
    /// replaces the key's, and a record without one leaves any prior
    /// deadline as it stands.
    pub(crate) fn insert_record(&mut self, key: String, value: String, deadline: Option<u64>)
        requires
            old(self).wf(),
        ensures
            final(self).data_map() == old(self).data_map().insert(key@, value@),
            final(self).expiry_map() == match deadline {
                Some(dl) => old(self).expiry_map().insert(key@, dl),
                None => old(self).expiry_map(),
            },
            final(self).wf(),
            final(self).repl_role() == old(self).repl_role(),
            final(self).host_view() == old(self).host_view(),
            final(self).port_view() == old(self).port_view(),
    {
        match self.find_entry(&key) {
            Some(i) => {
                let kept = self.entries[i].deadline_ms;
                let new_dl = match deadline {
                    Some(d) => Some(d),
                    None => kept,
                };
                let e = Entry { key, value, deadline_ms: new_dl };
                let ghost pre_seq = self.entries@;
                proof {
                    lemma_entry_maps(pre_seq, i as int);
                    lemma_entries_update(pre_seq, i as int, e);
                }
                self.entries.remove(i);
                self.entries.insert(i, e);
                proof {
                    assert(self.entries@ =~= pre_seq.update(i as int, e));
                    if deadline is None {
                        match kept {
                            Some(d0) => {
                                assert(entries_expiry(pre_seq).insert(e.key@, d0) =~= entries_expiry(
                                    pre_seq,
                                ));
                            },
                            None => {
                                assert(entries_expiry(pre_seq).remove(e.key@) =~= entries_expiry(
                                    pre_seq,
                                ));
                            },
                        }
                    }
                }
            },
            None => {
                let e = Entry { key, value, deadline_ms: deadline };
                proof {
                    lemma_entries_push(self.entries@, e);
                }
                self.entries.push(e);
            },
        }
    }

    /// As `get_value_at`, at the wall clock's current time.
    pub fn get_value(&mut self, command: &RedisCommand) -> (r: Option<String>)
        requires
            old(self).wf(),
            command.str_cmd@.len() >= 2,
        ensures
            exists|now: u64| get_value_post(
                *old(self),
                *final(self),
                command.str_cmd@[1]@,
                now,
                r.deep_view(),
            ),
    {
        let now = now_millis();
        let r = self.get_value_at(command, now);
        proof {
            assert(get_value_post(*old(self), *self, command.str_cmd@[1]@, now, r.deep_view()));
        }
        r
    }
}

/// The deadline a `PX` option records: now plus the offset, saturating at
/// the largest representable instant.
pub open spec fn px_deadline(now: u64, d: u64) -> u64 {
    if now + d <= u64::MAX {
        (now + d) as u64
    } else {
        u64::MAX
    }
}

/// The command shape under which a set carries no TTL option.
pub open spec fn plain_set_shape(cmd_len: i32, args: Seq<Seq<char>>) -> bool {
    args.len() >= 3 && (cmd_len != 5 || (args.len() >= 4 && args[3] != "px"@))
}

/// How a set call relates the store before and after, and its reply.
pub open spec fn set_value_post(
    pre: RedisData,
    post: RedisData,
    cmd_len: i32,
    args: Seq<Seq<char>>,
    now: u64,
    r: RedisResponse,
) -> bool {
    if args.len() < 3 || (cmd_len == 5 && args.len() < 4) {
        &&& post == pre
        &&& r matches RedisResponse::Error(m) && m@ == "wrong number of arguments"@
    } else if cmd_len == 5 && args[3] == "px"@ {
        if args.len() < 5 {
            &&& post == pre
            &&& r matches RedisResponse::Error(m) && m@ == "wrong number of arguments"@
        } else {
            match parse_u64_spec(args[4]) {
                None => {
                    &&& post == pre
                    &&& r matches RedisResponse::Error(m) && m@ == "Parsing time failed!"@
                },
                Some(d) => {
                    &&& post.data_map() == pre.data_map().insert(args[1], args[2])
                    &&& post.expiry_map() == pre.expiry_map().insert(args[1], px_deadline(now, d))
                    &&& post.key_seq() == if pre.data_map().contains_key(args[1]) {
                        pre.key_seq()
                    } else {
                        pre.key_seq().push(args[1])
                    }
                    &&& post.repl_role() == pre.repl_role()
                    &&& post.host_view() == pre.host_view()
                    &&& post.port_view() == pre.port_view()
                    &&& post.wf()
                    &&& r matches RedisResponse::OK(m) && m@ == "OK"@
                },
            }
        }
    } else {
        &&& post.data_map() == pre.data_map().insert(args[1], args[2])
        &&& post.expiry_map() == pre.expiry_map()
        &&& post.key_seq() == if pre.data_map().contains_key(args[1]) {
            pre.key_seq()
        } else {
            pre.key_seq().push(args[1])
        }
        &&& post.repl_role() == pre.repl_role()
        &&& post.host_view() == pre.host_view()
        &&& post.port_view() == pre.port_view()
        &&& post.wf()
        &&& r matches RedisResponse::OK(m) && m@ == "OK"@
    }
}

/// Does a read of `k` at `now` evict it?
pub open spec fn get_removes(pre: RedisData, k: Seq<char>, now: u64) -> bool {
    pre.expiry_map().contains_key(k) && now > pre.expiry_map()[k]
}

/// What a read of `k` at `now` returns.
pub open spec fn get_result_spec(pre: RedisData, k: Seq<char>, now: u64) -> Option<Seq<char>> {
    if get_removes(pre, k, now) {
        None
    } else if pre.data_map().contains_key(k) {
        Some(pre.data_map()[k])
    } else {
        None
    }
}

/// How a get call relates the store before and after, and its result.
pub open spec fn get_value_post(
    pre: RedisData,
    post: RedisData,
    k: Seq<char>,
    now: u64,
    r: Option<Seq<char>>,
) -> bool {
    &&& r == get_result_spec(pre, k, now)
    &&& if get_removes(pre, k, now) {
        &&& post.data_map() == pre.data_map().remove(k)
        &&& post.expiry_map() == pre.expiry_map().remove(k)
        &&& exists|idx: int|
            0 <= idx < pre.key_seq().len() && pre.key_seq()[idx] == k && post.key_seq()
                == pre.key_seq().remove(idx)
        &&& !post.key_seq().contains(k)
        &&& post.repl_role() == pre.repl_role()
        &&& post.host_view() == pre.host_view()
        &&& post.port_view() == pre.port_view()
        &&& post.wf()
    } else {
        post == pre
    }
}

/// Law: a key set without a TTL option, and carrying no prior deadline,
/// reads back its value at every later time.
pub proof fn lemma_set_without_ttl_persists(
    pre: RedisData,
    post: RedisData,
    cmd_len: i32,
    args: Seq<Seq<char>>,
    now: u64,
    r: RedisResponse,
    later: u64,
)
    requires
        pre.wf(),
        set_value_post(pre, post, cmd_len, args, now, r),
        plain_set_shape(cmd_len, args),
        !pre.expiry_map().contains_key(args[1]),
    ensures
        get_result_spec(post, args[1], later) == Some(args[2]),
{
}

/// Law: a key set with `PX d` reads back its value while the deadline
/// lies ahead, reads absent once the deadline has passed, and after such
/// an expired read it leaves enumeration. At the single instant of the
/// deadline itself the store still serves the value, since eviction
/// happens only strictly past it; this lemma says nothing at that point.
pub proof fn lemma_set_with_ttl_expires(
    pre: RedisData,
    post: RedisData,
    cmd_len: i32,
    args: Seq<Seq<char>>,
    now: u64,
    r: RedisResponse,
    d: u64,
    later: u64,
    post2: RedisData,
    r2: Option<Seq<char>>,
)
    requires
        pre.wf(),
        set_value_post(pre, post, cmd_len, args, now, r),
        cmd_len == 5,
        args.len() >= 5,
        args[3] == "px"@,
        parse_u64_spec(args[4]) == Some(d),
        get_value_post(post, post2, args[1], later, r2),
    ensures
        later < px_deadline(now, d) ==> r2 == Some(args[2]),
        later > px_deadline(now, d) ==> r2 == None::<Seq<char>> && !post2.key_seq().contains(
            args[1],
        ),
{
}

/// Law: a key that enumeration returns is retrievable, unless its
/// deadline has been crossed.
pub proof fn lemma_enumerated_key_retrievable(db: RedisData, k: Seq<char>, now: u64)
    requires
        db.wf(),
        db.key_seq().contains(k),
        db.expiry_map().contains_key(k) ==> now <= db.expiry_map()[k],
    ensures
        get_result_spec(db, k, now) is Some,
{
    db.lemma_keys_are_dom();
}

/// Law: two sets on distinct keys, neither carrying a prior deadline, do
/// not disturb each other: each key reads back its own complete value at
/// any later time.
pub proof fn lemma_sets_on_distinct_keys(
    s0: RedisData,
    s1: RedisData,
    s2: RedisData,
    cmd_len1: i32,
    args1: Seq<Seq<char>>,
    now1: u64,
    r1: RedisResponse,
    cmd_len2: i32,
    args2: Seq<Seq<char>>,
    now2: u64,
    r2: RedisResponse,
    later: u64,
)
    requires
        s0.wf(),
        set_value_post(s0, s1, cmd_len1, args1, now1, r1),
        set_value_post(s1, s2, cmd_len2, args2, now2, r2),
        plain_set_shape(cmd_len1, args1),
        plain_set_shape(cmd_len2, args2),
        args1[1] != args2[1],
        !s0.expiry_map().contains_key(args1[1]),
        !s0.expiry_map().contains_key(args2[1]),
    ensures
        get_result_spec(s2, args1[1], later) == Some(args1[2]),
        get_result_spec(s2, args2[1], later) == Some(args2[2]),
{
}

} // verus!
