//! The runtime configuration: a small keyed table of startup settings,
//! answered over the wire by `CONFIG GET`.

use vstd::prelude::*;
use vstd::string::StringExecFns;
use crate::command::RedisCommand;
use crate::text::str_eq;
use crate::wire::array_header_of;
use crate::wire::bulk_of;
use crate::wire::bulk_string;

verus! {

/// The configuration table. Keys are stored in their flag form, with the
/// leading dashes.
pub struct RedisConfig {
    settings: Vec<(String, String)>,
}

/// The keys of the pairs are pairwise distinct.
pub open spec fn unique_pair_keys(s: Seq<(String, String)>) -> bool {
    forall|i: int, j: int| 0 <= i < j < s.len() ==> s[i].0@ != s[j].0@
}

/// The mapping a sequence of pairs holds; on duplicate keys the later
/// pair wins.
pub open spec fn pairs_map(s: Seq<(String, String)>) -> Map<Seq<char>, Seq<char>>
    decreases s.len(),
{
    if s.len() == 0 {
        Map::<Seq<char>, Seq<char>>::empty()
    } else {
        pairs_map(s.drop_last()).insert(s.last().0@, s.last().1@)
    }
}

/// A key is in the mapping exactly when some pair carries it.
pub proof fn lemma_pairs_contains(s: Seq<(String, String)>, k: Seq<char>)
    ensures
        pairs_map(s).contains_key(k) <==> exists|i: int| 0 <= i < s.len() && s[i].0@ == k,
    decreases s.len(),
{
    if s.len() > 0 {
        lemma_pairs_contains(s.drop_last(), k);
        if s.last().0@ == k {
            assert(s[s.len() - 1].0@ == k);
        } else if pairs_map(s).contains_key(k) {
            let i = choose|i: int| 0 <= i < s.drop_last().len() && s.drop_last()[i].0@ == k;
            assert(s[i].0@ == k);
        } else if exists|i: int| 0 <= i < s.len() && s[i].0@ == k {
            let i = choose|i: int| 0 <= i < s.len() && s[i].0@ == k;
            assert(i < s.len() - 1);
            assert(s.drop_last()[i].0@ == k);
        }
    }
}

/// Under unique keys, the pair at `i` gives the mapped value of its key.
pub proof fn lemma_pair_value(s: Seq<(String, String)>, i: int)
    requires
        unique_pair_keys(s),
        0 <= i < s.len(),
    ensures
        pairs_map(s).contains_key(s[i].0@),
        pairs_map(s)[s[i].0@] == s[i].1@,
    decreases s.len(),
{
    if i < s.len() - 1 {
        assert(s.last().0@ != s[i].0@);
        assert(s.drop_last()[i] == s[i]);
        lemma_pair_value(s.drop_last(), i);
    }
}

/// The frame `CONFIG GET` answers with: a two-element array of the bare
/// parameter name and its configured value, or the empty string where it
/// is not set. The lookup prefixes the name with the two flag dashes.
pub open spec fn config_get_frame(m: Map<Seq<char>, Seq<char>>, key: Seq<char>) -> Seq<char> {
    let dashed = seq!['-', '-'] + key;
    let value = if m.contains_key(dashed) {
        m[dashed]
    } else {
        Seq::<char>::empty()
    };
    array_header_of(2) + bulk_of(key) + bulk_of(value)
}

impl RedisConfig {
    /// The settings mapping, flag-form keys to values.
    pub closed spec fn cfg_map(self) -> Map<Seq<char>, Seq<char>> {
        pairs_map(self.settings@)
    }

    /// Well-formedness: no key is stored twice.
    pub closed spec fn cfg_wf(self) -> bool {
        unique_pair_keys(self.settings@)
    }

    /// An empty configuration.
    pub fn new() -> (c: RedisConfig)
        ensures
            c.cfg_wf(),
            c.cfg_map() == Map::<Seq<char>, Seq<char>>::empty(),
    {
        RedisConfig { settings: Vec::new() }
    }

    /// Index of the pair holding `key`, if one does.
    fn find_setting(&self, key: &str) -> (r: Option<usize>)
        ensures
            match r {
                Some(i) => i < self.settings@.len() && self.settings@[i as int].0@ == key@,
                None => forall|i: int|
                    0 <= i < self.settings@.len() ==> self.settings@[i].0@ != key@,
            },
    {
        let n = self.settings.len();
        let mut i: usize = 0;
        while i < n
            invariant
                n == self.settings@.len(),
                i <= n,
                forall|j: int| 0 <= j < i ==> self.settings@[j].0@ != key@,
            decreases n - i,
        {
            if str_eq(self.settings[i].0.as_str(), key) {
                return Some(i);
            }
            i += 1;
        }
        None
    }

    /// Record one setting, overwriting any earlier value under the key.
    pub fn put(&mut self, key: String, value: String)
        requires
            old(self).cfg_wf(),
        ensures
            final(self).cfg_wf(),
            final(self).cfg_map() == old(self).cfg_map().insert(key@, value@),
    {
        match self.find_setting(key.as_str()) {
            Some(i) => {
                let ghost pre_seq = self.settings@;
                let e = (key, value);
                proof {
                    lemma_pairs_update(pre_seq, i as int, e);
                }
                self.settings.remove(i);
                self.settings.insert(i, e);
                proof {
                    assert(self.settings@ =~= pre_seq.update(i as int, e));
                }
            },
            None => {
                let ghost pre_seq = self.settings@;
                let e = (key, value);
                self.settings.push(e);
                proof {
                    assert(self.settings@.drop_last() =~= pre_seq);
                    assert(self.settings@.last() == e);
                }
            },
        }
    }

    /// The configured value under a flag key, if any.
    pub fn get_setting(&self, key: &str) -> (r: Option<String>)
        requires
            self.cfg_wf(),
        ensures
            match r {
                Some(v) => self.cfg_map().contains_key(key@) && v@ == self.cfg_map()[key@],
                None => !self.cfg_map().contains_key(key@),
            },
    {
        match self.find_setting(key) {
            Some(i) => {
                proof {
                    lemma_pair_value(self.settings@, i as int);
                }
                Some(self.settings[i].1.clone())
            },
            None => {
                proof {
                    lemma_pairs_contains(self.settings@, key@);
                }
                None
            },
        }
    }

    /// Settings cannot be changed over the wire: the call is accepted and
    /// changes nothing.
    #[allow(unused_variables)]
    pub fn set_config(&mut self, command: &RedisCommand)
        ensures
            *final(self) == *old(self),
    {
    }

    /// Answer `CONFIG GET`: a two-element array of the parameter name and
    /// its configured value, the empty string where it is not set.
    pub fn get_config(&self, command: &RedisCommand) -> (r: String)
        requires
            self.cfg_wf(),
            command.str_cmd@.len() >= 3,
        ensures
            r@ == config_get_frame(self.cfg_map(), command.str_cmd@[2]@),
    {
        let key = &command.str_cmd[2];
        let dashed = String::from_str("--").concat(key.as_str());
        proof {
            reveal_strlit("--");
            assert(dashed@ =~= seq!['-', '-'] + key@);
        }
        let value: String = match self.find_setting(dashed.as_str()) {
            Some(i) => {
                proof {
                    lemma_pair_value(self.settings@, i as int);
                }
                self.settings[i].1.clone()
            },
            None => {
                proof {
                    lemma_pairs_contains(self.settings@, dashed@);
                }
                String::new()
            },
        };
        let mut r = String::from_str("*2\r\n");
        proof {
            reveal_strlit("*2\r\n");
            assert("*2\r\n"@ =~= array_header_of(2));
        }
        let kb = bulk_string(key.as_str());
        r.append(kb.as_str());
        let vb = bulk_string(value.as_str());
        r.append(vb.as_str());
        proof {
            assert(r@ =~= config_get_frame(self.cfg_map(), command.str_cmd@[2]@));
        }
        r
    }
}

/// Replacing the pair at `i` by one with the same key updates the
/// mapping at that key alone.
proof fn lemma_pairs_update(s: Seq<(String, String)>, i: int, e: (String, String))
    requires
        unique_pair_keys(s),
        0 <= i < s.len(),
        e.0@ == s[i].0@,
    ensures
        unique_pair_keys(s.update(i, e)),
        pairs_map(s.update(i, e)) == pairs_map(s).insert(e.0@, e.1@),
    decreases s.len(),
{
    let t = s.update(i, e);
    assert(unique_pair_keys(t)) by {
        assert(forall|x: int| 0 <= x < t.len() ==> t[x].0@ == s[x].0@);
    }
    if i == s.len() - 1 {
        assert(t.drop_last() =~= s.drop_last());
        assert(t.last() == e);
        assert(pairs_map(t) =~= pairs_map(s).insert(e.0@, e.1@));
    } else {
        assert(t.drop_last() =~= s.drop_last().update(i, e));
        assert(t.last() == s.last());
        assert(s.drop_last()[i] == s[i]);
        lemma_pairs_update(s.drop_last(), i, e);
        assert(s.last().0@ != e.0@);
        assert(pairs_map(t) =~= pairs_map(s).insert(e.0@, e.1@));
    }
}

} // verus!
