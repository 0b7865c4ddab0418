//! The wire-frame parser: one request frame decoded into a command, and
//! the command-side response encoder.

use vstd::prelude::*;
use vstd::string::StrSliceExecFns;
use vstd::string::StringExecFns;
use crate::sys::lower_of;
use crate::sys::to_lower;
use crate::text::parse_i32;
use crate::text::parse_i32_spec;
use crate::text::skip_dollars;
use crate::text::trim_dollars;
use crate::wire::bulk_of;
use crate::wire::bulk_string;
use crate::wire::bulk_string_with_len;
use crate::wire::bulk_with_len;
use crate::wire::byte_len;

verus! {

/// A parsed request: the declared element count, the declared byte length
/// of each bulk argument, and the lower-cased argument tokens, the command
/// name first.
#[derive(Debug)]
pub struct RedisCommand {
    pub cmd_len: i32,
    pub n_chars_len: Vec<i32>,
    pub str_cmd: Vec<String>,
}

/// Position of the first protocol line terminator in `s`, if any.
pub open spec fn find_crlf(s: Seq<char>) -> Option<int>
    decreases s.len(),
{
    if s.len() < 2 {
        None::<int>
    } else if s[0] == '\r' && s[1] == '\n' {
        Some(0)
    } else {
        match find_crlf(s.skip(1)) {
            Some(i) => Some(i + 1),
            None => None::<int>,
        }
    }
}

/// Where the terminator is found it is in bounds and is the first one;
/// where none is found there is none.
pub proof fn lemma_find_crlf(s: Seq<char>)
    ensures
        match find_crlf(s) {
            Some(i) => 0 <= i && i + 2 <= s.len() && s[i] == '\r' && s[i + 1] == '\n'
                && forall|j: int| 0 <= j < i ==> !(#[trigger] s[j] == '\r' && s[j + 1] == '\n'),
            None => forall|j: int| 0 <= j && j + 1 < s.len() ==> !(#[trigger] s[j] == '\r' && s[j + 1] == '\n'),
        },
    decreases s.len(),
{
    if s.len() < 2 {
    } else if s[0] == '\r' && s[1] == '\n' {
    } else {
        lemma_find_crlf(s.skip(1));
        let t = s.skip(1);
        assert(forall|j: int| 0 <= j < t.len() ==> t[j] == s[j + 1]);
        match find_crlf(t) {
            Some(i) => {
                assert forall|j: int| 0 <= j < i + 1 implies !(#[trigger] s[j] == '\r' && s[j + 1] == '\n') by {
                    if j > 0 {
                        assert(!(t[j - 1] == '\r' && t[j] == '\n'));
                    }
                }
            },
            None => {
                assert forall|j: int| 0 <= j && j + 1 < s.len() implies !(#[trigger] s[j] == '\r' && s[j + 1]
                    == '\n') by {
                    if j > 0 {
                        assert(!(t[j - 1] == '\r' && t[j] == '\n'));
                    }
                }
            },
        }
    }
}

#[via_fn]
proof fn split_crlf_decreases(s: Seq<char>) {
    lemma_find_crlf(s);
}

/// The lines of `s`, split on the protocol line terminator.
pub open spec fn split_crlf(s: Seq<char>) -> Seq<Seq<char>>
    decreases s.len(),
    via split_crlf_decreases
{
    match find_crlf(s) {
        None => seq![s],
        Some(i) => seq![s.take(i)] + split_crlf(s.skip(i + 2)),
    }
}

/// The non-empty lines among `ls`, in order.
pub open spec fn nonempty_of(ls: Seq<Seq<char>>) -> Seq<Seq<char>>
    decreases ls.len(),
{
    if ls.len() == 0 {
        Seq::<Seq<char>>::empty()
    } else if ls[0].len() > 0 {
        seq![ls[0]] + nonempty_of(ls.skip(1))
    } else {
        nonempty_of(ls.skip(1))
    }
}

/// Every line that `nonempty_of` keeps is non-empty.
pub proof fn lemma_nonempty_of(ls: Seq<Seq<char>>)
    ensures
        forall|k: int| 0 <= k < nonempty_of(ls).len() ==> #[trigger] nonempty_of(ls)[k].len() > 0,
    decreases ls.len(),
{
    if ls.len() > 0 {
        lemma_nonempty_of(ls.skip(1));
        let r = nonempty_of(ls);
        if ls[0].len() > 0 {
            assert forall|k: int| 0 <= k < r.len() implies #[trigger] r[k].len() > 0 by {
                if k == 0 {
                    assert(r[0] == ls[0]);
                } else {
                    assert(r[k] == nonempty_of(ls.skip(1))[k - 1]);
                }
            }
        }
    }
}

/// The non-empty lines of a frame.
pub open spec fn frame_lines(s: Seq<char>) -> Seq<Seq<char>> {
    nonempty_of(split_crlf(s))
}

/// Classify the lines after the header: declared lengths from `$` lines,
/// lower-cased tokens from the rest. A `$` line whose digits do not parse
/// fails the whole frame.
pub open spec fn classify_lines(ls: Seq<Seq<char>>) -> Option<(Seq<i32>, Seq<Seq<char>>)>
    decreases ls.len(),
{
    if ls.len() == 0 {
        Some((Seq::<i32>::empty(), Seq::<Seq<char>>::empty()))
    } else {
        let l = ls[0];
        let rest = classify_lines(ls.skip(1));
        if l.len() > 0 && l[0] == '$' {
            match parse_i32_spec(skip_dollars(l)) {
                None => None,
                Some(v) => match rest {
                    None => None,
                    Some(p) => Some((seq![v] + p.0, p.1)),
                },
            }
        } else {
            match rest {
                None => None,
                Some(p) => Some((p.0, seq![lower_of(l)] + p.1)),
            }
        }
    }
}

/// The header length an echoed argument carries: its declared entry,
/// taken by position, or its actual byte length where no entry exists or
/// the entry is negative.
pub open spec fn declared_len(lens: Seq<i32>, args: Seq<Seq<char>>, i: int) -> nat {
    if 0 <= i < lens.len() && lens[i] >= 0 {
        lens[i] as nat
    } else {
        byte_len(args[i])
    }
}

/// The bulk frames of the first `k` arguments after the name, each headed
/// by its declared length.
pub open spec fn echo_bulks_upto(lens: Seq<i32>, args: Seq<Seq<char>>, k: int) -> Seq<char>
    decreases k,
{
    if k <= 1 {
        Seq::<char>::empty()
    } else {
        echo_bulks_upto(lens, args, k - 1) + bulk_with_len(
            args[k - 1],
            declared_len(lens, args, k - 1),
        )
    }
}

/// The echo-mode reply: every argument after the name as a bulk string,
/// headed by its originally declared length.
pub open spec fn echo_bulks(lens: Seq<i32>, args: Seq<Seq<char>>) -> Seq<char> {
    echo_bulks_upto(lens, args, args.len() as int)
}

/// What parsing one frame yields: the declared count from the `*` header,
/// the declared lengths, and the lower-cased tokens; or the parse failure.
pub open spec fn parse_frame_spec(s: Seq<char>) -> Result<(i32, Seq<i32>, Seq<Seq<char>>), Seq<char>> {
    let ls = frame_lines(s);
    if ls.len() == 0 {
        Err("Command string is empty"@)
    } else if ls[0][0] != '*' {
        Err("Invalid command format: expected '*'"@)
    } else {
        match parse_i32_spec(ls[0].skip(1)) {
            None => Err("Failed to parse command length"@),
            Some(n) => match classify_lines(ls.skip(1)) {
                None => Err("Failed to parse character length"@),
                Some(p) => Ok((n, p.0, p.1)),
            },
        }
    }
}

/// Where no terminator lies in `t` before `m`, and one lies at `m`, it is
/// the first.
proof fn lemma_find_crlf_at(t: Seq<char>, m: int)
    requires
        0 <= m,
        m + 2 <= t.len(),
        t[m] == '\r',
        t[m + 1] == '\n',
        forall|j: int| 0 <= j < m ==> !(#[trigger] t[j] == '\r' && t[j + 1] == '\n'),
    ensures
        find_crlf(t) == Some(m),
    decreases m,
{
    if m > 0 {
        let u = t.skip(1);
        assert(forall|j: int| 0 <= j < u.len() ==> u[j] == t[j + 1]);
        lemma_find_crlf_at(u, m - 1);
    }
}

/// Where no terminator lies anywhere in `t`, none is found.
proof fn lemma_find_crlf_none(t: Seq<char>)
    requires
        forall|j: int| 0 <= j && j + 1 < t.len() ==> !(#[trigger] t[j] == '\r' && t[j + 1] == '\n'),
    ensures
        find_crlf(t) == None::<int>,
    decreases t.len(),
{
    if t.len() >= 2 {
        let u = t.skip(1);
        assert(forall|j: int| 0 <= j < u.len() ==> u[j] == t[j + 1]);
        lemma_find_crlf_none(u);
    }
}

/// The non-empty lines of `s`, in order.
fn split_frame_lines(s: &str) -> (lines: Vec<&str>)
    ensures
        lines.deep_view() == frame_lines(s@),
{
    let n = s.unicode_len();
    let mut lines: Vec<&str> = Vec::new();
    let mut start: usize = 0;
    let mut i: usize = 0;
    proof {
        assert(s@.skip(0) =~= s@);
    }
    while i < n
        invariant
            n == s@.len(),
            start <= i <= n,
            forall|k: int| start <= k < i ==> !(#[trigger] s@[k] == '\r' && k + 1 < n && s@[k + 1] == '\n'),
            frame_lines(s@) == lines.deep_view() + nonempty_of(split_crlf(s@.skip(start as int))),
        decreases n - i,
    {
        let is_term = if s.get_char(i) == '\r' {
            if i + 1 < n {
                s.get_char(i + 1) == '\n'
            } else {
                false
            }
        } else {
            false
        };
        if is_term {
            let ghost t = s@.skip(start as int);
            let ghost seg = s@.subrange(start as int, i as int);
            let ghost rest = split_crlf(s@.skip(i + 2));
            proof {
                assert(forall|j: int| 0 <= j < t.len() ==> t[j] == s@[j + start]);
                lemma_find_crlf_at(t, i - start);
                assert(split_crlf(t) == seq![t.take(i - start)] + split_crlf(t.skip(i - start + 2)));
                assert(t.take(i - start) =~= seg);
                assert(t.skip(i - start + 2) =~= s@.skip(i + 2));
                assert(split_crlf(t) == seq![seg] + rest);
                assert((seq![seg] + rest).skip(1) =~= rest);
                assert((seq![seg] + rest)[0] == seg);
            }
            if i > start {
                let line = s.substring_char(start, i);
                lines.push(line);
                proof {
                    assert(nonempty_of(seq![seg] + rest) == seq![seg] + nonempty_of(rest));
                    assert(lines.deep_view().drop_last() + (seq![seg] + nonempty_of(rest))
                        =~= lines.deep_view() + nonempty_of(rest));
                    assert(frame_lines(s@) == lines.deep_view() + nonempty_of(rest));
                }
            } else {
                proof {
                    assert(seg.len() == 0);
                    assert(nonempty_of(seq![seg] + rest) == nonempty_of(rest));
                    assert(frame_lines(s@) == lines.deep_view() + nonempty_of(rest));
                }
            }
            start = i + 2;
            i = i + 2;
        } else {
            i = i + 1;
        }
    }
    let ghost t = s@.skip(start as int);
    proof {
        assert(forall|j: int| 0 <= j < t.len() ==> t[j] == s@[j + start]);
        lemma_find_crlf_none(t);
        assert(split_crlf(t) == seq![t]);
        assert(seq![t].skip(1) =~= Seq::<Seq<char>>::empty());
        assert(seq![t][0] == t);
    }
    if start < n {
        let line = s.substring_char(start, n);
        lines.push(line);
        proof {
            assert(t =~= s@.subrange(start as int, n as int));
            assert(nonempty_of(seq![t]) == seq![t] + nonempty_of(Seq::<Seq<char>>::empty()));
            assert(seq![t] + nonempty_of(Seq::<Seq<char>>::empty()) =~= seq![t]);
            assert(lines.deep_view().drop_last() + seq![t] =~= lines.deep_view());
            assert(frame_lines(s@) == lines.deep_view());
        }
    } else {
        proof {
            assert(t.len() == 0);
            assert(seq![t].skip(1) =~= Seq::<Seq<char>>::empty());
            assert(nonempty_of(Seq::<Seq<char>>::empty()) =~= Seq::<Seq<char>>::empty());
            assert(nonempty_of(seq![t]) =~= Seq::<Seq<char>>::empty());
            assert(lines.deep_view() + nonempty_of(seq![t]) =~= lines.deep_view());
            assert(frame_lines(s@) == lines.deep_view());
        }
    }
    lines
}

impl RedisCommand {
    /// Parse one frame: split on the line terminator, read the `*` header
    /// count, collect the `$` declared lengths, and lower-case the other
    /// lines as tokens.
    pub fn parser_receive(command_str: &str) -> (r: Result<RedisCommand, String>)
        ensures
            match r {
                Ok(c) => parse_frame_spec(command_str@) == Ok::<(i32, Seq<i32>, Seq<Seq<char>>),
                    Seq<char>>((c.cmd_len, c.n_chars_len@, c.str_cmd.deep_view())),
                Err(e) => parse_frame_spec(command_str@) == Err::<(i32, Seq<i32>, Seq<Seq<char>>),
                    Seq<char>>(e@),
            },
    {
        let lines = split_frame_lines(command_str);
        let ghost ldv = lines.deep_view();
        proof {
            assert(forall|k: int| 0 <= k < ldv.len() ==> ldv[k] == lines@[k]@);
            lemma_nonempty_of(split_crlf(command_str@));
        }
        if lines.len() == 0 {
            return Err(String::from_str("Command string is empty"));
        }
        let first: &str = lines[0];
        let n0 = first.unicode_len();
        if first.get_char(0) != '*' {
            return Err(String::from_str("Invalid command format: expected '*'"));
        }
        let digits = first.substring_char(1, n0);
        proof {
            assert(digits@ =~= ldv[0].skip(1));
        }
        let cmd_len = match parse_i32(digits) {
            Some(v) => v,
            None => {
                return Err(String::from_str("Failed to parse command length"));
            },
        };
        let mut n_chars_len: Vec<i32> = Vec::new();
        let mut str_cmd: Vec<String> = Vec::new();
        let mut i: usize = 1;
        while i < lines.len()
            invariant
                ldv == lines.deep_view(),
                ldv == frame_lines(command_str@),
                ldv.len() > 0,
                ldv[0][0] == '*',
                parse_i32_spec(ldv[0].skip(1)) == Some(cmd_len),
                forall|k: int| 0 <= k < ldv.len() ==> ldv[k] == lines@[k]@,
                forall|k: int| 0 <= k < ldv.len() ==> #[trigger] ldv[k].len() > 0,
                1 <= i <= ldv.len(),
                match classify_lines(ldv.skip(i as int)) {
                    Some(p) => classify_lines(ldv.skip(1)) == Some(
                        (n_chars_len@ + p.0, str_cmd.deep_view() + p.1),
                    ),
                    None => classify_lines(ldv.skip(1)) is None,
                },
            decreases ldv.len() - i,
        {
            let line: &str = lines[i];
            let ghost rest = ldv.skip(i as int);
            proof {
                assert(rest[0] == ldv[i as int]);
                assert(rest.skip(1) =~= ldv.skip(i + 1));
            }
            if line.get_char(0) == '$' {
                let digits_part = trim_dollars(line);
                match parse_i32(digits_part) {
                    Some(v) => {
                        proof {
                            match classify_lines(ldv.skip(i + 1)) {
                                Some(p) => {
                                    assert(classify_lines(rest) == Some((seq![v] + p.0, p.1)));
                                    assert(n_chars_len@ + (seq![v] + p.0) =~= n_chars_len@.push(v)
                                        + p.0);
                                },
                                None => {
                                    assert(classify_lines(rest) is None);
                                },
                            }
                        }
                        n_chars_len.push(v);
                    },
                    None => {
                        proof {
                            assert(classify_lines(rest) is None);
                        }
                        return Err(String::from_str("Failed to parse character length"));
                    },
                }
            } else {
                let token = to_lower(line);
                proof {
                    match classify_lines(ldv.skip(i + 1)) {
                        Some(p) => {
                            assert(classify_lines(rest) == Some(
                                (p.0, seq![lower_of(rest[0])] + p.1),
                            ));
                            assert(str_cmd.deep_view() + (seq![lower_of(rest[0])] + p.1)
                                =~= str_cmd.deep_view().push(lower_of(rest[0])) + p.1);
                        },
                        None => {
                            assert(classify_lines(rest) is None);
                        },
                    }
                }
                str_cmd.push(token);
                proof {
                    assert(str_cmd.deep_view() =~= str_cmd.deep_view().drop_last().push(
                        lower_of(rest[0])));
                }
            }
            i += 1;
        }
        proof {
            assert(ldv.skip(ldv.len() as int).len() == 0);
            assert(classify_lines(ldv.skip(ldv.len() as int)) == Some(
                (Seq::<i32>::empty(), Seq::<Seq<char>>::empty()),
            ));
            assert(n_chars_len@ + Seq::<i32>::empty() =~= n_chars_len@);
            assert(str_cmd.deep_view() + Seq::<Seq<char>>::empty() =~= str_cmd.deep_view());
        }
        Ok(RedisCommand { cmd_len, n_chars_len, str_cmd })
    }

    /// Re-encode either one explicit payload under its actual byte
    /// length, or the command's own arguments after the name, each under
    /// its originally declared length. Arguments and declared lengths are
    /// paired by position; an argument with no declared entry, or a
    /// negative one, is encoded with its actual byte length.
    pub fn format_response_code(&self, input: Option<String>) -> (r: String)
        requires
            input is None ==> self.str_cmd@.len() >= 1,
        ensures
            r@ == match input {
                Some(s) => bulk_of(s@),
                None => echo_bulks(self.n_chars_len@, self.str_cmd.deep_view()),
            },
    {
        match input {
            Some(s) => bulk_string(s.as_str()),
            None => {
                let ghost args = self.str_cmd.deep_view();
                let ghost lens = self.n_chars_len@;
                let mut r = String::new();
                let mut i: usize = 1;
                while i < self.str_cmd.len()
                    invariant
                        1 <= i <= self.str_cmd@.len(),
                        args == self.str_cmd.deep_view(),
                        lens == self.n_chars_len@,
                        args.len() == self.str_cmd@.len(),
                        forall|k: int| 0 <= k < args.len() ==> args[k] == self.str_cmd@[k]@,
                        r@ == echo_bulks_upto(lens, args, i as int),
                    decreases self.str_cmd@.len() - i,
                {
                    let item = &self.str_cmd[i];
                    let b: String = if i < self.n_chars_len.len() && self.n_chars_len[i] >= 0 {
                        bulk_string_with_len(item.as_str(), self.n_chars_len[i] as u64)
                    } else {
                        bulk_string(item.as_str())
                    };
                    r.append(b.as_str());
                    i += 1;
                }
                proof {
                    assert(r@ == echo_bulks(lens, args));
                }
                r
            },
        }
    }
}

} // verus!
