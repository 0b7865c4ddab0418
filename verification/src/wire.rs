//! The response side of the wire format: bulk strings, status and error
//! lines, array headers, and decimal rendering.

use vstd::prelude::*;
use vstd::string::StringExecFns;
use vstd::string::StrSliceExecFns;
use vstd::utf8::encode_utf8;
use crate::text::digit_char;

verus! {

/// The protocol line terminator.
pub open spec fn crlf() -> Seq<char> {
    seq!['\r', '\n']
}

/// Decimal digit characters of `n`, most significant first.
pub open spec fn dec_of(n: nat) -> Seq<char>
    decreases n,
{
    if n < 10 {
        seq![digit_char(n as int)]
    } else {
        dec_of(n / 10).push(digit_char((n % 10) as int))
    }
}

/// Byte length of a string's UTF-8 form, as a machine word: what a bulk
/// header declares when no other length is given.
pub open spec fn byte_len(s: Seq<char>) -> nat {
    (encode_utf8(s).len() as usize) as nat
}

/// One bulk string frame with an explicit header length: marker, the
/// length, terminator, payload, terminator.
pub open spec fn bulk_with_len(s: Seq<char>, n: nat) -> Seq<char> {
    seq!['$'] + dec_of(n) + crlf() + s + crlf()
}

/// One bulk string frame headed by the payload's actual byte length.
pub open spec fn bulk_of(s: Seq<char>) -> Seq<char> {
    bulk_with_len(s, byte_len(s))
}

/// The bulk frames of all items, in order.
pub open spec fn bulks_of(items: Seq<Seq<char>>) -> Seq<char>
    decreases items.len(),
{
    if items.len() == 0 {
        Seq::<char>::empty()
    } else {
        bulks_of(items.drop_last()) + bulk_of(items.last())
    }
}

/// A simple status line.
pub open spec fn simple_of(m: Seq<char>) -> Seq<char> {
    seq!['+'] + m + crlf()
}

/// An error line.
pub open spec fn error_of(m: Seq<char>) -> Seq<char> {
    seq!['-'] + m + crlf()
}

/// An array frame header.
pub open spec fn array_header_of(n: nat) -> Seq<char> {
    seq!['*'] + dec_of(n) + crlf()
}

/// The fixed null-bulk-string token, for absent values.
pub open spec fn null_bulk() -> Seq<char> {
    seq!['$', '-', '1', '\r', '\n']
}

/// The one-character string for a decimal digit.
fn digit_str(d: u64) -> (r: &'static str)
    requires
        d < 10,
    ensures
        r@ == seq![digit_char(d as int)],
{
    proof {
        reveal_strlit("0");
        reveal_strlit("1");
        reveal_strlit("2");
        reveal_strlit("3");
        reveal_strlit("4");
        reveal_strlit("5");
        reveal_strlit("6");
        reveal_strlit("7");
        reveal_strlit("8");
        reveal_strlit("9");
    }
    let r: &'static str = if d == 0 { "0" }
    else if d == 1 { "1" }
    else if d == 2 { "2" }
    else if d == 3 { "3" }
    else if d == 4 { "4" }
    else if d == 5 { "5" }
    else if d == 6 { "6" }
    else if d == 7 { "7" }
    else if d == 8 { "8" }
    else { "9" };
    proof {
        assert(r@ =~= seq![digit_char(d as int)]);
    }
    r
}

/// Render `n` in decimal.
pub fn u64_to_string(n: u64) -> (r: String)
    ensures
        r@ == dec_of(n as nat),
    decreases n,
{
    if n < 10 {
        let r = String::from_str(digit_str(n));
        r
    } else {
        let q = u64_to_string(n / 10);
        let r = q.concat(digit_str(n % 10));
        proof {
            assert(r@ =~= dec_of(n as nat));
        }
        r
    }
}

/// The bulk string frame of `item` under an explicit header length.
pub fn bulk_string_with_len(item: &str, n: u64) -> (r: String)
    ensures
        r@ == bulk_with_len(item@, n as nat),
{
    let mut r = String::from_str("$");
    let num = u64_to_string(n);
    r.append(num.as_str());
    r.append("\r\n");
    r.append(item);
    r.append("\r\n");
    proof {
        reveal_strlit("$");
        reveal_strlit("\r\n");
        assert("$"@ =~= seq!['$']);
        assert("\r\n"@ =~= crlf());
        assert(r@ =~= bulk_with_len(item@, n as nat));
    }
    r
}

/// The bulk string frame of `item`, using its actual byte length.
pub fn bulk_string(item: &str) -> (r: String)
    ensures
        r@ == bulk_of(item@),
{
    let len = item.len();
    bulk_string_with_len(item, len as u64)
}

/// A reply frame: a simple status or an error line.
pub enum RedisResponse {
    OK(String),
    Error(String),
}

impl RedisResponse {
    /// The wire form of this reply.
    pub open spec fn wire(self) -> Seq<char> {
        match self {
            RedisResponse::OK(m) => simple_of(m@),
            RedisResponse::Error(m) => error_of(m@),
        }
    }

    /// Encode the reply for the wire.
    pub fn to_string(&self) -> (r: String)
        ensures
            r@ == self.wire(),
    {
        match self {
            RedisResponse::OK(m) => {
                let mut r = String::from_str("+");
                r.append(m.as_str());
                r.append("\r\n");
                proof {
                    reveal_strlit("+");
                    reveal_strlit("\r\n");
                    assert(r@ =~= self.wire());
                }
                r
            },
            RedisResponse::Error(m) => {
                let mut r = String::from_str("-");
                r.append(m.as_str());
                r.append("\r\n");
                proof {
                    reveal_strlit("-");
                    reveal_strlit("\r\n");
                    assert(r@ =~= self.wire());
                }
                r
            },
        }
    }
}

} // verus!
