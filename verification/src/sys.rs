//! Thin bridges to the runtime: the wall clock, and the Unicode text
//! transformations that the standard library computes.

use vstd::prelude::*;

verus! {

/// The characters that lossy UTF-8 decoding yields for a byte sequence; a
/// function of the bytes alone.
pub uninterp spec fn lossy_utf8(bytes: Seq<u8>) -> Seq<char>;

/// The characters of a string's Unicode lowercase form; a function of the
/// characters alone.
pub uninterp spec fn lower_of(s: Seq<char>) -> Seq<char>;

/// Relies on std's `String::from_utf8_lossy`: decodes bytes as UTF-8 with
/// replacement characters for invalid sequences, never failing; the result
/// depends on the bytes alone, and no bytes yield no characters. Bytes
/// below 0x80 are one-byte UTF-8 sequences, so an all-ASCII buffer decodes
/// to its own characters.
#[verifier::external_body]
pub(crate) fn utf8_lossy(bytes: &[u8]) -> (r: String)
    ensures
        r@ == lossy_utf8(bytes@),
        bytes@.len() == 0 ==> r@.len() == 0,
        (forall|i: int| 0 <= i < bytes@.len() ==> #[trigger] bytes@[i] < 0x80) ==> r@.len()
            == bytes@.len() && forall|i: int|
            0 <= i < bytes@.len() ==> #[trigger] (r@[i] as u32) == bytes@[i] as u32,
{
    String::from_utf8_lossy(bytes).into_owned()
}

/// Relies on std's `str::to_lowercase`: the Unicode lowercase form of the
/// string; the result depends on the characters alone, and an empty string
/// stays empty. ASCII characters lowercase one-for-one: the letters `A`
/// through `Z` (code points 65 through 90) move down by 32, and every
/// other character below 0x80 stays itself.
#[verifier::external_body]
pub(crate) fn to_lower(s: &str) -> (r: String)
    ensures
        r@ == lower_of(s@),
        s@.len() == 0 ==> r@.len() == 0,
        (forall|i: int| 0 <= i < s@.len() ==> #[trigger] (s@[i] as u32) < 0x80) ==> r@.len()
            == s@.len() && forall|i: int|
            0 <= i < s@.len() ==> #[trigger] (r@[i] as u32) as int == if 65 <= s@[i] as u32 <= 90 {
                s@[i] as u32 + 32
            } else {
                (s@[i] as u32) as int
            },
{
    s.to_lowercase()
}

/// Relies on std's `SystemTime::now` and `Duration::as_millis`: the current
/// wall-clock time in milliseconds since the UNIX epoch. Nothing is promised
/// of the value; a clock before the epoch reads as zero.
#[verifier::external_body]
pub(crate) fn now_millis() -> u64 {
    match std::time::SystemTime::now().duration_since(std::time::UNIX_EPOCH) {
        Ok(d) => d.as_millis() as u64,
        Err(_) => 0,
    }
}

} // verus!
