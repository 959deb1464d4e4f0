//! Text as sequences of characters: decoding raw bytes and trimming
//! whitespace.

use vstd::prelude::*;
use vstd::utf8::{decode_utf8, valid_utf8};

verus! {

/// The text that lossy UTF-8 decoding makes of bytes that are not
/// well-formed UTF-8: the well-formed parts decode to their characters, and
/// every malformed part is replaced by U+FFFD.
pub uninterp spec fn lossy_utf8(bytes: Seq<u8>) -> Seq<char>;

/// The text of `bytes`. Well-formed UTF-8 decodes to the characters it
/// encodes; anything else is decoded lossily. Decoding never fails.
pub open spec fn decoded(bytes: Seq<u8>) -> Seq<char> {
    if valid_utf8(bytes) {
        decode_utf8(bytes)
    } else {
        lossy_utf8(bytes)
    }
}

/// Whether `c` has Unicode's `White_Space` property.
pub uninterp spec fn white_space(c: char) -> bool;

/// `text` without its leading whitespace.
pub open spec fn trim_start(text: Seq<char>) -> Seq<char>
    decreases text.len(),
{
    if text.len() > 0 && white_space(text.first()) {
        trim_start(text.drop_first())
    } else {
        text
    }
}

/// `text` without its trailing whitespace.
pub open spec fn trim_end(text: Seq<char>) -> Seq<char>
    decreases text.len(),
{
    if text.len() > 0 && white_space(text.last()) {
        trim_end(text.drop_last())
    } else {
        text
    }
}

/// `text` without its leading and trailing whitespace.
pub open spec fn trim(text: Seq<char>) -> Seq<char> {
    trim_end(trim_start(text))
}

/// Decodes `bytes` with `String::from_utf8_lossy` and hands the characters
/// out one by one.
///
/// Trusted: well-formed UTF-8 comes out as the characters it encodes. For
/// other bytes the result depends on the bytes alone, and is named
/// `lossy_utf8(bytes)`; nothing more is claimed about it.
#[verifier::external_body]
pub(crate) fn decode_lossy(bytes: &[u8]) -> (text: Vec<char>)
    ensures
        valid_utf8(bytes@) ==> text@ == decode_utf8(bytes@),
        !valid_utf8(bytes@) ==> text@ == lossy_utf8(bytes@),
{
    String::from_utf8_lossy(bytes).chars().collect()
}

/// Calls `char::is_whitespace`.
///
/// Trusted: the result is named `white_space(c)`; nothing is claimed about
/// which characters those are.
#[verifier::external_body]
pub(crate) fn is_white_space(c: char) -> (b: bool)
    ensures
        b == white_space(c),
{
    c.is_whitespace()
}

/// Collects characters into a `String` with `String::from_iter`.
///
/// Trusted: the string holds exactly the given characters, in order.
#[verifier::external_body]
pub(crate) fn string_of(chars: &[char]) -> (text: String)
    ensures
        text@ == chars@,
{
    String::from_iter(chars.iter())
}

/// The whitespace in front of a text may be dropped one character at a time.
proof fn lemma_trim_start_skip(text: Seq<char>, n: int)
    requires
        0 <= n <= text.len(),
        forall|i: int| 0 <= i < n ==> white_space(#[trigger] text[i]),
    ensures
        trim_start(text) == trim_start(text.skip(n)),
    decreases n,
{
    if n > 0 {
        assert(text.drop_first().skip(n - 1) =~= text.skip(n));
        lemma_trim_start_skip(text.drop_first(), n - 1);
    } else {
        assert(text.skip(0) =~= text);
    }
}

/// The whitespace at the back of a text may be dropped one character at a time.
proof fn lemma_trim_end_take(text: Seq<char>, n: int)
    requires
        0 <= n <= text.len(),
        forall|i: int| n <= i < text.len() ==> white_space(#[trigger] text[i]),
    ensures
        trim_end(text) == trim_end(text.take(n)),
    decreases text.len() - n,
{
    if n < text.len() {
        assert(text.drop_last().take(n) =~= text.take(n));
        lemma_trim_end_take(text.drop_last(), n);
    } else {
        assert(text.take(n) =~= text);
    }
}

/// The bounds of `text` without its leading and trailing whitespace.
pub fn trim_bounds(text: &[char]) -> (bounds: (usize, usize))
    ensures
        bounds.0 <= bounds.1 <= text@.len(),
        text@.subrange(bounds.0 as int, bounds.1 as int) == trim(text@),
{
    let mut from: usize = 0;
    while from < text.len() && is_white_space(text[from])
        invariant
            from <= text@.len(),
            forall|i: int| 0 <= i < from ==> white_space(#[trigger] text@[i]),
        decreases text@.len() - from,
    {
        from += 1;
    }
    let mut to: usize = text.len();
    while from < to && is_white_space(text[to - 1])
        invariant
            from <= to <= text@.len(),
            forall|i: int| to <= i < text@.len() ==> white_space(#[trigger] text@[i]),
        decreases to,
    {
        to -= 1;
    }
    proof {
        let rest = text@.skip(from as int);
        lemma_trim_start_skip(text@, from as int);
        assert(trim_start(rest) == rest);
        lemma_trim_end_take(rest, to - from);
        assert(rest.take(to - from) =~= text@.subrange(from as int, to as int));
        assert(trim_end(rest.take(to - from)) == rest.take(to - from));
    }
    (from, to)
}

} // verus!
