//! Raw lines: the bytes of a log up to and including each newline.

use vstd::prelude::*;

verus! {

/// The byte that ends a line.
pub const NEWLINE: u8 = 10;

/// The length of the first raw line of `bytes`: through the first newline,
/// or all of `bytes` where there is none.
pub open spec fn line_len(bytes: Seq<u8>) -> int {
    match bytes.index_of_first(NEWLINE) {
        Some(at) => at + 1,
        None => bytes.len() as int,
    }
}

/// The first raw line of `bytes`, with its newline if it has one.
pub open spec fn first_line(bytes: Seq<u8>) -> Seq<u8> {
    bytes.take(line_len(bytes))
}

/// What follows the first raw line of `bytes`.
pub open spec fn after_first_line(bytes: Seq<u8>) -> Seq<u8> {
    bytes.skip(line_len(bytes))
}

/// A line's length is fixed by where the first newline is: `n` is the
/// length of the first line exactly when no newline comes before its last
/// byte, and the line ends either in a newline or with the bytes.
pub proof fn lemma_line_len_is(bytes: Seq<u8>, n: int)
    requires
        0 <= n <= bytes.len(),
        forall|i: int| 0 <= i < n - 1 ==> bytes[i] != NEWLINE,
        (n > 0 && bytes[n - 1] == NEWLINE) || (n == bytes.len() && !bytes.contains(NEWLINE)),
    ensures
        line_len(bytes) == n,
{
    bytes.index_of_first_ensures(NEWLINE);
    match bytes.index_of_first(NEWLINE) {
        Some(at) => {
            if n == 0 || bytes[n - 1] != NEWLINE {
                assert(bytes.contains(NEWLINE));
                assert(false);
            }
        },
        None => {
            if n < bytes.len() {
                assert(bytes.contains(bytes[n - 1]));
            }
        },
    }
}

/// The first line of a log that is not empty is not empty, lies within the
/// log, holds no newline before its last byte, and ends in a newline
/// exactly when the log holds one.
pub proof fn lemma_line_len_bounds(bytes: Seq<u8>)
    requires
        bytes.len() > 0,
    ensures
        0 < line_len(bytes) <= bytes.len(),
        forall|i: int| 0 <= i < line_len(bytes) - 1 ==> bytes[i] != NEWLINE,
        bytes.contains(NEWLINE) <==> bytes[line_len(bytes) - 1] == NEWLINE,
        !bytes.contains(NEWLINE) ==> line_len(bytes) == bytes.len(),
{
    bytes.index_of_first_ensures(NEWLINE);
    if bytes[line_len(bytes) - 1] == NEWLINE {
        assert(bytes.contains(NEWLINE));
    }
}

/// A line that has its newline is not changed by bytes that come after it.
pub proof fn lemma_whole_line_stands(bytes: Seq<u8>, more: Seq<u8>)
    requires
        bytes.contains(NEWLINE),
    ensures
        (bytes + more).contains(NEWLINE),
        line_len(bytes + more) == line_len(bytes),
        first_line(bytes + more) == first_line(bytes),
        after_first_line(bytes + more) == after_first_line(bytes) + more,
{
    lemma_line_len_bounds(bytes);
    let n = line_len(bytes);
    let all = bytes + more;
    assert(all[n - 1] == bytes[n - 1]);
    assert forall|i: int| 0 <= i < n - 1 implies all[i] != NEWLINE by {
        assert(all[i] == bytes[i]);
    }
    lemma_line_len_is(all, n);
    assert(all.take(n) =~= bytes.take(n));
    assert(all.skip(n) =~= bytes.skip(n) + more);
}

/// The index just past the raw line that starts at `from`.
pub fn line_end(bytes: &[u8], from: usize) -> (end: usize)
    requires
        from <= bytes@.len(),
    ensures
        end == from + line_len(bytes@.skip(from as int)),
        from <= end <= bytes@.len(),
{
    let mut end: usize = from;
    while end < bytes.len() && bytes[end] != NEWLINE
        invariant
            from <= end <= bytes@.len(),
            forall|i: int| from <= i < end ==> bytes@[i] != NEWLINE,
        decreases bytes@.len() - end,
    {
        end += 1;
    }
    if end < bytes.len() {
        end += 1;
    }
    proof {
        let rest = bytes@.skip(from as int);
        lemma_line_len_is(rest, end - from);
    }
    end
}

} // verus!
