//! What one line of a log does to the command being assembled.

use crate::provider::Grammar;
use crate::text::string_of;
use vstd::prelude::*;
use vstd::slice::slice_subrange;

verus! {

/// At the end of a line, says that the command goes on in the next line.
pub const CONTINUATION_MARKER: char = '\\';

/// At the start of a line, says that the line is a comment.
pub const COMMENT_MARKER: char = '#';

/// Whether a trimmed line says that its command goes on in the next line.
pub open spec fn is_continued(line: Seq<char>) -> bool {
    line.len() > 0 && line.last() == CONTINUATION_MARKER
}

/// Whether a trimmed line is a comment.
pub open spec fn is_comment(line: Seq<char>) -> bool {
    line.len() > 0 && line.first() == COMMENT_MARKER
}

/// The text of a block that may have been handed out.
pub open spec fn text_of(block: Option<String>) -> Option<Seq<char>> {
    match block {
        Some(text) => Some(text@),
        None => None,
    }
}

impl Grammar {
    /// What a line does to `partial`, the block in progress: the block that
    /// the line completes, if it completes one, and the block in progress
    /// after the line. `line` is the line's text, decoded and trimmed.
    ///
    /// Under `Continuation` a blank line adds nothing and decides nothing. A
    /// line that ends in the continuation marker adds its text without that
    /// one character and leaves the block open. Any other line adds its
    /// text and completes the block.
    ///
    /// Under `CommentPrefixed` a line that starts with the comment marker
    /// is dropped, with all that is in progress. Any other line adds its
    /// text and completes the block.
    pub open spec fn absorb(self, partial: Seq<char>, line: Seq<char>) -> (
        Option<Seq<char>>,
        Seq<char>,
    ) {
        match self {
            Grammar::Continuation => {
                if line.len() == 0 {
                    (None, partial)
                } else if is_continued(line) {
                    (None, partial + line.drop_last())
                } else {
                    (Some(partial + line), Seq::empty())
                }
            },
            Grammar::CommentPrefixed => {
                if is_comment(line) {
                    (None, Seq::empty())
                } else {
                    (Some(partial + line), Seq::empty())
                }
            },
        }
    }

    /// The block in progress after a sequence of lines, with `partial` in
    /// progress at its start.
    pub open spec fn in_progress_after(self, partial: Seq<char>, lines: Seq<Seq<char>>) -> Seq<
        char,
    >
        decreases lines.len(),
    {
        if lines.len() == 0 {
            partial
        } else {
            self.in_progress_after(self.absorb(partial, lines.first()).1, lines.drop_first())
        }
    }

    /// The blocks that a sequence of lines makes when nothing follows it,
    /// with `partial` in progress at its start. Each of `lines` is the text
    /// of one line, decoded and trimmed. A block still in progress after
    /// the last line is a block as it is.
    pub open spec fn blocks_of_lines(self, partial: Seq<char>, lines: Seq<Seq<char>>) -> Seq<
        Seq<char>,
    >
        decreases lines.len(),
    {
        if lines.len() == 0 {
            if partial.len() > 0 {
                seq![partial]
            } else {
                Seq::empty()
            }
        } else {
            let (block, carried) = self.absorb(partial, lines.first());
            let rest = self.blocks_of_lines(carried, lines.drop_first());
            match block {
                Some(block) => seq![block] + rest,
                None => rest,
            }
        }
    }

    /// Takes one line into `block`, the block in progress, and hands out
    /// the block if the line completes it. `line` is the line's text,
    /// decoded and trimmed.
    pub fn take_line(&self, block: &mut Vec<char>, line: &[char]) -> (done: Option<String>)
        ensures
            text_of(done) == self.absorb(old(block)@, line@).0,
            final(block)@ == self.absorb(old(block)@, line@).1,
    {
        let len = line.len();
        match self {
            Grammar::Continuation => {
                if len == 0 {
                    return None;
                }
                if line[len - 1] == CONTINUATION_MARKER {
                    append(block, slice_subrange(line, 0, len - 1));
                    assert(line@.subrange(0, len - 1) =~= line@.drop_last());
                    return None;
                }
            },
            Grammar::CommentPrefixed => {
                if len > 0 && line[0] == COMMENT_MARKER {
                    block.clear();
                    return None;
                }
            },
        }
        append(block, line);
        let done = string_of(block.as_slice());
        block.clear();
        Some(done)
    }
}

/// Adds the characters of `text` to the end of `block`.
fn append(block: &mut Vec<char>, text: &[char])
    ensures
        final(block)@ == old(block)@ + text@,
{
    block.extend_from_slice(text);
    assert(block@ =~= old(block)@ + text@);
}

} // verus!
