//! Whole logs and whole runs: what a parser hands out from its first byte
//! to the end of its source.

use crate::lines::{after_first_line, lemma_line_len_bounds};
use crate::provider::HistoryProvider;
use crate::state::{line_text, HistoryState};
use vstd::prelude::*;

verus! {

/// The texts of all the lines of `log`, in order.
pub open spec fn line_texts(log: Seq<u8>) -> Seq<Seq<char>>
    decreases log.len(),
{
    if log.len() == 0 {
        Seq::empty()
    } else {
        proof {
            lemma_line_len_bounds(log);
        }
        seq![line_text(log)] + line_texts(after_first_line(log))
    }
}

/// The blocks of a whole log: what its lines make under the provider's
/// grammar, from the first line to the last.
pub open spec fn log_blocks(provider: HistoryProvider, log: Seq<u8>) -> Seq<Seq<char>> {
    provider.grammar_of().blocks_of_lines(Seq::empty(), line_texts(log))
}

/// One thing that is done with a parser while its source is open.
pub enum Action {
    /// The source gave these bytes.
    Feed(Seq<u8>),
    /// The next block was asked for.
    Ask,
}

/// All the bytes that the source gave during `actions`.
pub open spec fn bytes_fed(actions: Seq<Action>) -> Seq<u8>
    decreases actions.len(),
{
    if actions.len() == 0 {
        Seq::empty()
    } else {
        match actions.first() {
            Action::Feed(bytes) => bytes + bytes_fed(actions.drop_first()),
            Action::Ask => bytes_fed(actions.drop_first()),
        }
    }
}

impl HistoryState {
    /// All the blocks of a run: those handed out while `actions` are done,
    /// then, once the source has ended, all that are left.
    pub open spec fn blocks_of_run(self, actions: Seq<Action>) -> Seq<Seq<char>>
        decreases actions.len(),
    {
        if actions.len() == 0 {
            self.finish().blocks()
        } else {
            match actions.first() {
                Action::Feed(bytes) => self.feed(bytes).blocks_of_run(actions.drop_first()),
                Action::Ask => {
                    let (block, after) = self.next();
                    let rest = after.blocks_of_run(actions.drop_first());
                    match block {
                        Some(block) => seq![block] + rest,
                        None => rest,
                    }
                },
            }
        }
    }
}

} // verus!
