//! The parser as a state machine over plain values.
//!
//! A [`HistoryState`] holds all that decides what the parser does next: the
//! provider, the block in progress, the bytes it was given and has not read
//! yet, and whether more bytes can still come. Every operation of
//! [`History`](crate::history::History) is specified as a step of this
//! machine.

use crate::lines::{after_first_line, first_line, lemma_line_len_bounds, NEWLINE};
use crate::provider::{Grammar, HistoryProvider};
use crate::text::{decoded, trim};
use vstd::prelude::*;

verus! {

/// The text of the first raw line of `bytes`: decoded, then trimmed.
pub open spec fn line_text(bytes: Seq<u8>) -> Seq<char> {
    trim(decoded(first_line(bytes)))
}

/// The state of a parser.
pub struct HistoryState {
    /// The provider whose grammar the log is read in.
    pub provider: HistoryProvider,
    /// The text of the block in progress.
    pub partial: Seq<char>,
    /// The bytes received and not read yet.
    pub pending: Seq<u8>,
    /// Whether the source has ended, so that no more bytes will come.
    pub finished: bool,
}

impl HistoryState {
    /// The state of a new parser: nothing received, the source not ended.
    pub open spec fn start(provider: HistoryProvider) -> HistoryState {
        HistoryState { provider, partial: Seq::empty(), pending: Seq::empty(), finished: false }
    }

    /// The state with this block in progress and these bytes pending.
    pub open spec fn with(self, partial: Seq<char>, pending: Seq<u8>) -> HistoryState {
        HistoryState { provider: self.provider, partial, pending, finished: self.finished }
    }

    /// The state after `bytes` have come from the source. A source that has
    /// ended gives nothing more.
    pub open spec fn feed(self, bytes: Seq<u8>) -> HistoryState {
        if self.finished {
            self
        } else {
            self.with(self.partial, self.pending + bytes)
        }
    }

    /// The state after the source has ended.
    pub open spec fn finish(self) -> HistoryState {
        HistoryState {
            provider: self.provider,
            partial: self.partial,
            pending: self.pending,
            finished: true,
        }
    }

    /// The state after the source has failed: it has ended, and what was
    /// pending or in progress is dropped.
    pub open spec fn abort(self) -> HistoryState {
        HistoryState {
            provider: self.provider,
            partial: Seq::empty(),
            pending: Seq::empty(),
            finished: true,
        }
    }

    /// Whether the sequence of blocks is over: the source has ended, all of
    /// it is read, and no block is in progress.
    pub open spec fn exhausted(self) -> bool {
        self.finished && self.pending.len() == 0 && self.partial.len() == 0
    }

    /// Whether the block in progress is one that the grammar allows: under
    /// the comment-prefixed grammar no block is ever in progress between
    /// two lines.
    pub open spec fn orderly(self) -> bool {
        self.provider.grammar_of() == Grammar::CommentPrefixed ==> self.partial.len() == 0
    }

    /// Whether a whole line is pending. While the source can still give
    /// bytes, a line is whole once its newline is there; when the source has
    /// ended, the bytes that are left are the last line.
    pub open spec fn has_line(self) -> bool {
        self.pending.len() > 0 && (self.finished || self.pending.contains(NEWLINE))
    }

    /// One request for the next block: the block, if one is complete, and
    /// the state afterwards.
    ///
    /// Lines are read, one after the other, decoded, trimmed and taken into
    /// the block in progress until one of them completes it; the block is handed out and
    /// a new one begun. Where no whole line is left, no block is handed
    /// out, with one exception: once the source has ended, a block still in
    /// progress is handed out as it is.
    pub open spec fn next(self) -> (Option<Seq<char>>, HistoryState)
        decreases self.pending.len(),
    {
        if self.has_line() {
            let line = line_text(self.pending);
            let (block, partial) = self.provider.grammar_of().absorb(self.partial, line);
            let after = self.with(partial, after_first_line(self.pending));
            proof {
                lemma_line_len_bounds(self.pending);
            }
            match block {
                Some(block) => (Some(block), after),
                None => after.next(),
            }
        } else if self.finished && self.partial.len() > 0 {
            (Some(self.partial), self.with(Seq::empty(), self.pending))
        } else {
            (None, self)
        }
    }

    /// All the blocks that repeated requests hand out, in order, until one
    /// hands out none.
    pub open spec fn blocks(self) -> Seq<Seq<char>>
        decreases self.pending.len(), self.partial.len(),
    {
        let (block, after) = self.next();
        proof {
            lemma_next_progress(self);
        }
        match block {
            Some(block) => seq![block] + after.blocks(),
            None => Seq::empty(),
        }
    }

    /// The state in which repeated requests end: the one after the first
    /// request that hands out no block.
    pub open spec fn settled(self) -> HistoryState
        decreases self.pending.len(), self.partial.len(),
    {
        let (block, after) = self.next();
        proof {
            lemma_next_progress(self);
        }
        match block {
            Some(_) => after.settled(),
            None => after,
        }
    }
}

/// A request reads whole lines from the front of what is pending, and
/// changes nothing else but the block in progress. One that hands out a
/// block leaves no block in progress; it has read at least one line, or
/// else has handed out the block that was in progress when the source had
/// ended.
pub proof fn lemma_next_progress(state: HistoryState)
    ensures
        state.next().1.provider == state.provider,
        state.next().1.finished == state.finished,
        state.next().1.pending.len() <= state.pending.len(),
        state.next().1.pending == state.pending.skip(
            state.pending.len() - state.next().1.pending.len(),
        ),
        ({
            let read = state.pending.len() - state.next().1.pending.len();
            read == 0 || read == state.pending.len() || state.pending[read - 1] == NEWLINE
        }),
        state.next().0 is Some ==> state.next().1.partial.len() == 0,
        state.next().0 is Some ==> state.next().1.pending.len() < state.pending.len()
            || state.partial.len() > 0,
    decreases state.pending.len(),
{
    if state.has_line() {
        let line = line_text(state.pending);
        let (block, partial) = state.provider.grammar_of().absorb(state.partial, line);
        let after = state.with(partial, after_first_line(state.pending));
        lemma_line_len_bounds(state.pending);
        if block is None {
            lemma_next_progress(after);
            assert(after.next().1.pending =~= state.pending.skip(
                state.pending.len() - after.next().1.pending.len(),
            ));
        }
    } else {
        assert(state.pending.skip(0) =~= state.pending);
    }
}

} // verus!
