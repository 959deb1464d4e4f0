//! The parser: bytes of a log go in, blocks of command text come out.

use crate::grammar::text_of;
use crate::lines::{lemma_line_len_bounds, line_end, NEWLINE};
use crate::provider::HistoryProvider;
use crate::state::{lemma_next_progress, HistoryState};
use crate::text::{decode_lossy, string_of, trim_bounds};
use vstd::prelude::*;
use vstd::slice::slice_subrange;

verus! {

/// A parser of one history log.
///
/// The log's bytes are handed in with [`feed`](History::feed), in pieces of
/// any size, and its end is announced with [`finish`](History::finish).
/// [`next`](History::next) hands out the commands one by one, in the order
/// of their lines, reading no further than the line that completes each.
pub struct History {
    shell_type: HistoryProvider,
    /// The bytes received; those before `cursor` are read.
    buffer: Vec<u8>,
    cursor: usize,
    /// The block in progress.
    block: Vec<char>,
    finished: bool,
}

impl View for History {
    type V = HistoryState;

    closed spec fn view(&self) -> HistoryState {
        HistoryState {
            provider: self.shell_type,
            partial: self.block@,
            pending: self.buffer@.skip(self.cursor as int),
            finished: self.finished,
        }
    }
}

impl History {
    /// Whether the parser is in order inside. Every parser that
    /// [`from`](History::from) makes is, and every method keeps it so.
    pub closed spec fn wf(&self) -> bool {
        &&& self.cursor <= self.buffer@.len()
        &&& self@.orderly()
    }

    /// A parser that is in order holds no block in progress that its
    /// grammar does not allow.
    pub proof fn lemma_wf_is_orderly(&self)
        requires
            self.wf(),
        ensures
            self@.orderly(),
    {
    }

    /// A parser for the log of `shell`, with nothing received yet.
    pub fn from(shell: &HistoryProvider) -> (history: History)
        ensures
            history.wf(),
            history@ == HistoryState::start(*shell),
    {
        let history = History {
            shell_type: *shell,
            buffer: Vec::new(),
            cursor: 0,
            block: Vec::new(),
            finished: false,
        };
        assert(history.buffer@.skip(0) =~= Seq::empty());
        history
    }

    /// The provider whose grammar the log is read in.
    pub fn provider(&self) -> (provider: HistoryProvider)
        ensures
            provider == self@.provider,
    {
        self.shell_type
    }

    /// Whether the end of the source has been announced.
    pub fn is_finished(&self) -> (finished: bool)
        ensures
            finished == self@.finished,
    {
        self.finished
    }

    /// Whether the sequence of blocks is over for good.
    pub fn is_exhausted(&self) -> (exhausted: bool)
        requires
            self.wf(),
        ensures
            exhausted == self@.exhausted(),
    {
        self.finished && self.cursor == self.buffer.len() && self.block.len() == 0
    }

    /// Takes the bytes that the source gave next. After the end of the
    /// source was announced, bytes are ignored.
    pub fn feed(&mut self, bytes: &[u8])
        requires
            old(self).wf(),
        ensures
            final(self).wf(),
            final(self)@ == old(self)@.feed(bytes@),
    {
        if self.finished {
            return;
        }
        let ghost pending = self@.pending;
        if self.cursor == self.buffer.len() {
            self.buffer.clear();
            self.cursor = 0;
        } else if self.cursor > 0 {
            let unread = self.buffer.split_off(self.cursor);
            self.buffer = unread;
            self.cursor = 0;
        }
        assert(self.buffer@.skip(0) =~= pending);
        self.buffer.extend_from_slice(bytes);
        assert(self.buffer@.skip(self.cursor as int) =~= pending + bytes@);
    }

    /// Announces the end of the source: no more bytes will come.
    pub fn finish(&mut self)
        requires
            old(self).wf(),
        ensures
            final(self).wf(),
            final(self)@ == old(self)@.finish(),
    {
        self.finished = true;
    }

    /// Gives the rest of the log up, as after a failed read: the source
    /// counts as ended, and what was received and not handed out is dropped.
    pub fn abort(&mut self)
        requires
            old(self).wf(),
        ensures
            final(self).wf(),
            final(self)@ == old(self)@.abort(),
    {
        self.cursor = 0;
        self.buffer.clear();
        self.block.clear();
        self.finished = true;
        assert(self.buffer@.skip(0) =~= Seq::empty());
    }

    /// Hands out the next block, if the bytes received so far complete one.
    ///
    /// `None` means that no block can be handed out now. Once the end of the
    /// source was announced, it means that the sequence is over, and every
    /// later call gives `None` again.
    pub fn next(&mut self) -> (block: Option<String>)
        requires
            old(self).wf(),
        ensures
            final(self).wf(),
            text_of(block) == old(self)@.next().0,
            final(self)@ == old(self)@.next().1,
            final(self)@.provider == old(self)@.provider,
            final(self)@.finished == old(self)@.finished,
            block is None && old(self)@.finished ==> final(self)@.exhausted(),
            old(self)@.exhausted() ==> block is None && final(self)@ == old(self)@,
    {
        let grammar = self.shell_type.grammar();
        loop
            invariant
                self.wf(),
                self@.next() == old(self)@.next(),
                self@.provider == old(self)@.provider,
                self@.finished == old(self)@.finished,
                grammar == self@.provider.grammar_of(),
            decreases self@.pending.len(),
        {
            if self.cursor == self.buffer.len() {
                if self.finished && self.block.len() > 0 {
                    let done = string_of(self.block.as_slice());
                    self.block.clear();
                    return Some(done);
                }
                return None;
            }
            let end = line_end(self.buffer.as_slice(), self.cursor);
            proof {
                lemma_line_len_bounds(self@.pending);
            }
            if !self.finished && self.buffer[end - 1] != NEWLINE {
                return None;
            }
            let text = decode_lossy(slice_subrange(self.buffer.as_slice(), self.cursor, end));
            proof {
                let pending = self@.pending;
                assert(self.buffer@.subrange(self.cursor as int, end as int) =~= pending.take(
                    end - self.cursor,
                ));
                assert(self.buffer@.skip(end as int) =~= pending.skip(end - self.cursor));
            }
            self.cursor = end;
            let (from, to) = trim_bounds(text.as_slice());
            let line = slice_subrange(text.as_slice(), from, to);
            let done = grammar.take_line(&mut self.block, line);
            if done.is_some() {
                return done;
            }
        }
    }

    /// Hands out, in order, all the blocks that the bytes received so far
    /// complete: the blocks of repeated calls of [`next`](History::next), up
    /// to the first call that hands out none.
    pub fn drain(&mut self) -> (blocks: Vec<String>)
        requires
            old(self).wf(),
        ensures
            final(self).wf(),
            blocks@.len() == old(self)@.blocks().len(),
            forall|i: int| 0 <= i < blocks@.len() ==> blocks@[i]@ == old(self)@.blocks()[i],
            final(self)@ == old(self)@.settled(),
            final(self)@.provider == old(self)@.provider,
            final(self)@.finished == old(self)@.finished,
            old(self)@.finished ==> final(self)@.exhausted(),
    {
        let mut blocks: Vec<String> = Vec::new();
        loop
            invariant
                self.wf(),
                blocks@.len() + self@.blocks().len() == old(self)@.blocks().len(),
                forall|i: int| 0 <= i < blocks@.len() ==> blocks@[i]@ == old(self)@.blocks()[i],
                old(self)@.blocks().skip(blocks@.len() as int) == self@.blocks(),
                self@.settled() == old(self)@.settled(),
                self@.provider == old(self)@.provider,
                self@.finished == old(self)@.finished,
            decreases self@.pending.len(), self@.partial.len(),
        {
            let ghost before = self@;
            proof {
                lemma_next_progress(before);
            }
            match self.next() {
                Some(block) => {
                    assert(old(self)@.blocks().skip(blocks@.len() as int)[0] == block@);
                    blocks.push(block);
                    assert(before.blocks().skip(1) =~= self@.blocks());
                    assert(old(self)@.blocks().skip(blocks@.len() as int) =~= before.blocks().skip(
                        1,
                    ));
                },
                None => {
                    return blocks;
                },
            }
        }
    }
}

} // verus!
