//! What holds of every parser, whatever its log.
//!
//! The laws are stated over [`HistoryState`], the model that the contracts
//! of [`History`](crate::history::History) are written in, so each of them
//! holds of every run of the parser.

use crate::grammar::{is_comment, is_continued};
use crate::lines::{
    after_first_line, lemma_line_len_bounds, lemma_whole_line_stands, line_len,
};
use crate::log::{bytes_fed, line_texts, log_blocks, Action};
use crate::provider::{Grammar, HistoryProvider};
use crate::state::{lemma_next_progress, line_text, HistoryState};
use vstd::prelude::*;

verus! {

/// A log without bytes holds no block, whoever the provider: once the
/// source has ended, the first request hands out nothing and the sequence
/// is over, and no run that is fed no byte hands out a block.
pub proof fn lemma_empty_source_has_no_blocks(provider: HistoryProvider, actions: Seq<Action>)
    requires
        bytes_fed(actions).len() == 0,
    ensures
        log_blocks(provider, Seq::empty()) == Seq::<Seq<char>>::empty(),
        HistoryState::start(provider).finish().next() == (
            None::<Seq<char>>,
            HistoryState::start(provider).finish(),
        ),
        HistoryState::start(provider).finish().exhausted(),
        HistoryState::start(provider).blocks_of_run(actions) == Seq::<Seq<char>>::empty(),
{
    lemma_run_gives_the_blocks_of_the_log(provider, actions);
    assert(bytes_fed(actions) =~= Seq::empty());
}

/// A request that hands out nothing leaves a state in which every further
/// request hands out nothing and changes nothing, until the source gives
/// more.
pub proof fn lemma_none_is_stable(state: HistoryState)
    requires
        state.next().0 is None,
    ensures
        state.next().1.next() == (None::<Seq<char>>, state.next().1),
        state.next().1.blocks() == Seq::<Seq<char>>::empty(),
        state.next().1.settled() == state.next().1,
    decreases state.pending.len(),
{
    if state.has_line() {
        let line = line_text(state.pending);
        let (block, partial) = state.provider.grammar_of().absorb(state.partial, line);
        lemma_line_len_bounds(state.pending);
        lemma_none_is_stable(state.with(partial, after_first_line(state.pending)));
    }
}

/// Once the source has ended, a request that hands out nothing has reached
/// the end of the sequence: all is read, no block is in progress, every
/// further request hands out nothing, and bytes that come late are ignored.
pub proof fn lemma_end_is_final(state: HistoryState, late: Seq<u8>)
    requires
        state.finished,
        state.next().0 is None,
    ensures
        state.next().1.exhausted(),
        state.next().1.next() == (None::<Seq<char>>, state.next().1),
        state.next().1.feed(late) == state.next().1,
        state.next().1.finish() == state.next().1,
    decreases state.pending.len(),
{
    lemma_none_is_stable(state);
    if state.has_line() {
        let line = line_text(state.pending);
        let (block, partial) = state.provider.grammar_of().absorb(state.partial, line);
        lemma_line_len_bounds(state.pending);
        lemma_end_is_final(state.with(partial, after_first_line(state.pending)), late);
    }
}

/// A state at the end of the sequence stays there, whatever is done.
pub proof fn lemma_exhausted_stays(state: HistoryState, late: Seq<u8>)
    requires
        state.exhausted(),
    ensures
        state.next() == (None::<Seq<char>>, state),
        state.blocks() == Seq::<Seq<char>>::empty(),
        state.settled() == state,
        state.feed(late) == state,
        state.finish() == state,
        state.abort() == state,
{
    assert(state.partial =~= Seq::empty());
    assert(state.pending =~= Seq::empty());
}

/// Under the continuation grammar a blank line is filler: the next request
/// gives what it would give if the line were not there.
pub proof fn lemma_blank_line_is_filler(state: HistoryState)
    requires
        state.provider.grammar_of() == Grammar::Continuation,
        state.has_line(),
        line_text(state.pending).len() == 0,
    ensures
        state.next() == state.with(state.partial, after_first_line(state.pending)).next(),
        state.blocks() == state.with(state.partial, after_first_line(state.pending)).blocks(),
{
}

/// Under the continuation grammar a line that ends in the continuation
/// marker adds its trimmed text, less that one character, to the block in
/// progress, and the block goes on with the next line.
pub proof fn lemma_continued_line_goes_on(state: HistoryState)
    requires
        state.provider.grammar_of() == Grammar::Continuation,
        state.has_line(),
        is_continued(line_text(state.pending)),
    ensures
        state.next() == state.with(
            state.partial + line_text(state.pending).drop_last(),
            after_first_line(state.pending),
        ).next(),
{
}

/// Under the continuation grammar a line that is not blank and does not end
/// in the continuation marker completes the block: what was in progress,
/// then the line's trimmed text. Nothing is kept for the block after it.
pub proof fn lemma_plain_line_completes(state: HistoryState)
    requires
        state.provider.grammar_of() == Grammar::Continuation,
        state.has_line(),
        line_text(state.pending).len() > 0,
        !is_continued(line_text(state.pending)),
    ensures
        state.next() == (
            Some(state.partial + line_text(state.pending)),
            state.with(Seq::empty(), after_first_line(state.pending)),
        ),
{
}

/// Where the source has ended after a last line that ends in the
/// continuation marker, the block in progress is not lost: it is handed out
/// with that line's text, less the marker, and the sequence is over.
///
/// This needs something to hand out: where nothing was in progress and the
/// line holds the marker alone, there is no block.
pub proof fn lemma_open_block_at_end_is_handed_out(state: HistoryState)
    requires
        state.provider.grammar_of() == Grammar::Continuation,
        state.finished,
        state.pending.len() > 0,
        line_len(state.pending) == state.pending.len(),
        is_continued(line_text(state.pending)),
        state.partial.len() + line_text(state.pending).len() > 1,
    ensures
        state.next() == (
            Some(state.partial + line_text(state.pending).drop_last()),
            state.with(Seq::empty(), Seq::empty()),
        ),
        state.next().1.exhausted(),
        state.blocks() == seq![state.partial + line_text(state.pending).drop_last()],
{
    assert(after_first_line(state.pending) =~= Seq::<u8>::empty());
    let line = line_text(state.pending);
    let open = state.with(state.partial + line.drop_last(), Seq::empty());
    assert(state.next() == open.next());
    let last = state.with(Seq::empty(), Seq::empty());
    assert(last.blocks() =~= Seq::<Seq<char>>::empty());
    assert(state.blocks() =~= seq![state.partial + line.drop_last()] + last.blocks());
}

/// A log under the continuation grammar whose last line ends in the
/// continuation marker ends in a block all the same: what was in progress
/// before that line, then the line's text, less the marker.
///
/// This needs something to hand out, as above.
pub proof fn lemma_log_ending_in_a_continued_line(partial: Seq<char>, lines: Seq<Seq<char>>)
    requires
        lines.len() > 0,
        is_continued(lines.last()),
        Grammar::Continuation.in_progress_after(partial, lines.drop_last()).len()
            + lines.last().len() > 1,
    ensures
        Grammar::Continuation.blocks_of_lines(partial, lines).len() > 0,
        Grammar::Continuation.blocks_of_lines(partial, lines).last()
            == Grammar::Continuation.in_progress_after(partial, lines.drop_last())
            + lines.last().drop_last(),
    decreases lines.len(),
{
    let grammar = Grammar::Continuation;
    let (block, carried) = grammar.absorb(partial, lines.first());
    let rest = lines.drop_first();
    if lines.len() == 1 {
        assert(lines.drop_last() =~= Seq::empty());
        assert(grammar.in_progress_after(partial, lines.drop_last()) == partial);
        assert(grammar.blocks_of_lines(carried, rest) =~= seq![carried]);
    } else {
        assert(rest.last() == lines.last());
        assert(rest.drop_last() =~= lines.drop_last().drop_first());
        assert(lines.drop_last().first() == lines.first());
        lemma_log_ending_in_a_continued_line(carried, rest);
        let blocks = grammar.blocks_of_lines(carried, rest);
        if block is Some {
            assert((seq![block->0] + blocks).last() == blocks.last());
        }
    }
}

/// Under the comment-prefixed grammar a line whose trimmed text starts with
/// the comment marker is no command: it is passed over, together with
/// anything that was in progress.
pub proof fn lemma_comment_line_is_passed_over(state: HistoryState)
    requires
        state.provider.grammar_of() == Grammar::CommentPrefixed,
        state.has_line(),
        is_comment(line_text(state.pending)),
    ensures
        state.next() == state.with(Seq::empty(), after_first_line(state.pending)).next(),
        state.blocks() == state.with(Seq::empty(), after_first_line(state.pending)).blocks(),
{
}

/// Under the comment-prefixed grammar a line that is no comment is a
/// command by itself: its trimmed text is handed out, whatever the line
/// before it was.
pub proof fn lemma_command_line_is_one_block(state: HistoryState)
    requires
        state.provider.grammar_of() == Grammar::CommentPrefixed,
        state.orderly(),
        state.has_line(),
        !is_comment(line_text(state.pending)),
    ensures
        state.next() == (
            Some(line_text(state.pending)),
            state.with(Seq::empty(), after_first_line(state.pending)),
        ),
{
    assert(state.partial + line_text(state.pending) =~= line_text(state.pending));
}

/// Every step keeps the block in progress within what the grammar allows,
/// so under the comment-prefixed grammar no block is ever in progress
/// between two lines.
pub proof fn lemma_orderly_is_kept(state: HistoryState, more: Seq<u8>)
    requires
        state.orderly(),
    ensures
        HistoryState::start(state.provider).orderly(),
        state.feed(more).orderly(),
        state.finish().orderly(),
        state.abort().orderly(),
        state.next().1.orderly(),
    decreases state.pending.len(),
{
    if state.has_line() {
        let line = line_text(state.pending);
        let (block, partial) = state.provider.grammar_of().absorb(state.partial, line);
        lemma_line_len_bounds(state.pending);
        if block is None {
            lemma_orderly_is_kept(state.with(partial, after_first_line(state.pending)), more);
        }
    }
}

/// Under the comment-prefixed grammar a comment never comes out: no block
/// that is handed out starts with the comment marker.
pub proof fn lemma_no_block_is_a_comment(state: HistoryState)
    requires
        state.provider.grammar_of() == Grammar::CommentPrefixed,
        state.orderly(),
    ensures
        state.next().0 matches Some(block) ==> !is_comment(block),
    decreases state.pending.len(),
{
    if state.has_line() {
        let line = line_text(state.pending);
        let (block, partial) = state.provider.grammar_of().absorb(state.partial, line);
        lemma_line_len_bounds(state.pending);
        assert(state.partial + line =~= line);
        if block is None {
            lemma_no_block_is_a_comment(state.with(partial, after_first_line(state.pending)));
        }
    }
}

/// Blocks never share text: after a request that hands out a block, no
/// block is in progress.
pub proof fn lemma_block_leaves_nothing_behind(state: HistoryState)
    requires
        state.next().0 is Some,
    ensures
        state.next().1.partial.len() == 0,
{
    lemma_next_progress(state);
}

/// A request does not depend on when the bytes arrive. Where it hands out a
/// block, it hands out the same block if more bytes are there already.
/// Where it hands out nothing, asking again once more bytes have come gives
/// what one request would have given had they been there from the start.
pub proof fn lemma_request_before_or_after_bytes(state: HistoryState, more: Seq<u8>)
    requires
        !state.finished,
    ensures
        state.next().0 is Some ==> state.feed(more).next() == (
            state.next().0,
            state.next().1.feed(more),
        ),
        state.next().0 is None ==> state.feed(more).next() == state.next().1.feed(more).next(),
    decreases state.pending.len(),
{
    if state.has_line() {
        let line = line_text(state.pending);
        let (block, partial) = state.provider.grammar_of().absorb(state.partial, line);
        let after = state.with(partial, after_first_line(state.pending));
        lemma_line_len_bounds(state.pending);
        lemma_whole_line_stands(state.pending, more);
        assert(state.feed(more).has_line());
        assert(state.feed(more).with(partial, after_first_line(state.pending + more))
            == after.feed(more));
        if block is None {
            lemma_request_before_or_after_bytes(after, more);
        }
    }
}

/// A request does not depend on when the end of the source is announced,
/// in the same way.
pub proof fn lemma_request_before_or_after_end(state: HistoryState)
    requires
        !state.finished,
    ensures
        state.next().0 is Some ==> state.finish().next() == (
            state.next().0,
            state.next().1.finish(),
        ),
        state.next().0 is None ==> state.finish().next() == state.next().1.finish().next(),
    decreases state.pending.len(),
{
    if state.has_line() {
        let line = line_text(state.pending);
        let (block, partial) = state.provider.grammar_of().absorb(state.partial, line);
        let after = state.with(partial, after_first_line(state.pending));
        lemma_line_len_bounds(state.pending);
        assert(state.finish().has_line());
        assert(state.finish().with(partial, after_first_line(state.pending)) == after.finish());
        if block is None {
            lemma_request_before_or_after_end(after);
        }
    }
}

/// The blocks of a log do not depend on the pieces in which its bytes
/// arrive: the blocks handed out before more bytes come, followed by the
/// blocks handed out after, are the blocks of the bytes taken together.
pub proof fn lemma_blocks_of_pieces(state: HistoryState, more: Seq<u8>)
    requires
        !state.finished,
    ensures
        state.blocks() + state.settled().feed(more).blocks() == state.feed(more).blocks(),
        state.settled().feed(more).settled() == state.feed(more).settled(),
    decreases state.pending.len(), state.partial.len(),
{
    lemma_next_progress(state);
    lemma_request_before_or_after_bytes(state, more);
    let (block, after) = state.next();
    match block {
        Some(block) => {
            lemma_blocks_of_pieces(after, more);
            assert(seq![block] + after.blocks() + after.settled().feed(more).blocks() =~= seq![
                block,
            ] + (after.blocks() + after.settled().feed(more).blocks()));
        },
        None => {
            assert(state.blocks() + after.feed(more).blocks() =~= after.feed(more).blocks());
        },
    }
}

/// Nor do the blocks depend on when the end of the source is announced.
pub proof fn lemma_blocks_before_and_after_end(state: HistoryState)
    requires
        !state.finished,
    ensures
        state.blocks() + state.settled().finish().blocks() == state.finish().blocks(),
        state.settled().finish().settled() == state.finish().settled(),
    decreases state.pending.len(), state.partial.len(),
{
    lemma_next_progress(state);
    lemma_request_before_or_after_end(state);
    let (block, after) = state.next();
    match block {
        Some(block) => {
            lemma_blocks_before_and_after_end(after);
            assert(seq![block] + after.blocks() + after.settled().finish().blocks() =~= seq![
                block,
            ] + (after.blocks() + after.settled().finish().blocks()));
        },
        None => {
            assert(state.blocks() + after.finish().blocks() =~= after.finish().blocks());
        },
    }
}

/// Under the comment-prefixed grammar the blocks of a log are its lines that
/// are no comments, each by itself, in their order.
pub proof fn lemma_comment_prefixed_blocks_are_the_commands(lines: Seq<Seq<char>>)
    ensures
        Grammar::CommentPrefixed.blocks_of_lines(Seq::empty(), lines) == lines.filter(
            |line: Seq<char>| !is_comment(line),
        ),
    decreases lines.len(),
{
    let is_command = |line: Seq<char>| !is_comment(line);
    if lines.len() == 0 {
        assert(lines.filter(is_command) =~= Seq::empty());
    } else {
        let line = lines.first();
        lemma_comment_prefixed_blocks_are_the_commands(lines.drop_first());
        lines.drop_first().lemma_filter_prepend(line, is_command);
        assert(seq![line] + lines.drop_first() =~= lines);
        assert(Seq::<char>::empty() + line =~= line);
    }
}

/// Under the continuation grammar the blocks of a log in which no line is
/// continued are its lines that are not blank, each by itself, in their
/// order.
pub proof fn lemma_plain_lines_are_the_blocks(lines: Seq<Seq<char>>)
    requires
        forall|i: int| 0 <= i < lines.len() ==> !is_continued(#[trigger] lines[i]),
    ensures
        Grammar::Continuation.blocks_of_lines(Seq::empty(), lines) == lines.filter(
            |line: Seq<char>| line.len() > 0,
        ),
    decreases lines.len(),
{
    let is_filled = |line: Seq<char>| line.len() > 0;
    if lines.len() == 0 {
        assert(lines.filter(is_filled) =~= Seq::empty());
    } else {
        let line = lines.first();
        assert forall|i: int| 0 <= i < lines.drop_first().len() implies !is_continued(
            #[trigger] lines.drop_first()[i],
        ) by {
            assert(lines.drop_first()[i] == lines[i + 1]);
        }
        lemma_plain_lines_are_the_blocks(lines.drop_first());
        lines.drop_first().lemma_filter_prepend(line, is_filled);
        assert(seq![line] + lines.drop_first() =~= lines);
        assert(Seq::<char>::empty() + line =~= line);
    }
}

/// Once the source has ended, the blocks still to come are those that the
/// lines still pending make, given what is in progress.
pub proof fn lemma_blocks_of_pending_lines(state: HistoryState)
    requires
        state.finished,
    ensures
        state.blocks() == state.provider.grammar_of().blocks_of_lines(
            state.partial,
            line_texts(state.pending),
        ),
    decreases state.pending.len(),
{
    let grammar = state.provider.grammar_of();
    if state.pending.len() == 0 {
        let last = state.with(Seq::empty(), state.pending);
        assert(last.blocks() =~= Seq::<Seq<char>>::empty());
        if state.partial.len() > 0 {
            assert(state.blocks() =~= seq![state.partial]);
        }
    } else {
        let line = line_text(state.pending);
        let (block, partial) = grammar.absorb(state.partial, line);
        let after = state.with(partial, after_first_line(state.pending));
        lemma_line_len_bounds(state.pending);
        lemma_blocks_of_pending_lines(after);
        assert(line_texts(state.pending).first() == line);
        assert(line_texts(state.pending).drop_first() =~= line_texts(
            after_first_line(state.pending),
        ));
    }
}

/// The blocks of a run are the blocks of the log, whatever the pieces in
/// which the bytes arrive and whenever blocks are asked for in between.
pub proof fn lemma_run_gives_the_blocks_of_the_log(
    provider: HistoryProvider,
    actions: Seq<Action>,
)
    ensures
        HistoryState::start(provider).blocks_of_run(actions) == log_blocks(
            provider,
            bytes_fed(actions),
        ),
{
    let start = HistoryState::start(provider);
    lemma_run_is_one_feed(start, actions);
    assert(start.pending + bytes_fed(actions) =~= bytes_fed(actions));
    lemma_blocks_of_pending_lines(start.feed(bytes_fed(actions)).finish());
}

/// A run from any state gives the blocks that the state would give if all
/// the bytes of the run came at once and the source ended then.
pub proof fn lemma_run_is_one_feed(state: HistoryState, actions: Seq<Action>)
    requires
        !state.finished,
    ensures
        state.blocks_of_run(actions) == state.feed(bytes_fed(actions)).finish().blocks(),
    decreases actions.len(),
{
    let more = bytes_fed(actions);
    if actions.len() == 0 {
        assert(state.pending + more =~= state.pending);
    } else {
        let rest = actions.drop_first();
        match actions.first() {
            Action::Feed(bytes) => {
                lemma_run_is_one_feed(state.feed(bytes), rest);
                assert(state.pending + bytes + bytes_fed(rest) =~= state.pending + more);
            },
            Action::Ask => {
                let (block, after) = state.next();
                lemma_next_progress(state);
                lemma_run_is_one_feed(after, rest);
                lemma_request_before_or_after_bytes(state, more);
                lemma_request_before_or_after_end(state.feed(more));
                lemma_request_before_or_after_end(after.feed(more));
            },
        }
    }
}

} // verus!
