//! Undo and redo: the blocks that a buffer's undo store picks are replayed on
//! the buffer's text, and every position follows.

use vstd::prelude::*;

use crate::buffer::{BufferStateError, ReplayedEdit, UndoState};
use crate::editor::{Editor, HistoryEvent};
use crate::errors::EditorError;
use crate::types::BufHandle;
use crate::window::WindowEntry;

verus! {

/// What one replayed block tells the position tables: every edit's lines moved,
/// and the block leaves one change at the last edit's cursor.
pub open spec fn block_events(buffer: BufHandle, edits: Seq<ReplayedEdit>) -> Seq<HistoryEvent> {
    crate::editor::edits::replayed_events(buffer, edits) + (if edits.len() > 0 {
        seq![HistoryEvent::Change { buffer, position: edits.last().cursor }]
    } else {
        Seq::empty()
    })
}

/// What several replayed blocks tell the position tables.
pub open spec fn walk_events(
    buffer: BufHandle,
    blocks: Seq<Vec<ReplayedEdit>>,
) -> Seq<HistoryEvent>
    decreases blocks.len(),
{
    if blocks.len() == 0 {
        Seq::empty()
    } else {
        walk_events(buffer, blocks.drop_last()) + block_events(buffer, blocks.last()@)
    }
}

/// Windows after several replayed blocks.
pub open spec fn walked_windows(
    windows: Seq<WindowEntry>,
    buffer: BufHandle,
    blocks: Seq<Vec<ReplayedEdit>>,
    rows: Seq<Seq<u8>>,
) -> Seq<WindowEntry>
    decreases blocks.len(),
{
    if blocks.len() == 0 {
        windows
    } else {
        crate::editor::edits::replayed_windows(
            walked_windows(windows, buffer, blocks.drop_last(), rows),
            buffer,
            blocks.last()@,
            rows,
        )
    }
}

/// The sequence number of a replayed block.
pub open spec fn block_seq(edits: Seq<ReplayedEdit>) -> Option<u64> {
    if edits.len() > 0 {
        Some(edits[0].seq)
    } else {
        None
    }
}

/// What an undo store has to replay.
#[derive(Debug, PartialEq, Eq)]
pub struct ReplayedBlock {
    /// The block's edits, in the order in which they are replayed.
    pub edits: Vec<ReplayedEdit>,
    /// Where the undo tree stands afterwards.
    pub reached: UndoState,
}

/// Blocks that an undo store has to replay on the way to another state of the
/// text.
#[derive(Debug, PartialEq, Eq)]
pub struct ReplayedWalk {
    /// The blocks, in the order in which they are replayed.
    pub blocks: Vec<Vec<ReplayedEdit>>,
    /// Where the undo tree stands afterwards.
    pub reached: UndoState,
}

impl Editor {
    /// Whether `blocks` can be replayed on the text of `buffer`, or why not.
    pub open spec fn replay_request(
        &self,
        buffer: BufHandle,
        blocks: Seq<Vec<ReplayedEdit>>,
    ) -> Result<(), EditorError> {
        if !self.has_buffer(buffer) {
            Err(EditorError::UnknownBuffer(buffer))
        } else if self.buffer_state(buffer).lines is None {
            Err(EditorError::Buffer(BufferStateError::Unloaded))
        } else if !crate::buffer::blocks_fit(blocks, self.buffer_state(buffer).rows()) {
            Err(EditorError::Buffer(BufferStateError::InvalidRange))
        } else {
            Ok(())
        }
    }

    /// `blocks` were replayed on the text of `buffer`, and the windows and
    /// position tables followed.
    pub open spec fn follows_replay(
        &self,
        after: &Editor,
        buffer: BufHandle,
        blocks: Seq<Vec<ReplayedEdit>>,
        reached: UndoState,
    ) -> bool {
        let at = self.links().buffer_at(buffer);
        let before = self.buffers@[at].state;
        let rows = crate::buffer::blocks_replayed(blocks, before.rows());
        &&& after.links() == self.links()
        &&& after.buffers@ == self.buffers@.update(at, after.buffers@[at])
        &&& after.buffers@[at].handle == buffer
        &&& after.buffers@[at].state.replayed_from(before, blocks, reached)
        &&& after.windows@ == walked_windows(self.windows@, buffer, blocks, rows)
        &&& after.history@ == self.history@ + walk_events(buffer, blocks)
        &&& *after == (Editor {
            buffers: after.buffers,
            windows: after.windows,
            history: after.history,
            ..*self
        })
    }

    /// Replays blocks on a buffer's text and moves every position along.
    fn replay_walk(
        &mut self,
        buffer: BufHandle,
        blocks: &Vec<Vec<ReplayedEdit>>,
        reached: UndoState,
    ) -> (result: Result<(), EditorError>)
        requires
            old(self).wf(),
        ensures
            final(self).wf(),
            result == old(self).replay_request(buffer, blocks@),
            match result {
                Ok(_) => old(self).follows_replay(final(self), buffer, blocks@, reached),
                Err(_) => old(self).unchanged(final(self)),
            },
    {
        let at: usize = match self.find_buffer(buffer) {
            Some(at) => at,
            None => {
                return Err(EditorError::UnknownBuffer(buffer));
            },
        };
        let replayed = self.buffers[at].state.replay(blocks, reached);
        proof {
            crate::editor::lemma_tables_kept(*old(self), *self);
        }
        match replayed {
            Ok(()) => {},
            Err(error) => {
                assert(self.buffers@ =~= old(self).buffers@);
                return Err(EditorError::Buffer(error));
            },
        }
        let ghost edited = *self;
        proof {
            crate::editor::edits::lemma_buffer_place(edited, at as int);
        }
        let ghost rows = edited.rows_of(buffer);
        let mut next: usize = 0;
        assert(blocks@.take(0) =~= Seq::empty());
        assert(self.history@ =~= edited.history@ + walk_events(buffer, blocks@.take(0)));
        while next < blocks.len()
            invariant
                self.wf(),
                next <= blocks@.len(),
                self.links() == edited.links(),
                rows == edited.rows_of(buffer),
                self.windows@ == walked_windows(
                    edited.windows@,
                    buffer,
                    blocks@.take(next as int),
                    rows,
                ),
                self.history@ == edited.history@ + walk_events(buffer, blocks@.take(next as int)),
                *self == (Editor { windows: self.windows, history: self.history, ..edited }),
            decreases blocks@.len() - next,
        {
            let ghost before = *self;
            self.finish_replay(buffer, &blocks[next]);
            proof {
                let so_far = blocks@.take(next + 1);
                assert(so_far.drop_last() =~= blocks@.take(next as int));
                assert(so_far.last() == blocks@[next as int]);
                assert(before.rows_of(buffer) == rows);
                assert(self.history@ =~= edited.history@ + walk_events(buffer, so_far));
            }
            next = next + 1;
        }
        assert(blocks@.take(next as int) =~= blocks@);
        assert(self.buffers@ =~= old(self).buffers@.update(at as int, self.buffers@[at as int]));
        Ok(())
    }

    /// One block is undone or redone: an unknown buffer, a store that failed or
    /// has nothing left, and a block that does not fit the text change nothing.
    pub open spec fn replays_block(
        &self,
        after: &Editor,
        result: Result<Option<u64>, EditorError>,
        buffer: BufHandle,
        replayed: Result<Option<ReplayedBlock>, BufferStateError>,
    ) -> bool {
        if !self.has_buffer(buffer) {
            result == Err::<Option<u64>, _>(EditorError::UnknownBuffer(buffer)) && *after == *self
        } else {
            match replayed {
                Err(error) => result == Err::<Option<u64>, _>(EditorError::Buffer(error))
                    && *after == *self,
                Ok(None) => result == Ok::<Option<u64>, EditorError>(None) && *after == *self,
                Ok(Some(block)) => match self.replay_request(buffer, seq![block.edits]) {
                    Err(error) => result == Err::<Option<u64>, _>(error) && self.unchanged(after),
                    Ok(_) => {
                        &&& result == Ok::<_, EditorError>(block_seq(block.edits@))
                        &&& self.follows_replay(after, buffer, seq![block.edits], block.reached)
                    },
                },
            }
        }
    }

    /// Replays one block.
    fn replay_block(
        &mut self,
        buffer: BufHandle,
        replayed: Result<Option<ReplayedBlock>, BufferStateError>,
    ) -> (result: Result<Option<u64>, EditorError>)
        requires
            old(self).wf(),
        ensures
            final(self).wf(),
            old(self).replays_block(final(self), result, buffer, replayed),
    {
        if self.find_buffer(buffer).is_none() {
            return Err(EditorError::UnknownBuffer(buffer));
        }
        match replayed {
            Err(error) => Err(EditorError::Buffer(error)),
            Ok(None) => Ok(None),
            Ok(Some(block)) => {
                let seq: Option<u64> = if block.edits.len() > 0 {
                    Some(block.edits[0].seq)
                } else {
                    None
                };
                let mut blocks: Vec<Vec<ReplayedEdit>> = Vec::new();
                blocks.push(block.edits);
                assert(blocks@ =~= seq![block.edits]);
                match self.replay_walk(buffer, &blocks, block.reached) {
                    Ok(()) => Ok(seq),
                    Err(error) => Err(error),
                }
            },
        }
    }

    /// Undoes a buffer's most recent change: `undone` is what the buffer's undo
    /// store replays for it, nothing at the oldest change. Returns the undone
    /// block's sequence number.
    ///
    /// # Errors
    ///
    /// [`EditorError::UnknownBuffer`] when the buffer is not live, or
    /// [`EditorError::Buffer`] when the store failed, the buffer is not loaded
    /// or the block does not fit its text.
    pub fn buffer_undo(
        &mut self,
        buffer: BufHandle,
        undone: Result<Option<ReplayedBlock>, BufferStateError>,
    ) -> (result: Result<Option<u64>, EditorError>)
        requires
            old(self).wf(),
        ensures
            final(self).wf(),
            old(self).replays_block(final(self), result, buffer, undone),
    {
        self.replay_block(buffer, undone)
    }

    /// Redoes a buffer's next change: `redone` is what the buffer's undo store
    /// replays for it, nothing at the newest change. Returns the redone block's
    /// sequence number.
    ///
    /// # Errors
    ///
    /// Those of [`Editor::buffer_undo`].
    pub fn buffer_redo(
        &mut self,
        buffer: BufHandle,
        redone: Result<Option<ReplayedBlock>, BufferStateError>,
    ) -> (result: Result<Option<u64>, EditorError>)
        requires
            old(self).wf(),
        ensures
            final(self).wf(),
            old(self).replays_block(final(self), result, buffer, redone),
    {
        self.replay_block(buffer, redone)
    }

    /// Takes a buffer to another state of its undo tree: `walked` holds the
    /// blocks that its undo store replays on the way there. Returns how many
    /// there were.
    ///
    /// # Errors
    ///
    /// [`EditorError::UnknownBuffer`] when the buffer is not live, or
    /// [`EditorError::Buffer`] when the state is unknown, the buffer is not
    /// loaded or a block does not fit its text.
    pub fn buffer_undo_to_seq(
        &mut self,
        buffer: BufHandle,
        walked: Result<ReplayedWalk, BufferStateError>,
    ) -> (result: Result<usize, EditorError>)
        requires
            old(self).wf(),
        ensures
            final(self).wf(),
            if !old(self).has_buffer(buffer) {
                result == Err::<usize, _>(EditorError::UnknownBuffer(buffer)) && *final(self)
                    == *old(self)
            } else {
                match walked {
                    Err(error) => result == Err::<usize, _>(EditorError::Buffer(error))
                        && *final(self) == *old(self),
                    Ok(walk) => match old(self).replay_request(buffer, walk.blocks@) {
                        Err(error) => result == Err::<usize, _>(error) && old(self).unchanged(
                            final(self),
                        ),
                        Ok(_) => {
                            &&& result == Ok::<usize, EditorError>(walk.blocks@.len() as usize)
                            &&& old(self).follows_replay(
                                final(self),
                                buffer,
                                walk.blocks@,
                                walk.reached,
                            )
                        },
                    },
                }
            },
    {
        if self.find_buffer(buffer).is_none() {
            return Err(EditorError::UnknownBuffer(buffer));
        }
        let walk = match walked {
            Ok(walk) => walk,
            Err(error) => {
                return Err(EditorError::Buffer(error));
            },
        };
        match self.replay_walk(buffer, &walk.blocks, walk.reached) {
            Ok(()) => Ok(walk.blocks.len()),
            Err(error) => Err(error),
        }
    }
}

} // verus!
