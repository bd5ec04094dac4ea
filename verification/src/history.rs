//! The bounded undo history: a FIFO-evicting stack of board snapshots.

use std::collections::VecDeque;
use vstd::prelude::*;

use crate::grid::Board;

verus! {

/// How many snapshots the history keeps at most; pushing onto a full
/// history evicts the oldest entry first.
pub const HISTORY_CAPACITY: usize = 250;

/// An ordered sequence of board snapshots, oldest first, holding at most
/// `HISTORY_CAPACITY` entries.
pub struct HistoryStack {
    entries: VecDeque<Board>,
}

impl HistoryStack {
    /// The snapshots currently held, oldest first.
    pub closed spec fn snapshots(&self) -> Seq<Board> {
        self.entries@
    }

    /// The history invariant: bounded length, every snapshot a
    /// well-formed board.
    pub closed spec fn wf(&self) -> bool {
        &&& self.entries@.len() <= HISTORY_CAPACITY
        &&& forall|i: int| 0 <= i < self.entries@.len() ==> (#[trigger] self.entries@[i]).wf()
    }

    /// A well-formed history never exceeds its capacity and holds only
    /// well-formed boards.
    pub proof fn lemma_wf_bounds(&self)
        requires
            self.wf(),
        ensures
            self.snapshots().len() <= HISTORY_CAPACITY,
            forall|i: int| 0 <= i < self.snapshots().len() ==> (#[trigger] self.snapshots()[i]).wf(),
    {
    }

    /// An empty history.
    pub fn new() -> (h: HistoryStack)
        ensures
            h.wf(),
            h.snapshots() == Seq::<Board>::empty(),
    {
        HistoryStack { entries: VecDeque::new() }
    }

    /// How many snapshots are held.
    pub fn len(&self) -> (n: usize)
        ensures
            n == self.snapshots().len(),
    {
        self.entries.len()
    }

    /// Pushes a snapshot, evicting the oldest entry first when the
    /// history is full, so that the most recent snapshots are kept.
    pub fn push(&mut self, board: Board)
        requires
            old(self).wf(),
            board.wf(),
        ensures
            final(self).wf(),
            old(self).snapshots().len() < HISTORY_CAPACITY ==> final(self).snapshots()
                == old(self).snapshots().push(board),
            old(self).snapshots().len() == HISTORY_CAPACITY ==> final(self).snapshots()
                == old(self).snapshots().subrange(1, HISTORY_CAPACITY as int).push(board),
            final(self).snapshots().len() <= HISTORY_CAPACITY,
            final(self).snapshots().last() == board,
    {
        if self.entries.len() == HISTORY_CAPACITY {
            self.entries.pop_front();
        }
        self.entries.push_back(board);
    }

    /// Removes and returns the newest snapshot; `None` when empty.
    pub fn pop(&mut self) -> (r: Option<Board>)
        requires
            old(self).wf(),
        ensures
            final(self).wf(),
            old(self).snapshots().len() == 0 ==> r.is_none() && final(self).snapshots()
                == old(self).snapshots(),
            old(self).snapshots().len() > 0 ==> r == Some(old(self).snapshots().last())
                && final(self).snapshots() == old(self).snapshots().drop_last()
                && r.unwrap().wf(),
    {
        self.entries.pop_back()
    }
}

/// One snapshot step: `post` is `pre` with `board` on top, the oldest
/// entry evicted first when `pre` was full. This is exactly what one
/// `push` does.
pub open spec fn pushed_step(pre: HistoryStack, post: HistoryStack, board: Board) -> bool {
    &&& pre.wf()
    &&& post.wf()
    &&& board.wf()
    &&& pre.snapshots().len() < HISTORY_CAPACITY ==> post.snapshots() == pre.snapshots().push(
        board,
    )
    &&& pre.snapshots().len() == HISTORY_CAPACITY ==> post.snapshots() == pre.snapshots().subrange(
        1,
        HISTORY_CAPACITY as int,
    ).push(board)
}

/// Law: however many snapshots a run takes, the history never exceeds
/// its capacity, and its entries are exactly the most recently pushed
/// boards: the entry `j` places below the newest is the board pushed
/// `j` pushes ago. Once at least `HISTORY_CAPACITY` snapshots have been
/// taken, that accounts for the whole history: it holds exactly the
/// most recent `HISTORY_CAPACITY` boards, the older ones evicted
/// oldest-first.
pub proof fn lemma_snapshots_keep_most_recent(hists: Seq<HistoryStack>, boards: Seq<Board>)
    requires
        hists.len() == boards.len() + 1,
        hists[0].wf(),
        forall|i: int|
            0 <= i < boards.len() ==> #[trigger] pushed_step(hists[i], hists[i + 1], boards[i]),
    ensures
        hists.last().snapshots().len() <= HISTORY_CAPACITY,
        hists.last().snapshots().len() == if hists[0].snapshots().len() + boards.len()
            < HISTORY_CAPACITY {
            hists[0].snapshots().len() + boards.len()
        } else {
            HISTORY_CAPACITY as nat
        },
        ({
            let n = boards.len() as int;
            let m = if n < HISTORY_CAPACITY {
                n
            } else {
                HISTORY_CAPACITY as int
            };
            forall|j: int|
                0 <= j < m ==> hists.last().snapshots()[hists.last().snapshots().len() - 1 - j]
                    == #[trigger] boards[n - 1 - j]
        }),
    decreases boards.len(),
{
    let n = boards.len() as int;
    if n > 0 {
        lemma_snapshots_keep_most_recent(hists.drop_last(), boards.drop_last());
        let j = n - 1;
        assert(pushed_step(hists[j], hists[j + 1], boards[j]));
        assert(hists.drop_last().last() == hists[n - 1]);
        hists[n - 1].lemma_wf_bounds();
        let prev = hists[n - 1].snapshots();
        let cur = hists[n].snapshots();
        assert(hists.drop_last().last().snapshots() == prev);
        let np: int = boards.drop_last().len() as int;
        let m = if n < HISTORY_CAPACITY {
            n
        } else {
            HISTORY_CAPACITY as int
        };
        let mp = if np < HISTORY_CAPACITY {
            np
        } else {
            HISTORY_CAPACITY as int
        };
        assert(np == n - 1 && m - 1 <= mp && mp <= prev.len());
        assert forall|k: int| 0 <= k < m implies cur[cur.len() - 1 - k] == #[trigger] boards[n - 1
            - k] by {
            if k == 0 {
                assert(cur.last() == boards[n - 1]);
                assert(cur[cur.len() - 1 - k] == cur.last());
            } else {
                assert(prev[prev.len() - 1 - (k - 1)] == boards.drop_last()[np - 1 - (k - 1)]);
                assert(boards.drop_last()[np - 1 - (k - 1)] == boards[n - 1 - k]);
                assert(cur[cur.len() - 1 - k] == prev[prev.len() - 1 - (k - 1)]);
            }
        }
    }
}

} // verus!
