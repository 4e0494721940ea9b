//! The cursor-aware undo/redo history: a flat log of (tree, cursor)
//! snapshots with a current index.
//!
//! `record_previous_state` drops everything after the index (a new edit
//! discards the redo future), appends the pre-mutation snapshot and moves
//! the index past it.  `undo` stores the caller's current state so `redo`
//! can come back to it, then steps the index back; both are no-ops at the
//! log's bounds.  The spec-level transitions [`record_spec`], [`undo_spec`]
//! and [`redo_spec`] say exactly what each call does, and
//! [`lemma_undo_exactness`] proves that undoing every recorded command
//! returns to the first state and redoing returns to the last.

use vstd::prelude::*;

use crate::lang::{CodeNode, NodeView, ID};

verus! {

/// One snapshot: a tree root and the cursor at the time.
#[derive(Debug)]
pub struct UndoHistoryCell {
    pub root: CodeNode,
    pub cursor_position: Option<ID>,
}

/// Mathematical model of a snapshot.
pub struct CellView {
    pub root: NodeView,
    pub cursor_position: Option<ID>,
}

impl View for UndoHistoryCell {
    type V = CellView;

    open spec fn view(&self) -> CellView {
        CellView { root: self.root@, cursor_position: self.cursor_position }
    }
}

impl UndoHistoryCell {
    /// A structurally equal copy.
    pub fn duplicate(&self) -> (r: UndoHistoryCell)
        ensures
            r@ == self@,
    {
        UndoHistoryCell { root: self.root.duplicate(), cursor_position: self.cursor_position }
    }
}

/// Mathematical model of the history.
pub struct HistView {
    pub log: Seq<CellView>,
    pub index: nat,
}

/// The history's structural invariant: the index never passes the end of
/// the log.
pub open spec fn hist_wf(h: HistView) -> bool {
    h.index <= h.log.len()
}

/// What recording does: truncate the redo future, append the snapshot,
/// advance.
pub open spec fn record_spec(h: HistView, cell: CellView) -> HistView {
    HistView { log: h.log.subrange(0, h.index as int).push(cell), index: h.index + 1 }
}

/// What undo does: at the lower bound, nothing; otherwise store the
/// current state where the index stands (so redo can return to it) and
/// step back, yielding the snapshot there.
pub open spec fn undo_spec(h: HistView, current: CellView) -> (HistView, Option<CellView>) {
    if h.index == 0 {
        (h, None)
    } else {
        let stored = if h.index == h.log.len() {
            h.log.push(current)
        } else {
            h.log.update(h.index as int, current)
        };
        (HistView { log: stored, index: (h.index - 1) as nat }, Some(h.log[h.index - 1]))
    }
}

/// What redo does: at the upper bound, nothing; otherwise step forward,
/// yielding the snapshot there.
pub open spec fn redo_spec(h: HistView) -> (HistView, Option<CellView>) {
    if h.index + 1 >= h.log.len() {
        (h, None)
    } else {
        (HistView { log: h.log, index: h.index + 1 }, Some(h.log[h.index as int + 1]))
    }
}

/// The snapshot log the editor sessions keep.
pub struct UndoHistory {
    log: Vec<UndoHistoryCell>,
    index: usize,
}

impl View for UndoHistory {
    type V = HistView;

    closed spec fn view(&self) -> HistView {
        HistView {
            log: self.log@.map_values(|c: UndoHistoryCell| c@),
            index: self.index as nat,
        }
    }
}

impl UndoHistory {
    /// An empty history.
    pub fn new() -> (r: UndoHistory)
        ensures
            r@.log == Seq::<CellView>::empty(),
            r@.index == 0,
            hist_wf(r@),
    {
        let r = UndoHistory { log: Vec::new(), index: 0 };
        proof {
            assert(r@.log =~= Seq::<CellView>::empty());
        }
        r
    }

    /// Records the state that held before a mutation.
    pub fn record_previous_state(&mut self, root: &CodeNode, cursor_position: Option<ID>)
        requires
            hist_wf(old(self)@),
        ensures
            final(self)@ == record_spec(old(self)@, CellView {
                root: root@,
                cursor_position,
            }),
            hist_wf(final(self)@),
    {
        while self.log.len() > self.index
            invariant
                self.index <= self.log@.len(),
                self.log@.len() <= old(self)@.log.len(),
                self@.log =~= old(self)@.log.subrange(0, self.log@.len() as int),
                self.index == old(self)@.index,
            decreases self.log@.len(),
        {
            let ghost pre = self@.log;
            self.log.pop();
            proof {
                let cur = self@.log;
                assert(cur.len() == pre.len() - 1);
                assert forall|k: int| 0 <= k < cur.len()
                    implies cur[k] == old(self)@.log[k] by {
                    assert(cur[k] == pre[k]);
                    assert(pre[k] == old(self)@.log.subrange(0, pre.len() as int)[k]);
                }
                assert(cur =~= old(self)@.log.subrange(0, self.log@.len() as int));
            }
        }
        let cell = UndoHistoryCell { root: root.duplicate(), cursor_position };
        self.log.push(cell);
        self.index = self.log.len();
        proof {
            assert(self@.log =~= old(self)@.log.subrange(0, old(self)@.index as int)
                .push(CellView { root: root@, cursor_position }));
        }
    }

    /// Steps back one snapshot, handing back the state to restore;
    /// `None` at the beginning of the log.
    pub fn undo(&mut self, current_root: &CodeNode, cursor_position: Option<ID>)
        -> (r: Option<UndoHistoryCell>)
        requires
            hist_wf(old(self)@),
        ensures
            hist_wf(final(self)@),
            ({
                let (h2, out) = undo_spec(old(self)@, CellView {
                    root: current_root@,
                    cursor_position,
                });
                final(self)@ == h2 && match r {
                    Some(cell) => out == Some(cell@),
                    None => out is None,
                }
            }),
    {
        if self.index == 0 {
            return None;
        }
        let cell = UndoHistoryCell { root: current_root.duplicate(), cursor_position };
        if self.index == self.log.len() {
            self.log.push(cell);
            proof {
                assert(self@.log =~= old(self)@.log.push(CellView {
                    root: current_root@,
                    cursor_position,
                }));
            }
        } else {
            self.log.set(self.index, cell);
            proof {
                assert(self@.log =~= old(self)@.log.update(old(self)@.index as int, CellView {
                    root: current_root@,
                    cursor_position,
                }));
            }
        }
        self.index = self.index - 1;
        Some(self.log[self.index].duplicate())
    }

    /// Steps forward one snapshot, handing back the state to restore;
    /// `None` at the end of the log.
    pub fn redo(&mut self) -> (r: Option<UndoHistoryCell>)
        requires
            hist_wf(old(self)@),
        ensures
            hist_wf(final(self)@),
            ({
                let (h2, out) = redo_spec(old(self)@);
                final(self)@ == h2 && match r {
                    Some(cell) => out == Some(cell@),
                    None => out is None,
                }
            }),
    {
        if self.log.len() == 0 || self.index >= self.log.len() - 1 {
            return None;
        }
        self.index = self.index + 1;
        Some(self.log[self.index].duplicate())
    }
}

// ---------------------------------------------------------------------------
// Undo exactness
// ---------------------------------------------------------------------------

/// The history after recording a sequence of states in order.
pub open spec fn record_all(h: HistView, states: Seq<CellView>) -> HistView
    decreases states.len(),
{
    if states.len() == 0 {
        h
    } else {
        record_all(record_spec(h, states[0]), states.subrange(1, states.len() as int))
    }
}

/// `n` undos in a row; each step feeds the state the previous step
/// restored back in as the current state.
pub open spec fn undo_n(h: HistView, current: CellView, n: nat) -> (HistView, CellView)
    decreases n,
{
    if n == 0 {
        (h, current)
    } else {
        let (h1, out) = undo_spec(h, current);
        match out {
            Some(cell) => undo_n(h1, cell, (n - 1) as nat),
            None => (h1, current),
        }
    }
}

/// `n` redos in a row, feeding restored states forward the same way.
pub open spec fn redo_n(h: HistView, current: CellView, n: nat) -> (HistView, CellView)
    decreases n,
{
    if n == 0 {
        (h, current)
    } else {
        let (h1, out) = redo_spec(h);
        match out {
            Some(cell) => redo_n(h1, cell, (n - 1) as nat),
            None => (h1, current),
        }
    }
}

proof fn lemma_record_all_shape(h: HistView, states: Seq<CellView>)
    requires
        h.index == h.log.len(),
    ensures
        record_all(h, states).log =~= h.log + states,
        record_all(h, states).index == h.log.len() + states.len(),
    decreases states.len(),
{
    if states.len() == 0 {
        assert(h.log + states =~= h.log);
    } else {
        let h1 = record_spec(h, states[0]);
        assert(h1.log =~= h.log.push(states[0]));
        lemma_record_all_shape(h1, states.subrange(1, states.len() as int));
        assert(h.log.push(states[0]) + states.subrange(1, states.len() as int)
            =~= h.log + states);
    }
}

/// Undoing `k` times from index `i` (current state `log[i]`) lands on
/// index `i - k`, restoring `log[i - k]`.
pub proof fn lemma_undo_step(log: Seq<CellView>, i: nat, k: nat)
    requires
        k <= i,
        i < log.len(),
    ensures
        undo_n(HistView { log, index: i }, log[i as int], k)
            == (HistView { log, index: (i - k) as nat }, log[i - k]),
    decreases k,
{
    let h = HistView { log, index: i };
    if k == 0 {
    } else {
        let (h1, out) = undo_spec(h, log[i as int]);
        assert(h1.log =~= log.update(i as int, log[i as int]));
        assert(h1.log =~= log);
        lemma_undo_step(log, (i - 1) as nat, (k - 1) as nat);
    }
}

/// Redoing `k` times from index `i` (current == `log[i]`) lands on index
/// `i + k`, restoring `log[i + k]`.
pub proof fn lemma_redo_step(log: Seq<CellView>, i: nat, k: nat)
    requires
        i + k < log.len(),
    ensures
        redo_n(HistView { log, index: i }, log[i as int], k)
            == (HistView { log, index: (i + k) as nat }, log[i as int + k]),
    decreases k,
{
    if k > 0 {
        lemma_redo_step(log, i + 1, (k - 1) as nat);
    }
}

/// Undo exactness.  Record the state before each of `n` commands in an
/// initially empty history; let `last` be the state after the final
/// command.  Then `n` undos return the tree and cursor to the first
/// recorded state, and `n` redos afterwards return to `last`.
pub proof fn lemma_undo_exactness(states: Seq<CellView>, last: CellView)
    requires
        states.len() >= 1,
    ensures
        ({
            let h = record_all(HistView { log: Seq::empty(), index: 0 }, states);
            let (hu, restored) = undo_n(h, last, states.len());
            let (hr, replayed) = redo_n(hu, restored, states.len());
            restored == states[0] && replayed == last
        }),
{
    let h0 = HistView { log: Seq::empty(), index: 0 };
    let h = record_all(h0, states);
    lemma_record_all_shape(h0, states);
    assert(h.log =~= states);
    let n = states.len();

    // the first undo stores `last` at the end of the log
    let (h1, out1) = undo_spec(h, last);
    let full = states.push(last);
    assert(h1.log =~= full);
    assert(out1 == Some(states[n - 1]));
    assert(full[n - 1] == states[n - 1]);

    // the remaining n - 1 undos walk down the stored log
    lemma_undo_step(full, (n - 1) as nat, (n - 1) as nat);
    let (hu, restored) = undo_n(h, last, n);
    assert((hu, restored) == (HistView { log: full, index: 0 }, full[0]));
    assert(full[0] == states[0]);

    // n redos walk back up to the stored final state
    lemma_redo_step(full, 0, n);
    assert(redo_n(hu, restored, n)
        == (HistView { log: full, index: n }, full[n as int]));
    assert(full[n as int] == last);
}

} // verus!
