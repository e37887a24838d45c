//! Stroke history: undo, redo, and the atomic clear.
//!
//! The visible strokes are the `committed` stack. Undo moves the last
//! committed stroke onto the redo stack; once the committed stack is empty,
//! one further undo restores the whole last cleared group, because a clear
//! moves all committed strokes aside as a single atomic transfer — clearing
//! is never destructive history loss. Redo replays the most recently undone
//! step, be it one stroke or one clear. Committing a new stroke empties the
//! redo stack.

use vstd::prelude::*;
use crate::strokes::{strokes_view, strokes_wf, DrawObj, StrokeData};

verus! {

/// One entry of the redo stack: an undone stroke, or an undone clear
/// (whose strokes are back in the committed stack).
pub enum RedoEntry {
    Stroke(DrawObj),
    Cleared,
}

/// Mathematical view of a redo entry.
pub ghost enum RedoData {
    Stroke(StrokeData),
    Cleared,
}

impl View for RedoEntry {
    type V = RedoData;

    open spec fn view(&self) -> RedoData {
        match self {
            RedoEntry::Stroke(d) => RedoData::Stroke(d@),
            RedoEntry::Cleared => RedoData::Cleared,
        }
    }
}

pub open spec fn redo_entry_wf(e: RedoData) -> bool {
    match e {
        RedoData::Stroke(s) => s.wf(),
        RedoData::Cleared => true,
    }
}

/// Two ordered stacks of strokes plus the groups set aside by clears.
pub struct StrokeHistory {
    /// Visible strokes, in draw order (those drawn since the last clear).
    pub committed: Vec<DrawObj>,
    /// Earlier cleared groups, oldest first; each holds exactly what was
    /// visible when that clear happened.
    pub cleared: Vec<Vec<DrawObj>>,
    /// Undone steps available for redo, oldest first.
    pub undone: Vec<RedoEntry>,
}

/// Mathematical view of a stroke history.
#[verifier::ext_equal]
pub ghost struct HistoryData {
    pub committed: Seq<StrokeData>,
    pub cleared: Seq<Seq<StrokeData>>,
    pub undone: Seq<RedoData>,
}

impl View for StrokeHistory {
    type V = HistoryData;

    open spec fn view(&self) -> HistoryData {
        HistoryData {
            committed: strokes_view(self.committed@),
            cleared: self.cleared@.map_values(|l: Vec<DrawObj>| strokes_view(l@)),
            undone: self.undone@.map_values(|e: RedoEntry| e@),
        }
    }
}

impl HistoryData {
    pub open spec fn wf(self) -> bool {
        &&& strokes_wf(self.committed)
        &&& forall|i: int| 0 <= i < self.cleared.len() ==> strokes_wf(#[trigger] self.cleared[i])
        &&& forall|i: int| 0 <= i < self.undone.len() ==> redo_entry_wf(#[trigger] self.undone[i])
    }
}

/// One undo step: pop the last committed stroke onto the redo stack, or,
/// with no committed stroke left, restore the last cleared group whole.
pub open spec fn undo_spec(h: HistoryData) -> HistoryData {
    if h.committed.len() > 0 {
        HistoryData {
            committed: h.committed.drop_last(),
            cleared: h.cleared,
            undone: h.undone.push(RedoData::Stroke(h.committed.last())),
        }
    } else if h.cleared.len() > 0 {
        HistoryData {
            committed: h.cleared.last(),
            cleared: h.cleared.drop_last(),
            undone: h.undone.push(RedoData::Cleared),
        }
    } else {
        h
    }
}

/// One redo step: replay the most recently undone stroke or clear.
pub open spec fn redo_spec(h: HistoryData) -> HistoryData {
    if h.undone.len() > 0 {
        match h.undone.last() {
            RedoData::Stroke(s) => HistoryData {
                committed: h.committed.push(s),
                cleared: h.cleared,
                undone: h.undone.drop_last(),
            },
            RedoData::Cleared => HistoryData {
                committed: Seq::empty(),
                cleared: h.cleared.push(h.committed),
                undone: h.undone.drop_last(),
            },
        }
    } else {
        h
    }
}

/// Clear: move all committed strokes aside as one atomic group.
pub open spec fn clear_spec(h: HistoryData) -> HistoryData {
    HistoryData { committed: Seq::empty(), cleared: h.cleared.push(h.committed), undone: h.undone }
}

/// Committing a sealed stroke appends it and empties the redo stack.
pub open spec fn commit_spec(h: HistoryData, s: StrokeData) -> HistoryData {
    HistoryData { committed: h.committed.push(s), cleared: h.cleared, undone: Seq::empty() }
}

impl StrokeHistory {
    /// A fresh, empty history.
    pub fn new() -> (r: StrokeHistory)
        ensures
            r@.committed == Seq::<StrokeData>::empty(),
            r@.cleared == Seq::<Seq<StrokeData>>::empty(),
            r@.undone == Seq::<RedoData>::empty(),
    {
        let r = StrokeHistory { committed: Vec::new(), cleared: Vec::new(), undone: Vec::new() };
        proof {
            assert(r@.committed =~= Seq::<StrokeData>::empty());
            assert(r@.cleared =~= Seq::<Seq<StrokeData>>::empty());
            assert(r@.undone =~= Seq::<RedoData>::empty());
        }
        r
    }

    /// Undo one step.
    pub fn undo(&mut self)
        ensures
            final(self)@ == undo_spec(old(self)@),
    {
        if self.committed.len() > 0 {
            let s = self.committed.pop().unwrap();
            self.undone.push(RedoEntry::Stroke(s));
            proof {
                assert(self@ =~= undo_spec(old(self)@));
            }
        } else if self.cleared.len() > 0 {
            let layer = self.cleared.pop().unwrap();
            self.committed = layer;
            self.undone.push(RedoEntry::Cleared);
            proof {
                assert(self@ =~= undo_spec(old(self)@));
            }
        } else {
            proof {
                assert(self@ =~= undo_spec(old(self)@));
            }
        }
    }

    /// Redo one step.
    pub fn redo(&mut self)
        ensures
            final(self)@ == redo_spec(old(self)@),
    {
        if self.undone.len() > 0 {
            let entry = self.undone.pop().unwrap();
            match entry {
                RedoEntry::Stroke(s) => {
                    self.committed.push(s);
                    proof {
                        assert(self@ =~= redo_spec(old(self)@));
                    }
                },
                RedoEntry::Cleared => {
                    let mut group: Vec<DrawObj> = Vec::new();
                    std::mem::swap(&mut group, &mut self.committed);
                    self.cleared.push(group);
                    proof {
                        assert(self@.committed =~= Seq::<StrokeData>::empty());
                        assert(self@ =~= redo_spec(old(self)@));
                    }
                },
            }
        } else {
            proof {
                assert(self@ =~= redo_spec(old(self)@));
            }
        }
    }

    /// Clear all committed strokes as one atomic transfer.
    pub fn clear(&mut self)
        ensures
            final(self)@ == clear_spec(old(self)@),
    {
        let mut group: Vec<DrawObj> = Vec::new();
        std::mem::swap(&mut group, &mut self.committed);
        self.cleared.push(group);
        proof {
            assert(self@.committed =~= Seq::<StrokeData>::empty());
            assert(self@ =~= clear_spec(old(self)@));
        }
    }

    /// Commit a sealed stroke.
    pub fn commit(&mut self, d: DrawObj)
        ensures
            final(self)@ == commit_spec(old(self)@, d@),
    {
        self.committed.push(d);
        self.undone = Vec::new();
        proof {
            assert(self@.undone =~= Seq::<RedoData>::empty());
            assert(self@ =~= commit_spec(old(self)@, d@));
        }
    }
}

/// Undo keeps every stroke well-formed.
pub proof fn lemma_undo_wf(h: HistoryData)
    requires
        h.wf(),
    ensures
        undo_spec(h).wf(),
{
    let u = undo_spec(h);
    assert forall|i: int| 0 <= i < u.committed.len() implies (#[trigger] u.committed[i]).wf() by {
        if h.committed.len() > 0 {
            assert(u.committed[i] == h.committed[i]);
        } else if h.cleared.len() > 0 {
            assert(u.committed[i] == h.cleared[h.cleared.len() - 1][i]);
        }
    }
    assert forall|i: int| 0 <= i < u.cleared.len() implies strokes_wf(#[trigger] u.cleared[i]) by {
        assert(u.cleared[i] == h.cleared[i]);
    }
    assert forall|i: int| 0 <= i < u.undone.len() implies redo_entry_wf(#[trigger] u.undone[i]) by {
        if i < h.undone.len() {
            assert(u.undone[i] == h.undone[i]);
        } else {
            if h.committed.len() > 0 {
                assert(u.undone[i] == RedoData::Stroke(h.committed[h.committed.len() - 1]));
                assert(h.committed[h.committed.len() - 1].wf());
            }
        }
    }
}

/// Redo keeps every stroke well-formed.
pub proof fn lemma_redo_wf(h: HistoryData)
    requires
        h.wf(),
    ensures
        redo_spec(h).wf(),
{
    let r = redo_spec(h);
    if h.undone.len() > 0 {
        assert(redo_entry_wf(h.undone[h.undone.len() - 1]));
    }
    assert forall|i: int| 0 <= i < r.committed.len() implies (#[trigger] r.committed[i]).wf() by {
        if i < h.committed.len() {
            assert(r.committed[i] == h.committed[i]);
        }
    }
    assert forall|i: int| 0 <= i < r.cleared.len() implies strokes_wf(#[trigger] r.cleared[i]) by {
        if i < h.cleared.len() {
            assert(r.cleared[i] == h.cleared[i]);
        } else {
            assert(r.cleared[i] == h.committed);
        }
    }
    assert forall|i: int| 0 <= i < r.undone.len() implies redo_entry_wf(#[trigger] r.undone[i]) by {
        assert(r.undone[i] == h.undone[i]);
    }
}

/// Clear keeps every stroke well-formed.
pub proof fn lemma_clear_wf(h: HistoryData)
    requires
        h.wf(),
    ensures
        clear_spec(h).wf(),
{
    let c = clear_spec(h);
    assert forall|i: int| 0 <= i < c.cleared.len() implies strokes_wf(#[trigger] c.cleared[i]) by {
        if i < h.cleared.len() {
            assert(c.cleared[i] == h.cleared[i]);
        } else {
            assert(c.cleared[i] == h.committed);
        }
    }
}

/// Committing a well-formed stroke keeps the history well-formed.
pub proof fn lemma_commit_wf(h: HistoryData, s: StrokeData)
    requires
        h.wf(),
        s.wf(),
    ensures
        commit_spec(h, s).wf(),
{
    let c = commit_spec(h, s);
    assert forall|i: int| 0 <= i < c.committed.len() implies (#[trigger] c.committed[i]).wf() by {
        if i < h.committed.len() {
            assert(c.committed[i] == h.committed[i]);
        }
    }
}

/// Undoing `k` times, each step applied after the previous ones.
pub open spec fn undo_k(h: HistoryData, k: nat) -> HistoryData
    decreases k,
{
    if k == 0 {
        h
    } else {
        undo_spec(undo_k(h, (k - 1) as nat))
    }
}

/// Redoing `k` times, each step applied before the remaining ones.
pub open spec fn redo_k(h: HistoryData, k: nat) -> HistoryData
    decreases k,
{
    if k == 0 {
        h
    } else {
        redo_k(redo_spec(h), (k - 1) as nat)
    }
}

/// While a committed stroke remains, one redo exactly cancels one undo.
pub proof fn lemma_redo_cancels_undo(h: HistoryData)
    requires
        h.committed.len() > 0,
    ensures
        redo_spec(undo_spec(h)) == h,
{
    let u = undo_spec(h);
    assert(u.undone.len() > 0);
    assert(u.undone.last() == RedoData::Stroke(h.committed.last()));
    let r = redo_spec(u);
    assert(r.committed =~= h.committed);
    assert(r.undone =~= h.undone);
    assert(r =~= h);
}

/// Undoing `k <= committed.len()` times removes exactly the last `k`
/// committed strokes and touches nothing else but the redo stack.
pub proof fn lemma_undo_k_shape(h: HistoryData, k: nat)
    requires
        k <= h.committed.len(),
    ensures
        undo_k(h, k).committed =~= h.committed.take(h.committed.len() - k),
        undo_k(h, k).cleared == h.cleared,
    decreases k,
{
    if k > 0 {
        lemma_undo_k_shape(h, (k - 1) as nat);
        assert(undo_k(h, (k - 1) as nat).committed.len() == h.committed.len() - (k - 1));
        assert(undo_k(h, k).committed =~= h.committed.take(h.committed.len() - k));
    } else {
        assert(undo_k(h, 0).committed =~= h.committed.take(h.committed.len() as int));
    }
}

/// Undo then redo `k` times, for any `k` up to the number of committed
/// strokes, restores the exact original history: same strokes, same order,
/// same content.
pub proof fn lemma_undo_redo_round_trip(h: HistoryData, k: nat)
    requires
        k <= h.committed.len(),
    ensures
        redo_k(undo_k(h, k), k) == h,
    decreases k,
{
    if k > 0 {
        let x = undo_k(h, (k - 1) as nat);
        lemma_undo_k_shape(h, (k - 1) as nat);
        assert(x.committed.len() == h.committed.len() - (k - 1) > 0);
        lemma_redo_cancels_undo(x);
        assert(redo_spec(undo_k(h, k)) == x);
        lemma_undo_redo_round_trip(h, (k - 1) as nat);
        assert(redo_k(undo_k(h, k), k) == redo_k(redo_spec(undo_k(h, k)), (k - 1) as nat));
    }
}

/// Clearing then undoing once restores all previously-cleared strokes:
/// the committed stack and the earlier cleared groups come back exactly,
/// and the redo stack records the undone clear.
pub proof fn lemma_clear_then_undo(h: HistoryData)
    ensures
        undo_spec(clear_spec(h)).committed == h.committed,
        undo_spec(clear_spec(h)).cleared == h.cleared,
        undo_spec(clear_spec(h)).undone == h.undone.push(RedoData::Cleared),
{
    let c = clear_spec(h);
    assert(c.committed.len() == 0);
    assert(c.cleared.len() > 0);
    assert(undo_spec(c).committed == h.committed);
    assert(undo_spec(c).cleared =~= h.cleared);
}

} // verus!
