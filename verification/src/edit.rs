//! The edits: each changes the document and writes what it did to the
//! history, so that it can be taken back.

use crate::curve::{Anchor, AnchorEdge, BezierHist, BezierId, BezierPositions, CurveIdEdge, Point};
use crate::deletion::{
    all_known, deletion_records, names_latch, noted, removal_records, unlatch_records,
};
use crate::error::PenError;
use crate::history::HistoryAction;
use crate::latch::{latch_refusal, unlatch_refusal};
use crate::pen::PenTool;
use vstd::prelude::*;

verus! {

/// Whether one of the records is about the latch between `a` and `b`.
fn names_latch_in(records: &Vec<HistoryAction>, a: CurveIdEdge, b: CurveIdEdge) -> (found: bool)
    ensures
        found == names_latch(records@, a, b),
{
    let mut i: usize = 0;
    while i < records.len()
        invariant
            0 <= i <= records.len(),
            forall|j: int|
                0 <= j < i ==> !((#[trigger] records@[j]).ends() == Some((a, b)) || records@[j].ends()
                    == Some((b, a))),
        decreases records.len() - i,
    {
        let hit = match records[i] {
            HistoryAction::Latched { self_id, self_anchor, partner_bezier_id, partner_anchor } => {
                let first = CurveIdEdge { id: self_id, anchor_edge: self_anchor };
                let second = CurveIdEdge { id: partner_bezier_id, anchor_edge: partner_anchor };
                (first == a && second == b) || (first == b && second == a)
            },
            HistoryAction::Unlatched { self_id, partner_bezier_id, self_anchor, partner_anchor } => {
                let first = CurveIdEdge { id: self_id, anchor_edge: self_anchor };
                let second = CurveIdEdge { id: partner_bezier_id, anchor_edge: partner_anchor };
                (first == a && second == b) || (first == b && second == a)
            },
            _ => false,
        };
        if hit {
            return true;
        }
        i = i + 1;
    }
    false
}

/// Whether `id` is among the first `upto` of `ids`.
fn listed_before(ids: &Vec<BezierId>, upto: usize, id: BezierId) -> (found: bool)
    requires
        upto <= ids.len(),
    ensures
        found == ids@.take(upto as int).contains(id),
{
    let mut i: usize = 0;
    while i < upto
        invariant
            0 <= i <= upto <= ids.len(),
            forall|j: int| 0 <= j < i ==> ids@[j] != id,
        decreases upto - i,
    {
        if ids[i] == id {
            assert(ids@.take(upto as int)[i as int] == id);
            return true;
        }
        i = i + 1;
    }
    false
}

impl PenTool {
    /// Adds to `records` the record for the latch that endpoint `at` holds,
    /// unless `at` is free or the latch is already named.
    fn note_latch(&self, records: &mut Vec<HistoryAction>, at: CurveIdEdge)
        ensures
            final(records)@ == noted(self@.curves, old(records)@, at),
    {
        match self.partner_of(at) {
            Some(other) => {
                if !names_latch_in(records, at, other) {
                    records.push(
                        HistoryAction::Unlatched {
                            self_id: at.id,
                            partner_bezier_id: other.id,
                            self_anchor: at.anchor_edge,
                            partner_anchor: other.anchor_edge,
                        },
                    );
                }
            },
            None => {},
        }
    }

    /// What the deletion of `ids` writes to the history, or `None` if one of
    /// them does not exist.
    pub(crate) fn plan_deletion(&self, ids: &Vec<BezierId>) -> (plan: Option<Vec<HistoryAction>>)
        ensures
            match plan {
                Some(records) => all_known(self@.curves, ids@) && records@ == deletion_records(
                    self@.curves,
                    ids@,
                ),
                None => !all_known(self@.curves, ids@),
            },
    {
        let mut records: Vec<HistoryAction> = Vec::new();
        let mut i: usize = 0;
        while i < ids.len()
            invariant
                0 <= i <= ids.len(),
                forall|j: int| 0 <= j < i ==> self@.curves.contains_key(#[trigger] ids@[j]),
                records@ == unlatch_records(self@.curves, ids@, i as int),
            decreases ids.len() - i,
        {
            let id = ids[i];
            if !self.contains(id) {
                return None;
            }
            self.note_latch(&mut records, CurveIdEdge { id, anchor_edge: AnchorEdge::Start });
            self.note_latch(&mut records, CurveIdEdge { id, anchor_edge: AnchorEdge::End });
            i = i + 1;
        }
        let ghost unlatches = records@;
        let mut k: usize = 0;
        while k < ids.len()
            invariant
                0 <= k <= ids.len(),
                forall|j: int| 0 <= j < ids.len() ==> self@.curves.contains_key(#[trigger] ids@[j]),
                records@ == unlatches + removal_records(self@.curves, ids@, k as int),
            decreases ids.len() - k,
        {
            let id = ids[k];
            if !listed_before(ids, k, id) {
                let curve = self.get(id).unwrap();
                records.push(HistoryAction::DeletedCurve { bezier: curve.to_hist(), bezier_id: id });
                proof {
                    assert((unlatches + removal_records(self@.curves, ids@, k as int)).push(
                        HistoryAction::DeletedCurve { bezier: curve.hist(), bezier_id: id },
                    ) =~= unlatches + removal_records(self@.curves, ids@, k + 1));
                }
            }
            k = k + 1;
        }
        Some(records)
    }

    /// Applies the actions in order, writing nothing to the history.
    pub(crate) fn replay(&mut self, actions: &Vec<HistoryAction>)
        requires
            old(self)@.wf(),
        ensures
            final(self)@ == old(self)@.replay(actions@),
            final(self)@.wf(),
    {
        let ghost before = self@;
        let mut i: usize = 0;
        while i < actions.len()
            invariant
                0 <= i <= actions.len(),
                before.wf(),
                self@ == before.replay(actions@.take(i as int)),
                self@.wf(),
            decreases actions.len() - i,
        {
            self.apply_forward(actions[i]);
            proof {
                assert(actions@.take(i + 1).drop_last() =~= actions@.take(i as int));
            }
            i = i + 1;
        }
        proof {
            assert(actions@.take(actions.len() as int) =~= actions@);
        }
    }

    /// Creates a curve under `id` and records it. Where the identity is taken
    /// nothing changes and `None` is returned.
    pub fn spawn(&mut self, id: BezierId, positions: BezierPositions) -> (done: Option<
        HistoryAction,
    >)
        requires
            old(self)@.wf(),
        ensures
            final(self)@.wf(),
            match done {
                Some(action) => {
                    &&& !old(self)@.curves.contains_key(id)
                    &&& action == (HistoryAction::SpawnedCurve {
                        bezier_id: id,
                        bezier_hist: BezierHist { positions },
                    })
                    &&& final(self)@ == old(self)@.perform(action)
                },
                None => old(self)@.curves.contains_key(id) && final(self)@ == old(self)@,
            },
    {
        if self.insert(id, positions) {
            let action = HistoryAction::SpawnedCurve {
                bezier_id: id,
                bezier_hist: BezierHist { positions },
            };
            self.record(action);
            Some(action)
        } else {
            None
        }
    }

    /// Latches endpoint `a` to endpoint `b`, both halves at once, and records
    /// it.
    pub fn latch(&mut self, a: CurveIdEdge, b: CurveIdEdge) -> (done: Result<HistoryAction, PenError>)
        requires
            old(self)@.wf(),
        ensures
            final(self)@.wf(),
            match done {
                Ok(action) => {
                    &&& latch_refusal(old(self)@.curves, a, b).is_none()
                    &&& action == HistoryAction::latching(a, b)
                    &&& final(self)@ == old(self)@.perform(action)
                },
                Err(e) => latch_refusal(old(self)@.curves, a, b) == Some(e) && final(self)@ == old(self)@,
            },
    {
        let action = HistoryAction::Latched {
            self_id: a.id,
            self_anchor: a.anchor_edge,
            partner_bezier_id: b.id,
            partner_anchor: b.anchor_edge,
        };
        proof {
            crate::model::lemma_forward_wf(self@, action);
        }
        match self.latch_raw(a, b) {
            Ok(_) => {
                self.record(action);
                Ok(action)
            },
            Err(e) => Err(e),
        }
    }

    /// Removes the latch between endpoints `a` and `b`, both halves at once,
    /// and records it.
    pub fn unlatch(&mut self, a: CurveIdEdge, b: CurveIdEdge) -> (done: Result<
        HistoryAction,
        PenError,
    >)
        requires
            old(self)@.wf(),
        ensures
            final(self)@.wf(),
            match done {
                Ok(action) => {
                    &&& unlatch_refusal(old(self)@.curves, a, b).is_none()
                    &&& action == HistoryAction::unlatching(a, b)
                    &&& final(self)@ == old(self)@.perform(action)
                },
                Err(e) => unlatch_refusal(old(self)@.curves, a, b) == Some(e) && final(self)@
                    == old(self)@,
            },
    {
        let action = HistoryAction::Unlatched {
            self_id: a.id,
            partner_bezier_id: b.id,
            self_anchor: a.anchor_edge,
            partner_anchor: b.anchor_edge,
        };
        proof {
            crate::model::lemma_forward_wf(self@, action);
        }
        match self.unlatch_raw(a, b) {
            Ok(_) => {
                self.record(action);
                Ok(action)
            },
            Err(e) => Err(e),
        }
    }

    /// Moves one point of a curve and records it. An endpoint that is latched
    /// takes its partner along.
    pub fn move_anchor(&mut self, id: BezierId, anchor: Anchor, position: Point) -> (done: Result<
        HistoryAction,
        PenError,
    >)
        requires
            old(self)@.wf(),
        ensures
            final(self)@.wf(),
            match done {
                Ok(action) => {
                    &&& old(self)@.curves.contains_key(id)
                    &&& action == (HistoryAction::MovedAnchor {
                        bezier_id: id,
                        anchor,
                        previous_position: old(self)@.curves[id].positions.at(anchor),
                        new_position: position,
                    })
                    &&& final(self)@ == old(self)@.perform(action)
                },
                Err(e) => {
                    &&& e == PenError::UnknownId
                    &&& !old(self)@.curves.contains_key(id)
                    &&& final(self)@ == old(self)@
                },
            },
    {
        match self.move_raw(id, anchor, position) {
            Ok(was) => {
                let action = HistoryAction::MovedAnchor {
                    bezier_id: id,
                    anchor,
                    previous_position: was,
                    new_position: position,
                };
                proof {
                    crate::model::lemma_forward_wf(old(self)@, action);
                }
                self.record(action);
                Ok(action)
            },
            Err(e) => Err(e),
        }
    }
}

} // verus!
