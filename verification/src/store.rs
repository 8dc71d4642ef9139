//! The curve store: creating, reading, changing and deleting curves, with all
//! that a deletion drags along. Nothing here writes to the history.

use crate::curve::{
    Anchor, AnchorEdge, Bezier, BezierHist, BezierId, BezierPositions, CurveIdEdge, GroupId,
    LatchData, Point,
};
use crate::error::PenError;
use crate::history::HistoryAction;
use crate::latch::{
    detached, entry, freed, half_sound, latch_refusal, latched, lemma_freed_sound, moved, partner,
    set_entry, unlatch_refusal, unlatched,
};
use crate::model::{
    lemma_groups_sound_kept, lemma_ungrouped_wf, member_sound, tag_sound, untagged,
};
use crate::pen::PenTool;
use vstd::prelude::*;

verus! {

impl PenTool {
    /// The endpoint that `at` is latched to, if any.
    pub fn partner_of(&self, at: CurveIdEdge) -> (found: Option<CurveIdEdge>)
        ensures
            found == partner(self@.curves, at),
    {
        match self.get(at.id) {
            Some(curve) => match curve.get_latch(at.anchor_edge) {
                Some(half) => Some(
                    CurveIdEdge { id: half.latched_to_id, anchor_edge: half.partners_edge },
                ),
                None => None,
            },
            None => None,
        }
    }

    /// The group that a curve belongs to, if any.
    pub fn group_of(&self, id: BezierId) -> (found: Option<GroupId>)
        ensures
            found == self@.group_of(id),
    {
        match self.get(id) {
            Some(curve) => curve.group,
            None => None,
        }
    }

    /// Whether `a` and `b` can be latched.
    pub fn can_latch(&self, a: CurveIdEdge, b: CurveIdEdge) -> (free: bool)
        ensures
            free == latch_refusal(self@.curves, a, b).is_none(),
    {
        match (self.get(a.id), self.get(b.id)) {
            (Some(first), Some(second)) => a != b && !first.quad_is_latched(a.anchor_edge)
                && !second.quad_is_latched(b.anchor_edge),
            _ => false,
        }
    }

    /// Whether `a` and `b` are latched to each other, in a document whose
    /// latches are all mirrored.
    pub fn can_unlatch(&self, a: CurveIdEdge, b: CurveIdEdge) -> (latched: bool)
        ensures
            latched == unlatch_refusal(self@.curves, a, b).is_none(),
    {
        match (self.get(a.id), self.contains(b.id)) {
            (Some(first), true) => match first.get_latch(a.anchor_edge) {
                Some(half) => half == (LatchData {
                    latched_to_id: b.id,
                    self_edge: a.anchor_edge,
                    partners_edge: b.anchor_edge,
                }),
                None => false,
            },
            _ => false,
        }
    }

    /// Replaces the entry under one endpoint of an existing curve.
    pub(crate) fn put_entry(&mut self, at: CurveIdEdge, half: Option<LatchData>)
        requires
            old(self)@.curves.contains_key(at.id),
            old(self)@.curves[at.id].id == at.id,
        ensures
            final(self)@ == old(self)@.with_curves(set_entry(old(self)@.curves, at, half)),
    {
        let mut curve = self.get(at.id).unwrap();
        curve.set_latch(at.anchor_edge, half);
        self.put_curve(curve);
    }

    /// Latches two endpoints, if both exist and are free.
    pub(crate) fn latch_raw(&mut self, a: CurveIdEdge, b: CurveIdEdge) -> (done: Result<
        (),
        PenError,
    >)
        requires
            old(self)@.wf(),
        ensures
            match done {
                Ok(_) => latch_refusal(old(self)@.curves, a, b).is_none() && final(self)@ == old(self)@.with_curves(latched(old(self)@.curves, a, b)),
                Err(e) => latch_refusal(old(self)@.curves, a, b) == Some(e) && final(self)@ == old(self)@,
            },
    {
        let first = match self.get(a.id) {
            Some(curve) => curve,
            None => {
                return Err(PenError::UnknownId);
            },
        };
        let second = match self.get(b.id) {
            Some(curve) => curve,
            None => {
                return Err(PenError::UnknownId);
            },
        };
        if a == b || first.quad_is_latched(a.anchor_edge) || second.quad_is_latched(b.anchor_edge) {
            return Err(PenError::AlreadyLatched);
        }
        self.put_entry(
            a,
            Some(
                LatchData {
                    latched_to_id: b.id,
                    self_edge: a.anchor_edge,
                    partners_edge: b.anchor_edge,
                },
            ),
        );
        self.put_entry(
            b,
            Some(
                LatchData {
                    latched_to_id: a.id,
                    self_edge: b.anchor_edge,
                    partners_edge: a.anchor_edge,
                },
            ),
        );
        Ok(())
    }

    /// Removes the latch between two endpoints, if there is one.
    pub(crate) fn unlatch_raw(&mut self, a: CurveIdEdge, b: CurveIdEdge) -> (done: Result<
        (),
        PenError,
    >)
        requires
            old(self)@.wf(),
        ensures
            match done {
                Ok(_) => unlatch_refusal(old(self)@.curves, a, b).is_none() && final(self)@ == old(self)@.with_curves(unlatched(old(self)@.curves, a, b)),
                Err(e) => unlatch_refusal(old(self)@.curves, a, b) == Some(e) && final(self)@
                    == old(self)@,
            },
    {
        let first = match self.get(a.id) {
            Some(curve) => curve,
            None => {
                return Err(PenError::UnknownId);
            },
        };
        if !self.contains(b.id) {
            return Err(PenError::UnknownId);
        }
        let wanted = LatchData {
            latched_to_id: b.id,
            self_edge: a.anchor_edge,
            partners_edge: b.anchor_edge,
        };
        match first.get_latch(a.anchor_edge) {
            Some(half) => {
                if half != wanted {
                    return Err(PenError::NotLatched);
                }
            },
            None => {
                return Err(PenError::NotLatched);
            },
        }
        self.put_entry(a, None);
        self.put_entry(b, None);
        Ok(())
    }

    /// Sets one endpoint free, together with whatever it was latched to.
    pub(crate) fn free(&mut self, at: CurveIdEdge)
        requires
            old(self)@.wf(),
        ensures
            final(self)@ == old(self)@.with_curves(freed(old(self)@.curves, at)),
    {
        match self.partner_of(at) {
            Some(other) => {
                proof {
                    assert(half_sound(self@.curves, at.id, at.anchor_edge));
                }
                let done = self.unlatch_raw(at, other);
                assert(done.is_ok());
            },
            None => {
                assert(self@ == self@.with_curves(self@.curves));
            },
        }
    }

    /// Moves one point of a curve; an endpoint that is latched takes its partner
    /// along. Returns where the point was.
    pub(crate) fn move_raw(&mut self, id: BezierId, anchor: Anchor, position: Point) -> (done:
        Result<Point, PenError>)
        requires
            old(self)@.wf(),
        ensures
            match done {
                Ok(was) => {
                    &&& old(self)@.curves.contains_key(id)
                    &&& was == old(self)@.curves[id].positions.at(anchor)
                    &&& final(self)@ == old(self)@.with_curves(
                        moved(old(self)@.curves, id, anchor, position),
                    )
                },
                Err(e) => {
                    &&& e == PenError::UnknownId
                    &&& !old(self)@.curves.contains_key(id)
                    &&& final(self)@ == old(self)@
                },
            },
    {
        let mut curve = match self.get(id) {
            Some(curve) => curve,
            None => {
                return Err(PenError::UnknownId);
            },
        };
        let was = curve.get_position(anchor);
        let held = match anchor.to_edge() {
            Some(edge) => curve.get_latch(edge),
            None => None,
        };
        curve.set_position(anchor, position);
        self.put_curve(curve);
        match held {
            Some(half) => {
                proof {
                    assert(half_sound(old(self)@.curves, id, anchor.edge().unwrap()));
                }
                let mut other = self.get(half.latched_to_id).unwrap();
                other.set_position(half.partners_edge.to_anchor(), position);
                self.put_curve(other);
            },
            None => {},
        }
        Ok(was)
    }

    /// Creates a curve under `id`, without latch or group. Where the identity
    /// is taken nothing changes and `false` is returned.
    pub fn insert(&mut self, id: BezierId, positions: BezierPositions) -> (created: bool)
        requires
            old(self)@.wf(),
        ensures
            created == !old(self)@.curves.contains_key(id),
            final(self)@ == old(self)@.spawned(id, BezierHist { positions }),
            final(self)@.wf(),
    {
        proof {
            crate::model::lemma_spawned_wf(self@, id, BezierHist { positions });
        }
        if self.contains(id) {
            false
        } else {
            self.put_curve(Bezier::new(id, positions));
            true
        }
    }

    /// Replaces the geometry of a curve, leaving its latches and its group as
    /// they are.
    pub fn update_positions(&mut self, id: BezierId, positions: BezierPositions) -> (done: Result<
        (),
        PenError,
    >)
        requires
            old(self)@.wf(),
        ensures
            final(self)@.wf(),
            match done {
                Ok(_) => old(self)@.curves.contains_key(id) && final(self)@ == old(self)@.with_curves(
                    old(self)@.curves.insert(
                        id,
                        (Bezier { positions, ..old(self)@.curves[id] }),
                    ),
                ),
                Err(e) => e == PenError::UnknownId && !old(self)@.curves.contains_key(id) && final(self)@ == old(self)@,
            },
    {
        let mut curve = match self.get(id) {
            Some(curve) => curve,
            None => {
                return Err(PenError::UnknownId);
            },
        };
        curve.positions = positions;
        self.put_curve(curve);
        proof {
            let before = old(self)@;
            let after = self@;
            assert forall|other: BezierId, edge: AnchorEdge|
                after.curves.contains_key(other) implies #[trigger] half_sound(
                after.curves,
                other,
                edge,
            ) by {
                assert(half_sound(before.curves, other, edge));
            }
            assert(after.curves.dom() =~= before.curves.dom());
            lemma_groups_sound_kept(before.curves, after.curves, before.groups, before.next_group);
        }
        Ok(())
    }

    /// Dissolves a group: drops its record and takes its tag off its members.
    /// Returns the members, in chain order; none where there is no such group.
    pub(crate) fn ungroup_raw(&mut self, g: GroupId) -> (members: Vec<BezierId>)
        requires
            old(self)@.wf(),
        ensures
            final(self)@ == old(self)@.ungrouped(g),
            final(self)@.wf(),
            members@ == (if old(self)@.groups.contains_key(g) {
                old(self)@.groups[g].map_values(|link: CurveIdEdge| link.id)
            } else {
                Seq::empty()
            }),
    {
        let ghost before = self@;
        proof {
            lemma_ungrouped_wf(before, g);
        }
        let mut members: Vec<BezierId> = Vec::new();
        match self.take_group(g) {
            Some(links) => {
                let mut i: usize = 0;
                while i < links.len()
                    invariant
                        before.wf(),
                        before.groups.contains_key(g),
                        links@ == before.groups[g],
                        0 <= i <= links.len(),
                        members@ == links@.take(i as int).map_values(|link: CurveIdEdge| link.id),
                        self@.groups == before.groups.remove(g),
                        self@.next_group == before.next_group,
                        self@.history == before.history,
                        self@.cursor == before.cursor,
                        self@.curves.dom() == before.curves.dom(),
                        forall|id: BezierId|
                            before.curves.contains_key(id) ==> #[trigger] self@.curves[id] == (if before.curves[id].group
                                == Some(g) && exists|j: int|
                                0 <= j < i && (#[trigger] links@[j]).id == id {
                                before.curves[id].with_group(None)
                            } else {
                                before.curves[id]
                            }),
                    decreases links.len() - i,
                {
                    let id = links[i].id;
                    proof {
                        assert(member_sound(before.curves, before.groups, g, i as int));
                    }
                    let mut curve = self.get(id).unwrap();
                    curve.group = None;
                    self.put_curve(curve);
                    members.push(id);
                    proof {
                        assert(self@.curves.dom() =~= before.curves.dom());
                        assert(links@.take(i + 1).map_values(|link: CurveIdEdge| link.id)
                            =~= links@.take(i as int).map_values(|link: CurveIdEdge| link.id).push(
                            id,
                        ));
                        assert forall|other: BezierId|
                            before.curves.contains_key(other) implies #[trigger] self@.curves[other] == (if before.curves[other].group
                            == Some(g) && exists|j: int|
                            0 <= j < i + 1 && (#[trigger] links@[j]).id == other {
                            before.curves[other].with_group(None)
                        } else {
                            before.curves[other]
                        }) by {
                            if other == id {
                                assert(links@[i as int].id == other);
                            } else {
                                if exists|j: int| 0 <= j < i + 1 && (#[trigger] links@[j]).id == other {
                                    let j = choose|j: int|
                                        0 <= j < i + 1 && (#[trigger] links@[j]).id == other;
                                    assert(0 <= j < i && links@[j].id == other);
                                }
                            }
                        }
                    }
                    i = i + 1;
                }
                proof {
                    assert(links@.take(links.len() as int) =~= links@);
                    assert forall|id: BezierId| before.curves.contains_key(id) implies self@.curves[id]
                        == #[trigger] untagged(before.curves, g)[id] by {
                        if before.curves[id].group == Some(g) {
                            assert(tag_sound(before.curves, before.groups, id));
                        }
                    }
                    assert(self@.curves =~= untagged(before.curves, g));
                }
            },
            None => {
                proof {
                    assert forall|id: BezierId| before.curves.contains_key(id) implies before.curves[id]
                        == #[trigger] untagged(before.curves, g)[id] by {
                        assert(tag_sound(before.curves, before.groups, id));
                    }
                    assert(self@.curves =~= untagged(before.curves, g));
                }
            },
        }
        members
    }

    /// Deletes a curve: its latches are removed on both sides, its group is
    /// dissolved, and the curve is gone. Returns the record as it was.
    pub fn remove(&mut self, id: BezierId) -> (done: Result<Bezier, PenError>)
        requires
            old(self)@.wf(),
        ensures
            final(self)@ == old(self)@.removed(id),
            final(self)@.wf(),
            match done {
                Ok(curve) => old(self)@.curves.contains_key(id) && curve == old(self)@.curves[id],
                Err(e) => e == PenError::UnknownId && !old(self)@.curves.contains_key(id),
            },
    {
        proof {
            crate::model::lemma_removed_wf(self@, id);
        }
        let curve = match self.get(id) {
            Some(curve) => curve,
            None => {
                return Err(PenError::UnknownId);
            },
        };
        self.free(CurveIdEdge { id, anchor_edge: AnchorEdge::Start });
        proof {
            lemma_freed_sound(old(self)@.curves, CurveIdEdge { id, anchor_edge: AnchorEdge::Start });
            lemma_groups_sound_kept(
                old(self)@.curves,
                self@.curves,
                old(self)@.groups,
                old(self)@.next_group,
            );
        }
        self.free(CurveIdEdge { id, anchor_edge: AnchorEdge::End });
        proof {
            crate::latch::lemma_detached_sound(old(self)@.curves, id);
            lemma_groups_sound_kept(
                old(self)@.curves,
                self@.curves,
                old(self)@.groups,
                old(self)@.next_group,
            );
            assert(self@ == old(self)@.with_curves(detached(old(self)@.curves, id)));
        }
        match curve.group {
            Some(g) => {
                self.ungroup_raw(g);
            },
            None => {},
        }
        self.take_curve(id);
        Ok(curve)
    }

    /// Applies an action, as the model's `forward` says.
    pub(crate) fn apply_forward(&mut self, action: HistoryAction)
        requires
            old(self)@.wf(),
        ensures
            final(self)@ == old(self)@.forward(action),
            final(self)@.wf(),
    {
        proof {
            crate::model::lemma_forward_wf(self@, action);
        }
        match action {
            HistoryAction::MovedAnchor { bezier_id, anchor, new_position, .. } => {
                let _ = self.move_raw(bezier_id, anchor, new_position);
            },
            HistoryAction::SpawnedCurve { bezier_id, bezier_hist } => {
                self.insert(bezier_id, bezier_hist.positions);
            },
            HistoryAction::DeletedCurve { bezier_id, .. } => {
                let _ = self.remove(bezier_id);
            },
            HistoryAction::Latched { self_id, self_anchor, partner_bezier_id, partner_anchor } => {
                let _ = self.latch_raw(
                    CurveIdEdge { id: self_id, anchor_edge: self_anchor },
                    CurveIdEdge { id: partner_bezier_id, anchor_edge: partner_anchor },
                );
            },
            HistoryAction::Unlatched {
                self_id,
                partner_bezier_id,
                self_anchor,
                partner_anchor,
            } => {
                let _ = self.unlatch_raw(
                    CurveIdEdge { id: self_id, anchor_edge: self_anchor },
                    CurveIdEdge { id: partner_bezier_id, anchor_edge: partner_anchor },
                );
            },
        }
    }

    /// Takes an action back, as the model's `backward` says.
    pub(crate) fn apply_backward(&mut self, action: HistoryAction)
        requires
            old(self)@.wf(),
        ensures
            final(self)@ == old(self)@.backward(action),
            final(self)@.wf(),
    {
        proof {
            crate::model::lemma_backward_wf(self@, action);
        }
        match action {
            HistoryAction::MovedAnchor { bezier_id, anchor, previous_position, .. } => {
                let _ = self.move_raw(bezier_id, anchor, previous_position);
            },
            HistoryAction::SpawnedCurve { bezier_id, .. } => {
                let _ = self.remove(bezier_id);
            },
            HistoryAction::DeletedCurve { bezier, bezier_id } => {
                self.insert(bezier_id, bezier.positions);
            },
            HistoryAction::Latched { self_id, self_anchor, partner_bezier_id, partner_anchor } => {
                let _ = self.unlatch_raw(
                    CurveIdEdge { id: self_id, anchor_edge: self_anchor },
                    CurveIdEdge { id: partner_bezier_id, anchor_edge: partner_anchor },
                );
            },
            HistoryAction::Unlatched {
                self_id,
                partner_bezier_id,
                self_anchor,
                partner_anchor,
            } => {
                let _ = self.latch_raw(
                    CurveIdEdge { id: self_id, anchor_edge: self_anchor },
                    CurveIdEdge { id: partner_bezier_id, anchor_edge: partner_anchor },
                );
            },
        }
    }
}

} // verus!
