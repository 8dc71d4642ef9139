//! The whole document as mathematics: curves, groups and the history, and what
//! every edit makes of them.

use crate::curve::AnchorEdge;
use crate::curve::{Bezier, BezierHist, BezierId, CurveIdEdge, GroupId};
use crate::history::HistoryAction;
use crate::latch::{
    detached, entry, half_sound, latch_refusal, latched, latches_sound, lemma_detached_sound,
    lemma_latched_sound, lemma_moved_sound, lemma_unlatched_sound, moved, unlatch_refusal,
    unlatched, Curves,
};
use vstd::prelude::*;

verus! {

/// The groups of a document: for each, its members in chain order, each with
/// the endpoint at which the chain enters it.
pub type Groups = Map<GroupId, Seq<CurveIdEdge>>;

/// The state of a document.
pub struct PenView {
    pub curves: Curves,
    pub groups: Groups,
    /// The identity that the next group will get.
    pub next_group: int,
    pub history: Seq<HistoryAction>,
    /// Index of the last action that is applied; -1 when all are undone.
    pub cursor: int,
}

/// Curve `id` is one of the members listed in `links`.
pub open spec fn listed(links: Seq<CurveIdEdge>, id: BezierId) -> bool {
    exists|i: int| 0 <= i < links.len() && (#[trigger] links[i]).id == id
}

/// No curve is listed twice.
pub open spec fn distinct_ids(links: Seq<CurveIdEdge>) -> bool {
    forall|i: int, j: int|
        0 <= i < links.len() && 0 <= j < links.len() && i != j ==> (#[trigger] links[i]).id != (
        #[trigger] links[j]).id
}

/// The tag of curve `id` names a group that lists it.
pub open spec fn tag_sound(curves: Curves, groups: Groups, id: BezierId) -> bool {
    match curves[id].group {
        Some(g) => groups.contains_key(g) && listed(groups[g], id),
        None => true,
    }
}

/// Member `i` of group `g` exists and carries the tag of `g`.
pub open spec fn member_sound(curves: Curves, groups: Groups, g: GroupId, i: int) -> bool {
    &&& curves.contains_key(groups[g][i].id)
    &&& curves[groups[g][i].id].group == Some(g)
}

/// Tags and group records agree, so that a curve is in at most one group.
pub open spec fn groups_sound(curves: Curves, groups: Groups, next_group: int) -> bool {
    &&& forall|id: BezierId| curves.contains_key(id) ==> #[trigger] tag_sound(curves, groups, id)
    &&& forall|g: GroupId, i: int|
        groups.contains_key(g) && 0 <= i < groups[g].len() ==> #[trigger] member_sound(
            curves,
            groups,
            g,
            i,
        )
    &&& forall|g: GroupId| #[trigger] groups.contains_key(g) ==> g < next_group && distinct_ids(groups[g])
}

/// The curves with the tag of group `g` taken off every curve that wore it.
pub open spec fn untagged(curves: Curves, g: GroupId) -> Curves {
    Map::new(
        |id: BezierId| curves.contains_key(id),
        |id: BezierId|
            if curves[id].group == Some(g) {
                curves[id].with_group(None)
            } else {
                curves[id]
            },
    )
}

impl PenView {
    /// A document without curves, groups or history.
    pub open spec fn empty() -> PenView {
        PenView {
            curves: Map::empty(),
            groups: Map::empty(),
            next_group: 0,
            history: Seq::empty(),
            cursor: -1,
        }
    }

    /// What holds of every document between two edits.
    pub open spec fn wf(self) -> bool {
        &&& self.curves.dom().finite()
        &&& self.groups.dom().finite()
        &&& latches_sound(self.curves)
        &&& groups_sound(self.curves, self.groups, self.next_group)
        &&& 0 <= self.next_group
        &&& -1 <= self.cursor < self.history.len()
    }

    /// The same document with other curves.
    pub open spec fn with_curves(self, curves: Curves) -> PenView {
        PenView { curves, ..self }
    }

    /// The group of a curve, `None` also where the curve is missing.
    pub open spec fn group_of(self, id: BezierId) -> Option<GroupId> {
        if self.curves.contains_key(id) {
            self.curves[id].group
        } else {
            None
        }
    }

    /// The document after group `g` has been dissolved: its record is gone
    /// and no curve wears its tag.
    pub open spec fn ungrouped(self, g: GroupId) -> PenView {
        PenView { curves: untagged(self.curves, g), groups: self.groups.remove(g), ..self }
    }

    /// The document after a curve has been created under `id`. Where the
    /// identity is taken nothing changes.
    pub open spec fn spawned(self, id: BezierId, hist: BezierHist) -> PenView {
        if self.curves.contains_key(id) {
            self
        } else {
            self.with_curves(self.curves.insert(id, Bezier::fresh(id, hist.positions)))
        }
    }

    /// The document after curve `id` has been deleted: its latches are
    /// removed on both sides, its group is dissolved, and the curve is gone.
    /// Where there is no such curve nothing changes.
    pub open spec fn removed(self, id: BezierId) -> PenView {
        if !self.curves.contains_key(id) {
            self
        } else {
            let loose = self.with_curves(detached(self.curves, id));
            let alone = match self.curves[id].group {
                Some(g) => loose.ungrouped(g),
                None => loose,
            };
            alone.with_curves(alone.curves.remove(id))
        }
    }

    /// The document after `action` has been applied. An action that does not
    /// fit the document (a missing curve, an endpoint that is taken) changes
    /// nothing.
    pub open spec fn forward(self, action: HistoryAction) -> PenView {
        match action {
            HistoryAction::MovedAnchor { bezier_id, anchor, new_position, .. } => {
                if self.curves.contains_key(bezier_id) {
                    self.with_curves(moved(self.curves, bezier_id, anchor, new_position))
                } else {
                    self
                }
            },
            HistoryAction::SpawnedCurve { bezier_id, bezier_hist } => self.spawned(
                bezier_id,
                bezier_hist,
            ),
            HistoryAction::DeletedCurve { bezier_id, .. } => self.removed(bezier_id),
            HistoryAction::Latched { .. } => {
                let (a, b) = action.ends().unwrap();
                if latch_refusal(self.curves, a, b).is_none() {
                    self.with_curves(latched(self.curves, a, b))
                } else {
                    self
                }
            },
            HistoryAction::Unlatched { .. } => {
                let (a, b) = action.ends().unwrap();
                if unlatch_refusal(self.curves, a, b).is_none() {
                    self.with_curves(unlatched(self.curves, a, b))
                } else {
                    self
                }
            },
        }
    }

    /// The document after `action` has been taken back. An action that does
    /// not fit the document changes nothing.
    pub open spec fn backward(self, action: HistoryAction) -> PenView {
        match action {
            HistoryAction::MovedAnchor { bezier_id, anchor, previous_position, .. } => {
                if self.curves.contains_key(bezier_id) {
                    self.with_curves(moved(self.curves, bezier_id, anchor, previous_position))
                } else {
                    self
                }
            },
            HistoryAction::SpawnedCurve { bezier_id, .. } => self.removed(bezier_id),
            HistoryAction::DeletedCurve { bezier, bezier_id } => self.spawned(bezier_id, bezier),
            HistoryAction::Latched { .. } => {
                let (a, b) = action.ends().unwrap();
                if unlatch_refusal(self.curves, a, b).is_none() {
                    self.with_curves(unlatched(self.curves, a, b))
                } else {
                    self
                }
            },
            HistoryAction::Unlatched { .. } => {
                let (a, b) = action.ends().unwrap();
                if latch_refusal(self.curves, a, b).is_none() {
                    self.with_curves(latched(self.curves, a, b))
                } else {
                    self
                }
            },
        }
    }

    /// The document after the actions have been applied in order, the
    /// history left as it is.
    pub open spec fn replay(self, actions: Seq<HistoryAction>) -> PenView
        decreases actions.len(),
    {
        if actions.len() == 0 {
            self
        } else {
            self.replay(actions.drop_last()).forward(actions.last())
        }
    }

    /// The history after one action has been recorded: what lay beyond the
    /// cursor is dropped, the action is appended, and the cursor stands on it.
    pub open spec fn record(self, action: HistoryAction) -> PenView {
        PenView {
            history: self.history.take(self.cursor + 1).push(action),
            cursor: self.cursor + 1,
            ..self
        }
    }

    /// The history after the actions of one edit have been recorded: what lay
    /// beyond the cursor is dropped once, the actions are appended in order,
    /// and the cursor stands on the last. Nothing changes for no action.
    pub open spec fn record_all(self, actions: Seq<HistoryAction>) -> PenView {
        if actions.len() == 0 {
            self
        } else {
            PenView {
                history: self.history.take(self.cursor + 1) + actions,
                cursor: self.cursor + actions.len(),
                ..self
            }
        }
    }

    /// The document after one edit: the action applied and recorded.
    pub open spec fn perform(self, action: HistoryAction) -> PenView {
        self.forward(action).record(action)
    }

    /// The document after one edit that is made of several actions: all of
    /// them applied in order, then recorded as one.
    pub open spec fn perform_all(self, actions: Seq<HistoryAction>) -> PenView {
        self.replay(actions).record_all(actions)
    }

    /// Nothing is left to undo.
    pub open spec fn at_bottom(self) -> bool {
        self.cursor == -1
    }

    /// Nothing is left to redo.
    pub open spec fn at_top(self) -> bool {
        self.cursor + 1 > self.history.len() - 1
    }

    /// The document after one step back. Nothing changes at the bottom.
    pub open spec fn undo(self) -> PenView {
        if self.at_bottom() {
            self
        } else {
            PenView { cursor: self.cursor - 1, ..self.backward(self.history[self.cursor]) }
        }
    }

    /// The document after one step forward. Nothing changes at the top.
    pub open spec fn redo(self) -> PenView {
        if self.at_top() {
            self
        } else {
            PenView { cursor: self.cursor + 1, ..self.forward(self.history[self.cursor + 1]) }
        }
    }
}

/// Groups stay sound where no curve appears, disappears or changes its tag.
pub proof fn lemma_groups_sound_kept(
    before: Curves,
    after: Curves,
    groups: Groups,
    next_group: int,
)
    requires
        groups_sound(before, groups, next_group),
        after.dom() == before.dom(),
        forall|id: BezierId| before.contains_key(id) ==> (#[trigger] after[id]).group == before[id].group,
    ensures
        groups_sound(after, groups, next_group),
{
    assert forall|id: BezierId| after.contains_key(id) implies #[trigger] tag_sound(
        after,
        groups,
        id,
    ) by {
        assert(tag_sound(before, groups, id));
    }
    assert forall|g: GroupId, i: int|
        groups.contains_key(g) && 0 <= i < groups[g].len() implies #[trigger] member_sound(
        after,
        groups,
        g,
        i,
    ) by {
        assert(member_sound(before, groups, g, i));
    }
}

/// Dissolving a group keeps the document well formed.
pub proof fn lemma_ungrouped_wf(v: PenView, g: GroupId)
    requires
        v.wf(),
    ensures
        v.ungrouped(g).wf(),
        v.ungrouped(g).curves.dom() == v.curves.dom(),
        forall|id: BezierId|
            v.curves.contains_key(id) ==> (#[trigger] v.ungrouped(g).curves[id]).positions
                == v.curves[id].positions,
        forall|at: CurveIdEdge| #[trigger] entry(v.ungrouped(g).curves, at) == entry(v.curves, at),
        forall|id: BezierId|
            v.curves.contains_key(id) ==> (#[trigger] v.ungrouped(g).curves[id]).group == (if v.curves[id].group
                == Some(g) {
                None
            } else {
                v.curves[id].group
            }),
{
    let after = v.ungrouped(g);
    assert(after.curves.dom() =~= v.curves.dom());
    assert forall|id: BezierId, edge: AnchorEdge| after.curves.contains_key(id) implies #[trigger] half_sound(
        after.curves,
        id,
        edge,
    ) by {
        assert(half_sound(v.curves, id, edge));
    }
    assert forall|id: BezierId| after.curves.contains_key(id) implies #[trigger] tag_sound(
        after.curves,
        after.groups,
        id,
    ) by {
        assert(tag_sound(v.curves, v.groups, id));
    }
    assert forall|h: GroupId, i: int|
        after.groups.contains_key(h) && 0 <= i < after.groups[h].len() implies #[trigger] member_sound(
        after.curves,
        after.groups,
        h,
        i,
    ) by {
        assert(member_sound(v.curves, v.groups, h, i));
    }
}

/// Creating a curve keeps the document well formed.
pub proof fn lemma_spawned_wf(v: PenView, id: BezierId, hist: BezierHist)
    requires
        v.wf(),
    ensures
        v.spawned(id, hist).wf(),
{
    let after = v.spawned(id, hist);
    if !v.curves.contains_key(id) {
        assert forall|other: BezierId, edge: AnchorEdge|
            after.curves.contains_key(other) implies #[trigger] half_sound(
            after.curves,
            other,
            edge,
        ) by {
            if other != id {
                assert(half_sound(v.curves, other, edge));
            }
        }
        assert forall|other: BezierId| after.curves.contains_key(other) implies #[trigger] tag_sound(
            after.curves,
            after.groups,
            other,
        ) by {
            if other != id {
                assert(tag_sound(v.curves, v.groups, other));
            }
        }
        assert forall|g: GroupId, i: int|
            after.groups.contains_key(g) && 0 <= i < after.groups[g].len() implies #[trigger] member_sound(
            after.curves,
            after.groups,
            g,
            i,
        ) by {
            assert(member_sound(v.curves, v.groups, g, i));
        }
    }
}

/// Deleting a curve keeps the document well formed.
pub proof fn lemma_removed_wf(v: PenView, id: BezierId)
    requires
        v.wf(),
    ensures
        v.removed(id).wf(),
        !v.removed(id).curves.contains_key(id),
        v.removed(id).curves.dom() == v.curves.dom().remove(id),
        forall|x: BezierId|
            #[trigger] v.removed(id).curves.contains_key(x) ==> v.removed(id).curves[x].positions
                == v.curves[x].positions,
{
    if !v.curves.contains_key(id) {
        assert(v.curves.dom().remove(id) =~= v.curves.dom());
    }
    if v.curves.contains_key(id) {
        lemma_detached_sound(v.curves, id);
        let loose = v.with_curves(detached(v.curves, id));
        lemma_groups_sound_kept(v.curves, loose.curves, v.groups, v.next_group);
        assert(loose.wf());
        let alone = match v.curves[id].group {
            Some(g) => loose.ungrouped(g),
            None => loose,
        };
        match v.curves[id].group {
            Some(g) => {
                lemma_ungrouped_wf(loose, g);
            },
            None => {},
        }
        assert(alone.wf());
        assert(alone.curves[id].group.is_none());
        assert(entry(alone.curves, CurveIdEdge { id, anchor_edge: AnchorEdge::Start }).is_none());
        assert(entry(alone.curves, CurveIdEdge { id, anchor_edge: AnchorEdge::End }).is_none());
        let after = v.removed(id);
        assert(after.curves == alone.curves.remove(id));
        assert(after.curves.dom() =~= v.curves.dom().remove(id));
        assert forall|other: BezierId, edge: AnchorEdge|
            after.curves.contains_key(other) implies #[trigger] half_sound(
            after.curves,
            other,
            edge,
        ) by {
            assert(half_sound(alone.curves, other, edge));
            match alone.curves[other].latch(edge) {
                Some(half) => {
                    if half.latched_to_id == id {
                        assert(entry(
                            alone.curves,
                            CurveIdEdge { id, anchor_edge: half.partners_edge },
                        ).is_some());
                    }
                },
                None => {},
            }
        }
        assert forall|other: BezierId| after.curves.contains_key(other) implies #[trigger] tag_sound(
            after.curves,
            after.groups,
            other,
        ) by {
            assert(tag_sound(alone.curves, alone.groups, other));
        }
        assert forall|g: GroupId, i: int|
            after.groups.contains_key(g) && 0 <= i < after.groups[g].len() implies #[trigger] member_sound(
            after.curves,
            after.groups,
            g,
            i,
        ) by {
            assert(member_sound(alone.curves, alone.groups, g, i));
        }
    }
}

/// Applying an action keeps the document well formed.
pub proof fn lemma_forward_wf(v: PenView, action: HistoryAction)
    requires
        v.wf(),
    ensures
        v.forward(action).wf(),
        v.forward(action).history == v.history,
        v.forward(action).cursor == v.cursor,
        v.forward(action).next_group == v.next_group,
{
    match action {
        HistoryAction::MovedAnchor { bezier_id, anchor, new_position, .. } => {
            if v.curves.contains_key(bezier_id) {
                lemma_moved_sound(v.curves, bezier_id, anchor, new_position);
                lemma_groups_sound_kept(
                    v.curves,
                    v.forward(action).curves,
                    v.groups,
                    v.next_group,
                );
            }
        },
        HistoryAction::SpawnedCurve { bezier_id, bezier_hist } => {
            lemma_spawned_wf(v, bezier_id, bezier_hist);
        },
        HistoryAction::DeletedCurve { bezier_id, .. } => {
            lemma_removed_wf(v, bezier_id);
        },
        HistoryAction::Latched { .. } => {
            let (a, b) = action.ends().unwrap();
            if latch_refusal(v.curves, a, b).is_none() {
                lemma_latched_sound(v.curves, a, b);
                lemma_groups_sound_kept(
                    v.curves,
                    v.forward(action).curves,
                    v.groups,
                    v.next_group,
                );
            }
        },
        HistoryAction::Unlatched { .. } => {
            let (a, b) = action.ends().unwrap();
            if unlatch_refusal(v.curves, a, b).is_none() {
                lemma_unlatched_sound(v.curves, a, b);
                lemma_groups_sound_kept(
                    v.curves,
                    v.forward(action).curves,
                    v.groups,
                    v.next_group,
                );
            }
        },
    }
}

/// Taking an action back keeps the document well formed.
pub proof fn lemma_backward_wf(v: PenView, action: HistoryAction)
    requires
        v.wf(),
    ensures
        v.backward(action).wf(),
        v.backward(action).history == v.history,
        v.backward(action).cursor == v.cursor,
        v.backward(action).next_group == v.next_group,
{
    match action {
        HistoryAction::MovedAnchor { bezier_id, anchor, previous_position, .. } => {
            if v.curves.contains_key(bezier_id) {
                lemma_moved_sound(v.curves, bezier_id, anchor, previous_position);
                lemma_groups_sound_kept(
                    v.curves,
                    v.backward(action).curves,
                    v.groups,
                    v.next_group,
                );
            }
        },
        HistoryAction::SpawnedCurve { bezier_id, .. } => {
            lemma_removed_wf(v, bezier_id);
        },
        HistoryAction::DeletedCurve { bezier, bezier_id } => {
            lemma_spawned_wf(v, bezier_id, bezier);
        },
        HistoryAction::Latched { .. } => {
            let (a, b) = action.ends().unwrap();
            if unlatch_refusal(v.curves, a, b).is_none() {
                lemma_unlatched_sound(v.curves, a, b);
                lemma_groups_sound_kept(
                    v.curves,
                    v.backward(action).curves,
                    v.groups,
                    v.next_group,
                );
            }
        },
        HistoryAction::Unlatched { .. } => {
            let (a, b) = action.ends().unwrap();
            if latch_refusal(v.curves, a, b).is_none() {
                lemma_latched_sound(v.curves, a, b);
                lemma_groups_sound_kept(
                    v.curves,
                    v.backward(action).curves,
                    v.groups,
                    v.next_group,
                );
            }
        },
    }
}

/// Applying a run of actions keeps the document well formed.
pub proof fn lemma_replay_wf(v: PenView, actions: Seq<HistoryAction>)
    requires
        v.wf(),
    ensures
        v.replay(actions).wf(),
        v.replay(actions).history == v.history,
        v.replay(actions).cursor == v.cursor,
        v.replay(actions).next_group == v.next_group,
    decreases actions.len(),
{
    if actions.len() > 0 {
        lemma_replay_wf(v, actions.drop_last());
        lemma_forward_wf(v.replay(actions.drop_last()), actions.last());
    }
}

/// Recording, undoing and redoing keep the document well formed.
pub proof fn lemma_log_steps_wf(v: PenView, actions: Seq<HistoryAction>)
    requires
        v.wf(),
    ensures
        v.record_all(actions).wf(),
        v.undo().wf(),
        v.redo().wf(),
        actions.len() == 1 ==> v.record(actions[0]) == v.record_all(actions),
{
    if !v.at_bottom() {
        lemma_backward_wf(v, v.history[v.cursor]);
    }
    if !v.at_top() {
        lemma_forward_wf(v, v.history[v.cursor + 1]);
    }
    if actions.len() == 1 {
        assert(v.history.take(v.cursor + 1).push(actions[0]) =~= v.history.take(v.cursor + 1)
            + actions);
    }
}

} // verus!
