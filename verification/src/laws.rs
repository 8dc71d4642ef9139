//! What holds of every document, stated over the model and proved once.

use crate::curve::{AnchorEdge, Bezier, BezierId, CurveIdEdge};
use crate::history::HistoryAction;
use crate::latch::{
    detached, entry, freed, half_sound, latch_refusal, latched, latches_sound, lemma_latched_sound,
    lemma_moved_sound, lemma_unlatched_sound, moved, unlatch_refusal, unlatched, Curves,
};
use crate::model::{
    lemma_backward_wf, lemma_forward_wf, lemma_removed_wf, lemma_replay_wf, PenView,
};
use vstd::prelude::*;

verus! {

/// Whether curve `id` has one point at `position`, and with it, where that
/// point is a latched endpoint, the endpoint it is latched to.
pub open spec fn rests_at(
    curves: Curves,
    id: BezierId,
    anchor: crate::curve::Anchor,
    position: crate::curve::Point,
) -> bool {
    &&& curves[id].positions.at(anchor) == position
    &&& match anchor.edge() {
        Some(edge) => match curves[id].latch(edge) {
            Some(half) => curves[half.latched_to_id].positions.at(half.partners_edge.anchor())
                == position,
            None => true,
        },
        None => true,
    }
}

/// The document shows the effect of `action`: it is as the action leaves it.
/// For an action that can neither be taken back nor applied to the document,
/// because it names a missing curve or endpoints that are otherwise engaged,
/// there is nothing to show.
pub open spec fn in_effect(v: PenView, action: HistoryAction) -> bool {
    match action {
        HistoryAction::MovedAnchor { bezier_id, anchor, new_position, .. } => {
            !v.curves.contains_key(bezier_id) || rests_at(v.curves, bezier_id, anchor, new_position)
        },
        HistoryAction::SpawnedCurve { bezier_id, bezier_hist } => {
            v.curves.contains_key(bezier_id) && v.curves[bezier_id] == Bezier::fresh(
                bezier_id,
                bezier_hist.positions,
            )
        },
        HistoryAction::DeletedCurve { bezier_id, .. } => !v.curves.contains_key(bezier_id),
        HistoryAction::Latched { .. } => {
            let (a, b) = action.ends().unwrap();
            unlatch_refusal(v.curves, a, b).is_none() || latch_refusal(v.curves, a, b).is_some()
        },
        HistoryAction::Unlatched { .. } => {
            let (a, b) = action.ends().unwrap();
            latch_refusal(v.curves, a, b).is_none() || unlatch_refusal(v.curves, a, b).is_some()
        },
    }
}

/// A curve without latch and group can be deleted and created again, and
/// the other way round, without a trace.
proof fn lemma_fresh_comes_and_goes(v: PenView, id: BezierId, hist: crate::curve::BezierHist)
    requires
        v.wf(),
    ensures
        !v.curves.contains_key(id) ==> v.spawned(id, hist).removed(id) == v,
        v.curves.contains_key(id) && v.curves[id] == Bezier::fresh(id, hist.positions) ==> v.removed(
            id,
        ).spawned(id, hist) == v,
        v.curves.contains_key(id) ==> !v.removed(id).curves.contains_key(id),
{
    if !v.curves.contains_key(id) {
        let u = v.spawned(id, hist);
        assert(detached(u.curves, id) == u.curves);
        assert(u.curves.remove(id) =~= v.curves);
    } else {
        lemma_removed_wf(v, id);
        if v.curves[id] == Bezier::fresh(id, hist.positions) {
            assert(detached(v.curves, id) == v.curves);
            assert(v.curves.remove(id).insert(id, Bezier::fresh(id, hist.positions)) =~= v.curves);
        }
    }
}

/// A latch can be removed and put back, and the other way round, without a
/// trace.
proof fn lemma_latch_comes_and_goes(curves: Curves, a: CurveIdEdge, b: CurveIdEdge)
    requires
        latches_sound(curves),
    ensures
        latch_refusal(curves, a, b).is_none() ==> unlatch_refusal(latched(curves, a, b), a, b).is_none()
            && unlatched(latched(curves, a, b), a, b) == curves,
        unlatch_refusal(curves, a, b).is_none() ==> latch_refusal(unlatched(curves, a, b), a, b).is_none()
            && latched(unlatched(curves, a, b), a, b) == curves,
{
    if latch_refusal(curves, a, b).is_none() {
        lemma_latched_sound(curves, a, b);
        assert(unlatched(latched(curves, a, b), a, b) =~= curves);
    }
    if unlatch_refusal(curves, a, b).is_none() {
        lemma_unlatched_sound(curves, a, b);
        assert(half_sound(curves, a.id, a.anchor_edge));
        assert(latched(unlatched(curves, a, b), a, b) =~= curves);
    }
}

/// Undo followed by redo gives the very same document back (curves with
/// their positions, latches and group tags, the groups, the log and the
/// cursor) exactly when the document shows the effect of the action that is
/// undone.
pub proof fn law_undo_then_redo(v: PenView)
    requires
        v.wf(),
        !v.at_bottom(),
    ensures
        v.undo().redo() == v <==> in_effect(v, v.history[v.cursor]),
        v.undo().redo().cursor == v.cursor,
        v.undo().redo().history == v.history,
{
    let action = v.history[v.cursor];
    let back = v.backward(action);
    lemma_backward_wf(v, action);
    let undone = v.undo();
    assert(undone == PenView { cursor: v.cursor - 1, ..back });
    assert(!undone.at_top());
    assert(undone.history[undone.cursor + 1] == action);
    let again = undone.forward(action);
    lemma_forward_wf(undone, action);
    let redone = undone.redo();
    assert(redone == PenView { cursor: v.cursor, ..again });
    match action {
        HistoryAction::MovedAnchor { bezier_id, anchor, previous_position, new_position } => {
            if v.curves.contains_key(bezier_id) {
                lemma_moved_sound(v.curves, bezier_id, anchor, previous_position);
                match anchor.edge() {
                    Some(edge) => {
                        assert(half_sound(v.curves, bezier_id, edge));
                    },
                    None => {},
                }
                if rests_at(v.curves, bezier_id, anchor, new_position) {
                    assert(redone.curves =~= v.curves);
                } else {
                    assert(rests_at(redone.curves, bezier_id, anchor, new_position));
                }
            }
        },
        HistoryAction::SpawnedCurve { bezier_id, bezier_hist } => {
            lemma_fresh_comes_and_goes(v, bezier_id, bezier_hist);
            if v.curves.contains_key(bezier_id) {
                assert(redone.curves[bezier_id] == Bezier::fresh(bezier_id, bezier_hist.positions));
            } else {
                assert(redone.curves.contains_key(bezier_id));
            }
        },
        HistoryAction::DeletedCurve { bezier, bezier_id } => {
            lemma_fresh_comes_and_goes(v, bezier_id, bezier);
            if v.curves.contains_key(bezier_id) {
                lemma_fresh_comes_and_goes(undone, bezier_id, bezier);
                assert(!redone.curves.contains_key(bezier_id));
            }
        },
        HistoryAction::Latched { .. } => {
            let (a, b) = action.ends().unwrap();
            lemma_latch_comes_and_goes(v.curves, a, b);
            if unlatch_refusal(v.curves, a, b).is_some() && latch_refusal(v.curves, a, b).is_none() {
                lemma_latched_sound(v.curves, a, b);
                assert(entry(redone.curves, a) != entry(v.curves, a));
            }
        },
        HistoryAction::Unlatched { .. } => {
            let (a, b) = action.ends().unwrap();
            lemma_latch_comes_and_goes(v.curves, a, b);
            if latch_refusal(v.curves, a, b).is_some() && unlatch_refusal(v.curves, a, b).is_none() {
                lemma_unlatched_sound(v.curves, a, b);
                assert(entry(redone.curves, a) != entry(v.curves, a));
            }
        },
    }
}

/// The action can be applied to the document and then taken back without a
/// trace: the curve that is created is not there yet; the curve that is
/// deleted is there, with the recorded geometry, no latch and no group; the
/// point that is moved is where the action says it was, and with it the
/// endpoint it is latched to; the endpoints that are latched are free; the
/// endpoints that are unlatched are latched to each other.
pub open spec fn fits(v: PenView, action: HistoryAction) -> bool {
    match action {
        HistoryAction::MovedAnchor { bezier_id, anchor, previous_position, .. } => {
            v.curves.contains_key(bezier_id) && rests_at(
                v.curves,
                bezier_id,
                anchor,
                previous_position,
            )
        },
        HistoryAction::SpawnedCurve { bezier_id, .. } => !v.curves.contains_key(bezier_id),
        HistoryAction::DeletedCurve { bezier, bezier_id } => {
            v.curves.contains_key(bezier_id) && v.curves[bezier_id] == Bezier::fresh(
                bezier_id,
                bezier.positions,
            )
        },
        HistoryAction::Latched { .. } => {
            let (a, b) = action.ends().unwrap();
            latch_refusal(v.curves, a, b).is_none()
        },
        HistoryAction::Unlatched { .. } => {
            let (a, b) = action.ends().unwrap();
            unlatch_refusal(v.curves, a, b).is_none()
        },
    }
}

/// The document after the actions have been performed one after the other,
/// each applied and recorded.
pub open spec fn run(v: PenView, actions: Seq<HistoryAction>) -> PenView
    decreases actions.len(),
{
    if actions.len() == 0 {
        v
    } else {
        run(v, actions.drop_last()).perform(actions.last())
    }
}

/// Each of the actions fits the document that the ones before it leave.
pub open spec fn fits_run(v: PenView, actions: Seq<HistoryAction>) -> bool
    decreases actions.len(),
{
    actions.len() == 0 || (fits_run(v, actions.drop_last()) && fits(
        run(v, actions.drop_last()),
        actions.last(),
    ))
}

/// The document after `n` steps back.
pub open spec fn undo_times(v: PenView, n: nat) -> PenView
    decreases n,
{
    if n == 0 {
        v
    } else {
        undo_times(v.undo(), (n - 1) as nat)
    }
}

/// The two documents are the same up to what lies beyond the cursor.
pub open spec fn agree(x: PenView, y: PenView) -> bool {
    &&& x.curves == y.curves
    &&& x.groups == y.groups
    &&& x.next_group == y.next_group
    &&& x.cursor == y.cursor
    &&& -1 <= x.cursor < x.history.len()
    &&& y.cursor < y.history.len()
    &&& forall|i: int| 0 <= i <= x.cursor ==> x.history[i] == y.history[i]
}

/// An action that fits can be applied and taken back without a trace.
pub proof fn law_taken_back(v: PenView, action: HistoryAction)
    requires
        v.wf(),
        fits(v, action),
    ensures
        v.forward(action).backward(action) == v,
{
    lemma_forward_wf(v, action);
    let there = v.forward(action);
    match action {
        HistoryAction::MovedAnchor { bezier_id, anchor, previous_position, new_position } => {
            lemma_moved_sound(v.curves, bezier_id, anchor, new_position);
            match anchor.edge() {
                Some(edge) => {
                    assert(half_sound(v.curves, bezier_id, edge));
                },
                None => {},
            }
            assert(there.backward(action).curves =~= v.curves);
        },
        HistoryAction::SpawnedCurve { bezier_id, bezier_hist } => {
            lemma_fresh_comes_and_goes(v, bezier_id, bezier_hist);
        },
        HistoryAction::DeletedCurve { bezier, bezier_id } => {
            lemma_fresh_comes_and_goes(v, bezier_id, bezier);
        },
        HistoryAction::Latched { .. } => {
            let (a, b) = action.ends().unwrap();
            lemma_latch_comes_and_goes(v.curves, a, b);
        },
        HistoryAction::Unlatched { .. } => {
            let (a, b) = action.ends().unwrap();
            lemma_latch_comes_and_goes(v.curves, a, b);
        },
    }
}

/// Performing actions keeps the document well formed and leaves the cursor
/// on the last of them.
pub proof fn lemma_run_wf(v: PenView, actions: Seq<HistoryAction>)
    requires
        v.wf(),
    ensures
        run(v, actions).wf(),
        run(v, actions).cursor == v.cursor + actions.len(),
        run(v, actions).next_group == v.next_group,
        run(v, actions).history == v.history.take(v.cursor + 1) + actions || actions.len() == 0,
        run(v, actions).cursor == run(v, actions).history.len() - 1 || actions.len() == 0,
    decreases actions.len(),
{
    if actions.len() > 0 {
        let before = run(v, actions.drop_last());
        lemma_run_wf(v, actions.drop_last());
        lemma_forward_wf(before, actions.last());
        crate::model::lemma_log_steps_wf(before.forward(actions.last()), seq![actions.last()]);
        if actions.len() == 1 {
            assert(actions.drop_last() =~= Seq::empty());
            assert(before == v);
            assert(v.history.take(v.cursor + 1).push(actions.last()) =~= v.history.take(
                v.cursor + 1,
            ) + actions);
        } else {
            let kept = v.history.take(v.cursor + 1);
            assert(before.history == kept + actions.drop_last());
            assert(before.history.take(before.cursor + 1) =~= before.history);
            assert((kept + actions.drop_last()).push(actions.last()) =~= kept + actions);
        }
    }
}

/// One step back leaves two documents that agreed in agreement.
proof fn lemma_undo_agrees(x: PenView, y: PenView)
    requires
        agree(x, y),
    ensures
        agree(x.undo(), y.undo()),
{
    if x.cursor >= 0 {
        let action = x.history[x.cursor];
        assert(y.history[y.cursor] == action);
        assert(x.backward(action).curves == y.backward(action).curves);
        assert(x.backward(action).groups == y.backward(action).groups);
    }
}

proof fn lemma_undo_times_agree(x: PenView, y: PenView, n: nat)
    requires
        agree(x, y),
    ensures
        agree(undo_times(x, n), undo_times(y, n)),
    decreases n,
{
    if n > 0 {
        lemma_undo_agrees(x, y);
        lemma_undo_times_agree(x.undo(), y.undo(), (n - 1) as nat);
    }
}

/// A run of actions that fit, performed and then undone one by one, leaves
/// the curves, the groups and the cursor as they were before the run.
pub proof fn law_undo_reverts_run(v: PenView, actions: Seq<HistoryAction>)
    requires
        v.wf(),
        fits_run(v, actions),
    ensures
        undo_times(run(v, actions), actions.len()).curves == v.curves,
        undo_times(run(v, actions), actions.len()).groups == v.groups,
        undo_times(run(v, actions), actions.len()).cursor == v.cursor,
    decreases actions.len(),
{
    if actions.len() > 0 {
        let init = actions.drop_last();
        let action = actions.last();
        let before = run(v, init);
        lemma_run_wf(v, init);
        law_undo_reverts_run(v, init);
        let there = before.forward(action);
        lemma_forward_wf(before, action);
        law_taken_back(before, action);
        let after = there.record(action);
        assert(after == run(v, actions));
        assert(after.history[after.cursor] == action);
        let undone = after.undo();
        assert(undone.curves == there.backward(action).curves);
        assert(undone.groups == there.backward(action).groups);
        assert(agree(undone, before));
        lemma_undo_times_agree(undone, before, init.len());
    }
}

/// A history that was recorded from the bottom by actions that fit, undone
/// as many times as it is long, leaves the cursor at -1 and every curve and
/// group as it was before the first action.
pub proof fn law_undo_whole_history(v: PenView, actions: Seq<HistoryAction>)
    requires
        v.wf(),
        v.at_bottom(),
        fits_run(v, actions),
    ensures
        run(v, actions).history.len() == actions.len() || actions.len() == 0,
        undo_times(run(v, actions), actions.len()).cursor == -1,
        undo_times(run(v, actions), actions.len()).curves == v.curves,
        undo_times(run(v, actions), actions.len()).groups == v.groups,
{
    lemma_run_wf(v, actions);
    law_undo_reverts_run(v, actions);
}

/// An edit that is made of several actions leaves what the actions leave
/// when they are performed one after the other.
pub proof fn law_batch_is_run(v: PenView, actions: Seq<HistoryAction>)
    requires
        v.wf(),
    ensures
        v.perform_all(actions) == run(v, actions),
    decreases actions.len(),
{
    lemma_run_wf(v, actions);
    lemma_replay_wf(v, actions);
    lemma_run_and_replay(v, actions);
    if actions.len() > 0 {
        assert(v.perform_all(actions).history == run(v, actions).history);
    }
}

/// Performing actions leaves the curves and groups that applying them leaves.
pub proof fn lemma_run_and_replay(v: PenView, actions: Seq<HistoryAction>)
    requires
        v.wf(),
    ensures
        run(v, actions).curves == v.replay(actions).curves,
        run(v, actions).groups == v.replay(actions).groups,
    decreases actions.len(),
{
    if actions.len() > 0 {
        lemma_run_and_replay(v, actions.drop_last());
        let action = actions.last();
        let a = run(v, actions.drop_last());
        let b = v.replay(actions.drop_last());
        assert(a.forward(action).curves == b.forward(action).curves);
        assert(a.forward(action).groups == b.forward(action).groups);
    }
}

/// After an action has been recorded nothing lies beyond the cursor, however
/// much did before: the log is what was applied, then the action, and a redo
/// finds nothing to do.
pub proof fn law_record_cuts_tail(v: PenView, action: HistoryAction)
    requires
        v.wf(),
    ensures
        v.record(action).history == v.history.take(v.cursor + 1).push(action),
        v.record(action).history.len() == v.cursor + 2,
        v.record(action).cursor == v.record(action).history.len() - 1,
        v.record(action).at_top(),
        v.record(action).redo() == v.record(action),
        v.perform(action).at_top(),
        v.perform(action).redo() == v.perform(action),
{
    lemma_forward_wf(v, action);
}

/// After any run of actions every latch entry has its exact mirror, and so
/// it has after every step of the run.
pub proof fn law_latches_stay_mirrored(v: PenView, actions: Seq<HistoryAction>, upto: int)
    requires
        v.wf(),
        0 <= upto <= actions.len(),
    ensures
        latches_sound(run(v, actions.take(upto)).curves),
        latches_sound(v.replay(actions.take(upto)).curves),
{
    lemma_run_wf(v, actions.take(upto));
    lemma_replay_wf(v, actions.take(upto));
}

/// Which edits fit the document they are made on, and so can be undone
/// without a trace: every latch and unlatch that is not refused; every curve
/// created under a free identity; every move of a control point, of a free
/// endpoint, or of a latched endpoint that sits where its partner sits.
pub proof fn law_edits_fit(
    v: PenView,
    a: CurveIdEdge,
    b: CurveIdEdge,
    id: BezierId,
    anchor: crate::curve::Anchor,
    position: crate::curve::Point,
    hist: crate::curve::BezierHist,
)
    requires
        v.wf(),
    ensures
        latch_refusal(v.curves, a, b).is_none() ==> fits(v, HistoryAction::latching(a, b)),
        unlatch_refusal(v.curves, a, b).is_none() ==> fits(v, HistoryAction::unlatching(a, b)),
        !v.curves.contains_key(id) ==> fits(
            v,
            HistoryAction::SpawnedCurve { bezier_id: id, bezier_hist: hist },
        ),
        v.curves.contains_key(id) && rests_at(v.curves, id, anchor, v.curves[id].positions.at(anchor))
            ==> fits(
            v,
            HistoryAction::MovedAnchor {
                bezier_id: id,
                anchor,
                previous_position: v.curves[id].positions.at(anchor),
                new_position: position,
            },
        ),
        v.curves.contains_key(id) && (anchor.edge().is_none() || v.curves[id].latch(
            anchor.edge().unwrap(),
        ).is_none()) ==> rests_at(v.curves, id, anchor, v.curves[id].positions.at(anchor)),
{
}

/// The endpoint under `edge` of curve `id`, if it is latched, sits where its
/// partner sits.
pub open spec fn end_together(curves: Curves, id: BezierId, edge: AnchorEdge) -> bool {
    match curves[id].latch(edge) {
        Some(half) => curves[id].positions.at(edge.anchor()) == curves[half.latched_to_id].positions.at(
            half.partners_edge.anchor(),
        ),
        None => true,
    }
}

/// Every latch pins two endpoints that sit in one place.
pub open spec fn ends_together(curves: Curves) -> bool {
    forall|id: BezierId, edge: AnchorEdge|
        curves.contains_key(id) ==> #[trigger] end_together(curves, id, edge)
}

/// The two endpoints sit in one place.
pub open spec fn in_one_place(curves: Curves, a: CurveIdEdge, b: CurveIdEdge) -> bool {
    curves[a.id].positions.at(a.anchor_edge.anchor()) == curves[b.id].positions.at(
        b.anchor_edge.anchor(),
    )
}

/// Latched endpoints that sit together stay together: through every move,
/// creation, deletion and unlatching, applied or taken back, and through every
/// latching of two endpoints that sit in one place. And where they sit
/// together every point rests where it is, so that every move fits.
pub proof fn law_latched_ends_stay_together(v: PenView, action: HistoryAction, forwards: bool)
    requires
        v.wf(),
        ends_together(v.curves),
        crate::reach::latch_moves(v, action, forwards) && ((action is Latched) == forwards)
            ==> in_one_place(v.curves, action.ends().unwrap().0, action.ends().unwrap().1),
    ensures
        ends_together(crate::reach::replayed(v, action, forwards).curves),
        forall|id: BezierId, anchor: crate::curve::Anchor|
            v.curves.contains_key(id) ==> #[trigger] rests_at(
                v.curves,
                id,
                anchor,
                v.curves[id].positions.at(anchor),
            ),
{
    let after = crate::reach::replayed(v, action, forwards);
    if forwards {
        lemma_forward_wf(v, action);
    } else {
        lemma_backward_wf(v, action);
    }
    assert forall|id: BezierId, anchor: crate::curve::Anchor|
        v.curves.contains_key(id) implies #[trigger] rests_at(
        v.curves,
        id,
        anchor,
        v.curves[id].positions.at(anchor),
    ) by {
        match anchor.edge() {
            Some(edge) => {
                assert(end_together(v.curves, id, edge));
            },
            None => {},
        }
    }
    assert forall|id: BezierId, edge: AnchorEdge| after.curves.contains_key(id) implies #[trigger] end_together(
        after.curves,
        id,
        edge,
    ) by {
        match action {
            HistoryAction::MovedAnchor { bezier_id, anchor, previous_position, new_position } => {
                if v.curves.contains_key(bezier_id) {
                    lemma_moved_sound(
                        v.curves,
                        bezier_id,
                        anchor,
                        if forwards {
                            new_position
                        } else {
                            previous_position
                        },
                    );
                }
                assert(end_together(v.curves, id, edge));
                assert(half_sound(v.curves, id, edge));
                if v.curves.contains_key(bezier_id) {
                    match anchor.edge() {
                        Some(moved_edge) => {
                            assert(half_sound(v.curves, bezier_id, moved_edge));
                            assert(end_together(v.curves, bezier_id, moved_edge));
                        },
                        None => {},
                    }
                }
            },
            HistoryAction::SpawnedCurve { bezier_id, .. } => {
                if forwards {
                    if id != bezier_id {
                        assert(end_together(v.curves, id, edge));
                        assert(half_sound(v.curves, id, edge));
                    }
                } else {
                    lemma_removed_together(v, bezier_id, id, edge);
                }
            },
            HistoryAction::DeletedCurve { bezier_id, .. } => {
                if forwards {
                    lemma_removed_together(v, bezier_id, id, edge);
                } else {
                    if id != bezier_id {
                        assert(end_together(v.curves, id, edge));
                        assert(half_sound(v.curves, id, edge));
                    }
                }
            },
            _ => {
                let (a, b) = action.ends().unwrap();
                if crate::reach::latch_moves(v, action, forwards) {
                    if (action is Latched) == forwards {
                        lemma_latched_sound(v.curves, a, b);
                    } else {
                        lemma_unlatched_sound(v.curves, a, b);
                    }
                }
                assert(end_together(v.curves, id, edge));
                assert(half_sound(v.curves, id, edge));
            },
        }
    }
}

/// A deletion leaves the latched endpoints that sat together together.
proof fn lemma_removed_together(v: PenView, gone: BezierId, id: BezierId, edge: AnchorEdge)
    requires
        v.wf(),
        ends_together(v.curves),
        v.removed(gone).curves.contains_key(id),
    ensures
        end_together(v.removed(gone).curves, id, edge),
{
    let after = v.removed(gone);
    lemma_removed_wf(v, gone);
    assert(v.curves.dom().remove(gone).contains(id));
    assert(end_together(v.curves, id, edge));
    assert(half_sound(v.curves, id, edge));
    if v.curves.contains_key(gone) {
        crate::latch::lemma_detached_sound(v.curves, gone);
        let loose = detached(v.curves, gone);
        let start = CurveIdEdge { id: gone, anchor_edge: AnchorEdge::Start };
        let half_way = freed(v.curves, start);
        crate::latch::lemma_freed_sound(v.curves, start);
        crate::latch::lemma_freed_sound(half_way, CurveIdEdge { id: gone, anchor_edge: AnchorEdge::End });
        assert(after.curves[id].positions == v.curves[id].positions);
        assert(half_sound(after.curves, id, edge));
        match after.curves[id].latch(edge) {
            Some(half) => {
                assert(after.curves[id].latch(edge) == v.curves[id].latch(edge)) by {
                    lemma_freed_keeps_or_clears(v.curves, start, CurveIdEdge { id, anchor_edge: edge });
                    lemma_freed_keeps_or_clears(
                        half_way,
                        CurveIdEdge { id: gone, anchor_edge: AnchorEdge::End },
                        CurveIdEdge { id, anchor_edge: edge },
                    );
                }
                assert(after.curves[half.latched_to_id].positions
                    == v.curves[half.latched_to_id].positions);
            },
            None => {},
        }
    }
}

/// Setting an endpoint free leaves every entry as it is or clears it.
proof fn lemma_freed_keeps_or_clears(curves: Curves, at: CurveIdEdge, other: CurveIdEdge)
    requires
        latches_sound(curves),
    ensures
        entry(freed(curves, at), other) == entry(curves, other) || entry(freed(curves, at), other).is_none(),
{
    match entry(curves, at) {
        Some(half) => {
            assert(half_sound(curves, at.id, at.anchor_edge));
        },
        None => {},
    }
}

} // verus!
