//! Undo and redo, the recording of edits, and the history as it is shown to
//! whoever inspects it.

use crate::curve::BezierId;
use crate::error::PenError;
use crate::history::HistoryAction;
use crate::log::History;
use crate::model::{lemma_log_steps_wf, PenView};
use crate::pen::PenTool;
use crate::reach::{lost_group, touches, Changes};
use vstd::prelude::*;
use vstd::std_specs::convert::FromSpecImpl;

verus! {

/// The size of the history and the place of the cursor in it.
#[derive(Debug, Clone, Copy)]
pub struct HistoryLenInspector {
    pub length: usize,
    pub index: i32,
}

impl Default for HistoryLenInspector {
    fn default() -> (shown: Self)
        ensures
            shown.length == 0,
            shown.index == -1,
    {
        Self { length: 0, index: -1 }
    }
}

/// The history as it is shown: of each action its kind and the curves it is
/// about.
#[derive(Debug, Clone)]
pub struct HistoryInspector {
    pub history: Vec<HistoryActionInspector>,
    pub index: i32,
}

impl Default for HistoryInspector {
    fn default() -> (shown: Self)
        ensures
            shown.history@.len() == 0,
            shown.index == -1,
    {
        Self { history: Vec::new(), index: -1 }
    }
}

/// One action as it is shown: its kind and the curves it is about.
#[derive(Debug, Clone, Copy)]
pub enum HistoryActionInspector {
    MovedAnchor { bezier_id: BezierId },
    SpawnedCurve { bezier_id: BezierId },
    DeletedCurve { bezier_id: BezierId },
    Latched { bezier_id1: BezierId, bezier_id2: BezierId },
    Unlatched { self_id: BezierId, partner_bezier_id: BezierId },
    /// No action at all: what an inspector shows before it is told anything.
    NoAction,
}

/// An action as it is shown.
pub open spec fn shown_as(action: HistoryAction) -> HistoryActionInspector {
    match action {
            HistoryAction::MovedAnchor { bezier_id, .. } => HistoryActionInspector::MovedAnchor {
                bezier_id,
            },
            HistoryAction::SpawnedCurve { bezier_id, .. } => HistoryActionInspector::SpawnedCurve {
                bezier_id,
            },
            HistoryAction::DeletedCurve { bezier_id, .. } => HistoryActionInspector::DeletedCurve {
                bezier_id,
            },
            HistoryAction::Latched { self_id, partner_bezier_id, .. } => HistoryActionInspector::Latched {
                bezier_id1: self_id,
                bezier_id2: partner_bezier_id,
            },
            HistoryAction::Unlatched { self_id, partner_bezier_id, .. } => HistoryActionInspector::Unlatched {
                self_id,
                partner_bezier_id,
            },
    }
}

impl FromSpecImpl<HistoryAction> for HistoryActionInspector {
    open spec fn obeys_from_spec() -> bool {
        true
    }

    open spec fn from_spec(action: HistoryAction) -> Self {
        shown_as(action)
    }
}

impl From<HistoryAction> for HistoryActionInspector {
    fn from(action: HistoryAction) -> (shown: Self) {
        match action {
            HistoryAction::MovedAnchor { bezier_id, .. } => HistoryActionInspector::MovedAnchor {
                bezier_id,
            },
            HistoryAction::SpawnedCurve { bezier_id, .. } => HistoryActionInspector::SpawnedCurve {
                bezier_id,
            },
            HistoryAction::DeletedCurve { bezier_id, .. } => HistoryActionInspector::DeletedCurve {
                bezier_id,
            },
            HistoryAction::Latched {
                self_id: bezier_handle_1,
                partner_bezier_id: bezier_handle_2,
                ..
            } => HistoryActionInspector::Latched {
                bezier_id1: bezier_handle_1,
                bezier_id2: bezier_handle_2,
            },
            HistoryAction::Unlatched { self_id, partner_bezier_id, .. } => HistoryActionInspector::Unlatched {
                self_id,
                partner_bezier_id,
            },
        }
    }
}

impl Default for HistoryActionInspector {
    fn default() -> (shown: Self)
        ensures
            shown == HistoryActionInspector::NoAction,
    {
        Self::NoAction
    }
}

impl HistoryInspector {
    /// The history as it is shown: every action in its place, and the same
    /// index.
    pub fn from(history: History) -> (shown: Self)
        ensures
            shown.index == history.index,
            shown.history@ == history.actions@.map_values(
                |action: HistoryAction| shown_as(action),
            ),
    {
        let mut shown: Vec<HistoryActionInspector> = Vec::new();
        let mut i: usize = 0;
        while i < history.actions.len()
            invariant
                0 <= i <= history.actions.len(),
                shown@ == history.actions@.take(i as int).map_values(
                    |action: HistoryAction| shown_as(action),
                ),
            decreases history.actions.len() - i,
        {
            shown.push(HistoryActionInspector::from(history.actions[i]));
            proof {
                assert(history.actions@.take(i + 1).map_values(
                    |action: HistoryAction| shown_as(action),
                ) =~= history.actions@.take(i as int).map_values(
                    |action: HistoryAction| shown_as(action),
                ).push(shown_as(history.actions@[i as int])));
            }
            i = i + 1;
        }
        proof {
            assert(history.actions@.take(history.actions.len() as int) =~= history.actions@);
        }
        Self { history: shown, index: history.index }
    }
}

/// A curve that a redo has to delete again.
#[derive(Clone, Copy, Debug, PartialEq, Eq, Structural)]
pub struct RedoDelete {
    pub bezier_id: BezierId,
}

/// The document after the first `upto` of the curves have been deleted, one
/// after the other. What does not exist when its turn comes is passed over.
pub open spec fn removed_each(v: PenView, targets: Seq<RedoDelete>, upto: int) -> PenView
    decreases upto,
{
    if upto <= 0 {
        v
    } else {
        removed_each(v, targets, upto - 1).removed(targets[upto - 1].bezier_id)
    }
}

/// Those of the first `upto` curves that exist when their turn comes.
pub open spec fn struck(v: PenView, targets: Seq<RedoDelete>, upto: int) -> Seq<BezierId>
    decreases upto,
{
    if upto <= 0 {
        Seq::empty()
    } else {
        let earlier = struck(v, targets, upto - 1);
        let id = targets[upto - 1].bezier_id;
        if removed_each(v, targets, upto - 1).curves.contains_key(id) {
            earlier.push(id)
        } else {
            earlier
        }
    }
}

/// What an undo or a redo has done: the action that it replayed, and what the
/// replay touched.
#[derive(Debug, PartialEq, Eq)]
pub struct Replayed {
    pub action: HistoryAction,
    pub changes: Changes,
}

/// Takes the last applied action back: a moved point goes back to where it
/// was, taking a latched partner along; a created curve is deleted; a deleted
/// curve is created again with its geometry; a latch is removed; a removed
/// latch is put back. The cursor moves down by one. Returns the action and
/// what taking it back touched. Nothing happens at the bottom of the history.
pub fn undo(pen: &mut PenTool) -> (done: Result<Replayed, PenError>)
    requires
        old(pen)@.wf(),
    ensures
        final(pen)@ == old(pen)@.undo(),
        final(pen)@.wf(),
        match done {
            Ok(replayed) => {
                &&& !old(pen)@.at_bottom()
                &&& replayed.action == old(pen)@.history[old(pen)@.cursor]
                &&& replayed.changes.curves@.no_duplicates()
                &&& forall|x: BezierId|
                    replayed.changes.curves@.contains(x) <==> touches(
                        old(pen)@,
                        replayed.action,
                        false,
                        x,
                    )
                &&& replayed.changes.group == lost_group(old(pen)@, replayed.action, false)
            },
            Err(e) => e == PenError::HistoryAtBottom && old(pen)@.at_bottom(),
        },
{
    proof {
        lemma_log_steps_wf(pen@, Seq::empty());
    }
    let applied = pen.applied();
    if applied == 0 {
        return Err(PenError::HistoryAtBottom);
    }
    let action = pen.history_at(applied - 1);
    let changes = pen.reach(action, false);
    pen.apply_backward(action);
    pen.set_applied(applied - 1);
    Ok(Replayed { action, changes })
}

/// Records the actions of one edit: what lay beyond the cursor is dropped
/// once, then the actions are appended in order and the cursor stands on the
/// last. The curves are not touched. Nothing happens for no action.
pub fn add_to_history(pen: &mut PenTool, events: &Vec<HistoryAction>)
    requires
        old(pen)@.wf(),
    ensures
        final(pen)@ == old(pen)@.record_all(events@),
        final(pen)@.wf(),
{
    let ghost before = pen@;
    proof {
        lemma_log_steps_wf(before, events@);
    }
    if events.len() == 0 {
        return ;
    }
    pen.log_cut();
    let ghost kept = before.history.take(before.cursor + 1);
    let mut k: usize = 0;
    while k < events.len()
        invariant
            0 <= k <= events.len(),
            kept.len() == before.cursor + 1,
            pen@ == (PenView {
                history: kept + events@.take(k as int),
                cursor: before.cursor + k,
                ..before
            }),
        decreases events.len() - k,
    {
        pen.log_push(events[k]);
        proof {
            assert((kept + events@.take(k as int)).push(events@[k as int]) =~= kept + events@.take(
                k + 1,
            ));
        }
        k = k + 1;
    }
    proof {
        assert(events@.take(events.len() as int) =~= events@);
    }
}

/// Deletes again, without recording anything, the curves that a redo has
/// named: each with all that a deletion drags along. Returns the curves that
/// were there to delete.
pub fn redo_effects(pen: &mut PenTool, targets: &Vec<RedoDelete>) -> (gone: Vec<BezierId>)
    requires
        old(pen)@.wf(),
    ensures
        final(pen)@ == removed_each(old(pen)@, targets@, targets@.len() as int),
        gone@ == struck(old(pen)@, targets@, targets@.len() as int),
        final(pen)@.wf(),
{
    let ghost before = pen@;
    let mut gone: Vec<BezierId> = Vec::new();
    let mut i: usize = 0;
    while i < targets.len()
        invariant
            0 <= i <= targets.len(),
            pen@ == removed_each(before, targets@, i as int),
            gone@ == struck(before, targets@, i as int),
            pen@.wf(),
        decreases targets.len() - i,
    {
        let id = targets[i].bezier_id;
        match pen.remove(id) {
            Ok(_) => {
                gone.push(id);
            },
            Err(_) => {},
        }
        i = i + 1;
    }
    gone
}

/// Applies the next action of the history again: a moved point goes to
/// where it was moved, taking a latched partner along; a created curve is
/// created again; a deleted curve is deleted again, with all that a deletion
/// drags along and without a new record; a latch is put back; a removed latch
/// is removed again. The cursor moves up by one. Returns the action and what
/// applying it touched. Nothing happens at the top of the history.
pub fn redo(pen: &mut PenTool) -> (done: Result<Replayed, PenError>)
    requires
        old(pen)@.wf(),
    ensures
        final(pen)@ == old(pen)@.redo(),
        final(pen)@.wf(),
        match done {
            Ok(replayed) => {
                &&& !old(pen)@.at_top()
                &&& replayed.action == old(pen)@.history[old(pen)@.cursor + 1]
                &&& replayed.changes.curves@.no_duplicates()
                &&& forall|x: BezierId|
                    replayed.changes.curves@.contains(x) <==> touches(
                        old(pen)@,
                        replayed.action,
                        true,
                        x,
                    )
                &&& replayed.changes.group == lost_group(old(pen)@, replayed.action, true)
            },
            Err(e) => e == PenError::HistoryAtTop && old(pen)@.at_top(),
        },
{
    proof {
        lemma_log_steps_wf(pen@, Seq::empty());
    }
    let index = pen.applied();
    if index >= pen.history_len() {
        return Err(PenError::HistoryAtTop);
    }
    let action = pen.history_at(index);
    let changes = pen.reach(action, true);
    pen.apply_forward(action);
    pen.set_applied(index + 1);
    Ok(Replayed { action, changes })
}

} // verus!
