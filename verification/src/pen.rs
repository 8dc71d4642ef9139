//! The document as it is held in memory, and the few steps by which the rest
//! of the crate reads and changes it.

use crate::curve::{Bezier, BezierId, CurveIdEdge, GroupId};
use crate::history::HistoryAction;
use crate::model::PenView;
use std::collections::HashMap;
use vstd::prelude::*;

verus! {

broadcast use vstd::std_specs::hash::group_hash_axioms;

/// A document: its curves, its groups and its history.
///
/// The fields are private. What a document holds is told by its view, a
/// [`PenView`], and every public operation says what it makes of that view.
pub struct PenTool {
    curves: HashMap<BezierId, Bezier>,
    groups: HashMap<GroupId, Vec<CurveIdEdge>>,
    next_group: GroupId,
    actions: Vec<HistoryAction>,
    /// How many actions of the log are applied: the cursor plus one.
    applied: usize,
}

impl View for PenTool {
    type V = PenView;

    closed spec fn view(&self) -> PenView {
        PenView {
            curves: self.curves@,
            groups: Map::new(
                |g: GroupId| self.groups@.contains_key(g),
                |g: GroupId| self.groups@[g]@,
            ),
            next_group: self.next_group as int,
            history: self.actions@,
            cursor: self.applied as int - 1,
        }
    }
}

impl PenTool {
    /// An empty document.
    pub fn new() -> (pen: PenTool)
        ensures
            pen@ == PenView::empty(),
            pen@.wf(),
    {
        let pen = PenTool {
            curves: HashMap::new(),
            groups: HashMap::new(),
            next_group: 0,
            actions: Vec::new(),
            applied: 0,
        };
        assert(pen@.groups =~= Map::empty());
        pen
    }

    /// The record of a curve.
    pub fn get(&self, id: BezierId) -> (found: Option<Bezier>)
        ensures
            found == (if self@.curves.contains_key(id) {
                Some(self@.curves[id])
            } else {
                None
            }),
    {
        match self.curves.get(&id) {
            Some(curve) => Some(*curve),
            None => None,
        }
    }

    /// Whether a curve of that identity exists.
    pub fn contains(&self, id: BezierId) -> (found: bool)
        ensures
            found == self@.curves.contains_key(id),
    {
        self.curves.contains_key(&id)
    }

    /// How many curves exist.
    pub fn len(&self) -> (count: usize)
        ensures
            count == self@.curves.dom().len(),
    {
        self.curves.len()
    }

    /// Files a record under the identity that it carries.
    pub(crate) fn put_curve(&mut self, curve: Bezier)
        ensures
            final(self)@ == old(self)@.with_curves(old(self)@.curves.insert(curve.id, curve)),
    {
        self.curves.insert(curve.id, curve);
    }

    /// Drops the record of a curve.
    pub(crate) fn take_curve(&mut self, id: BezierId)
        ensures
            final(self)@ == old(self)@.with_curves(old(self)@.curves.remove(id)),
    {
        self.curves.remove(&id);
    }

    /// The members of a group, in chain order.
    pub(crate) fn links(&self, g: GroupId) -> (found: Option<&Vec<CurveIdEdge>>)
        ensures
            match found {
                Some(links) => self@.groups.contains_key(g) && links@ == self@.groups[g],
                None => !self@.groups.contains_key(g),
            },
    {
        self.groups.get(&g)
    }

    /// Files the record of a group.
    pub(crate) fn put_group(&mut self, g: GroupId, links: Vec<CurveIdEdge>)
        ensures
            final(self)@ == (PenView { groups: old(self)@.groups.insert(g, links@), ..old(self)@ }),
    {
        self.groups.insert(g, links);
        assert(self@.groups =~= old(self)@.groups.insert(g, links@));
    }

    /// Drops the record of a group and hands its members out.
    pub(crate) fn take_group(&mut self, g: GroupId) -> (found: Option<Vec<CurveIdEdge>>)
        ensures
            final(self)@ == (PenView { groups: old(self)@.groups.remove(g), ..old(self)@ }),
            match found {
                Some(links) => old(self)@.groups.contains_key(g) && links@ == old(self)@.groups[g],
                None => !old(self)@.groups.contains_key(g),
            },
    {
        let found = self.groups.remove(&g);
        assert(self@.groups =~= old(self)@.groups.remove(g));
        found
    }

    /// Whether the identities for groups have run out.
    pub fn groups_exhausted(&self) -> (none_left: bool)
        ensures
            none_left == (self@.next_group >= u64::MAX),
    {
        self.next_group == u64::MAX
    }

    /// Takes the next identity for a group.
    pub(crate) fn take_group_id(&mut self) -> (g: GroupId)
        requires
            old(self)@.next_group < u64::MAX,
        ensures
            g == old(self)@.next_group,
            final(self)@ == (PenView { next_group: old(self)@.next_group + 1, ..old(self)@ }),
    {
        let g = self.next_group;
        self.next_group = g + 1;
        g
    }

    /// How many actions the history holds.
    pub fn history_len(&self) -> (count: usize)
        ensures
            count == self@.history.len(),
    {
        self.actions.len()
    }

    /// How many actions of the history are applied: the cursor plus one.
    pub fn applied(&self) -> (count: usize)
        ensures
            count == self@.cursor + 1,
    {
        self.applied
    }

    /// One action of the history.
    pub fn history_at(&self, i: usize) -> (action: HistoryAction)
        requires
            i < self@.history.len(),
        ensures
            action == self@.history[i as int],
    {
        self.actions[i]
    }

    /// Moves the cursor, leaving everything else as it is.
    pub(crate) fn set_applied(&mut self, count: usize)
        ensures
            final(self)@ == (PenView { cursor: count - 1, ..old(self)@ }),
    {
        self.applied = count;
    }

    /// Drops what lies beyond the cursor, leaving the cursor where it is.
    pub(crate) fn log_cut(&mut self)
        requires
            old(self)@.cursor < old(self)@.history.len(),
        ensures
            final(self)@ == (PenView {
                history: old(self)@.history.take(old(self)@.cursor + 1),
                ..old(self)@
            }),
    {
        self.actions.truncate(self.applied);
        assert(self.actions@ =~= old(self).actions@.take(old(self).applied as int));
    }

    /// Appends one action to the log and puts the cursor on it.
    pub(crate) fn log_push(&mut self, action: HistoryAction)
        requires
            old(self)@.cursor == old(self)@.history.len() - 1,
        ensures
            final(self)@ == (PenView {
                history: old(self)@.history.push(action),
                cursor: old(self)@.cursor + 1,
                ..old(self)@
            }),
    {
        self.actions.push(action);
        self.applied = self.actions.len();
    }
}

} // verus!
