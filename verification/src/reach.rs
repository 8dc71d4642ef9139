//! Which curves an action touches when it is applied or taken back, so that
//! whoever draws the document knows what to draw again.

use crate::chain::leads_to;
use crate::curve::{Anchor, AnchorEdge, BezierId, CurveIdEdge, GroupId};
use crate::history::HistoryAction;
use crate::latch::{half_sound, latch_refusal, lemma_detached_sound, unlatch_refusal, Curves};
use crate::lists::push_once;
use crate::model::{listed, member_sound, tag_sound, PenView};
use crate::pen::PenTool;
use vstd::prelude::*;

verus! {

/// What a replay touches: the curves that it may have created, changed or
/// deleted, none of them twice, and the group that it dissolved.
#[derive(Debug, PartialEq, Eq)]
pub struct Changes {
    pub curves: Vec<BezierId>,
    pub group: Option<GroupId>,
}

/// Curve `x` is touched when a point of curve `id` is moved: it is that
/// curve, or the curve whose endpoint is taken along.
pub open spec fn move_touches(curves: Curves, id: BezierId, anchor: Anchor, x: BezierId) -> bool {
    curves.contains_key(id) && (x == id || match anchor.edge() {
        Some(edge) => leads_to(curves, id, edge, x),
        None => false,
    })
}

/// Curve `x` is touched when curve `id` is deleted: it is that curve, or is
/// latched to it, or is in a group with it.
pub open spec fn removal_touches(v: PenView, id: BezierId, x: BezierId) -> bool {
    v.curves.contains_key(id) && (x == id || leads_to(v.curves, id, AnchorEdge::Start, x)
        || leads_to(v.curves, id, AnchorEdge::End, x) || (v.curves[id].group.is_some()
        && v.group_of(x) == v.curves[id].group))
}

/// The replay makes or unmakes the latch that `action` names.
pub open spec fn latch_moves(v: PenView, action: HistoryAction, forwards: bool) -> bool {
    match action.ends() {
        Some((a, b)) => if (action is Latched) == forwards {
            latch_refusal(v.curves, a, b).is_none()
        } else {
            unlatch_refusal(v.curves, a, b).is_none()
        },
        None => false,
    }
}

/// Curve `x` is touched when `action` is applied (`forwards`) or taken back.
pub open spec fn touches(v: PenView, action: HistoryAction, forwards: bool, x: BezierId) -> bool {
    match action {
        HistoryAction::MovedAnchor { bezier_id, anchor, .. } => move_touches(
            v.curves,
            bezier_id,
            anchor,
            x,
        ),
        HistoryAction::SpawnedCurve { bezier_id, .. } => if forwards {
            x == bezier_id && !v.curves.contains_key(bezier_id)
        } else {
            removal_touches(v, bezier_id, x)
        },
        HistoryAction::DeletedCurve { bezier_id, .. } => if forwards {
            removal_touches(v, bezier_id, x)
        } else {
            x == bezier_id && !v.curves.contains_key(bezier_id)
        },
        _ => latch_moves(v, action, forwards) && (x == action.ends().unwrap().0.id || x
            == action.ends().unwrap().1.id),
    }
}

/// The group that is dissolved when `action` is applied (`forwards`) or
/// taken back: the group of the curve that the replay deletes.
pub open spec fn lost_group(v: PenView, action: HistoryAction, forwards: bool) -> Option<GroupId> {
    match action {
        HistoryAction::SpawnedCurve { bezier_id, .. } => if forwards {
            None
        } else {
            v.group_of(bezier_id)
        },
        HistoryAction::DeletedCurve { bezier_id, .. } => if forwards {
            v.group_of(bezier_id)
        } else {
            None
        },
        _ => None,
    }
}

/// The document after `action` has been applied (`forwards`) or taken back.
pub open spec fn replayed(v: PenView, action: HistoryAction, forwards: bool) -> PenView {
    if forwards {
        v.forward(action)
    } else {
        v.backward(action)
    }
}

/// Curve `x` is in both or in neither, and the same in both.
pub open spec fn same_at(before: Curves, after: Curves, x: BezierId) -> bool {
    &&& after.contains_key(x) == before.contains_key(x)
    &&& before.contains_key(x) ==> after[x] == before[x]
}

/// A replay leaves every curve that it does not touch as it is, there or not
/// there, and every group but the one that it dissolves.
pub proof fn law_replay_frame(v: PenView, action: HistoryAction, forwards: bool)
    requires
        v.wf(),
    ensures
        forall|x: BezierId|
            !touches(v, action, forwards, x) ==> #[trigger] same_at(
                v.curves,
                replayed(v, action, forwards).curves,
                x,
            ),
        replayed(v, action, forwards).groups == (match lost_group(v, action, forwards) {
            Some(g) => v.groups.remove(g),
            None => v.groups,
        }),
{
    let after = replayed(v, action, forwards);
    match action {
        HistoryAction::MovedAnchor { bezier_id, anchor, .. } => {},
        HistoryAction::SpawnedCurve { bezier_id, .. } => {
            if !forwards {
                lemma_removal_frame(v, bezier_id);
            }
        },
        HistoryAction::DeletedCurve { bezier_id, .. } => {
            if forwards {
                lemma_removal_frame(v, bezier_id);
            }
        },
        HistoryAction::Latched { .. } => {},
        HistoryAction::Unlatched { .. } => {},
    }
}

/// A deletion leaves every curve that it does not touch as it is, and every
/// group but the one of the deleted curve.
proof fn lemma_removal_frame(v: PenView, id: BezierId)
    requires
        v.wf(),
    ensures
        forall|x: BezierId|
            !removal_touches(v, id, x) ==> #[trigger] same_at(v.curves, v.removed(id).curves, x),
        v.removed(id).groups == (match v.group_of(id) {
            Some(g) => v.groups.remove(g),
            None => v.groups,
        }),
{
    if v.curves.contains_key(id) {
        lemma_detached_sound(v.curves, id);
        assert(half_sound(v.curves, id, AnchorEdge::Start));
        assert(half_sound(v.curves, id, AnchorEdge::End));
        let loose = crate::latch::detached(v.curves, id);
        assert forall|x: BezierId| !removal_touches(v, id, x) && v.curves.contains_key(x) implies loose[x]
            == v.curves[x] by {
            let start = CurveIdEdge { id, anchor_edge: AnchorEdge::Start };
            let end = CurveIdEdge { id, anchor_edge: AnchorEdge::End };
            let half_way = crate::latch::freed(v.curves, start);
            crate::latch::lemma_freed_sound(v.curves, start);
            assert(half_sound(half_way, id, AnchorEdge::End));
            assert(half_way[x] == v.curves[x]);
        }
    }
}

impl PenTool {
    /// The curves that are touched when curve `id` is deleted: the curve, the
    /// curves latched to it and the curves that are in a group with it.
    fn removal_reach(&self, id: BezierId) -> (reach: Vec<BezierId>)
        requires
            self@.wf(),
        ensures
            reach@.no_duplicates(),
            forall|x: BezierId| reach@.contains(x) <==> removal_touches(self@, id, x),
    {
        let mut reach: Vec<BezierId> = Vec::new();
        let curve = match self.get(id) {
            Some(curve) => curve,
            None => {
                return reach;
            },
        };
        push_once(&mut reach, id);
        match curve.latch_start {
            Some(half) => {
                push_once(&mut reach, half.latched_to_id);
            },
            None => {},
        }
        match curve.latch_end {
            Some(half) => {
                push_once(&mut reach, half.latched_to_id);
            },
            None => {},
        }
        match curve.group {
            Some(g) => {
                proof {
                    assert(tag_sound(self@.curves, self@.groups, id));
                }
                let links = self.group_members(g).unwrap();
                let ghost latched = reach@;
                proof {
                    assert forall|x: BezierId| #[trigger]
                        latched.contains(x) <==> (x == id || leads_to(
                            self@.curves,
                            id,
                            AnchorEdge::Start,
                            x,
                        ) || leads_to(self@.curves, id, AnchorEdge::End, x)) by {}
                }
                let mut i: usize = 0;
                while i < links.len()
                    invariant
                        0 <= i <= links.len(),
                        reach@.no_duplicates(),
                        forall|x: BezierId| #[trigger]
                            reach@.contains(x) <==> (latched.contains(x) || listed(
                                links@.take(i as int),
                                x,
                            )),
                    decreases links.len() - i,
                {
                    let ghost before = reach@;
                    push_once(&mut reach, links[i].id);
                    proof {
                        let shorter = links@.take(i as int);
                        let longer = links@.take(i + 1);
                        assert(longer[i as int].id == links@[i as int].id);
                        assert forall|x: BezierId| #[trigger]
                            reach@.contains(x) <==> (latched.contains(x) || listed(longer, x)) by {
                            assert(before.contains(x) <==> (latched.contains(x) || listed(shorter, x)));
                            if listed(shorter, x) {
                                let k = choose|k: int|
                                    0 <= k < shorter.len() && (#[trigger] shorter[k]).id == x;
                                assert(longer[k].id == x);
                            }
                            if listed(longer, x) && x != links@[i as int].id {
                                let k = choose|k: int|
                                    0 <= k < longer.len() && (#[trigger] longer[k]).id == x;
                                assert(shorter[k].id == x);
                            }
                        }
                    }
                    i = i + 1;
                }
                proof {
                    assert(links@.take(links.len() as int) =~= links@);
                    assert forall|x: BezierId| reach@.contains(x) <==> removal_touches(
                        self@,
                        id,
                        x,
                    ) by {
                        assert(reach@.contains(x) <==> (latched.contains(x) || listed(links@, x)));
                        assert(latched.contains(x) <==> (x == id || leads_to(
                            self@.curves,
                            id,
                            AnchorEdge::Start,
                            x,
                        ) || leads_to(self@.curves, id, AnchorEdge::End, x)));
                        if listed(links@, x) {
                            let k = choose|k: int|
                                0 <= k < links@.len() && (#[trigger] links@[k]).id == x;
                            assert(member_sound(self@.curves, self@.groups, g, k));
                            assert(self@.group_of(x) == Some(g));
                        }
                        if self@.group_of(x) == Some(g) {
                            assert(tag_sound(self@.curves, self@.groups, x));
                        }
                    }
                }
            },
            None => {},
        }
        reach
    }

    /// What is touched when `action` is applied (`forwards`) or taken back:
    /// ask before the replay.
    pub fn reach(&self, action: HistoryAction, forwards: bool) -> (changes: Changes)
        requires
            self@.wf(),
        ensures
            changes.curves@.no_duplicates(),
            forall|x: BezierId| changes.curves@.contains(x) <==> touches(self@, action, forwards, x),
            changes.group == lost_group(self@, action, forwards),
    {
        let mut curves: Vec<BezierId> = Vec::new();
        let mut group: Option<GroupId> = None;
        match action {
            HistoryAction::MovedAnchor { bezier_id, anchor, .. } => {
                match self.get(bezier_id) {
                    Some(curve) => {
                        push_once(&mut curves, bezier_id);
                        match anchor.to_edge() {
                            Some(edge) => match curve.get_latch(edge) {
                                Some(half) => {
                                    push_once(&mut curves, half.latched_to_id);
                                },
                                None => {},
                            },
                            None => {},
                        }
                    },
                    None => {},
                }
            },
            HistoryAction::SpawnedCurve { bezier_id, .. } => {
                if forwards {
                    if !self.contains(bezier_id) {
                        push_once(&mut curves, bezier_id);
                    }
                } else {
                    curves = self.removal_reach(bezier_id);
                    group = self.group_of(bezier_id);
                }
            },
            HistoryAction::DeletedCurve { bezier_id, .. } => {
                if forwards {
                    curves = self.removal_reach(bezier_id);
                    group = self.group_of(bezier_id);
                } else {
                    if !self.contains(bezier_id) {
                        push_once(&mut curves, bezier_id);
                    }
                }
            },
            HistoryAction::Latched { self_id, self_anchor, partner_bezier_id, partner_anchor } => {
                let a = CurveIdEdge { id: self_id, anchor_edge: self_anchor };
                let b = CurveIdEdge { id: partner_bezier_id, anchor_edge: partner_anchor };
                let moves = if forwards {
                    self.can_latch(a, b)
                } else {
                    self.can_unlatch(a, b)
                };
                if moves {
                    push_once(&mut curves, self_id);
                    push_once(&mut curves, partner_bezier_id);
                }
            },
            HistoryAction::Unlatched { self_id, partner_bezier_id, self_anchor, partner_anchor } => {
                let a = CurveIdEdge { id: self_id, anchor_edge: self_anchor };
                let b = CurveIdEdge { id: partner_bezier_id, anchor_edge: partner_anchor };
                let moves = if forwards {
                    self.can_unlatch(a, b)
                } else {
                    self.can_latch(a, b)
                };
                if moves {
                    push_once(&mut curves, self_id);
                    push_once(&mut curves, partner_bezier_id);
                }
            },
        }
        Changes { curves, group }
    }
}

} // verus!
