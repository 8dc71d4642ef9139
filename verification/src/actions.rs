//! What the pen tool does with the intents of its user: latching, grouping,
//! ungrouping and deleting, and the orders it gives when something moves.

use crate::chain::{component, leads_to};
use crate::curve::{
    Anchor, AnchorEdge, Bezier, BezierId, CurveIdEdge, GroupId, LatchData, Point,
};
use crate::deletion::{all_known, deletion_records};
use crate::error::PenError;
use crate::group_laws::group_is_chain;
use crate::grouping::{chain_order, group_refusal, grouped, one_chain};
use crate::history::HistoryAction;
use crate::latch::{latch_refusal, Curves};
use crate::lists::push_once;
use crate::model::{lemma_groups_sound_kept, PenView};
use crate::outcome::{after_deletion, deletion_touches, law_deletion_outcome, loses_member};
use crate::pen::PenTool;
use crate::reach::removal_touches;
use crate::undo::add_to_history;
use vstd::prelude::*;

verus! {

/// A latch that has been agreed on: the half that curve `bezier_id` is to
/// hold.
#[derive(Clone, Copy, Debug, PartialEq, Eq, Structural)]
pub struct OfficialLatch {
    pub latch: LatchData,
    pub bezier_id: BezierId,
}

/// A group as it is handed out: its identity and its members in chain order,
/// each with the endpoint at which the chain enters it.
#[derive(Debug, PartialEq, Eq)]
pub struct Group {
    pub group_id: GroupId,
    pub lut: Vec<CurveIdEdge>,
}

impl OfficialLatch {
    /// The endpoint that holds the half.
    pub open spec fn holder(self) -> CurveIdEdge {
        CurveIdEdge { id: self.bezier_id, anchor_edge: self.latch.self_edge }
    }

    /// The endpoint that the half points at.
    pub open spec fn partner(self) -> CurveIdEdge {
        self.latch.partner()
    }

    /// What comes of making the latch official on the given curves.
    pub open spec fn verdict(self, curves: Curves) -> Result<HistoryAction, PenError> {
        match latch_refusal(curves, self.holder(), self.partner()) {
            Some(e) => Err(e),
            None => Ok(HistoryAction::latching(self.holder(), self.partner())),
        }
    }
}

/// The document after the first `upto` latches have been made official, one
/// after the other, each recorded; a latch that is refused changes nothing.
pub open spec fn officiated(v: PenView, latches: Seq<OfficialLatch>, upto: int) -> PenView
    decreases upto,
{
    if upto <= 0 {
        v
    } else {
        let earlier = officiated(v, latches, upto - 1);
        match latches[upto - 1].verdict(earlier.curves) {
            Ok(action) => earlier.perform(action),
            Err(_) => earlier,
        }
    }
}

/// Why the curves `selection` cannot be taken out of group `g`, or `None` if
/// they can.
pub open spec fn ungroup_refusal(v: PenView, selection: Seq<BezierId>, g: GroupId) -> Option<
    PenError,
> {
    if !all_known(v.curves, selection) {
        Some(PenError::UnknownId)
    } else if selection.len() == 0 {
        Some(PenError::NotFullyConnected)
    } else if in_other_group(v.curves, selection, g) {
        Some(PenError::AlreadyGrouped)
    } else if !one_chain(v.curves, selection) {
        Some(PenError::NotFullyConnected)
    } else if !v.groups.contains_key(g) {
        Some(PenError::UnknownId)
    } else {
        None
    }
}

/// One of the curves carries the tag of a group other than `g`.
pub open spec fn in_other_group(curves: Curves, selection: Seq<BezierId>, g: GroupId) -> bool {
    exists|i: int|
        0 <= i < selection.len() && (#[trigger] curves[selection[i]]).group.is_some()
            && curves[selection[i]].group != Some(g)
}

/// Makes the latches official, in order: each installs both its halves at
/// once and is recorded. A latch that names a missing curve or an endpoint that
/// is taken is refused and changes nothing. Returns what came of each.
pub fn officiate_latch_partnership(pen: &mut PenTool, latches: &Vec<OfficialLatch>) -> (done: Vec<
    Result<HistoryAction, PenError>,
>)
    requires
        old(pen)@.wf(),
    ensures
        final(pen)@.wf(),
        final(pen)@ == officiated(old(pen)@, latches@, latches@.len() as int),
        done@.len() == latches@.len(),
        forall|i: int|
            0 <= i < latches@.len() ==> #[trigger] done@[i] == latches@[i].verdict(
                officiated(old(pen)@, latches@, i).curves,
            ),
{
    let ghost before = pen@;
    let mut done: Vec<Result<HistoryAction, PenError>> = Vec::new();
    let mut i: usize = 0;
    while i < latches.len()
        invariant
            0 <= i <= latches.len(),
            pen@.wf(),
            pen@ == officiated(before, latches@, i as int),
            done@.len() == i,
            forall|k: int|
                0 <= k < i ==> #[trigger] done@[k] == latches@[k].verdict(
                    officiated(before, latches@, k).curves,
                ),
        decreases latches.len() - i,
    {
        let official = latches[i];
        let a = CurveIdEdge { id: official.bezier_id, anchor_edge: official.latch.self_edge };
        let b = CurveIdEdge {
            id: official.latch.latched_to_id,
            anchor_edge: official.latch.partners_edge,
        };
        let outcome = pen.latch(a, b);
        done.push(outcome);
        i = i + 1;
    }
    done
}

/// Proposes a latch between the endpoint that is being dragged and the
/// endpoint that it came close to. Where both exist and are free, the dragged
/// endpoint jumps onto the other and the half that its curve is to hold is
/// returned; the latch itself is not installed yet, and nothing is recorded.
/// Otherwise nothing changes.
pub fn latchy(pen: &mut PenTool, mover: CurveIdEdge, partner: Option<CurveIdEdge>) -> (proposal:
    Option<OfficialLatch>)
    requires
        old(pen)@.wf(),
    ensures
        final(pen)@.wf(),
        match proposal {
            Some(official) => {
                &&& partner.is_some()
                &&& latch_refusal(old(pen)@.curves, mover, partner.unwrap()).is_none()
                &&& official == (OfficialLatch {
                    latch: mover.half_towards(partner.unwrap()),
                    bezier_id: mover.id,
                })
                &&& final(pen)@ == old(pen)@.with_curves(
                    old(pen)@.curves.insert(
                        mover.id,
                        old(pen)@.curves[mover.id].with_position(
                            mover.anchor_edge.anchor(),
                            old(pen)@.curves[partner.unwrap().id].positions.at(
                                partner.unwrap().anchor_edge.anchor(),
                            ),
                        ),
                    ),
                )
            },
            None => {
                &&& partner.is_none() || latch_refusal(
                    old(pen)@.curves,
                    mover,
                    partner.unwrap(),
                ).is_some()
                &&& final(pen)@ == old(pen)@
            },
        },
{
    let other = match partner {
        Some(other) => other,
        None => {
            return None;
        },
    };
    let mut moving = match pen.get(mover.id) {
        Some(curve) => curve,
        None => {
            return None;
        },
    };
    let still = match pen.get(other.id) {
        Some(curve) => curve,
        None => {
            return None;
        },
    };
    if mover == other || moving.quad_is_latched(mover.anchor_edge) || still.quad_is_latched(
        other.anchor_edge,
    ) {
        return None;
    }
    let target = still.get_position(other.anchor_edge.to_anchor());
    moving.set_position(mover.anchor_edge.to_anchor(), target);
    pen.put_curve(moving);
    proof {
        let before = old(pen)@;
        let after = pen@;
        assert(after.curves.dom() =~= before.curves.dom());
        assert forall|id: BezierId, edge: AnchorEdge| after.curves.contains_key(id) implies #[trigger] crate::latch::half_sound(
            after.curves,
            id,
            edge,
        ) by {
            assert(crate::latch::half_sound(before.curves, id, edge));
        }
        lemma_groups_sound_kept(before.curves, after.curves, before.groups, before.next_group);
    }
    Some(
        OfficialLatch {
            latch: LatchData {
                latched_to_id: other.id,
                self_edge: mover.anchor_edge,
                partners_edge: other.anchor_edge,
            },
            bezier_id: mover.id,
        },
    )
}

/// Groups the selected curves into one compound shape. They must be exactly
/// one chain and in no group yet. Returns the new group, with its members in
/// chain order; `None`, with nothing changed, when no identity is left to give
/// to a group.
pub fn groupy(pen: &mut PenTool, selection: &Vec<BezierId>) -> (done: Option<
    Result<Group, PenError>,
>)
    requires
        old(pen)@.wf(),
    ensures
        final(pen)@.wf(),
        match done {
            Some(Ok(group)) => {
                &&& old(pen)@.next_group < u64::MAX
                &&& group_refusal(old(pen)@.curves, selection@).is_none()
                &&& group.group_id == old(pen)@.next_group
                &&& chain_order(old(pen)@.curves, selection@, group.lut@)
                &&& final(pen)@ == grouped(old(pen)@, group.lut@)
                &&& group_is_chain(final(pen)@, group.group_id)
            },
            Some(Err(e)) => {
                &&& old(pen)@.next_group < u64::MAX
                &&& group_refusal(old(pen)@.curves, selection@) == Some(e)
                &&& final(pen)@ == old(pen)@
            },
            None => old(pen)@.next_group >= u64::MAX && final(pen)@ == old(pen)@,
        },
{
    if pen.groups_exhausted() {
        return None;
    }
    match pen.form_group(selection) {
        Ok(group_id) => {
            let lut = pen.group_members(group_id).unwrap();
            Some(Ok(Group { group_id, lut }))
        },
        Err(e) => Some(Err(e)),
    }
}

/// Whether one of the curves, all of which exist, is in a group other than
/// `g`.
fn is_in_other_group(pen: &PenTool, selection: &Vec<BezierId>, g: GroupId) -> (some: bool)
    requires
        all_known(pen@.curves, selection@),
    ensures
        some == in_other_group(pen@.curves, selection@, g),
{
    let mut i: usize = 0;
    while i < selection.len()
        invariant
            0 <= i <= selection.len(),
            all_known(pen@.curves, selection@),
            forall|j: int|
                0 <= j < i ==> !((#[trigger] pen@.curves[selection@[j]]).group.is_some()
                    && pen@.curves[selection@[j]].group != Some(g)),
        decreases selection.len() - i,
    {
        let curve = pen.get(selection[i]).unwrap();
        match curve.group {
            Some(h) => {
                if h != g {
                    assert(pen@.curves[selection@[i as int]].group.is_some());
                    return true;
                }
            },
            None => {},
        }
        i = i + 1;
    }
    false
}

/// Dissolves group `group_id`, for which the curves `selection` were
/// selected. The selection must be one whole chain, and none of it may belong
/// to another group. Returns the members that are set free, in chain order.
pub fn ungroup(pen: &mut PenTool, selection: &Vec<BezierId>, group_id: GroupId) -> (done: Result<
    Vec<BezierId>,
    PenError,
>)
    requires
        old(pen)@.wf(),
    ensures
        final(pen)@.wf(),
        match done {
            Ok(members) => {
                &&& ungroup_refusal(old(pen)@, selection@, group_id).is_none()
                &&& members@ == old(pen)@.groups[group_id].map_values(|link: CurveIdEdge| link.id)
                &&& final(pen)@ == old(pen)@.ungrouped(group_id)
            },
            Err(e) => {
                &&& ungroup_refusal(old(pen)@, selection@, group_id) == Some(e)
                &&& final(pen)@ == old(pen)@
            },
        },
{
    if !pen.knows_all(selection) {
        return Err(PenError::UnknownId);
    }
    if selection.len() == 0 {
        return Err(PenError::NotFullyConnected);
    }
    if is_in_other_group(pen, selection, group_id) {
        return Err(PenError::AlreadyGrouped);
    }
    if !pen.is_one_chain(selection) {
        return Err(PenError::NotFullyConnected);
    }
    pen.dissolve_group(group_id)
}

/// What comes of a deletion.
#[derive(Debug, PartialEq, Eq)]
pub struct Deleted {
    /// What the deletion writes to the history, in order.
    pub records: Vec<HistoryAction>,
    /// The curves that were deleted or changed, none of them twice.
    pub curves: Vec<BezierId>,
    /// The groups that were dissolved, none of them twice.
    pub groups: Vec<GroupId>,
}

/// The curves that the deletion of `ids` touches and the groups that it
/// dissolves.
fn deletion_reach(pen: &PenTool, ids: &Vec<BezierId>) -> (reach: (Vec<BezierId>, Vec<GroupId>))
    requires
        pen@.wf(),
    ensures
        reach.0@.no_duplicates(),
        reach.1@.no_duplicates(),
        forall|x: BezierId| reach.0@.contains(x) <==> deletion_touches(pen@, ids@, ids@.len() as int, x),
        forall|g: GroupId| reach.1@.contains(g) <==> loses_member(pen@.curves, ids@, g),
{
    let mut curves: Vec<BezierId> = Vec::new();
    let mut groups: Vec<GroupId> = Vec::new();
    let mut i: usize = 0;
    while i < ids.len()
        invariant
            0 <= i <= ids.len(),
            pen@.wf(),
            curves@.no_duplicates(),
            groups@.no_duplicates(),
            forall|x: BezierId| #[trigger] curves@.contains(x) <==> deletion_touches(pen@, ids@, i as int, x),
            forall|g: GroupId| #[trigger] groups@.contains(g) <==> loses_member(pen@.curves, ids@.take(i as int), g),
        decreases ids.len() - i,
    {
        let ghost curves_before = curves@;
        let ghost groups_before = groups@;
        let one = pen.reach(
            HistoryAction::DeletedCurve {
                bezier: crate::curve::BezierHist { positions: crate::curve::BezierPositions::zero() },
                bezier_id: ids[i],
            },
            true,
        );
        let mut k: usize = 0;
        while k < one.curves.len()
            invariant
                0 <= k <= one.curves.len(),
                curves@.no_duplicates(),
                forall|x: BezierId| #[trigger]
                    curves@.contains(x) <==> (curves_before.contains(x) || one.curves@.take(
                        k as int,
                    ).contains(x)),
            decreases one.curves.len() - k,
        {
            let ghost so_far = curves@;
            push_once(&mut curves, one.curves[k]);
            proof {
                let shorter = one.curves@.take(k as int);
                let longer = one.curves@.take(k + 1);
                assert(longer[k as int] == one.curves@[k as int]);
                assert forall|x: BezierId| #[trigger]
                    curves@.contains(x) <==> (curves_before.contains(x) || longer.contains(x)) by {
                    assert(so_far.contains(x) <==> (curves_before.contains(x) || shorter.contains(x)));
                    if shorter.contains(x) {
                        let j = choose|j: int| 0 <= j < shorter.len() && shorter[j] == x;
                        assert(longer[j] == x);
                    }
                    if longer.contains(x) && x != one.curves@[k as int] {
                        let j = choose|j: int| 0 <= j < longer.len() && longer[j] == x;
                        assert(shorter[j] == x);
                    }
                }
            }
            k = k + 1;
        }
        match one.group {
            Some(g) => {
                push_once(&mut groups, g);
            },
            None => {},
        }
        proof {
            assert(one.curves@.take(one.curves.len() as int) =~= one.curves@);
            let here = ids@[i as int];
            assert forall|x: BezierId| #[trigger]
                curves@.contains(x) <==> deletion_touches(pen@, ids@, i + 1, x) by {
                assert(curves_before.contains(x) <==> deletion_touches(pen@, ids@, i as int, x));
                assert(one.curves@.contains(x) <==> removal_touches(pen@, here, x));
                if deletion_touches(pen@, ids@, i as int, x) {
                    let j = choose|j: int| 0 <= j < i && removal_touches(pen@, #[trigger] ids@[j], x);
                    assert(0 <= j < i + 1 && removal_touches(pen@, ids@[j], x));
                }
                if removal_touches(pen@, here, x) {
                    assert(0 <= i < i + 1 && removal_touches(pen@, ids@[i as int], x));
                }
                if deletion_touches(pen@, ids@, i + 1, x) {
                    let j = choose|j: int|
                        0 <= j < i + 1 && removal_touches(pen@, #[trigger] ids@[j], x);
                    if j < i {
                        assert(deletion_touches(pen@, ids@, i as int, x));
                    }
                }
            }
            let shorter = ids@.take(i as int);
            let longer = ids@.take(i + 1);
            assert forall|g: GroupId| #[trigger]
                groups@.contains(g) <==> loses_member(pen@.curves, longer, g) by {
                assert(groups_before.contains(g) <==> loses_member(pen@.curves, shorter, g));
                if loses_member(pen@.curves, shorter, g) {
                    let j = choose|j: int|
                        0 <= j < shorter.len() && pen@.curves.contains_key(#[trigger] shorter[j])
                            && pen@.curves[shorter[j]].group == Some(g);
                    assert(longer[j] == shorter[j]);
                }
                if pen@.group_of(here) == Some(g) {
                    assert(longer[i as int] == here);
                }
                if loses_member(pen@.curves, longer, g) {
                    let j = choose|j: int|
                        0 <= j < longer.len() && pen@.curves.contains_key(#[trigger] longer[j])
                            && pen@.curves[longer[j]].group == Some(g);
                    if j < i {
                        assert(shorter[j] == longer[j]);
                    }
                }
            }
        }
        i = i + 1;
    }
    proof {
        assert(ids@.take(ids.len() as int) =~= ids@);
    }
    (curves, groups)
}

/// Deletes the selected curves in one edit. For every latch that one of them
/// holds the partner is set free and one unlatch is noted, however many of
/// its ends are deleted; then the curves go, each with a note of its own. A
/// group that loses a member is dissolved. The notes are recorded in that
/// order, unless the deletion replays a redo, and returned in any case, with
/// the curves that the deletion touched and the groups that it dissolved.
/// Nothing happens if one of the curves does not exist.
///
/// What is left is told twice: as the notes applied one after the other, which
/// is what an undo takes back step by step, and directly.
pub fn delete(pen: &mut PenTool, selection: &Vec<BezierId>, is_from_redo: bool) -> (done: Result<
    Deleted,
    PenError,
>)
    requires
        old(pen)@.wf(),
    ensures
        final(pen)@.wf(),
        match done {
            Ok(deleted) => {
                &&& all_known(old(pen)@.curves, selection@)
                &&& deleted.records@ == deletion_records(old(pen)@.curves, selection@)
                &&& final(pen)@ == (if is_from_redo {
                    old(pen)@.replay(deleted.records@)
                } else {
                    old(pen)@.perform_all(deleted.records@)
                })
                &&& final(pen)@.curves == after_deletion(old(pen)@, selection@).curves
                &&& final(pen)@.groups == after_deletion(old(pen)@, selection@).groups
                &&& deleted.curves@.no_duplicates()
                &&& deleted.groups@.no_duplicates()
                &&& forall|x: BezierId|
                    deleted.curves@.contains(x) <==> deletion_touches(
                        old(pen)@,
                        selection@,
                        selection@.len() as int,
                        x,
                    )
                &&& forall|g: GroupId|
                    deleted.groups@.contains(g) <==> loses_member(old(pen)@.curves, selection@, g)
            },
            Err(e) => {
                &&& e == PenError::UnknownId
                &&& !all_known(old(pen)@.curves, selection@)
                &&& final(pen)@ == old(pen)@
            },
        },
{
    let records = match pen.plan_deletion(selection) {
        Some(records) => records,
        None => {
            return Err(PenError::UnknownId);
        },
    };
    let (curves, groups) = deletion_reach(pen, selection);
    proof {
        law_deletion_outcome(pen@, selection@);
    }
    pen.replay(&records);
    if !is_from_redo {
        add_to_history(pen, &records);
    }
    Ok(Deleted { records, curves, groups })
}

/// What is to be recomputed after curves have moved: the sample tables of
/// these curves and the aggregate tables of these groups.
#[derive(Debug, PartialEq, Eq)]
pub struct LutUpdate {
    pub curves: Vec<BezierId>,
    pub groups: Vec<GroupId>,
}

/// Among the first `upto` of the moved curves one exists and is curve `id`
/// or is latched to it.
pub open spec fn wants_lut(curves: Curves, moving: Seq<BezierId>, upto: int, id: BezierId) -> bool {
    exists|i: int|
        0 <= i < upto && curves.contains_key(#[trigger] moving[i]) && (moving[i] == id || leads_to(
            curves,
            moving[i],
            AnchorEdge::Start,
            id,
        ) || leads_to(curves, moving[i], AnchorEdge::End, id))
}

/// Among the first `upto` of the moved curves one belongs to group `g`.
pub open spec fn wants_group_lut(v: PenView, moving: Seq<BezierId>, upto: int, g: GroupId) -> bool {
    exists|i: int| 0 <= i < upto && #[trigger] v.group_of(moving[i]) == Some(g)
}

/// Says what has to be recomputed after the curves `moving` have moved:
/// the table of each of them that exists, the table of every curve that one
/// of them is latched to, and the aggregate table of every group that one of
/// them belongs to. Nothing is named twice.
pub fn update_lut(pen: &PenTool, moving: &Vec<BezierId>) -> (update: LutUpdate)
    requires
        pen@.wf(),
    ensures
        update.curves@.no_duplicates(),
        update.groups@.no_duplicates(),
        forall|id: BezierId|
            update.curves@.contains(id) <==> wants_lut(pen@.curves, moving@, moving@.len() as int, id),
        forall|g: GroupId|
            update.groups@.contains(g) <==> wants_group_lut(pen@, moving@, moving@.len() as int, g),
{
    let mut curves: Vec<BezierId> = Vec::new();
    let mut groups: Vec<GroupId> = Vec::new();
    let mut i: usize = 0;
    while i < moving.len()
        invariant
            0 <= i <= moving.len(),
            curves@.no_duplicates(),
            groups@.no_duplicates(),
            forall|id: BezierId| curves@.contains(id) <==> wants_lut(pen@.curves, moving@, i as int, id),
            forall|g: GroupId| groups@.contains(g) <==> wants_group_lut(pen@, moving@, i as int, g),
        decreases moving.len() - i,
    {
        let ghost curves_before = curves@;
        let ghost groups_before = groups@;
        match pen.get(moving[i]) {
            Some(curve) => {
                push_once(&mut curves, moving[i]);
                match curve.latch_start {
                    Some(half) => {
                        push_once(&mut curves, half.latched_to_id);
                    },
                    None => {},
                }
                match curve.latch_end {
                    Some(half) => {
                        push_once(&mut curves, half.latched_to_id);
                    },
                    None => {},
                }
                match curve.group {
                    Some(g) => {
                        push_once(&mut groups, g);
                    },
                    None => {},
                }
            },
            None => {},
        }
        proof {
            let here = moving@[i as int];
            assert forall|id: BezierId| curves@.contains(id) <==> wants_lut(
                pen@.curves,
                moving@,
                i + 1,
                id,
            ) by {
                let by_here = pen@.curves.contains_key(here) && (here == id || leads_to(
                    pen@.curves,
                    here,
                    AnchorEdge::Start,
                    id,
                ) || leads_to(pen@.curves, here, AnchorEdge::End, id));
                assert(curves@.contains(id) <==> (curves_before.contains(id) || by_here));
                if wants_lut(pen@.curves, moving@, i as int, id) {
                    let k = choose|k: int|
                        0 <= k < i && pen@.curves.contains_key(#[trigger] moving@[k]) && (moving@[k] == id
                            || leads_to(pen@.curves, moving@[k], AnchorEdge::Start, id) || leads_to(
                            pen@.curves,
                            moving@[k],
                            AnchorEdge::End,
                            id,
                        ));
                    assert(0 <= k < i + 1 && pen@.curves.contains_key(moving@[k]));
                }
                if by_here {
                    assert(0 <= i < i + 1 && pen@.curves.contains_key(moving@[i as int]));
                }
                if wants_lut(pen@.curves, moving@, i + 1, id) {
                    let k = choose|k: int|
                        0 <= k < i + 1 && pen@.curves.contains_key(#[trigger] moving@[k]) && (moving@[k] == id
                            || leads_to(pen@.curves, moving@[k], AnchorEdge::Start, id) || leads_to(
                            pen@.curves,
                            moving@[k],
                            AnchorEdge::End,
                            id,
                        ));
                    if k < i {
                        assert(wants_lut(pen@.curves, moving@, i as int, id));
                    }
                }
            }
            assert forall|g: GroupId| groups@.contains(g) <==> wants_group_lut(
                pen@,
                moving@,
                i + 1,
                g,
            ) by {
                let by_here = pen@.group_of(here) == Some(g);
                assert(groups@.contains(g) <==> (groups_before.contains(g) || by_here));
                if wants_group_lut(pen@, moving@, i as int, g) {
                    let k = choose|k: int| 0 <= k < i && #[trigger] pen@.group_of(moving@[k]) == Some(g);
                    assert(0 <= k < i + 1 && pen@.group_of(moving@[k]) == Some(g));
                }
                if by_here {
                    assert(0 <= i < i + 1 && pen@.group_of(moving@[i as int]) == Some(g));
                }
                if wants_group_lut(pen@, moving@, i + 1, g) {
                    let k = choose|k: int|
                        0 <= k < i + 1 && #[trigger] pen@.group_of(moving@[k]) == Some(g);
                    if k < i {
                        assert(wants_group_lut(pen@, moving@, i as int, g));
                    }
                }
            }
        }
        i = i + 1;
    }
    LutUpdate { curves, groups }
}

/// What a move is about: one point of a curve, or the curve as a whole.
#[derive(Clone, Copy, Debug, PartialEq, Eq, Structural)]
pub enum MoveTarget {
    Anchor(Anchor),
    All,
}

/// The wish to move something, as it comes from a click.
#[derive(Clone, Copy, Debug, PartialEq, Eq, Structural)]
pub struct MoveAnchorEvent {
    pub bezier_id: BezierId,
    pub anchor: MoveTarget,
    /// Whether the click also asks to take the endpoint off its latch.
    pub unlatch: bool,
    /// Whether the move is done in one step, not by dragging.
    pub once: bool,
}

/// The order to move something.
#[derive(Clone, Copy, Debug, PartialEq, Eq, Structural)]
pub struct MovingAnchor {
    pub bezier_id: BezierId,
    pub anchor: MoveTarget,
    pub once: bool,
    /// Whether this is what the pointer holds, and not something that is
    /// taken along.
    pub is_clicked: bool,
}

/// What comes of one wish to move.
#[derive(Debug, PartialEq, Eq)]
pub struct MoveOrder {
    /// What is to move.
    pub moving: Vec<MovingAnchor>,
    /// The curves that go along with a curve that moves as a whole.
    pub chain: Vec<BezierId>,
    /// The unlatch that the click brought about.
    pub unlatched: Option<HistoryAction>,
}

impl MoveAnchorEvent {
    /// The click is on a control point while the control points are hidden.
    pub open spec fn is_hidden(self, hide_control_points: bool) -> bool {
        hide_control_points && (self.anchor == MoveTarget::Anchor(Anchor::ControlStart)
            || self.anchor == MoveTarget::Anchor(Anchor::ControlEnd))
    }

    /// The order for what the pointer holds.
    pub open spec fn held(self) -> MovingAnchor {
        MovingAnchor {
            bezier_id: self.bezier_id,
            anchor: self.anchor,
            once: self.once,
            is_clicked: !self.once,
        }
    }

    /// The order for a point that is taken along.
    pub open spec fn along(self, id: BezierId, anchor: Anchor) -> MovingAnchor {
        MovingAnchor {
            bezier_id: id,
            anchor: MoveTarget::Anchor(anchor),
            once: self.once,
            is_clicked: false,
        }
    }

    /// What is to move on this wish, given that its curve exists: nothing for
    /// a hidden control point; the curve for a whole curve; for a point, first
    /// the endpoint that it is latched to and that endpoint's control point,
    /// then the point itself, then the point that goes with it.
    pub open spec fn orders(self, curves: Curves, hide_control_points: bool) -> Seq<MovingAnchor> {
        if self.is_hidden(hide_control_points) {
            Seq::empty()
        } else {
            match self.anchor {
                MoveTarget::All => seq![self.held()],
                MoveTarget::Anchor(anchor) => {
                    let own = seq![self.held(), self.along(self.bezier_id, anchor.twin())];
                    match curves[self.bezier_id].latch(anchor.edge_with_controls()) {
                        Some(half) => seq![
                            self.along(half.latched_to_id, half.partners_edge.anchor()),
                            self.along(half.latched_to_id, half.partners_edge.anchor().twin()),
                        ] + own,
                        None => own,
                    }
                },
            }
        }
    }

    /// The unlatch that this wish brings about: the click asks for it, it is
    /// on an endpoint that is latched, and the curve is in no group.
    pub open spec fn unlatches(self, curves: Curves) -> Option<HistoryAction> {
        if !self.unlatch || !curves.contains_key(self.bezier_id) || curves[self.bezier_id].group.is_some() {
            None
        } else {
            match self.anchor {
                MoveTarget::Anchor(anchor) => match anchor.edge() {
                    Some(edge) => match curves[self.bezier_id].latch(edge) {
                        Some(half) => Some(
                            HistoryAction::unlatching(
                                CurveIdEdge { id: self.bezier_id, anchor_edge: edge },
                                half.partner(),
                            ),
                        ),
                        None => None,
                    },
                    None => None,
                },
                MoveTarget::All => None,
            }
        }
    }

    /// The document after this wish has been seen to.
    pub open spec fn seen_to(self, v: PenView) -> PenView {
        match self.unlatches(v.curves) {
            Some(action) => v.perform(action),
            None => v,
        }
    }

    /// `order` is what comes of this wish on document `v`.
    pub open spec fn answered_by(self, v: PenView, hide_control_points: bool, order: MoveOrder) -> bool {
        &&& order.moving@ == (if v.curves.contains_key(self.bezier_id) {
            self.orders(v.curves, hide_control_points)
        } else {
            Seq::empty()
        })
        &&& order.chain@.no_duplicates()
        &&& order.chain@.to_set() == (if self.anchor == MoveTarget::All {
            component(v.curves, self.bezier_id)
        } else {
            Set::empty()
        })
        &&& order.unlatched == self.unlatches(v.curves)
    }
}

/// The document after the first `upto` wishes have been seen to in order.
pub open spec fn all_seen_to(v: PenView, events: Seq<MoveAnchorEvent>, upto: int) -> PenView
    decreases upto,
{
    if upto <= 0 {
        v
    } else {
        events[upto - 1].seen_to(all_seen_to(v, events, upto - 1))
    }
}

/// Sees to one wish to move.
fn order_one(pen: &mut PenTool, event: MoveAnchorEvent, hide_control_points: bool) -> (order: MoveOrder)
    requires
        old(pen)@.wf(),
    ensures
        final(pen)@.wf(),
        final(pen)@ == event.seen_to(old(pen)@),
        event.answered_by(old(pen)@, hide_control_points, order),
{
    let mut moving: Vec<MovingAnchor> = Vec::new();
    let mut chain: Vec<BezierId> = Vec::new();
    let mut unlatched: Option<HistoryAction> = None;
    let curve = match pen.get(event.bezier_id) {
        Some(curve) => curve,
        None => {
            proof {
                assert(chain@.to_set() =~= Set::empty());
                assert(component(pen@.curves, event.bezier_id) =~= Set::empty()) by {
                    assert forall|b: BezierId| !component(pen@.curves, event.bezier_id).contains(
                        b,
                    ) by {
                        if crate::chain::connected(pen@.curves, event.bezier_id, b) {
                            crate::chain::lemma_connected_exists(pen@.curves, event.bezier_id, b);
                        }
                    }
                }
            }
            return MoveOrder { moving, chain, unlatched };
        },
    };
    let held = MovingAnchor {
        bezier_id: event.bezier_id,
        anchor: event.anchor,
        once: event.once,
        is_clicked: !event.once,
    };
    match event.anchor {
        MoveTarget::All => {
            moving.push(held);
            chain = pen.connected_component(event.bezier_id);
        },
        MoveTarget::Anchor(anchor) => {
            let is_control = match anchor {
                Anchor::ControlStart => true,
                Anchor::ControlEnd => true,
                _ => false,
            };
            if !(is_control && hide_control_points) {
                match curve.get_latch(anchor.to_edge_with_controls()) {
                    Some(half) => {
                        let partner_anchor = half.partners_edge.to_anchor();
                        moving.push(
                            MovingAnchor {
                                bezier_id: half.latched_to_id,
                                anchor: MoveTarget::Anchor(partner_anchor),
                                once: event.once,
                                is_clicked: false,
                            },
                        );
                        moving.push(
                            MovingAnchor {
                                bezier_id: half.latched_to_id,
                                anchor: MoveTarget::Anchor(partner_anchor.adjoint()),
                                once: event.once,
                                is_clicked: false,
                            },
                        );
                    },
                    None => {},
                }
                moving.push(held);
                moving.push(
                    MovingAnchor {
                        bezier_id: event.bezier_id,
                        anchor: MoveTarget::Anchor(anchor.adjoint()),
                        once: event.once,
                        is_clicked: false,
                    },
                );
            }
            proof {
                assert(moving@ =~= event.orders(pen@.curves, hide_control_points));
                assert(chain@.to_set() =~= Set::empty());
            }
            if event.unlatch && curve.group.is_none() {
                match anchor.to_edge() {
                    Some(edge) => match curve.get_latch(edge) {
                        Some(half) => {
                            proof {
                                assert(crate::latch::half_sound(pen@.curves, event.bezier_id, edge));
                            }
                            let outcome = pen.unlatch(
                                CurveIdEdge { id: event.bezier_id, anchor_edge: edge },
                                CurveIdEdge {
                                    id: half.latched_to_id,
                                    anchor_edge: half.partners_edge,
                                },
                            );
                            unlatched = Some(outcome.unwrap());
                        },
                        None => {},
                    },
                    None => {},
                }
            }
        },
    }
    MoveOrder { moving, chain, unlatched }
}

/// Sees to the wishes to move, in order. For each it says what is to move:
/// the point that was clicked and the point that goes with it, before them
/// the endpoint that the point is latched to; for a whole curve the curve and,
/// as its chain, every curve that hangs on it. A click that asks for it takes
/// a latched endpoint of a curve outside any group off its latch, on both
/// sides, and records that. A wish for a curve that does not exist comes to
/// nothing.
pub fn bezier_anchor_order(
    pen: &mut PenTool,
    events: &Vec<MoveAnchorEvent>,
    hide_control_points: bool,
) -> (orders: Vec<MoveOrder>)
    requires
        old(pen)@.wf(),
    ensures
        final(pen)@.wf(),
        final(pen)@ == all_seen_to(old(pen)@, events@, events@.len() as int),
        orders@.len() == events@.len(),
        forall|i: int|
            0 <= i < events@.len() ==> (#[trigger] events@[i]).answered_by(
                all_seen_to(old(pen)@, events@, i),
                hide_control_points,
                orders@[i],
            ),
{
    let ghost before = pen@;
    let mut orders: Vec<MoveOrder> = Vec::new();
    let mut i: usize = 0;
    while i < events.len()
        invariant
            0 <= i <= events.len(),
            pen@.wf(),
            pen@ == all_seen_to(before, events@, i as int),
            orders@.len() == i,
            forall|k: int|
                0 <= k < i ==> (#[trigger] events@[k]).answered_by(
                    all_seen_to(before, events@, k),
                    hide_control_points,
                    orders@[k],
                ),
        decreases events.len() - i,
    {
        let order = order_one(pen, events[i], hide_control_points);
        orders.push(order);
        i = i + 1;
    }
    orders
}

/// The document after the anchors that the pointer holds have followed it
/// to `position`, looking from entry `from` on: each entry whose curve exists
/// and that is clicked moves its point there, an endpoint that is latched
/// taking its partner along. After the first entry whose point sits at a
/// latched endpoint, or steers one, no further entry is looked at.
pub open spec fn dragged(v: PenView, moving: Seq<DraggedAnchor>, position: Point, from: int) -> PenView
    decreases moving.len() - from,
{
    if from < 0 || from >= moving.len() {
        v
    } else {
        let entry = moving[from];
        if entry.is_clicked && v.curves.contains_key(entry.bezier_id) {
            let there = v.with_curves(
                crate::latch::moved(v.curves, entry.bezier_id, entry.anchor, position),
            );
            if v.curves[entry.bezier_id].latch(entry.anchor.edge_with_controls()).is_some() {
                there
            } else {
                dragged(there, moving, position, from + 1)
            }
        } else {
            dragged(v, moving, position, from + 1)
        }
    }
}

/// A point that is on the move.
#[derive(Clone, Copy, Debug, PartialEq, Eq, Structural)]
pub struct DraggedAnchor {
    pub bezier_id: BezierId,
    pub anchor: Anchor,
    pub is_clicked: bool,
}

/// Lets the points that the pointer holds follow it to `position`, unless
/// the pointer is busy with a latch. Nothing is recorded: a drag becomes an
/// action of the history only when it ends.
pub fn update_anchors(
    pen: &mut PenTool,
    latch_pending: bool,
    moving: &Vec<DraggedAnchor>,
    position: Point,
)
    requires
        old(pen)@.wf(),
    ensures
        final(pen)@.wf(),
        final(pen)@ == (if latch_pending {
            old(pen)@
        } else {
            dragged(old(pen)@, moving@, position, 0)
        }),
{
    if latch_pending {
        return ;
    }
    let ghost before = pen@;
    let mut i: usize = 0;
    while i < moving.len()
        invariant_except_break
            0 <= i <= moving.len(),
            pen@.wf(),
            dragged(before, moving@, position, 0) == dragged(pen@, moving@, position, i as int),
        ensures
            pen@.wf(),
            pen@ == dragged(before, moving@, position, 0),
        decreases moving.len() - i,
    {
        let entry = moving[i];
        if entry.is_clicked {
            match pen.get(entry.bezier_id) {
                Some(curve) => {
                    let ghost here = pen@;
                    proof {
                        crate::latch::lemma_moved_sound(
                            here.curves,
                            entry.bezier_id,
                            entry.anchor,
                            position,
                        );
                        lemma_groups_sound_kept(
                            here.curves,
                            crate::latch::moved(here.curves, entry.bezier_id, entry.anchor, position),
                            here.groups,
                            here.next_group,
                        );
                    }
                    let _ = pen.move_raw(entry.bezier_id, entry.anchor, position);
                    if curve.quad_is_latched(entry.anchor.to_edge_with_controls()) {
                        break ;
                    }
                },
                None => {},
            }
        }
        i = i + 1;
    }
}

/// What is selected: curves, and the group that they make up if they were
/// picked as a group.
#[derive(Debug, PartialEq, Eq)]
pub struct Selection {
    pub group_id: Option<GroupId>,
    pub curves: Vec<BezierId>,
}

/// The group of the first grouped curve among `inside`, looking from
/// position `from` on.
pub open spec fn first_group(v: PenView, inside: Seq<BezierId>, from: int) -> Option<GroupId>
    decreases inside.len() - from,
{
    if from < 0 || from >= inside.len() {
        None
    } else {
        match v.group_of(inside[from]) {
            Some(g) => Some(g),
            None => first_group(v, inside, from + 1),
        }
    }
}

/// Those of the first `upto` curves that exist, in order.
pub open spec fn known_of(curves: Curves, ids: Seq<BezierId>, upto: int) -> Seq<BezierId>
    decreases upto,
{
    if upto <= 0 {
        Seq::empty()
    } else if curves.contains_key(ids[upto - 1]) {
        known_of(curves, ids, upto - 1).push(ids[upto - 1])
    } else {
        known_of(curves, ids, upto - 1)
    }
}

/// Settles what is selected when the curves `inside` lie in the selection
/// box. Where one of them belongs to a group, the first such group is selected
/// as a whole and nothing else: a group is not selected together with other
/// curves or groups. Otherwise those of the curves that exist are selected.
pub fn selection_final(pen: &PenTool, inside: &Vec<BezierId>) -> (selected: Selection)
    requires
        pen@.wf(),
    ensures
        selected.group_id == first_group(pen@, inside@, 0),
        selected.curves@ == (match first_group(pen@, inside@, 0) {
            Some(g) => pen@.groups[g].map_values(|link: CurveIdEdge| link.id),
            None => known_of(pen@.curves, inside@, inside@.len() as int),
        }),
{
    let mut curves: Vec<BezierId> = Vec::new();
    let mut i: usize = 0;
    while i < inside.len()
        invariant
            0 <= i <= inside.len(),
            pen@.wf(),
            first_group(pen@, inside@, 0) == first_group(pen@, inside@, i as int),
            curves@ == known_of(pen@.curves, inside@, i as int),
        decreases inside.len() - i,
    {
        match pen.get(inside[i]) {
            Some(curve) => {
                match curve.group {
                    Some(g) => {
                        proof {
                            assert(crate::model::tag_sound(pen@.curves, pen@.groups, inside@[i as int]));
                        }
                        let links = pen.group_members(g).unwrap();
                        let mut members: Vec<BezierId> = Vec::new();
                        let mut k: usize = 0;
                        while k < links.len()
                            invariant
                                0 <= k <= links.len(),
                                members@ == links@.take(k as int).map_values(
                                    |link: CurveIdEdge| link.id,
                                ),
                            decreases links.len() - k,
                        {
                            members.push(links[k].id);
                            proof {
                                assert(links@.take(k + 1).map_values(|link: CurveIdEdge| link.id)
                                    =~= links@.take(k as int).map_values(
                                    |link: CurveIdEdge| link.id,
                                ).push(links@[k as int].id));
                            }
                            k = k + 1;
                        }
                        proof {
                            assert(links@.take(links.len() as int) =~= links@);
                        }
                        return Selection { group_id: Some(g), curves: members };
                    },
                    None => {},
                }
                curves.push(inside[i]);
            },
            None => {},
        }
        i = i + 1;
    }
    Selection { group_id: None, curves }
}

/// One member of a group as it is written out: the record of the curve and
/// the endpoint at which the chain enters it.
#[derive(Clone, Copy, Debug)]
pub struct SavedCurve {
    pub bezier: Bezier,
    pub anchor_edge: AnchorEdge,
}

/// What is written out of a group: its members in chain order, each with its
/// record as it stands. `None` where there is no such group.
pub fn save(pen: &PenTool, group_id: GroupId) -> (saved: Option<Vec<SavedCurve>>)
    requires
        pen@.wf(),
    ensures
        match saved {
            Some(members) => {
                &&& pen@.groups.contains_key(group_id)
                &&& members@.len() == pen@.groups[group_id].len()
                &&& forall|i: int|
                    0 <= i < members@.len() ==> #[trigger] members@[i] == (SavedCurve {
                        bezier: pen@.curves[pen@.groups[group_id][i].id],
                        anchor_edge: pen@.groups[group_id][i].anchor_edge,
                    })
            },
            None => !pen@.groups.contains_key(group_id),
        },
{
    let links = match pen.group_members(group_id) {
        Some(links) => links,
        None => {
            return None;
        },
    };
    let mut members: Vec<SavedCurve> = Vec::new();
    let mut i: usize = 0;
    while i < links.len()
        invariant
            0 <= i <= links.len(),
            pen@.wf(),
            pen@.groups.contains_key(group_id),
            links@ == pen@.groups[group_id],
            members@.len() == i,
            forall|k: int|
                0 <= k < i ==> #[trigger] members@[k] == (SavedCurve {
                    bezier: pen@.curves[links@[k].id],
                    anchor_edge: links@[k].anchor_edge,
                }),
        decreases links.len() - i,
    {
        proof {
            assert(crate::model::member_sound(pen@.curves, pen@.groups, group_id, i as int));
        }
        let bezier = pen.get(links[i].id).unwrap();
        members.push(SavedCurve { bezier, anchor_edge: links[i].anchor_edge });
        i = i + 1;
    }
    Some(members)
}

/// The document after the first `upto` of the saved curves have been created
/// anew, each recorded. A curve whose identity is taken by then is passed
/// over.
pub open spec fn respawned(v: PenView, saved: Seq<SavedCurve>, upto: int) -> PenView
    decreases upto,
{
    if upto <= 0 {
        v
    } else {
        let earlier = respawned(v, saved, upto - 1);
        let bezier = saved[upto - 1].bezier;
        if earlier.curves.contains_key(bezier.id) {
            earlier
        } else {
            earlier.perform(
                HistoryAction::SpawnedCurve { bezier_id: bezier.id, bezier_hist: bezier.hist() },
            )
        }
    }
}

/// Those of the first `upto` saved curves that were created anew, in order.
pub open spec fn respawned_ids(v: PenView, saved: Seq<SavedCurve>, upto: int) -> Seq<BezierId>
    decreases upto,
{
    if upto <= 0 {
        Seq::empty()
    } else {
        let earlier = respawned_ids(v, saved, upto - 1);
        let bezier = saved[upto - 1].bezier;
        if respawned(v, saved, upto - 1).curves.contains_key(bezier.id) {
            earlier
        } else {
            earlier.push(bezier.id)
        }
    }
}

/// The entry that the first saved record of curve `at.id`, looking from
/// position `from` on, holds under `at.anchor_edge`.
pub open spec fn saved_entry(saved: Seq<SavedCurve>, at: CurveIdEdge, from: int) -> Option<LatchData>
    decreases saved.len() - from,
{
    if from < 0 || from >= saved.len() {
        None
    } else if saved[from].bezier.id == at.id {
        saved[from].bezier.latch(at.anchor_edge)
    } else {
        saved_entry(saved, at, from + 1)
    }
}

/// The half that a saved curve holds under `edge` is answered among the
/// saved curves by its exact mirror.
pub open spec fn two_sided(saved: Seq<SavedCurve>, bezier: Bezier, edge: AnchorEdge) -> bool {
    match bezier.latch(edge) {
        Some(half) => half.self_edge == edge && saved_entry(saved, half.partner(), 0) == Some(
            half.mirror(bezier.id),
        ),
        None => true,
    }
}

/// The document after the latch that a saved curve holds under `edge` has
/// been made anew and recorded. Nothing changes where the saved curve holds
/// none there, where the half is not answered by its mirror among the saved
/// curves, or where the latch is refused: because the partner is missing, or
/// because the latch is there already, made from the other side.
pub open spec fn relatched_at(
    v: PenView,
    saved: Seq<SavedCurve>,
    bezier: Bezier,
    edge: AnchorEdge,
) -> PenView {
    match bezier.latch(edge) {
        Some(half) => {
            let a = CurveIdEdge { id: bezier.id, anchor_edge: edge };
            if two_sided(saved, bezier, edge) && latch_refusal(v.curves, a, half.partner()).is_none() {
                v.perform(HistoryAction::latching(a, half.partner()))
            } else {
                v
            }
        },
        None => v,
    }
}

/// The document after the latches of the first `upto` saved curves have been
/// made anew, for each curve first the one at its start.
pub open spec fn relatched(v: PenView, saved: Seq<SavedCurve>, upto: int) -> PenView
    decreases upto,
{
    if upto <= 0 {
        v
    } else {
        relatched_at(
            relatched_at(
                relatched(v, saved, upto - 1),
                saved,
                saved[upto - 1].bezier,
                AnchorEdge::Start,
            ),
            saved,
            saved[upto - 1].bezier,
            AnchorEdge::End,
        )
    }
}

/// The records with one more for the endpoint, if the half that the saved
/// curve holds there is one-sided.
pub open spec fn faulted(
    saved: Seq<SavedCurve>,
    faults: Seq<CurveIdEdge>,
    bezier: Bezier,
    edge: AnchorEdge,
) -> Seq<CurveIdEdge> {
    if two_sided(saved, bezier, edge) {
        faults
    } else {
        faults.push(CurveIdEdge { id: bezier.id, anchor_edge: edge })
    }
}

/// The endpoints of the first `upto` saved curves that hold a one-sided half,
/// in order, for each curve first its start.
pub open spec fn one_sided(saved: Seq<SavedCurve>, upto: int) -> Seq<CurveIdEdge>
    decreases upto,
{
    if upto <= 0 {
        Seq::empty()
    } else {
        faulted(
            saved,
            faulted(saved, one_sided(saved, upto - 1), saved[upto - 1].bezier, AnchorEdge::Start),
            saved[upto - 1].bezier,
            AnchorEdge::End,
        )
    }
}

/// The entry that the first saved record of curve `at.id` holds under
/// `at.anchor_edge`.
fn find_saved_entry(saved: &Vec<SavedCurve>, at: CurveIdEdge) -> (found: Option<LatchData>)
    ensures
        found == saved_entry(saved@, at, 0),
{
    let mut i: usize = 0;
    while i < saved.len()
        invariant
            0 <= i <= saved.len(),
            saved_entry(saved@, at, 0) == saved_entry(saved@, at, i as int),
        decreases saved.len() - i,
    {
        if saved[i].bezier.id == at.id {
            return saved[i].bezier.get_latch(at.anchor_edge);
        }
        i = i + 1;
    }
    None
}

/// Makes anew the latch that a saved curve holds under `edge`, or notes the
/// endpoint if the half is one-sided.
fn relatch(
    pen: &mut PenTool,
    saved: &Vec<SavedCurve>,
    faults: &mut Vec<CurveIdEdge>,
    bezier: Bezier,
    edge: AnchorEdge,
)
    requires
        old(pen)@.wf(),
    ensures
        final(pen)@.wf(),
        final(pen)@ == relatched_at(old(pen)@, saved@, bezier, edge),
        final(faults)@ == faulted(saved@, old(faults)@, bezier, edge),
{
    match bezier.get_latch(edge) {
        Some(half) => {
            let wanted = LatchData {
                latched_to_id: bezier.id,
                self_edge: half.partners_edge,
                partners_edge: half.self_edge,
            };
            let answered = match find_saved_entry(
                saved,
                CurveIdEdge { id: half.latched_to_id, anchor_edge: half.partners_edge },
            ) {
                Some(back) => back == wanted,
                None => false,
            };
            if half.self_edge == edge && answered {
                let _ = pen.latch(
                    CurveIdEdge { id: bezier.id, anchor_edge: edge },
                    CurveIdEdge { id: half.latched_to_id, anchor_edge: half.partners_edge },
                );
            } else {
                faults.push(CurveIdEdge { id: bezier.id, anchor_edge: edge });
            }
        },
        None => {},
    }
}

/// What comes of a load.
pub struct Loaded {
    /// The document that was built.
    pub pen: PenTool,
    /// The curves that were created, in order: they are then selected.
    pub curves: Vec<BezierId>,
    /// The endpoints that were saved with a one-sided latch. They are left
    /// free: such a latch is a fault of what was saved, and is told, not
    /// mended.
    pub one_sided: Vec<CurveIdEdge>,
}

/// Builds a document from what was written out: first every saved curve is
/// created under its identity, with its geometry and nothing else; then the
/// latches that the saved curves hold are made again, each pair once. Every
/// step is recorded, so the history of the new document tells how it was
/// built. What was saved is not trusted. A half that is not answered by its
/// mirror among the saved curves is not installed, and its endpoint is
/// reported; a latch onto a taken endpoint is left out. So no latch of the
/// document is one-sided.
pub fn load(saved: &Vec<SavedCurve>) -> (loaded: Loaded)
    ensures
        loaded.pen@.wf(),
        loaded.pen@ == relatched(
            respawned(PenView::empty(), saved@, saved@.len() as int),
            saved@,
            saved@.len() as int,
        ),
        loaded.curves@ == respawned_ids(PenView::empty(), saved@, saved@.len() as int),
        loaded.one_sided@ == one_sided(saved@, saved@.len() as int),
{
    let mut pen = PenTool::new();
    let mut created: Vec<BezierId> = Vec::new();
    let mut i: usize = 0;
    while i < saved.len()
        invariant
            0 <= i <= saved.len(),
            pen@.wf(),
            pen@ == respawned(PenView::empty(), saved@, i as int),
            created@ == respawned_ids(PenView::empty(), saved@, i as int),
        decreases saved.len() - i,
    {
        let bezier = saved[i].bezier;
        match pen.spawn(bezier.id, bezier.positions) {
            Some(_) => {
                created.push(bezier.id);
            },
            None => {},
        }
        i = i + 1;
    }
    let ghost spawned = pen@;
    let mut faults: Vec<CurveIdEdge> = Vec::new();
    let mut k: usize = 0;
    while k < saved.len()
        invariant
            0 <= k <= saved.len(),
            pen@.wf(),
            pen@ == relatched(spawned, saved@, k as int),
            faults@ == one_sided(saved@, k as int),
        decreases saved.len() - k,
    {
        relatch(&mut pen, saved, &mut faults, saved[k].bezier, AnchorEdge::Start);
        relatch(&mut pen, saved, &mut faults, saved[k].bezier, AnchorEdge::End);
        k = k + 1;
    }
    Loaded { pen, curves: created, one_sided: faults }
}

} // verus!
