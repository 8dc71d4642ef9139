//! What a deletion leaves behind, said directly, and the proof that the
//! deletion's records, applied one by one, lead there.

use crate::curve::{AnchorEdge, Bezier, BezierId, CurveIdEdge, GroupId, LatchData};
use crate::deletion::{
    about_latch, deletion_records, names_latch, noted, removal_records, unlatch_records,
};
use crate::history::HistoryAction;
use crate::latch::{
    entry, freed, half_sound, latches_sound, lemma_partner_mirrored, partner, unlatch_refusal,
    unlatched, Curves,
};
use crate::laws::fits;
use crate::model::PenView;
use crate::reach::{removal_touches, same_at};
use vstd::prelude::*;

verus! {

/// The entry that an endpoint keeps when every latch with an end in `gone`
/// is removed.
pub open spec fn kept(curves: Curves, gone: Set<CurveIdEdge>, at: CurveIdEdge) -> Option<LatchData> {
    match entry(curves, at) {
        Some(half) => if gone.contains(at) || gone.contains(half.partner()) {
            None
        } else {
            Some(half)
        },
        None => None,
    }
}

/// The curves after every latch with an end in `gone` has been removed, on
/// both sides.
pub open spec fn cut(curves: Curves, gone: Set<CurveIdEdge>) -> Curves {
    Map::new(
        |id: BezierId| curves.contains_key(id),
        |id: BezierId|
            Bezier {
                latch_start: kept(curves, gone, CurveIdEdge { id, anchor_edge: AnchorEdge::Start }),
                latch_end: kept(curves, gone, CurveIdEdge { id, anchor_edge: AnchorEdge::End }),
                ..curves[id]
            },
    )
}

/// The endpoints of the curves `ids`.
pub open spec fn ends_of(ids: Seq<BezierId>) -> Set<CurveIdEdge> {
    Set::new(|at: CurveIdEdge| ids.contains(at.id))
}

/// Removing the latches with an end in `gone`, and then the latch at `at`,
/// removes the latches with an end in `gone` or at `at`.
proof fn lemma_cut_one_more(curves: Curves, gone: Set<CurveIdEdge>, at: CurveIdEdge)
    requires
        latches_sound(curves),
    ensures
        freed(cut(curves, gone), at) == cut(curves, gone.insert(at)),
        forall|x: CurveIdEdge| #[trigger] entry(cut(curves, gone), x) == kept(curves, gone, x),
{
    let before = cut(curves, gone);
    let after = cut(curves, gone.insert(at));
    assert forall|x: CurveIdEdge| #[trigger] entry(before, x) == kept(curves, gone, x) by {}
    if entry(before, at).is_some() {
        assert(half_sound(curves, at.id, at.anchor_edge));
        assert(before.contains_key(entry(before, at).unwrap().latched_to_id));
    }
    assert(freed(before, at).dom() =~= after.dom());
    assert forall|id: BezierId| after.contains_key(id) implies #[trigger] freed(before, at)[id] == after[id] by {
        let start = CurveIdEdge { id, anchor_edge: AnchorEdge::Start };
        let end = CurveIdEdge { id, anchor_edge: AnchorEdge::End };
        assert(half_sound(curves, id, AnchorEdge::Start));
        assert(half_sound(curves, id, AnchorEdge::End));
        if curves.contains_key(at.id) {
            assert(half_sound(curves, at.id, at.anchor_edge));
        }
        match entry(before, at) {
            Some(half) => {
                assert(entry(curves, at) == Some(half));
                let other = half.partner();
                assert(half_sound(curves, other.id, other.anchor_edge));
                assert(freed(before, at) == unlatched(before, at, other));
            },
            None => {
                assert(freed(before, at) == before);
                if entry(curves, at).is_some() {
                    let half = entry(curves, at).unwrap();
                    assert(half_sound(curves, half.latched_to_id, half.partners_edge));
                }
            },
        }
        assert(entry(freed(before, at), start) == kept(curves, gone.insert(at), start));
        assert(entry(freed(before, at), end) == kept(curves, gone.insert(at), end));
    }
    assert(freed(before, at) =~= after);
}

/// The records name exactly the latches that have an end in `gone`.
pub open spec fn tells(curves: Curves, records: Seq<HistoryAction>, gone: Set<CurveIdEdge>) -> bool {
    forall|x: CurveIdEdge|
        match #[trigger] entry(curves, x) {
            Some(half) => names_latch(records, x, half.partner()) <==> (gone.contains(x)
                || gone.contains(half.partner())),
            None => true,
        }
}

/// Each of the records fits the document that the records before it leave.
pub open spec fn fits_each(v: PenView, records: Seq<HistoryAction>) -> bool {
    forall|k: int|
        0 <= k < records.len() ==> fits(v.replay(records.take(k)), #[trigger] records[k])
}

/// The records, applied to `v`, remove the latches with an end in `gone`
/// and change nothing else.
pub open spec fn cuts(v: PenView, records: Seq<HistoryAction>, gone: Set<CurveIdEdge>) -> bool {
    &&& v.replay(records) == v.with_curves(cut(v.curves, gone))
    &&& tells(v.curves, records, gone)
    &&& fits_each(v, records)
}

proof fn lemma_names_latch_pushed(
    records: Seq<HistoryAction>,
    added: HistoryAction,
    a: CurveIdEdge,
    b: CurveIdEdge,
)
    ensures
        names_latch(records.push(added), a, b) <==> (names_latch(records, a, b) || about_latch(
            added,
            a,
            b,
        )),
        names_latch(records, a, b) <==> names_latch(records, b, a),
{
    let longer = records.push(added);
    if names_latch(records, a, b) {
        let i = choose|i: int|
            0 <= i < records.len() && ((#[trigger] records[i]).ends() == Some((a, b)) || records[i].ends()
                == Some((b, a)));
        assert(longer[i] == records[i]);
        assert(records[i].ends() == Some((b, a)) || records[i].ends() == Some((a, b)));
    }
    if names_latch(records, b, a) {
        let i = choose|i: int|
            0 <= i < records.len() && ((#[trigger] records[i]).ends() == Some((b, a)) || records[i].ends()
                == Some((a, b)));
        assert(records[i].ends() == Some((a, b)) || records[i].ends() == Some((b, a)));
    }
    if about_latch(added, a, b) {
        assert(longer[records.len() as int] == added);
    }
    if names_latch(longer, a, b) {
        let i = choose|i: int|
            0 <= i < longer.len() && ((#[trigger] longer[i]).ends() == Some((a, b)) || longer[i].ends()
                == Some((b, a)));
        if i < records.len() {
            assert(records[i] == longer[i]);
        }
    }
}

/// Noting the latch at one more endpoint keeps the records in step with the
/// latches that are removed.
proof fn lemma_noted_cuts(
    v: PenView,
    records: Seq<HistoryAction>,
    gone: Set<CurveIdEdge>,
    at: CurveIdEdge,
)
    requires
        v.wf(),
        cuts(v, records, gone),
    ensures
        cuts(v, noted(v.curves, records, at), gone.insert(at)),
{
    let curves = v.curves;
    let after = noted(curves, records, at);
    let wider = gone.insert(at);
    lemma_cut_one_more(curves, gone, at);
    let here = v.replay(records);
    match entry(curves, at) {
        Some(half) => {
            let other = half.partner();
            assert(half_sound(curves, at.id, at.anchor_edge));
            lemma_partner_mirrored(curves, at);
            lemma_names_latch_pushed(records, HistoryAction::unlatching(at, other), at, other);
            if names_latch(records, at, other) {
                assert(entry(here.curves, at).is_none());
                assert(freed(here.curves, at) == here.curves);
                assert forall|x: CurveIdEdge|
                    match #[trigger] entry(curves, x) {
                        Some(h) => names_latch(after, x, h.partner()) <==> (wider.contains(x)
                            || wider.contains(h.partner())),
                        None => true,
                    } by {
                    match entry(curves, x) {
                        Some(h) => {
                            lemma_partner_mirrored(curves, x);
                            lemma_names_latch_pushed(records, HistoryAction::unlatching(at, other), x, h.partner());
                        },
                        None => {},
                    }
                }
            } else {
                let added = HistoryAction::unlatching(at, other);
                assert(after == records.push(added));
                assert(after.drop_last() =~= records);
                assert(entry(here.curves, at) == Some(half));
                assert(half == at.half_towards(other));
                assert(unlatch_refusal(here.curves, at, other).is_none());
                assert(here.forward(added) == here.with_curves(unlatched(here.curves, at, other)));
                assert(v.replay(after) == here.forward(added));
                assert forall|x: CurveIdEdge|
                    match #[trigger] entry(curves, x) {
                        Some(h) => names_latch(after, x, h.partner()) <==> (wider.contains(x)
                            || wider.contains(h.partner())),
                        None => true,
                    } by {
                    match entry(curves, x) {
                        Some(h) => {
                            lemma_partner_mirrored(curves, x);
                            lemma_names_latch_pushed(records, added, x, h.partner());
                        },
                        None => {},
                    }
                }
                assert forall|k: int| 0 <= k < after.len() implies fits(
                    v.replay(after.take(k)),
                    #[trigger] after[k],
                ) by {
                    if k < records.len() {
                        assert(after.take(k) =~= records.take(k));
                        assert(after[k] == records[k]);
                    } else {
                        assert(after.take(k) =~= records);
                    }
                }
            }
        },
        None => {
            assert forall|x: CurveIdEdge|
                match #[trigger] entry(curves, x) {
                    Some(h) => names_latch(after, x, h.partner()) <==> (wider.contains(x)
                        || wider.contains(h.partner())),
                    None => true,
                } by {
                match entry(curves, x) {
                    Some(h) => {
                        lemma_partner_mirrored(curves, x);
                    },
                    None => {},
                }
            }
        },
    }
}

/// The unlatch records of a deletion, applied in order, each fit, and
/// together remove exactly the latches that the deleted curves hold.
pub proof fn lemma_unlatch_records_cut(v: PenView, ids: Seq<BezierId>, upto: int)
    requires
        v.wf(),
        0 <= upto <= ids.len(),
    ensures
        cuts(v, unlatch_records(v.curves, ids, upto), ends_of(ids.take(upto))),
    decreases upto,
{
    if upto <= 0 {
        let none = Seq::<HistoryAction>::empty();
        assert(unlatch_records(v.curves, ids, upto) == none);
        assert(ends_of(ids.take(upto)) =~= Set::empty());
        assert(cut(v.curves, Set::empty()) =~= v.curves) by {
            assert forall|id: BezierId| v.curves.contains_key(id) implies #[trigger] cut(
                v.curves,
                Set::empty(),
            )[id] == v.curves[id] by {}
        }
        assert forall|x: CurveIdEdge|
            match #[trigger] entry(v.curves, x) {
                Some(h) => names_latch(none, x, h.partner()) <==> (Set::<CurveIdEdge>::empty().contains(
                    x,
                ) || Set::<CurveIdEdge>::empty().contains(h.partner())),
                None => true,
            } by {}
    } else {
        lemma_unlatch_records_cut(v, ids, upto - 1);
        let id = ids[upto - 1];
        let earlier = unlatch_records(v.curves, ids, upto - 1);
        let gone = ends_of(ids.take(upto - 1));
        let start = CurveIdEdge { id, anchor_edge: AnchorEdge::Start };
        let end = CurveIdEdge { id, anchor_edge: AnchorEdge::End };
        lemma_noted_cuts(v, earlier, gone, start);
        lemma_noted_cuts(v, noted(v.curves, earlier, start), gone.insert(start), end);
        let shorter = ids.take(upto - 1);
        let longer = ids.take(upto);
        assert(gone.insert(start).insert(end) =~= ends_of(longer)) by {
            assert forall|x: CurveIdEdge| gone.insert(start).insert(end).contains(x) <==> ends_of(
                longer,
            ).contains(x) by {
                if shorter.contains(x.id) {
                    let k = choose|k: int| 0 <= k < shorter.len() && shorter[k] == x.id;
                    assert(longer[k] == x.id);
                }
                if x.id == id {
                    assert(longer[upto - 1] == x.id);
                    assert(x == start || x == end);
                }
                if longer.contains(x.id) {
                    let k = choose|k: int| 0 <= k < longer.len() && longer[k] == x.id;
                    if k < upto - 1 {
                        assert(shorter[k] == x.id);
                    }
                }
            }
        }
    }
}

/// One of the curves `ids` exists and belongs to group `g`.
pub open spec fn loses_member(curves: Curves, ids: Seq<BezierId>, g: GroupId) -> bool {
    exists|i: int|
        0 <= i < ids.len() && curves.contains_key(#[trigger] ids[i]) && curves[ids[i]].group == Some(
            g,
        )
}

/// The group tag that a curve keeps when the curves `ids` are deleted: none,
/// if its group loses a member.
pub open spec fn left_tag(curves: Curves, ids: Seq<BezierId>, tag: Option<GroupId>) -> Option<
    GroupId,
> {
    match tag {
        Some(g) => if loses_member(curves, ids, g) {
            None
        } else {
            Some(g)
        },
        None => None,
    }
}

/// The latch entry that a surviving curve keeps when the curves `ids` are
/// deleted: none, if it points at one of them.
pub open spec fn left_half(ids: Seq<BezierId>, half: Option<LatchData>) -> Option<LatchData> {
    match half {
        Some(h) => if ids.contains(h.latched_to_id) {
            None
        } else {
            Some(h)
        },
        None => None,
    }
}

/// The document after the curves `ids` have been deleted: they are gone;
/// the curves that are left have lost their latches to them; the groups that
/// had one of them as a member are gone, and no curve wears their tag. All
/// else is as it was.
pub open spec fn after_deletion(v: PenView, ids: Seq<BezierId>) -> PenView {
    PenView {
        curves: Map::new(
            |id: BezierId| v.curves.contains_key(id) && !ids.contains(id),
            |id: BezierId|
                Bezier {
                    id: v.curves[id].id,
                    positions: v.curves[id].positions,
                    latch_start: left_half(ids, v.curves[id].latch_start),
                    latch_end: left_half(ids, v.curves[id].latch_end),
                    group: left_tag(v.curves, ids, v.curves[id].group),
                },
        ),
        groups: Map::new(
            |g: GroupId| v.groups.contains_key(g) && !loses_member(v.curves, ids, g),
            |g: GroupId| v.groups[g],
        ),
        ..v
    }
}

/// The document after the latches of all the curves `ids` have been removed
/// and the first `upto` of them have been deleted.
pub open spec fn partly_deleted(v: PenView, ids: Seq<BezierId>, upto: int) -> PenView {
    PenView {
        curves: Map::new(
            |id: BezierId| v.curves.contains_key(id) && !ids.take(upto).contains(id),
            |id: BezierId|
                Bezier {
                    group: left_tag(v.curves, ids.take(upto), v.curves[id].group),
                    ..cut(v.curves, ends_of(ids))[id]
                },
        ),
        groups: Map::new(
            |g: GroupId| v.groups.contains_key(g) && !loses_member(v.curves, ids.take(upto), g),
            |g: GroupId| v.groups[g],
        ),
        ..v
    }
}

/// What one more curve in the list changes about membership and loss.
proof fn lemma_one_more_id(curves: Curves, ids: Seq<BezierId>, upto: int)
    requires
        0 < upto <= ids.len(),
    ensures
        forall|x: BezierId|
            ids.take(upto).contains(x) <==> (ids.take(upto - 1).contains(x) || x == ids[upto - 1]),
        forall|g: GroupId|
            loses_member(curves, ids.take(upto), g) <==> (loses_member(curves, ids.take(upto - 1), g) || (
            curves.contains_key(ids[upto - 1]) && curves[ids[upto - 1]].group == Some(g))),
{
    let shorter = ids.take(upto - 1);
    let longer = ids.take(upto);
    assert forall|x: BezierId| longer.contains(x) <==> (shorter.contains(x) || x == ids[upto - 1]) by {
        if shorter.contains(x) {
            let k = choose|k: int| 0 <= k < shorter.len() && shorter[k] == x;
            assert(longer[k] == x);
        }
        if x == ids[upto - 1] {
            assert(longer[upto - 1] == x);
        }
        if longer.contains(x) {
            let k = choose|k: int| 0 <= k < longer.len() && longer[k] == x;
            if k < upto - 1 {
                assert(shorter[k] == x);
            }
        }
    }
    assert forall|g: GroupId|
        loses_member(curves, longer, g) <==> (loses_member(curves, shorter, g) || (curves.contains_key(
            ids[upto - 1],
        ) && curves[ids[upto - 1]].group == Some(g))) by {
        if loses_member(curves, shorter, g) {
            let k = choose|k: int|
                0 <= k < shorter.len() && curves.contains_key(#[trigger] shorter[k]) && curves[shorter[k]].group
                    == Some(g);
            assert(longer[k] == shorter[k]);
        }
        if curves.contains_key(ids[upto - 1]) && curves[ids[upto - 1]].group == Some(g) {
            assert(longer[upto - 1] == ids[upto - 1]);
        }
        if loses_member(curves, longer, g) {
            let k = choose|k: int|
                0 <= k < longer.len() && curves.contains_key(#[trigger] longer[k]) && curves[longer[k]].group
                    == Some(g);
            if k < upto - 1 {
                assert(shorter[k] == longer[k]);
            }
        }
    }
}

/// Deleting one more of the curves, after the latches of all of them have
/// been removed, leads from one partly deleted document to the next.
proof fn lemma_delete_one_more(v: PenView, ids: Seq<BezierId>, upto: int)
    requires
        v.wf(),
        0 < upto <= ids.len(),
    ensures
        partly_deleted(v, ids, upto - 1).removed(ids[upto - 1]) == partly_deleted(v, ids, upto),
        !v.curves.contains_key(ids[upto - 1]) || ids.take(upto - 1).contains(ids[upto - 1])
            ==> partly_deleted(v, ids, upto - 1) == partly_deleted(v, ids, upto),
        v.curves.contains_key(ids[upto - 1]) && !ids.take(upto - 1).contains(ids[upto - 1]) ==> {
            let before = partly_deleted(v, ids, upto - 1);
            &&& before.curves.contains_key(ids[upto - 1])
            &&& before.curves[ids[upto - 1]] == Bezier {
                group: left_tag(v.curves, ids.take(upto - 1), v.curves[ids[upto - 1]].group),
                ..Bezier::fresh(ids[upto - 1], v.curves[ids[upto - 1]].positions)
            }
        },
{
    let id = ids[upto - 1];
    let before = partly_deleted(v, ids, upto - 1);
    let after = partly_deleted(v, ids, upto);
    let shorter = ids.take(upto - 1);
    let longer = ids.take(upto);
    lemma_one_more_id(v.curves, ids, upto);
    let loose = cut(v.curves, ends_of(ids));
    if !v.curves.contains_key(id) || shorter.contains(id) {
        assert(before.curves =~= after.curves);
        assert(before.groups =~= after.groups);
        if !before.curves.contains_key(id) {
            assert(before.removed(id) == before);
        }
    } else {
        assert(ids[upto - 1] == id);
        assert(ids.contains(id));
        assert(ends_of(ids).contains(CurveIdEdge { id, anchor_edge: AnchorEdge::Start }));
        assert(ends_of(ids).contains(CurveIdEdge { id, anchor_edge: AnchorEdge::End }));
        assert(before.curves.contains_key(id));
        assert(before.curves[id].latch_start.is_none());
        assert(before.curves[id].latch_end.is_none());
        assert(crate::latch::detached(before.curves, id) == before.curves);
        let tag = before.curves[id].group;
        let alone = match tag {
            Some(g) => before.with_curves(before.curves).ungrouped(g),
            None => before.with_curves(before.curves),
        };
        assert(before.with_curves(before.curves) == before);
        assert(before.removed(id) == alone.with_curves(alone.curves.remove(id)));
        assert(before.removed(id).curves =~= after.curves) by {
            assert forall|x: BezierId| after.curves.contains_key(x) implies #[trigger] before.removed(
                id,
            ).curves[x] == after.curves[x] by {
                assert(before.curves.contains_key(x));
            }
        }
        assert(before.removed(id).groups =~= after.groups);
    }
}

/// The deletion records of the first `upto` curves, applied after the
/// unlatch records of all of them, leave the latches of all of them removed
/// and the first `upto` deleted.
proof fn lemma_removal_records_delete(v: PenView, ids: Seq<BezierId>, upto: int)
    requires
        v.wf(),
        0 <= upto <= ids.len(),
    ensures
        v.replay(
            unlatch_records(v.curves, ids, ids.len() as int) + removal_records(v.curves, ids, upto),
        ) == partly_deleted(v, ids, upto),
    decreases upto,
{
    let unlatches = unlatch_records(v.curves, ids, ids.len() as int);
    if upto <= 0 {
        lemma_unlatch_records_cut(v, ids, ids.len() as int);
        assert(ids.take(ids.len() as int) =~= ids);
        assert(unlatches + removal_records(v.curves, ids, upto) =~= unlatches);
        let start = partly_deleted(v, ids, 0);
        assert(ids.take(0) =~= Seq::empty());
        assert(start.curves =~= cut(v.curves, ends_of(ids)));
        assert(start.groups =~= v.groups);
    } else {
        lemma_removal_records_delete(v, ids, upto - 1);
        lemma_delete_one_more(v, ids, upto);
        let id = ids[upto - 1];
        let earlier = removal_records(v.curves, ids, upto - 1);
        if v.curves.contains_key(id) && !ids.take(upto - 1).contains(id) {
            let added = HistoryAction::DeletedCurve { bezier: v.curves[id].hist(), bezier_id: id };
            let all = unlatches + removal_records(v.curves, ids, upto);
            assert(all =~= (unlatches + earlier).push(added));
            assert(all.drop_last() =~= unlatches + earlier);
        }
    }
}

/// Deleting a batch of curves leaves exactly this: the curves are gone, the
/// curves that are left have lost their latches to them and nothing else, and
/// every group that had one of them as a member is dissolved.
pub proof fn law_deletion_outcome(v: PenView, ids: Seq<BezierId>)
    requires
        v.wf(),
    ensures
        v.replay(deletion_records(v.curves, ids)) == after_deletion(v, ids),
{
    lemma_removal_records_delete(v, ids, ids.len() as int);
    let last = partly_deleted(v, ids, ids.len() as int);
    let wanted = after_deletion(v, ids);
    assert(ids.take(ids.len() as int) =~= ids);
    assert(last.curves =~= wanted.curves) by {
        assert forall|id: BezierId| wanted.curves.contains_key(id) implies #[trigger] last.curves[id]
            == wanted.curves[id] by {
            assert(half_sound(v.curves, id, AnchorEdge::Start));
            assert(half_sound(v.curves, id, AnchorEdge::End));
        }
    }
    assert(last.groups =~= wanted.groups);
}

/// None of the curves `ids` that exist is in a group.
pub open spec fn none_grouped(curves: Curves, ids: Seq<BezierId>) -> bool {
    forall|i: int|
        0 <= i < ids.len() && curves.contains_key(#[trigger] ids[i]) ==> curves[ids[i]].group.is_none()
}

/// Where none of the deleted curves is in a group, each record of the
/// deletion fits the document that the records before it leave.
proof fn lemma_deletion_fits_each(v: PenView, ids: Seq<BezierId>, upto: int)
    requires
        v.wf(),
        none_grouped(v.curves, ids),
        0 <= upto <= ids.len(),
    ensures
        fits_each(
            v,
            unlatch_records(v.curves, ids, ids.len() as int) + removal_records(v.curves, ids, upto),
        ),
    decreases upto,
{
    let unlatches = unlatch_records(v.curves, ids, ids.len() as int);
    if upto <= 0 {
        lemma_unlatch_records_cut(v, ids, ids.len() as int);
        assert(unlatches + removal_records(v.curves, ids, upto) =~= unlatches);
    } else {
        lemma_deletion_fits_each(v, ids, upto - 1);
        lemma_removal_records_delete(v, ids, upto - 1);
        lemma_delete_one_more(v, ids, upto);
        let id = ids[upto - 1];
        let earlier = unlatches + removal_records(v.curves, ids, upto - 1);
        if v.curves.contains_key(id) && !ids.take(upto - 1).contains(id) {
            let added = HistoryAction::DeletedCurve { bezier: v.curves[id].hist(), bezier_id: id };
            let all = unlatches + removal_records(v.curves, ids, upto);
            assert(all =~= earlier.push(added));
            assert forall|k: int| 0 <= k < all.len() implies fits(
                v.replay(all.take(k)),
                #[trigger] all[k],
            ) by {
                if k < earlier.len() {
                    assert(all.take(k) =~= earlier.take(k));
                    assert(all[k] == earlier[k]);
                } else {
                    assert(all.take(k) =~= earlier);
                    assert(v.curves[id].group.is_none());
                }
            }
        }
    }
}

/// Records that each fit what the ones before leave, applied without being
/// recorded, make a run of actions that fit when they are performed.
proof fn lemma_fits_each_is_run(v: PenView, records: Seq<HistoryAction>)
    requires
        v.wf(),
        fits_each(v, records),
    ensures
        crate::laws::fits_run(v, records),
    decreases records.len(),
{
    if records.len() > 0 {
        let init = records.drop_last();
        assert forall|k: int| 0 <= k < init.len() implies fits(
            v.replay(init.take(k)),
            #[trigger] init[k],
        ) by {
            assert(init.take(k) =~= records.take(k));
            assert(init[k] == records[k]);
        }
        lemma_fits_each_is_run(v, init);
        crate::laws::lemma_run_and_replay(v, init);
        assert(records.take(records.len() - 1) =~= init);
        assert(fits(v.replay(init), records[records.len() - 1]));
    }
}

/// The deletion of curves that are in no group can be taken back without a
/// trace: its records are a run of actions that fit, so that as many undos as
/// there are records bring every curve and latch back.
pub proof fn law_deletion_fits(v: PenView, ids: Seq<BezierId>)
    requires
        v.wf(),
        none_grouped(v.curves, ids),
    ensures
        crate::laws::fits_run(v, deletion_records(v.curves, ids)),
{
    lemma_deletion_fits_each(v, ids, ids.len() as int);
    lemma_fits_each_is_run(v, deletion_records(v.curves, ids));
}

/// Curve `x` is touched by the deletion of one of the first `upto` curves:
/// it is one of them, or is latched to one, or is in a group with one.
pub open spec fn deletion_touches(v: PenView, ids: Seq<BezierId>, upto: int, x: BezierId) -> bool {
    exists|i: int| 0 <= i < upto && removal_touches(v, #[trigger] ids[i], x)
}

/// The deletion of a batch leaves every curve that it does not touch as it
/// is, there or not there.
pub proof fn law_deletion_frame(v: PenView, ids: Seq<BezierId>)
    requires
        v.wf(),
    ensures
        forall|x: BezierId|
            !deletion_touches(v, ids, ids.len() as int, x) ==> #[trigger] same_at(
                v.curves,
                after_deletion(v, ids).curves,
                x,
            ),
{
    assert forall|x: BezierId| !deletion_touches(v, ids, ids.len() as int, x) implies #[trigger] same_at(
        v.curves,
        after_deletion(v, ids).curves,
        x,
    ) by {
        if v.curves.contains_key(x) {
            if ids.contains(x) {
                let i = choose|i: int| 0 <= i < ids.len() && ids[i] == x;
                assert(removal_touches(v, ids[i], x));
            }
            assert(half_sound(v.curves, x, AnchorEdge::Start));
            assert(half_sound(v.curves, x, AnchorEdge::End));
            match v.curves[x].latch_start {
                Some(h) => {
                    if ids.contains(h.latched_to_id) {
                        let i = choose|i: int| 0 <= i < ids.len() && ids[i] == h.latched_to_id;
                        assert(crate::chain::leads_to(v.curves, ids[i], h.partners_edge, x));
                        assert(removal_touches(v, ids[i], x));
                    }
                },
                None => {},
            }
            match v.curves[x].latch_end {
                Some(h) => {
                    if ids.contains(h.latched_to_id) {
                        let i = choose|i: int| 0 <= i < ids.len() && ids[i] == h.latched_to_id;
                        assert(crate::chain::leads_to(v.curves, ids[i], h.partners_edge, x));
                        assert(removal_touches(v, ids[i], x));
                    }
                },
                None => {},
            }
            match v.curves[x].group {
                Some(g) => {
                    if loses_member(v.curves, ids, g) {
                        let i = choose|i: int|
                            0 <= i < ids.len() && v.curves.contains_key(#[trigger] ids[i])
                                && v.curves[ids[i]].group == Some(g);
                        assert(removal_touches(v, ids[i], x));
                    }
                },
                None => {},
            }
        }
    }
}

} // verus!
