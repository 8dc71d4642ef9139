//! What the deletion of a batch of curves writes to the history.

use crate::curve::{AnchorEdge, BezierId, CurveIdEdge};
use crate::history::HistoryAction;
use crate::latch::{entry, half_sound, latches_sound, Curves};
use vstd::prelude::*;

verus! {

/// One of the records is about the latch between `a` and `b`, whichever of
/// the two it names first.
pub open spec fn names_latch(records: Seq<HistoryAction>, a: CurveIdEdge, b: CurveIdEdge) -> bool {
    exists|i: int|
        0 <= i < records.len() && ((#[trigger] records[i]).ends() == Some((a, b)) || records[i].ends()
            == Some((b, a)))
}

/// The records with one more for the latch that endpoint `at` holds, unless
/// `at` is free or the latch is already named.
pub open spec fn noted(curves: Curves, records: Seq<HistoryAction>, at: CurveIdEdge) -> Seq<
    HistoryAction,
> {
    match entry(curves, at) {
        Some(half) => if names_latch(records, at, half.partner()) {
            records
        } else {
            records.push(HistoryAction::unlatching(at, half.partner()))
        },
        None => records,
    }
}

/// The unlatch records for the first `upto` of the curves `ids`: one for
/// every latch that one of them holds, in the order of the curves, the start
/// of a curve before its end, and never two for one latch.
pub open spec fn unlatch_records(curves: Curves, ids: Seq<BezierId>, upto: int) -> Seq<
    HistoryAction,
>
    decreases upto,
{
    if upto <= 0 {
        Seq::empty()
    } else {
        let id = ids[upto - 1];
        noted(
            curves,
            noted(
                curves,
                unlatch_records(curves, ids, upto - 1),
                CurveIdEdge { id, anchor_edge: AnchorEdge::Start },
            ),
            CurveIdEdge { id, anchor_edge: AnchorEdge::End },
        )
    }
}

/// The deletion records for the first `upto` of the curves `ids`: one for
/// every curve that exists, in order, with its geometry, and never two for one
/// curve.
pub open spec fn removal_records(curves: Curves, ids: Seq<BezierId>, upto: int) -> Seq<
    HistoryAction,
>
    decreases upto,
{
    if upto <= 0 {
        Seq::empty()
    } else {
        let earlier = removal_records(curves, ids, upto - 1);
        let id = ids[upto - 1];
        if curves.contains_key(id) && !ids.take(upto - 1).contains(id) {
            earlier.push(HistoryAction::DeletedCurve { bezier: curves[id].hist(), bezier_id: id })
        } else {
            earlier
        }
    }
}

/// All that the deletion of the curves `ids` writes to the history: first
/// the unlatch records, then the deletion records. Taking them back in
/// reverse order first brings the curves back and then their latches.
pub open spec fn deletion_records(curves: Curves, ids: Seq<BezierId>) -> Seq<HistoryAction> {
    unlatch_records(curves, ids, ids.len() as int) + removal_records(curves, ids, ids.len() as int)
}

/// Every one of the curves exists.
pub open spec fn all_known(curves: Curves, ids: Seq<BezierId>) -> bool {
    forall|i: int| 0 <= i < ids.len() ==> curves.contains_key(#[trigger] ids[i])
}

/// The record is about the latch between `a` and `b`, whichever of the two
/// it names first.
pub open spec fn about_latch(record: HistoryAction, a: CurveIdEdge, b: CurveIdEdge) -> bool {
    record.ends() == Some((a, b)) || record.ends() == Some((b, a))
}

/// Every record is the unlatch of a latch that exists, named from the side
/// of a curve in `ids`, and no two records are about the same latch.
pub open spec fn unlatches_once(curves: Curves, ids: Seq<BezierId>, records: Seq<HistoryAction>) -> bool {
    &&& forall|i: int|
        0 <= i < records.len() ==> {
            let (a, b) = (#[trigger] records[i]).ends().unwrap();
            &&& records[i] == HistoryAction::unlatching(a, b)
            &&& entry(curves, a) == Some(a.half_towards(b))
            &&& ids.contains(a.id)
        }
    &&& forall|i: int, j: int|
        0 <= i < j < records.len() ==> {
            let (a, b) = (#[trigger] records[i]).ends().unwrap();
            !about_latch(#[trigger] records[j], a, b)
        }
}

proof fn lemma_noted_once(
    curves: Curves,
    ids: Seq<BezierId>,
    records: Seq<HistoryAction>,
    at: CurveIdEdge,
)
    requires
        latches_sound(curves),
        unlatches_once(curves, ids, records),
        ids.contains(at.id),
    ensures
        unlatches_once(curves, ids, noted(curves, records, at)),
        forall|a: CurveIdEdge, b: CurveIdEdge|
            names_latch(records, a, b) ==> names_latch(noted(curves, records, at), a, b),
        match entry(curves, at) {
            Some(half) => names_latch(noted(curves, records, at), at, half.partner()),
            None => true,
        },
{
    let after = noted(curves, records, at);
    assert forall|a: CurveIdEdge, b: CurveIdEdge| names_latch(records, a, b) implies names_latch(
        after,
        a,
        b,
    ) by {
        let i = choose|i: int|
            0 <= i < records.len() && ((#[trigger] records[i]).ends() == Some((a, b)) || records[i].ends()
                == Some((b, a)));
        assert(after[i] == records[i]);
    }
    match entry(curves, at) {
        Some(half) => {
            assert(half_sound(curves, at.id, at.anchor_edge));
            if !names_latch(records, at, half.partner()) {
                let added = HistoryAction::unlatching(at, half.partner());
                assert(after[records.len() as int] == added);
                assert(added.ends() == Some((at, half.partner())));
                assert forall|i: int, j: int| 0 <= i < j < after.len() implies {
                    let (a, b) = (#[trigger] after[i]).ends().unwrap();
                    !about_latch(#[trigger] after[j], a, b)
                } by {
                    let (a, b) = after[i].ends().unwrap();
                    if j == records.len() {
                        assert(records[i].ends() == Some((a, b)));
                        if about_latch(added, a, b) {
                            assert(records[i].ends() == Some((at, half.partner())) || records[i].ends()
                                == Some((half.partner(), at)));
                        }
                    } else {
                        assert(after[i] == records[i] && after[j] == records[j]);
                    }
                }
                assert forall|i: int| 0 <= i < after.len() implies {
                    let (a, b) = (#[trigger] after[i]).ends().unwrap();
                    &&& after[i] == HistoryAction::unlatching(a, b)
                    &&& entry(curves, a) == Some(a.half_towards(b))
                    &&& ids.contains(a.id)
                } by {
                    if i < records.len() {
                        assert(after[i] == records[i]);
                    }
                }
            }
        },
        None => {},
    }
}

/// Deleting a batch of curves records every latch that one of them holds
/// exactly once, also where both its ends are deleted, and records nothing
/// else as unlatched.
pub proof fn law_one_unlatch_per_latch(curves: Curves, ids: Seq<BezierId>, upto: int)
    requires
        latches_sound(curves),
        0 <= upto <= ids.len(),
    ensures
        unlatches_once(curves, ids, unlatch_records(curves, ids, upto)),
        forall|k: int, edge: AnchorEdge|
            0 <= k < upto ==> match #[trigger] entry(
                curves,
                CurveIdEdge { id: ids[k], anchor_edge: edge },
            ) {
                Some(half) => names_latch(
                    unlatch_records(curves, ids, upto),
                    CurveIdEdge { id: ids[k], anchor_edge: edge },
                    half.partner(),
                ),
                None => true,
            },
    decreases upto,
{
    if upto > 0 {
        law_one_unlatch_per_latch(curves, ids, upto - 1);
        let id = ids[upto - 1];
        let earlier = unlatch_records(curves, ids, upto - 1);
        let start = CurveIdEdge { id, anchor_edge: AnchorEdge::Start };
        let end = CurveIdEdge { id, anchor_edge: AnchorEdge::End };
        lemma_noted_once(curves, ids, earlier, start);
        let between = noted(curves, earlier, start);
        lemma_noted_once(curves, ids, between, end);
        let all = unlatch_records(curves, ids, upto);
        assert(all == noted(curves, between, end));
        assert forall|k: int, edge: AnchorEdge| 0 <= k < upto implies match #[trigger] entry(
            curves,
            CurveIdEdge { id: ids[k], anchor_edge: edge },
        ) {
            Some(half) => names_latch(
                all,
                CurveIdEdge { id: ids[k], anchor_edge: edge },
                half.partner(),
            ),
            None => true,
        } by {
            let at = CurveIdEdge { id: ids[k], anchor_edge: edge };
            match entry(curves, at) {
                Some(half) => {
                    if k < upto - 1 {
                        assert(names_latch(earlier, at, half.partner()));
                        assert(names_latch(between, at, half.partner()));
                    } else if edge == AnchorEdge::Start {
                        assert(names_latch(between, at, half.partner()));
                    }
                },
                None => {},
            }
        }
    }
}

} // verus!
