//! The latch graph as mathematics: curves keyed by identity, each holding at
//! most one latch entry per endpoint, every entry answered by its mirror.

use crate::curve::{Anchor, AnchorEdge, Bezier, BezierId, CurveIdEdge, LatchData, Point};
use crate::error::PenError;
use vstd::prelude::*;

verus! {

/// The curves of a document, by identity.
pub type Curves = Map<BezierId, Bezier>;

/// The entry that an endpoint holds, `None` also where the curve is missing.
pub open spec fn entry(curves: Curves, at: CurveIdEdge) -> Option<LatchData> {
    if curves.contains_key(at.id) {
        curves[at.id].latch(at.anchor_edge)
    } else {
        None
    }
}

/// The endpoint that `at` is latched to, if any.
pub open spec fn partner(curves: Curves, at: CurveIdEdge) -> Option<CurveIdEdge> {
    match entry(curves, at) {
        Some(half) => Some(half.partner()),
        None => None,
    }
}

/// The entry under one endpoint of curve `id`, if there is one, is filed
/// under its own edge, points at another endpoint of an existing curve, and
/// that endpoint holds the exact mirror.
pub open spec fn half_sound(curves: Curves, id: BezierId, edge: AnchorEdge) -> bool {
    match curves[id].latch(edge) {
        Some(half) => {
            &&& half.self_edge == edge
            &&& half.partner() != (CurveIdEdge { id, anchor_edge: edge })
            &&& curves.contains_key(half.latched_to_id)
            &&& curves[half.latched_to_id].latch(half.partners_edge) == Some(half.mirror(id))
        },
        None => true,
    }
}

/// Every curve is filed under its own identity and every latch entry has its
/// mirror: no latch is one-sided.
pub open spec fn latches_sound(curves: Curves) -> bool {
    &&& forall|id: BezierId| curves.contains_key(id) ==> (#[trigger] curves[id]).id == id
    &&& forall|id: BezierId, edge: AnchorEdge|
        curves.contains_key(id) ==> #[trigger] half_sound(curves, id, edge)
}

/// The curves with the entry under one endpoint replaced.
pub open spec fn set_entry(curves: Curves, at: CurveIdEdge, half: Option<LatchData>) -> Curves {
    curves.insert(at.id, curves[at.id].with_latch(at.anchor_edge, half))
}

/// Why `a` and `b` cannot be latched, or `None` if they can.
pub open spec fn latch_refusal(curves: Curves, a: CurveIdEdge, b: CurveIdEdge) -> Option<PenError> {
    if !curves.contains_key(a.id) || !curves.contains_key(b.id) {
        Some(PenError::UnknownId)
    } else if a == b || entry(curves, a).is_some() || entry(curves, b).is_some() {
        Some(PenError::AlreadyLatched)
    } else {
        None
    }
}

/// The curves after `a` and `b` have been latched: both halves at once.
pub open spec fn latched(curves: Curves, a: CurveIdEdge, b: CurveIdEdge) -> Curves {
    set_entry(set_entry(curves, a, Some(a.half_towards(b))), b, Some(b.half_towards(a)))
}

/// Why the latch between `a` and `b` cannot be removed, or `None` if it can.
pub open spec fn unlatch_refusal(curves: Curves, a: CurveIdEdge, b: CurveIdEdge) -> Option<
    PenError,
> {
    if !curves.contains_key(a.id) || !curves.contains_key(b.id) {
        Some(PenError::UnknownId)
    } else if entry(curves, a) != Some(a.half_towards(b)) {
        Some(PenError::NotLatched)
    } else {
        None
    }
}

/// The curves after the latch between `a` and `b` has been removed: both
/// halves at once.
pub open spec fn unlatched(curves: Curves, a: CurveIdEdge, b: CurveIdEdge) -> Curves {
    set_entry(set_entry(curves, a, None), b, None)
}

/// The curves after endpoint `at` has been set free, together with whatever
/// it was latched to.
pub open spec fn freed(curves: Curves, at: CurveIdEdge) -> Curves {
    match entry(curves, at) {
        Some(half) => unlatched(curves, at, half.partner()),
        None => curves,
    }
}

/// The curves after both endpoints of curve `id` have been set free.
pub open spec fn detached(curves: Curves, id: BezierId) -> Curves {
    freed(
        freed(curves, CurveIdEdge { id, anchor_edge: AnchorEdge::Start }),
        CurveIdEdge { id, anchor_edge: AnchorEdge::End },
    )
}

/// The curves after one point of curve `id` has been moved. An endpoint
/// that is latched takes its partner along: the two stay in one place.
pub open spec fn moved(curves: Curves, id: BezierId, anchor: Anchor, position: Point) -> Curves {
    let own = curves.insert(id, curves[id].with_position(anchor, position));
    match anchor.edge() {
        Some(edge) => match curves[id].latch(edge) {
            Some(half) => own.insert(
                half.latched_to_id,
                own[half.latched_to_id].with_position(half.partners_edge.anchor(), position),
            ),
            None => own,
        },
        None => own,
    }
}

/// The two hold the same curves, and each curve has the same identity,
/// geometry and group tag in both: at most latch entries differ.
pub open spec fn same_but_latches(before: Curves, after: Curves) -> bool {
    &&& after.dom() == before.dom()
    &&& forall|id: BezierId|
        before.contains_key(id) ==> {
            &&& (#[trigger] after[id]).id == before[id].id
            &&& after[id].positions == before[id].positions
            &&& after[id].group == before[id].group
        }
}

/// The two hold the same curves, and each curve has the same identity, latch
/// entries and group tag in both: at most geometry differs.
pub open spec fn same_but_positions(before: Curves, after: Curves) -> bool {
    &&& after.dom() == before.dom()
    &&& forall|id: BezierId|
        before.contains_key(id) ==> {
            &&& (#[trigger] after[id]).id == before[id].id
            &&& after[id].latch_start == before[id].latch_start
            &&& after[id].latch_end == before[id].latch_end
            &&& after[id].group == before[id].group
        }
}

/// Where every latch is mirrored, the partner of an endpoint is another
/// endpoint of an existing curve, and its partner is the first endpoint again.
pub proof fn lemma_partner_mirrored(curves: Curves, at: CurveIdEdge)
    requires
        latches_sound(curves),
        partner(curves, at).is_some(),
    ensures
        partner(curves, partner(curves, at).unwrap()) == Some(at),
        partner(curves, at).unwrap() != at,
        curves.contains_key(at.id),
        curves.contains_key(partner(curves, at).unwrap().id),
{
    assert(half_sound(curves, at.id, at.anchor_edge));
}

/// Latching two free endpoints keeps every latch mirrored.
pub proof fn lemma_latched_sound(curves: Curves, a: CurveIdEdge, b: CurveIdEdge)
    requires
        latches_sound(curves),
        latch_refusal(curves, a, b).is_none(),
    ensures
        latches_sound(latched(curves, a, b)),
        same_but_latches(curves, latched(curves, a, b)),
        entry(latched(curves, a, b), a) == Some(a.half_towards(b)),
        entry(latched(curves, a, b), b) == Some(b.half_towards(a)),
{
    let after = latched(curves, a, b);
    assert(after.dom() =~= curves.dom());
    assert forall|id: BezierId, edge: AnchorEdge| after.contains_key(id) implies #[trigger] half_sound(
        after,
        id,
        edge,
    ) by {
        assert(half_sound(curves, id, edge));
        let at = CurveIdEdge { id, anchor_edge: edge };
        if at != a && at != b {
            match curves[id].latch(edge) {
                Some(half) => {
                    assert(half_sound(curves, half.latched_to_id, half.partners_edge));
                },
                None => {},
            }
        }
    }
}

/// Removing a latch keeps every other latch mirrored.
pub proof fn lemma_unlatched_sound(curves: Curves, a: CurveIdEdge, b: CurveIdEdge)
    requires
        latches_sound(curves),
        unlatch_refusal(curves, a, b).is_none(),
    ensures
        latches_sound(unlatched(curves, a, b)),
        same_but_latches(curves, unlatched(curves, a, b)),
        entry(curves, b) == Some(b.half_towards(a)),
        entry(unlatched(curves, a, b), a).is_none(),
        entry(unlatched(curves, a, b), b).is_none(),
{
    let after = unlatched(curves, a, b);
    assert(half_sound(curves, a.id, a.anchor_edge));
    assert(after.dom() =~= curves.dom());
    assert forall|id: BezierId, edge: AnchorEdge| after.contains_key(id) implies #[trigger] half_sound(
        after,
        id,
        edge,
    ) by {
        assert(half_sound(curves, id, edge));
        let at = CurveIdEdge { id, anchor_edge: edge };
        if at != a && at != b {
            match curves[id].latch(edge) {
                Some(half) => {
                    assert(half_sound(curves, half.latched_to_id, half.partners_edge));
                },
                None => {},
            }
        }
    }
}

/// Setting an endpoint free keeps every other latch mirrored.
pub proof fn lemma_freed_sound(curves: Curves, at: CurveIdEdge)
    requires
        latches_sound(curves),
    ensures
        latches_sound(freed(curves, at)),
        same_but_latches(curves, freed(curves, at)),
        entry(freed(curves, at), at).is_none(),
        forall|other: CurveIdEdge|
            entry(curves, other).is_none() ==> (#[trigger] entry(freed(curves, at), other)).is_none(),
{
    match entry(curves, at) {
        Some(half) => {
            assert(half_sound(curves, at.id, at.anchor_edge));
            lemma_unlatched_sound(curves, at, half.partner());
        },
        None => {},
    }
}

/// Setting both endpoints of a curve free keeps every other latch mirrored.
pub proof fn lemma_detached_sound(curves: Curves, id: BezierId)
    requires
        latches_sound(curves),
    ensures
        latches_sound(detached(curves, id)),
        same_but_latches(curves, detached(curves, id)),
        entry(detached(curves, id), CurveIdEdge { id, anchor_edge: AnchorEdge::Start }).is_none(),
        entry(detached(curves, id), CurveIdEdge { id, anchor_edge: AnchorEdge::End }).is_none(),
{
    let start = CurveIdEdge { id, anchor_edge: AnchorEdge::Start };
    let end = CurveIdEdge { id, anchor_edge: AnchorEdge::End };
    lemma_freed_sound(curves, start);
    lemma_freed_sound(freed(curves, start), end);
}

/// Moving a point changes no latch.
pub proof fn lemma_moved_sound(curves: Curves, id: BezierId, anchor: Anchor, position: Point)
    requires
        latches_sound(curves),
        curves.contains_key(id),
    ensures
        latches_sound(moved(curves, id, anchor, position)),
        same_but_positions(curves, moved(curves, id, anchor, position)),
        forall|at: CurveIdEdge| #[trigger]
            entry(moved(curves, id, anchor, position), at) == entry(curves, at),
{
    let after = moved(curves, id, anchor, position);
    match anchor.edge() {
        Some(edge) => {
            assert(half_sound(curves, id, edge));
        },
        None => {},
    }
    assert(after.dom() =~= curves.dom());
    assert forall|other: BezierId, edge: AnchorEdge| after.contains_key(other) implies #[trigger] after[other].latch(
        edge,
    ) == curves[other].latch(edge) by {}
    assert forall|other: BezierId, edge: AnchorEdge| after.contains_key(other) implies #[trigger] half_sound(
        after,
        other,
        edge,
    ) by {
        assert(half_sound(curves, other, edge));
        match curves[other].latch(edge) {
            Some(half) => {
                assert(after[half.latched_to_id].latch(half.partners_edge)
                    == curves[half.latched_to_id].latch(half.partners_edge));
            },
            None => {},
        }
    }
}

} // verus!
