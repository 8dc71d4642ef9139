//! The actions that the history keeps.

use crate::curve::{Anchor, AnchorEdge, BezierHist, BezierId, CurveIdEdge, Point};
use vstd::prelude::*;

verus! {

/// One reversible edit. Each variant carries all that is needed to apply it
/// again and to take it back.
#[derive(Clone, Copy, Debug, PartialEq, Eq, Structural, Hash)]
pub enum HistoryAction {
    MovedAnchor {
        bezier_id: BezierId,
        anchor: Anchor,
        previous_position: Point,
        new_position: Point,
    },
    SpawnedCurve { bezier_id: BezierId, bezier_hist: BezierHist },
    DeletedCurve { bezier: BezierHist, bezier_id: BezierId },
    Latched {
        self_id: BezierId,
        self_anchor: AnchorEdge,
        partner_bezier_id: BezierId,
        partner_anchor: AnchorEdge,
    },
    Unlatched {
        self_id: BezierId,
        partner_bezier_id: BezierId,
        self_anchor: AnchorEdge,
        partner_anchor: AnchorEdge,
    },
}

impl HistoryAction {
    /// The record of a latch between `a` and `b`.
    pub open spec fn latching(a: CurveIdEdge, b: CurveIdEdge) -> HistoryAction {
        HistoryAction::Latched {
            self_id: a.id,
            self_anchor: a.anchor_edge,
            partner_bezier_id: b.id,
            partner_anchor: b.anchor_edge,
        }
    }

    /// The record of the removal of the latch between `a` and `b`.
    pub open spec fn unlatching(a: CurveIdEdge, b: CurveIdEdge) -> HistoryAction {
        HistoryAction::Unlatched {
            self_id: a.id,
            partner_bezier_id: b.id,
            self_anchor: a.anchor_edge,
            partner_anchor: b.anchor_edge,
        }
    }

    /// The two endpoints that a latch or unlatch record names, the holder's
    /// first.
    pub open spec fn ends(self) -> Option<(CurveIdEdge, CurveIdEdge)> {
        match self {
            HistoryAction::Latched { self_id, self_anchor, partner_bezier_id, partner_anchor } => Some(
                (
                    CurveIdEdge { id: self_id, anchor_edge: self_anchor },
                    CurveIdEdge { id: partner_bezier_id, anchor_edge: partner_anchor },
                ),
            ),
            HistoryAction::Unlatched {
                self_id,
                partner_bezier_id,
                self_anchor,
                partner_anchor,
            } => Some(
                (
                    CurveIdEdge { id: self_id, anchor_edge: self_anchor },
                    CurveIdEdge { id: partner_bezier_id, anchor_edge: partner_anchor },
                ),
            ),
            _ => None,
        }
    }
}

} // verus!
