//! The record kept for one curve, and the small types it is made of.

use vstd::prelude::*;

verus! {

/// Identity of a curve. It is chosen when the curve is created and stays with
/// it through deletion and re-creation by the history.
pub type BezierId = u64;

/// Identity of a group.
pub type GroupId = u64;

/// One of the two endpoints of a curve: the only places where a latch can sit.
#[derive(Clone, Copy, Debug, PartialEq, Eq, Structural, Hash)]
pub enum AnchorEdge {
    Start,
    End,
}

/// One of the four points that define a cubic bezier curve.
#[derive(Clone, Copy, Debug, PartialEq, Eq, Structural, Hash)]
pub enum Anchor {
    Start,
    End,
    ControlStart,
    ControlEnd,
}

/// A position. The coordinates are opaque 32-bit words: whoever draws the
/// curve decides what the bits mean. Nothing here computes with them; points are
/// only stored, copied and compared.
#[derive(Clone, Copy, Debug, PartialEq, Eq, Structural, Hash)]
pub struct Point {
    pub x: u32,
    pub y: u32,
}

/// The geometry of one curve.
#[derive(Clone, Copy, Debug, PartialEq, Eq, Structural, Hash)]
pub struct BezierPositions {
    pub start: Point,
    pub end: Point,
    pub control_start: Point,
    pub control_end: Point,
}

/// One directed half of a latch: the curve that holds it says, under
/// `self_edge`, that this endpoint is pinned to endpoint `partners_edge` of
/// curve `latched_to_id`.
#[derive(Clone, Copy, Debug, PartialEq, Eq, Structural, Hash)]
pub struct LatchData {
    pub latched_to_id: BezierId,
    pub self_edge: AnchorEdge,
    pub partners_edge: AnchorEdge,
}

/// An endpoint of a named curve.
#[derive(Clone, Copy, Debug, PartialEq, Eq, Structural, Hash)]
pub struct CurveIdEdge {
    pub id: BezierId,
    pub anchor_edge: AnchorEdge,
}

/// What the history keeps of a curve so that it can be created again.
#[derive(Clone, Copy, Debug, PartialEq, Eq, Structural, Hash)]
pub struct BezierHist {
    pub positions: BezierPositions,
}

/// The record of one curve.
#[derive(Clone, Copy, Debug)]
pub struct Bezier {
    pub id: BezierId,
    pub positions: BezierPositions,
    pub latch_start: Option<LatchData>,
    pub latch_end: Option<LatchData>,
    pub group: Option<GroupId>,
}

impl AnchorEdge {
    /// The other endpoint of the same curve.
    pub open spec fn opposite(self) -> AnchorEdge {
        match self {
            AnchorEdge::Start => AnchorEdge::End,
            AnchorEdge::End => AnchorEdge::Start,
        }
    }

    /// The point of the curve that sits at this endpoint.
    pub open spec fn anchor(self) -> Anchor {
        match self {
            AnchorEdge::Start => Anchor::Start,
            AnchorEdge::End => Anchor::End,
        }
    }

    pub fn other(self) -> (r: AnchorEdge)
        ensures
            r == self.opposite(),
    {
        match self {
            AnchorEdge::Start => AnchorEdge::End,
            AnchorEdge::End => AnchorEdge::Start,
        }
    }

    pub fn to_anchor(self) -> (r: Anchor)
        ensures
            r == self.anchor(),
    {
        match self {
            AnchorEdge::Start => Anchor::Start,
            AnchorEdge::End => Anchor::End,
        }
    }
}

impl Anchor {
    /// The endpoint that this point is: `None` for the two control points.
    pub open spec fn edge(self) -> Option<AnchorEdge> {
        match self {
            Anchor::Start => Some(AnchorEdge::Start),
            Anchor::End => Some(AnchorEdge::End),
            Anchor::ControlStart => None,
            Anchor::ControlEnd => None,
        }
    }

    /// The endpoint that this point belongs to, a control point counting with
    /// the endpoint it steers.
    pub open spec fn edge_with_controls(self) -> AnchorEdge {
        match self {
            Anchor::Start => AnchorEdge::Start,
            Anchor::ControlStart => AnchorEdge::Start,
            Anchor::End => AnchorEdge::End,
            Anchor::ControlEnd => AnchorEdge::End,
        }
    }

    /// The point that goes with this one: the control point of an endpoint,
    /// the endpoint of a control point.
    pub open spec fn twin(self) -> Anchor {
        match self {
            Anchor::Start => Anchor::ControlStart,
            Anchor::ControlStart => Anchor::Start,
            Anchor::End => Anchor::ControlEnd,
            Anchor::ControlEnd => Anchor::End,
        }
    }

    pub fn adjoint(self) -> (r: Anchor)
        ensures
            r == self.twin(),
    {
        match self {
            Anchor::Start => Anchor::ControlStart,
            Anchor::ControlStart => Anchor::Start,
            Anchor::End => Anchor::ControlEnd,
            Anchor::ControlEnd => Anchor::End,
        }
    }

    pub fn to_edge(self) -> (r: Option<AnchorEdge>)
        ensures
            r == self.edge(),
    {
        match self {
            Anchor::Start => Some(AnchorEdge::Start),
            Anchor::End => Some(AnchorEdge::End),
            Anchor::ControlStart => None,
            Anchor::ControlEnd => None,
        }
    }

    pub fn to_edge_with_controls(self) -> (r: AnchorEdge)
        ensures
            r == self.edge_with_controls(),
    {
        match self {
            Anchor::Start => AnchorEdge::Start,
            Anchor::ControlStart => AnchorEdge::Start,
            Anchor::End => AnchorEdge::End,
            Anchor::ControlEnd => AnchorEdge::End,
        }
    }
}

impl BezierPositions {
    /// The position of one of the four points.
    pub open spec fn at(self, anchor: Anchor) -> Point {
        match anchor {
            Anchor::Start => self.start,
            Anchor::End => self.end,
            Anchor::ControlStart => self.control_start,
            Anchor::ControlEnd => self.control_end,
        }
    }

    /// The same geometry with one point moved.
    pub open spec fn with(self, anchor: Anchor, position: Point) -> BezierPositions {
        match anchor {
            Anchor::Start => BezierPositions { start: position, ..self },
            Anchor::End => BezierPositions { end: position, ..self },
            Anchor::ControlStart => BezierPositions { control_start: position, ..self },
            Anchor::ControlEnd => BezierPositions { control_end: position, ..self },
        }
    }

    /// All four points at the origin.
    pub fn zero() -> (r: BezierPositions)
        ensures
            forall|anchor: Anchor| r.at(anchor) == (Point { x: 0, y: 0 }),
    {
        let origin = Point { x: 0, y: 0 };
        BezierPositions { start: origin, end: origin, control_start: origin, control_end: origin }
    }

    pub fn get_position(&self, anchor: Anchor) -> (r: Point)
        ensures
            r == self.at(anchor),
    {
        match anchor {
            Anchor::Start => self.start,
            Anchor::End => self.end,
            Anchor::ControlStart => self.control_start,
            Anchor::ControlEnd => self.control_end,
        }
    }

    pub fn set_position(&mut self, anchor: Anchor, position: Point)
        ensures
            *final(self) == old(self).with(anchor, position),
    {
        match anchor {
            Anchor::Start => {
                self.start = position;
            },
            Anchor::End => {
                self.end = position;
            },
            Anchor::ControlStart => {
                self.control_start = position;
            },
            Anchor::ControlEnd => {
                self.control_end = position;
            },
        }
    }
}

impl LatchData {
    /// The half that the partner must hold for this half, held by curve
    /// `holder`, to be part of a sound latch.
    pub open spec fn mirror(self, holder: BezierId) -> LatchData {
        LatchData {
            latched_to_id: holder,
            self_edge: self.partners_edge,
            partners_edge: self.self_edge,
        }
    }

    /// The endpoint that this half points at.
    pub open spec fn partner(self) -> CurveIdEdge {
        CurveIdEdge { id: self.latched_to_id, anchor_edge: self.partners_edge }
    }
}

impl CurveIdEdge {
    /// The half that this endpoint holds when it is latched to `to`.
    pub open spec fn half_towards(self, to: CurveIdEdge) -> LatchData {
        LatchData {
            latched_to_id: to.id,
            self_edge: self.anchor_edge,
            partners_edge: to.anchor_edge,
        }
    }
}

impl Bezier {
    /// A curve as it is right after its creation: no latch, no group.
    pub open spec fn fresh(id: BezierId, positions: BezierPositions) -> Bezier {
        Bezier { id, positions, latch_start: None, latch_end: None, group: None }
    }

    /// The latch entry under one endpoint.
    pub open spec fn latch(self, edge: AnchorEdge) -> Option<LatchData> {
        match edge {
            AnchorEdge::Start => self.latch_start,
            AnchorEdge::End => self.latch_end,
        }
    }

    /// The same curve with the entry under one endpoint replaced.
    pub open spec fn with_latch(self, edge: AnchorEdge, entry: Option<LatchData>) -> Bezier {
        match edge {
            AnchorEdge::Start => Bezier { latch_start: entry, ..self },
            AnchorEdge::End => Bezier { latch_end: entry, ..self },
        }
    }

    /// The same curve with one point moved.
    pub open spec fn with_position(self, anchor: Anchor, position: Point) -> Bezier {
        Bezier { positions: self.positions.with(anchor, position), ..self }
    }

    /// The same curve with another group tag.
    pub open spec fn with_group(self, group: Option<GroupId>) -> Bezier {
        Bezier { group, ..self }
    }

    /// What the history keeps of this curve.
    pub open spec fn hist(self) -> BezierHist {
        BezierHist { positions: self.positions }
    }

    pub fn new(id: BezierId, positions: BezierPositions) -> (r: Bezier)
        ensures
            r == Bezier::fresh(id, positions),
    {
        Bezier { id, positions, latch_start: None, latch_end: None, group: None }
    }

    pub fn get_latch(&self, edge: AnchorEdge) -> (r: Option<LatchData>)
        ensures
            r == self.latch(edge),
    {
        match edge {
            AnchorEdge::Start => self.latch_start,
            AnchorEdge::End => self.latch_end,
        }
    }

    /// Whether the endpoint holds a latch entry.
    pub fn quad_is_latched(&self, edge: AnchorEdge) -> (r: bool)
        ensures
            r == self.latch(edge).is_some(),
    {
        self.get_latch(edge).is_some()
    }

    pub fn get_position(&self, anchor: Anchor) -> (r: Point)
        ensures
            r == self.positions.at(anchor),
    {
        self.positions.get_position(anchor)
    }

    pub fn set_latch(&mut self, edge: AnchorEdge, entry: Option<LatchData>)
        ensures
            *final(self) == old(self).with_latch(edge, entry),
    {
        match edge {
            AnchorEdge::Start => {
                self.latch_start = entry;
            },
            AnchorEdge::End => {
                self.latch_end = entry;
            },
        }
    }

    pub fn set_position(&mut self, anchor: Anchor, position: Point)
        ensures
            *final(self) == old(self).with_position(anchor, position),
    {
        self.positions.set_position(anchor, position);
    }

    pub fn to_hist(&self) -> (r: BezierHist)
        ensures
            r == self.hist(),
    {
        BezierHist { positions: self.positions }
    }
}

} // verus!
