use pen_tool::curve::{Anchor, AnchorEdge, Bezier, BezierPositions, CurveIdEdge, LatchData, Point};
use pen_tool::error::PenError;
use pen_tool::history::HistoryAction;
use pen_tool::pen::PenTool;

fn at(id: u64, anchor_edge: AnchorEdge) -> CurveIdEdge {
    CurveIdEdge { id, anchor_edge }
}

fn geometry(seed: u32) -> BezierPositions {
    BezierPositions {
        start: Point { x: seed, y: seed + 1 },
        end: Point { x: seed + 2, y: seed + 3 },
        control_start: Point { x: seed + 4, y: seed + 5 },
        control_end: Point { x: seed + 6, y: seed + 7 },
    }
}

fn mirrored(pen: &PenTool, ids: &[u64]) -> bool {
    for &id in ids {
        let curve = pen.get(id).unwrap();
        for edge in [AnchorEdge::Start, AnchorEdge::End] {
            let held = match edge {
                AnchorEdge::Start => curve.latch_start,
                AnchorEdge::End => curve.latch_end,
            };
            if let Some(half) = held {
                if half.self_edge != edge {
                    return false;
                }
                let other = match pen.get(half.latched_to_id) {
                    Some(other) => other,
                    None => return false,
                };
                let back = match half.partners_edge {
                    AnchorEdge::Start => other.latch_start,
                    AnchorEdge::End => other.latch_end,
                };
                let wanted = LatchData {
                    latched_to_id: id,
                    self_edge: half.partners_edge,
                    partners_edge: edge,
                };
                if back != Some(wanted) {
                    return false;
                }
            }
        }
    }
    true
}

#[test]
fn new_document_is_empty() {
    let pen = PenTool::new();
    assert_eq!(pen.len(), 0);
    assert_eq!(pen.history_len(), 0);
    assert_eq!(pen.applied(), 0);
    assert_eq!(pen.index(), -1);
    assert!(!pen.contains(0));
    assert!(pen.get(0).is_none());
    assert!(!pen.groups_exhausted());
}

#[test]
fn insert_creates_a_bare_curve_once() {
    let mut pen = PenTool::new();
    assert!(pen.insert(4, geometry(40)));
    let curve = pen.get(4).unwrap();
    assert_eq!(curve.id, 4);
    assert_eq!(curve.positions, geometry(40));
    assert_eq!(curve.latch_start, None);
    assert_eq!(curve.latch_end, None);
    assert_eq!(curve.group, None);
    assert!(!pen.insert(4, geometry(99)));
    assert_eq!(pen.get(4).unwrap().positions, geometry(40));
    assert_eq!(pen.history_len(), 0);
    assert_eq!(pen.len(), 1);
}

#[test]
fn spawn_records_and_refuses_a_taken_identity() {
    let mut pen = PenTool::new();
    let done = pen.spawn(4, geometry(40));
    assert_eq!(
        done,
        Some(HistoryAction::SpawnedCurve {
            bezier_id: 4,
            bezier_hist: pen_tool::curve::BezierHist { positions: geometry(40) },
        })
    );
    assert_eq!(pen.history_len(), 1);
    assert_eq!(pen.index(), 0);
    assert_eq!(pen.spawn(4, geometry(41)), None);
    assert_eq!(pen.history_len(), 1);
    assert_eq!(pen.get(4).unwrap().positions, geometry(40));
}

#[test]
fn latch_installs_both_halves() {
    let mut pen = PenTool::new();
    pen.insert(1, geometry(1));
    pen.insert(2, geometry(2));
    let a = at(1, AnchorEdge::End);
    let b = at(2, AnchorEdge::Start);
    let done = pen.latch(a, b);
    assert_eq!(
        done,
        Ok(HistoryAction::Latched {
            self_id: 1,
            self_anchor: AnchorEdge::End,
            partner_bezier_id: 2,
            partner_anchor: AnchorEdge::Start,
        })
    );
    assert_eq!(
        pen.get(1).unwrap().latch_end,
        Some(LatchData { latched_to_id: 2, self_edge: AnchorEdge::End, partners_edge: AnchorEdge::Start })
    );
    assert_eq!(
        pen.get(2).unwrap().latch_start,
        Some(LatchData { latched_to_id: 1, self_edge: AnchorEdge::Start, partners_edge: AnchorEdge::End })
    );
    assert_eq!(pen.get(1).unwrap().latch_start, None);
    assert_eq!(pen.get(2).unwrap().latch_end, None);
    assert_eq!(pen.partner_of(a), Some(b));
    assert_eq!(pen.partner_of(b), Some(a));
    assert_eq!(pen.partner_of(at(1, AnchorEdge::Start)), None);
    assert_eq!(pen.partner_of(at(9, AnchorEdge::Start)), None);
    assert_eq!(pen.get(1).unwrap().positions, geometry(1));
    assert_eq!(pen.get(2).unwrap().positions, geometry(2));
    assert!(mirrored(&pen, &[1, 2]));
}

#[test]
fn latch_refusals() {
    let mut pen = PenTool::new();
    pen.insert(1, geometry(1));
    pen.insert(2, geometry(2));
    pen.insert(3, geometry(3));
    let a = at(1, AnchorEdge::End);
    let b = at(2, AnchorEdge::Start);
    assert_eq!(pen.latch(a, at(8, AnchorEdge::Start)), Err(PenError::UnknownId));
    assert_eq!(pen.latch(at(8, AnchorEdge::Start), a), Err(PenError::UnknownId));
    assert_eq!(pen.latch(a, a), Err(PenError::AlreadyLatched));
    assert!(pen.latch(a, b).is_ok());
    assert_eq!(pen.latch(a, at(3, AnchorEdge::Start)), Err(PenError::AlreadyLatched));
    assert_eq!(pen.latch(at(3, AnchorEdge::Start), b), Err(PenError::AlreadyLatched));
    assert_eq!(pen.latch(a, b), Err(PenError::AlreadyLatched));
    assert_eq!(pen.history_len(), 1);
    assert_eq!(pen.partner_of(at(3, AnchorEdge::Start)), None);
    assert!(mirrored(&pen, &[1, 2, 3]));
}

#[test]
fn unlatch_removes_both_halves_from_either_side() {
    let mut pen = PenTool::new();
    pen.insert(1, geometry(1));
    pen.insert(2, geometry(2));
    let a = at(1, AnchorEdge::End);
    let b = at(2, AnchorEdge::Start);
    assert!(pen.latch(a, b).is_ok());
    let done = pen.unlatch(b, a);
    assert_eq!(
        done,
        Ok(HistoryAction::Unlatched {
            self_id: 2,
            partner_bezier_id: 1,
            self_anchor: AnchorEdge::Start,
            partner_anchor: AnchorEdge::End,
        })
    );
    assert_eq!(pen.partner_of(a), None);
    assert_eq!(pen.partner_of(b), None);
    assert_eq!(pen.history_len(), 2);
    assert!(mirrored(&pen, &[1, 2]));
}

#[test]
fn unlatch_refusals() {
    let mut pen = PenTool::new();
    pen.insert(1, geometry(1));
    pen.insert(2, geometry(2));
    pen.insert(3, geometry(3));
    let a = at(1, AnchorEdge::End);
    let b = at(2, AnchorEdge::Start);
    assert_eq!(pen.unlatch(a, b), Err(PenError::NotLatched));
    assert_eq!(pen.unlatch(a, at(7, AnchorEdge::End)), Err(PenError::UnknownId));
    assert_eq!(pen.unlatch(at(7, AnchorEdge::End), a), Err(PenError::UnknownId));
    assert!(pen.latch(a, b).is_ok());
    assert_eq!(pen.unlatch(a, at(3, AnchorEdge::Start)), Err(PenError::NotLatched));
    assert_eq!(pen.unlatch(a, at(2, AnchorEdge::End)), Err(PenError::NotLatched));
    assert_eq!(pen.unlatch(at(1, AnchorEdge::Start), b), Err(PenError::NotLatched));
    assert_eq!(pen.partner_of(a), Some(b));
    assert_eq!(pen.history_len(), 1);
}

#[test]
fn a_curve_can_be_latched_to_itself() {
    let mut pen = PenTool::new();
    pen.insert(1, geometry(1));
    let a = at(1, AnchorEdge::Start);
    let b = at(1, AnchorEdge::End);
    assert!(pen.latch(a, b).is_ok());
    assert_eq!(pen.partner_of(a), Some(b));
    assert_eq!(pen.partner_of(b), Some(a));
    assert!(mirrored(&pen, &[1]));
    assert_eq!(pen.connected_component(1), Vec::<u64>::new());
    assert_eq!(pen.chain(1), vec![1]);
    assert!(pen.unlatch(b, a).is_ok());
    assert_eq!(pen.partner_of(a), None);
    assert_eq!(pen.partner_of(b), None);
}

#[test]
fn mirrors_hold_after_every_step_of_a_sequence() {
    let mut pen = PenTool::new();
    for id in 1..=4u64 {
        pen.insert(id, geometry(id as u32));
    }
    let ids = [1u64, 2, 3, 4];
    let steps: Vec<(bool, CurveIdEdge, CurveIdEdge)> = vec![
        (true, at(1, AnchorEdge::End), at(2, AnchorEdge::Start)),
        (true, at(2, AnchorEdge::End), at(3, AnchorEdge::End)),
        (true, at(3, AnchorEdge::Start), at(4, AnchorEdge::Start)),
        (true, at(4, AnchorEdge::End), at(1, AnchorEdge::Start)),
        (true, at(1, AnchorEdge::End), at(3, AnchorEdge::Start)),
        (false, at(2, AnchorEdge::End), at(3, AnchorEdge::End)),
        (false, at(2, AnchorEdge::End), at(3, AnchorEdge::End)),
        (false, at(1, AnchorEdge::Start), at(4, AnchorEdge::End)),
        (true, at(2, AnchorEdge::End), at(1, AnchorEdge::Start)),
        (false, at(3, AnchorEdge::Start), at(4, AnchorEdge::Start)),
    ];
    let expected = [true, true, true, true, false, true, false, true, true, true];
    for (k, (do_latch, a, b)) in steps.iter().enumerate() {
        let done = if *do_latch { pen.latch(*a, *b) } else { pen.unlatch(*a, *b) };
        assert_eq!(done.is_ok(), expected[k]);
        assert!(mirrored(&pen, &ids));
    }
    assert_eq!(pen.partner_of(at(2, AnchorEdge::End)), Some(at(1, AnchorEdge::Start)));
    assert_eq!(pen.partner_of(at(3, AnchorEdge::Start)), None);
}

#[test]
fn move_anchor_records_where_the_point_was() {
    let mut pen = PenTool::new();
    pen.insert(1, geometry(1));
    let target = Point { x: 77, y: 88 };
    let done = pen.move_anchor(1, Anchor::ControlStart, target);
    assert_eq!(
        done,
        Ok(HistoryAction::MovedAnchor {
            bezier_id: 1,
            anchor: Anchor::ControlStart,
            previous_position: Point { x: 5, y: 6 },
            new_position: target,
        })
    );
    let mut wanted = geometry(1);
    wanted.control_start = target;
    assert_eq!(pen.get(1).unwrap().positions, wanted);
    assert_eq!(pen.move_anchor(9, Anchor::End, target), Err(PenError::UnknownId));
    assert_eq!(pen.history_len(), 1);
}

#[test]
fn move_takes_the_latched_partner_along() {
    let mut pen = PenTool::new();
    pen.insert(1, geometry(1));
    pen.insert(2, geometry(20));
    assert!(pen.latch(at(1, AnchorEdge::End), at(2, AnchorEdge::Start)).is_ok());
    let target = Point { x: 500, y: 600 };
    assert!(pen.move_anchor(1, Anchor::End, target).is_ok());
    assert_eq!(pen.get(1).unwrap().positions.end, target);
    assert_eq!(pen.get(2).unwrap().positions.start, target);
    assert_eq!(pen.get(2).unwrap().positions.end, geometry(20).end);
    let other = Point { x: 1, y: 2 };
    assert!(pen.move_anchor(2, Anchor::Start, other).is_ok());
    assert_eq!(pen.get(1).unwrap().positions.end, other);
    assert_eq!(pen.get(2).unwrap().positions.start, other);
    let control = Point { x: 9, y: 9 };
    assert!(pen.move_anchor(1, Anchor::ControlEnd, control).is_ok());
    assert_eq!(pen.get(1).unwrap().positions.control_end, control);
    assert_eq!(pen.get(2).unwrap().positions.control_start, geometry(20).control_start);
    assert!(pen.move_anchor(1, Anchor::Start, control).is_ok());
    assert_eq!(pen.get(2).unwrap().positions, BezierPositions { start: other, ..geometry(20) });
}

#[test]
fn update_positions_keeps_latches_and_group() {
    let mut pen = PenTool::new();
    pen.insert(1, geometry(1));
    pen.insert(2, geometry(2));
    assert!(pen.latch(at(1, AnchorEdge::End), at(2, AnchorEdge::Start)).is_ok());
    let g = pen.form_group(&vec![1, 2]).unwrap();
    assert_eq!(pen.update_positions(1, geometry(50)), Ok(()));
    let curve: Bezier = pen.get(1).unwrap();
    assert_eq!(curve.positions, geometry(50));
    assert_eq!(curve.group, Some(g));
    assert_eq!(pen.partner_of(at(1, AnchorEdge::End)), Some(at(2, AnchorEdge::Start)));
    assert_eq!(pen.get(2).unwrap().positions, geometry(2));
    assert_eq!(pen.update_positions(5, geometry(50)), Err(PenError::UnknownId));
    assert_eq!(pen.history_len(), 1);
}

#[test]
fn remove_sets_partners_free_and_dissolves_the_group() {
    let mut pen = PenTool::new();
    for id in 1..=3u64 {
        pen.insert(id, geometry(id as u32));
    }
    assert!(pen.latch(at(1, AnchorEdge::End), at(2, AnchorEdge::Start)).is_ok());
    assert!(pen.latch(at(2, AnchorEdge::End), at(3, AnchorEdge::Start)).is_ok());
    let g = pen.form_group(&vec![1, 2, 3]).unwrap();
    let gone = pen.remove(2).unwrap();
    assert_eq!(gone.id, 2);
    assert_eq!(gone.group, Some(g));
    assert_eq!(gone.latch_start.unwrap().latched_to_id, 1);
    assert_eq!(gone.latch_end.unwrap().latched_to_id, 3);
    assert!(!pen.contains(2));
    assert_eq!(pen.partner_of(at(1, AnchorEdge::End)), None);
    assert_eq!(pen.partner_of(at(3, AnchorEdge::Start)), None);
    assert_eq!(pen.group_of(1), None);
    assert_eq!(pen.group_of(3), None);
    assert_eq!(pen.group_members(g), None);
    assert_eq!(pen.remove(2).map(|curve| curve.id), Err(PenError::UnknownId));
    assert_eq!(pen.history_len(), 2);
    assert!(mirrored(&pen, &[1, 3]));
}

#[test]
fn small_conversions() {
    assert_eq!(AnchorEdge::Start.other(), AnchorEdge::End);
    assert_eq!(AnchorEdge::End.other(), AnchorEdge::Start);
    assert_eq!(AnchorEdge::Start.to_anchor(), Anchor::Start);
    assert_eq!(AnchorEdge::End.to_anchor(), Anchor::End);
    assert_eq!(Anchor::Start.to_edge(), Some(AnchorEdge::Start));
    assert_eq!(Anchor::End.to_edge(), Some(AnchorEdge::End));
    assert_eq!(Anchor::ControlStart.to_edge(), None);
    assert_eq!(Anchor::ControlEnd.to_edge(), None);
    assert_eq!(Anchor::ControlStart.to_edge_with_controls(), AnchorEdge::Start);
    assert_eq!(Anchor::ControlEnd.to_edge_with_controls(), AnchorEdge::End);
    assert_eq!(Anchor::Start.to_edge_with_controls(), AnchorEdge::Start);
    assert_eq!(Anchor::End.to_edge_with_controls(), AnchorEdge::End);
    assert_eq!(Anchor::Start.adjoint(), Anchor::ControlStart);
    assert_eq!(Anchor::ControlStart.adjoint(), Anchor::Start);
    assert_eq!(Anchor::End.adjoint(), Anchor::ControlEnd);
    assert_eq!(Anchor::ControlEnd.adjoint(), Anchor::End);
    let zero = BezierPositions::zero();
    let origin = Point { x: 0, y: 0 };
    assert_eq!(zero.get_position(Anchor::Start), origin);
    assert_eq!(zero.get_position(Anchor::ControlEnd), origin);
    let mut positions = geometry(1);
    positions.set_position(Anchor::ControlEnd, origin);
    assert_eq!(positions.control_end, origin);
    assert_eq!(positions.get_position(Anchor::End), Point { x: 3, y: 4 });
    let mut curve = Bezier::new(3, geometry(1));
    assert!(!curve.quad_is_latched(AnchorEdge::Start));
    let half = LatchData { latched_to_id: 4, self_edge: AnchorEdge::Start, partners_edge: AnchorEdge::End };
    curve.set_latch(AnchorEdge::Start, Some(half));
    assert!(curve.quad_is_latched(AnchorEdge::Start));
    assert_eq!(curve.get_latch(AnchorEdge::Start), Some(half));
    assert_eq!(curve.get_latch(AnchorEdge::End), None);
    curve.set_position(Anchor::Start, origin);
    assert_eq!(curve.get_position(Anchor::Start), origin);
    assert_eq!(curve.to_hist().positions.start, origin);
}
