use pen_tool::actions::{
    bezier_anchor_order, latchy, load, officiate_latch_partnership, save, update_anchors,
    DraggedAnchor, MoveAnchorEvent, MoveTarget, MovingAnchor, OfficialLatch, SavedCurve,
};
use pen_tool::curve::{Anchor, AnchorEdge, Bezier, BezierPositions, CurveIdEdge, LatchData, Point};
use pen_tool::error::PenError;
use pen_tool::history::HistoryAction;
use pen_tool::pen::PenTool;
use pen_tool::undo::undo;

fn at(id: u64, anchor_edge: AnchorEdge) -> CurveIdEdge {
    CurveIdEdge { id, anchor_edge }
}

fn geometry(seed: u32) -> BezierPositions {
    BezierPositions {
        start: Point { x: seed, y: seed + 1 },
        end: Point { x: seed + 2, y: seed + 3 },
        control_start: Point { x: seed + 4, y: seed + 5 },
        control_end: Point { x: seed + 6, y: seed + 7 },
    }
}

fn half(to: u64, self_edge: AnchorEdge, partners_edge: AnchorEdge) -> LatchData {
    LatchData { latched_to_id: to, self_edge, partners_edge }
}

fn along(id: u64, anchor: Anchor, once: bool) -> MovingAnchor {
    MovingAnchor { bezier_id: id, anchor: MoveTarget::Anchor(anchor), once, is_clicked: false }
}

#[test]
fn latchy_snaps_the_mover_and_proposes() {
    let mut pen = PenTool::new();
    pen.insert(1, geometry(10));
    pen.insert(2, geometry(20));
    let mover = at(1, AnchorEdge::End);
    let still = at(2, AnchorEdge::Start);
    let proposal = latchy(&mut pen, mover, Some(still));
    assert_eq!(
        proposal,
        Some(OfficialLatch { latch: half(2, AnchorEdge::End, AnchorEdge::Start), bezier_id: 1 })
    );
    assert_eq!(pen.get(1).unwrap().positions, BezierPositions { end: geometry(20).start, ..geometry(10) });
    assert_eq!(pen.get(2).unwrap().positions, geometry(20));
    assert_eq!(pen.partner_of(mover), None);
    assert_eq!(pen.history_len(), 0);
}

#[test]
fn latchy_proposes_nothing_when_an_end_is_taken_or_missing() {
    let mut pen = PenTool::new();
    pen.insert(1, geometry(10));
    pen.insert(2, geometry(20));
    pen.insert(3, geometry(30));
    assert!(pen.latch(at(2, AnchorEdge::Start), at(3, AnchorEdge::Start)).is_ok());
    let mover = at(1, AnchorEdge::End);
    assert_eq!(latchy(&mut pen, mover, None), None);
    assert_eq!(latchy(&mut pen, mover, Some(at(2, AnchorEdge::Start))), None);
    assert_eq!(latchy(&mut pen, at(2, AnchorEdge::Start), Some(mover)), None);
    assert_eq!(latchy(&mut pen, mover, Some(at(9, AnchorEdge::Start))), None);
    assert_eq!(latchy(&mut pen, at(9, AnchorEdge::Start), Some(mover)), None);
    assert_eq!(latchy(&mut pen, mover, Some(mover)), None);
    assert_eq!(pen.get(1).unwrap().positions, geometry(10));
}

#[test]
fn officiating_installs_and_records_each_latch() {
    let mut pen = PenTool::new();
    pen.insert(1, geometry(10));
    pen.insert(2, geometry(20));
    pen.insert(3, geometry(30));
    let done = officiate_latch_partnership(
        &mut pen,
        &vec![
            OfficialLatch { latch: half(2, AnchorEdge::End, AnchorEdge::Start), bezier_id: 1 },
            OfficialLatch { latch: half(1, AnchorEdge::Start, AnchorEdge::End), bezier_id: 2 },
            OfficialLatch { latch: half(8, AnchorEdge::Start, AnchorEdge::End), bezier_id: 3 },
            OfficialLatch { latch: half(2, AnchorEdge::Start, AnchorEdge::End), bezier_id: 3 },
        ],
    );
    assert_eq!(
        done,
        vec![
            Ok(HistoryAction::Latched {
                self_id: 1,
                self_anchor: AnchorEdge::End,
                partner_bezier_id: 2,
                partner_anchor: AnchorEdge::Start,
            }),
            Err(PenError::AlreadyLatched),
            Err(PenError::UnknownId),
            Ok(HistoryAction::Latched {
                self_id: 3,
                self_anchor: AnchorEdge::Start,
                partner_bezier_id: 2,
                partner_anchor: AnchorEdge::End,
            }),
        ]
    );
    assert_eq!(pen.partner_of(at(2, AnchorEdge::Start)), Some(at(1, AnchorEdge::End)));
    assert_eq!(pen.partner_of(at(2, AnchorEdge::End)), Some(at(3, AnchorEdge::Start)));
    assert_eq!(pen.history_len(), 2);
    assert!(undo(&mut pen).is_ok());
    assert_eq!(pen.partner_of(at(2, AnchorEdge::End)), None);
}

#[test]
fn a_click_on_a_latched_end_moves_the_partner_first() {
    let mut pen = PenTool::new();
    pen.insert(1, geometry(10));
    pen.insert(2, geometry(20));
    assert!(pen.latch(at(1, AnchorEdge::End), at(2, AnchorEdge::Start)).is_ok());
    let event = MoveAnchorEvent {
        bezier_id: 1,
        anchor: MoveTarget::Anchor(Anchor::ControlEnd),
        unlatch: false,
        once: false,
    };
    let orders = bezier_anchor_order(&mut pen, &vec![event], false);
    assert_eq!(orders.len(), 1);
    assert_eq!(
        orders[0].moving,
        vec![
            along(2, Anchor::Start, false),
            along(2, Anchor::ControlStart, false),
            MovingAnchor {
                bezier_id: 1,
                anchor: MoveTarget::Anchor(Anchor::ControlEnd),
                once: false,
                is_clicked: true,
            },
            along(1, Anchor::End, false),
        ]
    );
    assert!(orders[0].chain.is_empty());
    assert_eq!(orders[0].unlatched, None);
    let hidden = bezier_anchor_order(&mut pen, &vec![event], true);
    assert!(hidden[0].moving.is_empty());
    assert_eq!(pen.history_len(), 1);
}

#[test]
fn a_click_on_a_free_point_moves_it_and_its_twin() {
    let mut pen = PenTool::new();
    pen.insert(1, geometry(10));
    let event = MoveAnchorEvent {
        bezier_id: 1,
        anchor: MoveTarget::Anchor(Anchor::Start),
        unlatch: true,
        once: true,
    };
    let missing = MoveAnchorEvent { bezier_id: 4, ..event };
    let orders = bezier_anchor_order(&mut pen, &vec![missing, event], true);
    assert_eq!(orders.len(), 2);
    assert!(orders[0].moving.is_empty());
    assert!(orders[0].chain.is_empty());
    assert_eq!(orders[0].unlatched, None);
    assert_eq!(
        orders[1].moving,
        vec![
            MovingAnchor {
                bezier_id: 1,
                anchor: MoveTarget::Anchor(Anchor::Start),
                once: true,
                is_clicked: false,
            },
            along(1, Anchor::ControlStart, true),
        ]
    );
    assert_eq!(orders[1].unlatched, None);
    assert_eq!(pen.history_len(), 0);
}

#[test]
fn a_whole_curve_takes_its_chain_along() {
    let mut pen = PenTool::new();
    for id in 1..=4u64 {
        pen.insert(id, geometry(id as u32));
    }
    assert!(pen.latch(at(1, AnchorEdge::End), at(2, AnchorEdge::Start)).is_ok());
    assert!(pen.latch(at(2, AnchorEdge::End), at(3, AnchorEdge::Start)).is_ok());
    let event = MoveAnchorEvent { bezier_id: 2, anchor: MoveTarget::All, unlatch: true, once: false };
    let orders = bezier_anchor_order(&mut pen, &vec![event], true);
    assert_eq!(
        orders[0].moving,
        vec![MovingAnchor { bezier_id: 2, anchor: MoveTarget::All, once: false, is_clicked: true }]
    );
    let mut chain = orders[0].chain.clone();
    chain.sort();
    assert_eq!(chain, vec![1, 3]);
    assert_eq!(orders[0].unlatched, None);
    assert_eq!(pen.partner_of(at(2, AnchorEdge::Start)), Some(at(1, AnchorEdge::End)));
}

#[test]
fn an_unlatching_click_frees_both_sides_and_is_recorded() {
    let mut pen = PenTool::new();
    pen.insert(1, geometry(10));
    pen.insert(2, geometry(20));
    assert!(pen.latch(at(1, AnchorEdge::End), at(2, AnchorEdge::Start)).is_ok());
    let event = MoveAnchorEvent {
        bezier_id: 2,
        anchor: MoveTarget::Anchor(Anchor::Start),
        unlatch: true,
        once: false,
    };
    let orders = bezier_anchor_order(&mut pen, &vec![event, event], false);
    assert_eq!(
        orders[0].unlatched,
        Some(HistoryAction::Unlatched {
            self_id: 2,
            partner_bezier_id: 1,
            self_anchor: AnchorEdge::Start,
            partner_anchor: AnchorEdge::End,
        })
    );
    assert_eq!(orders[0].moving.len(), 4);
    assert_eq!(orders[0].moving[0], along(1, Anchor::End, false));
    assert_eq!(orders[1].unlatched, None);
    assert_eq!(orders[1].moving.len(), 2);
    assert_eq!(pen.partner_of(at(1, AnchorEdge::End)), None);
    assert_eq!(pen.partner_of(at(2, AnchorEdge::Start)), None);
    assert_eq!(pen.history_len(), 2);
    assert!(undo(&mut pen).is_ok());
    assert_eq!(pen.partner_of(at(1, AnchorEdge::End)), Some(at(2, AnchorEdge::Start)));
}

#[test]
fn a_grouped_curve_or_a_control_point_is_not_unlatched() {
    let mut pen = PenTool::new();
    pen.insert(1, geometry(10));
    pen.insert(2, geometry(20));
    assert!(pen.latch(at(1, AnchorEdge::End), at(2, AnchorEdge::Start)).is_ok());
    let on_control = MoveAnchorEvent {
        bezier_id: 1,
        anchor: MoveTarget::Anchor(Anchor::ControlEnd),
        unlatch: true,
        once: false,
    };
    let orders = bezier_anchor_order(&mut pen, &vec![on_control], false);
    assert_eq!(orders[0].unlatched, None);
    assert!(pen.form_group(&vec![1, 2]).is_ok());
    let on_end = MoveAnchorEvent { anchor: MoveTarget::Anchor(Anchor::End), ..on_control };
    let orders = bezier_anchor_order(&mut pen, &vec![on_end], false);
    assert_eq!(orders[0].unlatched, None);
    assert_eq!(pen.partner_of(at(1, AnchorEdge::End)), Some(at(2, AnchorEdge::Start)));
    assert_eq!(pen.history_len(), 1);
}

#[test]
fn dragged_points_follow_the_pointer_up_to_the_first_latch() {
    let mut pen = PenTool::new();
    for id in 1..=3u64 {
        pen.insert(id, geometry(10 * id as u32));
    }
    assert!(pen.latch(at(2, AnchorEdge::End), at(3, AnchorEdge::Start)).is_ok());
    let target = Point { x: 900, y: 901 };
    let moving = vec![
        DraggedAnchor { bezier_id: 1, anchor: Anchor::Start, is_clicked: false },
        DraggedAnchor { bezier_id: 7, anchor: Anchor::Start, is_clicked: true },
        DraggedAnchor { bezier_id: 1, anchor: Anchor::ControlEnd, is_clicked: true },
        DraggedAnchor { bezier_id: 2, anchor: Anchor::End, is_clicked: true },
        DraggedAnchor { bezier_id: 1, anchor: Anchor::End, is_clicked: true },
    ];
    update_anchors(&mut pen, true, &moving, target);
    assert_eq!(pen.get(1).unwrap().positions, geometry(10));
    update_anchors(&mut pen, false, &moving, target);
    assert_eq!(pen.get(1).unwrap().positions, BezierPositions { control_end: target, ..geometry(10) });
    assert_eq!(pen.get(2).unwrap().positions, BezierPositions { end: target, ..geometry(20) });
    assert_eq!(pen.get(3).unwrap().positions, BezierPositions { start: target, ..geometry(30) });
    assert_eq!(pen.history_len(), 1);
}

#[test]
fn a_dragged_control_point_of_a_latched_end_stops_the_search() {
    let mut pen = PenTool::new();
    pen.insert(1, geometry(10));
    pen.insert(2, geometry(20));
    assert!(pen.latch(at(1, AnchorEdge::End), at(2, AnchorEdge::Start)).is_ok());
    let target = Point { x: 5, y: 5 };
    let moving = vec![
        DraggedAnchor { bezier_id: 1, anchor: Anchor::ControlEnd, is_clicked: true },
        DraggedAnchor { bezier_id: 2, anchor: Anchor::End, is_clicked: true },
    ];
    update_anchors(&mut pen, false, &moving, target);
    assert_eq!(pen.get(1).unwrap().positions, BezierPositions { control_end: target, ..geometry(10) });
    assert_eq!(pen.get(2).unwrap().positions, geometry(20));
}

#[test]
fn load_builds_curves_and_latches_and_tells_how() {
    let mut first = Bezier::new(1, geometry(10));
    first.latch_end = Some(half(2, AnchorEdge::End, AnchorEdge::Start));
    first.group = Some(4);
    let mut second = Bezier::new(2, geometry(20));
    second.latch_start = Some(half(1, AnchorEdge::Start, AnchorEdge::End));
    second.latch_end = Some(half(9, AnchorEdge::End, AnchorEdge::Start));
    let saved = vec![
        SavedCurve { bezier: first, anchor_edge: AnchorEdge::Start },
        SavedCurve { bezier: second, anchor_edge: AnchorEdge::Start },
        SavedCurve { bezier: Bezier::new(1, geometry(70)), anchor_edge: AnchorEdge::Start },
    ];
    let loaded = load(&saved);
    let mut pen = loaded.pen;
    let created = loaded.curves;
    assert_eq!(created, vec![1, 2]);
    assert_eq!(loaded.one_sided, vec![at(2, AnchorEdge::End)]);
    assert_eq!(pen.len(), 2);
    assert_eq!(pen.get(1).unwrap().positions, geometry(10));
    assert_eq!(pen.get(1).unwrap().group, None);
    assert_eq!(pen.partner_of(at(1, AnchorEdge::End)), Some(at(2, AnchorEdge::Start)));
    assert_eq!(pen.partner_of(at(2, AnchorEdge::Start)), Some(at(1, AnchorEdge::End)));
    assert_eq!(pen.partner_of(at(2, AnchorEdge::End)), None);
    assert_eq!(pen.history_len(), 3);
    assert!(matches!(pen.history_at(0), HistoryAction::SpawnedCurve { bezier_id: 1, .. }));
    assert!(matches!(pen.history_at(1), HistoryAction::SpawnedCurve { bezier_id: 2, .. }));
    assert!(matches!(pen.history_at(2), HistoryAction::Latched { self_id: 1, partner_bezier_id: 2, .. }));
    let g = pen.form_group(&created).unwrap();
    let again = save(&pen, g).unwrap();
    let copy = load(&again);
    assert!(copy.one_sided.is_empty());
    assert_eq!(copy.curves, vec![1, 2]);
    assert_eq!(copy.pen.get(1).unwrap().positions, geometry(10));
    assert_eq!(copy.pen.partner_of(at(2, AnchorEdge::Start)), Some(at(1, AnchorEdge::End)));
    let empty = load(&vec![]);
    assert_eq!(empty.pen.len(), 0);
    assert!(empty.curves.is_empty());
    assert!(empty.one_sided.is_empty());
}

#[test]
fn load_reports_a_one_sided_latch_and_does_not_mend_it() {
    let mut first = Bezier::new(1, geometry(10));
    first.latch_end = Some(half(2, AnchorEdge::End, AnchorEdge::Start));
    first.latch_start = Some(half(3, AnchorEdge::End, AnchorEdge::End));
    let second = Bezier::new(2, geometry(20));
    let mut third = Bezier::new(3, geometry(30));
    third.latch_end = Some(half(1, AnchorEdge::End, AnchorEdge::End));
    let saved: Vec<SavedCurve> = [first, second, third]
        .iter()
        .map(|bezier| SavedCurve { bezier: *bezier, anchor_edge: AnchorEdge::Start })
        .collect();
    let loaded = load(&saved);
    assert_eq!(loaded.curves, vec![1, 2, 3]);
    assert_eq!(
        loaded.one_sided,
        vec![at(1, AnchorEdge::Start), at(1, AnchorEdge::End), at(3, AnchorEdge::End)]
    );
    for id in 1..=3u64 {
        assert_eq!(loaded.pen.partner_of(at(id, AnchorEdge::Start)), None);
        assert_eq!(loaded.pen.partner_of(at(id, AnchorEdge::End)), None);
    }
    assert_eq!(loaded.pen.history_len(), 3);
}
