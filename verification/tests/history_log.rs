use pen_tool::actions::{delete, Deleted};
use pen_tool::curve::{Anchor, AnchorEdge, BezierHist, BezierPositions, CurveIdEdge, Point};
use pen_tool::error::PenError;
use pen_tool::history::HistoryAction;
use pen_tool::log::History;
use pen_tool::pen::PenTool;
use pen_tool::undo::{
    add_to_history, redo, redo_effects, undo, HistoryActionInspector, HistoryInspector,
    HistoryLenInspector, RedoDelete,
};

fn at(id: u64, anchor_edge: AnchorEdge) -> CurveIdEdge {
    CurveIdEdge { id, anchor_edge }
}

fn geometry(seed: u32) -> BezierPositions {
    BezierPositions {
        start: Point { x: seed, y: seed + 1 },
        end: Point { x: seed + 2, y: seed + 3 },
        control_start: Point { x: seed + 4, y: seed + 5 },
        control_end: Point { x: seed + 6, y: seed + 7 },
    }
}

fn moved(id: u64, from: u32, to: u32) -> HistoryAction {
    HistoryAction::MovedAnchor {
        bezier_id: id,
        anchor: Anchor::Start,
        previous_position: Point { x: from, y: from },
        new_position: Point { x: to, y: to },
    }
}

/// Positions, latches and group tag of every curve named, and the cursor.
fn snapshot(pen: &PenTool, ids: &[u64]) -> Vec<String> {
    let mut lines: Vec<String> = ids.iter().map(|id| format!("{:?}", pen.get(*id))).collect();
    lines.push(format!("cursor {}", pen.index()));
    lines
}

#[test]
fn latch_unlatch_then_two_undos() {
    let mut pen = PenTool::new();
    pen.insert(1, geometry(1));
    pen.insert(2, geometry(2));
    let before = snapshot(&pen, &[1, 2]);
    let a = at(1, AnchorEdge::Start);
    let b = at(2, AnchorEdge::Start);
    assert!(pen.latch(a, b).is_ok());
    assert!(pen.unlatch(a, b).is_ok());
    assert_eq!(pen.index(), 1);
    let undone = undo(&mut pen).unwrap();
    assert_eq!(
        undone.action,
        HistoryAction::Unlatched {
            self_id: 1,
            partner_bezier_id: 2,
            self_anchor: AnchorEdge::Start,
            partner_anchor: AnchorEdge::Start,
        }
    );
    assert_eq!(undone.changes.curves, vec![1, 2]);
    assert_eq!(undone.changes.group, None);
    assert_eq!(pen.partner_of(a), Some(b));
    assert_eq!(pen.partner_of(b), Some(a));
    assert_eq!(pen.index(), 0);
    assert!(matches!(undo(&mut pen).map(|r| r.action), Ok(HistoryAction::Latched { .. })));
    assert_eq!(pen.partner_of(a), None);
    assert_eq!(pen.partner_of(b), None);
    assert_eq!(pen.index(), -1);
    assert_eq!(snapshot(&pen, &[1, 2]), before);
    assert_eq!(undo(&mut pen).err(), Some(PenError::HistoryAtBottom));
    assert_eq!(pen.index(), -1);
    assert_eq!(pen.history_len(), 2);
}

#[test]
fn undo_unlatch_then_redo_leaves_no_latch() {
    let mut pen = PenTool::new();
    assert!(pen.spawn(1, BezierPositions::zero()).is_some());
    assert!(pen.spawn(2, BezierPositions::zero()).is_some());
    let a = at(1, AnchorEdge::Start);
    let b = at(2, AnchorEdge::Start);
    assert!(pen.latch(a, b).is_ok());
    assert!(pen.unlatch(a, b).is_ok());
    assert!(undo(&mut pen).is_ok());
    assert!(redo(&mut pen).is_ok());
    let first = pen.get(1).unwrap();
    let second = pen.get(2).unwrap();
    assert!(first.latch_start.is_none() && first.latch_end.is_none());
    assert!(second.latch_start.is_none() && second.latch_end.is_none());
}

#[test]
fn spawn_delete_undo_redo() {
    let mut pen = PenTool::new();
    assert!(pen.spawn(7, geometry(70)).is_some());
    let records = delete(&mut pen, &vec![7], false).unwrap().records;
    assert_eq!(
        records,
        vec![HistoryAction::DeletedCurve { bezier: BezierHist { positions: geometry(70) }, bezier_id: 7 }]
    );
    assert!(!pen.contains(7));
    assert_eq!(pen.index(), 1);
    assert!(matches!(undo(&mut pen).map(|r| r.action), Ok(HistoryAction::DeletedCurve { bezier_id: 7, .. })));
    let back = pen.get(7).unwrap();
    assert_eq!(back.id, 7);
    assert_eq!(back.positions, geometry(70));
    assert_eq!(back.latch_start, None);
    assert_eq!(back.latch_end, None);
    assert_eq!(back.group, None);
    assert_eq!(pen.index(), 0);
    assert!(matches!(redo(&mut pen).map(|r| r.action), Ok(HistoryAction::DeletedCurve { bezier_id: 7, .. })));
    assert!(!pen.contains(7));
    assert_eq!(pen.index(), 1);
    assert_eq!(pen.history_len(), 2);
    assert_eq!(redo(&mut pen).err(), Some(PenError::HistoryAtTop));
}

#[test]
fn deleting_two_latched_curves_unlatches_once() {
    let mut pen = PenTool::new();
    pen.insert(1, geometry(1));
    pen.insert(2, geometry(2));
    assert!(pen.latch(at(1, AnchorEdge::End), at(2, AnchorEdge::Start)).is_ok());
    let deleted = delete(&mut pen, &vec![1, 2], false).unwrap();
    assert_eq!(deleted.curves, vec![1, 2]);
    assert!(deleted.groups.is_empty());
    let records = deleted.records;
    let unlatched = records.iter().filter(|r| matches!(r, HistoryAction::Unlatched { .. })).count();
    assert_eq!(unlatched, 1);
    assert_eq!(
        records,
        vec![
            HistoryAction::Unlatched {
                self_id: 1,
                partner_bezier_id: 2,
                self_anchor: AnchorEdge::End,
                partner_anchor: AnchorEdge::Start,
            },
            HistoryAction::DeletedCurve { bezier: BezierHist { positions: geometry(1) }, bezier_id: 1 },
            HistoryAction::DeletedCurve { bezier: BezierHist { positions: geometry(2) }, bezier_id: 2 },
        ]
    );
    assert_eq!(pen.len(), 0);
    assert_eq!(pen.history_len(), 4);
    assert_eq!(pen.index(), 3);
}

#[test]
fn deleting_doubly_latched_curves_notes_each_latch_once() {
    let mut pen = PenTool::new();
    pen.insert(1, geometry(1));
    pen.insert(2, geometry(2));
    assert!(pen.latch(at(1, AnchorEdge::Start), at(2, AnchorEdge::Start)).is_ok());
    assert!(pen.latch(at(2, AnchorEdge::End), at(1, AnchorEdge::End)).is_ok());
    let records = delete(&mut pen, &vec![2, 1, 2], false).unwrap().records;
    assert_eq!(records.len(), 4);
    assert!(matches!(
        records[0],
        HistoryAction::Unlatched { self_id: 2, self_anchor: AnchorEdge::Start, partner_bezier_id: 1, .. }
    ));
    assert!(matches!(
        records[1],
        HistoryAction::Unlatched { self_id: 2, self_anchor: AnchorEdge::End, partner_bezier_id: 1, .. }
    ));
    assert!(matches!(records[2], HistoryAction::DeletedCurve { bezier_id: 2, .. }));
    assert!(matches!(records[3], HistoryAction::DeletedCurve { bezier_id: 1, .. }));
}

#[test]
fn delete_of_one_curve_sets_the_survivor_free_and_comes_back_in_two_steps() {
    let mut pen = PenTool::new();
    pen.insert(1, geometry(1));
    pen.insert(2, geometry(2));
    let a = at(1, AnchorEdge::End);
    let b = at(2, AnchorEdge::Start);
    assert!(pen.latch(a, b).is_ok());
    let before = snapshot(&pen, &[1, 2]);
    let deleted = delete(&mut pen, &vec![1], false).unwrap();
    assert_eq!(deleted.curves, vec![1, 2]);
    let records = deleted.records;
    assert_eq!(records.len(), 2);
    assert!(matches!(records[0], HistoryAction::Unlatched { self_id: 1, partner_bezier_id: 2, .. }));
    assert!(matches!(records[1], HistoryAction::DeletedCurve { bezier_id: 1, .. }));
    assert!(!pen.contains(1));
    assert_eq!(pen.partner_of(b), None);
    assert!(undo(&mut pen).is_ok());
    assert!(pen.contains(1));
    assert_eq!(pen.partner_of(a), None);
    assert_eq!(pen.partner_of(b), None);
    assert!(undo(&mut pen).is_ok());
    assert_eq!(pen.partner_of(a), Some(b));
    assert_eq!(pen.partner_of(b), Some(a));
    assert_eq!(snapshot(&pen, &[1, 2]), before);
}

#[test]
fn delete_refuses_a_batch_with_a_missing_curve() {
    let mut pen = PenTool::new();
    pen.insert(1, geometry(1));
    assert_eq!(delete(&mut pen, &vec![1, 5], false).err(), Some(PenError::UnknownId));
    assert!(pen.contains(1));
    assert_eq!(pen.history_len(), 0);
    assert_eq!(
        delete(&mut pen, &vec![], false),
        Ok(Deleted { records: vec![], curves: vec![], groups: vec![] })
    );
    assert_eq!(pen.history_len(), 0);
}

#[test]
fn delete_from_a_redo_records_nothing() {
    let mut pen = PenTool::new();
    pen.insert(1, geometry(1));
    pen.insert(2, geometry(2));
    assert!(pen.latch(at(1, AnchorEdge::End), at(2, AnchorEdge::Start)).is_ok());
    let records = delete(&mut pen, &vec![1], true).unwrap().records;
    assert_eq!(records.len(), 2);
    assert!(!pen.contains(1));
    assert_eq!(pen.partner_of(at(2, AnchorEdge::Start)), None);
    assert_eq!(pen.history_len(), 1);
    assert_eq!(pen.index(), 0);
}

#[test]
fn redo_effects_deletes_what_is_there() {
    let mut pen = PenTool::new();
    pen.insert(1, geometry(1));
    pen.insert(2, geometry(2));
    assert!(pen.latch(at(1, AnchorEdge::End), at(2, AnchorEdge::Start)).is_ok());
    let gone = redo_effects(
        &mut pen,
        &vec![RedoDelete { bezier_id: 1 }, RedoDelete { bezier_id: 9 }, RedoDelete { bezier_id: 1 }],
    );
    assert_eq!(gone, vec![1]);
    assert!(!pen.contains(1));
    assert!(pen.contains(2));
    assert_eq!(pen.partner_of(at(2, AnchorEdge::Start)), None);
    assert_eq!(pen.history_len(), 1);
}

#[test]
fn recording_behind_the_top_cuts_the_tail() {
    let mut pen = PenTool::new();
    pen.insert(1, geometry(1));
    pen.record(moved(1, 0, 1));
    pen.record(moved(1, 1, 2));
    pen.record(moved(1, 2, 3));
    assert_eq!(pen.index(), 2);
    assert!(undo(&mut pen).is_ok());
    assert!(undo(&mut pen).is_ok());
    assert_eq!(pen.index(), 0);
    assert_eq!(pen.history_len(), 3);
    pen.record(moved(1, 1, 9));
    assert_eq!(pen.history_len(), 2);
    assert_eq!(pen.index(), 1);
    assert_eq!(pen.history_at(0), moved(1, 0, 1));
    assert_eq!(pen.history_at(1), moved(1, 1, 9));
    assert_eq!(redo(&mut pen).err(), Some(PenError::HistoryAtTop));
    assert_eq!(pen.index(), 1);
}

#[test]
fn recording_at_the_bottom_cuts_everything() {
    let mut pen = PenTool::new();
    pen.insert(1, geometry(1));
    pen.record(moved(1, 0, 1));
    pen.record(moved(1, 1, 2));
    assert!(undo(&mut pen).is_ok());
    assert!(undo(&mut pen).is_ok());
    assert_eq!(pen.index(), -1);
    pen.record(moved(1, 0, 5));
    assert_eq!(pen.history_len(), 1);
    assert_eq!(pen.index(), 0);
    assert_eq!(pen.history_at(0), moved(1, 0, 5));
}

#[test]
fn a_batch_cuts_the_tail_once() {
    let mut pen = PenTool::new();
    pen.insert(1, geometry(1));
    add_to_history(&mut pen, &vec![moved(1, 0, 1), moved(1, 1, 2), moved(1, 2, 3)]);
    assert_eq!(pen.history_len(), 3);
    assert_eq!(pen.index(), 2);
    assert!(undo(&mut pen).is_ok());
    assert!(undo(&mut pen).is_ok());
    add_to_history(&mut pen, &vec![]);
    assert_eq!(pen.history_len(), 3);
    assert_eq!(pen.index(), 0);
    add_to_history(&mut pen, &vec![moved(1, 1, 7), moved(1, 7, 8)]);
    assert_eq!(pen.history_len(), 3);
    assert_eq!(pen.index(), 2);
    let history: History = pen.history();
    assert_eq!(history.actions, vec![moved(1, 0, 1), moved(1, 1, 7), moved(1, 7, 8)]);
    assert_eq!(history.index, 2);
    assert_eq!(redo(&mut pen).err(), Some(PenError::HistoryAtTop));
}

#[test]
fn undo_of_a_move_brings_the_partner_back_too() {
    let mut pen = PenTool::new();
    pen.insert(1, geometry(1));
    pen.insert(2, geometry(2));
    let was = Point { x: 40, y: 41 };
    assert!(pen.move_anchor(1, Anchor::End, was).is_ok());
    assert!(pen.move_anchor(2, Anchor::Start, was).is_ok());
    assert!(pen.latch(at(1, AnchorEdge::End), at(2, AnchorEdge::Start)).is_ok());
    let before = snapshot(&pen, &[1, 2]);
    let target = Point { x: 90, y: 91 };
    assert!(pen.move_anchor(2, Anchor::Start, target).is_ok());
    let after = snapshot(&pen, &[1, 2]);
    assert_eq!(pen.get(1).unwrap().positions.end, target);
    assert!(undo(&mut pen).is_ok());
    assert_eq!(pen.get(1).unwrap().positions.end, was);
    assert_eq!(pen.get(2).unwrap().positions.start, was);
    assert_eq!(snapshot(&pen, &[1, 2]), before);
    assert!(redo(&mut pen).is_ok());
    assert_eq!(snapshot(&pen, &[1, 2]), after);
}

#[test]
fn undo_then_redo_restores_each_kind_of_action() {
    let mut pen = PenTool::new();
    let ids = [1u64, 2, 3];
    assert!(pen.spawn(1, geometry(1)).is_some());
    assert!(pen.spawn(2, geometry(2)).is_some());
    let mut check = |pen: &mut PenTool| {
        let before = snapshot(pen, &ids);
        let groups = (pen.group_members(0), pen.group_members(1));
        let undone = undo(pen).unwrap();
        let redone = redo(pen).unwrap();
        assert_eq!(undone.action, redone.action);
        assert_eq!(snapshot(pen, &ids), before);
        assert_eq!((pen.group_members(0), pen.group_members(1)), groups);
    };
    check(&mut pen);
    assert!(pen.move_anchor(1, Anchor::ControlEnd, Point { x: 3, y: 9 }).is_ok());
    check(&mut pen);
    assert!(pen.latch(at(1, AnchorEdge::End), at(2, AnchorEdge::End)).is_ok());
    check(&mut pen);
    assert!(pen.form_group(&vec![1, 2]).is_ok());
    assert!(pen.spawn(3, geometry(3)).is_some());
    check(&mut pen);
    assert!(pen.unlatch(at(2, AnchorEdge::End), at(1, AnchorEdge::End)).is_ok());
    check(&mut pen);
    assert!(delete(&mut pen, &vec![3], false).is_ok());
    check(&mut pen);
    assert_eq!(pen.group_of(1), Some(0));
}

#[test]
fn undoing_the_whole_history_reverts_every_curve() {
    let mut pen = PenTool::new();
    pen.insert(1, geometry(1));
    pen.insert(2, geometry(2));
    pen.insert(3, geometry(3));
    let ids = [1u64, 2, 3, 4];
    let before = snapshot(&pen, &ids);
    assert!(pen.spawn(4, geometry(4)).is_some());
    assert!(pen.latch(at(1, AnchorEdge::End), at(2, AnchorEdge::Start)).is_ok());
    assert!(pen.latch(at(2, AnchorEdge::End), at(4, AnchorEdge::End)).is_ok());
    assert!(pen.move_anchor(3, Anchor::Start, Point { x: 8, y: 8 }).is_ok());
    assert!(pen.move_anchor(3, Anchor::ControlStart, Point { x: 7, y: 7 }).is_ok());
    assert!(pen.unlatch(at(2, AnchorEdge::Start), at(1, AnchorEdge::End)).is_ok());
    assert!(delete(&mut pen, &vec![2, 3], false).is_ok());
    assert!(pen.latch(at(1, AnchorEdge::Start), at(4, AnchorEdge::Start)).is_ok());
    let len = pen.history_len();
    assert_eq!(len, 10);
    for _ in 0..len {
        assert!(undo(&mut pen).is_ok());
    }
    assert_eq!(pen.index(), -1);
    assert_eq!(snapshot(&pen, &ids), before);
    assert_eq!(undo(&mut pen).err(), Some(PenError::HistoryAtBottom));
    for _ in 0..len {
        assert!(redo(&mut pen).is_ok());
    }
    assert!(!pen.contains(2));
    assert!(!pen.contains(3));
    assert_eq!(pen.partner_of(at(1, AnchorEdge::Start)), Some(at(4, AnchorEdge::Start)));
    assert_eq!(pen.partner_of(at(4, AnchorEdge::End)), None);
}

#[test]
fn an_action_that_does_not_fit_is_passed_over() {
    let mut pen = PenTool::new();
    pen.insert(1, geometry(1));
    pen.record(moved(5, 0, 1));
    pen.record(HistoryAction::Latched {
        self_id: 1,
        self_anchor: AnchorEdge::Start,
        partner_bezier_id: 6,
        partner_anchor: AnchorEdge::End,
    });
    let before = snapshot(&pen, &[1, 5, 6]);
    assert!(undo(&mut pen).is_ok());
    assert!(undo(&mut pen).is_ok());
    assert_eq!(pen.index(), -1);
    assert!(redo(&mut pen).is_ok());
    assert!(redo(&mut pen).is_ok());
    assert_eq!(snapshot(&pen, &[1, 5, 6]), before);
}

#[test]
fn the_history_as_it_is_shown() {
    let mut pen = PenTool::new();
    assert!(pen.spawn(1, geometry(1)).is_some());
    assert!(pen.spawn(2, geometry(2)).is_some());
    assert!(pen.move_anchor(1, Anchor::Start, Point { x: 0, y: 0 }).is_ok());
    assert!(pen.latch(at(1, AnchorEdge::End), at(2, AnchorEdge::Start)).is_ok());
    assert!(pen.unlatch(at(2, AnchorEdge::Start), at(1, AnchorEdge::End)).is_ok());
    assert!(delete(&mut pen, &vec![2], false).is_ok());
    assert!(undo(&mut pen).is_ok());
    let shown = HistoryInspector::from(pen.history());
    assert_eq!(shown.index, 4);
    let lines: Vec<String> = shown.history.iter().map(|a| format!("{:?}", a)).collect();
    assert_eq!(
        lines,
        vec![
            "SpawnedCurve { bezier_id: 1 }",
            "SpawnedCurve { bezier_id: 2 }",
            "MovedAnchor { bezier_id: 1 }",
            "Latched { bezier_id1: 1, bezier_id2: 2 }",
            "Unlatched { self_id: 2, partner_bezier_id: 1 }",
            "DeletedCurve { bezier_id: 2 }",
        ]
    );
    let one = HistoryActionInspector::from(moved(3, 0, 1));
    assert!(matches!(one, HistoryActionInspector::MovedAnchor { bezier_id: 3 }));
    assert!(matches!(HistoryActionInspector::default(), HistoryActionInspector::NoAction));
    let empty = HistoryInspector::default();
    assert!(empty.history.is_empty());
    assert_eq!(empty.index, -1);
    let size = HistoryLenInspector::default();
    assert_eq!(size.length, 0);
    assert_eq!(size.index, -1);
}

#[test]
fn a_replay_tells_what_it_touched() {
    let mut pen = PenTool::new();
    for id in 1..=4u64 {
        assert!(pen.spawn(id, geometry(id as u32)).is_some());
    }
    assert!(pen.latch(at(1, AnchorEdge::End), at(2, AnchorEdge::Start)).is_ok());
    assert!(pen.latch(at(2, AnchorEdge::End), at(3, AnchorEdge::Start)).is_ok());
    let g = pen.form_group(&vec![1, 2, 3]).unwrap();
    assert!(pen.move_anchor(2, Anchor::Start, Point { x: 5, y: 5 }).is_ok());
    let deleted = delete(&mut pen, &vec![2], false).unwrap();
    assert_eq!(deleted.curves, vec![2, 1, 3]);
    assert_eq!(deleted.groups, vec![g]);
    assert_eq!(deleted.records.len(), 3);
    let undone = undo(&mut pen).unwrap();
    assert!(matches!(undone.action, HistoryAction::DeletedCurve { bezier_id: 2, .. }));
    assert_eq!(undone.changes.curves, vec![2]);
    assert_eq!(undone.changes.group, None);
    let redone = redo(&mut pen).unwrap();
    assert_eq!(redone.changes.curves, vec![2]);
    assert_eq!(redone.changes.group, None);
    for _ in 0..3 {
        assert!(undo(&mut pen).is_ok());
    }
    let undone = undo(&mut pen).unwrap();
    assert!(matches!(undone.action, HistoryAction::MovedAnchor { bezier_id: 2, .. }));
    assert_eq!(undone.changes.curves, vec![2, 1]);
    assert_eq!(pen.get(1).unwrap().positions.end, geometry(2).start);
    let probe = HistoryAction::DeletedCurve { bezier: BezierHist { positions: geometry(0) }, bezier_id: 4 };
    let reach = pen.reach(probe, true);
    assert_eq!(reach.curves, vec![4]);
    assert_eq!(reach.group, None);
    assert!(pen.reach(probe, false).curves.is_empty());
    let latch = HistoryAction::Latched {
        self_id: 4,
        self_anchor: AnchorEdge::Start,
        partner_bezier_id: 3,
        partner_anchor: AnchorEdge::End,
    };
    assert_eq!(pen.reach(latch, true).curves, vec![4, 3]);
    assert!(pen.reach(latch, false).curves.is_empty());
    assert!(pen.can_latch(at(4, AnchorEdge::Start), at(3, AnchorEdge::End)));
    assert!(!pen.can_unlatch(at(4, AnchorEdge::Start), at(3, AnchorEdge::End)));
    assert!(pen.can_unlatch(at(3, AnchorEdge::Start), at(2, AnchorEdge::End)));
}

#[test]
fn undoing_a_spawn_of_a_grouped_curve_dissolves_its_group() {
    let mut pen = PenTool::new();
    assert!(pen.spawn(1, geometry(1)).is_some());
    pen.insert(2, geometry(2));
    assert!(pen.latch(at(1, AnchorEdge::End), at(2, AnchorEdge::Start)).is_ok());
    let g = pen.form_group(&vec![1, 2]).unwrap();
    assert!(undo(&mut pen).is_ok());
    let undone = undo(&mut pen).unwrap();
    assert!(matches!(undone.action, HistoryAction::SpawnedCurve { bezier_id: 1, .. }));
    assert_eq!(undone.changes.curves, vec![1, 2]);
    assert_eq!(undone.changes.group, Some(g));
    assert!(!pen.contains(1));
    assert_eq!(pen.group_of(2), None);
    assert_eq!(pen.group_members(g), None);
}
