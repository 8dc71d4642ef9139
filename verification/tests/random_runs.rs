use pen_tool::actions::delete;
use pen_tool::curve::{Anchor, AnchorEdge, BezierPositions, CurveIdEdge, LatchData, Point};
use pen_tool::pen::PenTool;
use pen_tool::undo::{redo, undo};

/// A small generator of numbers that looks random and is the same every run.
struct Dice(u64);

impl Dice {
    fn roll(&mut self, sides: u64) -> u64 {
        self.0 = self.0.wrapping_mul(6364136223846793005).wrapping_add(1442695040888963407);
        (self.0 >> 33) % sides
    }

    fn edge(&mut self) -> AnchorEdge {
        if self.roll(2) == 0 {
            AnchorEdge::Start
        } else {
            AnchorEdge::End
        }
    }

    fn end(&mut self, ids: u64) -> CurveIdEdge {
        CurveIdEdge { id: self.roll(ids), anchor_edge: self.edge() }
    }

    fn point(&mut self) -> Point {
        Point { x: self.roll(50) as u32, y: self.roll(50) as u32 }
    }

    fn geometry(&mut self) -> BezierPositions {
        BezierPositions {
            start: self.point(),
            end: self.point(),
            control_start: self.point(),
            control_end: self.point(),
        }
    }
}

const IDS: u64 = 6;

fn picture(pen: &PenTool) -> Vec<String> {
    let mut lines: Vec<String> = (0..IDS).map(|id| format!("{:?}", pen.get(id))).collect();
    lines.extend((0..40u64).map(|g| format!("{:?}", pen.group_members(g))));
    lines.push(format!("{}", pen.index()));
    lines
}

fn shapes(pen: &PenTool) -> Vec<String> {
    (0..IDS)
        .map(|id| {
            format!("{:?}", pen.get(id).map(|c| (c.positions, c.latch_start, c.latch_end)))
        })
        .collect()
}

fn mirrored(pen: &PenTool) -> bool {
    (0..IDS).all(|id| match pen.get(id) {
        None => true,
        Some(curve) => [(AnchorEdge::Start, curve.latch_start), (AnchorEdge::End, curve.latch_end)]
            .iter()
            .all(|(edge, held)| match held {
                None => true,
                Some(half) => {
                    let back = pen.get(half.latched_to_id).and_then(|other| match half.partners_edge {
                        AnchorEdge::Start => other.latch_start,
                        AnchorEdge::End => other.latch_end,
                    });
                    half.self_edge == *edge
                        && back
                            == Some(LatchData {
                                latched_to_id: id,
                                self_edge: half.partners_edge,
                                partners_edge: *edge,
                            })
                }
            }),
    })
}

/// One edit, picked by the dice. Returns whether something was recorded.
fn edit(pen: &mut PenTool, dice: &mut Dice, tame: bool) -> bool {
    match dice.roll(7) {
        0 | 1 => {
            let id = dice.roll(IDS);
            let geometry = dice.geometry();
            pen.spawn(id, geometry).is_some()
        }
        2 | 3 => {
            let (a, b) = (dice.end(IDS), dice.end(IDS));
            pen.latch(a, b).is_ok()
        }
        4 => {
            let a = dice.end(IDS);
            match pen.partner_of(a) {
                Some(b) => pen.unlatch(a, b).is_ok(),
                None => pen.unlatch(a, dice.end(IDS)).is_ok(),
            }
        }
        5 => {
            let id = dice.roll(IDS);
            let anchor = match dice.roll(if tame { 2 } else { 4 }) {
                0 => Anchor::ControlStart,
                1 => Anchor::ControlEnd,
                2 => Anchor::Start,
                _ => Anchor::End,
            };
            pen.move_anchor(id, anchor, dice.point()).is_ok()
        }
        _ => {
            let ids = vec![dice.roll(IDS), dice.roll(IDS)];
            if !tame && dice.roll(3) == 0 {
                let chain = pen.chain(ids[0]);
                let _ = pen.form_group(&chain);
            }
            match delete(pen, &ids, false) {
                Ok(deleted) => !deleted.records.is_empty(),
                Err(_) => false,
            }
        }
    }
}

#[test]
fn every_latch_has_its_mirror_after_every_random_edit() {
    let mut dice = Dice(7);
    let mut pen = PenTool::new();
    for _ in 0..600 {
        edit(&mut pen, &mut dice, false);
        assert!(mirrored(&pen));
        match dice.roll(5) {
            0 => {
                let _ = undo(&mut pen);
            }
            1 => {
                let _ = redo(&mut pen);
            }
            _ => {}
        }
        assert!(mirrored(&pen));
    }
}

#[test]
fn undo_then_redo_restores_after_every_random_edit() {
    let mut dice = Dice(11);
    let mut pen = PenTool::new();
    let mut recorded = 0;
    for _ in 0..600 {
        if edit(&mut pen, &mut dice, false) {
            recorded += 1;
            let before = picture(&pen);
            assert!(undo(&mut pen).is_ok());
            assert!(redo(&mut pen).is_ok());
            assert_eq!(picture(&pen), before);
        }
    }
    assert!(recorded > 100);
}

#[test]
fn undoing_everything_reverts_a_random_run() {
    for seed in 1..=20u64 {
        let mut dice = Dice(seed);
        let mut pen = PenTool::new();
        for id in 0..3u64 {
            pen.insert(id, dice.geometry());
        }
        let before = shapes(&pen);
        for _ in 0..60 {
            edit(&mut pen, &mut dice, true);
        }
        let len = pen.history_len();
        assert_eq!(pen.applied(), len);
        for _ in 0..len {
            assert!(undo(&mut pen).is_ok());
        }
        assert_eq!(pen.index(), -1);
        assert_eq!(shapes(&pen), before);
        assert!(undo(&mut pen).is_err());
    }
}

#[test]
fn recording_after_undos_leaves_nothing_to_redo_in_a_random_run() {
    let mut dice = Dice(3);
    let mut pen = PenTool::new();
    let mut cuts = 0;
    for _ in 0..400 {
        for _ in 0..dice.roll(3) {
            let _ = undo(&mut pen);
        }
        let kept = pen.applied();
        let cursor_behind = kept < pen.history_len();
        if edit(&mut pen, &mut dice, false) {
            assert!(pen.applied() > kept);
            assert_eq!(pen.applied(), pen.history_len());
            assert!(redo(&mut pen).is_err());
            if cursor_behind {
                cuts += 1;
            }
        }
    }
    assert!(cuts > 20);
}
