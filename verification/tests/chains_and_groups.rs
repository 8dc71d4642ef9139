use pen_tool::actions::{groupy, save, selection_final, ungroup, update_lut};
use pen_tool::curve::{AnchorEdge, BezierPositions, CurveIdEdge, Point};
use pen_tool::error::PenError;
use pen_tool::lut::{CurveLut, GroupLut, LutCache};
use pen_tool::pen::PenTool;

fn at(id: u64, anchor_edge: AnchorEdge) -> CurveIdEdge {
    CurveIdEdge { id, anchor_edge }
}

fn geometry(seed: u32) -> BezierPositions {
    BezierPositions {
        start: Point { x: seed, y: seed + 1 },
        end: Point { x: seed + 2, y: seed + 3 },
        control_start: Point { x: seed + 4, y: seed + 5 },
        control_end: Point { x: seed + 6, y: seed + 7 },
    }
}

fn sorted(mut ids: Vec<u64>) -> Vec<u64> {
    ids.sort();
    ids
}

fn chain_abc() -> PenTool {
    let mut pen = PenTool::new();
    for id in 1..=3u64 {
        pen.insert(id, geometry(10 * id as u32));
    }
    assert!(pen.latch(at(1, AnchorEdge::End), at(2, AnchorEdge::Start)).is_ok());
    assert!(pen.latch(at(2, AnchorEdge::End), at(3, AnchorEdge::Start)).is_ok());
    pen
}

fn ring_of_three() -> PenTool {
    let mut pen = chain_abc();
    assert!(pen.latch(at(3, AnchorEdge::End), at(1, AnchorEdge::Start)).is_ok());
    pen
}

#[test]
fn chain_of_three_is_one_component() {
    let pen = chain_abc();
    assert_eq!(sorted(pen.connected_component(1)), vec![2, 3]);
    assert_eq!(sorted(pen.connected_component(2)), vec![1, 3]);
    assert_eq!(sorted(pen.connected_component(3)), vec![1, 2]);
    let whole = pen.chain(2);
    assert_eq!(whole[0], 2);
    assert_eq!(sorted(whole), vec![1, 2, 3]);
}

#[test]
fn component_of_a_lone_or_missing_curve_is_empty() {
    let mut pen = chain_abc();
    pen.insert(9, geometry(9));
    assert_eq!(pen.connected_component(9), Vec::<u64>::new());
    assert_eq!(pen.chain(9), vec![9]);
    assert_eq!(pen.connected_component(99), Vec::<u64>::new());
    assert_eq!(pen.chain(99), Vec::<u64>::new());
}

#[test]
fn traversal_ends_on_a_ring() {
    let pen = ring_of_three();
    assert_eq!(sorted(pen.connected_component(1)), vec![2, 3]);
    assert_eq!(sorted(pen.chain(3)), vec![1, 2, 3]);
}

#[test]
fn traversal_sees_each_curve_once_when_two_curves_are_latched_twice() {
    let mut pen = PenTool::new();
    pen.insert(1, geometry(1));
    pen.insert(2, geometry(2));
    assert!(pen.latch(at(1, AnchorEdge::Start), at(2, AnchorEdge::Start)).is_ok());
    assert!(pen.latch(at(1, AnchorEdge::End), at(2, AnchorEdge::End)).is_ok());
    assert_eq!(pen.connected_component(1), vec![2]);
    assert_eq!(pen.chain(2), vec![2, 1]);
}

#[test]
fn chain_of_three_groups_as_a_whole_only() {
    let mut pen = chain_abc();
    assert_eq!(pen.form_group(&vec![1, 3]), Err(PenError::NotFullyConnected));
    assert_eq!(pen.form_group(&vec![1, 2]), Err(PenError::NotFullyConnected));
    assert_eq!(pen.form_group(&vec![]), Err(PenError::NotFullyConnected));
    assert_eq!(pen.form_group(&vec![1, 2, 7]), Err(PenError::UnknownId));
    assert_eq!(pen.group_of(1), None);
    let g = pen.form_group(&vec![1, 2, 3]).unwrap();
    assert_eq!(g, 0);
    for id in 1..=3u64 {
        assert_eq!(pen.group_of(id), Some(g));
    }
    assert_eq!(pen.group_of(44), None);
    assert_eq!(
        pen.group_members(g),
        Some(vec![at(1, AnchorEdge::Start), at(2, AnchorEdge::Start), at(3, AnchorEdge::Start)])
    );
    assert_eq!(pen.history_len(), 2);
}

#[test]
fn chain_order_starts_at_the_first_free_end_in_selection_order() {
    let mut pen = chain_abc();
    let g = pen.form_group(&vec![2, 3, 1, 3]).unwrap();
    assert_eq!(
        pen.group_members(g),
        Some(vec![at(3, AnchorEdge::End), at(2, AnchorEdge::End), at(1, AnchorEdge::End)])
    );
}

#[test]
fn chain_order_follows_the_latches_whatever_ends_they_join() {
    let mut pen = PenTool::new();
    for id in 1..=3u64 {
        pen.insert(id, geometry(id as u32));
    }
    assert!(pen.latch(at(1, AnchorEdge::Start), at(2, AnchorEdge::Start)).is_ok());
    assert!(pen.latch(at(2, AnchorEdge::End), at(3, AnchorEdge::End)).is_ok());
    let g = pen.form_group(&vec![1, 2, 3]).unwrap();
    assert_eq!(
        pen.group_members(g),
        Some(vec![at(1, AnchorEdge::End), at(2, AnchorEdge::Start), at(3, AnchorEdge::End)])
    );
}

#[test]
fn a_ring_is_ordered_from_the_start_of_the_first_selected() {
    let mut pen = ring_of_three();
    let g = pen.form_group(&vec![2, 1, 3]).unwrap();
    assert_eq!(
        pen.group_members(g),
        Some(vec![at(2, AnchorEdge::Start), at(3, AnchorEdge::Start), at(1, AnchorEdge::Start)])
    );
}

#[test]
fn a_single_curve_is_a_chain() {
    let mut pen = PenTool::new();
    pen.insert(5, geometry(5));
    let g = pen.form_group(&vec![5]).unwrap();
    assert_eq!(pen.group_members(g), Some(vec![at(5, AnchorEdge::Start)]));
    let mut looped = PenTool::new();
    looped.insert(6, geometry(6));
    assert!(looped.latch(at(6, AnchorEdge::Start), at(6, AnchorEdge::End)).is_ok());
    let h = looped.form_group(&vec![6]).unwrap();
    assert_eq!(looped.group_members(h), Some(vec![at(6, AnchorEdge::Start)]));
}

#[test]
fn grouping_twice_is_refused_and_identities_are_fresh() {
    let mut pen = chain_abc();
    pen.insert(8, geometry(8));
    let g = pen.form_group(&vec![3, 2, 1]).unwrap();
    assert_eq!(pen.form_group(&vec![1, 2, 3]), Err(PenError::AlreadyGrouped));
    let h = pen.form_group(&vec![8]).unwrap();
    assert_eq!(g, 0);
    assert_eq!(h, 1);
    assert_eq!(pen.dissolve_group(g), Ok(vec![3, 2, 1]));
    let again = pen.form_group(&vec![1, 2, 3]).unwrap();
    assert_eq!(again, 2);
    assert_eq!(pen.group_of(8), Some(h));
    assert_eq!(pen.group_of(2), Some(again));
}

#[test]
fn dissolve_frees_the_members() {
    let mut pen = chain_abc();
    assert_eq!(pen.dissolve_group(0), Err(PenError::UnknownId));
    let g = pen.form_group(&vec![1, 2, 3]).unwrap();
    assert_eq!(pen.dissolve_group(g), Ok(vec![1, 2, 3]));
    for id in 1..=3u64 {
        assert_eq!(pen.group_of(id), None);
    }
    assert_eq!(pen.group_members(g), None);
    assert_eq!(pen.dissolve_group(g), Err(PenError::UnknownId));
    assert_eq!(pen.partner_of(at(1, AnchorEdge::End)), Some(at(2, AnchorEdge::Start)));
}

#[test]
fn groupy_hands_the_group_out() {
    let mut pen = chain_abc();
    let group = groupy(&mut pen, &vec![3, 1, 2]).unwrap().unwrap();
    assert_eq!(group.group_id, 0);
    assert_eq!(
        group.lut,
        vec![at(3, AnchorEdge::End), at(2, AnchorEdge::End), at(1, AnchorEdge::End)]
    );
    assert_eq!(pen.group_of(2), Some(0));
    assert_eq!(groupy(&mut pen, &vec![1, 2, 3]).unwrap().err(), Some(PenError::AlreadyGrouped));
    assert_eq!(groupy(&mut pen, &vec![1, 5]).unwrap().err(), Some(PenError::UnknownId));
    assert_eq!(groupy(&mut pen, &vec![1, 2]).unwrap().err(), Some(PenError::NotFullyConnected));
}

#[test]
fn ungroup_wants_one_whole_chain_of_one_group() {
    let mut pen = chain_abc();
    pen.insert(8, geometry(8));
    let g = pen.form_group(&vec![1, 2, 3]).unwrap();
    let h = pen.form_group(&vec![8]).unwrap();
    assert_eq!(ungroup(&mut pen, &vec![1, 2, 77], g), Err(PenError::UnknownId));
    assert_eq!(ungroup(&mut pen, &vec![], g), Err(PenError::NotFullyConnected));
    assert_eq!(ungroup(&mut pen, &vec![1, 2, 3], h), Err(PenError::AlreadyGrouped));
    assert_eq!(ungroup(&mut pen, &vec![1, 2], g), Err(PenError::NotFullyConnected));
    assert_eq!(ungroup(&mut pen, &vec![1, 2, 3, 8], g), Err(PenError::AlreadyGrouped));
    assert_eq!(pen.group_of(1), Some(g));
    assert_eq!(ungroup(&mut pen, &vec![3, 2, 1], g), Ok(vec![1, 2, 3]));
    assert_eq!(pen.group_of(1), None);
    assert_eq!(pen.group_of(8), Some(h));
    assert_eq!(ungroup(&mut pen, &vec![3, 2, 1], g), Err(PenError::UnknownId));
}

#[test]
fn update_lut_names_movers_partners_and_groups_once() {
    let mut pen = chain_abc();
    pen.insert(8, geometry(8));
    let g = pen.form_group(&vec![1, 2, 3]).unwrap();
    let update = update_lut(&pen, &vec![2, 2, 50]);
    assert_eq!(update.curves, vec![2, 1, 3]);
    assert_eq!(update.groups, vec![g]);
    let update = update_lut(&pen, &vec![8, 1]);
    assert_eq!(update.curves, vec![8, 1, 2]);
    assert_eq!(update.groups, vec![g]);
    let update = update_lut(&pen, &vec![8]);
    assert_eq!(update.curves, vec![8]);
    assert_eq!(update.groups, Vec::<u64>::new());
    let update = update_lut(&pen, &vec![]);
    assert!(update.curves.is_empty());
    assert!(update.groups.is_empty());
}

#[test]
fn selection_takes_a_group_as_a_whole() {
    let mut pen = chain_abc();
    pen.insert(8, geometry(8));
    pen.insert(9, geometry(9));
    let selected = selection_final(&pen, &vec![8, 77, 2, 9]);
    assert_eq!(selected.group_id, None);
    assert_eq!(selected.curves, vec![8, 2, 9]);
    let g = pen.form_group(&vec![3, 2, 1]).unwrap();
    let selected = selection_final(&pen, &vec![8, 77, 2, 9]);
    assert_eq!(selected.group_id, Some(g));
    assert_eq!(selected.curves, vec![3, 2, 1]);
    let selected = selection_final(&pen, &vec![9, 8]);
    assert_eq!(selected.group_id, None);
    assert_eq!(selected.curves, vec![9, 8]);
    let selected = selection_final(&pen, &vec![]);
    assert_eq!(selected.group_id, None);
    assert!(selected.curves.is_empty());
}

#[test]
fn save_writes_the_members_in_chain_order() {
    let mut pen = chain_abc();
    assert!(save(&pen, 0).is_none());
    let g = pen.form_group(&vec![3, 2, 1]).unwrap();
    let saved = save(&pen, g).unwrap();
    assert_eq!(saved.len(), 3);
    assert_eq!(saved[0].bezier.id, 3);
    assert_eq!(saved[0].anchor_edge, AnchorEdge::End);
    assert_eq!(saved[0].bezier.positions, geometry(30));
    assert_eq!(saved[0].bezier.group, Some(g));
    assert_eq!(saved[0].bezier.latch_start.unwrap().latched_to_id, 2);
    assert_eq!(saved[0].bezier.latch_end, None);
    assert_eq!(saved[1].bezier.id, 2);
    assert_eq!(saved[2].bezier.id, 1);
    assert_eq!(saved[2].anchor_edge, AnchorEdge::End);
}

#[test]
fn a_table_is_seen_only_while_its_geometry_stands() {
    let mut pen = chain_abc();
    let mut cache = LutCache::new();
    assert!(cache.curve_lut(&pen, 1).is_none());
    let table = vec![Point { x: 1, y: 1 }, Point { x: 2, y: 2 }];
    cache.store_curve_lut(1, CurveLut { positions: geometry(10), lut: table.clone() });
    cache.store_curve_lut(2, CurveLut { positions: geometry(99), lut: table.clone() });
    cache.store_curve_lut(7, CurveLut { positions: geometry(70), lut: table.clone() });
    assert_eq!(cache.curve_lut(&pen, 1).map(|found| found.lut.clone()), Some(table.clone()));
    assert!(cache.curve_lut(&pen, 2).is_none());
    assert!(cache.curve_lut(&pen, 7).is_none());
    assert!(pen.move_anchor(1, pen_tool::curve::Anchor::ControlStart, Point { x: 0, y: 0 }).is_ok());
    assert!(cache.curve_lut(&pen, 1).is_none());
    let now = pen.get(1).unwrap().positions;
    cache.store_curve_lut(1, CurveLut { positions: now, lut: vec![] });
    assert_eq!(cache.curve_lut(&pen, 1).map(|found| found.lut.len()), Some(0));
}

#[test]
fn a_group_table_is_seen_only_while_members_and_geometry_stand() {
    let mut pen = chain_abc();
    let mut cache = LutCache::new();
    let g = pen.form_group(&vec![1, 2, 3]).unwrap();
    let links = pen.group_members(g).unwrap();
    assert!(cache.group_lut(&pen, g).is_none());
    let positions = vec![geometry(10), geometry(20), geometry(30)];
    let lut = vec![Point { x: 4, y: 4 }];
    cache.store_group_lut(
        g,
        GroupLut { links: links.clone(), positions: positions.clone(), lut: lut.clone(), length: 77 },
    );
    let seen = cache.group_lut(&pen, g).unwrap();
    assert_eq!(seen.lut, lut);
    assert_eq!(seen.length, 77);
    assert!(pen.move_anchor(2, pen_tool::curve::Anchor::End, Point { x: 0, y: 0 }).is_ok());
    assert!(cache.group_lut(&pen, g).is_none());
    let fresh: Vec<BezierPositions> =
        links.iter().map(|link| pen.get(link.id).unwrap().positions).collect();
    cache.store_group_lut(g, GroupLut { links: links.clone(), positions: fresh, lut: lut.clone(), length: 78 });
    assert_eq!(cache.group_lut(&pen, g).map(|found| found.length), Some(78));
    let mut turned = links.clone();
    turned.reverse();
    cache.store_group_lut(
        g,
        GroupLut { links: turned, positions: positions.clone(), lut: lut.clone(), length: 1 },
    );
    assert!(cache.group_lut(&pen, g).is_none());
    cache.store_group_lut(g, GroupLut { links: links.clone(), positions: vec![], lut: lut.clone(), length: 1 });
    assert!(cache.group_lut(&pen, g).is_none());
    assert!(pen.dissolve_group(g).is_ok());
    assert!(cache.group_lut(&pen, g).is_none());
    assert!(cache.group_lut(&pen, 50).is_none());
}

#[test]
fn questions_about_a_selection() {
    let pen = chain_abc();
    assert!(pen.knows_all(&vec![1, 2, 3]));
    assert!(pen.knows_all(&vec![]));
    assert!(!pen.knows_all(&vec![1, 4]));
    assert!(pen.is_one_chain(&vec![3, 1, 2]));
    assert!(pen.is_one_chain(&vec![3, 1, 2, 2]));
    assert!(!pen.is_one_chain(&vec![1, 2]));
    assert!(!pen.is_one_chain(&vec![]));
    assert!(!pen.is_one_chain(&vec![9]));
    assert!(!pen.is_one_chain(&vec![1, 2, 3, 9]));
}
