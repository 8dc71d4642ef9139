//! The cache of sample tables. A table is computed outside, from the geometry
//! of a curve or of the members of a group; the cache keeps it together with
//! the geometry it was computed from, and hands it out only as long as that
//! is the geometry of the document: a stale table is never seen.

use crate::curve::{BezierId, BezierPositions, CurveIdEdge, GroupId, Point};
use crate::model::{member_sound, PenView};
use crate::pen::PenTool;
use std::collections::HashMap;
use vstd::prelude::*;

verus! {

broadcast use vstd::std_specs::hash::group_hash_axioms;

/// The table of one curve, with the geometry it was computed from.
pub struct CurveLut {
    pub positions: BezierPositions,
    pub lut: Vec<Point>,
}

/// The aggregate table of one group, with what it was computed from: the
/// members in chain order and the geometry of each.
pub struct GroupLut {
    pub links: Vec<CurveIdEdge>,
    pub positions: Vec<BezierPositions>,
    pub lut: Vec<Point>,
    /// The length of the whole path, as an opaque word.
    pub length: u32,
}

/// What a [`CurveLut`] holds.
pub struct CurveLutView {
    pub positions: BezierPositions,
    pub lut: Seq<Point>,
}

/// What a [`GroupLut`] holds.
pub struct GroupLutView {
    pub links: Seq<CurveIdEdge>,
    pub positions: Seq<BezierPositions>,
    pub lut: Seq<Point>,
    pub length: u32,
}

/// What a [`LutCache`] holds.
pub struct LutView {
    pub curves: Map<BezierId, CurveLutView>,
    pub groups: Map<GroupId, GroupLutView>,
}

impl View for CurveLut {
    type V = CurveLutView;

    open spec fn view(&self) -> CurveLutView {
        CurveLutView { positions: self.positions, lut: self.lut@ }
    }
}

impl View for GroupLut {
    type V = GroupLutView;

    open spec fn view(&self) -> GroupLutView {
        GroupLutView {
            links: self.links@,
            positions: self.positions@,
            lut: self.lut@,
            length: self.length,
        }
    }
}

/// The cache.
pub struct LutCache {
    curves: HashMap<BezierId, CurveLut>,
    groups: HashMap<GroupId, GroupLut>,
}

impl View for LutCache {
    type V = LutView;

    closed spec fn view(&self) -> LutView {
        LutView {
            curves: Map::new(
                |id: BezierId| self.curves@.contains_key(id),
                |id: BezierId| self.curves@[id]@,
            ),
            groups: Map::new(
                |g: GroupId| self.groups@.contains_key(g),
                |g: GroupId| self.groups@[g]@,
            ),
        }
    }
}

/// The table was computed from the geometry that curve `id` has now.
pub open spec fn curve_lut_holds(table: CurveLutView, v: PenView, id: BezierId) -> bool {
    v.curves.contains_key(id) && table.positions == v.curves[id].positions
}

/// The table was computed from the members that group `g` has now, in their
/// order, and from the geometry that each of them has now.
pub open spec fn group_lut_holds(table: GroupLutView, v: PenView, g: GroupId) -> bool {
    &&& v.groups.contains_key(g)
    &&& table.links == v.groups[g]
    &&& table.positions.len() == table.links.len()
    &&& forall|i: int|
        0 <= i < table.links.len() ==> v.curves[(#[trigger] table.links[i]).id].positions
            == table.positions[i]
}

impl LutView {
    /// The table of curve `id` that may be seen: the one in the cache, if it
    /// holds.
    pub open spec fn curve_lut(self, v: PenView, id: BezierId) -> Option<CurveLutView> {
        if self.curves.contains_key(id) && curve_lut_holds(self.curves[id], v, id) {
            Some(self.curves[id])
        } else {
            None
        }
    }

    /// The table of group `g` that may be seen: the one in the cache, if it
    /// holds.
    pub open spec fn group_lut(self, v: PenView, g: GroupId) -> Option<GroupLutView> {
        if self.groups.contains_key(g) && group_lut_holds(self.groups[g], v, g) {
            Some(self.groups[g])
        } else {
            None
        }
    }
}

/// A table does not outlive a change of the geometry it was computed from:
/// after a curve has got another geometry, its table is not seen any more, nor
/// is the table of a group that lists the curve.
pub proof fn law_no_stale_table(
    cache: LutView,
    before: PenView,
    after: PenView,
    id: BezierId,
    g: GroupId,
)
    requires
        before.wf(),
        before.curves.contains_key(id),
        after.curves.contains_key(id),
        after.curves[id].positions != before.curves[id].positions,
    ensures
        cache.curve_lut(before, id).is_some() ==> cache.curve_lut(after, id).is_none(),
        cache.group_lut(before, g).is_some() && crate::model::listed(before.groups[g], id)
            ==> cache.group_lut(after, g).is_none(),
{
    if cache.group_lut(before, g).is_some() && crate::model::listed(before.groups[g], id) {
        let table = cache.groups[g];
        let i = choose|i: int| 0 <= i < before.groups[g].len() && (#[trigger] before.groups[g][i]).id == id;
        assert(before.curves[table.links[i].id].positions == table.positions[i]);
        if group_lut_holds(table, after, g) {
            assert(after.curves[table.links[i].id].positions == table.positions[i]);
        }
    }
}

impl LutCache {
    /// An empty cache.
    pub fn new() -> (cache: LutCache)
        ensures
            cache@.curves == Map::<BezierId, CurveLutView>::empty(),
            cache@.groups == Map::<GroupId, GroupLutView>::empty(),
    {
        let cache = LutCache { curves: HashMap::new(), groups: HashMap::new() };
        assert(cache@.curves =~= Map::<BezierId, CurveLutView>::empty());
        assert(cache@.groups =~= Map::<GroupId, GroupLutView>::empty());
        cache
    }

    /// Keeps the table of a curve, in place of the one that was kept.
    pub fn store_curve_lut(&mut self, id: BezierId, table: CurveLut)
        ensures
            final(self)@ == (LutView { curves: old(self)@.curves.insert(id, table@), ..old(self)@ }),
    {
        self.curves.insert(id, table);
        assert(self@.curves =~= old(self)@.curves.insert(id, table@));
    }

    /// Keeps the aggregate table of a group, in place of the one that was
    /// kept.
    pub fn store_group_lut(&mut self, g: GroupId, table: GroupLut)
        ensures
            final(self)@ == (LutView { groups: old(self)@.groups.insert(g, table@), ..old(self)@ }),
    {
        self.groups.insert(g, table);
        assert(self@.groups =~= old(self)@.groups.insert(g, table@));
    }

    /// The table of a curve, unless none is kept or the curve has changed
    /// since the table was computed.
    pub fn curve_lut(&self, pen: &PenTool, id: BezierId) -> (found: Option<&CurveLut>)
        ensures
            match found {
                Some(table) => self@.curve_lut(pen@, id) == Some(table@),
                None => self@.curve_lut(pen@, id).is_none(),
            },
    {
        match (self.curves.get(&id), pen.get(id)) {
            (Some(table), Some(curve)) => {
                if table.positions == curve.positions {
                    Some(table)
                } else {
                    None
                }
            },
            _ => None,
        }
    }

    /// The aggregate table of a group, unless none is kept or the group or
    /// one of its members has changed since the table was computed.
    pub fn group_lut(&self, pen: &PenTool, g: GroupId) -> (found: Option<&GroupLut>)
        requires
            pen@.wf(),
        ensures
            match found {
                Some(table) => self@.group_lut(pen@, g) == Some(table@),
                None => self@.group_lut(pen@, g).is_none(),
            },
    {
        let table = match self.groups.get(&g) {
            Some(table) => table,
            None => {
                return None;
            },
        };
        let links = match pen.group_members(g) {
            Some(links) => links,
            None => {
                return None;
            },
        };
        if table.links.len() != links.len() || table.positions.len() != links.len() {
            return None;
        }
        let mut i: usize = 0;
        while i < links.len()
            invariant
                0 <= i <= links.len(),
                pen@.wf(),
                pen@.groups.contains_key(g),
                self@.groups.contains_key(g),
                self@.groups[g] == table@,
                links@ == pen@.groups[g],
                table.links@.len() == links@.len(),
                table.positions@.len() == links@.len(),
                forall|k: int| 0 <= k < i ==> table.links@[k] == #[trigger] links@[k],
                forall|k: int|
                    0 <= k < i ==> pen@.curves[(#[trigger] links@[k]).id].positions
                        == table.positions@[k],
            decreases links.len() - i,
        {
            proof {
                assert(member_sound(pen@.curves, pen@.groups, g, i as int));
            }
            let curve = pen.get(links[i].id).unwrap();
            let link: CurveIdEdge = table.links[i];
            let geometry: BezierPositions = table.positions[i];
            let same = link == links[i] && geometry == curve.positions;
            if !same {
                proof {
                    if group_lut_holds(table@, pen@, g) {
                        assert(table@.links[i as int] == links@[i as int]);
                        assert(pen@.curves[table@.links[i as int].id].positions
                            == table@.positions[i as int]);
                    }
                }
                return None;
            }
            i = i + 1;
        }
        assert(table.links@ =~= links@);
        Some(table)
    }
}

} // verus!
