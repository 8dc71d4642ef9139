//! Groups: making a chain of curves one compound shape, and dissolving it.

use crate::chain::{chain_of, connected, lemma_same_chain};
use crate::curve::{AnchorEdge, BezierId, CurveIdEdge, GroupId};
use crate::deletion::all_known;
use crate::error::PenError;
use crate::group_laws::{group_is_chain, law_new_group_is_chain};
use crate::grouping::{
    all_free, any_grouped, chain_order, chain_start, chain_start_from, chain_walk, exit_of,
    group_refusal, grouped, lemma_grouped_wf, lemma_walk_covers_chain, one_chain, open_end, tagged,
    walk_ended,
};
use crate::latch::{entry, lemma_partner_mirrored, partner};
use crate::lists::contains_id;
use crate::model::{distinct_ids, listed};
use crate::pen::PenTool;
use vstd::prelude::*;

verus! {

/// Whether the links list curve `id`.
fn link_listed(links: &Vec<CurveIdEdge>, id: BezierId) -> (found: bool)
    ensures
        found == listed(links@, id),
{
    let mut i: usize = 0;
    while i < links.len()
        invariant
            0 <= i <= links.len(),
            forall|j: int| 0 <= j < i ==> (#[trigger] links@[j]).id != id,
        decreases links.len() - i,
    {
        if links[i].id == id {
            return true;
        }
        i = i + 1;
    }
    false
}

/// Whether every item of `part` is in `whole`.
fn all_within(part: &Vec<BezierId>, whole: &Vec<BezierId>) -> (within: bool)
    ensures
        within == (forall|i: int| 0 <= i < part@.len() ==> whole@.contains(#[trigger] part@[i])),
{
    let mut i: usize = 0;
    while i < part.len()
        invariant
            0 <= i <= part.len(),
            forall|j: int| 0 <= j < i ==> whole@.contains(#[trigger] part@[j]),
        decreases part.len() - i,
    {
        if !contains_id(whole, part[i]) {
            return false;
        }
        i = i + 1;
    }
    true
}

/// A list of links without repeated curves, all of which lie in a finite set,
/// is no longer than the set is large.
proof fn lemma_links_fit(links: Seq<CurveIdEdge>, within: Set<BezierId>)
    requires
        distinct_ids(links),
        within.finite(),
        forall|i: int| 0 <= i < links.len() ==> within.contains((#[trigger] links[i]).id),
    ensures
        links.len() <= within.len(),
{
    let ids = links.map_values(|link: CurveIdEdge| link.id);
    assert(ids.no_duplicates()) by {
        assert forall|i: int, j: int| 0 <= i < ids.len() && 0 <= j < ids.len() && i != j implies ids[i]
            != ids[j] by {
            assert(links[i].id != links[j].id);
        }
    }
    ids.unique_seq_to_set();
    assert(ids.to_set().subset_of(within)) by {
        assert forall|x: BezierId| ids.to_set().contains(x) implies within.contains(x) by {
            let i = choose|i: int| 0 <= i < ids.len() && ids[i] == x;
            assert(within.contains(links[i].id));
        }
    }
    vstd::set_lib::lemma_len_subset(ids.to_set(), within);
}

/// A walk that is followed through one more latch, into a curve that it has
/// not been through, is a walk still.
proof fn lemma_walk_extended(curves: crate::latch::Curves, links: Seq<CurveIdEdge>, next: CurveIdEdge)
    requires
        chain_walk(curves, links),
        distinct_ids(links),
        partner(curves, exit_of(links.last())) == Some(next),
        curves.contains_key(next.id),
        !listed(links, next.id),
    ensures
        chain_walk(curves, links.push(next)),
        distinct_ids(links.push(next)),
{
    let longer = links.push(next);
    assert forall|i: int| 0 <= i < longer.len() - 1 implies partner(
        curves,
        exit_of(#[trigger] longer[i]),
    ) == Some(longer[i + 1]) by {
        if i < links.len() - 1 {
            assert(partner(curves, exit_of(links[i])) == Some(links[i + 1]));
        }
    }
    assert forall|i: int| 0 <= i < longer.len() implies curves.contains_key(
        (#[trigger] longer[i]).id,
    ) by {
        if i < links.len() {
            assert(curves.contains_key(links[i].id));
        }
    }
    assert forall|i: int, j: int|
        0 <= i < longer.len() && 0 <= j < longer.len() && i != j implies (#[trigger] longer[i]).id != (
    #[trigger] longer[j]).id by {
        if i < links.len() && j < links.len() {
            assert(links[i].id != links[j].id);
        } else if i < links.len() {
            assert(links[i].id != next.id);
        } else {
            assert(links[j].id != next.id);
        }
    }
}

impl PenTool {
    /// Whether all the curves exist.
    pub fn knows_all(&self, ids: &Vec<BezierId>) -> (known: bool)
        ensures
            known == all_known(self@.curves, ids@),
    {
        let mut i: usize = 0;
        while i < ids.len()
            invariant
                0 <= i <= ids.len(),
                forall|j: int| 0 <= j < i ==> self@.curves.contains_key(#[trigger] ids@[j]),
            decreases ids.len() - i,
        {
            if !self.contains(ids[i]) {
                return false;
            }
            i = i + 1;
        }
        true
    }

    /// Whether the curves are exactly one chain.
    pub fn is_one_chain(&self, ids: &Vec<BezierId>) -> (whole: bool)
        requires
            self@.wf(),
        ensures
            whole == one_chain(self@.curves, ids@),
    {
        if ids.len() == 0 {
            return false;
        }
        let chain = self.chain(ids[0]);
        let inside = all_within(ids, &chain);
        let covers = all_within(&chain, ids);
        proof {
            if inside && covers {
                assert(ids@.to_set() =~= chain@.to_set());
            }
            if ids@.to_set() == chain@.to_set() {
                assert forall|i: int| 0 <= i < ids@.len() implies chain@.contains(
                    #[trigger] ids@[i],
                ) by {
                    assert(ids@.to_set().contains(ids@[i]));
                }
                assert forall|i: int| 0 <= i < chain@.len() implies ids@.contains(
                    #[trigger] chain@[i],
                ) by {
                    assert(chain@.to_set().contains(chain@[i]));
                }
            }
        }
        inside && covers
    }

    /// Whether one of the curves, all of which exist, is in a group.
    fn is_any_grouped(&self, ids: &Vec<BezierId>) -> (some: bool)
        requires
            all_known(self@.curves, ids@),
        ensures
            some == any_grouped(self@.curves, ids@),
    {
        let mut i: usize = 0;
        while i < ids.len()
            invariant
                0 <= i <= ids.len(),
                all_known(self@.curves, ids@),
                forall|j: int| 0 <= j < i ==> (#[trigger] self@.curves[ids@[j]]).group.is_none(),
            decreases ids.len() - i,
        {
            let curve = self.get(ids[i]).unwrap();
            if curve.group.is_some() {
                assert(self@.curves[ids@[i as int]].group.is_some());
                return true;
            }
            i = i + 1;
        }
        false
    }

    /// Where the chain order of the curves begins.
    fn find_chain_start(&self, ids: &Vec<BezierId>) -> (start: CurveIdEdge)
        requires
            all_known(self@.curves, ids@),
            ids@.len() > 0,
        ensures
            start == chain_start(self@.curves, ids@),
            ids@.contains(start.id),
            entry(self@.curves, start).is_none() || forall|i: int|
                0 <= i < ids@.len() ==> open_end(#[trigger] self@.curves[ids@[i]]).is_none(),
    {
        let mut i: usize = 0;
        while i < ids.len()
            invariant
                0 <= i <= ids.len(),
                ids@.len() > 0,
                all_known(self@.curves, ids@),
                chain_start(self@.curves, ids@) == chain_start_from(self@.curves, ids@, i as int),
                forall|j: int| 0 <= j < i ==> open_end(#[trigger] self@.curves[ids@[j]]).is_none(),
            decreases ids.len() - i,
        {
            let curve = self.get(ids[i]).unwrap();
            if curve.latch_start.is_none() {
                return CurveIdEdge { id: ids[i], anchor_edge: AnchorEdge::Start };
            }
            if curve.latch_end.is_none() {
                return CurveIdEdge { id: ids[i], anchor_edge: AnchorEdge::End };
            }
            i = i + 1;
        }
        CurveIdEdge { id: ids[0], anchor_edge: AnchorEdge::Start }
    }

    /// Follows the latches from `start` on, from curve to curve, until the
    /// chain ends or comes back to a curve it has been through.
    fn walk_chain(&self, start: CurveIdEdge) -> (links: Vec<CurveIdEdge>)
        requires
            self@.wf(),
            self@.curves.contains_key(start.id),
        ensures
            chain_walk(self@.curves, links@),
            links@[0] == start,
            distinct_ids(links@),
            walk_ended(self@.curves, links@),
    {
        let total = self.len();
        let mut links: Vec<CurveIdEdge> = Vec::new();
        links.push(start);
        proof {
            assert(distinct_ids(links@));
            assert(chain_walk(self@.curves, links@));
            lemma_links_fit(links@, self@.curves.dom());
        }
        loop
            invariant_except_break
                self@.wf(),
                total == self@.curves.dom().len(),
                chain_walk(self@.curves, links@),
                links@[0] == start,
                distinct_ids(links@),
                links@.len() <= total,
            ensures
                chain_walk(self@.curves, links@),
                links@[0] == start,
                distinct_ids(links@),
                walk_ended(self@.curves, links@),
            decreases total - links@.len(),
        {
            let last = links[links.len() - 1];
            let out = CurveIdEdge { id: last.id, anchor_edge: last.anchor_edge.other() };
            match self.partner_of(out) {
                Some(next) => {
                    if link_listed(&links, next.id) {
                        break ;
                    }
                    proof {
                        lemma_partner_mirrored(self@.curves, out);
                    }
                    let ghost before = links@;
                    links.push(next);
                    proof {
                        lemma_walk_extended(self@.curves, before, next);
                        lemma_links_fit(links@, self@.curves.dom());
                    }
                },
                None => {
                    break ;
                },
            }
        }
        links
    }

    /// Puts the tag of group `g` on every curve that `links` lists.
    fn tag_members(&mut self, links: &Vec<CurveIdEdge>, g: GroupId)
        requires
            forall|i: int| 0 <= i < links@.len() ==> old(self)@.curves.contains_key((#[trigger] links@[i]).id),
            forall|id: BezierId| old(self)@.curves.contains_key(id) ==> (#[trigger] old(self)@.curves[id]).id == id,
        ensures
            final(self)@ == old(self)@.with_curves(tagged(old(self)@.curves, links@, g)),
    {
        let ghost before = self@;
        let mut i: usize = 0;
        while i < links.len()
            invariant
                0 <= i <= links.len(),
                forall|k: int| 0 <= k < links@.len() ==> before.curves.contains_key((#[trigger] links@[k]).id),
                forall|id: BezierId| before.curves.contains_key(id) ==> (#[trigger] before.curves[id]).id == id,
                self@ == before.with_curves(self@.curves),
                self@.curves.dom() == before.curves.dom(),
                forall|id: BezierId|
                    before.curves.contains_key(id) ==> #[trigger] self@.curves[id] == (if listed(
                        links@.take(i as int),
                        id,
                    ) {
                        before.curves[id].with_group(Some(g))
                    } else {
                        before.curves[id]
                    }),
            decreases links.len() - i,
        {
            let id = links[i].id;
            let mut curve = self.get(id).unwrap();
            curve.group = Some(g);
            self.put_curve(curve);
            proof {
                assert(self@.curves.dom() =~= before.curves.dom());
                let shorter = links@.take(i as int);
                let longer = links@.take(i + 1);
                assert(longer[i as int].id == id);
                assert forall|other: BezierId| before.curves.contains_key(other) implies #[trigger] self@.curves[other]
                    == (if listed(longer, other) {
                    before.curves[other].with_group(Some(g))
                } else {
                    before.curves[other]
                }) by {
                    if listed(shorter, other) {
                        let k = choose|k: int| 0 <= k < shorter.len() && (#[trigger] shorter[k]).id == other;
                        assert(longer[k].id == other);
                    }
                    if listed(longer, other) && other != id {
                        let k = choose|k: int| 0 <= k < longer.len() && (#[trigger] longer[k]).id == other;
                        assert(shorter[k].id == other);
                    }
                }
            }
            i = i + 1;
        }
        proof {
            assert(links@.take(links.len() as int) =~= links@);
            assert(self@.curves =~= tagged(before.curves, links@, g));
        }
    }

    /// Makes the curves `ids` a group. They must be exactly one chain, and
    /// none of them may be in a group. The group gets the next free identity
    /// and lists its members in chain order: from a free end of the chain,
    /// the first in the order of `ids`, along the latches to the other end;
    /// a closed loop from the start of the first of `ids` once around.
    pub fn form_group(&mut self, ids: &Vec<BezierId>) -> (done: Result<GroupId, PenError>)
        requires
            old(self)@.wf(),
            old(self)@.next_group < u64::MAX,
        ensures
            final(self)@.wf(),
            match done {
                Ok(g) => {
                    &&& group_refusal(old(self)@.curves, ids@).is_none()
                    &&& g == old(self)@.next_group
                    &&& final(self)@.groups.contains_key(g)
                    &&& chain_order(old(self)@.curves, ids@, final(self)@.groups[g])
                    &&& final(self)@ == grouped(old(self)@, final(self)@.groups[g])
                    &&& group_is_chain(final(self)@, g)
                },
                Err(e) => group_refusal(old(self)@.curves, ids@) == Some(e) && final(self)@ == old(self)@,
            },
    {
        if !self.knows_all(ids) {
            return Err(PenError::UnknownId);
        }
        if !self.is_one_chain(ids) {
            return Err(PenError::NotFullyConnected);
        }
        if self.is_any_grouped(ids) {
            return Err(PenError::AlreadyGrouped);
        }
        let start = self.find_chain_start(ids);
        let links = self.walk_chain(start);
        let ghost before = self@;
        proof {
            let curves = before.curves;
            assert(ids@.to_set().contains(start.id));
            assert(connected(curves, ids@[0], start.id));
            lemma_same_chain(curves, ids@[0], start.id);
            if entry(curves, start).is_some() {
                assert forall|id: BezierId, edge: AnchorEdge|
                    chain_of(curves, links@[0].id).contains(id) implies (#[trigger] curves[id].latch(
                    edge,
                )).is_some() by {
                    assert(ids@.to_set().contains(id));
                    let i = choose|i: int| 0 <= i < ids@.len() && ids@[i] == id;
                    assert(open_end(curves[ids@[i]]).is_none());
                }
            }
            lemma_walk_covers_chain(curves, links@);
            assert forall|id: BezierId| listed(links@, id) <==> ids@.contains(id) by {
                assert(ids@.contains(id) <==> ids@.to_set().contains(id));
            }
            assert(all_free(curves, links@)) by {
                assert forall|i: int| 0 <= i < links@.len() implies curves.contains_key(
                    (#[trigger] links@[i]).id,
                ) && curves[links@[i].id].group.is_none() by {
                    assert(listed(links@, links@[i].id));
                    let k = choose|k: int| 0 <= k < ids@.len() && ids@[k] == links@[i].id;
                    assert(curves[ids@[k]].group.is_none());
                }
            }
            lemma_grouped_wf(before, links@);
            law_new_group_is_chain(before, ids@, links@);
        }
        let g = self.take_group_id();
        self.tag_members(&links, g);
        self.put_group(g, links);
        Ok(g)
    }

    /// Dissolves a group: its record goes and its members lose its tag.
    /// Returns the members that are set free, in chain order.
    pub fn dissolve_group(&mut self, g: GroupId) -> (done: Result<Vec<BezierId>, PenError>)
        requires
            old(self)@.wf(),
        ensures
            final(self)@.wf(),
            match done {
                Ok(members) => {
                    &&& old(self)@.groups.contains_key(g)
                    &&& members@ == old(self)@.groups[g].map_values(|link: CurveIdEdge| link.id)
                    &&& final(self)@ == old(self)@.ungrouped(g)
                },
                Err(e) => {
                    &&& e == PenError::UnknownId
                    &&& !old(self)@.groups.contains_key(g)
                    &&& final(self)@ == old(self)@
                },
            },
    {
        if self.links(g).is_none() {
            return Err(PenError::UnknownId);
        }
        Ok(self.ungroup_raw(g))
    }

    /// The members of a group in chain order, each with the endpoint at which
    /// the chain enters it.
    pub fn group_members(&self, g: GroupId) -> (found: Option<Vec<CurveIdEdge>>)
        ensures
            match found {
                Some(links) => self@.groups.contains_key(g) && links@ == self@.groups[g],
                None => !self@.groups.contains_key(g),
            },
    {
        match self.links(g) {
            Some(links) => {
                let mut copy: Vec<CurveIdEdge> = Vec::new();
                let mut i: usize = 0;
                while i < links.len()
                    invariant
                        0 <= i <= links.len(),
                        copy@ == links@.take(i as int),
                    decreases links.len() - i,
                {
                    copy.push(links[i]);
                    proof {
                        assert(links@.take(i as int).push(links@[i as int]) =~= links@.take(i + 1));
                    }
                    i = i + 1;
                }
                proof {
                    assert(links@.take(links.len() as int) =~= links@);
                }
                Some(copy)
            },
            None => None,
        }
    }
}

} // verus!
