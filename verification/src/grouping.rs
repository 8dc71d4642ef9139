//! Groups as mathematics: when curves may be grouped, and the order in which a
//! group lists its members.

use crate::chain::{
    adjacent, chain_of, connected, leads_to, lemma_closed_set_covers_chain, lemma_connected_self,
    lemma_connected_step,
};
use crate::curve::{AnchorEdge, Bezier, BezierId, CurveIdEdge, GroupId};
use crate::deletion::all_known;
use crate::error::PenError;
use crate::latch::{entry, half_sound, latches_sound, lemma_partner_mirrored, partner, Curves};
use crate::model::{distinct_ids, listed, member_sound, tag_sound, PenView};
use vstd::prelude::*;

verus! {

/// The endpoint at which a chain leaves a curve that it entered at `link`.
pub open spec fn exit_of(link: CurveIdEdge) -> CurveIdEdge {
    CurveIdEdge { id: link.id, anchor_edge: link.anchor_edge.opposite() }
}

/// The first endpoint of a curve that holds no latch, the start before the
/// end.
pub open spec fn open_end(curve: Bezier) -> Option<AnchorEdge> {
    if curve.latch_start.is_none() {
        Some(AnchorEdge::Start)
    } else if curve.latch_end.is_none() {
        Some(AnchorEdge::End)
    } else {
        None
    }
}

/// Where the chain order of `ids` begins, looking from position `from` on:
/// at the free endpoint of the first curve that has one. Where no curve has a
/// free endpoint the chain is a closed loop, and the order begins at the start
/// of the first curve.
pub open spec fn chain_start_from(curves: Curves, ids: Seq<BezierId>, from: int) -> CurveIdEdge
    decreases ids.len() - from,
{
    if from < 0 || from >= ids.len() {
        CurveIdEdge { id: ids[0], anchor_edge: AnchorEdge::Start }
    } else {
        match open_end(curves[ids[from]]) {
            Some(edge) => CurveIdEdge { id: ids[from], anchor_edge: edge },
            None => chain_start_from(curves, ids, from + 1),
        }
    }
}

/// Where the chain order of `ids` begins.
pub open spec fn chain_start(curves: Curves, ids: Seq<BezierId>) -> CurveIdEdge {
    chain_start_from(curves, ids, 0)
}

/// Each link names an existing curve, and the chain leaves each curve at the
/// endpoint opposite to where it entered, through a latch, into the next.
pub open spec fn chain_walk(curves: Curves, links: Seq<CurveIdEdge>) -> bool {
    &&& links.len() > 0
    &&& forall|i: int| 0 <= i < links.len() ==> curves.contains_key((#[trigger] links[i]).id)
    &&& forall|i: int|
        0 <= i < links.len() - 1 ==> partner(curves, exit_of(#[trigger] links[i])) == Some(
            links[i + 1],
        )
}

/// The walk cannot go on: the last curve is left at a free endpoint, or
/// through a latch into a curve that the walk has seen.
pub open spec fn walk_ended(curves: Curves, links: Seq<CurveIdEdge>) -> bool {
    match partner(curves, exit_of(links.last())) {
        Some(next) => listed(links, next.id),
        None => true,
    }
}

/// `links` is the chain order of the curves `ids`: it begins where
/// `chain_start` says, follows the latches from curve to curve until it cannot
/// go on, and lists every one of the curves exactly once.
pub open spec fn chain_order(curves: Curves, ids: Seq<BezierId>, links: Seq<CurveIdEdge>) -> bool {
    &&& chain_walk(curves, links)
    &&& links[0] == chain_start(curves, ids)
    &&& distinct_ids(links)
    &&& walk_ended(curves, links)
    &&& forall|id: BezierId| listed(links, id) <==> ids.contains(id)
}

/// The curves are exactly one chain: all that is connected with the first of
/// them, and nothing else.
pub open spec fn one_chain(curves: Curves, ids: Seq<BezierId>) -> bool {
    ids.len() > 0 && ids.to_set() == chain_of(curves, ids[0])
}

/// One of the curves carries a group tag.
pub open spec fn any_grouped(curves: Curves, ids: Seq<BezierId>) -> bool {
    exists|i: int| 0 <= i < ids.len() && (#[trigger] curves[ids[i]]).group.is_some()
}

/// Why the curves `ids` cannot be grouped, or `None` if they can.
pub open spec fn group_refusal(curves: Curves, ids: Seq<BezierId>) -> Option<PenError> {
    if !all_known(curves, ids) {
        Some(PenError::UnknownId)
    } else if !one_chain(curves, ids) {
        Some(PenError::NotFullyConnected)
    } else if any_grouped(curves, ids) {
        Some(PenError::AlreadyGrouped)
    } else {
        None
    }
}

/// The curves with the tag of group `g` put on every curve that `links`
/// lists.
pub open spec fn tagged(curves: Curves, links: Seq<CurveIdEdge>, g: GroupId) -> Curves {
    Map::new(
        |id: BezierId| curves.contains_key(id),
        |id: BezierId|
            if listed(links, id) {
                curves[id].with_group(Some(g))
            } else {
                curves[id]
            },
    )
}

/// The document after the curves that `links` lists have been made a group
/// under the next free identity.
pub open spec fn grouped(v: PenView, links: Seq<CurveIdEdge>) -> PenView {
    PenView {
        curves: tagged(v.curves, links, v.next_group as GroupId),
        groups: v.groups.insert(v.next_group as GroupId, links),
        next_group: v.next_group + 1,
        ..v
    }
}

/// Every curve of a walk is connected with the first.
pub proof fn lemma_walk_connected(curves: Curves, links: Seq<CurveIdEdge>, i: int)
    requires
        chain_walk(curves, links),
        0 <= i < links.len(),
    ensures
        connected(curves, links[0].id, links[i].id),
    decreases i,
{
    if i == 0 {
        lemma_connected_self(curves, links[0].id);
    } else {
        lemma_walk_connected(curves, links, i - 1);
        assert(partner(curves, exit_of(links[i - 1])) == Some(links[i - 1 + 1]));
        assert(adjacent(curves, links[i - 1].id, links[i].id));
        lemma_connected_step(curves, links[0].id, links[i - 1].id, links[i].id);
    }
}

/// A walk that ends by running into a curve it has seen, and that did not
/// begin at a free endpoint, has run into its own beginning: the chain is a
/// closed loop.
proof fn lemma_loop_closes(curves: Curves, links: Seq<CurveIdEdge>)
    requires
        latches_sound(curves),
        chain_walk(curves, links),
        distinct_ids(links),
        walk_ended(curves, links),
        partner(curves, exit_of(links.last())).is_some(),
    ensures
        partner(curves, exit_of(links.last())) == Some(links[0]),
{
    let last = links.len() - 1;
    let out = exit_of(links[last]);
    let next = partner(curves, out).unwrap();
    lemma_partner_mirrored(curves, out);
    let j = choose|j: int| 0 <= j < links.len() && (#[trigger] links[j]).id == next.id;
    if next.anchor_edge == links[j].anchor_edge {
        assert(next == links[j]);
        if j > 0 {
            assert(partner(curves, exit_of(links[j - 1])) == Some(links[j - 1 + 1]));
            lemma_partner_mirrored(curves, exit_of(links[j - 1]));
            assert(exit_of(links[j - 1]) == out);
            assert(links[j - 1].id == links[last].id);
            assert(j - 1 == last);
        }
    } else {
        assert(next == exit_of(links[j]));
        if j < last {
            assert(partner(curves, exit_of(links[j])) == Some(links[j + 1]));
            assert(links[j + 1] == out);
            assert(links[j + 1].id == links[last].id);
            assert(j + 1 == last);
            assert(links[last].anchor_edge != out.anchor_edge);
        } else {
            assert(next == out);
        }
    }
}

/// A walk that has ended, and that began at a free endpoint or in a chain
/// without any free endpoint, lists its whole chain.
pub proof fn lemma_walk_covers_chain(curves: Curves, links: Seq<CurveIdEdge>)
    requires
        latches_sound(curves),
        chain_walk(curves, links),
        distinct_ids(links),
        walk_ended(curves, links),
        entry(curves, links[0]).is_none() || forall|id: BezierId, edge: AnchorEdge|
            chain_of(curves, links[0].id).contains(id) ==> (#[trigger] curves[id].latch(edge)).is_some(),
    ensures
        forall|id: BezierId| listed(links, id) <==> chain_of(curves, links[0].id).contains(id),
{
    let seed = links[0].id;
    let last = links.len() - 1;
    let closed = Set::new(|id: BezierId| listed(links, id));
    assert forall|id: BezierId| listed(links, id) implies chain_of(curves, seed).contains(id) by {
        let i = choose|i: int| 0 <= i < links.len() && (#[trigger] links[i]).id == id;
        lemma_walk_connected(curves, links, i);
    }
    assert(closed.contains(seed)) by {
        assert(links[0].id == seed);
    }
    assert forall|x: BezierId, y: BezierId|
        closed.contains(x) && #[trigger] adjacent(curves, x, y) implies closed.contains(y) by {
        let i = choose|i: int| 0 <= i < links.len() && (#[trigger] links[i]).id == x;
        let edge = if leads_to(curves, x, AnchorEdge::Start, y) {
            AnchorEdge::Start
        } else {
            AnchorEdge::End
        };
        let at = CurveIdEdge { id: x, anchor_edge: edge };
        assert(leads_to(curves, x, edge, y));
        assert(partner(curves, at).is_some() && partner(curves, at).unwrap().id == y);
        if at == exit_of(links[i]) {
            if i < last {
                assert(partner(curves, exit_of(links[i])) == Some(links[i + 1]));
                assert(links[i + 1].id == y);
            }
        } else {
            assert(at == links[i]);
            if i > 0 {
                assert(partner(curves, exit_of(links[i - 1])) == Some(links[i - 1 + 1]));
                lemma_partner_mirrored(curves, exit_of(links[i - 1]));
                assert(links[i - 1].id == y);
            } else {
                lemma_walk_connected(curves, links, last);
                assert(chain_of(curves, seed).contains(links[last].id));
                assert(curves[links[last].id].latch(exit_of(links[last]).anchor_edge).is_some());
                lemma_loop_closes(curves, links);
                lemma_partner_mirrored(curves, exit_of(links[last]));
                assert(links[last].id == y);
            }
        }
    }
    lemma_closed_set_covers_chain(curves, seed, closed);
}

/// Every curve that `links` lists exists and carries no group tag.
pub open spec fn all_free(curves: Curves, links: Seq<CurveIdEdge>) -> bool {
    forall|i: int|
        0 <= i < links.len() ==> curves.contains_key((#[trigger] links[i]).id)
            && curves[links[i].id].group.is_none()
}

proof fn lemma_grouped_tags(v: PenView, links: Seq<CurveIdEdge>, id: BezierId)
    requires
        v.wf(),
        v.next_group <= u64::MAX,
        all_free(v.curves, links),
        v.curves.contains_key(id),
    ensures
        tag_sound(grouped(v, links).curves, grouped(v, links).groups, id),
{
    let g = v.next_group as GroupId;
    assert(tag_sound(v.curves, v.groups, id));
    if listed(links, id) {
        assert(grouped(v, links).groups[g] == links);
    } else {
        match v.curves[id].group {
            Some(h) => {
                assert(v.groups.contains_key(h));
                assert(h != g);
                assert(grouped(v, links).groups[h] == v.groups[h]);
            },
            None => {},
        }
    }
}

proof fn lemma_grouped_members(v: PenView, links: Seq<CurveIdEdge>, h: GroupId, i: int)
    requires
        v.wf(),
        v.next_group <= u64::MAX,
        all_free(v.curves, links),
        grouped(v, links).groups.contains_key(h),
        0 <= i < grouped(v, links).groups[h].len(),
    ensures
        member_sound(grouped(v, links).curves, grouped(v, links).groups, h, i),
{
    let g = v.next_group as GroupId;
    if h == g {
        assert(links[i].id == links[i].id);
        assert(listed(links, links[i].id));
    } else {
        assert(v.groups.contains_key(h));
        assert(member_sound(v.curves, v.groups, h, i));
        let id = v.groups[h][i].id;
        if listed(links, id) {
            let k = choose|k: int| 0 <= k < links.len() && (#[trigger] links[k]).id == id;
            assert(v.curves[links[k].id].group.is_none());
        }
    }
}

/// Making a group of existing curves that are in no group keeps the document
/// well formed.
pub proof fn lemma_grouped_wf(v: PenView, links: Seq<CurveIdEdge>)
    requires
        v.wf(),
        v.next_group < u64::MAX,
        all_free(v.curves, links),
        distinct_ids(links),
    ensures
        grouped(v, links).wf(),
        !v.groups.contains_key(v.next_group as GroupId),
{
    let after = grouped(v, links);
    let g = v.next_group as GroupId;
    assert(after.curves.dom() =~= v.curves.dom());
    assert forall|id: BezierId, edge: AnchorEdge| after.curves.contains_key(id) implies #[trigger] half_sound(
        after.curves,
        id,
        edge,
    ) by {
        assert(half_sound(v.curves, id, edge));
    }
    assert forall|id: BezierId| after.curves.contains_key(id) implies #[trigger] tag_sound(
        after.curves,
        after.groups,
        id,
    ) by {
        lemma_grouped_tags(v, links, id);
    }
    assert forall|h: GroupId, i: int|
        after.groups.contains_key(h) && 0 <= i < after.groups[h].len() implies #[trigger] member_sound(
        after.curves,
        after.groups,
        h,
        i,
    ) by {
        lemma_grouped_members(v, links, h, i);
    }
    assert forall|h: GroupId| #[trigger] after.groups.contains_key(h) implies h < after.next_group
        && distinct_ids(after.groups[h]) by {
        if h != g {
            assert(v.groups.contains_key(h));
        }
    }
}

/// Two walks from the same beginning go through the same curves as far as
/// both go.
proof fn lemma_walks_agree(curves: Curves, first: Seq<CurveIdEdge>, second: Seq<CurveIdEdge>, i: int)
    requires
        chain_walk(curves, first),
        chain_walk(curves, second),
        first[0] == second[0],
        0 <= i < first.len(),
        i < second.len(),
    ensures
        first[i] == second[i],
    decreases i,
{
    if i > 0 {
        lemma_walks_agree(curves, first, second, i - 1);
        assert(partner(curves, exit_of(first[i - 1])) == Some(first[i - 1 + 1]));
        assert(partner(curves, exit_of(second[i - 1])) == Some(second[i - 1 + 1]));
    }
}

/// A walk that has ended is no shorter than another walk from the same
/// beginning that lists no curve twice.
proof fn lemma_ended_walk_is_longest(curves: Curves, ended: Seq<CurveIdEdge>, other: Seq<CurveIdEdge>)
    requires
        chain_walk(curves, ended),
        chain_walk(curves, other),
        ended[0] == other[0],
        walk_ended(curves, ended),
        distinct_ids(other),
    ensures
        other.len() <= ended.len(),
{
    if other.len() > ended.len() {
        let last = ended.len() - 1;
        lemma_walks_agree(curves, ended, other, last);
        assert(partner(curves, exit_of(other[last])) == Some(other[last + 1]));
        let next = other[last + 1];
        assert(listed(ended, next.id));
        let j = choose|j: int| 0 <= j < ended.len() && (#[trigger] ended[j]).id == next.id;
        lemma_walks_agree(curves, ended, other, j);
        assert(other[j].id == other[last + 1].id);
        assert(j == last + 1);
    }
}

/// The chain order of a selection is one: the group that is made of it
/// cannot list its members in two ways.
pub proof fn law_chain_order_is_one(
    curves: Curves,
    ids: Seq<BezierId>,
    first: Seq<CurveIdEdge>,
    second: Seq<CurveIdEdge>,
)
    requires
        chain_order(curves, ids, first),
        chain_order(curves, ids, second),
    ensures
        first == second,
{
    lemma_ended_walk_is_longest(curves, first, second);
    lemma_ended_walk_is_longest(curves, second, first);
    assert forall|i: int| 0 <= i < first.len() implies first[i] == second[i] by {
        lemma_walks_agree(curves, first, second, i);
    }
    assert(first =~= second);
}

} // verus!
