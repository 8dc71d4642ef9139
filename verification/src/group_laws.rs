//! What holds of groups through the edits: a group that is one whole chain
//! stays one, as long as nobody latches or unlatches its own curves.

use crate::chain::{
    adjacent, chain_of, connected, is_path, leads_to, lemma_closed_set_covers_chain,
    lemma_connected_exists, lemma_connected_self, lemma_connected_step, lemma_same_chain,
};
use crate::curve::{AnchorEdge, BezierId, CurveIdEdge, GroupId};
use crate::grouping::{chain_order, group_refusal, grouped};
use crate::history::HistoryAction;
use crate::latch::{half_sound, latches_sound, lemma_moved_sound, Curves};
use crate::model::{lemma_backward_wf, lemma_forward_wf, listed, member_sound, PenView};
use crate::reach::{law_replay_frame, lost_group, replayed, same_at, touches};
use vstd::prelude::*;

verus! {

/// Group `g` lists exactly the curves of one chain: all that is connected
/// with its first member, and nothing else.
pub open spec fn group_is_chain(v: PenView, g: GroupId) -> bool {
    &&& v.groups.contains_key(g)
    &&& v.groups[g].len() > 0
    &&& forall|id: BezierId|
        listed(v.groups[g], id) <==> #[trigger] chain_of(v.curves, v.groups[g][0].id).contains(id)
}

/// The replay of `action` leaves the latches of group `g` alone: it is a
/// move, or it touches no curve of the group.
pub open spec fn spares_group(v: PenView, action: HistoryAction, forwards: bool, g: GroupId) -> bool {
    action is MovedAnchor || forall|x: BezierId|
        #[trigger] touches(v, action, forwards, x) ==> v.group_of(x) != Some(g)
}

/// Every step of a walk from `a` is connected with `a`.
proof fn lemma_path_prefix(curves: Curves, path: Seq<BezierId>, upto: int)
    requires
        is_path(curves, path),
        0 <= upto < path.len(),
    ensures
        connected(curves, path[0], path[upto]),
    decreases upto,
{
    if upto == 0 {
        lemma_connected_self(curves, path[0]);
    } else {
        lemma_path_prefix(curves, path, upto - 1);
        assert(adjacent(curves, path[upto - 1], path[upto - 1 + 1]));
        lemma_connected_step(curves, path[0], path[upto - 1], path[upto]);
    }
}

/// The chain of a curve is the same in two documents in which every curve of
/// that chain exists with the same latch entries.
pub proof fn lemma_chain_kept(before: Curves, after: Curves, seed: BezierId)
    requires
        latches_sound(before),
        before.contains_key(seed),
        forall|x: BezierId| #[trigger]
            chain_of(before, seed).contains(x) ==> after.contains_key(x) && after[x].latch_start
                == before[x].latch_start && after[x].latch_end == before[x].latch_end,
    ensures
        chain_of(after, seed) == chain_of(before, seed),
{
    let chain = chain_of(before, seed);
    lemma_connected_self(before, seed);
    assert(chain.contains(seed));
    assert forall|x: BezierId, y: BezierId|
        chain.contains(x) && #[trigger] adjacent(after, x, y) implies chain.contains(y) by {
        lemma_connected_exists(before, seed, x);
        let edge = if leads_to(after, x, AnchorEdge::Start, y) {
            AnchorEdge::Start
        } else {
            AnchorEdge::End
        };
        assert(half_sound(before, x, edge));
        assert(leads_to(before, x, edge, y));
        assert(adjacent(before, x, y));
        lemma_connected_step(before, seed, x, y);
    }
    lemma_closed_set_covers_chain(after, seed, chain);
    assert forall|y: BezierId| chain.contains(y) implies chain_of(after, seed).contains(y) by {
        let path = choose|path: Seq<BezierId>| #[trigger]
            is_path(before, path) && path.first() == seed && path.last() == y;
        assert forall|i: int| 0 <= i < path.len() implies chain.contains(#[trigger] path[i]) by {
            lemma_path_prefix(before, path, i);
        }
        assert forall|i: int| 0 <= i < path.len() - 1 implies adjacent(
            after,
            #[trigger] path[i],
            path[i + 1],
        ) by {
            assert(adjacent(before, path[i], path[i + 1]));
            assert(chain.contains(path[i]));
            assert(chain.contains(path[i + 1]));
        }
        assert(chain.contains(path[0]));
        assert(is_path(after, path));
    }
    assert(chain_of(after, seed) =~= chain);
}

/// A group that is one whole chain stays one whole chain through every
/// replay that leaves its latches alone: every move, and every creation,
/// deletion, latching and unlatching of other curves.
pub proof fn law_groups_stay_chains(v: PenView, action: HistoryAction, forwards: bool, g: GroupId)
    requires
        v.wf(),
        group_is_chain(v, g),
        spares_group(v, action, forwards, g),
    ensures
        group_is_chain(replayed(v, action, forwards), g),
{
    let after = replayed(v, action, forwards);
    let seed = v.groups[g][0].id;
    let chain = chain_of(v.curves, seed);
    assert(member_sound(v.curves, v.groups, g, 0));
    law_replay_frame(v, action, forwards);
    if forwards {
        lemma_forward_wf(v, action);
    } else {
        lemma_backward_wf(v, action);
    }
    assert(listed(v.groups[g], seed));
    assert forall|x: BezierId| #[trigger] chain.contains(x) implies after.curves.contains_key(x)
        && after.curves[x].latch_start == v.curves[x].latch_start && after.curves[x].latch_end
        == v.curves[x].latch_end by {
        assert(listed(v.groups[g], x));
        let i = choose|i: int| 0 <= i < v.groups[g].len() && (#[trigger] v.groups[g][i]).id == x;
        assert(member_sound(v.curves, v.groups, g, i));
        match action {
            HistoryAction::MovedAnchor { bezier_id, anchor, previous_position, new_position } => {
                if v.curves.contains_key(bezier_id) {
                    lemma_moved_sound(
                        v.curves,
                        bezier_id,
                        anchor,
                        if forwards {
                            new_position
                        } else {
                            previous_position
                        },
                    );
                }
            },
            _ => {
                assert(v.group_of(x) == Some(g));
                assert(!touches(v, action, forwards, x));
                assert(same_at(v.curves, after.curves, x));
            },
        }
    }
    lemma_chain_kept(v.curves, after.curves, seed);
    match action {
        HistoryAction::SpawnedCurve { bezier_id, .. } => {
            if lost_group(v, action, forwards) == Some(g) {
                assert(touches(v, action, forwards, bezier_id));
            }
        },
        HistoryAction::DeletedCurve { bezier_id, .. } => {
            if lost_group(v, action, forwards) == Some(g) {
                assert(touches(v, action, forwards, bezier_id));
            }
        },
        _ => {},
    }
    assert(after.groups.contains_key(g) && after.groups[g] == v.groups[g]);
}

/// A group is one whole chain when it is made.
pub proof fn law_new_group_is_chain(v: PenView, ids: Seq<BezierId>, links: Seq<CurveIdEdge>)
    requires
        v.wf(),
        v.next_group < u64::MAX,
        group_refusal(v.curves, ids).is_none(),
        chain_order(v.curves, ids, links),
    ensures
        group_is_chain(grouped(v, links), v.next_group as GroupId),
{
    let after = grouped(v, links);
    let g = v.next_group as GroupId;
    let seed = links[0].id;
    assert(listed(links, seed));
    assert(ids.contains(seed));
    assert(ids.to_set().contains(seed));
    assert(connected(v.curves, ids[0], seed));
    lemma_same_chain(v.curves, ids[0], seed);
    lemma_connected_exists(v.curves, ids[0], seed);
    assert forall|x: BezierId| #[trigger]
        chain_of(v.curves, seed).contains(x) implies after.curves.contains_key(x)
        && after.curves[x].latch_start == v.curves[x].latch_start && after.curves[x].latch_end
        == v.curves[x].latch_end by {
        lemma_connected_exists(v.curves, seed, x);
    }
    lemma_chain_kept(v.curves, after.curves, seed);
    assert forall|id: BezierId|
        listed(after.groups[g], id) <==> #[trigger] chain_of(after.curves, after.groups[g][0].id).contains(
            id,
        ) by {
        assert(ids.contains(id) <==> ids.to_set().contains(id));
    }
}

} // verus!
