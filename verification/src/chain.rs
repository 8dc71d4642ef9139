//! Chains: which curves hang together through latches.

use crate::curve::{AnchorEdge, BezierId};
use crate::latch::{half_sound, latches_sound, Curves};
use vstd::prelude::*;

verus! {

/// Endpoint `edge` of curve `a` is latched to some endpoint of curve `b`.
pub open spec fn leads_to(curves: Curves, a: BezierId, edge: AnchorEdge, b: BezierId) -> bool {
    match curves[a].latch(edge) {
        Some(half) => half.latched_to_id == b,
        None => false,
    }
}

/// Curves `a` and `b` both exist and a latch of `a` ends on `b`.
pub open spec fn adjacent(curves: Curves, a: BezierId, b: BezierId) -> bool {
    &&& curves.contains_key(a)
    &&& curves.contains_key(b)
    &&& (leads_to(curves, a, AnchorEdge::Start, b) || leads_to(curves, a, AnchorEdge::End, b))
}

/// A walk over existing curves that goes from each to the next by a latch.
pub open spec fn is_path(curves: Curves, path: Seq<BezierId>) -> bool {
    &&& path.len() > 0
    &&& curves.contains_key(path[0])
    &&& forall|i: int| 0 <= i < path.len() - 1 ==> adjacent(curves, #[trigger] path[i], path[i + 1])
}

/// Some walk leads from `a` to `b`.
pub open spec fn connected(curves: Curves, a: BezierId, b: BezierId) -> bool {
    exists|path: Seq<BezierId>| #[trigger]
        is_path(curves, path) && path.first() == a && path.last() == b
}

/// The chain of `seed`: every curve that a walk from `seed` reaches, `seed`
/// itself among them. Empty if `seed` does not exist.
pub open spec fn chain_of(curves: Curves, seed: BezierId) -> Set<BezierId> {
    Set::new(|b: BezierId| connected(curves, seed, b))
}

/// The curves that `seed` is connected with, `seed` itself left out.
pub open spec fn component(curves: Curves, seed: BezierId) -> Set<BezierId> {
    chain_of(curves, seed).remove(seed)
}

/// Every existing curve is connected with itself.
pub proof fn lemma_connected_self(curves: Curves, a: BezierId)
    requires
        curves.contains_key(a),
    ensures
        connected(curves, a, a),
{
    let path = seq![a];
    assert(is_path(curves, path));
    assert(path.first() == a && path.last() == a);
}

/// A walk can be followed by one more latch.
pub proof fn lemma_connected_step(curves: Curves, a: BezierId, b: BezierId, c: BezierId)
    requires
        connected(curves, a, b),
        adjacent(curves, b, c),
    ensures
        connected(curves, a, c),
{
    let path = choose|path: Seq<BezierId>| #[trigger]
        is_path(curves, path) && path.first() == a && path.last() == b;
    let longer = path.push(c);
    assert forall|i: int| 0 <= i < longer.len() - 1 implies adjacent(
        curves,
        #[trigger] longer[i],
        longer[i + 1],
    ) by {
        if i < path.len() - 1 {
            assert(adjacent(curves, path[i], path[i + 1]));
        }
    }
    assert(is_path(curves, longer));
    assert(longer.first() == a && longer.last() == c);
}

/// Whatever is connected with something exists.
pub proof fn lemma_connected_exists(curves: Curves, a: BezierId, b: BezierId)
    requires
        connected(curves, a, b),
    ensures
        curves.contains_key(a),
        curves.contains_key(b),
{
    let path = choose|path: Seq<BezierId>| #[trigger]
        is_path(curves, path) && path.first() == a && path.last() == b;
    if path.len() > 1 {
        assert(adjacent(curves, path[path.len() - 2], path[path.len() - 2 + 1]));
    }
}

/// Where every latch is mirrored, a latch can be walked both ways.
pub proof fn lemma_adjacent_symmetric(curves: Curves, a: BezierId, b: BezierId)
    requires
        latches_sound(curves),
        adjacent(curves, a, b),
    ensures
        adjacent(curves, b, a),
{
    if leads_to(curves, a, AnchorEdge::Start, b) {
        assert(half_sound(curves, a, AnchorEdge::Start));
    } else {
        assert(half_sound(curves, a, AnchorEdge::End));
    }
}

/// Where every latch is mirrored, a walk can be walked backwards.
pub proof fn lemma_connected_symmetric(curves: Curves, a: BezierId, b: BezierId)
    requires
        latches_sound(curves),
        connected(curves, a, b),
    ensures
        connected(curves, b, a),
{
    let path = choose|path: Seq<BezierId>| #[trigger]
        is_path(curves, path) && path.first() == a && path.last() == b;
    let back = path.reverse();
    lemma_connected_exists(curves, a, b);
    assert forall|i: int| 0 <= i < back.len() - 1 implies adjacent(
        curves,
        #[trigger] back[i],
        back[i + 1],
    ) by {
        let j = path.len() - 2 - i;
        assert(adjacent(curves, path[j], path[j + 1]));
        lemma_adjacent_symmetric(curves, path[j], path[j + 1]);
    }
    assert(is_path(curves, back));
    assert(back.first() == b && back.last() == a);
}

/// Two walks, the second starting where the first ends, make one.
pub proof fn lemma_connected_transitive(curves: Curves, a: BezierId, b: BezierId, c: BezierId)
    requires
        connected(curves, a, b),
        connected(curves, b, c),
    ensures
        connected(curves, a, c),
{
    let first = choose|path: Seq<BezierId>| #[trigger]
        is_path(curves, path) && path.first() == a && path.last() == b;
    let second = choose|path: Seq<BezierId>| #[trigger]
        is_path(curves, path) && path.first() == b && path.last() == c;
    let whole = first + second.subrange(1, second.len() as int);
    assert forall|i: int| 0 <= i < whole.len() - 1 implies adjacent(
        curves,
        #[trigger] whole[i],
        whole[i + 1],
    ) by {
        if i < first.len() - 1 {
            assert(adjacent(curves, first[i], first[i + 1]));
        } else {
            let j = i - first.len() + 1;
            assert(adjacent(curves, second[j], second[j + 1]));
        }
    }
    assert(is_path(curves, whole));
    assert(whole.first() == a && whole.last() == c);
}

/// Where every latch is mirrored, two connected curves have the same chain.
pub proof fn lemma_same_chain(curves: Curves, a: BezierId, b: BezierId)
    requires
        latches_sound(curves),
        connected(curves, a, b),
    ensures
        chain_of(curves, a) == chain_of(curves, b),
{
    lemma_connected_symmetric(curves, a, b);
    assert forall|x: BezierId| chain_of(curves, a).contains(x) <==> chain_of(curves, b).contains(
        x,
    ) by {
        if connected(curves, a, x) {
            lemma_connected_transitive(curves, b, a, x);
        }
        if connected(curves, b, x) {
            lemma_connected_transitive(curves, a, b, x);
        }
    }
    assert(chain_of(curves, a) =~= chain_of(curves, b));
}

/// A set that holds `seed` and, with each curve, all that curve's latch
/// partners holds the whole chain of `seed`.
pub proof fn lemma_closed_set_covers_chain(curves: Curves, seed: BezierId, closed: Set<BezierId>)
    requires
        closed.contains(seed),
        forall|x: BezierId, y: BezierId|
            closed.contains(x) && #[trigger] adjacent(curves, x, y) ==> closed.contains(y),
    ensures
        chain_of(curves, seed).subset_of(closed),
{
    assert forall|b: BezierId| chain_of(curves, seed).contains(b) implies closed.contains(b) by {
        let path = choose|path: Seq<BezierId>| #[trigger]
            is_path(curves, path) && path.first() == seed && path.last() == b;
        lemma_path_stays_inside(curves, path, closed, path.len() - 1);
    }
}

proof fn lemma_path_stays_inside(curves: Curves, path: Seq<BezierId>, closed: Set<BezierId>, upto: int)
    requires
        is_path(curves, path),
        closed.contains(path[0]),
        forall|x: BezierId, y: BezierId|
            closed.contains(x) && #[trigger] adjacent(curves, x, y) ==> closed.contains(y),
        0 <= upto < path.len(),
    ensures
        closed.contains(path[upto]),
    decreases upto,
{
    if upto > 0 {
        lemma_path_stays_inside(curves, path, closed, upto - 1);
        assert(adjacent(curves, path[upto - 1], path[upto - 1 + 1]));
    }
}

} // verus!
