//! Walking the latch graph: the chain that a curve belongs to.

use crate::chain::{
    adjacent, chain_of, component, connected, leads_to, lemma_closed_set_covers_chain,
    lemma_connected_exists, lemma_connected_self, lemma_connected_step,
};
use crate::curve::{AnchorEdge, BezierId};
use crate::latch::half_sound;
use crate::lists::contains_id;
use crate::pen::PenTool;
use vstd::prelude::*;

verus! {

/// A list without repetition whose items all lie in a finite set is no longer
/// than the set is large.
proof fn lemma_distinct_fit(list: Seq<BezierId>, within: Set<BezierId>)
    requires
        list.no_duplicates(),
        within.finite(),
        forall|i: int| 0 <= i < list.len() ==> within.contains(#[trigger] list[i]),
    ensures
        list.len() <= within.len(),
{
    list.unique_seq_to_set();
    assert(list.to_set().subset_of(within)) by {
        assert forall|x: BezierId| list.to_set().contains(x) implies within.contains(x) by {
            let i = choose|i: int| 0 <= i < list.len() && list[i] == x;
            assert(within.contains(list[i]));
        }
    }
    vstd::set_lib::lemma_len_subset(list.to_set(), within);
}

impl PenTool {
    /// Adds to `seen` the curve that endpoint `edge` of curve `from` is latched
    /// to, unless it is there already.
    fn visit_partner(&self, seen: &mut Vec<BezierId>, seed: BezierId, from: BezierId, edge: AnchorEdge)
        requires
            self@.wf(),
            old(seen)@.no_duplicates(),
            connected(self@.curves, seed, from),
            forall|k: int| 0 <= k < old(seen)@.len() ==> connected(self@.curves, seed, #[trigger] old(seen)@[k]),
        ensures
            final(seen)@.no_duplicates(),
            forall|k: int| 0 <= k < final(seen)@.len() ==> connected(self@.curves, seed, #[trigger] final(seen)@[k]),
            old(seen)@.len() <= final(seen)@.len(),
            final(seen)@.take(old(seen)@.len() as int) == old(seen)@,
            forall|y: BezierId| leads_to(self@.curves, from, edge, y) ==> final(seen)@.contains(y),
    {
        proof {
            lemma_connected_exists(self@.curves, seed, from);
            assert(half_sound(self@.curves, from, edge));
        }
        let curve = self.get(from).unwrap();
        match curve.get_latch(edge) {
            Some(half) => {
                let next = half.latched_to_id;
                if !contains_id(seen, next) {
                    proof {
                        assert(adjacent(self@.curves, from, next));
                        lemma_connected_step(self@.curves, seed, from, next);
                    }
                    seen.push(next);
                    proof {
                        assert(seen@.take(old(seen)@.len() as int) =~= old(seen)@);
                        assert(seen@[seen@.len() - 1] == next);
                    }
                } else {
                    assert(seen@.take(old(seen)@.len() as int) =~= old(seen)@);
                }
            },
            None => {
                assert(seen@.take(old(seen)@.len() as int) =~= old(seen)@);
            },
        }
    }

    /// The chain of `seed`: every curve that can be reached from it over
    /// latches, each once, `seed` itself first. Empty if `seed` does not exist.
    pub fn chain(&self, seed: BezierId) -> (found: Vec<BezierId>)
        requires
            self@.wf(),
        ensures
            found@.no_duplicates(),
            found@.to_set() == chain_of(self@.curves, seed),
            self@.curves.contains_key(seed) ==> found@.len() > 0 && found@[0] == seed,
            !self@.curves.contains_key(seed) ==> found@.len() == 0,
    {
        let mut seen: Vec<BezierId> = Vec::new();
        if !self.contains(seed) {
            proof {
                assert forall|b: BezierId| !chain_of(self@.curves, seed).contains(b) by {
                    if connected(self@.curves, seed, b) {
                        lemma_connected_exists(self@.curves, seed, b);
                    }
                }
                assert(seen@.to_set() =~= chain_of(self@.curves, seed));
            }
            return seen;
        }
        seen.push(seed);
        proof {
            lemma_connected_self(self@.curves, seed);
        }
        let total = self.len();
        let mut i: usize = 0;
        while i < seen.len()
            invariant
                self@.wf(),
                total == self@.curves.dom().len(),
                0 <= i <= seen.len(),
                seen@.len() > 0,
                seen@[0] == seed,
                seen@.no_duplicates(),
                forall|k: int| 0 <= k < seen@.len() ==> connected(self@.curves, seed, #[trigger] seen@[k]),
                forall|k: int, y: BezierId|
                    0 <= k < i && #[trigger] adjacent(self@.curves, seen@[k], y) ==> seen@.contains(y),
            decreases total - i,
        {
            proof {
                assert forall|k: int| 0 <= k < seen@.len() implies self@.curves.dom().contains(
                    #[trigger] seen@[k],
                ) by {
                    lemma_connected_exists(self@.curves, seed, seen@[k]);
                }
                lemma_distinct_fit(seen@, self@.curves.dom());
            }
            let from = seen[i];
            let ghost before = seen@;
            self.visit_partner(&mut seen, seed, from, AnchorEdge::Start);
            let ghost between = seen@;
            self.visit_partner(&mut seen, seed, from, AnchorEdge::End);
            proof {
                assert forall|x: BezierId| before.contains(x) implies seen@.contains(x) by {
                    let k = choose|k: int| 0 <= k < before.len() && before[k] == x;
                    assert(between.take(before.len() as int)[k] == x);
                    assert(seen@.take(between.len() as int)[k] == x);
                }
                assert forall|x: BezierId| between.contains(x) implies seen@.contains(x) by {
                    let k = choose|k: int| 0 <= k < between.len() && between[k] == x;
                    assert(seen@.take(between.len() as int)[k] == x);
                }
                assert(seen@[0] == seen@.take(between.len() as int)[0]);
                assert(between[0] == between.take(before.len() as int)[0]);
                assert forall|k: int, y: BezierId|
                    0 <= k < i + 1 && #[trigger] adjacent(self@.curves, seen@[k], y) implies seen@.contains(
                    y,
                ) by {
                    assert(seen@[k] == seen@.take(between.len() as int)[k]);
                    assert(between[k] == between.take(before.len() as int)[k]);
                    if k < i {
                        assert(adjacent(self@.curves, before[k], y));
                        assert(before.contains(y));
                    } else {
                        if leads_to(self@.curves, from, AnchorEdge::Start, y) {
                            assert(between.contains(y));
                        }
                    }
                }
            }
            i = i + 1;
        }
        proof {
            let closed = seen@.to_set();
            assert(closed.contains(seed)) by {
                assert(seen@[0] == seed);
            }
            assert forall|x: BezierId, y: BezierId|
                closed.contains(x) && #[trigger] adjacent(self@.curves, x, y) implies closed.contains(
                y,
            ) by {
                let k = choose|k: int| 0 <= k < seen@.len() && seen@[k] == x;
                assert(adjacent(self@.curves, seen@[k], y));
            }
            lemma_closed_set_covers_chain(self@.curves, seed, closed);
            assert(closed =~= chain_of(self@.curves, seed));
        }
        seen
    }

    /// The curves that `seed` is connected with over latches, each once,
    /// `seed` itself left out.
    pub fn connected_component(&self, seed: BezierId) -> (found: Vec<BezierId>)
        requires
            self@.wf(),
        ensures
            found@.no_duplicates(),
            found@.to_set() == component(self@.curves, seed),
    {
        let chain = self.chain(seed);
        let mut found: Vec<BezierId> = Vec::new();
        if chain.len() == 0 {
            proof {
                assert(chain@.to_set() =~= Set::empty());
                assert(found@.to_set() =~= component(self@.curves, seed));
            }
            return found;
        }
        let mut i: usize = 1;
        while i < chain.len()
            invariant
                1 <= i <= chain.len(),
                found@ == chain@.subrange(1, i as int),
            decreases chain.len() - i,
        {
            found.push(chain[i]);
            proof {
                assert(chain@.subrange(1, i as int).push(chain@[i as int]) =~= chain@.subrange(
                    1,
                    i + 1,
                ));
            }
            i = i + 1;
        }
        proof {
            assert forall|x: BezierId| found@.to_set().contains(x) <==> component(
                self@.curves,
                seed,
            ).contains(x) by {
                if found@.contains(x) {
                    let k = choose|k: int| 0 <= k < found@.len() && found@[k] == x;
                    assert(chain@[k + 1] == x);
                    assert(chain@.contains(x));
                    assert(chain@.to_set().contains(x));
                }
                if component(self@.curves, seed).contains(x) {
                    assert(chain@.to_set().contains(x));
                    let k = choose|k: int| 0 <= k < chain@.len() && chain@[k] == x;
                    assert(k != 0);
                    assert(found@[k - 1] == x);
                }
            }
            assert(found@.to_set() =~= component(self@.curves, seed));
        }
        found
    }
}

} // verus!
