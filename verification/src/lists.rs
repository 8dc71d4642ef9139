//! Lists of identities that hold nothing twice.

use vstd::prelude::*;

verus! {

/// Whether `id` is in the list.
pub fn contains_id(list: &Vec<u64>, id: u64) -> (found: bool)
    ensures
        found == list@.contains(id),
{
    let mut i: usize = 0;
    while i < list.len()
        invariant
            0 <= i <= list.len(),
            forall|j: int| 0 <= j < i ==> list@[j] != id,
        decreases list.len() - i,
    {
        if list[i] == id {
            return true;
        }
        i = i + 1;
    }
    false
}

/// Adds an item to a list that holds nothing twice, unless it is there.
pub fn push_once(list: &mut Vec<u64>, item: u64)
    requires
        old(list)@.no_duplicates(),
    ensures
        final(list)@.no_duplicates(),
        forall|x: u64| final(list)@.contains(x) <==> (old(list)@.contains(x) || x == item),
{
    if !contains_id(list, item) {
        let ghost before = list@;
        list.push(item);
        proof {
            assert forall|x: u64| list@.contains(x) <==> (before.contains(x) || x == item) by {
                if before.contains(x) {
                    let k = choose|k: int| 0 <= k < before.len() && before[k] == x;
                    assert(list@[k] == x);
                }
                if x == item {
                    assert(list@[before.len() as int] == x);
                }
                if list@.contains(x) {
                    let k = choose|k: int| 0 <= k < list@.len() && list@[k] == x;
                    if k < before.len() {
                        assert(before[k] == x);
                    }
                }
            }
        }
    }
}

} // verus!
