//! Lists of containers.

use vstd::prelude::*;

use crate::container::ContainerId;

verus! {

/// Finds the first occurrence of a value in a list.
pub(crate) fn position(list: &Vec<ContainerId>, id: ContainerId) -> (r: Option<usize>)
    ensures
        match r {
            Some(index) => {
                &&& index < list@.len()
                &&& list@[index as int] == id
                &&& forall|i: int| 0 <= i < index ==> #[trigger] list@[i] != id
            },
            None => !list@.contains(id),
        },
{
    let mut i: usize = 0;
    while i < list.len()
        invariant
            i <= list.len(),
            forall|j: int| 0 <= j < i ==> #[trigger] list@[j] != id,
        decreases list.len() - i,
    {
        if list[i] == id {
            return Some(i);
        }
        i += 1;
    }
    None
}

/// Copies a list.
pub(crate) fn copied(list: &Vec<ContainerId>) -> (r: Vec<ContainerId>)
    ensures
        r@ == list@,
{
    let mut r: Vec<ContainerId> = Vec::new();
    let mut i: usize = 0;
    while i < list.len()
        invariant
            i <= list.len(),
            r@ == list@.take(i as int),
        decreases list.len() - i,
    {
        r.push(list[i]);
        i += 1;
        assert(r@ =~= list@.take(i as int));
    }
    assert(r@ =~= list@);
    r
}

} // verus!
