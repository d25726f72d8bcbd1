//! Small list helpers.

use vstd::prelude::*;

verus! {

/// Whether `ids` hold `id`.
pub fn holds_id(ids: &Vec<u64>, id: u64) -> (r: bool)
    ensures
        r == ids@.contains(id),
{
    let mut i: usize = 0;
    while i < ids.len()
        invariant
            i <= ids.len(),
            forall|k: int| 0 <= k < i ==> ids@[k] != id,
        decreases ids.len() - i,
    {
        if ids[i] == id {
            return true;
        }
        i += 1;
    }
    false
}

/// Put the values of `more` behind those of `list`.
pub fn append<T: Copy>(list: &mut Vec<T>, more: &Vec<T>)
    ensures
        final(list)@ == old(list)@ + more@,
{
    let mut i: usize = 0;
    while i < more.len()
        invariant
            i <= more.len(),
            list@ == old(list)@ + more@.take(i as int),
        decreases more.len() - i,
    {
        list.push(more[i]);
        assert(list@ =~= old(list)@ + more@.take(i + 1));
        i += 1;
    }
    assert(more@.take(more@.len() as int) =~= more@);
}

} // verus!
