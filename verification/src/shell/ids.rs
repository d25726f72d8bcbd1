//! Sorted lists of device ids.

use std::collections::HashSet;
use vstd::prelude::*;

verus! {

/// Strictly ascending.
pub open spec fn ascending(ids: Seq<u32>) -> bool {
    forall|i: int, j: int| 0 <= i < j < ids.len() ==> ids[i] < ids[j]
}

/// `ids` lists the set in ascending order.
pub open spec fn lists(ids: Seq<u32>, set: Set<u32>) -> bool {
    &&& ascending(ids)
    &&& forall|x: u32| #[trigger] ids.contains(x) <==> set.contains(x)
}

/// A set has one ascending list.
pub proof fn law_one_ascending_list(a: Seq<u32>, b: Seq<u32>, set: Set<u32>)
    requires
        lists(a, set),
        lists(b, set),
    ensures
        a == b,
    decreases a.len(),
{
    if a.len() == 0 {
        if b.len() > 0 {
            assert(b.contains(b[0]));
            assert(a.contains(b[0]));
        }
        assert(a =~= b);
    } else {
        let (x, y) = (a.last(), b.last());
        assert(a[a.len() - 1] == x);
        assert(a.contains(x));
        assert(b.contains(x));
        assert(b[b.len() - 1] == y);
        assert(b.contains(y));
        assert(a.contains(y));
        let i = choose|i: int| 0 <= i < a.len() && a[i] == y;
        let j = choose|j: int| 0 <= j < b.len() && b[j] == x;
        assert(x == y);
        let (p, q) = (a.drop_last(), b.drop_last());
        let rest = set.remove(x);
        assert forall|z: u32| #[trigger] p.contains(z) <==> rest.contains(z) by {
            if p.contains(z) {
                let k = choose|k: int| 0 <= k < p.len() && p[k] == z;
                assert(a[k] == z);
                assert(a.contains(z));
            }
            if rest.contains(z) {
                assert(a.contains(z));
                let k = choose|k: int| 0 <= k < a.len() && a[k] == z;
                assert(p[k] == z);
            }
        }
        assert forall|z: u32| #[trigger] q.contains(z) <==> rest.contains(z) by {
            if q.contains(z) {
                let k = choose|k: int| 0 <= k < q.len() && q[k] == z;
                assert(b[k] == z);
                assert(b.contains(z));
            }
            if rest.contains(z) {
                assert(b.contains(z));
                let k = choose|k: int| 0 <= k < b.len() && b[k] == z;
                assert(q[k] == z);
            }
        }
        law_one_ascending_list(p, q, rest);
        assert(a =~= p.push(x));
        assert(b =~= q.push(y));
    }
}

/// Put `x` into an ascending list that does not hold it.
fn insert_sorted(out: &mut Vec<u32>, x: u32)
    requires
        ascending(old(out)@),
        !old(out)@.contains(x),
    ensures
        ascending(final(out)@),
        forall|z: u32| #[trigger] final(out)@.contains(z) <==> old(out)@.contains(z) || z == x,
{
    let ghost was = out@;
    let mut k: usize = out.len();
    while k > 0 && out[k - 1] > x
        invariant
            k <= out@.len(),
            out@ == was,
            forall|j: int| k <= j < was.len() ==> was[j] > x,
        decreases k,
    {
        k -= 1;
    }
    proof {
        if k > 0 {
            assert(was.contains(was[k - 1]));
        }
    }
    out.insert(k, x);
    proof {
        assert forall|i: int, j: int| 0 <= i < j < out@.len() implies out@[i] < out@[j] by {
            let a = if i < k {
                i
            } else {
                i - 1
            };
            let b = if j < k {
                j
            } else {
                j - 1
            };
            if i < k && j == k {
                if i < k - 1 {
                    assert(was[i] < was[k - 1]);
                }
            } else if i == k {
                assert(was[b] > x);
            } else {
                assert(was[a] < was[b]);
            }
        }
        assert forall|z: u32| #[trigger] out@.contains(z) <==> was.contains(z) || z == x by {
            if out@.contains(z) {
                let i = choose|i: int| 0 <= i < out@.len() && out@[i] == z;
                if i < k {
                    assert(was[i] == z);
                } else if i > k {
                    assert(was[i - 1] == z);
                }
            }
            if was.contains(z) {
                let i = choose|i: int| 0 <= i < was.len() && was[i] == z;
                if i < k {
                    assert(out@[i] == z);
                } else {
                    assert(out@[i + 1] == z);
                }
            }
            if z == x {
                assert(out@[k as int] == z);
            }
        }
    }
}

/// The members of a list, ascending and each once.
pub fn sorted_ids(list: &Vec<u32>) -> (out: Vec<u32>)
    requires
        list@.no_duplicates(),
    ensures
        lists(out@, list@.to_set()),
{
    let mut out: Vec<u32> = Vec::new();
    let mut i: usize = 0;
    while i < list.len()
        invariant
            i <= list@.len(),
            list@.no_duplicates(),
            ascending(out@),
            forall|z: u32| #[trigger] out@.contains(z) <==> list@.take(i as int).contains(z),
        decreases list@.len() - i,
    {
        let ghost seen = list@.take(i as int);
        let ghost x = list@[i as int];
        proof {
            if seen.contains(x) {
                let k = choose|k: int| 0 <= k < seen.len() && seen[k] == x;
                assert(list@[k] == list@[i as int]);
            }
            assert(list@.take(i + 1) =~= seen.push(x));
            assert forall|z: u32| #[trigger] seen.push(x).contains(z) <==> seen.contains(z) || z
                == x by {
                if seen.contains(z) {
                    let k = choose|k: int| 0 <= k < seen.len() && seen[k] == z;
                    assert(seen.push(x)[k] == z);
                }
                if z == x {
                    assert(seen.push(x)[i as int] == z);
                }
            }
        }
        insert_sorted(&mut out, list[i]);
        i += 1;
    }
    proof {
        assert(list@.take(i as int) =~= list@);
        assert forall|z: u32| #[trigger] out@.contains(z) <==> list@.to_set().contains(z) by {}
    }
    out
}

/// The members of a set, ascending.
pub fn sorted_set(set: &HashSet<u32>) -> (out: Vec<u32>)
    ensures
        lists(out@, set@),
{
    broadcast use vstd::std_specs::hash::group_hash_axioms;

    let mut all: Vec<u32> = Vec::new();
    let ghost keys = set@;
    for k in it: set.iter()
        invariant
            it.seq().unref().to_set() == keys,
            it.seq().no_duplicates(),
            all@ == it.seq().unref().take(it.index() as int),
            it.index() == it.seq().len() ==> all@ == it.seq().unref(),
            all@.no_duplicates(),
    {
        proof {
            assert(*k == it.seq().unref()[it.index() as int]);
            assert forall|j: int| 0 <= j < all@.len() implies all@[j] != *k by {
                assert(all@[j] == it.seq().unref()[j]);
                assert(it.seq()[j] != it.seq()[it.index() as int]);
            }
        }
        all.push(*k);
        proof {
            assert(all@ =~= it.seq().unref().take(it.index() + 1));
            assert(it.index() + 1 == it.seq().len() ==> all@ =~= it.seq().unref());
        }
    }
    assert(all@.to_set() == keys);
    sorted_ids(&all)
}

} // verus!
