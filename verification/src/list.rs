//! Taking the elements of a vector one by one, from the front.

use vstd::prelude::*;

verus! {

/// The elements in reverse order, so that `pop` takes them from the front.
pub fn reversed<T>(v: Vec<T>) -> (r: Vec<T>)
    ensures
        r@ == v@.reverse(),
{
    let ghost all = v@;
    let mut left: Vec<T> = v;
    let mut r: Vec<T> = Vec::new();
    while left.len() > 0
        invariant
            left.len() <= all.len(),
            left@ == all.take(left.len() as int),
            r@ == all.skip(left.len() as int).reverse(),
        decreases left.len(),
    {
        let ghost n = left.len() as int;
        if let Some(x) = left.pop() {
            r.push(x);
            proof {
                assert(x == all[n - 1]);
                assert(left@ =~= all.take(n - 1));
                assert(r@ =~= all.skip(n - 1).reverse());
            }
        }
    }
    proof {
        assert(all.skip(0) =~= all);
    }
    r
}

/// The last element of a reversed sequence is the first one.
pub proof fn lemma_pop_reversed<T>(s: Seq<T>)
    requires
        s.len() > 0,
    ensures
        s.reverse().last() == s[0],
        s.reverse().drop_last() == s.skip(1).reverse(),
{
    assert(s.reverse().drop_last() =~= s.skip(1).reverse());
}

} // verus!
