//! What lists hold.

use vstd::prelude::*;

verus! {

/// What two lists hold together.
pub proof fn in_either<A>(a: Seq<A>, b: Seq<A>, x: A)
    ensures
        (a + b).contains(x) <==> a.contains(x) || b.contains(x),
{
    if a.contains(x) {
        let k = a.index_of(x);
        assert((a + b)[k] == x);
    }
    if b.contains(x) {
        let k = b.index_of(x);
        assert((a + b)[a.len() + k] == x);
    }
    if (a + b).contains(x) {
        let k = (a + b).index_of(x);
        if k < a.len() {
            assert(a[k] == x);
        } else {
            assert(b[k - a.len()] == x);
        }
    }
}

/// What a list of one holds, and one of none.
pub proof fn in_one<A>(a: Seq<A>, x: A)
    ensures
        a.len() == 0 ==> !a.contains(x),
        a.len() == 1 ==> (a.contains(x) <==> a[0] == x),
{
    if a.len() == 1 && a[0] == x {
        assert(a.contains(x));
    }
}

} // verus!
