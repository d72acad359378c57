//! Where one sequence stands inside another.

use vstd::prelude::*;

verus! {

/// Whether `w` stands in `s` at position `i`.
pub open spec fn stands_at<A>(s: Seq<A>, i: int, w: Seq<A>) -> bool {
    0 <= i && i + w.len() <= s.len() && s.subrange(i, i + w.len()) == w
}

/// Where `a` followed by `b` stands, `a` stands, and `b` after it.
pub proof fn lemma_stands_split<A>(s: Seq<A>, i: int, a: Seq<A>, b: Seq<A>)
    requires
        stands_at(s, i, a + b),
    ensures
        stands_at(s, i, a),
        stands_at(s, i + a.len(), b),
{
    let whole = s.subrange(i, i + (a + b).len());
    assert forall|k: int| 0 <= k < a.len() implies s.subrange(i, i + a.len())[k] == a[k] by {
        assert(whole[k] == (a + b)[k]);
    }
    assert(s.subrange(i, i + a.len()) =~= a);
    assert forall|k: int| 0 <= k < b.len() implies s.subrange(
        i + a.len(),
        i + a.len() + b.len(),
    )[k] == b[k] by {
        assert(whole[a.len() + k] == (a + b)[a.len() + k]);
    }
    assert(s.subrange(i + a.len(), i + a.len() + b.len()) =~= b);
}

/// Where `w` stands, each of its items stands.
pub proof fn lemma_stands_item<A>(s: Seq<A>, i: int, w: Seq<A>, k: int)
    requires
        stands_at(s, i, w),
        0 <= k < w.len(),
    ensures
        s[i + k] == w[k],
{
    assert(s.subrange(i, i + w.len())[k] == w[k]);
}

} // verus!
