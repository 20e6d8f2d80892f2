//! The first element of a sequence that meets a condition.
use vstd::prelude::*;

verus! {

/// Index of the first element of `s` that meets `p`, or the length of `s`.
pub open spec fn first_index<A>(s: Seq<A>, p: spec_fn(A) -> bool) -> int
    decreases s.len(),
{
    if s.len() == 0 {
        0
    } else if p(s[0]) {
        0
    } else {
        1 + first_index(s.drop_first(), p)
    }
}

pub proof fn lemma_first_index<A>(s: Seq<A>, p: spec_fn(A) -> bool)
    ensures
        0 <= first_index(s, p) <= s.len(),
        forall|j: int| 0 <= j < first_index(s, p) ==> !p(#[trigger] s[j]),
        first_index(s, p) < s.len() ==> p(s[first_index(s, p)]),
    decreases s.len(),
{
    if s.len() > 0 && !p(s[0]) {
        lemma_first_index(s.drop_first(), p);
        assert forall|j: int| 0 <= j < first_index(s, p) implies !p(#[trigger] s[j]) by {
            if j > 0 {
                assert(s[j] == s.drop_first()[j - 1]);
            }
        }
    }
}

/// The first index is the one before which no element meets `p`, and at
/// which one does (or the end).
pub proof fn lemma_first_index_is<A>(s: Seq<A>, p: spec_fn(A) -> bool, i: int)
    requires
        0 <= i <= s.len(),
        forall|j: int| 0 <= j < i ==> !p(#[trigger] s[j]),
        i < s.len() ==> p(s[i]),
    ensures
        first_index(s, p) == i,
{
    lemma_first_index(s, p);
    if first_index(s, p) < i {
        assert(!p(s[first_index(s, p)]));
    }
    if i < first_index(s, p) {
        assert(!p(s[i]));
    }
}

/// Appending an element moves the first index only where no element met
/// `p` before.
pub proof fn lemma_first_index_push<A>(s: Seq<A>, p: spec_fn(A) -> bool, a: A)
    ensures
        first_index(s, p) < s.len() ==> first_index(s.push(a), p) == first_index(s, p),
        first_index(s, p) == s.len() && p(a) ==> first_index(s.push(a), p) == s.len(),
        first_index(s, p) == s.len() && !p(a) ==> first_index(s.push(a), p) == s.len() + 1,
{
    lemma_first_index(s, p);
    let t = s.push(a);
    let k = first_index(s, p);
    assert forall|j: int| 0 <= j < k implies !p(#[trigger] t[j]) by {
        assert(t[j] == s[j]);
    }
    if k < s.len() {
        assert(t[k] == s[k]);
        lemma_first_index_is(t, p, k);
    } else if p(a) {
        lemma_first_index_is(t, p, k);
    } else {
        lemma_first_index_is(t, p, k + 1);
    }
}

} // verus!
