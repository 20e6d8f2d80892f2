//! The funnels of a CRM pipeline, and those a pass is run for.
use vstd::prelude::*;
use vstd::string::*;
use crate::text::same_text;

verus! {

#[derive(Debug, Clone)]
pub struct Funnel {
    pub id: i64,
    pub name: String,
}

#[derive(Debug, Clone)]
pub struct Embedded {
    pub statuses: Vec<Funnel>,
}

#[derive(Debug, Clone)]
pub struct Pipeline {
    pub _embedded: Embedded,
}

/// Whether `f` occurs in `s`.
pub open spec fn contains_text(s: Seq<char>, f: Seq<char>) -> bool {
    exists|k: int| 0 <= k && k + f.len() <= s.len() && #[trigger] s.subrange(k, k + f.len()) == f
}

pub fn has_text(s: &str, f: &str) -> (r: bool)
    ensures
        r == contains_text(s@, f@),
{
    let n = s.unicode_len();
    let m = f.unicode_len();
    if m > n {
        return false;
    }
    if m == 0 {
        proof {
            assert(s@.subrange(0, 0) =~= f@);
            assert(s@.subrange(0int, 0int + f@.len()) == f@);
        }
        return true;
    }
    let mut k: usize = 0;
    while k <= n - m
        invariant
            n == s@.len(),
            m == f@.len(),
            1 <= m <= n,
            k <= n - m + 1,
            forall|j: int| 0 <= j < k ==> #[trigger] s@.subrange(j, j + m) != f@,
        decreases n - m + 1 - k,
    {
        if same_text(s.substring_char(k, k + m), f) {
            return true;
        }
        k = k + 1;
    }
    false
}

pub open spec fn funnel_ids(funnels: Seq<Funnel>, filter: Seq<char>) -> Seq<i64>
    decreases funnels.len(),
{
    if funnels.len() == 0 {
        Seq::empty()
    } else if contains_text(funnels.last().name@, filter) {
        funnel_ids(funnels.drop_last(), filter).push(funnels.last().id)
    } else {
        funnel_ids(funnels.drop_last(), filter)
    }
}

/// The funnels whose name holds `filter`, in pipeline order.
pub fn transfer_funnels(p: &Pipeline, filter: &str) -> (r: Vec<i64>)
    ensures
        r@ == funnel_ids(p._embedded.statuses@, filter@),
{
    let fs = &p._embedded.statuses;
    let mut out: Vec<i64> = Vec::new();
    let mut i: usize = 0;
    while i < fs.len()
        invariant
            i <= fs.len(),
            out@ == funnel_ids(fs@.subrange(0, i as int), filter@),
        decreases fs.len() - i,
    {
        proof {
            assert(fs@.subrange(0, i + 1).drop_last() =~= fs@.subrange(0, i as int));
        }
        if has_text(fs[i].name.as_str(), filter) {
            out.push(fs[i].id);
        }
        i = i + 1;
    }
    proof {
        assert(fs@.subrange(0, i as int) =~= fs@);
    }
    out
}

} // verus!
