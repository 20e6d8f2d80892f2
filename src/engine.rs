//! One reconciliation pass: the remote active deals against the local
//! record.
use vstd::prelude::*;
use crate::amo::{Deal, DealView, views};
use crate::error::{DataFault, Error};
use crate::find::{first_index, lemma_first_index, lemma_first_index_is, lemma_first_index_push};
use crate::profit::DealForAdd;
use crate::store::{
    active_pairs, has_row, lemma_active_pairs, lemma_row_index, row_index, row_of, rows_for, unique_ids,
    with_flag, with_limit, DealData, DealStore,
};

verus! {

pub open spec fn remote_has(p: Seq<DealView>, id: u64) -> bool {
    exists|i: int| 0 <= i < p.len() && #[trigger] p[i].deal_id == id
}

pub open spec fn cand_is(id: u64) -> spec_fn(DealView) -> bool {
    |d: DealView| d.deal_id == id
}

/// The days limit of the first candidate of deal `id`.
pub open spec fn first_limit(p: Seq<DealView>, id: u64) -> i32 {
    p[first_index(p, cand_is(id))].days_limit
}

pub open spec fn entry_is(id: u64) -> spec_fn((u64, i32)) -> bool {
    |e: (u64, i32)| e.0 == id
}

/// The days limit a snapshot of active deals holds for `id`, if any.
pub open spec fn active_limit(a: Seq<(u64, i32)>, id: u64) -> Option<i32> {
    let k = first_index(a, entry_is(id));
    if k < a.len() {
        Some(a[k].1)
    } else {
        None
    }
}

/// How the pass takes one remote candidate.
#[derive(Debug, Clone, Copy, PartialEq, Eq, Structural)]
pub enum Transition {
    /// The deal was listed earlier in this pass; nothing more is done.
    Repeated,
    /// Active locally with the same days limit.
    Unchanged,
    /// Active locally with another days limit: the limit is written.
    LimitChanged,
    /// Not active locally: returned if a completed row exists, else new.
    Unseen,
}

pub open spec fn transition(p: Seq<DealView>, c: DealView, a: Seq<(u64, i32)>) -> Transition {
    if remote_has(p, c.deal_id) {
        Transition::Repeated
    } else {
        match active_limit(a, c.deal_id) {
            Some(l) => if l == c.days_limit {
                Transition::Unchanged
            } else {
                Transition::LimitChanged
            },
            None => Transition::Unseen,
        }
    }
}

/// The ids of the snapshot's deals that the remote list does not hold, in
/// snapshot order.
pub open spec fn remaining_ids(a: Seq<(u64, i32)>, r: Seq<DealView>) -> Seq<u64>
    decreases a.len(),
{
    if a.len() == 0 {
        Seq::empty()
    } else if remote_has(r, a.last().0) {
        remaining_ids(a.drop_last(), r)
    } else {
        remaining_ids(a.drop_last(), r).push(a.last().0)
    }
}

/// Whether a remote candidate among the first `k` is about deal `id`.
fn listed_before(remote: &Vec<Deal>, k: usize, id: u64) -> (r: bool)
    requires
        k <= remote@.len(),
    ensures
        r == remote_has(views(remote@).subrange(0, k as int), id),
{
    let ghost p = views(remote@).subrange(0, k as int);
    let mut i: usize = 0;
    while i < k
        invariant
            k <= remote@.len(),
            i <= k,
            p == views(remote@).subrange(0, k as int),
            forall|j: int| 0 <= j < i ==> #[trigger] p[j].deal_id != id,
        decreases k - i,
    {
        if remote[i].deal_id == id {
            proof {
                assert(p[i as int].deal_id == id);
            }
            return true;
        }
        i = i + 1;
    }
    false
}

/// The days limit the snapshot holds for deal `id`, if it is there.
fn snapshot_limit(active: &Vec<(u64, i32)>, id: u64) -> (r: Option<i32>)
    ensures
        r == active_limit(active@, id),
{
    let mut i: usize = 0;
    while i < active.len()
        invariant
            i <= active.len(),
            forall|j: int| 0 <= j < i ==> !entry_is(id)(#[trigger] active@[j]),
        decreases active.len() - i,
    {
        if active[i].0 == id {
            proof {
                lemma_first_index_is(active@, entry_is(id), i as int);
            }
            return Some(active[i].1);
        }
        i = i + 1;
    }
    proof {
        lemma_first_index_is(active@, entry_is(id), i as int);
    }
    None
}

/// How the pass takes candidate `k` of the remote list, given the snapshot
/// of active local deals taken at the start of the pass.
pub fn classify(remote: &Vec<Deal>, k: usize, active: &Vec<(u64, i32)>) -> (r: Transition)
    requires
        k < remote@.len(),
    ensures
        r == transition(views(remote@).subrange(0, k as int), remote@[k as int]@, active@),
{
    let id = remote[k].deal_id;
    if listed_before(remote, k, id) {
        return Transition::Repeated;
    }
    match snapshot_limit(active, id) {
        Some(l) => if l == remote[k].days_limit {
            Transition::Unchanged
        } else {
            Transition::LimitChanged
        },
        None => Transition::Unseen,
    }
}

/// The ids of the snapshot's deals that the remote list does not hold:
/// the deals the pass completes.
pub fn remaining(active: &Vec<(u64, i32)>, remote: &Vec<Deal>) -> (r: Vec<u64>)
    ensures
        r@ == remaining_ids(active@, views(remote@)),
{
    let mut out: Vec<u64> = Vec::new();
    let mut i: usize = 0;
    proof {
        assert(views(remote@).subrange(0, remote@.len() as int) =~= views(remote@));
    }
    while i < active.len()
        invariant
            i <= active.len(),
            views(remote@).subrange(0, remote@.len() as int) == views(remote@),
            out@ == remaining_ids(active@.subrange(0, i as int), views(remote@)),
        decreases active.len() - i,
    {
        proof {
            assert(active@.subrange(0, i + 1).drop_last() =~= active@.subrange(0, i as int));
        }
        if !listed_before(remote, remote.len(), active[i].0) {
            out.push(active[i].0);
        }
        i = i + 1;
    }
    proof {
        assert(active@.subrange(0, i as int) =~= active@);
    }
    out
}

/// The row of a deal that existed before the pass once candidates `p` have
/// been taken: a completed deal that is listed becomes active again with
/// its attributes as stored; an active one takes the days limit of its
/// first candidate; an unlisted one is as it was.
pub open spec fn seen_row(row: DealData, p: Seq<DealView>) -> DealData {
    if remote_has(p, row.deal_id) {
        if row.transfer_completed {
            with_flag(row, false)
        } else {
            with_limit(row, first_limit(p, row.deal_id))
        }
    } else {
        row
    }
}

/// The row of a deal that existed before the pass, after the pass: an
/// active deal that the remote list no longer holds is completed.
pub open spec fn final_row(row: DealData, r: Seq<DealView>) -> DealData {
    if !remote_has(r, row.deal_id) && !row.transfer_completed {
        with_flag(row, true)
    } else {
        seen_row(row, r)
    }
}

/// The new candidates: first candidates of deals that have no row at all.
pub open spec fn new_candidates(p: Seq<DealView>, s: Seq<DealData>) -> Seq<DealView>
    decreases p.len(),
{
    if p.len() == 0 {
        Seq::empty()
    } else if !remote_has(p.drop_last(), p.last().deal_id) && !has_row(s, p.last().deal_id) {
        new_candidates(p.drop_last(), s).push(p.last())
    } else {
        new_candidates(p.drop_last(), s)
    }
}

/// The days-limit writes: first candidates of active deals whose stored
/// limit differs.
pub open spec fn limit_changes(p: Seq<DealView>, s: Seq<DealData>) -> Seq<(u64, i32)>
    decreases p.len(),
{
    if p.len() == 0 {
        Seq::empty()
    } else {
        let c = p.last();
        if !remote_has(p.drop_last(), c.deal_id) && has_row(s, c.deal_id) && !s[row_index(s, c.deal_id)].transfer_completed
            && s[row_index(s, c.deal_id)].days_limit != c.days_limit {
            limit_changes(p.drop_last(), s).push((c.deal_id, c.days_limit))
        } else {
            limit_changes(p.drop_last(), s)
        }
    }
}

/// The returned deals: first candidates of deals with a completed row.
pub open spec fn returned_ids(p: Seq<DealView>, s: Seq<DealData>) -> Seq<u64>
    decreases p.len(),
{
    if p.len() == 0 {
        Seq::empty()
    } else {
        let c = p.last();
        if !remote_has(p.drop_last(), c.deal_id) && has_row(s, c.deal_id) && s[row_index(s, c.deal_id)].transfer_completed {
            returned_ids(p.drop_last(), s).push(c.deal_id)
        } else {
            returned_ids(p.drop_last(), s)
        }
    }
}

pub open spec fn detail_is(id: u64) -> spec_fn(DealForAdd) -> bool {
    |d: DealForAdd| d.deal_id == id
}

/// Whether the enrichment service details deal `id`.
pub open spec fn has_detail(cat: Seq<DealForAdd>, id: u64) -> bool {
    first_index(cat, detail_is(id)) < cat.len()
}

/// The record the pass creates for a new candidate: the service's detail
/// with the candidate's days limit.
pub open spec fn detail_for(cat: Seq<DealForAdd>, c: DealView) -> DealForAdd {
    DealForAdd { days_limit: c.days_limit, ..cat[first_index(cat, detail_is(c.deal_id))] }
}

pub open spec fn enriched(cat: Seq<DealForAdd>, c: DealView, auth: bool) -> bool {
    auth && has_detail(cat, c.deal_id)
}

/// The records created for new candidates `cs`, in their order.
pub open spec fn created_records(cs: Seq<DealView>, auth: bool, cat: Seq<DealForAdd>) -> Seq<DealForAdd>
    decreases cs.len(),
{
    if cs.len() == 0 {
        Seq::empty()
    } else if enriched(cat, cs.last(), auth) {
        created_records(cs.drop_last(), auth, cat).push(detail_for(cat, cs.last()))
    } else {
        created_records(cs.drop_last(), auth, cat)
    }
}

/// The new candidates that could not be enriched.
pub open spec fn failed_ids(cs: Seq<DealView>, auth: bool, cat: Seq<DealForAdd>) -> Seq<u64>
    decreases cs.len(),
{
    if cs.len() == 0 {
        Seq::empty()
    } else if enriched(cat, cs.last(), auth) {
        failed_ids(cs.drop_last(), auth, cat)
    } else {
        failed_ids(cs.drop_last(), auth, cat).push(cs.last().deal_id)
    }
}

/// The detail requests: one per new candidate once a token is held.
pub open spec fn requested_ids(cs: Seq<DealView>, auth: bool) -> Seq<u64>
    decreases cs.len(),
{
    if cs.len() == 0 || !auth {
        Seq::empty()
    } else {
        requested_ids(cs.drop_last(), auth).push(cs.last().deal_id)
    }
}

pub open spec fn failure_about(e: Error, id: u64, auth: bool) -> bool {
    if auth {
        e matches Error::EnrichmentDataFailed { deal_id: d, .. } && d == id
    } else {
        e is EnrichmentAuthFailed
    }
}

/// The local rows after a pass over remote list `r` from rows `s`.
pub open spec fn pass_rows(s: Seq<DealData>, r: Seq<DealView>, auth: bool, cat: Seq<DealForAdd>) -> Seq<DealData> {
    Seq::new(s.len(), |i: int| final_row(s[i], r)) + created_records(new_candidates(r, s), auth, cat).map_values(
        |d: DealForAdd| row_of(d),
    )
}

/// What a pass did.
#[derive(Debug, Clone)]
pub struct PassReport {
    /// The records created, in the order of the remote list.
    pub new_batch: Vec<DealForAdd>,
    /// The rows of the deals completed by the pass.
    pub completed_batch: Vec<DealData>,
    /// The days limits written, by deal id.
    pub limit_updates: Vec<(u64, i32)>,
    /// The deals made active again.
    pub returned: Vec<u64>,
    /// The deals whose detail was requested.
    pub enrichment_requests: Vec<u64>,
    /// Whether a token was asked for.
    pub authenticated: bool,
    /// What went wrong for single deals.
    pub failures: Vec<Error>,
}

pub proof fn lemma_remote_push(p: Seq<DealView>, c: DealView)
    ensures
        forall|y: u64| #[trigger] remote_has(p.push(c), y) == (remote_has(p, y) || c.deal_id == y),
        forall|y: u64| remote_has(p, y) ==> #[trigger] first_limit(p.push(c), y) == first_limit(p, y),
        !remote_has(p, c.deal_id) ==> first_limit(p.push(c), c.deal_id) == c.days_limit,
{
    let t = p.push(c);
    assert forall|y: u64| #[trigger] remote_has(t, y) == (remote_has(p, y) || c.deal_id == y) by {
        if remote_has(p, y) {
            let i = choose|i: int| 0 <= i < p.len() && #[trigger] p[i].deal_id == y;
            assert(t[i].deal_id == y);
        }
        if c.deal_id == y {
            assert(t[p.len() as int].deal_id == y);
        }
        if remote_has(t, y) && c.deal_id != y {
            let i = choose|i: int| 0 <= i < t.len() && #[trigger] t[i].deal_id == y;
            assert(p[i].deal_id == y);
        }
    }
    assert forall|y: u64| remote_has(p, y) implies #[trigger] first_limit(t, y) == first_limit(p, y) by {
        lemma_first_index(p, cand_is(y));
        lemma_first_index_push(p, cand_is(y), c);
        let i = choose|i: int| 0 <= i < p.len() && #[trigger] p[i].deal_id == y;
        assert(cand_is(y)(p[i]));
        let k = first_index(p, cand_is(y));
        assert(t[k] == p[k]);
    }
    if !remote_has(p, c.deal_id) {
        lemma_first_index(p, cand_is(c.deal_id));
        lemma_first_index_push(p, cand_is(c.deal_id), c);
        let k = first_index(p, cand_is(c.deal_id));
        if k < p.len() {
            assert(p[k].deal_id == c.deal_id);
        }
    }
}

pub proof fn lemma_remaining_ids(a: Seq<(u64, i32)>, r: Seq<DealView>)
    ensures
        forall|y: u64|
            #[trigger] remaining_ids(a, r).contains(y) <==> (!remote_has(r, y) && exists|j: int| 0 <= j < a.len() && #[trigger] a[j].0 == y),
    decreases a.len(),
{
    if a.len() > 0 {
        let q = a.drop_last();
        lemma_remaining_ids(q, r);
        assert forall|y: u64|
            #[trigger] remaining_ids(a, r).contains(y) <==> (!remote_has(r, y) && exists|j: int| 0 <= j < a.len() && #[trigger] a[j].0 == y) by {
            let x = a.last().0;
            assert(remaining_ids(q, r).contains(y) <==> (!remote_has(r, y) && exists|j: int| 0 <= j < q.len() && #[trigger] q[j].0 == y));
            if remote_has(r, x) {
                assert(remaining_ids(a, r) == remaining_ids(q, r));
            }
            if exists|j: int| 0 <= j < q.len() && #[trigger] q[j].0 == y {
                let j = choose|j: int| 0 <= j < q.len() && #[trigger] q[j].0 == y;
                assert(a[j].0 == y);
            }
            if exists|j: int| 0 <= j < a.len() && #[trigger] a[j].0 == y {
                let j = choose|j: int| 0 <= j < a.len() && #[trigger] a[j].0 == y;
                if j < q.len() {
                    assert(q[j].0 == y);
                } else {
                    assert(y == x);
                }
            }
            if !remote_has(r, x) {
                let rq = remaining_ids(q, r);
                assert(remaining_ids(a, r) == rq.push(x));
                if rq.push(x).contains(y) && y != x {
                    let t = choose|t: int| 0 <= t < rq.len() + 1 && #[trigger] rq.push(x)[t] == y;
                    assert(rq[t] == y);
                }
                if rq.contains(y) {
                    let t = choose|t: int| 0 <= t < rq.len() && #[trigger] rq[t] == y;
                    assert(rq.push(x)[t] == y);
                }
                if y == x {
                    assert(rq.push(x)[rq.len() as int] == y);
                }
            }
        }
    }
}

/// Index of the enrichment service's detail of deal `id`, or the count.
fn find_detail(catalog: &Vec<DealForAdd>, id: u64) -> (r: usize)
    ensures
        r == first_index(catalog@, detail_is(id)),
{
    let mut i: usize = 0;
    while i < catalog.len()
        invariant
            i <= catalog.len(),
            forall|j: int| 0 <= j < i ==> !detail_is(id)(#[trigger] catalog@[j]),
        decreases catalog.len() - i,
    {
        if catalog[i].deal_id == id {
            proof {
                lemma_first_index_is(catalog@, detail_is(id), i as int);
            }
            return i;
        }
        i = i + 1;
    }
    proof {
        lemma_first_index_is(catalog@, detail_is(id), i as int);
    }
    i
}

/// Facts that hold of the store's rows while the pass goes through the
/// remote list: rows that existed are as candidates `p` leave them, and the
/// rows created since follow them.
pub open spec fn rows_during(rows: Seq<DealData>, s: Seq<DealData>, p: Seq<DealView>, auth: bool, cat: Seq<DealForAdd>) -> bool {
    let created = created_records(new_candidates(p, s), auth, cat);
    &&& rows.len() == s.len() + created.len()
    &&& forall|i: int| 0 <= i < s.len() ==> #[trigger] rows[i] == seen_row(s[i], p)
    &&& forall|j: int| 0 <= j < created.len() ==> #[trigger] rows[s.len() + j] == row_of(created[j])
    &&& forall|j: int|
        0 <= j < created.len() ==> remote_has(p, #[trigger] created[j].deal_id) && !has_row(s, created[j].deal_id)
}

#[verifier::rlimit(100)]
#[verifier::spinoff_prover]
/// Runs one pass over the in-memory store. `remote` is the remote active
/// list; `auth_ok` says whether the token exchange succeeds; `catalog`
/// holds the details the enrichment service gives, by deal id.
pub fn run_pass(store: &mut DealStore, remote: &Vec<Deal>, auth_ok: bool, catalog: &Vec<DealForAdd>) -> (r: PassReport)
    requires
        old(store).wf(),
    ensures
        final(store).wf(),
        final(store).rows@ == pass_rows(old(store).rows@, views(remote@), auth_ok, catalog@),
        r.new_batch@ == created_records(new_candidates(views(remote@), old(store).rows@), auth_ok, catalog@),
        r.completed_batch@ == rows_for(final(store).rows@, remaining_ids(active_pairs(old(store).rows@), views(remote@))),
        r.limit_updates@ == limit_changes(views(remote@), old(store).rows@),
        r.returned@ == returned_ids(views(remote@), old(store).rows@),
        r.enrichment_requests@ == requested_ids(new_candidates(views(remote@), old(store).rows@), auth_ok),
        r.authenticated == (new_candidates(views(remote@), old(store).rows@).len() > 0),
        r.failures@.len() == failed_ids(new_candidates(views(remote@), old(store).rows@), auth_ok, catalog@).len(),
        forall|i: int|
            0 <= i < r.failures@.len() ==> failure_about(
                #[trigger] r.failures@[i],
                failed_ids(new_candidates(views(remote@), old(store).rows@), auth_ok, catalog@)[i],
                auth_ok,
            ),
{
    let ghost s = store.rows@;
    let ghost rv = views(remote@);
    let active = store.read_active_ids();
    proof {
        lemma_active_pairs(s);
    }
    let mut new_batch: Vec<DealForAdd> = Vec::new();
    let mut limit_updates: Vec<(u64, i32)> = Vec::new();
    let mut returned: Vec<u64> = Vec::new();
    let mut requests: Vec<u64> = Vec::new();
    let mut failures: Vec<Error> = Vec::new();
    let mut authenticated = false;
    let mut k: usize = 0;
    while k < remote.len()
        invariant
            k <= remote@.len(),
            rv == views(remote@),
            s == old(store).rows@,
            unique_ids(s),
            active@ == active_pairs(s),
            store.wf(),
            rows_during(store.rows@, s, rv.subrange(0, k as int), auth_ok, catalog@),
            new_batch@ == created_records(new_candidates(rv.subrange(0, k as int), s), auth_ok, catalog@),
            limit_updates@ == limit_changes(rv.subrange(0, k as int), s),
            returned@ == returned_ids(rv.subrange(0, k as int), s),
            requests@ == requested_ids(new_candidates(rv.subrange(0, k as int), s), auth_ok),
            authenticated == (new_candidates(rv.subrange(0, k as int), s).len() > 0),
            failures@.len() == failed_ids(new_candidates(rv.subrange(0, k as int), s), auth_ok, catalog@).len(),
            forall|i: int|
                0 <= i < failures@.len() ==> failure_about(
                    #[trigger] failures@[i],
                    failed_ids(new_candidates(rv.subrange(0, k as int), s), auth_ok, catalog@)[i],
                    auth_ok,
                ),
        decreases remote@.len() - k,
    {
        let ghost p = rv.subrange(0, k as int);
        let ghost c = rv[k as int];
        let ghost rows0 = store.rows@;
        let ghost created0 = created_records(new_candidates(p, s), auth_ok, catalog@);
        let x = remote[k].deal_id;
        let limit = remote[k].days_limit;
        proof {
            assert(rv.subrange(0, k + 1) =~= p.push(c));
            assert(p.push(c).drop_last() =~= p);
            lemma_remote_push(p, c);
            lemma_active_pairs(s);
            assert(rv[k as int] == remote@[k as int]@);
            assert(c.deal_id == x && c.days_limit == limit);
        }
        let t = classify(remote, k, &active);
        match t {
            Transition::Repeated => {
                proof {
                    assert forall|i: int| 0 <= i < s.len() implies #[trigger] store.rows@[i] == seen_row(s[i], p.push(c)) by {
                        if s[i].deal_id == x {
                        }
                    }
                    assert forall|j: int| 0 <= j < created0.len() implies remote_has(p.push(c), #[trigger] created0[j].deal_id) by {
                        assert(remote_has(p, created0[j].deal_id));
                    }
                }
            },
            Transition::Unchanged | Transition::LimitChanged => {
                proof {
                    lemma_first_index(active@, entry_is(x));
                    assert(active_limit(active@, x) is Some);
                    let e = first_index(active@, entry_is(x));
                    let i0 = choose|i: int| 0 <= i < s.len() && !s[i].transfer_completed && #[trigger] active@[e] == (s[i].deal_id, s[i].days_limit);
                    assert(s[i0].deal_id == x);
                    assert(has_row(s, x));
                    lemma_row_index(s, x);
                    assert(i0 == row_index(s, x));
                }
                if t == Transition::LimitChanged {
                    store.set_days_limit(x, limit);
                    limit_updates.push((x, limit));
                }
                proof {
                    let i0 = row_index(s, x);
                    assert forall|i: int| 0 <= i < s.len() implies #[trigger] store.rows@[i] == seen_row(s[i], p.push(c)) by {
                        assert(rows0[i] == seen_row(s[i], p));
                        if s[i].deal_id == x {
                            assert(i == i0);
                            assert(!remote_has(p, x));
                            assert(rows0[i] == s[i]);
                        } else {
                            assert(rows0[i].deal_id == s[i].deal_id);
                        }
                    }
                    assert forall|j: int| 0 <= j < created0.len() implies #[trigger] store.rows@[s.len() + j] == row_of(created0[j]) by {
                        assert(remote_has(p, created0[j].deal_id));
                        assert(rows0[s.len() + j] == row_of(created0[j]));
                    }
                    assert forall|j: int| 0 <= j < created0.len() implies remote_has(p.push(c), #[trigger] created0[j].deal_id) by {
                        assert(remote_has(p, created0[j].deal_id));
                    }
                }
            },
            Transition::Unseen => {
                proof {
                    lemma_first_index(active@, entry_is(x));
                    if has_row(s, x) {
                        lemma_row_index(s, x);
                        let i0 = row_index(s, x);
                        if !s[i0].transfer_completed {
                            let j = choose|j: int| 0 <= j < active@.len() && #[trigger] active@[j] == (#[trigger] s[i0].deal_id, s[i0].days_limit);
                            assert(entry_is(x)(active@[j]));
                        }
                    }
                    assert forall|i: int| 0 <= i < rows0.len() && #[trigger] rows0[i].deal_id == x implies i < s.len() && s[i].deal_id == x by {
                        if i >= s.len() {
                            assert(rows0[s.len() + (i - s.len())] == row_of(created0[i - s.len()]));
                            assert(remote_has(p, created0[i - s.len()].deal_id));
                        } else {
                            assert(rows0[i] == seen_row(s[i], p));
                        }
                    }
                    if has_row(s, x) {
                        let i0 = row_index(s, x);
                        assert(rows0[i0] == s[i0]);
                        assert(has_row(rows0, x));
                        assert forall|j: int| 0 <= j < i0 implies !crate::store::id_is(x)(#[trigger] rows0[j]) by {
                            assert(rows0[j] == seen_row(s[j], p));
                            assert(!crate::store::id_is(x)(s[j]));
                        }
                        lemma_first_index_is(rows0, crate::store::id_is(x), i0);
                    } else {
                        assert(!has_row(rows0, x));
                    }
                }
                let back = store.mark_not_completed(x);
                if back {
                    returned.push(x);
                    proof {
                        let i0 = row_index(s, x);
                        assert forall|i: int| 0 <= i < s.len() implies #[trigger] store.rows@[i] == seen_row(s[i], p.push(c)) by {
                            assert(rows0[i] == seen_row(s[i], p));
                            if s[i].deal_id == x {
                                assert(i == i0);
                            } else {
                                assert(rows0[i].deal_id == s[i].deal_id);
                            }
                        }
                        assert forall|j: int| 0 <= j < created0.len() implies #[trigger] store.rows@[s.len() + j] == row_of(created0[j]) by {
                            assert(remote_has(p, created0[j].deal_id));
                            assert(rows0[s.len() + j] == row_of(created0[j]));
                        }
                        assert forall|j: int| 0 <= j < created0.len() implies remote_has(p.push(c), #[trigger] created0[j].deal_id) by {
                            assert(remote_has(p, created0[j].deal_id));
                        }
                    }
                } else {
                    proof {
                        assert(store.rows@ =~= rows0);
                        assert(new_candidates(p.push(c), s) == new_candidates(p, s).push(c));
                        assert(new_candidates(p, s).push(c).drop_last() =~= new_candidates(p, s));
                        assert(new_candidates(p, s).push(c).last() == c);
                    }
                    authenticated = true;
                    if auth_ok {
                        requests.push(x);
                        let d = find_detail(catalog, x);
                        if d < catalog.len() {
                            let rec = catalog[d].with_days_limit(limit);
                            let kept = rec.with_days_limit(limit);
                            proof {
                                lemma_first_index(catalog@, detail_is(x));
                                assert(rec == detail_for(catalog@, c));
                                assert(kept == rec);
                            }
                            let made = store.create(rec);
                            proof {
                                assert(made is Ok);
                            }
                            new_batch.push(kept);
                            proof {
                                let created1 = created_records(new_candidates(p.push(c), s), auth_ok, catalog@);
                                assert(created1 == created0.push(kept));
                                assert forall|i: int| 0 <= i < s.len() implies #[trigger] store.rows@[i] == seen_row(s[i], p.push(c)) by {
                                    assert(rows0[i] == seen_row(s[i], p));
                                }
                                assert forall|j: int| 0 <= j < created1.len() implies #[trigger] store.rows@[s.len() + j] == row_of(created1[j]) by {
                                    if j < created0.len() {
                                        assert(rows0[s.len() + j] == row_of(created0[j]));
                                    }
                                }
                                assert forall|j: int| 0 <= j < created1.len() implies remote_has(p.push(c), #[trigger] created1[j].deal_id) && !has_row(s, created1[j].deal_id) by {
                                    if j < created0.len() {
                                        assert(remote_has(p, created0[j].deal_id));
                                    }
                                }
                            }
                        } else {
                            failures.push(Error::EnrichmentDataFailed { deal_id: x, fault: DataFault::Empty });
                            proof {
                                let f = failed_ids(new_candidates(p.push(c), s), auth_ok, catalog@);
                                assert(f == failed_ids(new_candidates(p, s), auth_ok, catalog@).push(x));
                                assert forall|i: int| 0 <= i < s.len() implies #[trigger] store.rows@[i] == seen_row(s[i], p.push(c)) by {
                                    assert(rows0[i] == seen_row(s[i], p));
                                }
                                assert forall|j: int| 0 <= j < created0.len() implies remote_has(p.push(c), #[trigger] created0[j].deal_id) by {
                                    assert(remote_has(p, created0[j].deal_id));
                                }
                            }
                        }
                    } else {
                        failures.push(Error::EnrichmentAuthFailed(String::from_str("token exchange failed")));
                        proof {
                            let f = failed_ids(new_candidates(p.push(c), s), auth_ok, catalog@);
                            assert(f == failed_ids(new_candidates(p, s), auth_ok, catalog@).push(x));
                            assert forall|i: int| 0 <= i < s.len() implies #[trigger] store.rows@[i] == seen_row(s[i], p.push(c)) by {
                                assert(rows0[i] == seen_row(s[i], p));
                            }
                            assert forall|j: int| 0 <= j < created0.len() implies remote_has(p.push(c), #[trigger] created0[j].deal_id) by {
                                assert(remote_has(p, created0[j].deal_id));
                            }
                        }
                    }
                }
            },
        }
        k = k + 1;
    }
    proof {
        assert(rv.subrange(0, k as int) =~= rv);
    }
    let rem = remaining(&active, remote);
    let ghost rows1 = store.rows@;
    let completed_batch = store.mark_completed(&rem);
    proof {
        lemma_remaining_ids(active@, rv);
        lemma_active_pairs(s);
        let created = created_records(new_candidates(rv, s), auth_ok, catalog@);
        let want = pass_rows(s, rv, auth_ok, catalog@);
        assert forall|i: int| 0 <= i < store.rows@.len() implies #[trigger] store.rows@[i] == want[i] by {
            if i < s.len() {
                assert(rows1[i] == seen_row(s[i], rv));
                let y = s[i].deal_id;
                if rem@.contains(y) {
                    let j = choose|j: int| 0 <= j < active@.len() && #[trigger] active@[j].0 == y;
                    let i1 = choose|i1: int| 0 <= i1 < s.len() && !s[i1].transfer_completed && #[trigger] active@[j] == (s[i1].deal_id, s[i1].days_limit);
                    assert(s[i1].deal_id == s[i].deal_id);
                    assert(i1 == i);
                } else if !remote_has(rv, y) && !s[i].transfer_completed {
                    let j = choose|j: int| 0 <= j < active@.len() && #[trigger] active@[j] == (#[trigger] s[i].deal_id, s[i].days_limit);
                    assert(active@[j].0 == y);
                }
            } else {
                let j = i - s.len();
                assert(rows1[s.len() + j] == row_of(created[j]));
                assert(remote_has(rv, created[j].deal_id));
            }
        }
        assert(store.rows@ =~= want);
    }
    PassReport {
        new_batch,
        completed_batch,
        limit_updates,
        returned,
        enrichment_requests: requests,
        authenticated,
        failures,
    }
}

} // verus!
