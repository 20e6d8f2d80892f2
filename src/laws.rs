//! What holds of passes: over one pass, two in a row, or any run of them.
use vstd::prelude::*;
use crate::amo::DealView;
use crate::engine::{
    created_records, detail_for, detail_is, enriched, failed_ids, final_row, first_limit, limit_changes,
    new_candidates, pass_rows, remaining_ids, remote_has, requested_ids, lemma_remaining_ids,
};
use crate::find::lemma_first_index;
use crate::profit::DealForAdd;
use crate::store::{active_pairs, has_row, lemma_active_pairs, lemma_row_index, row_index, row_of, unique_ids, with_flag, DealData};

verus! {

proof fn lemma_remote_prefix(p: Seq<DealView>, y: u64)
    requires
        p.len() > 0,
        remote_has(p.drop_last(), y),
    ensures
        remote_has(p, y),
{
    let q = p.drop_last();
    let i = choose|i: int| 0 <= i < q.len() && #[trigger] q[i].deal_id == y;
    assert(p[i].deal_id == y);
}

/// New candidates are listed and have no row; every listed deal without a
/// row is among them.
proof fn lemma_new_candidates(r: Seq<DealView>, s: Seq<DealData>)
    ensures
        forall|j: int|
            0 <= j < new_candidates(r, s).len() ==> remote_has(r, #[trigger] new_candidates(r, s)[j].deal_id) && !has_row(
                s,
                new_candidates(r, s)[j].deal_id,
            ),
        forall|y: u64|
            remote_has(r, y) && !has_row(s, y) ==> exists|j: int|
                0 <= j < new_candidates(r, s).len() && #[trigger] new_candidates(r, s)[j].deal_id == y,
    decreases r.len(),
{
    if r.len() > 0 {
        let q = r.drop_last();
        lemma_new_candidates(q, s);
        let a = new_candidates(r, s);
        let b = new_candidates(q, s);
        assert forall|j: int| 0 <= j < a.len() implies remote_has(r, #[trigger] a[j].deal_id) && !has_row(s, a[j].deal_id) by {
            if j < b.len() {
                assert(a[j] == b[j]);
                lemma_remote_prefix(r, b[j].deal_id);
            } else {
                assert(a[j] == r.last());
                assert(r[r.len() - 1].deal_id == a[j].deal_id);
            }
        }
        assert forall|y: u64| remote_has(r, y) && !has_row(s, y) implies exists|j: int|
            0 <= j < a.len() && #[trigger] a[j].deal_id == y by {
            if remote_has(q, y) {
                let j = choose|j: int| 0 <= j < b.len() && #[trigger] b[j].deal_id == y;
                assert(a[j] == b[j]);
            } else {
                let i = choose|i: int| 0 <= i < r.len() && #[trigger] r[i].deal_id == y;
                if i < q.len() {
                    assert(q[i].deal_id == y);
                }
                assert(r.last().deal_id == y);
                assert(a[a.len() - 1].deal_id == y);
            }
        }
    }
}

/// Each created record is about one of the candidates; where none failed,
/// each candidate has its record.
proof fn lemma_created_records(cs: Seq<DealView>, auth: bool, cat: Seq<DealForAdd>)
    ensures
        forall|m: int|
            0 <= m < created_records(cs, auth, cat).len() ==> exists|j: int|
                0 <= j < cs.len() && #[trigger] cs[j].deal_id == (#[trigger] created_records(cs, auth, cat)[m]).deal_id,
        failed_ids(cs, auth, cat).len() == 0 ==> forall|j: int|
            0 <= j < cs.len() ==> exists|m: int|
                0 <= m < created_records(cs, auth, cat).len() && (#[trigger] created_records(cs, auth, cat)[m]).deal_id
                    == #[trigger] cs[j].deal_id,
    decreases cs.len(),
{
    if cs.len() > 0 {
        let q = cs.drop_last();
        lemma_created_records(q, auth, cat);
        let a = created_records(cs, auth, cat);
        let b = created_records(q, auth, cat);
        let c = cs.last();
        if enriched(cat, c, auth) {
            lemma_first_index(cat, detail_is(c.deal_id));
            assert(detail_for(cat, c).deal_id == c.deal_id);
        }
        assert forall|m: int| 0 <= m < a.len() implies exists|j: int|
            0 <= j < cs.len() && #[trigger] cs[j].deal_id == (#[trigger] a[m]).deal_id by {
            if m < b.len() {
                assert(a[m] == b[m]);
                let j = choose|j: int| 0 <= j < q.len() && #[trigger] q[j].deal_id == (#[trigger] b[m]).deal_id;
                assert(cs[j] == q[j]);
            } else {
                assert(cs[cs.len() - 1].deal_id == a[m].deal_id);
            }
        }
        if failed_ids(cs, auth, cat).len() == 0 {
            assert(enriched(cat, c, auth));
            assert(failed_ids(q, auth, cat).len() == 0);
            assert forall|j: int| 0 <= j < cs.len() implies exists|m: int|
                0 <= m < a.len() && (#[trigger] a[m]).deal_id == #[trigger] cs[j].deal_id by {
                if j < q.len() {
                    assert(cs[j] == q[j]);
                    let m = choose|m: int| 0 <= m < b.len() && (#[trigger] b[m]).deal_id == #[trigger] q[j].deal_id;
                    assert(a[m] == b[m]);
                } else {
                    assert(a[a.len() - 1].deal_id == cs[j].deal_id);
                }
            }
        }
    }
}

proof fn lemma_requested_ids(cs: Seq<DealView>, auth: bool)
    ensures
        forall|m: int|
            0 <= m < requested_ids(cs, auth).len() ==> exists|j: int|
                0 <= j < cs.len() && #[trigger] cs[j].deal_id == #[trigger] requested_ids(cs, auth)[m],
    decreases cs.len(),
{
    if cs.len() > 0 && auth {
        let q = cs.drop_last();
        lemma_requested_ids(q, auth);
        let a = requested_ids(cs, auth);
        let b = requested_ids(q, auth);
        assert forall|m: int| 0 <= m < a.len() implies exists|j: int| 0 <= j < cs.len() && #[trigger] cs[j].deal_id == #[trigger] a[m] by {
            if m < b.len() {
                assert(a[m] == b[m]);
                let j = choose|j: int| 0 <= j < q.len() && #[trigger] q[j].deal_id == #[trigger] b[m];
                assert(cs[j] == q[j]);
            } else {
                assert(cs[cs.len() - 1].deal_id == a[m]);
            }
        }
    }
}

/// The rows after a pass: those that existed keep their place and deal id,
/// the created ones follow.
proof fn lemma_pass_rows(s: Seq<DealData>, r: Seq<DealView>, auth: bool, cat: Seq<DealForAdd>)
    ensures
        pass_rows(s, r, auth, cat).len() == s.len() + created_records(new_candidates(r, s), auth, cat).len(),
        forall|i: int| 0 <= i < s.len() ==> #[trigger] pass_rows(s, r, auth, cat)[i] == final_row(s[i], r),
        forall|j: int|
            0 <= j < created_records(new_candidates(r, s), auth, cat).len() ==> #[trigger] pass_rows(s, r, auth, cat)[s.len() + j]
                == row_of(created_records(new_candidates(r, s), auth, cat)[j]),
{
}

/// Every row found before a pass is there after it.
pub proof fn lemma_rows_kept(s: Seq<DealData>, r: Seq<DealView>, auth: bool, cat: Seq<DealForAdd>, id: u64)
    requires
        has_row(s, id),
    ensures
        has_row(pass_rows(s, r, auth, cat), id),
{
    lemma_pass_rows(s, r, auth, cat);
    let i = choose|i: int| 0 <= i < s.len() && #[trigger] s[i].deal_id == id;
    assert(pass_rows(s, r, auth, cat)[i].deal_id == id);
}

/// A pass creates records only for deals without a row, and each created
/// deal has a row afterwards.
pub proof fn lemma_creates_only_absent(s: Seq<DealData>, r: Seq<DealView>, auth: bool, cat: Seq<DealForAdd>)
    ensures
        forall|m: int|
            0 <= m < created_records(new_candidates(r, s), auth, cat).len() ==> !has_row(
                s,
                (#[trigger] created_records(new_candidates(r, s), auth, cat)[m]).deal_id,
            ) && has_row(pass_rows(s, r, auth, cat), created_records(new_candidates(r, s), auth, cat)[m].deal_id),
{
    let cs = new_candidates(r, s);
    let created = created_records(cs, auth, cat);
    lemma_new_candidates(r, s);
    lemma_created_records(cs, auth, cat);
    lemma_pass_rows(s, r, auth, cat);
    assert forall|m: int| 0 <= m < created.len() implies !has_row(s, (#[trigger] created[m]).deal_id) && has_row(
        pass_rows(s, r, auth, cat),
        created[m].deal_id,
    ) by {
        let j = choose|j: int| 0 <= j < cs.len() && #[trigger] cs[j].deal_id == (#[trigger] created[m]).deal_id;
        assert(pass_rows(s, r, auth, cat)[s.len() + m].deal_id == created[m].deal_id);
    }
}

/// Whether a pass over `s` creates a record of deal `id`.
pub open spec fn creates(s: Seq<DealData>, r: Seq<DealView>, auth: bool, cat: Seq<DealForAdd>, id: u64) -> bool {
    exists|m: int|
        0 <= m < created_records(new_candidates(r, s), auth, cat).len() && (#[trigger] created_records(
            new_candidates(r, s),
            auth,
            cat,
        )[m]).deal_id == id
}

/// A run of passes: each state is the pass over the one before.
pub open spec fn is_run(
    states: Seq<Seq<DealData>>,
    remotes: Seq<Seq<DealView>>,
    auths: Seq<bool>,
    cats: Seq<Seq<DealForAdd>>,
) -> bool {
    &&& states.len() == remotes.len() + 1
    &&& auths.len() == remotes.len()
    &&& cats.len() == remotes.len()
    &&& forall|k: int|
        0 <= k < remotes.len() ==> #[trigger] states[k + 1] == pass_rows(states[k], remotes[k], auths[k], cats[k])
}

proof fn lemma_row_persists(
    states: Seq<Seq<DealData>>,
    remotes: Seq<Seq<DealView>>,
    auths: Seq<bool>,
    cats: Seq<Seq<DealForAdd>>,
    id: u64,
    a: int,
    b: int,
)
    requires
        is_run(states, remotes, auths, cats),
        0 <= a <= b < states.len(),
        has_row(states[a], id),
    ensures
        has_row(states[b], id),
    decreases b - a,
{
    if a < b {
        lemma_rows_kept(states[a], remotes[a], auths[a], cats[a], id);
        assert(states[a + 1] == pass_rows(states[a], remotes[a], auths[a], cats[a]));
        lemma_row_persists(states, remotes, auths, cats, id, a + 1, b);
    }
}

/// No deal is created twice over a run of passes, whatever the remote
/// lists and the enrichment outcomes.
pub proof fn lemma_no_duplicate_creation(
    states: Seq<Seq<DealData>>,
    remotes: Seq<Seq<DealView>>,
    auths: Seq<bool>,
    cats: Seq<Seq<DealForAdd>>,
    id: u64,
    k1: int,
    k2: int,
)
    requires
        is_run(states, remotes, auths, cats),
        0 <= k1 < k2 < remotes.len(),
        creates(states[k1], remotes[k1], auths[k1], cats[k1], id),
    ensures
        !creates(states[k2], remotes[k2], auths[k2], cats[k2], id),
{
    lemma_creates_only_absent(states[k1], remotes[k1], auths[k1], cats[k1]);
    let m = choose|m: int|
        0 <= m < created_records(new_candidates(remotes[k1], states[k1]), auths[k1], cats[k1]).len() && (#[trigger] created_records(
            new_candidates(remotes[k1], states[k1]),
            auths[k1],
            cats[k1],
        )[m]).deal_id == id;
    assert(states[k1 + 1] == pass_rows(states[k1], remotes[k1], auths[k1], cats[k1]));
    lemma_row_persists(states, remotes, auths, cats, id, k1 + 1, k2);
    lemma_creates_only_absent(states[k2], remotes[k2], auths[k2], cats[k2]);
}

proof fn lemma_no_new_when_all_rows(r: Seq<DealView>, s: Seq<DealData>)
    requires
        forall|y: u64| remote_has(r, y) ==> has_row(s, y),
    ensures
        new_candidates(r, s).len() == 0,
{
    lemma_new_candidates(r, s);
    if new_candidates(r, s).len() > 0 {
        assert(remote_has(r, new_candidates(r, s)[0].deal_id));
    }
}

proof fn lemma_no_remaining_when_all_listed(s: Seq<DealData>, r: Seq<DealView>)
    requires
        forall|i: int| 0 <= i < s.len() && !s[i].transfer_completed ==> remote_has(r, #[trigger] s[i].deal_id),
    ensures
        remaining_ids(active_pairs(s), r).len() == 0,
{
    let a = active_pairs(s);
    lemma_active_pairs(s);
    lemma_remaining_ids(a, r);
    if remaining_ids(a, r).len() > 0 {
        let y = remaining_ids(a, r)[0];
        assert(remaining_ids(a, r).contains(y));
        let j = choose|j: int| 0 <= j < a.len() && #[trigger] a[j].0 == y;
        let i = choose|i: int| 0 <= i < s.len() && !s[i].transfer_completed && #[trigger] a[j] == (s[i].deal_id, s[i].days_limit);
        assert(remote_has(r, s[i].deal_id));
    }
}

proof fn lemma_no_returned_when_listed_active(r: Seq<DealView>, s: Seq<DealData>)
    requires
        forall|y: u64| remote_has(r, y) ==> has_row(s, y),
        forall|i: int| 0 <= i < s.len() && remote_has(r, #[trigger] s[i].deal_id) ==> !s[i].transfer_completed,
    ensures
        crate::engine::returned_ids(r, s).len() == 0,
    decreases r.len(),
{
    if r.len() > 0 {
        let q = r.drop_last();
        assert forall|y: u64| remote_has(q, y) implies has_row(s, y) by {
            lemma_remote_prefix(r, y);
        }
        assert forall|i: int| 0 <= i < s.len() && remote_has(q, #[trigger] s[i].deal_id) implies !s[i].transfer_completed by {
            lemma_remote_prefix(r, s[i].deal_id);
        }
        lemma_no_returned_when_listed_active(q, s);
        let x = r.last().deal_id;
        assert(r[r.len() - 1].deal_id == x);
        assert(remote_has(r, x));
        lemma_row_index(s, x);
    }
}

/// Two passes in a row over the same remote list: where the first one
/// enriched every new deal, the second has no new deal, asks for no detail,
/// makes no deal active again, and completes no deal.
pub proof fn lemma_idempotent(
    s: Seq<DealData>,
    r: Seq<DealView>,
    auth1: bool,
    cat1: Seq<DealForAdd>,
    auth2: bool,
    cat2: Seq<DealForAdd>,
)
    requires
        failed_ids(new_candidates(r, s), auth1, cat1).len() == 0,
    ensures
        new_candidates(r, pass_rows(s, r, auth1, cat1)).len() == 0,
        created_records(new_candidates(r, pass_rows(s, r, auth1, cat1)), auth2, cat2).len() == 0,
        requested_ids(new_candidates(r, pass_rows(s, r, auth1, cat1)), auth2).len() == 0,
        remaining_ids(active_pairs(pass_rows(s, r, auth1, cat1)), r).len() == 0,
        crate::engine::returned_ids(r, pass_rows(s, r, auth1, cat1)).len() == 0,
{
    let s1 = pass_rows(s, r, auth1, cat1);
    let cs = new_candidates(r, s);
    let created = created_records(cs, auth1, cat1);
    lemma_pass_rows(s, r, auth1, cat1);
    lemma_new_candidates(r, s);
    lemma_created_records(cs, auth1, cat1);
    assert forall|y: u64| remote_has(r, y) implies has_row(s1, y) by {
        if has_row(s, y) {
            lemma_rows_kept(s, r, auth1, cat1, y);
        } else {
            let j = choose|j: int| 0 <= j < cs.len() && #[trigger] cs[j].deal_id == y;
            let m = choose|m: int| 0 <= m < created.len() && (#[trigger] created[m]).deal_id == #[trigger] cs[j].deal_id;
            assert(s1[s.len() + m].deal_id == y);
        }
    }
    lemma_no_new_when_all_rows(r, s1);
    assert forall|i: int| 0 <= i < s1.len() && !s1[i].transfer_completed implies remote_has(r, #[trigger] s1[i].deal_id) by {
        if i < s.len() {
            assert(s1[i] == final_row(s[i], r));
        } else {
            let m = i - s.len();
            assert(s1[s.len() + m] == row_of(created[m]));
            let j = choose|j: int| 0 <= j < cs.len() && #[trigger] cs[j].deal_id == (#[trigger] created[m]).deal_id;
        }
    }
    lemma_no_remaining_when_all_listed(s1, r);
    assert forall|i: int| 0 <= i < s1.len() && remote_has(r, #[trigger] s1[i].deal_id) implies !s1[i].transfer_completed by {
        if i < s.len() {
            assert(s1[i] == final_row(s[i], r));
        } else {
            let m = i - s.len();
            assert(s1[s.len() + m] == row_of(created[m]));
        }
    }
    lemma_no_returned_when_listed_active(r, s1);
}

/// A completed deal that is listed again becomes active with every other
/// field as stored, and no detail is asked for it.
pub proof fn lemma_returned(s: Seq<DealData>, r: Seq<DealView>, auth: bool, cat: Seq<DealForAdd>, id: u64)
    requires
        has_row(s, id),
        s[row_index(s, id)].transfer_completed,
        remote_has(r, id),
    ensures
        pass_rows(s, r, auth, cat)[row_index(s, id)] == with_flag(s[row_index(s, id)], false),
        !requested_ids(new_candidates(r, s), auth).contains(id),
        !creates(s, r, auth, cat, id),
{
    lemma_row_index(s, id);
    lemma_pass_rows(s, r, auth, cat);
    lemma_new_candidates(r, s);
    lemma_requested_ids(new_candidates(r, s), auth);
    lemma_creates_only_absent(s, r, auth, cat);
    let cs = new_candidates(r, s);
    if requested_ids(cs, auth).contains(id) {
        let m = choose|m: int| 0 <= m < requested_ids(cs, auth).len() && #[trigger] requested_ids(cs, auth)[m] == id;
        let j = choose|j: int| 0 <= j < cs.len() && #[trigger] cs[j].deal_id == #[trigger] requested_ids(cs, auth)[m];
    }
}

/// A deal completed in one pass and listed again in the next is made
/// active again in that next pass, without a detail request.
pub proof fn lemma_returned_after_completion(
    s: Seq<DealData>,
    r1: Seq<DealView>,
    auth1: bool,
    cat1: Seq<DealForAdd>,
    r2: Seq<DealView>,
    auth2: bool,
    cat2: Seq<DealForAdd>,
    id: u64,
)
    requires
        has_row(s, id),
        !s[row_index(s, id)].transfer_completed,
        !remote_has(r1, id),
        remote_has(r2, id),
    ensures
        ({
            let s1 = pass_rows(s, r1, auth1, cat1);
            &&& s1[row_index(s, id)] == with_flag(s[row_index(s, id)], true)
            &&& pass_rows(s1, r2, auth2, cat2)[row_index(s, id)] == with_flag(s[row_index(s, id)], false)
            &&& !requested_ids(new_candidates(r2, s1), auth2).contains(id)
        }),
{
    let s1 = pass_rows(s, r1, auth1, cat1);
    let i0 = row_index(s, id);
    lemma_row_index(s, id);
    lemma_pass_rows(s, r1, auth1, cat1);
    assert(s1[i0] == with_flag(s[i0], true));
    lemma_find_row_again(s, s1, id);
    lemma_returned(s1, r2, auth2, cat2, id);
}

/// Rows that keep their places and ids keep their row index.
proof fn lemma_find_row_again(s: Seq<DealData>, t: Seq<DealData>, id: u64)
    requires
        has_row(s, id),
        t.len() >= s.len(),
        forall|i: int| 0 <= i < s.len() ==> #[trigger] t[i].deal_id == s[i].deal_id,
    ensures
        has_row(t, id),
        row_index(t, id) == row_index(s, id),
{
    lemma_row_index(s, id);
    let i0 = row_index(s, id);
    lemma_first_index(s, crate::store::id_is(id));
    assert(t[i0].deal_id == id);
    assert forall|j: int| 0 <= j < i0 implies !crate::store::id_is(id)(#[trigger] t[j]) by {
        assert(!crate::store::id_is(id)(s[j]));
    }
    crate::find::lemma_first_index_is(t, crate::store::id_is(id), i0);
}

pub open spec fn distinct_ids(ids: Seq<u64>) -> bool {
    forall|a: int, b: int| 0 <= a < ids.len() && 0 <= b < ids.len() && a != b ==> #[trigger] ids[a] != #[trigger] ids[b]
}

/// The active pairs of rows with distinct ids have distinct ids.
proof fn lemma_active_pairs_distinct(rows: Seq<DealData>)
    requires
        unique_ids(rows),
    ensures
        forall|a: int, b: int|
            0 <= a < active_pairs(rows).len() && 0 <= b < active_pairs(rows).len() && a != b ==> (#[trigger] active_pairs(rows)[a]).0
                != (#[trigger] active_pairs(rows)[b]).0,
    decreases rows.len(),
{
    if rows.len() > 0 {
        let q = rows.drop_last();
        assert(unique_ids(q)) by {
            assert forall|i: int, j: int| 0 <= i < q.len() && 0 <= j < q.len() && i != j implies #[trigger] q[i].deal_id
                != #[trigger] q[j].deal_id by {
                assert(q[i] == rows[i] && q[j] == rows[j]);
            }
        }
        lemma_active_pairs_distinct(q);
        lemma_active_pairs(q);
        let a = active_pairs(rows);
        let b = active_pairs(q);
        let last = rows.len() - 1;
        assert forall|x: int, y: int| 0 <= x < a.len() && 0 <= y < a.len() && x != y implies (#[trigger] a[x]).0 != (
        #[trigger] a[y]).0 by {
            if x < b.len() && y < b.len() {
                assert(a[x] == b[x] && a[y] == b[y]);
            } else if x < b.len() {
                assert(a[x] == b[x]);
                let i = choose|i: int| 0 <= i < q.len() && !q[i].transfer_completed && #[trigger] b[x] == (q[i].deal_id, q[i].days_limit);
                assert(rows[i] == q[i]);
                assert(a[y].0 == rows[last].deal_id);
            } else {
                assert(a[y] == b[y]);
                let i = choose|i: int| 0 <= i < q.len() && !q[i].transfer_completed && #[trigger] b[y] == (q[i].deal_id, q[i].days_limit);
                assert(rows[i] == q[i]);
                assert(a[x].0 == rows[last].deal_id);
            }
        }
    }
}

/// The deals left over from a snapshot with distinct ids are distinct.
proof fn lemma_remaining_distinct(a: Seq<(u64, i32)>, r: Seq<DealView>)
    requires
        forall|x: int, y: int| 0 <= x < a.len() && 0 <= y < a.len() && x != y ==> (#[trigger] a[x]).0 != (#[trigger] a[y]).0,
    ensures
        distinct_ids(remaining_ids(a, r)),
    decreases a.len(),
{
    if a.len() > 0 {
        let q = a.drop_last();
        assert forall|x: int, y: int| 0 <= x < q.len() && 0 <= y < q.len() && x != y implies (#[trigger] q[x]).0 != (
        #[trigger] q[y]).0 by {
            assert(q[x] == a[x] && q[y] == a[y]);
        }
        lemma_remaining_distinct(q, r);
        lemma_remaining_ids(q, r);
        let t = remaining_ids(a, r);
        let u = remaining_ids(q, r);
        let v = a.last().0;
        if !remote_has(r, v) {
            assert(t == u.push(v));
            assert forall|x: int, y: int| 0 <= x < t.len() && 0 <= y < t.len() && x != y implies #[trigger] t[x] != #[trigger] t[y] by {
                if x < u.len() && y < u.len() {
                    assert(t[x] == u[x] && t[y] == u[y]);
                } else if x < u.len() {
                    assert(t[x] == u[x]);
                    assert(u.contains(u[x]));
                    let j = choose|j: int| 0 <= j < q.len() && #[trigger] q[j].0 == u[x];
                    assert(q[j] == a[j]);
                } else {
                    assert(t[y] == u[y]);
                    assert(u.contains(u[y]));
                    let j = choose|j: int| 0 <= j < q.len() && #[trigger] q[j].0 == u[y];
                    assert(q[j] == a[j]);
                }
            }
        }
    }
}

/// The rows handed back for distinct ids hold at most one row of a deal.
proof fn lemma_rows_for_once(rows: Seq<DealData>, ids: Seq<u64>, id: u64)
    requires
        distinct_ids(ids),
    ensures
        forall|m: int| 0 <= m < crate::store::rows_for(rows, ids).len() ==> ids.contains(
            (#[trigger] crate::store::rows_for(rows, ids)[m]).deal_id,
        ),
        forall|m1: int, m2: int|
            0 <= m1 < crate::store::rows_for(rows, ids).len() && 0 <= m2 < crate::store::rows_for(rows, ids).len()
                && (#[trigger] crate::store::rows_for(rows, ids)[m1]).deal_id == id && (#[trigger] crate::store::rows_for(
                rows,
                ids,
            )[m2]).deal_id == id ==> m1 == m2,
    decreases ids.len(),
{
    if ids.len() > 0 {
        let q = ids.drop_last();
        assert(distinct_ids(q)) by {
            assert forall|a: int, b: int| 0 <= a < q.len() && 0 <= b < q.len() && a != b implies #[trigger] q[a] != #[trigger] q[b] by {
                assert(q[a] == ids[a] && q[b] == ids[b]);
            }
        }
        lemma_rows_for_once(rows, q, id);
        let t = crate::store::rows_for(rows, ids);
        let u = crate::store::rows_for(rows, q);
        let x = ids.last();
        if has_row(rows, x) {
            lemma_row_index(rows, x);
        }
        assert forall|m: int| 0 <= m < t.len() implies ids.contains((#[trigger] t[m]).deal_id) by {
            if m < u.len() {
                assert(t[m] == u[m]);
                let k = choose|k: int| 0 <= k < q.len() && q[k] == u[m].deal_id;
                assert(ids[k] == q[k]);
            } else {
                assert(ids[ids.len() - 1] == x);
            }
        }
        assert forall|m1: int, m2: int| 0 <= m1 < t.len() && 0 <= m2 < t.len() && (#[trigger] t[m1]).deal_id == id && (
        #[trigger] t[m2]).deal_id == id implies m1 == m2 by {
            if m1 < u.len() && m2 < u.len() {
                assert(t[m1] == u[m1] && t[m2] == u[m2]);
            } else if m1 < u.len() {
                assert(t[m1] == u[m1]);
                let k = choose|k: int| 0 <= k < q.len() && q[k] == u[m1].deal_id;
                assert(ids[k] == q[k]);
                assert(ids[ids.len() - 1] == x);
            } else if m2 < u.len() {
                assert(t[m2] == u[m2]);
                let k = choose|k: int| 0 <= k < q.len() && q[k] == u[m2].deal_id;
                assert(ids[k] == q[k]);
                assert(ids[ids.len() - 1] == x);
            }
        }
    }
}

/// An active deal that the remote list no longer holds is completed, with
/// every other field as stored, and is in the completed rows the pass hands
/// back exactly once, as that row.
pub proof fn lemma_completed(s: Seq<DealData>, r: Seq<DealView>, auth: bool, cat: Seq<DealForAdd>, id: u64)
    requires
        unique_ids(s),
        has_row(s, id),
        !s[row_index(s, id)].transfer_completed,
        !remote_has(r, id),
    ensures
        pass_rows(s, r, auth, cat)[row_index(s, id)] == with_flag(s[row_index(s, id)], true),
        remaining_ids(active_pairs(s), r).contains(id),
        crate::store::rows_for(pass_rows(s, r, auth, cat), remaining_ids(active_pairs(s), r)).contains(
            with_flag(s[row_index(s, id)], true),
        ),
        forall|m: int|
            0 <= m < crate::store::rows_for(pass_rows(s, r, auth, cat), remaining_ids(active_pairs(s), r)).len()
                && (#[trigger] crate::store::rows_for(pass_rows(s, r, auth, cat), remaining_ids(active_pairs(s), r))[m]).deal_id
                == id ==> crate::store::rows_for(pass_rows(s, r, auth, cat), remaining_ids(active_pairs(s), r))[m] == with_flag(
                s[row_index(s, id)],
                true,
            ),
        forall|m1: int, m2: int|
            0 <= m1 < crate::store::rows_for(pass_rows(s, r, auth, cat), remaining_ids(active_pairs(s), r)).len() && 0 <= m2
                < crate::store::rows_for(pass_rows(s, r, auth, cat), remaining_ids(active_pairs(s), r)).len()
                && (#[trigger] crate::store::rows_for(pass_rows(s, r, auth, cat), remaining_ids(active_pairs(s), r))[m1]).deal_id
                == id && (#[trigger] crate::store::rows_for(pass_rows(s, r, auth, cat), remaining_ids(active_pairs(s), r))[m2]).deal_id
                == id ==> m1 == m2,
{
    let t = pass_rows(s, r, auth, cat);
    let i0 = row_index(s, id);
    let ids = remaining_ids(active_pairs(s), r);
    lemma_row_index(s, id);
    lemma_pass_rows(s, r, auth, cat);
    lemma_active_pairs(s);
    lemma_remaining_ids(active_pairs(s), r);
    let j = choose|j: int| 0 <= j < active_pairs(s).len() && #[trigger] active_pairs(s)[j] == (#[trigger] s[i0].deal_id, s[i0].days_limit);
    assert(active_pairs(s)[j].0 == id);
    assert(ids.contains(id));
    lemma_find_row_again(s, t, id);
    lemma_rows_for(t, ids, id);
    lemma_active_pairs_distinct(s);
    lemma_remaining_distinct(active_pairs(s), r);
    lemma_rows_for_once(t, ids, id);
}

/// Once a pass has completed a deal, the next pass cannot complete it
/// again, whatever it lists: the deal is in one completed batch only.
pub proof fn lemma_completed_not_again(
    s: Seq<DealData>,
    r1: Seq<DealView>,
    auth1: bool,
    cat1: Seq<DealForAdd>,
    r2: Seq<DealView>,
    id: u64,
)
    requires
        unique_ids(s),
        has_row(s, id),
        !s[row_index(s, id)].transfer_completed,
        !remote_has(r1, id),
    ensures
        !remaining_ids(active_pairs(pass_rows(s, r1, auth1, cat1)), r2).contains(id),
{
    let s1 = pass_rows(s, r1, auth1, cat1);
    let i0 = row_index(s, id);
    let a = active_pairs(s1);
    lemma_row_index(s, id);
    lemma_pass_rows(s, r1, auth1, cat1);
    lemma_active_pairs(s1);
    lemma_remaining_ids(a, r2);
    lemma_creates_only_absent(s, r1, auth1, cat1);
    if remaining_ids(a, r2).contains(id) {
        let j = choose|j: int| 0 <= j < a.len() && #[trigger] a[j].0 == id;
        let i = choose|i: int| 0 <= i < s1.len() && !s1[i].transfer_completed && #[trigger] a[j] == (s1[i].deal_id, s1[i].days_limit);
        if i < s.len() {
            assert(s1[i] == final_row(s[i], r1));
            assert(s[i].deal_id == id);
            assert(i == i0);
        } else {
            let m = i - s.len();
            let created = created_records(new_candidates(r1, s), auth1, cat1);
            assert(s1[s.len() + m] == row_of(created[m]));
            assert(!has_row(s, created[m].deal_id));
        }
    }
}

/// The rows handed back for a list of ids: those of a given id are that
/// id's row, which is there when the id is listed and has a row.
proof fn lemma_rows_for(rows: Seq<DealData>, ids: Seq<u64>, id: u64)
    ensures
        forall|m: int|
            0 <= m < crate::store::rows_for(rows, ids).len() && (#[trigger] crate::store::rows_for(rows, ids)[m]).deal_id == id
                ==> crate::store::rows_for(rows, ids)[m] == rows[row_index(rows, id)],
        ids.contains(id) && has_row(rows, id) ==> crate::store::rows_for(rows, ids).contains(rows[row_index(rows, id)]),
    decreases ids.len(),
{
    if ids.len() > 0 {
        let q = ids.drop_last();
        lemma_rows_for(rows, q, id);
        let a = crate::store::rows_for(rows, ids);
        let b = crate::store::rows_for(rows, q);
        let x = ids.last();
        if has_row(rows, x) {
            lemma_row_index(rows, x);
        }
        assert forall|m: int| 0 <= m < a.len() && (#[trigger] a[m]).deal_id == id implies a[m] == rows[row_index(rows, id)] by {
            if m < b.len() {
                assert(a[m] == b[m]);
            } else {
                assert(x == id);
            }
        }
        if ids.contains(id) && has_row(rows, id) {
            if q.contains(id) {
                let k = choose|k: int| 0 <= k < b.len() && b[k] == rows[row_index(rows, id)];
                assert(a[k] == b[k]);
            } else {
                let t = choose|t: int| 0 <= t < ids.len() && ids[t] == id;
                if t < q.len() {
                    assert(q[t] == id);
                }
                assert(a[a.len() - 1] == rows[row_index(rows, id)]);
            }
        }
    }
}

/// An active deal that is listed takes the days limit of its first
/// candidate; the pass writes that limit once where it differs, and not
/// at all where it does not.
pub proof fn lemma_days_limit_converges(s: Seq<DealData>, r: Seq<DealView>, auth: bool, cat: Seq<DealForAdd>, id: u64)
    requires
        unique_ids(s),
        has_row(s, id),
        !s[row_index(s, id)].transfer_completed,
        remote_has(r, id),
    ensures
        pass_rows(s, r, auth, cat)[row_index(s, id)].days_limit == first_limit(r, id),
        s[row_index(s, id)].days_limit != first_limit(r, id) ==> limit_changes(r, s).contains((id, first_limit(r, id))),
        s[row_index(s, id)].days_limit == first_limit(r, id) ==> forall|m: int|
            0 <= m < limit_changes(r, s).len() ==> (#[trigger] limit_changes(r, s)[m]).0 != id,
        forall|m1: int, m2: int|
            0 <= m1 < limit_changes(r, s).len() && 0 <= m2 < limit_changes(r, s).len() && (#[trigger] limit_changes(r, s)[m1]).0
                == id && (#[trigger] limit_changes(r, s)[m2]).0 == id ==> m1 == m2,
{
    lemma_row_index(s, id);
    lemma_pass_rows(s, r, auth, cat);
    lemma_limit_changes(r, s, id);
}

proof fn lemma_limit_changes(r: Seq<DealView>, s: Seq<DealData>, id: u64)
    requires
        has_row(s, id),
        !s[row_index(s, id)].transfer_completed,
    ensures
        forall|m: int| 0 <= m < limit_changes(r, s).len() ==> remote_has(r, (#[trigger] limit_changes(r, s)[m]).0),
        forall|m: int|
            0 <= m < limit_changes(r, s).len() && (#[trigger] limit_changes(r, s)[m]).0 == id ==> limit_changes(r, s)[m] == (
            id,
            first_limit(r, id),
        ) && s[row_index(s, id)].days_limit != first_limit(r, id),
        remote_has(r, id) && s[row_index(s, id)].days_limit != first_limit(r, id) ==> limit_changes(r, s).contains(
            (id, first_limit(r, id)),
        ),
        forall|m1: int, m2: int|
            0 <= m1 < limit_changes(r, s).len() && 0 <= m2 < limit_changes(r, s).len() && (#[trigger] limit_changes(r, s)[m1]).0
                == id && (#[trigger] limit_changes(r, s)[m2]).0 == id ==> m1 == m2,
    decreases r.len(),
{
    if r.len() > 0 {
        let q = r.drop_last();
        let c = r.last();
        lemma_limit_changes(q, s, id);
        crate::engine::lemma_remote_push(q, c);
        assert(q.push(c) =~= r);
        let a = limit_changes(r, s);
        let b = limit_changes(q, s);
        assert forall|m: int| 0 <= m < a.len() implies remote_has(r, (#[trigger] a[m]).0) by {
            if m < b.len() {
                assert(a[m] == b[m]);
            } else {
                assert(a[m].0 == c.deal_id);
            }
        }
        assert forall|m: int| 0 <= m < a.len() && (#[trigger] a[m]).0 == id implies a[m] == (id, first_limit(r, id))
            && s[row_index(s, id)].days_limit != first_limit(r, id) by {
            if m < b.len() {
                assert(a[m] == b[m]);
                assert(remote_has(q, id));
            } else {
                assert(c.deal_id == id);
            }
        }
        if remote_has(r, id) && s[row_index(s, id)].days_limit != first_limit(r, id) {
            if remote_has(q, id) {
                let k = choose|k: int| 0 <= k < b.len() && b[k] == (id, first_limit(q, id));
                assert(a[k] == b[k]);
            } else {
                assert(c.deal_id == id);
                assert(a[a.len() - 1] == (id, first_limit(r, id)));
            }
        }
        assert forall|m1: int, m2: int|
            0 <= m1 < a.len() && 0 <= m2 < a.len() && (#[trigger] a[m1]).0 == id && (#[trigger] a[m2]).0 == id implies m1 == m2 by {
            if m1 < b.len() && m2 >= b.len() {
                assert(a[m1] == b[m1]);
                assert(remote_has(q, id));
            }
            if m2 < b.len() && m1 >= b.len() {
                assert(a[m2] == b[m2]);
                assert(remote_has(q, id));
            }
            if m1 < b.len() && m2 < b.len() {
                assert(a[m1] == b[m1]);
                assert(a[m2] == b[m2]);
            }
        }
    }
}

} // verus!
