//! The local record of deals: one row per deal id, never deleted, only
//! flagged as completed.
use vstd::prelude::*;
use crate::error::Error;
use crate::find::{first_index, lemma_first_index, lemma_first_index_is};
use crate::profit::DealForAdd;

verus! {

/// A stored deal.
#[derive(Debug, Clone)]
pub struct DealData {
    pub deal_id: u64,
    pub project: String,
    pub house: i32,
    pub object_type: String,
    pub object: i32,
    pub facing: String,
    pub days_limit: i32,
    pub transfer_completed: bool,
    pub created_on: i64,
}

pub open spec fn with_limit(r: DealData, v: i32) -> DealData {
    DealData { days_limit: v, ..r }
}

pub open spec fn with_flag(r: DealData, c: bool) -> DealData {
    DealData { transfer_completed: c, ..r }
}

/// The row a fresh record becomes: active.
pub open spec fn row_of(d: DealForAdd) -> DealData {
    DealData {
        deal_id: d.deal_id,
        project: d.project,
        house: d.house,
        object_type: d.object_type,
        object: d.object,
        facing: d.facing,
        days_limit: d.days_limit,
        transfer_completed: false,
        created_on: d.created_on,
    }
}

pub open spec fn has_row(rows: Seq<DealData>, id: u64) -> bool {
    exists|i: int| 0 <= i < rows.len() && #[trigger] rows[i].deal_id == id
}

pub open spec fn id_is(id: u64) -> spec_fn(DealData) -> bool {
    |r: DealData| r.deal_id == id
}

/// Index of the row of deal `id`.
pub open spec fn row_index(rows: Seq<DealData>, id: u64) -> int {
    first_index(rows, id_is(id))
}

pub open spec fn unique_ids(rows: Seq<DealData>) -> bool {
    forall|i: int, j: int|
        0 <= i < rows.len() && 0 <= j < rows.len() && i != j ==> #[trigger] rows[i].deal_id != #[trigger] rows[j].deal_id
}

/// The (id, days limit) pairs of the active rows, in row order.
pub open spec fn active_pairs(rows: Seq<DealData>) -> Seq<(u64, i32)>
    decreases rows.len(),
{
    if rows.len() == 0 {
        Seq::empty()
    } else if rows.last().transfer_completed {
        active_pairs(rows.drop_last())
    } else {
        active_pairs(rows.drop_last()).push((rows.last().deal_id, rows.last().days_limit))
    }
}

/// The rows of the given ids, in the order of the ids; ids without a row
/// are passed over.
pub open spec fn rows_for(rows: Seq<DealData>, ids: Seq<u64>) -> Seq<DealData>
    decreases ids.len(),
{
    if ids.len() == 0 {
        Seq::empty()
    } else if has_row(rows, ids.last()) {
        rows_for(rows, ids.drop_last()).push(rows[row_index(rows, ids.last())])
    } else {
        rows_for(rows, ids.drop_last())
    }
}

pub proof fn lemma_row_index(rows: Seq<DealData>, id: u64)
    requires
        has_row(rows, id),
    ensures
        0 <= row_index(rows, id) < rows.len(),
        rows[row_index(rows, id)].deal_id == id,
        unique_ids(rows) ==> forall|i: int| 0 <= i < rows.len() && #[trigger] rows[i].deal_id == id ==> i == row_index(rows, id),
{
    lemma_first_index(rows, id_is(id));
    let i = choose|i: int| 0 <= i < rows.len() && #[trigger] rows[i].deal_id == id;
    assert(id_is(id)(rows[i]));
}

/// Each active-pair entry comes from an active row, and each active row
/// gives an entry.
pub proof fn lemma_active_pairs(rows: Seq<DealData>)
    ensures
        forall|j: int|
            0 <= j < active_pairs(rows).len() ==> exists|i: int|
                0 <= i < rows.len() && !rows[i].transfer_completed && #[trigger] active_pairs(rows)[j] == (
                rows[i].deal_id,
                rows[i].days_limit,
            ),
        forall|i: int|
            0 <= i < rows.len() && !rows[i].transfer_completed ==> exists|j: int|
                0 <= j < active_pairs(rows).len() && #[trigger] active_pairs(rows)[j] == (
                #[trigger] rows[i].deal_id,
                rows[i].days_limit,
            ),
    decreases rows.len(),
{
    if rows.len() > 0 {
        let p = rows.drop_last();
        lemma_active_pairs(p);
        let a = active_pairs(rows);
        let b = active_pairs(p);
        assert forall|j: int| 0 <= j < a.len() implies exists|i: int|
            0 <= i < rows.len() && !rows[i].transfer_completed && #[trigger] a[j] == (rows[i].deal_id, rows[i].days_limit) by {
            if j < b.len() {
                assert(a[j] == b[j]);
                let i = choose|i: int| 0 <= i < p.len() && !p[i].transfer_completed && #[trigger] b[j] == (p[i].deal_id, p[i].days_limit);
                assert(rows[i] == p[i]);
            } else {
                assert(a[j] == (rows[rows.len() - 1].deal_id, rows[rows.len() - 1].days_limit));
            }
        }
        assert forall|i: int| 0 <= i < rows.len() && !rows[i].transfer_completed implies exists|j: int|
            0 <= j < a.len() && #[trigger] a[j] == (#[trigger] rows[i].deal_id, rows[i].days_limit) by {
            if i < p.len() {
                assert(rows[i] == p[i]);
                assert(p[i].deal_id == rows[i].deal_id);
                let j = choose|j: int| 0 <= j < b.len() && #[trigger] b[j] == (#[trigger] p[i].deal_id, p[i].days_limit);
                assert(a[j] == b[j]);
            } else {
                assert(a[a.len() - 1] == (rows[i].deal_id, rows[i].days_limit));
            }
        }
    }
}

impl DealData {
    /// A copy with the given days limit and completion flag.
    pub fn with_state(&self, days_limit: i32, completed: bool) -> (r: DealData)
        ensures
            r == (DealData { days_limit, transfer_completed: completed, ..*self }),
    {
        DealData {
            deal_id: self.deal_id,
            project: self.project.clone(),
            house: self.house,
            object_type: self.object_type.clone(),
            object: self.object,
            facing: self.facing.clone(),
            days_limit,
            transfer_completed: completed,
            created_on: self.created_on,
        }
    }
}

/// A house number, as the lookup lists them.
#[derive(Debug, Clone, Copy)]
pub struct HouseNumbers {
    pub house: i32,
}

/// A unit number, as the lookup lists them.
#[derive(Debug, Clone, Copy)]
pub struct ObjectNumbers {
    pub object: i32,
}

/// Deals kept in memory, one row per deal id.
#[derive(Debug, Clone)]
pub struct DealStore {
    pub rows: Vec<DealData>,
}

impl DealStore {
    pub open spec fn wf(&self) -> bool {
        unique_ids(self.rows@)
    }

    pub fn new() -> (r: DealStore)
        ensures
            r.rows@.len() == 0,
            r.wf(),
    {
        DealStore { rows: Vec::new() }
    }

    /// Index of the row of deal `id`, or the count of rows.
    fn find(&self, id: u64) -> (r: usize)
        ensures
            r == row_index(self.rows@, id),
            r < self.rows@.len() <==> has_row(self.rows@, id),
    {
        let mut i: usize = 0;
        while i < self.rows.len()
            invariant
                i <= self.rows.len(),
                forall|j: int| 0 <= j < i ==> !id_is(id)(#[trigger] self.rows@[j]),
            decreases self.rows.len() - i,
        {
            if self.rows[i].deal_id == id {
                proof {
                    lemma_first_index_is(self.rows@, id_is(id), i as int);
                }
                return i;
            }
            i = i + 1;
        }
        proof {
            lemma_first_index_is(self.rows@, id_is(id), i as int);
            if has_row(self.rows@, id) {
                let k = choose|k: int| 0 <= k < self.rows@.len() && #[trigger] self.rows@[k].deal_id == id;
                assert(!id_is(id)(self.rows@[k]));
            }
        }
        i
    }

    /// The ids and days limits of the active deals, in row order.
    pub fn read_active_ids(&self) -> (r: Vec<(u64, i32)>)
        ensures
            r@ == active_pairs(self.rows@),
    {
        let mut out: Vec<(u64, i32)> = Vec::new();
        let mut i: usize = 0;
        while i < self.rows.len()
            invariant
                i <= self.rows.len(),
                out@ == active_pairs(self.rows@.subrange(0, i as int)),
            decreases self.rows.len() - i,
        {
            proof {
                assert(self.rows@.subrange(0, i + 1).drop_last() =~= self.rows@.subrange(0, i as int));
            }
            if !self.rows[i].transfer_completed {
                out.push((self.rows[i].deal_id, self.rows[i].days_limit));
            }
            i = i + 1;
        }
        proof {
            assert(self.rows@.subrange(0, i as int) =~= self.rows@);
        }
        out
    }

    /// Adds a fresh record as an active row; refuses a deal id that has a
    /// row already.
    pub fn create(&mut self, record: DealForAdd) -> (r: Result<(), Error>)
        requires
            old(self).wf(),
        ensures
            final(self).wf(),
            has_row(old(self).rows@, record.deal_id) ==> final(self).rows@ == old(self).rows@ && (r matches Err(
                Error::PersistenceFailed { deal_id: id, .. },
            ) && id == record.deal_id),
            !has_row(old(self).rows@, record.deal_id) ==> final(self).rows@ == old(self).rows@.push(row_of(record)) && r is Ok,
    {
        let k = self.find(record.deal_id);
        if k < self.rows.len() {
            return Err(Error::PersistenceFailed { deal_id: record.deal_id, detail: String::from_str("duplicate deal") });
        }
        let row = DealData {
            deal_id: record.deal_id,
            project: record.project,
            house: record.house,
            object_type: record.object_type,
            object: record.object,
            facing: record.facing,
            days_limit: record.days_limit,
            transfer_completed: false,
            created_on: record.created_on,
        };
        self.rows.push(row);
        proof {
            assert forall|i: int, j: int|
                0 <= i < self.rows@.len() && 0 <= j < self.rows@.len() && i != j implies #[trigger] self.rows@[i].deal_id
                != #[trigger] self.rows@[j].deal_id by {
                if i == self.rows@.len() - 1 {
                    assert(old(self).rows@[j].deal_id == self.rows@[j].deal_id);
                } else if j == self.rows@.len() - 1 {
                    assert(old(self).rows@[i].deal_id == self.rows@[i].deal_id);
                }
            }
        }
        Ok(())
    }

    /// Sets the days limit of deal `deal_id`.
    pub fn set_days_limit(&mut self, deal_id: u64, days_limit: i32)
        requires
            old(self).wf(),
        ensures
            final(self).wf(),
            final(self).rows@.len() == old(self).rows@.len(),
            forall|i: int|
                0 <= i < old(self).rows@.len() ==> #[trigger] final(self).rows@[i] == if old(self).rows@[i].deal_id == deal_id {
                    with_limit(old(self).rows@[i], days_limit)
                } else {
                    old(self).rows@[i]
                },
    {
        let k = self.find(deal_id);
        if k < self.rows.len() {
            let row = self.rows[k].with_state(days_limit, self.rows[k].transfer_completed);
            self.rows.set(k, row);
            proof {
                lemma_row_index(old(self).rows@, deal_id);
                assert(forall|i: int| 0 <= i < self.rows@.len() ==> #[trigger] self.rows@[i].deal_id == old(self).rows@[i].deal_id);
            }
        } else {
            proof {
                assert forall|i: int| 0 <= i < old(self).rows@.len() implies old(self).rows@[i].deal_id != deal_id by {
                    if old(self).rows@[i].deal_id == deal_id {
                        assert(has_row(old(self).rows@, deal_id));
                    }
                }
            }
        }
    }

    /// Makes a completed deal active again: true where deal `deal_id` had a
    /// completed row, false where it had no row or an active one.
    pub fn mark_not_completed(&mut self, deal_id: u64) -> (r: bool)
        requires
            old(self).wf(),
        ensures
            final(self).wf(),
            r == (has_row(old(self).rows@, deal_id) && old(self).rows@[row_index(old(self).rows@, deal_id)].transfer_completed),
            final(self).rows@.len() == old(self).rows@.len(),
            forall|i: int|
                0 <= i < old(self).rows@.len() ==> #[trigger] final(self).rows@[i] == if old(self).rows@[i].deal_id == deal_id {
                    with_flag(old(self).rows@[i], false)
                } else {
                    old(self).rows@[i]
                },
    {
        let k = self.find(deal_id);
        if k < self.rows.len() {
            let was = self.rows[k].transfer_completed;
            let row = self.rows[k].with_state(self.rows[k].days_limit, false);
            self.rows.set(k, row);
            proof {
                lemma_row_index(old(self).rows@, deal_id);
                assert(forall|i: int| 0 <= i < self.rows@.len() ==> #[trigger] self.rows@[i].deal_id == old(self).rows@[i].deal_id);
            }
            was
        } else {
            proof {
                assert forall|i: int| 0 <= i < old(self).rows@.len() implies old(self).rows@[i].deal_id != deal_id by {
                    if old(self).rows@[i].deal_id == deal_id {
                        assert(has_row(old(self).rows@, deal_id));
                    }
                }
            }
            false
        }
    }

    /// Flags the deals of `ids` as completed and hands back their rows, in
    /// the order of `ids`; already completed rows stay as they are.
    pub fn mark_completed(&mut self, ids: &Vec<u64>) -> (r: Vec<DealData>)
        requires
            old(self).wf(),
        ensures
            final(self).wf(),
            final(self).rows@.len() == old(self).rows@.len(),
            forall|i: int|
                0 <= i < old(self).rows@.len() ==> #[trigger] final(self).rows@[i] == if ids@.contains(old(self).rows@[i].deal_id) {
                    with_flag(old(self).rows@[i], true)
                } else {
                    old(self).rows@[i]
                },
            r@ == rows_for(final(self).rows@, ids@),
    {
        let mut k: usize = 0;
        while k < ids.len()
            invariant
                k <= ids.len(),
                self.wf(),
                self.rows@.len() == old(self).rows@.len(),
                forall|i: int|
                    0 <= i < old(self).rows@.len() ==> #[trigger] self.rows@[i] == if ids@.subrange(0, k as int).contains(old(self).rows@[i].deal_id) {
                        with_flag(old(self).rows@[i], true)
                    } else {
                        old(self).rows@[i]
                    },
            decreases ids.len() - k,
        {
            let ghost before = self.rows@;
            let id = ids[k];
            let j = self.find(id);
            if j < self.rows.len() {
                let row = self.rows[j].with_state(self.rows[j].days_limit, true);
                self.rows.set(j, row);
                proof {
                    lemma_row_index(before, id);
                }
            }
            proof {
                assert(ids@.subrange(0, k + 1) =~= ids@.subrange(0, k as int).push(id));
                if has_row(before, id) {
                    lemma_row_index(before, id);
                }
                assert forall|i: int| 0 <= i < old(self).rows@.len() implies #[trigger] self.rows@[i] == if ids@.subrange(0, k + 1).contains(old(self).rows@[i].deal_id) {
                    with_flag(old(self).rows@[i], true)
                } else {
                    old(self).rows@[i]
                } by {
                    let x = old(self).rows@[i].deal_id;
                    assert(before[i].deal_id == x);
                    if x == id {
                        assert(has_row(before, id));
                        assert(i == row_index(before, id));
                        assert(self.rows@[i] == with_flag(before[i], true));
                        assert(ids@.subrange(0, k + 1)[k as int] == id);
                    } else {
                        assert(self.rows@[i] == before[i]);
                        if ids@.subrange(0, k + 1).contains(x) {
                            let t = choose|t: int| 0 <= t < k + 1 && #[trigger] ids@.subrange(0, k + 1)[t] == x;
                            assert(ids@.subrange(0, k as int)[t] == x);
                        }
                        if ids@.subrange(0, k as int).contains(x) {
                            let t = choose|t: int| 0 <= t < k && #[trigger] ids@.subrange(0, k as int)[t] == x;
                            assert(ids@.subrange(0, k + 1)[t] == x);
                        }
                    }
                }
                assert forall|a: int, b: int|
                    0 <= a < self.rows@.len() && 0 <= b < self.rows@.len() && a != b implies #[trigger] self.rows@[a].deal_id
                    != #[trigger] self.rows@[b].deal_id by {
                    assert(self.rows@[a].deal_id == before[a].deal_id);
                    assert(self.rows@[b].deal_id == before[b].deal_id);
                }
            }
            k = k + 1;
        }
        proof {
            assert(ids@.subrange(0, k as int) =~= ids@);
        }
        let mut out: Vec<DealData> = Vec::new();
        let mut k: usize = 0;
        while k < ids.len()
            invariant
                k <= ids.len(),
                out@ == rows_for(self.rows@, ids@.subrange(0, k as int)),
            decreases ids.len() - k,
        {
            proof {
                assert(ids@.subrange(0, k + 1).drop_last() =~= ids@.subrange(0, k as int));
            }
            let j = self.find(ids[k]);
            if j < self.rows.len() {
                out.push(self.rows[j].with_state(self.rows[j].days_limit, self.rows[j].transfer_completed));
            }
            k = k + 1;
        }
        proof {
            assert(ids@.subrange(0, k as int) =~= ids@);
        }
        out
    }
}

} // verus!
