use dkp_bot::amo::{Deal, CITY_PROJECT, FORMAT_PROJECT};
use dkp_bot::engine::{classify, remaining, run_pass, Transition};
use dkp_bot::error::Error;
use dkp_bot::profit::DealForAdd;
use dkp_bot::store::{DealData, DealStore};

fn cand(id: u64, days: i32) -> Deal {
    Deal { deal_id: id, days_limit: days, project: CITY_PROJECT.to_string() }
}

fn detail(id: u64, object: i32) -> DealForAdd {
    DealForAdd {
        deal_id: id,
        project: CITY_PROJECT.to_string(),
        house: 2,
        object_type: "property".to_string(),
        object,
        facing: "clean".to_string(),
        days_limit: 30,
        created_on: 1741754280,
    }
}

fn row<'a>(store: &'a DealStore, id: u64) -> &'a DealData {
    store.rows.iter().find(|r| r.deal_id == id).unwrap()
}

const A: u64 = 101;
const B: u64 = 202;

#[test]
fn three_pass_scenario() {
    let mut store = DealStore::new();
    let catalog = vec![detail(A, 1), detail(B, 2)];

    let r1 = run_pass(&mut store, &vec![cand(A, 30), cand(B, 45)], true, &catalog);
    assert_eq!(r1.new_batch.iter().map(|d| (d.deal_id, d.days_limit)).collect::<Vec<_>>(), vec![(A, 30), (B, 45)]);
    assert!(r1.completed_batch.is_empty());
    assert!(r1.authenticated);
    let mut active = store.read_active_ids();
    active.sort();
    assert_eq!(active, vec![(A, 30), (B, 45)]);

    let r2 = run_pass(&mut store, &vec![cand(A, 30)], true, &catalog);
    assert!(r2.new_batch.is_empty());
    assert_eq!(r2.completed_batch.iter().map(|d| d.deal_id).collect::<Vec<_>>(), vec![B]);
    assert!(r2.completed_batch[0].transfer_completed);
    assert!(r2.limit_updates.is_empty());
    assert!(!r2.authenticated);
    assert!(row(&store, B).transfer_completed);
    assert!(!row(&store, A).transfer_completed);

    let r3 = run_pass(&mut store, &vec![cand(A, 30), cand(B, 45)], true, &catalog);
    assert_eq!(r3.returned, vec![B]);
    assert!(r3.enrichment_requests.is_empty());
    assert!(!r3.authenticated);
    assert!(r3.new_batch.is_empty());
    assert!(r3.completed_batch.is_empty());
    assert!(!row(&store, B).transfer_completed);
    assert_eq!(store.rows.len(), 2);
}

#[test]
fn unchanged_remote_list_is_idempotent() {
    let mut store = DealStore::new();
    let catalog = vec![detail(A, 1), detail(B, 2)];
    let remote = vec![cand(A, 30), cand(B, 45)];
    let first = run_pass(&mut store, &remote, true, &catalog);
    assert!(first.failures.is_empty());
    let second = run_pass(&mut store, &remote, true, &catalog);
    assert!(second.new_batch.is_empty());
    assert!(second.completed_batch.is_empty());
    assert!(second.limit_updates.is_empty());
    assert!(second.enrichment_requests.is_empty());
}

#[test]
fn never_created_twice() {
    let mut store = DealStore::new();
    let catalog = vec![detail(A, 1)];
    let mut created = 0;
    for _ in 0..4 {
        let r = run_pass(&mut store, &vec![cand(A, 30), cand(A, 30)], true, &catalog);
        created += r.new_batch.len();
    }
    assert_eq!(created, 1);
    assert_eq!(store.rows.len(), 1);
}

#[test]
fn completed_row_keeps_its_fields() {
    let mut store = DealStore::new();
    run_pass(&mut store, &vec![cand(A, 30)], true, &vec![detail(A, 7)]);
    let before = row(&store, A).clone();
    let r = run_pass(&mut store, &vec![], true, &vec![]);
    assert_eq!(r.completed_batch.len(), 1);
    let done = &r.completed_batch[0];
    assert!(done.transfer_completed);
    assert_eq!(
        (done.deal_id, done.project.as_str(), done.house, done.object, done.facing.as_str(), done.days_limit, done.created_on),
        (before.deal_id, before.project.as_str(), before.house, before.object, before.facing.as_str(), before.days_limit, before.created_on)
    );
    let again = run_pass(&mut store, &vec![], true, &vec![]);
    assert!(again.completed_batch.is_empty());
}

#[test]
fn days_limit_converges_with_one_write() {
    let mut store = DealStore::new();
    run_pass(&mut store, &vec![cand(A, 30)], true, &vec![detail(A, 1)]);
    let r = run_pass(&mut store, &vec![cand(A, 50), cand(A, 70)], true, &vec![]);
    assert_eq!(r.limit_updates, vec![(A, 50)]);
    assert_eq!(row(&store, A).days_limit, 50);
    let r = run_pass(&mut store, &vec![cand(A, 50)], true, &vec![]);
    assert!(r.limit_updates.is_empty());
}

#[test]
fn failed_token_exchange_blocks_new_deals_only() {
    let mut store = DealStore::new();
    run_pass(&mut store, &vec![cand(A, 30)], true, &vec![detail(A, 1)]);
    let r = run_pass(&mut store, &vec![cand(A, 40), cand(B, 45)], false, &vec![detail(B, 2)]);
    assert!(r.authenticated);
    assert!(r.new_batch.is_empty());
    assert_eq!(r.failures.len(), 1);
    assert!(matches!(r.failures[0], Error::EnrichmentAuthFailed(_)));
    assert_eq!(r.limit_updates, vec![(A, 40)]);
    assert_eq!(store.rows.len(), 1);
    let retry = run_pass(&mut store, &vec![cand(A, 40), cand(B, 45)], true, &vec![detail(B, 2)]);
    assert_eq!(retry.new_batch.len(), 1);
    assert_eq!(retry.new_batch[0].deal_id, B);
}

#[test]
fn missing_detail_is_isolated_to_its_deal() {
    let mut store = DealStore::new();
    let r = run_pass(&mut store, &vec![cand(A, 30), cand(B, 45)], true, &vec![detail(B, 2)]);
    assert_eq!(r.enrichment_requests, vec![A, B]);
    assert_eq!(r.failures.len(), 1);
    assert!(matches!(r.failures[0], Error::EnrichmentDataFailed { deal_id: A, .. }));
    assert_eq!(r.new_batch.iter().map(|d| d.deal_id).collect::<Vec<_>>(), vec![B]);
}

#[test]
fn duplicate_create_is_refused() {
    let mut store = DealStore::new();
    assert!(store.create(detail(A, 1)).is_ok());
    assert!(matches!(store.create(detail(A, 2)), Err(Error::PersistenceFailed { deal_id: A, .. })));
    assert_eq!(store.rows.len(), 1);
}

#[test]
fn store_flags_and_limits() {
    let mut store = DealStore::new();
    store.create(detail(A, 1)).unwrap();
    assert!(!store.mark_not_completed(A));
    assert!(!store.mark_not_completed(B));
    let done = store.mark_completed(&vec![A, B]);
    assert_eq!(done.len(), 1);
    let again = store.mark_completed(&vec![A]);
    assert_eq!(again.len(), 1);
    assert!(store.read_active_ids().is_empty());
    assert!(store.mark_not_completed(A));
    store.set_days_limit(A, 12);
    assert_eq!(store.read_active_ids(), vec![(A, 12)]);
}

#[test]
fn classification_of_candidates() {
    let remote = vec![cand(A, 30), cand(B, 45), cand(A, 10), Deal { deal_id: 7, days_limit: 5, project: FORMAT_PROJECT.to_string() }];
    let active = vec![(A, 30), (B, 40), (9, 1)];
    assert_eq!(classify(&remote, 0, &active), Transition::Unchanged);
    assert_eq!(classify(&remote, 1, &active), Transition::LimitChanged);
    assert_eq!(classify(&remote, 2, &active), Transition::Repeated);
    assert_eq!(classify(&remote, 3, &active), Transition::Unseen);
    assert_eq!(remaining(&active, &remote), vec![9]);
}
