use delegation_relay::classify::{
    LookupOutcome, classify_block, distinct_block_numbers, tx_check_ready_delegations,
};
use delegation_relay::delegation::{BlockStatus, DelegationRow};
use delegation_relay::orchestrator::{apply_pass_outcome, batch_all_ok};
use delegation_relay::store::DelegationStore;
use delegation_relay::submission::SubmissionOutcome;

fn row(block_number: u64, delegation_counter: u64, block_hash: Vec<u8>) -> DelegationRow {
    DelegationRow {
        delegator: vec![0x11; 20],
        delegate: vec![0x22; 20],
        contract_address: vec![0x33; 20],
        delegation_counter,
        old_expiry_date: 0,
        expiry_date: 1_000_000,
        host_chain_id: 31337,
        block_hash,
        block_number,
        transaction_id: None,
    }
}

#[test]
fn matching_live_hash_is_stable() {
    let status = classify_block(&vec![0xaa, 0xbb], &LookupOutcome::Hash(vec![0xaa, 0xbb]));
    assert_eq!(status, BlockStatus::Stable);
}

#[test]
fn differing_live_hash_is_dismissed() {
    let status = classify_block(&vec![0xaa, 0xbb], &LookupOutcome::Hash(vec![0xaa, 0xcc]));
    assert_eq!(status, BlockStatus::Dismissed);
}

#[test]
fn failed_lookup_is_unknown() {
    let status = classify_block(&vec![0xaa, 0xbb], &LookupOutcome::Failed);
    assert_eq!(status, BlockStatus::Unknown);
}

#[test]
fn distinct_heights_are_queried_once() {
    let rows = vec![
        row(100, 1, vec![1]),
        row(100, 2, vec![1]),
        row(101, 1, vec![2]),
        row(100, 3, vec![1]),
    ];
    let mut heights = distinct_block_numbers(&rows);
    heights.sort();
    assert_eq!(heights, vec![100, 101]);
}

#[test]
fn partition_splits_by_status() {
    // Height 100 is canonical, height 101 was reorged out, height 102 errors.
    let rows = vec![
        row(100, 1, vec![0x0a]),
        row(101, 1, vec![0x0b]),
        row(102, 1, vec![0x0c]),
    ];
    let lookups = vec![
        (100u64, LookupOutcome::Hash(vec![0x0a])),
        (101u64, LookupOutcome::Hash(vec![0xee])),
        (102u64, LookupOutcome::Failed),
    ];
    let (stable, handled) = tx_check_ready_delegations(&rows, &lookups);
    assert_eq!(stable.len(), 1);
    assert_eq!(stable[0].block_number, 100);
    // Both the Stable and the Dismissed hash are slated for deletion; the
    // Unknown one is not.
    assert_eq!(handled, vec![vec![0x0a], vec![0x0b]]);
}

#[test]
fn fetch_returns_rows_in_order() {
    // Rows inserted out of order come back ordered by (height, counter).
    let mut store = DelegationStore::new();
    store.insert_row(row(101, 1, vec![3]));
    store.insert_row(row(100, 2, vec![2]));
    store.insert_row(row(100, 1, vec![1]));
    let fetched = store.delayed_sorted_delegation(101);
    assert_eq!(fetched.len(), 3);
    assert_eq!((fetched[0].block_number, fetched[0].delegation_counter), (100, 1));
    assert_eq!((fetched[1].block_number, fetched[1].delegation_counter), (100, 2));
    assert_eq!((fetched[2].block_number, fetched[2].delegation_counter), (101, 1));
}

#[test]
fn fetch_orders_transaction_ids_with_none_last() {
    let mut store = DelegationStore::new();
    let mut a = row(100, 1, vec![1]);
    a.transaction_id = None;
    let mut b = row(100, 1, vec![1]);
    b.transaction_id = Some(vec![9]);
    let mut c = row(100, 1, vec![1]);
    c.transaction_id = Some(vec![2]);
    store.insert_row(a);
    store.insert_row(b);
    store.insert_row(c);
    let fetched = store.delayed_sorted_delegation(100);
    assert_eq!(fetched[0].transaction_id, Some(vec![2]));
    assert_eq!(fetched[1].transaction_id, Some(vec![9]));
    assert_eq!(fetched[2].transaction_id, None);
}

#[test]
fn fetch_excludes_rows_above_threshold() {
    let mut store = DelegationStore::new();
    store.insert_row(row(100, 1, vec![1]));
    store.insert_row(row(200, 1, vec![2]));
    let fetched = store.delayed_sorted_delegation(150);
    assert_eq!(fetched.len(), 1);
    assert_eq!(fetched[0].block_number, 100);
}

#[test]
fn clean_deletes_exactly_the_named_hashes() {
    let mut store = DelegationStore::new();
    store.insert_row(row(100, 1, vec![1]));
    store.insert_row(row(100, 2, vec![1]));
    store.insert_row(row(101, 1, vec![2]));
    store.clean_delegation(&vec![vec![1]]);
    assert_eq!(store.rows.len(), 1);
    assert_eq!(store.rows[0].block_hash, vec![2]);
}

#[test]
fn batch_with_only_successes_is_ok() {
    let outcomes = vec![SubmissionOutcome::Success, SubmissionOutcome::AlreadyApplied];
    assert!(batch_all_ok(&outcomes));
}

#[test]
fn one_failure_rolls_back_all_deletions() {
    // Three Stable candidates went out concurrently; one failed. None of
    // the three anchoring hashes may be deleted.
    let mut store = DelegationStore::new();
    store.insert_row(row(100, 1, vec![1]));
    store.insert_row(row(100, 2, vec![2]));
    store.insert_row(row(100, 3, vec![3]));
    let handled = vec![vec![1], vec![2], vec![3]];
    let outcomes = vec![
        SubmissionOutcome::Success,
        SubmissionOutcome::Failed,
        SubmissionOutcome::Success,
    ];
    let committed = apply_pass_outcome(&mut store, &handled, &outcomes, true);
    assert!(!committed);
    assert_eq!(store.rows.len(), 3);
}

#[test]
fn retryable_fault_also_rolls_back() {
    let mut store = DelegationStore::new();
    store.insert_row(row(100, 1, vec![1]));
    let committed = apply_pass_outcome(
        &mut store,
        &vec![vec![1]],
        &vec![SubmissionOutcome::RetryableFault],
        true,
    );
    assert!(!committed);
    assert_eq!(store.rows.len(), 1);
}

#[test]
fn benign_rejection_commits_and_cleans() {
    // A batch absorbed as already-applied commits and is cleaned normally.
    let mut store = DelegationStore::new();
    store.insert_row(row(100, 1, vec![1]));
    let committed = apply_pass_outcome(
        &mut store,
        &vec![vec![1]],
        &vec![SubmissionOutcome::AlreadyApplied],
        true,
    );
    assert!(committed);
    assert_eq!(store.rows.len(), 0);
}

#[test]
fn cleanup_failure_still_commits() {
    let mut store = DelegationStore::new();
    store.insert_row(row(100, 1, vec![1]));
    let committed = apply_pass_outcome(
        &mut store,
        &vec![vec![1]],
        &vec![SubmissionOutcome::Success],
        false,
    );
    assert!(committed);
    // The records stay and are cleaned on a later pass.
    assert_eq!(store.rows.len(), 1);
}

#[test]
fn empty_batch_commits_as_no_op() {
    let mut store = DelegationStore::new();
    let committed = apply_pass_outcome(&mut store, &vec![], &vec![], true);
    assert!(committed);
    assert_eq!(store.rows.len(), 0);
}

#[test]
fn stable_record_is_submitted_and_deleted() {
    // One record at height 100 with hash H; the live hash at 100 is H and
    // the threshold is 100: the record is fetched, submitted, and deleted
    // once its receipt succeeds.
    let hash = vec![0xde, 0xad];
    let mut store = DelegationStore::new();
    store.insert_row(row(100, 1, hash.clone()));
    let fetched = store.delayed_sorted_delegation(100);
    assert_eq!(fetched.len(), 1);
    let lookups = vec![(100u64, LookupOutcome::Hash(hash.clone()))];
    let (stable, handled) = tx_check_ready_delegations(&fetched, &lookups);
    assert_eq!(stable.len(), 1);
    assert_eq!(handled, vec![hash]);
    let outcomes = vec![SubmissionOutcome::Success];
    let committed = apply_pass_outcome(&mut store, &handled, &outcomes, true);
    assert!(committed);
    assert_eq!(store.rows.len(), 0);
}

#[test]
fn reorged_record_is_deleted_without_submission() {
    // One record at height 100 with hash H; the live hash differs: the
    // record is dismissed and deleted, and nothing is submitted.
    let hash = vec![0xde, 0xad];
    let mut store = DelegationStore::new();
    store.insert_row(row(100, 1, hash.clone()));
    let fetched = store.delayed_sorted_delegation(100);
    let lookups = vec![(100u64, LookupOutcome::Hash(vec![0xbe, 0xef]))];
    let (stable, handled) = tx_check_ready_delegations(&fetched, &lookups);
    assert_eq!(stable.len(), 0);
    assert_eq!(handled, vec![hash]);
    let committed = apply_pass_outcome(&mut store, &handled, &vec![], true);
    assert!(committed);
    assert_eq!(store.rows.len(), 0);
}

#[test]
fn records_sharing_a_height_share_its_classification() {
    let rows = vec![row(100, 1, vec![1]), row(100, 2, vec![1])];
    let lookups = vec![(100u64, LookupOutcome::Hash(vec![1]))];
    let (stable, handled) = tx_check_ready_delegations(&rows, &lookups);
    assert_eq!(stable.len(), 2);
    assert_eq!(handled.len(), 2);
}

#[test]
fn failed_cleanup_is_absorbed_on_the_next_pass() {
    // First pass: the grant lands on-chain but the deletion fails; the
    // pass still commits and the record stays queued. Second pass: the
    // contract rejects the duplicate benignly, the batch counts as
    // success, and the record is finally cleaned.
    let hash = vec![4];
    let mut store = DelegationStore::new();
    store.insert_row(row(100, 1, hash.clone()));
    let committed = apply_pass_outcome(
        &mut store,
        &vec![hash.clone()],
        &vec![SubmissionOutcome::Success],
        false,
    );
    assert!(committed);
    assert_eq!(store.rows.len(), 1);

    let fetched = store.delayed_sorted_delegation(100);
    let lookups = vec![(100u64, LookupOutcome::Hash(hash.clone()))];
    let (stable, handled) = tx_check_ready_delegations(&fetched, &lookups);
    assert_eq!(stable.len(), 1);
    let committed = apply_pass_outcome(
        &mut store,
        &handled,
        &vec![SubmissionOutcome::AlreadyApplied],
        true,
    );
    assert!(committed);
    assert_eq!(store.rows.len(), 0);
}

#[test]
fn unknown_record_stays_queued() {
    // The height lookup errors: the record is neither submitted nor
    // deleted, and the next pass sees it again.
    let mut store = DelegationStore::new();
    store.insert_row(row(100, 1, vec![7]));
    let fetched = store.delayed_sorted_delegation(100);
    let lookups = vec![(100u64, LookupOutcome::Failed)];
    let (stable, handled) = tx_check_ready_delegations(&fetched, &lookups);
    assert_eq!(stable.len(), 0);
    assert_eq!(handled.len(), 0);
    let committed = apply_pass_outcome(&mut store, &handled, &vec![], true);
    assert!(committed);
    assert_eq!(store.rows.len(), 1);
}
