//! The batch orchestrator's commit-or-rollback step, and the laws one pass
//! obeys.
//!
//! One pass fetches candidates, classifies them, submits every Stable one,
//! waits for all outcomes, and then takes exactly one of two exits: commit
//! with the deletion applied, or rollback with the queue untouched. The
//! submissions themselves are irrevocable, which is why a benign rejection
//! must count as success: rollback cannot undo an accepted grant, it can
//! only force the whole batch to be retried together.

use vstd::prelude::*;
use crate::classify::{
    LookupOutcome, handled_hashes, hash_models, lookup_for, row_status, stable_models,
};
use crate::delegation::{BlockStatus, DelegationRow, RowModel, models};
use crate::store::{DelegationStore, surviving_models};
use crate::submission::{SubmissionOutcome, outcome_ok};

verus! {

/// Every outcome of the batch counts as success.
pub open spec fn all_ok(os: Seq<SubmissionOutcome>) -> bool {
    forall|i: int| 0 <= i < os.len() ==> outcome_ok(#[trigger] os[i])
}

/// Decides whether every outcome of the batch counts as success.
pub fn batch_all_ok(outcomes: &Vec<SubmissionOutcome>) -> (r: bool)
    ensures
        r == all_ok(outcomes@),
{
    let mut i: usize = 0;
    while i < outcomes.len()
        invariant
            i <= outcomes@.len(),
            forall|j: int| 0 <= j < i ==> outcome_ok(#[trigger] outcomes@[j]),
        decreases outcomes@.len() - i,
    {
        match outcomes[i] {
            SubmissionOutcome::Success => {},
            SubmissionOutcome::AlreadyApplied => {},
            SubmissionOutcome::RetryableFault => {
                return false;
            },
            SubmissionOutcome::Failed => {
                return false;
            },
        }
        i += 1;
    }
    true
}

/// The pass's final step, after all fan-out submissions resolved. When
/// every outcome counts as success, the pass commits: the handled anchoring
/// hashes are deleted from the queue — unless the cleanup itself failed, in
/// which case the pass still commits and leaves the deletion to a later
/// pass. When any outcome is a non-benign failure, the pass rolls back and
/// the queue keeps every record, so the whole batch is retried together.
pub fn apply_pass_outcome(
    store: &mut DelegationStore,
    handled: &Vec<Vec<u8>>,
    outcomes: &Vec<SubmissionOutcome>,
    cleanup_ok: bool,
) -> (committed: bool)
    ensures
        committed == all_ok(outcomes@),
        (all_ok(outcomes@) && cleanup_ok) ==> models(final(store).rows@) == surviving_models(
            old(store).rows@,
            hash_models(handled@),
        ),
        !(all_ok(outcomes@) && cleanup_ok) ==> final(store).rows@ == old(store).rows@,
{
    let ok = batch_all_ok(outcomes);
    if ok && cleanup_ok {
        store.clean_delegation(handled);
    }
    ok
}

/// Atomicity: one non-benign failure among the outcomes fails the whole
/// batch, so the pass rolls back and no anchoring hash of the batch is
/// deleted, however many sibling submissions succeeded on-chain.
pub proof fn lemma_atomic_rollback(os: Seq<SubmissionOutcome>, i: int)
    requires
        0 <= i < os.len(),
        !outcome_ok(os[i]),
    ensures
        !all_ok(os),
{
}

/// Every submission candidate is classified Stable.
pub proof fn lemma_stable_models_are_stable(
    rows: Seq<DelegationRow>,
    lks: Seq<(u64, LookupOutcome)>,
)
    ensures
        forall|m: RowModel|
            stable_models(rows, lks).contains(m) ==> row_status(m, lks) == BlockStatus::Stable,
    decreases rows.len(),
{
    if rows.len() > 0 {
        lemma_stable_models_are_stable(rows.drop_last(), lks);
        let rest = stable_models(rows.drop_last(), lks);
        let s = stable_models(rows, lks);
        assert forall|m: RowModel| s.contains(m) implies row_status(m, lks)
            == BlockStatus::Stable by {
            let k = choose|k: int| 0 <= k < s.len() && s[k] == m;
            if row_status(rows.last()@, lks) == BlockStatus::Stable {
                if k < rest.len() {
                    assert(rest[k] == m);
                    assert(rest.contains(m));
                } else {
                    assert(m == rows.last()@);
                }
            } else {
                assert(rest[k] == m);
                assert(rest.contains(m));
            }
        }
    }
}

/// A record whose model is in a batch and whose status is Stable is among
/// the batch's submission candidates.
pub proof fn lemma_stable_status_is_submitted(
    rows: Seq<DelegationRow>,
    lks: Seq<(u64, LookupOutcome)>,
    m: RowModel,
)
    requires
        models(rows).contains(m),
        row_status(m, lks) == BlockStatus::Stable,
    ensures
        stable_models(rows, lks).contains(m),
    decreases rows.len(),
{
    let k = choose|k: int| 0 <= k < models(rows).len() && models(rows)[k] == m;
    assert(rows[k]@ == m);
    let s = stable_models(rows, lks);
    if k == rows.len() - 1 {
        assert(s[s.len() - 1] == m);
        assert(s.contains(m));
    } else {
        assert(models(rows.drop_last())[k] == rows.drop_last()[k]@);
        assert(models(rows.drop_last()).contains(m));
        lemma_stable_status_is_submitted(rows.drop_last(), lks, m);
        let rest = stable_models(rows.drop_last(), lks);
        let j = choose|j: int| 0 <= j < rest.len() && rest[j] == m;
        assert(s[j] == m);
        assert(s.contains(m));
    }
}

/// No delegation is lost: a queued record anchored at or below the
/// threshold whose block is still canonical this pass is fetched and stands
/// among the pass's submission candidates.
pub proof fn lemma_pass_submits_canonical(
    queued: Seq<DelegationRow>,
    threshold: u64,
    fetched: Seq<DelegationRow>,
    lks: Seq<(u64, LookupOutcome)>,
    i: int,
)
    requires
        0 <= i < queued.len(),
        queued[i].block_number <= threshold,
        models(fetched).to_multiset() == crate::store::ready_models(
            queued,
            threshold,
        ).to_multiset(),
        row_status(queued[i]@, lks) == BlockStatus::Stable,
    ensures
        stable_models(fetched, lks).contains(queued[i]@),
{
    broadcast use vstd::seq_lib::group_to_multiset_ensures;

    crate::store::lemma_ready_contains(queued, threshold, i);
    assert(models(fetched).to_multiset().count(queued[i]@) > 0);
    assert(models(fetched).contains(queued[i]@));
    lemma_stable_status_is_submitted(fetched, lks, queued[i]@);
}

/// Every record with a matching live hash is classified Stable and stands
/// among the submission candidates: no delegation is lost while its
/// anchoring block stays canonical.
pub proof fn lemma_matching_hash_is_submitted(
    rows: Seq<DelegationRow>,
    lks: Seq<(u64, LookupOutcome)>,
    i: int,
)
    requires
        0 <= i < rows.len(),
        lookup_for(lks, rows[i].block_number) matches LookupOutcome::Hash(live) && live@
            == rows[i]@.block_hash,
    ensures
        row_status(rows[i]@, lks) == BlockStatus::Stable,
        stable_models(rows, lks).contains(rows[i]@),
    decreases rows.len(),
{
    let s = stable_models(rows, lks);
    if i == rows.len() - 1 {
        assert(s[s.len() - 1] == rows[i]@);
        assert(s.contains(rows[i]@));
    } else {
        lemma_matching_hash_is_submitted(rows.drop_last(), lks, i);
        assert(rows.drop_last()[i] == rows[i]);
        let rest = stable_models(rows.drop_last(), lks);
        let k = choose|k: int| 0 <= k < rest.len() && rest[k] == rows[i]@;
        assert(s[k] == rows[i]@);
        assert(s.contains(rows[i]@));
    }
}

/// Every record whose live hash differs from its recorded hash is
/// classified Dismissed: its anchoring hash joins the deletion set, and the
/// record is never among the submission candidates.
pub proof fn lemma_reorged_is_dismissed(
    rows: Seq<DelegationRow>,
    lks: Seq<(u64, LookupOutcome)>,
    i: int,
)
    requires
        0 <= i < rows.len(),
        lookup_for(lks, rows[i].block_number) matches LookupOutcome::Hash(live) && live@
            != rows[i]@.block_hash,
    ensures
        row_status(rows[i]@, lks) == BlockStatus::Dismissed,
        handled_hashes(rows, lks).contains(rows[i]@.block_hash),
        !stable_models(rows, lks).contains(rows[i]@),
    decreases rows.len(),
{
    lemma_stable_models_are_stable(rows, lks);
    let hs = handled_hashes(rows, lks);
    if i == rows.len() - 1 {
        assert(hs[hs.len() - 1] == rows[i]@.block_hash);
        assert(hs.contains(rows[i]@.block_hash));
    } else {
        lemma_reorged_is_dismissed(rows.drop_last(), lks, i);
        assert(rows.drop_last()[i] == rows[i]);
        let rest = handled_hashes(rows.drop_last(), lks);
        let k = choose|k: int| 0 <= k < rest.len() && rest[k] == rows[i]@.block_hash;
        assert(hs[k] == rows[i]@.block_hash);
        assert(hs.contains(rows[i]@.block_hash));
    }
}

/// Every record whose height lookup failed is classified Unknown and is
/// never among the submission candidates.
pub proof fn lemma_unknown_is_deferred(
    rows: Seq<DelegationRow>,
    lks: Seq<(u64, LookupOutcome)>,
    i: int,
)
    requires
        0 <= i < rows.len(),
        lookup_for(lks, rows[i].block_number) == LookupOutcome::Failed,
    ensures
        row_status(rows[i]@, lks) == BlockStatus::Unknown,
        !stable_models(rows, lks).contains(rows[i]@),
{
    lemma_stable_models_are_stable(rows, lks);
}

/// A hash stands in the deletion set only if some record anchors to it with
/// a decided (non-Unknown) status.
pub proof fn lemma_handled_hash_source(
    rows: Seq<DelegationRow>,
    lks: Seq<(u64, LookupOutcome)>,
    h: Seq<u8>,
)
    requires
        handled_hashes(rows, lks).contains(h),
    ensures
        exists|j: int|
            0 <= j < rows.len() && (#[trigger] rows[j])@.block_hash == h && row_status(
                rows[j]@,
                lks,
            ) != BlockStatus::Unknown,
    decreases rows.len(),
{
    let hs = handled_hashes(rows, lks);
    let rest = handled_hashes(rows.drop_last(), lks);
    let k = choose|k: int| 0 <= k < hs.len() && hs[k] == h;
    if row_status(rows.last()@, lks) != BlockStatus::Unknown && k == hs.len() - 1 {
        assert((rows[rows.len() - 1])@.block_hash == h);
    } else {
        assert(rest[k] == h);
        assert(rest.contains(h));
        lemma_handled_hash_source(rows.drop_last(), lks, h);
        let j = choose|j: int|
            0 <= j < rows.drop_last().len() && (#[trigger] rows.drop_last()[j])@.block_hash == h
                && row_status(rows.drop_last()[j]@, lks) != BlockStatus::Unknown;
        assert((rows[j])@.block_hash == h);
    }
}

/// A hash all of whose records are Unknown never joins the deletion set:
/// deferred records are excluded from deletion.
pub proof fn lemma_unknown_hash_kept(
    rows: Seq<DelegationRow>,
    lks: Seq<(u64, LookupOutcome)>,
    h: Seq<u8>,
)
    requires
        forall|j: int|
            0 <= j < rows.len() && (#[trigger] rows[j])@.block_hash == h ==> row_status(
                rows[j]@,
                lks,
            ) == BlockStatus::Unknown,
    ensures
        !handled_hashes(rows, lks).contains(h),
{
    if handled_hashes(rows, lks).contains(h) {
        lemma_handled_hash_source(rows, lks, h);
    }
}

/// A record whose anchoring hash is not in the deletion set survives the
/// deletion: deferred records remain in the store.
pub proof fn lemma_survives_deletion(rows: Seq<DelegationRow>, dead: Seq<Seq<u8>>, i: int)
    requires
        0 <= i < rows.len(),
        !dead.contains(rows[i]@.block_hash),
    ensures
        surviving_models(rows, dead).contains(rows[i]@),
    decreases rows.len(),
{
    let s = surviving_models(rows, dead);
    if i == rows.len() - 1 {
        assert(s[s.len() - 1] == rows[i]@);
        assert(s.contains(rows[i]@));
    } else {
        lemma_survives_deletion(rows.drop_last(), dead, i);
        assert(rows.drop_last()[i] == rows[i]);
        let rest = surviving_models(rows.drop_last(), dead);
        let k = choose|k: int| 0 <= k < rest.len() && rest[k] == rows[i]@;
        assert(s[k] == rows[i]@);
        assert(s.contains(rows[i]@));
    }
}

} // verus!
