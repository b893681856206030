//! The stability classifier and the readiness filter.
//!
//! Each queued record anchors to a host-chain block. The caller resolves the
//! live hash of each distinct anchoring height once per pass (the Block
//! Oracle); this module classifies every record from those answers and
//! partitions a fetched batch into submission candidates and anchoring
//! hashes to delete.

use vstd::prelude::*;
use crate::bytes::{bytes_eq, copy_bytes};
use crate::delegation::{BlockStatus, DelegationRow, RowModel, models};

verus! {

/// What the Block Oracle answered for one height.
pub enum LookupOutcome {
    /// The live chain hash at that height.
    Hash(Vec<u8>),
    /// The lookup failed: an RPC fault, or a block missing where one is owed.
    Failed,
}

/// Status a recorded hash gets from one oracle answer: a matching live hash
/// proves the block canonical, a differing one proves it reorged out, and a
/// failed lookup defers the decision.
pub open spec fn status_of_outcome(recorded: Seq<u8>, outcome: LookupOutcome) -> BlockStatus {
    match outcome {
        LookupOutcome::Hash(live) => if live@ == recorded {
            BlockStatus::Stable
        } else {
            BlockStatus::Dismissed
        },
        LookupOutcome::Failed => BlockStatus::Unknown,
    }
}

/// Decides the status of a recorded hash from one oracle answer.
pub fn classify_block(recorded: &Vec<u8>, outcome: &LookupOutcome) -> (r: BlockStatus)
    ensures
        r == status_of_outcome(recorded@, *outcome),
{
    match outcome {
        LookupOutcome::Hash(live) => if bytes_eq(live, recorded) {
            BlockStatus::Stable
        } else {
            BlockStatus::Dismissed
        },
        LookupOutcome::Failed => BlockStatus::Unknown,
    }
}

/// True when the answer table has an entry for height `h`.
pub open spec fn has_lookup(lks: Seq<(u64, LookupOutcome)>, h: u64) -> bool {
    exists|i: int| 0 <= i < lks.len() && (#[trigger] lks[i]).0 == h
}

/// The answer recorded for height `h`: the first matching entry.
pub open spec fn lookup_for(lks: Seq<(u64, LookupOutcome)>, h: u64) -> LookupOutcome
    decreases lks.len(),
{
    if lks.len() == 0 {
        LookupOutcome::Failed
    } else if lks[0].0 == h {
        lks[0].1
    } else {
        lookup_for(lks.drop_first(), h)
    }
}

/// The status a record with model `m` gets from the answer table.
pub open spec fn row_status(m: RowModel, lks: Seq<(u64, LookupOutcome)>) -> BlockStatus {
    status_of_outcome(m.block_hash, lookup_for(lks, m.block_number))
}

/// Finds the answer recorded for height `h`.
pub fn find_lookup<'a>(lookups: &'a Vec<(u64, LookupOutcome)>, h: u64) -> (r: &'a LookupOutcome)
    ensures
        *r == lookup_for(lookups@, h),
{
    let mut i: usize = 0;
    proof {
        assert(lookups@.skip(0) =~= lookups@);
    }
    loop
        invariant
            i <= lookups@.len(),
            lookup_for(lookups@, h) == lookup_for(lookups@.skip(i as int), h),
        decreases lookups@.len() - i,
    {
        if i >= lookups.len() {
            proof {
                assert(lookups@.skip(i as int).len() == 0);
            }
            return &LookupOutcome::Failed;
        }
        proof {
            assert(lookups@.skip(i as int)[0] == lookups@[i as int]);
        }
        if lookups[i].0 == h {
            return &lookups[i].1;
        }
        proof {
            assert(lookups@.skip(i as int).drop_first() =~= lookups@.skip(i + 1));
        }
        i += 1;
    }
}

/// True when some row in `rows` anchors at height `h`.
pub open spec fn height_present(rows: Seq<DelegationRow>, h: u64) -> bool {
    exists|i: int| 0 <= i < rows.len() && (#[trigger] rows[i]).block_number == h
}

/// Decides whether `heights` already holds `h`.
fn contains_height(heights: &Vec<u64>, h: u64) -> (r: bool)
    ensures
        r == heights@.contains(h),
{
    let mut i: usize = 0;
    while i < heights.len()
        invariant
            i <= heights@.len(),
            forall|j: int| 0 <= j < i ==> heights@[j] != h,
        decreases heights@.len() - i,
    {
        if heights[i] == h {
            return true;
        }
        i += 1;
    }
    false
}

/// Extending a prefix keeps a present height present.
proof fn lemma_height_present_extend(rows: Seq<DelegationRow>, i: int, j: int, h: u64)
    requires
        0 <= i <= j <= rows.len(),
        height_present(rows.take(i), h),
    ensures
        height_present(rows.take(j), h),
{
    let k = choose|k: int|
        0 <= k < rows.take(i).len() && (#[trigger] rows.take(i)[k]).block_number == h;
    assert((rows.take(j)[k]).block_number == h);
}

/// The distinct anchoring heights of a batch, so the Block Oracle is asked
/// at most once per height and pass.
pub fn distinct_block_numbers(rows: &Vec<DelegationRow>) -> (r: Vec<u64>)
    ensures
        forall|i: int, j: int| 0 <= i < j < r@.len() ==> r@[i] != r@[j],
        forall|h: u64| r@.contains(h) <==> height_present(rows@, h),
{
    let mut out: Vec<u64> = Vec::new();
    let mut i: usize = 0;
    while i < rows.len()
        invariant
            i <= rows@.len(),
            forall|a: int, b: int| 0 <= a < b < out@.len() ==> out@[a] != out@[b],
            forall|k: int|
                0 <= k < out@.len() ==> height_present(rows@.take(i as int), #[trigger] out@[k]),
            forall|j: int| 0 <= j < i ==> out@.contains((#[trigger] rows@[j]).block_number),
        decreases rows@.len() - i,
    {
        let h = rows[i].block_number;
        let ghost old_out = out@;
        if !contains_height(&out, h) {
            out.push(h);
        }
        proof {
            assert(out@.contains(h)) by {
                if old_out.contains(h) {
                    let m = choose|m: int| 0 <= m < old_out.len() && old_out[m] == h;
                    assert(out@[m] == h);
                } else {
                    assert(out@[out@.len() - 1] == h);
                }
            }
            assert forall|k: int| 0 <= k < out@.len() implies height_present(
                rows@.take(i + 1),
                #[trigger] out@[k],
            ) by {
                if k < old_out.len() {
                    assert(out@[k] == old_out[k]);
                    lemma_height_present_extend(rows@, i as int, i + 1, old_out[k]);
                } else {
                    assert(out@[k] == h);
                    assert((rows@.take(i + 1)[i as int]).block_number == h);
                }
            }
            assert forall|j: int| 0 <= j < i + 1 implies out@.contains(
                (#[trigger] rows@[j]).block_number,
            ) by {
                if j < i {
                    let m = choose|m: int|
                        0 <= m < old_out.len() && old_out[m] == rows@[j].block_number;
                    assert(out@[m] == rows@[j].block_number);
                }
            }
        }
        i += 1;
    }
    proof {
        assert(rows@.take(rows@.len() as int) =~= rows@);
        assert forall|h: u64| out@.contains(h) implies height_present(rows@, h) by {
            let k = choose|k: int| 0 <= k < out@.len() && out@[k] == h;
            assert(height_present(rows@.take(rows@.len() as int), out@[k]));
        }
        assert forall|h: u64| height_present(rows@, h) implies out@.contains(h) by {
            let k = choose|k: int|
                0 <= k < rows@.len() && (#[trigger] rows@[k]).block_number == h;
        }
    }
    out
}

/// The models of the rows classified Stable, in fetch order: the submission
/// candidates of the pass.
pub open spec fn stable_models(rows: Seq<DelegationRow>, lks: Seq<(u64, LookupOutcome)>) -> Seq<
    RowModel,
>
    decreases rows.len(),
{
    if rows.len() == 0 {
        Seq::empty()
    } else {
        let rest = stable_models(rows.drop_last(), lks);
        if row_status(rows.last()@, lks) == BlockStatus::Stable {
            rest.push(rows.last()@)
        } else {
            rest
        }
    }
}

/// The anchoring hashes of the rows classified Stable or Dismissed, in fetch
/// order: the hashes whose rows the pass may delete.
pub open spec fn handled_hashes(rows: Seq<DelegationRow>, lks: Seq<(u64, LookupOutcome)>) -> Seq<
    Seq<u8>,
>
    decreases rows.len(),
{
    if rows.len() == 0 {
        Seq::empty()
    } else {
        let rest = handled_hashes(rows.drop_last(), lks);
        if row_status(rows.last()@, lks) != BlockStatus::Unknown {
            rest.push(rows.last()@.block_hash)
        } else {
            rest
        }
    }
}

/// How many rows of the batch got status Unknown: deferred to the next pass.
pub open spec fn unknown_count(rows: Seq<DelegationRow>, lks: Seq<(u64, LookupOutcome)>) -> nat
    decreases rows.len(),
{
    if rows.len() == 0 {
        0
    } else {
        unknown_count(rows.drop_last(), lks) + if row_status(rows.last()@, lks)
            == BlockStatus::Unknown {
            1nat
        } else {
            0nat
        }
    }
}

/// The models of byte strings.
pub open spec fn hash_models(s: Seq<Vec<u8>>) -> Seq<Seq<u8>> {
    s.map_values(|v: Vec<u8>| v@)
}

/// Partitions a fetched batch by the status of each record's anchoring
/// block. Returns the Stable records (the submission candidates, in fetch
/// order) and the anchoring hashes of every Stable or Dismissed record (the
/// deletion set). Unknown records appear in neither: they stay queued and
/// are retried next pass; their number is the batch size less the deletion
/// set's size.
pub fn tx_check_ready_delegations(
    rows: &Vec<DelegationRow>,
    lookups: &Vec<(u64, LookupOutcome)>,
) -> (r: (Vec<DelegationRow>, Vec<Vec<u8>>))
    ensures
        models(r.0@) == stable_models(rows@, lookups@),
        hash_models(r.1@) == handled_hashes(rows@, lookups@),
        r.1@.len() + unknown_count(rows@, lookups@) == rows@.len(),
{
    let mut stable: Vec<DelegationRow> = Vec::new();
    let mut handled: Vec<Vec<u8>> = Vec::new();
    let mut i: usize = 0;
    proof {
        assert(rows@.take(0) =~= Seq::<DelegationRow>::empty());
        assert(models(stable@) =~= stable_models(rows@.take(0), lookups@));
        assert(hash_models(handled@) =~= handled_hashes(rows@.take(0), lookups@));
    }
    while i < rows.len()
        invariant
            i <= rows@.len(),
            models(stable@) == stable_models(rows@.take(i as int), lookups@),
            hash_models(handled@) == handled_hashes(rows@.take(i as int), lookups@),
            handled@.len() + unknown_count(rows@.take(i as int), lookups@) == i,
        decreases rows@.len() - i,
    {
        let row = &rows[i];
        let outcome = find_lookup(lookups, row.block_number);
        let status = classify_block(&row.block_hash, outcome);
        proof {
            assert(rows@.take(i + 1).drop_last() =~= rows@.take(i as int));
            assert(rows@.take(i + 1).last() == rows@[i as int]);
        }
        match status {
            BlockStatus::Stable => {
                handled.push(copy_bytes(&row.block_hash));
                stable.push(row.clone());
                proof {
                    assert(models(stable@) =~= stable_models(rows@.take(i + 1), lookups@));
                    assert(hash_models(handled@) =~= handled_hashes(rows@.take(i + 1), lookups@));
                }
            },
            BlockStatus::Dismissed => {
                handled.push(copy_bytes(&row.block_hash));
                proof {
                    assert(models(stable@) =~= stable_models(rows@.take(i + 1), lookups@));
                    assert(hash_models(handled@) =~= handled_hashes(rows@.take(i + 1), lookups@));
                }
            },
            BlockStatus::Unknown => {
                proof {
                    assert(models(stable@) =~= stable_models(rows@.take(i + 1), lookups@));
                    assert(hash_models(handled@) =~= handled_hashes(rows@.take(i + 1), lookups@));
                }
            },
        }
        i += 1;
    }
    proof {
        assert(rows@.take(rows@.len() as int) =~= rows@);
    }
    (stable, handled)
}

} // verus!
