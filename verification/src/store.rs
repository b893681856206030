//! A model of the durable delegation queue.
//!
//! The queue supports exactly two operations inside one pass: an ordered
//! fetch of every record anchored at or below a height threshold, and a
//! bulk delete by anchoring-block hash. Records are never mutated in place;
//! insertion belongs to an external indexer.

use vstd::prelude::*;
use crate::bytes::{bytes_eq, bytes_le, bytes_le_exec, lemma_bytes_le_total, lemma_bytes_le_trans};
use crate::classify::hash_models;
use crate::delegation::{DelegationRow, RowModel, models};

verus! {

/// The fetch order on transaction ids: ascending byte strings, absent ids
/// last.
pub open spec fn tx_id_le(a: Option<Seq<u8>>, b: Option<Seq<u8>>) -> bool {
    match (a, b) {
        (Option::None, Option::None) => true,
        (Option::None, Option::Some(_)) => false,
        (Option::Some(_), Option::None) => true,
        (Option::Some(x), Option::Some(y)) => bytes_le(x, y),
    }
}

/// The fetch order on records: by anchoring height, then delegation
/// counter, then transaction id. This is the intended application order.
pub open spec fn row_le(a: RowModel, b: RowModel) -> bool {
    if a.block_number != b.block_number {
        a.block_number < b.block_number
    } else if a.delegation_counter != b.delegation_counter {
        a.delegation_counter < b.delegation_counter
    } else {
        tx_id_le(a.transaction_id, b.transaction_id)
    }
}

/// A sequence in fetch order.
pub open spec fn sorted_rows(s: Seq<RowModel>) -> bool {
    forall|i: int, j: int| 0 <= i < j < s.len() ==> row_le(#[trigger] s[i], #[trigger] s[j])
}

/// Any two records are ordered one way or the other.
pub proof fn lemma_row_le_total(a: RowModel, b: RowModel)
    ensures
        row_le(a, b) || row_le(b, a),
{
    if a.block_number == b.block_number && a.delegation_counter == b.delegation_counter {
        match (a.transaction_id, b.transaction_id) {
            (Option::Some(x), Option::Some(y)) => lemma_bytes_le_total(x, y),
            _ => {},
        }
    }
}

/// The fetch order is transitive.
pub proof fn lemma_row_le_trans(a: RowModel, b: RowModel, c: RowModel)
    requires
        row_le(a, b),
        row_le(b, c),
    ensures
        row_le(a, c),
{
    if a.block_number == b.block_number && b.block_number == c.block_number
        && a.delegation_counter == b.delegation_counter && b.delegation_counter
        == c.delegation_counter {
        match (a.transaction_id, b.transaction_id, c.transaction_id) {
            (Option::Some(x), Option::Some(y), Option::Some(z)) => lemma_bytes_le_trans(x, y, z),
            _ => {},
        }
    }
}

/// Decides the fetch order on transaction ids.
fn tx_id_le_exec(a: &Option<Vec<u8>>, b: &Option<Vec<u8>>) -> (r: bool)
    ensures
        r == tx_id_le(
            (match *a {
                Option::Some(ref v) => Option::Some(v@),
                Option::None => Option::None,
            }),
            (match *b {
                Option::Some(ref v) => Option::Some(v@),
                Option::None => Option::None,
            }),
        ),
{
    match (a, b) {
        (Option::None, Option::None) => true,
        (Option::None, Option::Some(_)) => false,
        (Option::Some(_), Option::None) => true,
        (Option::Some(x), Option::Some(y)) => bytes_le_exec(x, y),
    }
}

/// Decides the fetch order on records.
pub fn row_le_exec(a: &DelegationRow, b: &DelegationRow) -> (r: bool)
    ensures
        r == row_le(a@, b@),
{
    if a.block_number != b.block_number {
        a.block_number < b.block_number
    } else if a.delegation_counter != b.delegation_counter {
        a.delegation_counter < b.delegation_counter
    } else {
        tx_id_le_exec(&a.transaction_id, &b.transaction_id)
    }
}

/// The models of the rows at or below the threshold, in queue order.
pub open spec fn ready_models(rows: Seq<DelegationRow>, threshold: u64) -> Seq<RowModel>
    decreases rows.len(),
{
    if rows.len() == 0 {
        Seq::empty()
    } else {
        let rest = ready_models(rows.drop_last(), threshold);
        if rows.last().block_number <= threshold {
            rest.push(rows.last()@)
        } else {
            rest
        }
    }
}

/// Fetch completeness: every queued record anchored at or below the
/// threshold is among the fetched candidates.
pub proof fn lemma_ready_contains(rows: Seq<DelegationRow>, threshold: u64, i: int)
    requires
        0 <= i < rows.len(),
        rows[i].block_number <= threshold,
    ensures
        ready_models(rows, threshold).contains(rows[i]@),
    decreases rows.len(),
{
    let s = ready_models(rows, threshold);
    if i == rows.len() - 1 {
        assert(s[s.len() - 1] == rows[i]@);
        assert(s.contains(rows[i]@));
    } else {
        lemma_ready_contains(rows.drop_last(), threshold, i);
        assert(rows.drop_last()[i] == rows[i]);
        let rest = ready_models(rows.drop_last(), threshold);
        let k = choose|k: int| 0 <= k < rest.len() && rest[k] == rows[i]@;
        assert(s[k] == rows[i]@);
        assert(s.contains(rows[i]@));
    }
}

/// Fetch soundness: every fetched candidate is anchored at or below the
/// threshold.
pub proof fn lemma_ready_bounded(rows: Seq<DelegationRow>, threshold: u64)
    ensures
        forall|m: RowModel|
            ready_models(rows, threshold).contains(m) ==> m.block_number <= threshold,
    decreases rows.len(),
{
    if rows.len() > 0 {
        lemma_ready_bounded(rows.drop_last(), threshold);
        let rest = ready_models(rows.drop_last(), threshold);
        let s = ready_models(rows, threshold);
        assert forall|m: RowModel| s.contains(m) implies m.block_number <= threshold by {
            let k = choose|k: int| 0 <= k < s.len() && s[k] == m;
            if rows.last().block_number <= threshold && k == s.len() - 1 {
            } else {
                assert(rest[k] == m);
                assert(rest.contains(m));
            }
        }
    }
}

/// The models of the rows whose anchoring hash is not in the deletion set,
/// in queue order.
pub open spec fn surviving_models(rows: Seq<DelegationRow>, dead: Seq<Seq<u8>>) -> Seq<RowModel>
    decreases rows.len(),
{
    if rows.len() == 0 {
        Seq::empty()
    } else {
        let rest = surviving_models(rows.drop_last(), dead);
        if !dead.contains(rows.last()@.block_hash) {
            rest.push(rows.last()@)
        } else {
            rest
        }
    }
}

/// The position a row belongs at in a sequence sorted in fetch order.
fn insert_position(out: &Vec<DelegationRow>, row: &DelegationRow) -> (i: usize)
    requires
        sorted_rows(models(out@)),
    ensures
        i <= out@.len(),
        forall|j: int| 0 <= j < i ==> row_le(models(out@)[j], row@),
        i < out@.len() ==> row_le(row@, models(out@)[i as int]),
{
    let mut i: usize = 0;
    loop
        invariant
            i <= out@.len(),
            forall|j: int| 0 <= j < i ==> row_le(models(out@)[j], row@),
        decreases out@.len() - i,
    {
        if i >= out.len() {
            return i;
        }
        if row_le_exec(&row, &out[i]) {
            return i;
        }
        proof {
            lemma_row_le_total(models(out@)[i as int], row@);
        }
        i += 1;
    }
}

/// Inserts a row into a sequence sorted in fetch order, keeping it sorted.
fn insert_sorted(out: &mut Vec<DelegationRow>, row: DelegationRow)
    requires
        sorted_rows(models(old(out)@)),
    ensures
        sorted_rows(models(final(out)@)),
        models(final(out)@).to_multiset() == models(old(out)@).to_multiset().insert(row@),
{
    let i = insert_position(out, &row);
    let ghost before = models(out@);
    out.insert(i, row);
    proof {
        broadcast use vstd::seq_lib::group_to_multiset_ensures;

        assert(models(out@) =~= before.insert(i as int, row@));
        let now = models(out@);
        assert forall|p: int, q: int| 0 <= p < q < now.len() implies row_le(now[p], now[q]) by {
            if p < i && q == i {
            } else if p == i && q > i {
                assert(row_le(row@, before[i as int]));
                if q > i + 1 {
                    assert(row_le(before[i as int], before[q - 1]));
                    lemma_row_le_trans(row@, before[i as int], before[q - 1]);
                }
            } else if p < i && q > i {
                assert(row_le(before[p], before[q - 1]));
            } else if p > i && q > i {
                assert(row_le(before[p - 1], before[q - 1]));
            } else {
                assert(row_le(before[p], before[q]));
            }
        }
    }
}

/// The durable queue of pending delegations, modelled in memory. The rows
/// stand in insertion order; fetch orders them.
pub struct DelegationStore {
    pub rows: Vec<DelegationRow>,
}

impl DelegationStore {
    /// An empty queue.
    pub fn new() -> (s: Self)
        ensures
            s.rows@.len() == 0,
    {
        DelegationStore { rows: Vec::new() }
    }

    /// Inserts one record, as the external indexer does.
    pub fn insert_row(&mut self, row: DelegationRow)
        ensures
            final(self).rows@ == old(self).rows@.push(row),
    {
        self.rows.push(row);
    }

    /// Ordered fetch: every record anchored at or below the threshold,
    /// sorted by (height, counter, transaction id) — exactly the records
    /// the pass may act on, each exactly as often as it is queued.
    pub fn delayed_sorted_delegation(&self, up_to_block_number: u64) -> (r: Vec<DelegationRow>)
        ensures
            sorted_rows(models(r@)),
            models(r@).to_multiset() == ready_models(self.rows@, up_to_block_number).to_multiset(),
    {
        let mut out: Vec<DelegationRow> = Vec::new();
        let mut i: usize = 0;
        proof {
            assert(self.rows@.take(0) =~= Seq::<DelegationRow>::empty());
            assert(models(out@) =~= ready_models(self.rows@.take(0), up_to_block_number));
        }
        while i < self.rows.len()
            invariant
                i <= self.rows@.len(),
                sorted_rows(models(out@)),
                models(out@).to_multiset() == ready_models(
                    self.rows@.take(i as int),
                    up_to_block_number,
                ).to_multiset(),
            decreases self.rows@.len() - i,
        {
            proof {
                broadcast use vstd::seq_lib::group_to_multiset_ensures;

                assert(self.rows@.take(i + 1).drop_last() =~= self.rows@.take(i as int));
                assert(self.rows@.take(i + 1).last() == self.rows@[i as int]);
            }
            let row = &self.rows[i];
            if row.block_number <= up_to_block_number {
                insert_sorted(&mut out, row.clone());
            }
            i += 1;
        }
        proof {
            assert(self.rows@.take(self.rows@.len() as int) =~= self.rows@);
        }
        out
    }

    /// Bulk delete by anchoring-block identity: afterwards the queue holds,
    /// in order, exactly the records whose anchoring hash is not in the
    /// set.
    pub fn clean_delegation(&mut self, blocks_hash: &Vec<Vec<u8>>)
        ensures
            models(final(self).rows@) == surviving_models(
                old(self).rows@,
                hash_models(blocks_hash@),
            ),
    {
        let mut kept: Vec<DelegationRow> = Vec::new();
        let mut i: usize = 0;
        proof {
            assert(self.rows@.take(0) =~= Seq::<DelegationRow>::empty());
            assert(models(kept@) =~= surviving_models(self.rows@.take(0), hash_models(blocks_hash@)));
        }
        while i < self.rows.len()
            invariant
                i <= self.rows@.len(),
                models(kept@) == surviving_models(
                    self.rows@.take(i as int),
                    hash_models(blocks_hash@),
                ),
            decreases self.rows@.len() - i,
        {
            proof {
                assert(self.rows@.take(i + 1).drop_last() =~= self.rows@.take(i as int));
                assert(self.rows@.take(i + 1).last() == self.rows@[i as int]);
            }
            let row = &self.rows[i];
            if !contains_hash(blocks_hash, &row.block_hash) {
                kept.push(row.clone());
                proof {
                    assert(models(kept@) =~= surviving_models(
                        self.rows@.take(i + 1),
                        hash_models(blocks_hash@),
                    ));
                }
            }
            i += 1;
        }
        proof {
            assert(self.rows@.take(self.rows@.len() as int) =~= self.rows@);
        }
        self.rows = kept;
    }
}

/// Decides whether a hash stands in the deletion set.
pub fn contains_hash(hashes: &Vec<Vec<u8>>, h: &Vec<u8>) -> (r: bool)
    ensures
        r == hash_models(hashes@).contains(h@),
{
    let mut i: usize = 0;
    while i < hashes.len()
        invariant
            i <= hashes@.len(),
            forall|j: int| 0 <= j < i ==> hash_models(hashes@)[j] != h@,
        decreases hashes@.len() - i,
    {
        if bytes_eq(&hashes[i], h) {
            proof {
                assert(hash_models(hashes@)[i as int] == h@);
            }
            return true;
        }
        i += 1;
    }
    proof {
        assert forall|j: int| 0 <= j < hash_models(hashes@).len() implies hash_models(hashes@)[j]
            != h@ by {}
    }
    false
}

} // verus!
