//! The delegation record, its mathematical model, and the per-pass
//! classification of a record's anchoring block.

use vstd::prelude::*;
use crate::bytes::copy_bytes;

verus! {

/// Mathematical model of one pending delegation record: each byte-string
/// field abstracted to a sequence of bytes.
pub ghost struct RowModel {
    pub delegator: Seq<u8>,
    pub delegate: Seq<u8>,
    pub contract_address: Seq<u8>,
    pub delegation_counter: u64,
    pub old_expiry_date: u64,
    pub expiry_date: u64,
    pub host_chain_id: u64,
    pub block_hash: Seq<u8>,
    pub block_number: u64,
    pub transaction_id: Option<Seq<u8>>,
}

/// One pending delegation, as the durable queue holds it: who delegates to
/// whom for which contract, the monotonic ordering counter, the expiry, and
/// the identity of the host-chain block the event was observed in.
#[derive(Debug)]
pub struct DelegationRow {
    pub delegator: Vec<u8>,
    pub delegate: Vec<u8>,
    pub contract_address: Vec<u8>,
    pub delegation_counter: u64,
    pub old_expiry_date: u64,
    pub expiry_date: u64,
    pub host_chain_id: u64,
    pub block_hash: Vec<u8>,
    pub block_number: u64,
    pub transaction_id: Option<Vec<u8>>,
}

impl View for DelegationRow {
    type V = RowModel;

    open spec fn view(&self) -> RowModel {
        RowModel {
            delegator: self.delegator@,
            delegate: self.delegate@,
            contract_address: self.contract_address@,
            delegation_counter: self.delegation_counter,
            old_expiry_date: self.old_expiry_date,
            expiry_date: self.expiry_date,
            host_chain_id: self.host_chain_id,
            block_hash: self.block_hash@,
            block_number: self.block_number,
            transaction_id: match self.transaction_id {
                Some(v) => Some(v@),
                None => None,
            },
        }
    }
}

impl Clone for DelegationRow {
    /// The clone carries the same model.
    fn clone(&self) -> (r: Self)
        ensures
            r@ == self@,
    {
        DelegationRow {
            delegator: copy_bytes(&self.delegator),
            delegate: copy_bytes(&self.delegate),
            contract_address: copy_bytes(&self.contract_address),
            delegation_counter: self.delegation_counter,
            old_expiry_date: self.old_expiry_date,
            expiry_date: self.expiry_date,
            host_chain_id: self.host_chain_id,
            block_hash: copy_bytes(&self.block_hash),
            block_number: self.block_number,
            transaction_id: match &self.transaction_id {
                Some(v) => Some(copy_bytes(v)),
                None => None,
            },
        }
    }
}

/// The models of a sequence of rows.
pub open spec fn models(s: Seq<DelegationRow>) -> Seq<RowModel> {
    s.map_values(|r: DelegationRow| r@)
}

/// Classification of a record's anchoring block within one pass.
#[derive(Clone, Copy, PartialEq, Eq, Debug, Structural)]
pub enum BlockStatus {
    /// The anchoring block is still canonical: the record may be submitted.
    Stable,
    /// The anchoring block was reorged out: the record is permanently
    /// invalid and is garbage-collected without ever being submitted.
    Dismissed,
    /// The live hash could not be resolved: decide nothing this pass and
    /// leave the record untouched for the next one.
    Unknown,
}

} // verus!
