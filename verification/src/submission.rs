//! The submission engine's decision core.
//!
//! One Stable candidate becomes one delegation-grant call on the gateway
//! chain. The caller performs the send and the receipt wait; this module
//! builds the call's content, classifies every outcome into the three tiers
//! that make batch retry idempotent, and accounts the success and failure
//! counters.

use vstd::prelude::*;
use crate::bytes::copy_bytes;
use crate::delegation::DelegationRow;

verus! {

/// The content of one delegation-grant contract call, ready for encoding.
pub struct DelegationCall {
    pub host_chain_id: u64,
    pub delegator: Vec<u8>,
    pub delegate: Vec<u8>,
    pub contract_address: Vec<u8>,
    pub expiry_date: u64,
    pub delegation_counter: u64,
    /// A fixed gas limit to use verbatim; `None` delegates the limit to the
    /// caller's overprovisioning collaborator.
    pub gas_limit: Option<u64>,
}

/// Builds the call for one candidate: the call carries the candidate's
/// chain id, parties, target contract, expiry and counter unchanged.
pub fn build_delegation_call(row: &DelegationRow, gas: Option<u64>) -> (c: DelegationCall)
    ensures
        c.host_chain_id == row.host_chain_id,
        c.delegator@ == row@.delegator,
        c.delegate@ == row@.delegate,
        c.contract_address@ == row@.contract_address,
        c.expiry_date == row.expiry_date,
        c.delegation_counter == row.delegation_counter,
        c.gas_limit == gas,
{
    DelegationCall {
        host_chain_id: row.host_chain_id,
        delegator: copy_bytes(&row.delegator),
        delegate: copy_bytes(&row.delegate),
        contract_address: copy_bytes(&row.contract_address),
        expiry_date: row.expiry_date,
        delegation_counter: row.delegation_counter,
        gas_limit: gas,
    }
}

/// What the gateway transport reported for one rejected send, reduced to
/// the plain facts the tier decision reads.
#[derive(Clone, Copy, PartialEq, Eq, Debug, Structural)]
pub struct SendFault {
    /// The contract decoded the rejection as "already delegated or revoked"
    /// or "delegation counter too low".
    pub benign_rejection: bool,
    /// A transport error the backend marks as retryable.
    pub retryable_transport: bool,
    /// The transport backend is gone.
    pub backend_gone: bool,
    /// A local signer or usage fault, possibly a transient external-signer
    /// issue.
    pub local_usage: bool,
}

/// How one send ended: accepted by the gateway, or rejected with a fault.
#[derive(Clone, Copy, PartialEq, Eq, Debug, Structural)]
pub enum SendOutcome {
    Accepted,
    Rejected(SendFault),
}

/// How one submission ended, in the three tiers of the retry design plus
/// plain success.
#[derive(Clone, Copy, PartialEq, Eq, Debug, Structural)]
pub enum SubmissionOutcome {
    /// Mined with a successful receipt.
    Success,
    /// Benign rejection: the grant is already in place; treated as success.
    AlreadyApplied,
    /// Transport fault to retry without limit: fails the batch.
    RetryableFault,
    /// Any other send, receipt or confirmation failure: fails the batch.
    Failed,
}

/// What the submission engine does next after the send.
#[derive(Clone, Copy, PartialEq, Eq, Debug, Structural)]
pub enum SendStep {
    /// The send was accepted: wait for the receipt under the configured
    /// timeout and confirmation count.
    AwaitReceipt,
    /// The send was rejected: the submission is over with this outcome.
    Done(SubmissionOutcome),
}

/// What one receipt wait produced.
#[derive(Clone, Copy, PartialEq, Eq, Debug, Structural)]
pub enum ReceiptOutcome {
    /// A receipt arrived; the payload is its reported status.
    Received(bool),
    /// The wait timed out or the transport failed.
    NoReceipt,
}

/// The tier of one send fault. A decoded benign rejection is absorbed first;
/// then a retryable transport error, a gone backend or a local usage fault
/// demands unlimited retry; everything else is an ordinary failure.
pub open spec fn fault_tier(f: SendFault) -> SubmissionOutcome {
    if f.benign_rejection {
        SubmissionOutcome::AlreadyApplied
    } else if f.retryable_transport || f.backend_gone || f.local_usage {
        SubmissionOutcome::RetryableFault
    } else {
        SubmissionOutcome::Failed
    }
}

/// The step after a send: an accepted send goes on to the receipt wait, a
/// rejected one ends with its fault's tier.
pub open spec fn send_step(s: SendOutcome) -> SendStep {
    match s {
        SendOutcome::Accepted => SendStep::AwaitReceipt,
        SendOutcome::Rejected(f) => SendStep::Done(fault_tier(f)),
    }
}

/// The outcome after a receipt wait: success exactly for a receipt that
/// reports success; a reverted transaction or a failed wait is an ordinary
/// failure, propagated unmodified.
pub open spec fn receipt_outcome(r: ReceiptOutcome) -> SubmissionOutcome {
    match r {
        ReceiptOutcome::Received(status) => if status {
            SubmissionOutcome::Success
        } else {
            SubmissionOutcome::Failed
        },
        ReceiptOutcome::NoReceipt => SubmissionOutcome::Failed,
    }
}

/// Decides the step after a send.
pub fn after_send(s: &SendOutcome) -> (r: SendStep)
    ensures
        r == send_step(*s),
{
    match s {
        SendOutcome::Accepted => SendStep::AwaitReceipt,
        SendOutcome::Rejected(f) => SendStep::Done(
            if f.benign_rejection {
                SubmissionOutcome::AlreadyApplied
            } else if f.retryable_transport || f.backend_gone || f.local_usage {
                SubmissionOutcome::RetryableFault
            } else {
                SubmissionOutcome::Failed
            },
        ),
    }
}

/// Decides the outcome after a receipt wait.
pub fn after_receipt(r: &ReceiptOutcome) -> (o: SubmissionOutcome)
    ensures
        o == receipt_outcome(*r),
{
    match r {
        ReceiptOutcome::Received(status) => if *status {
            SubmissionOutcome::Success
        } else {
            SubmissionOutcome::Failed
        },
        ReceiptOutcome::NoReceipt => SubmissionOutcome::Failed,
    }
}

/// True for the outcomes the batch counts as success: a successful receipt,
/// or a benign rejection absorbed as already applied.
pub open spec fn outcome_ok(o: SubmissionOutcome) -> bool {
    o == SubmissionOutcome::Success || o == SubmissionOutcome::AlreadyApplied
}

/// What one outcome adds to the success counter.
pub open spec fn success_delta(o: SubmissionOutcome) -> nat {
    if o == SubmissionOutcome::Success {
        1nat
    } else {
        0nat
    }
}

/// What one outcome adds to the failure counter: every non-benign failure
/// counts; a benign rejection does not.
pub open spec fn failure_delta(o: SubmissionOutcome) -> nat {
    match o {
        SubmissionOutcome::Success => 0nat,
        SubmissionOutcome::AlreadyApplied => 0nat,
        SubmissionOutcome::RetryableFault => 1nat,
        SubmissionOutcome::Failed => 1nat,
    }
}

/// The counter increments owed for one outcome, as (successes, failures).
pub fn outcome_metrics(o: &SubmissionOutcome) -> (d: (u64, u64))
    ensures
        d.0 == success_delta(*o),
        d.1 == failure_delta(*o),
{
    match o {
        SubmissionOutcome::Success => (1, 0),
        SubmissionOutcome::AlreadyApplied => (0, 0),
        SubmissionOutcome::RetryableFault => (0, 1),
        SubmissionOutcome::Failed => (0, 1),
    }
}

/// The failure-counter total of a batch of outcomes.
pub open spec fn failure_total(os: Seq<SubmissionOutcome>) -> nat
    decreases os.len(),
{
    if os.len() == 0 {
        0
    } else {
        failure_total(os.drop_last()) + failure_delta(os.last())
    }
}

/// Idempotence of resubmission: a batch whose every outcome is benign or
/// successful is a successful batch, and it adds nothing to the failure
/// counter.
pub proof fn lemma_benign_rejection_is_success(os: Seq<SubmissionOutcome>)
    requires
        forall|i: int|
            0 <= i < os.len() ==> (os[i] == SubmissionOutcome::Success || os[i]
                == SubmissionOutcome::AlreadyApplied),
    ensures
        forall|i: int| 0 <= i < os.len() ==> outcome_ok(#[trigger] os[i]),
        failure_total(os) == 0,
    decreases os.len(),
{
    if os.len() > 0 {
        lemma_benign_rejection_is_success(os.drop_last());
    }
}

} // verus!
