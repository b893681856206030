use delegation_relay::delegation::DelegationRow;
use delegation_relay::notifier::{
    HeightDecision, NotifierEvent, interpret_notification, parse_decimal_u64, safety_threshold,
};
use delegation_relay::submission::{
    ReceiptOutcome, SendFault, SendOutcome, SendStep, SubmissionOutcome, after_receipt,
    after_send, build_delegation_call, outcome_metrics,
};

fn no_fault() -> SendFault {
    SendFault {
        benign_rejection: false,
        retryable_transport: false,
        backend_gone: false,
        local_usage: false,
    }
}

#[test]
fn parse_reads_decimal_heights() {
    assert_eq!(parse_decimal_u64(&b"0".to_vec()), Some(0));
    assert_eq!(parse_decimal_u64(&b"205".to_vec()), Some(205));
    assert_eq!(parse_decimal_u64(&b"+205".to_vec()), Some(205));
    assert_eq!(parse_decimal_u64(&b"007".to_vec()), Some(7));
    assert_eq!(parse_decimal_u64(&b"18446744073709551615".to_vec()), Some(u64::MAX));
}

#[test]
fn parse_rejects_malformed_payloads() {
    assert_eq!(parse_decimal_u64(&b"".to_vec()), None);
    assert_eq!(parse_decimal_u64(&b"+".to_vec()), None);
    assert_eq!(parse_decimal_u64(&b"12a".to_vec()), None);
    assert_eq!(parse_decimal_u64(&b"-5".to_vec()), None);
    assert_eq!(parse_decimal_u64(&b" 5".to_vec()), None);
    assert_eq!(parse_decimal_u64(&b"18446744073709551616".to_vec()), None);
    assert_eq!(parse_decimal_u64(&b"99999999999999999999999".to_vec()), None);
}

#[test]
fn notification_payload_gives_the_height() {
    let d = interpret_notification(&NotifierEvent::Payload(b"205".to_vec()));
    assert_eq!(d, HeightDecision::Notified(205));
}

#[test]
fn timeout_falls_back_to_direct_query() {
    // The channel delivered nothing within its timeout: the pass still
    // proceeds, from a direct current-height query.
    let d = interpret_notification(&NotifierEvent::TimedOut);
    assert_eq!(d, HeightDecision::QueryChain);
}

#[test]
fn channel_error_falls_back_to_direct_query() {
    let d = interpret_notification(&NotifierEvent::ChannelError);
    assert_eq!(d, HeightDecision::QueryChain);
}

#[test]
fn malformed_payload_falls_back_to_direct_query() {
    let d = interpret_notification(&NotifierEvent::Payload(b"not a number".to_vec()));
    assert_eq!(d, HeightDecision::QueryChain);
}

#[test]
fn threshold_subtracts_the_finality_delay() {
    // The notifier timed out, the direct query answered 205, and the
    // finality delay is 5: the pass fetches up to height 200.
    assert_eq!(interpret_notification(&NotifierEvent::TimedOut), HeightDecision::QueryChain);
    let queried_height: u64 = 205;
    assert_eq!(safety_threshold(queried_height, 5), 200);
}

#[test]
fn call_carries_the_record_fields() {
    let row = DelegationRow {
        delegator: vec![1; 20],
        delegate: vec![2; 20],
        contract_address: vec![3; 20],
        delegation_counter: 9,
        old_expiry_date: 5,
        expiry_date: 77,
        host_chain_id: 4242,
        block_hash: vec![0xff],
        block_number: 100,
        transaction_id: Some(vec![8]),
    };
    let call = build_delegation_call(&row, Some(21000));
    assert_eq!(call.host_chain_id, 4242);
    assert_eq!(call.delegator, vec![1; 20]);
    assert_eq!(call.delegate, vec![2; 20]);
    assert_eq!(call.contract_address, vec![3; 20]);
    assert_eq!(call.expiry_date, 77);
    assert_eq!(call.delegation_counter, 9);
    assert_eq!(call.gas_limit, Some(21000));
}

#[test]
fn accepted_send_awaits_the_receipt() {
    assert_eq!(after_send(&SendOutcome::Accepted), SendStep::AwaitReceipt);
}

#[test]
fn benign_rejection_is_absorbed() {
    // The contract says the delegation is already applied: the submission
    // counts as success and the failure counter is untouched.
    let fault = SendFault { benign_rejection: true, ..no_fault() };
    let step = after_send(&SendOutcome::Rejected(fault));
    assert_eq!(step, SendStep::Done(SubmissionOutcome::AlreadyApplied));
    assert_eq!(outcome_metrics(&SubmissionOutcome::AlreadyApplied), (0, 0));
}

#[test]
fn transport_faults_demand_unlimited_retry() {
    for fault in [
        SendFault { retryable_transport: true, ..no_fault() },
        SendFault { backend_gone: true, ..no_fault() },
        SendFault { local_usage: true, ..no_fault() },
    ] {
        let step = after_send(&SendOutcome::Rejected(fault));
        assert_eq!(step, SendStep::Done(SubmissionOutcome::RetryableFault));
    }
    assert_eq!(outcome_metrics(&SubmissionOutcome::RetryableFault), (0, 1));
}

#[test]
fn other_send_errors_fail_the_submission() {
    let step = after_send(&SendOutcome::Rejected(no_fault()));
    assert_eq!(step, SendStep::Done(SubmissionOutcome::Failed));
    assert_eq!(outcome_metrics(&SubmissionOutcome::Failed), (0, 1));
}

#[test]
fn successful_receipt_is_success() {
    assert_eq!(after_receipt(&ReceiptOutcome::Received(true)), SubmissionOutcome::Success);
    assert_eq!(outcome_metrics(&SubmissionOutcome::Success), (1, 0));
}

#[test]
fn reverted_receipt_fails_the_submission() {
    assert_eq!(after_receipt(&ReceiptOutcome::Received(false)), SubmissionOutcome::Failed);
}

#[test]
fn missing_receipt_fails_the_submission() {
    assert_eq!(after_receipt(&ReceiptOutcome::NoReceipt), SubmissionOutcome::Failed);
}
