use aethel::types::id_key;
use aethel::wallet::{
    EnqueueOutcome, Installment, ObligationWallet, PaymentKey, PaymentSchedule, PreAuthorization,
    QueueStatus, Reconciliation, RetryPolicy, SettlementReceipt, SignedPayment, WalletError,
};

fn id(byte: u8) -> [u8; 32] {
    [byte; 32]
}

fn schedule() -> PaymentSchedule {
    PaymentSchedule {
        stream_id: id(20),
        obligor_commitment: id(21),
        payee_commitment: id(22),
        settlement_asset_id: id(23),
        installments: vec![
            Installment {
                sequence: 1,
                due_at: 100,
                units: 40,
            },
            Installment {
                sequence: 2,
                due_at: 200,
                units: 40,
            },
            Installment {
                sequence: 3,
                due_at: 300,
                units: 40,
            },
        ],
    }
}

fn payment_key() -> PaymentKey {
    PaymentKey {
        participant_id: id_key(&id(21)),
        key_id: "aethel-obligor-payment-test-v1".to_string(),
        key_version: 1,
        hybrid_suite: true,
        settlement_purpose: true,
        record_valid: true,
        public_key: vec![7u8; 64],
        not_before: 1,
        not_after: 20_000,
        revoked_at: None,
    }
}

fn authorization() -> PreAuthorization {
    PreAuthorization {
        authorization_id: id(30),
        stream_id: id(20),
        obligor_commitment: id(21),
        payee_commitment: id(22),
        settlement_asset_id: id(23),
        payment_key: payment_key(),
        per_payment_ceiling: 40,
        period_ceiling: 80,
        period_seconds: 1_000,
        valid_from: 1,
        valid_until: 10_000,
    }
}

fn retry() -> RetryPolicy {
    RetryPolicy {
        max_attempts: 3,
        base_delay_seconds: 10,
        max_delay_seconds: 15,
    }
}

fn wallet() -> ObligationWallet {
    let mut wallet = ObligationWallet::new(schedule(), retry()).unwrap();
    wallet.add_authorization(authorization(), true).unwrap();
    wallet
}

/// The payment of `sequence` under authorization 30, signed by its key. The
/// signature bytes stand for the signer's output; whether they verify is the
/// identity layer's answer, passed to the wallet alongside.
fn signed(wallet: &ObligationWallet, sequence: u64, payment: u8, now: u64) -> SignedPayment {
    let request = wallet
        .prepare(sequence, &id(30), id(payment), true, now)
        .unwrap();
    SignedPayment {
        payment: request.payment,
        key_id: request.payment_key.key_id.clone(),
        key_version: request.payment_key.key_version,
        signature: vec![payment; 96],
    }
}

fn enqueue(wallet: &mut ObligationWallet, payment: SignedPayment, now: u64) -> Result<EnqueueOutcome, WalletError> {
    wallet.enqueue(payment, true, true, now)
}

#[test]
fn projection_reads_the_schedule() {
    let wallet = wallet();
    assert_eq!(
        wallet
            .schedule
            .projection(150, 300)
            .iter()
            .map(|installment| installment.sequence)
            .collect::<Vec<_>>(),
        vec![2, 3]
    );
    assert_eq!(wallet.schedule.total_units().unwrap(), 120);
    let mut broken = schedule();
    broken.installments[1].due_at = 100;
    assert_eq!(broken.validate(), Err(WalletError::InvalidSchedule));
}

#[test]
fn pre_authorization_bounds_every_payment_and_every_period() {
    let mut wallet = wallet();
    let first = signed(&wallet, 1, 1, 50);
    enqueue(&mut wallet, first, 50).unwrap();
    let second = signed(&wallet, 2, 2, 60);
    enqueue(&mut wallet, second, 60).unwrap();
    assert_eq!(
        wallet.prepare(3, &id(30), id(3), true, 70).err(),
        Some(WalletError::ExceedsAuthorization)
    );
    // The next period opens the budget again.
    assert!(wallet.prepare(3, &id(30), id(3), true, 1_100).is_ok());
    let mut small = authorization();
    small.authorization_id = id(31);
    small.per_payment_ceiling = 39;
    small.period_ceiling = 39;
    wallet.add_authorization(small, true).unwrap();
    assert_eq!(
        wallet.prepare(3, &id(31), id(3), true, 70).err(),
        Some(WalletError::ExceedsAuthorization)
    );
    // The key is usable until 20 000; the authorization ends at 10 000.
    assert_eq!(
        wallet.prepare(3, &id(30), id(3), true, 10_001).err(),
        Some(WalletError::OutsideValidityWindow)
    );
}

#[test]
fn duplicate_delivery_is_idempotent_and_a_forged_payment_is_refused() {
    let mut wallet = wallet();
    let payment = signed(&wallet, 1, 1, 50);
    assert_eq!(
        enqueue(&mut wallet, payment.clone(), 50),
        Ok(EnqueueOutcome::Accepted)
    );
    assert_eq!(
        enqueue(&mut wallet, payment.clone(), 51),
        Ok(EnqueueOutcome::Duplicate)
    );
    assert_eq!(wallet.queue.len(), 1);
    let mut forged = payment.clone();
    forged.payment.units = 1;
    assert_eq!(enqueue(&mut wallet, forged, 52), Err(WalletError::Replay));
    let mut different = signed(&wallet, 2, 1, 52);
    different.payment.payment_id = id(1);
    assert_eq!(enqueue(&mut wallet, different, 52), Err(WalletError::Replay));
    assert_eq!(
        wallet.prepare(1, &id(30), id(9), true, 53).err(),
        Some(WalletError::InstallmentAlreadyQueued)
    );
}

#[test]
fn the_queue_retries_with_backoff_and_then_abandons() {
    let mut wallet = wallet();
    let payment = signed(&wallet, 1, 1, 50);
    enqueue(&mut wallet, payment, 50).unwrap();
    assert_eq!(wallet.mark_in_flight(&id(1), 60), Ok(1));
    assert!(wallet.next_ready(60).is_none());
    let status = wallet.mark_failed(&id(1), id(99), 60).unwrap();
    assert_eq!(
        status,
        QueueStatus::RetryScheduled {
            attempts: 1,
            next_attempt_at: 70,
            last_failure_digest: id(99),
        }
    );
    assert!(wallet.next_ready(69).is_none());
    assert_eq!(wallet.mark_in_flight(&id(1), 69), Err(WalletError::NotReady));
    assert_eq!(wallet.mark_in_flight(&id(1), 70), Ok(2));
    wallet.mark_failed(&id(1), id(99), 70).unwrap();
    assert_eq!(wallet.mark_in_flight(&id(1), 85), Ok(3));
    assert_eq!(
        wallet.mark_failed(&id(1), id(99), 85).unwrap(),
        QueueStatus::Abandoned {
            attempts: 3,
            last_failure_digest: id(99),
        }
    );
    // An abandoned payment frees the installment for a fresh payment.
    assert!(wallet.prepare(1, &id(30), id(2), true, 90).is_ok());
}

#[test]
fn reconciliation_reports_only_what_the_receipt_says() {
    let mut wallet = wallet();
    let payment = signed(&wallet, 1, 1, 50);
    enqueue(&mut wallet, payment, 50).unwrap();
    wallet.mark_in_flight(&id(1), 60).unwrap();
    assert_eq!(wallet.settled_units().unwrap(), 0);
    let receipt = SettlementReceipt {
        payment_id: id(1),
        receipt_digest: id(80),
        settled_units: 40,
        finalized_at: 65,
    };
    let mut short = receipt;
    short.settled_units = 30;
    assert_eq!(
        wallet.reconcile(short),
        Ok(Reconciliation::UnitsMismatch {
            expected: 40,
            settled: 30
        })
    );
    assert_eq!(wallet.settled_units().unwrap(), 0);
    assert_eq!(wallet.reconcile(receipt), Ok(Reconciliation::Matched));
    assert_eq!(
        wallet.reconcile(receipt),
        Ok(Reconciliation::AlreadyReconciled)
    );
    assert_eq!(wallet.settled_units().unwrap(), 40);
    let mut other = receipt;
    other.payment_id = id(5);
    assert_eq!(wallet.reconcile(other), Ok(Reconciliation::UnknownPayment));
    assert_eq!(
        wallet
            .unsettled_due(250)
            .iter()
            .map(|installment| installment.sequence)
            .collect::<Vec<_>>(),
        vec![2]
    );
}

#[test]
fn authorization_pins_a_hybrid_key_to_the_schedule_obligor() {
    let new_wallet = || ObligationWallet::new(schedule(), retry()).unwrap();

    let mut wrong_obligor = authorization();
    wrong_obligor.obligor_commitment = id(44);
    wrong_obligor.payment_key.participant_id = id_key(&wrong_obligor.obligor_commitment);
    assert_eq!(
        new_wallet().add_authorization(wrong_obligor, true),
        Err(WalletError::AuthorizationMismatch)
    );

    let mut wrong_participant = authorization();
    wrong_participant.payment_key.participant_id = "another-obligor".to_string();
    assert_eq!(
        new_wallet().add_authorization(wrong_participant, true),
        Err(WalletError::InvalidAuthorization)
    );

    let mut wrong_purpose = authorization();
    wrong_purpose.payment_key.settlement_purpose = false;
    assert_eq!(
        new_wallet().add_authorization(wrong_purpose, true),
        Err(WalletError::InvalidAuthorization)
    );

    let mut wrong_suite = authorization();
    wrong_suite.payment_key.hybrid_suite = false;
    assert_eq!(
        new_wallet().add_authorization(wrong_suite, true),
        Err(WalletError::InvalidAuthorization)
    );

    // A key not yet valid, expired, or revoked at the instant is not usable.
    let mut not_yet_valid = authorization();
    not_yet_valid.payment_key.not_before = 2;
    assert_eq!(
        new_wallet().add_authorization(not_yet_valid, false),
        Err(WalletError::OutsideValidityWindow)
    );
    let mut expired = authorization();
    expired.payment_key.not_after = 2;
    assert_eq!(
        new_wallet().add_authorization(expired, false),
        Err(WalletError::OutsideValidityWindow)
    );
    let mut revoked = authorization();
    revoked.payment_key.revoked_at = Some(1);
    assert_eq!(
        new_wallet().add_authorization(revoked, false),
        Err(WalletError::OutsideValidityWindow)
    );

    let mut unavailable = wallet();
    unavailable.authorizations[0].payment_key.revoked_at = Some(50);
    assert_eq!(
        unavailable.prepare(1, &id(30), id(1), false, 50).err(),
        Some(WalletError::OutsideValidityWindow)
    );
}

#[test]
fn only_the_registered_key_and_both_signature_components_are_accepted() {
    let mut wallet = wallet();
    let payment = signed(&wallet, 1, 1, 50);
    let authorization = wallet.authorizations[0].clone();
    // A signature that does not verify under the registered key.
    assert_eq!(
        wallet.enqueue(payment.clone(), true, false, 50),
        Err(WalletError::InvalidSignature)
    );
    assert_eq!(
        payment.verify(&authorization, true, false, 50),
        Err(WalletError::InvalidSignature)
    );
    let mut wrong_id = payment.clone();
    wrong_id.key_id = "another-key".to_string();
    assert_eq!(
        wrong_id.verify(&authorization, true, true, 50),
        Err(WalletError::InvalidSignature)
    );
    let mut wrong_version = payment.clone();
    wrong_version.key_version += 1;
    assert_eq!(
        wrong_version.verify(&authorization, true, true, 50),
        Err(WalletError::InvalidSignature)
    );
    assert!(payment.verify(&authorization, true, true, 50).is_ok());
}

#[test]
fn a_redelivered_payment_is_a_duplicate_whenever_it_comes() {
    let mut wallet = wallet();
    let payment = signed(&wallet, 1, 1, 50);
    assert_eq!(
        wallet.enqueue(payment.clone(), true, true, 50),
        Ok(EnqueueOutcome::Accepted)
    );
    // Neither the key's later state nor the clock changes the answer.
    assert_eq!(
        wallet.enqueue(payment, false, false, 50_000),
        Ok(EnqueueOutcome::Duplicate)
    );
    assert_eq!(wallet.queue.len(), 1);
}

#[test]
fn an_accepted_payment_fits_both_ceilings() {
    let mut wallet = wallet();
    let first = signed(&wallet, 1, 1, 50);
    enqueue(&mut wallet, first, 50).unwrap();
    let second = signed(&wallet, 2, 2, 60);
    enqueue(&mut wallet, second, 60).unwrap();
    // A third payment in the period would pass the period ceiling of 80.
    let mut third = wallet.prepare(3, &id(30), id(3), true, 1_100).unwrap();
    third.payment.payment_id = id(3);
    let signed_third = SignedPayment {
        payment: third.payment,
        key_id: third.payment_key.key_id.clone(),
        key_version: 1,
        signature: vec![3; 96],
    };
    assert_eq!(
        wallet.enqueue(signed_third.clone(), true, true, 70),
        Err(WalletError::ExceedsAuthorization)
    );
    assert_eq!(
        wallet.enqueue(signed_third, true, true, 1_100),
        Ok(EnqueueOutcome::Accepted)
    );
}

#[test]
fn delivery_settles_nothing_until_a_receipt_matches() {
    let mut wallet = wallet();
    let payment = signed(&wallet, 1, 1, 50);
    enqueue(&mut wallet, payment, 50).unwrap();
    assert_eq!(wallet.settled_units(), Ok(0));
    wallet.mark_in_flight(&id(1), 60).unwrap();
    wallet.mark_failed(&id(1), id(99), 60).unwrap();
    assert_eq!(wallet.settled_units(), Ok(0));
    assert_eq!(wallet.receipts.len(), 0);
}

#[test]
fn next_ready_takes_the_earliest_installment_first() {
    let mut wallet = wallet();
    let second = signed(&wallet, 2, 2, 50);
    enqueue(&mut wallet, second, 50).unwrap();
    let first = signed(&wallet, 1, 1, 50);
    enqueue(&mut wallet, first, 50).unwrap();
    assert_eq!(
        wallet.next_ready(50).map(|entry| entry.payment.payment.payment_id),
        Some(id(1))
    );
    wallet.mark_in_flight(&id(1), 50).unwrap();
    assert_eq!(
        wallet.next_ready(50).map(|entry| entry.payment.payment.payment_id),
        Some(id(2))
    );
    let entry = wallet.entry(&id(2)).unwrap();
    assert_eq!(entry.status, QueueStatus::Pending);
    assert_eq!(entry.enqueued_at, 50);
    assert_eq!(wallet.entry(&id(7)).err(), Some(WalletError::UnknownPayment));
}

#[test]
fn backoff_doubles_up_to_the_ceiling() {
    let policy = RetryPolicy {
        max_attempts: 5,
        base_delay_seconds: 10,
        max_delay_seconds: 100,
    };
    assert_eq!(policy.delay_after(0), 10);
    assert_eq!(policy.delay_after(1), 10);
    assert_eq!(policy.delay_after(2), 20);
    assert_eq!(policy.delay_after(3), 40);
    assert_eq!(policy.delay_after(4), 80);
    assert_eq!(policy.delay_after(5), 100);
    assert_eq!(policy.delay_after(8), 100);
    // However many attempts, the delay stays at the ceiling.
    assert_eq!(policy.delay_after(u32::MAX), 100);
    let fine = RetryPolicy {
        max_attempts: 100,
        base_delay_seconds: 2,
        max_delay_seconds: 1000,
    };
    assert_eq!(fine.delay_after(64), 1000);
    assert_eq!(fine.delay_after(65), 1000);
    assert_eq!(fine.delay_after(9), 512);
    assert_eq!(fine.delay_after(10), 1000);
    assert_eq!(
        RetryPolicy {
            max_attempts: 0,
            base_delay_seconds: 10,
            max_delay_seconds: 100,
        }
        .validate(),
        Err(WalletError::InvalidRetryPolicy)
    );
    assert_eq!(
        ObligationWallet::new(schedule(), RetryPolicy {
            max_attempts: 1,
            base_delay_seconds: 10,
            max_delay_seconds: 5,
        })
        .err(),
        Some(WalletError::InvalidRetryPolicy)
    );
}

#[test]
fn wallet_errors_name_what_was_refused() {
    let mut wallet = wallet();
    assert_eq!(
        wallet.add_authorization(authorization(), true),
        Err(WalletError::Replay)
    );
    assert_eq!(
        wallet.prepare(9, &id(30), id(1), true, 50).err(),
        Some(WalletError::UnknownInstallment)
    );
    assert_eq!(
        wallet.prepare(1, &id(77), id(1), true, 50).err(),
        Some(WalletError::UnknownAuthorization)
    );
    assert_eq!(
        wallet.prepare(1, &id(30), [0u8; 32], true, 50).err(),
        Some(WalletError::InvalidPayment)
    );
    let mut mismatched = signed(&wallet, 1, 1, 50);
    mismatched.payment.due_at = 101;
    assert_eq!(
        enqueue(&mut wallet, mismatched, 50),
        Err(WalletError::ScheduleMismatch)
    );
    assert_eq!(
        wallet.mark_failed(&id(1), [0u8; 32], 50),
        Err(WalletError::InvalidPayment)
    );
    assert_eq!(
        wallet.mark_failed(&id(1), id(99), 50),
        Err(WalletError::UnknownPayment)
    );
    assert_eq!(
        wallet.mark_in_flight(&id(1), 50),
        Err(WalletError::UnknownPayment)
    );
    let payment = signed(&wallet, 1, 1, 50);
    enqueue(&mut wallet, payment, 50).unwrap();
    assert_eq!(
        wallet.mark_failed(&id(1), id(99), 50),
        Err(WalletError::NotReady)
    );
    let receipt = SettlementReceipt {
        payment_id: id(1),
        receipt_digest: [0u8; 32],
        settled_units: 40,
        finalized_at: 65,
    };
    assert_eq!(wallet.reconcile(receipt), Err(WalletError::InvalidReceipt));
    let good = SettlementReceipt {
        receipt_digest: id(80),
        ..receipt
    };
    assert_eq!(wallet.reconcile(good), Ok(Reconciliation::Matched));
    let other = SettlementReceipt {
        receipt_digest: id(81),
        ..good
    };
    assert_eq!(wallet.reconcile(other), Err(WalletError::Replay));
    let mut overflowing = schedule();
    overflowing.installments[0].units = u64::MAX;
    assert_eq!(
        overflowing.total_units(),
        Err(WalletError::ArithmeticOverflow)
    );
}

#[test]
fn an_abandoned_payment_cannot_be_reconciled() {
    let mut wallet = ObligationWallet::new(schedule(), RetryPolicy {
        max_attempts: 1,
        base_delay_seconds: 10,
        max_delay_seconds: 15,
    })
    .unwrap();
    wallet.add_authorization(authorization(), true).unwrap();
    let payment = signed(&wallet, 1, 1, 50);
    enqueue(&mut wallet, payment, 50).unwrap();
    wallet.mark_in_flight(&id(1), 50).unwrap();
    assert!(matches!(
        wallet.mark_failed(&id(1), id(99), 50),
        Ok(QueueStatus::Abandoned { attempts: 1, .. })
    ));
    let receipt = SettlementReceipt {
        payment_id: id(1),
        receipt_digest: id(80),
        settled_units: 40,
        finalized_at: 65,
    };
    assert_eq!(wallet.reconcile(receipt), Err(WalletError::NotReady));
}

#[test]
fn a_wallet_built_by_its_operations_validates() {
    let mut wallet = wallet();
    assert_eq!(wallet.validate(&[], &[]), Ok(()));
    let payment = signed(&wallet, 1, 1, 50);
    enqueue(&mut wallet, payment, 50).unwrap();
    wallet.mark_in_flight(&id(1), 60).unwrap();
    let receipt = SettlementReceipt {
        payment_id: id(1),
        receipt_digest: id(80),
        settled_units: 40,
        finalized_at: 65,
    };
    wallet.reconcile(receipt).unwrap();
    assert_eq!(wallet.validate(&[true], &[true]), Ok(()));
    // One answer per queue entry is owed.
    assert_eq!(wallet.validate(&[], &[]), Err(WalletError::InvalidState));
    // A key that was not usable when the payment was queued.
    assert_eq!(
        wallet.validate(&[false], &[true]),
        Err(WalletError::InvalidState)
    );
    wallet.queue[0].payment.payment.units = 1;
    assert_eq!(
        wallet.validate(&[true], &[true]),
        Err(WalletError::InvalidState)
    );
    let mut broken = wallet;
    broken.schedule.installments.clear();
    assert_eq!(
        broken.validate(&[true], &[true]),
        Err(WalletError::InvalidSchedule)
    );
}

#[test]
fn validate_checks_each_authorization_as_an_artifact_before_against_the_schedule() {
    let mut malformed = wallet();
    malformed.authorizations[0].per_payment_ceiling = 0;
    assert_eq!(
        malformed.validate(&[], &[]),
        Err(WalletError::InvalidAuthorization)
    );
    let mut elsewhere = wallet();
    elsewhere.authorizations[0].stream_id = id(29);
    assert_eq!(elsewhere.validate(&[], &[]), Err(WalletError::InvalidState));
    let mut slow = wallet();
    slow.retry.max_attempts = 0;
    slow.authorizations[0].per_payment_ceiling = 0;
    assert_eq!(
        slow.validate(&[], &[]),
        Err(WalletError::InvalidRetryPolicy)
    );
}
