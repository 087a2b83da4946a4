use aethel::artifacts::DefaultAttestation;
use aethel::provider::{ProviderCapability, ProviderDefinition, ProviderError, ProviderStatus};
use aethel::servicing::{
    DueInstallment, PaymentEvidence, ServicingBook, ServicingError, ServicingStatus,
    ServicingTerms,
};
use ed25519_dalek::{Signer, SigningKey};

fn id(byte: u8) -> [u8; 32] {
    [byte; 32]
}

fn provider(byte: u8, key: &SigningKey, capabilities: &[ProviderCapability]) -> ProviderDefinition {
    ProviderDefinition {
        provider_id: id(byte),
        participant_id: id(byte + 40),
        capabilities: capabilities.to_vec(),
        public_key: key.verifying_key().to_bytes(),
        policy_registry_digest: id(byte + 80),
        defmi_guarantor_id: None,
        valid_from: 1,
        valid_until: 100_000,
        sequence: 0,
        status: ProviderStatus::Active,
        retired_keys: Vec::new(),
    }
}

fn registry() -> Vec<ProviderDefinition> {
    vec![
        provider(
            1,
            &SigningKey::from_bytes(&id(101)),
            &[ProviderCapability::StreamAttestor],
        ),
        provider(
            2,
            &SigningKey::from_bytes(&id(102)),
            &[ProviderCapability::CreditAssessor],
        ),
        provider(
            5,
            &SigningKey::from_bytes(&id(105)),
            &[ProviderCapability::Servicer],
        ),
    ]
}

fn terms() -> ServicingTerms {
    ServicingTerms {
        stream_id: id(20),
        schedule: (1..=4)
            .map(|sequence| DueInstallment {
                sequence,
                due_at: sequence * 100,
                units: 40,
            })
            .collect(),
        grace_seconds: 10,
        cure_window_seconds: 50,
        default_after_missed: 2,
    }
}

fn evidence(provider: u8, key_seed: u8, sequence: u64, units: u64, at: u64) -> PaymentEvidence {
    let mut evidence = PaymentEvidence {
        evidence_id: id(150 + sequence as u8 + provider),
        operation_id: id(170 + sequence as u8 + provider),
        provider_id: id(provider),
        stream_id: id(20),
        installment_sequence: sequence,
        paid_units: units,
        observed_at: at,
        source_evidence_digest: id(9),
        signature: Vec::new(),
    };
    let statement = evidence.statement().unwrap();
    evidence.signature = SigningKey::from_bytes(&id(key_seed))
        .sign(&statement)
        .to_bytes()
        .to_vec();
    evidence
}

fn sign_attestation(attestation: &mut DefaultAttestation, key: &SigningKey) {
    let statement = attestation.statement().unwrap();
    attestation.signature = key.sign(&statement).to_bytes().to_vec();
}

#[test]
fn only_a_servicer_or_attestor_observes_payment() {
    let registry = registry();
    let mut book = ServicingBook::new(terms()).unwrap();
    book.record_payment_evidence(evidence(1, 101, 1, 40, 95), &registry, 96)
        .unwrap();
    book.record_payment_evidence(evidence(5, 105, 2, 40, 195), &registry, 196)
        .unwrap();
    assert_eq!(
        book.record_payment_evidence(evidence(2, 102, 3, 40, 295), &registry, 296),
        Err(ServicingError::NotAnObserver)
    );
    assert_eq!(
        book.record_payment_evidence(evidence(5, 101, 3, 40, 295), &registry, 296),
        Err(ServicingError::Provider(ProviderError::InvalidSignature))
    );
    assert_eq!(book.paid_units(1), 40);
    assert_eq!(book.evaluate(300), ServicingStatus::Performing);
    assert!(book.validate().is_ok());
}

#[test]
fn delinquency_follows_the_grace_period_and_cures_on_payment() {
    let registry = registry();
    let mut book = ServicingBook::new(terms()).unwrap();
    assert_eq!(book.evaluate(110), ServicingStatus::Performing);
    assert_eq!(
        book.evaluate(111),
        ServicingStatus::Delinquent {
            since: 110,
            missed: vec![1]
        }
    );
    assert_eq!(
        book.default_evidence(200),
        Err(ServicingError::DefaultUnsupported)
    );
    book.record_payment_evidence(evidence(5, 105, 1, 40, 120), &registry, 121)
        .unwrap();
    assert_eq!(book.status, ServicingStatus::Cured { at: 121 });
    assert!(book.default_evidence.is_none());
}

#[test]
fn default_needs_enough_missed_installments_and_an_elapsed_cure_window() {
    let mut book = ServicingBook::new(terms()).unwrap();
    assert_eq!(
        book.default_evidence(190),
        Err(ServicingError::DefaultUnsupported)
    );
    assert_eq!(
        book.default_evidence(210),
        Err(ServicingError::DefaultUnsupported)
    );
    let evidence = book.default_evidence(211).unwrap();
    assert_eq!(evidence.missed_sequences, vec![1, 2]);
    assert_eq!(evidence.first_missed_due_at, 100);
    assert_eq!(book.default_evidence(500).unwrap(), evidence);
}

#[test]
fn a_default_attestation_is_accepted_only_from_a_servicer_and_only_for_the_evidence() {
    let registry = registry();
    let mut book = ServicingBook::new(terms()).unwrap();
    book.default_evidence(211).unwrap();
    let draft = |book: &ServicingBook, provider: u8| {
        book.draft_default_attestation(id(60), id(61), id(provider), 3, id(62), 212)
            .unwrap()
    };

    let mut creditor = draft(&book, 2);
    sign_attestation(&mut creditor, &SigningKey::from_bytes(&id(102)));
    assert_eq!(
        book.accept_default_attestation(creditor, &registry, 213),
        Err(ServicingError::NotAServicer)
    );
    let mut stranger = draft(&book, 9);
    sign_attestation(&mut stranger, &SigningKey::from_bytes(&id(109)));
    assert_eq!(
        book.accept_default_attestation(stranger, &registry, 213),
        Err(ServicingError::NotAServicer)
    );
    let mut invented = draft(&book, 5);
    invented.event_digest = id(77);
    sign_attestation(&mut invented, &SigningKey::from_bytes(&id(105)));
    assert_eq!(
        book.accept_default_attestation(invented, &registry, 213),
        Err(ServicingError::UnsupportedDefault)
    );
    let mut genuine = draft(&book, 5);
    sign_attestation(&mut genuine, &SigningKey::from_bytes(&id(105)));
    book.accept_default_attestation(genuine, &registry, 213)
        .unwrap();
    assert_eq!(
        book.status,
        ServicingStatus::Defaulted {
            attestation_id: id(61)
        }
    );
    assert!(book.validate().is_ok());
    assert!(book.root().is_ok());
    assert_eq!(
        book.record_payment_evidence(evidence(5, 105, 3, 40, 300), &registry, 301),
        Err(ServicingError::AlreadyDefaulted)
    );
}

#[test]
fn a_servicer_cannot_attest_before_the_book_derived_any_evidence() {
    let registry = registry();
    let mut book = ServicingBook::new(terms()).unwrap();
    let mut early = DefaultAttestation {
        operation_id: id(60),
        attestation_id: id(61),
        provider_id: id(5),
        stream_id: id(20),
        stream_state_version: 3,
        stream_state_root: id(62),
        event_digest: id(63),
        reason_digest: id(64),
        observed_at: 150,
        signature: Vec::new(),
    };
    sign_attestation(&mut early, &SigningKey::from_bytes(&id(105)));
    assert_eq!(
        book.accept_default_attestation(early, &registry, 151),
        Err(ServicingError::UnsupportedDefault)
    );
    assert_eq!(book.status, ServicingStatus::Performing);
}

#[test]
fn invalid_terms_are_refused_and_missed_installments_follow_the_grace() {
    let mut broken = terms();
    broken.schedule[1].due_at = 100;
    assert_eq!(
        ServicingBook::new(broken).unwrap_err(),
        ServicingError::InvalidTerms
    );
    let book = ServicingBook::new(terms()).unwrap();
    assert!(book.missed(110).is_empty());
    assert_eq!(
        book.missed(211)
            .iter()
            .map(|installment| installment.sequence)
            .collect::<Vec<_>>(),
        vec![1, 2]
    );
    assert!(book.terms.installment(5).is_none());
    assert_eq!(book.terms.installment(2).unwrap().due_at, 200);
}

fn observed_book() -> ServicingBook {
    let mut book = ServicingBook::new(terms()).unwrap();
    book.record_payment_evidence(evidence(1, 101, 1, 40, 95), &registry(), 96)
        .unwrap();
    book
}

fn attested_book() -> ServicingBook {
    let mut book = ServicingBook::new(terms()).unwrap();
    book.default_evidence(211).unwrap();
    let mut attestation = book
        .draft_default_attestation(id(60), id(61), id(5), 3, id(62), 212)
        .unwrap();
    sign_attestation(&mut attestation, &SigningKey::from_bytes(&id(105)));
    book.accept_default_attestation(attestation, &registry(), 213)
        .unwrap();
    book
}

#[test]
fn validate_checks_terms_then_evidence_then_the_attestation() {
    assert!(observed_book().validate().is_ok());
    assert!(attested_book().validate().is_ok());

    let mut broken_terms = observed_book();
    broken_terms.terms.default_after_missed = 0;
    broken_terms.evidence[0].paid_units = 0;
    assert_eq!(broken_terms.validate(), Err(ServicingError::InvalidTerms));

    let mut malformed = observed_book();
    malformed.evidence[0].paid_units = 0;
    assert_eq!(malformed.validate(), Err(ServicingError::InvalidEvidence));

    let mut elsewhere = observed_book();
    elsewhere.evidence[0].stream_id = id(21);
    assert_eq!(elsewhere.validate(), Err(ServicingError::InvalidState));

    let mut unsigned_form = attested_book();
    if let Some(attestation) = unsigned_form.accepted_attestation.as_mut() {
        attestation.stream_state_version = 0;
    }
    assert_eq!(
        unsigned_form.validate(),
        Err(ServicingError::Provider(
            ProviderError::InvalidDefaultAttestation
        ))
    );

    let mut renamed = attested_book();
    renamed.status = ServicingStatus::Defaulted {
        attestation_id: id(66),
    };
    assert_eq!(renamed.validate(), Err(ServicingError::InvalidState));
}
