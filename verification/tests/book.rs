use aethel::artifacts::{
    CreditDecision, DefaultAttestation, FundingQuote, GuaranteeCommitment, GuaranteeRelease,
    GuaranteeStatus, LossLayer,
};
use aethel::book::AethelBook;
use aethel::subject::ConfidentialSubjectBinding;
use aethel::provider::{
    ProviderCapability, ProviderDefinition, ProviderError, ProviderStatus, RegisterProvider,
    RotateProviderKey, SetProviderStatus,
};
use aethel::receivable::{
    AethelError, GuaranteeClaim, ReceivableIssuance, ReceivableSeries, ReceivableStatus,
    RegisterSeries, SeriesPolicy, SubjectKind,
};
use aethel::stream::{RegisterStream, StreamState, StreamStatus, StreamTransition};
use ed25519_dalek::{Signer, SigningKey};

fn id(byte: u8) -> [u8; 32] {
    [byte; 32]
}

fn signer(seed: u8) -> SigningKey {
    SigningKey::from_bytes(&id(seed))
}

fn sign(key: &SigningKey, statement: &[u8; 32]) -> Vec<u8> {
    key.sign(statement).to_bytes().to_vec()
}

fn provider(
    provider_id: u8,
    key: &SigningKey,
    capabilities: &[ProviderCapability],
    guarantor_id: Option<u8>,
) -> ProviderDefinition {
    ProviderDefinition {
        provider_id: id(provider_id),
        participant_id: id(provider_id + 40),
        capabilities: capabilities.to_vec(),
        public_key: key.verifying_key().to_bytes(),
        policy_registry_digest: id(provider_id + 80),
        defmi_guarantor_id: guarantor_id.map(id),
        valid_from: 1,
        valid_until: 2_000,
        sequence: 0,
        status: ProviderStatus::Active,
        retired_keys: Vec::new(),
    }
}

fn register_provider(book: &mut AethelBook, operation: u8, definition: ProviderDefinition) {
    book.register_provider(
        RegisterProvider {
            operation_id: id(operation),
            provider: definition,
        },
        10,
    )
    .unwrap();
}

fn initial_stream() -> StreamState {
    StreamState {
        stream_id: id(20),
        payer_commitment: id(21),
        payee_commitment: id(22),
        settlement_asset_id: id(23),
        source_domain_digest: id(24),
        terms_digest: id(25),
        event_root: id(26),
        accrued_commitment: id(27),
        paid_commitment: [0; 32],
        eligible_commitment: id(28),
        pledged_commitment: [0; 32],
        as_of: 40,
        version: 1,
        status: StreamStatus::Active,
    }
}

fn register_stream(book: &mut AethelBook, attestor: &SigningKey) {
    let mut request = RegisterStream {
        operation_id: id(30),
        attestor_provider_id: id(1),
        state: initial_stream(),
        source_evidence_digest: id(31),
        relation_proof_digest: id(32),
        signature: Vec::new(),
    };
    request.signature = sign(attestor, &request.statement().unwrap());
    book.register_stream(request, 40).unwrap();
}

fn register_series(book: &mut AethelBook, policy: SeriesPolicy) {
    book.register_series(
        RegisterSeries {
            operation_id: id(33),
            series: ReceivableSeries {
                series_id: id(34),
                aethel_domain_id: id(39),
                stream_id: id(20),
                receivable_asset_id: id(35),
                issuer_participant_id: id(36),
                policy,
                valid_from: 1,
                maturity: 1_000,
                sequence: 0,
                status: ReceivableStatus::Active,
            },
        },
        40,
    )
    .unwrap();
}

fn policy(credit: bool, guarantee: bool, funding: bool) -> SeriesPolicy {
    SeriesPolicy {
        requires_credit_decision: credit,
        requires_guarantee: guarantee,
        requires_funding_reservation: funding,
        requires_confidential_subject: false,
        subject_kind: SubjectKind::LegalEntity,
        required_qualifications: Vec::new(),
        accepted_issuer_namespace_digest: None,
        allow_secondary_transfer: true,
        eligibility_policy_digest: id(37),
        claim_policy_digest: id(38),
    }
}

fn issuance(
    book: &AethelBook,
    credit_decision_id: Option<[u8; 32]>,
    guarantee_id: Option<[u8; 32]>,
    funding_quote_id: Option<[u8; 32]>,
) -> ReceivableIssuance {
    let stream = &book.stream(&id(20)).unwrap().state;
    ReceivableIssuance {
        operation_id: id(90),
        issuance_id: id(91),
        request_id: id(50),
        series_id: id(34),
        note_id: id(92),
        owner_commitment: id(93),
        face_value_commitment: id(94),
        before_stream_state_version: stream.version,
        before_stream_state_root: stream.root().unwrap(),
        after_pledged_commitment: id(95),
        allocation_nullifier: id(96),
        credit_decision_id,
        guarantee_id,
        funding_quote_id,
        relation_proof_digest: id(97),
        zkpi_digest: id(98),
        issued_at: 50,
    }
}

fn decision(root: [u8; 32], key: &SigningKey) -> CreditDecision {
    let mut decision = CreditDecision {
        operation_id: id(51),
        decision_id: id(52),
        request_id: id(50),
        provider_id: id(2),
        series_id: id(34),
        stream_state_version: 1,
        stream_state_root: root,
        model_digest: id(53),
        policy_digest: id(54),
        decision_terms_commitment: id(55),
        relation_proof_digest: id(56),
        valid_until: 500,
        nonce: id(57),
        signature: Vec::new(),
    };
    decision.signature = sign(key, &decision.statement().unwrap());
    decision
}

fn guarantee(root: [u8; 32], key: &SigningKey, decision_id: Option<[u8; 32]>) -> GuaranteeCommitment {
    let mut guarantee = GuaranteeCommitment {
        operation_id: id(60),
        guarantee_id: id(61),
        request_id: id(50),
        provider_id: id(3),
        series_id: id(34),
        stream_state_version: 1,
        stream_state_root: root,
        credit_decision_id: decision_id,
        defmi_facility_id: id(62),
        defmi_hold_id: id(63),
        coverage_commitment: id(64),
        loss_layer: LossLayer::FirstLoss,
        guarantee_terms_digest: id(65),
        claim_policy_digest: id(38),
        relation_proof_digest: id(66),
        valid_until: 500,
        nonce: id(67),
        signature: Vec::new(),
        status: GuaranteeStatus::Available,
        bound_issuance_id: None,
    };
    guarantee.signature = sign(key, &guarantee.statement().unwrap());
    guarantee
}

fn quote(root: [u8; 32], key: &SigningKey) -> FundingQuote {
    let mut quote = FundingQuote {
        operation_id: id(70),
        quote_id: id(71),
        request_id: id(50),
        provider_id: id(4),
        series_id: id(34),
        stream_state_version: 1,
        stream_state_root: root,
        credit_decision_id: Some(id(52)),
        guarantee_id: Some(id(61)),
        cash_asset_id: id(23),
        cash_reservation_id: id(72),
        advance_commitment: id(73),
        price_commitment: id(74),
        quote_terms_digest: id(75),
        policy_digest: id(76),
        relation_proof_digest: id(77),
        valid_until: 500,
        nonce: id(78),
        signature: Vec::new(),
        bound_issuance_id: None,
    };
    quote.signature = sign(key, &quote.statement().unwrap());
    quote
}

/// A book with an attestor, an assessor, a guarantor, and a funder, a
/// stream, and a series requiring every artifact.
fn full_book() -> (AethelBook, [u8; 32]) {
    let mut book = AethelBook::new();
    register_provider(
        &mut book,
        10,
        provider(1, &signer(101), &[ProviderCapability::StreamAttestor], None),
    );
    register_provider(
        &mut book,
        11,
        provider(2, &signer(102), &[ProviderCapability::CreditAssessor], None),
    );
    register_provider(
        &mut book,
        12,
        provider(3, &signer(103), &[ProviderCapability::Guarantor], Some(43)),
    );
    register_provider(
        &mut book,
        13,
        provider(4, &signer(104), &[ProviderCapability::LiquidityProvider], None),
    );
    register_stream(&mut book, &signer(101));
    register_series(&mut book, policy(true, true, true));
    let root = book.stream(&id(20)).unwrap().state.root().unwrap();
    (book, root)
}

fn guarantee_status(book: &AethelBook, guarantee_id: [u8; 32]) -> GuaranteeStatus {
    book.guarantees
        .iter()
        .find(|g| g.guarantee_id == guarantee_id)
        .unwrap()
        .status
}

#[test]
fn unguaranteed_receivable_is_valid_when_series_policy_allows_it() {
    let attestor = signer(101);
    let mut book = AethelBook::new();
    register_provider(
        &mut book,
        10,
        provider(1, &attestor, &[ProviderCapability::StreamAttestor], None),
    );
    register_stream(&mut book, &attestor);
    register_series(&mut book, policy(false, false, false));

    let request = issuance(&book, None, None, None);
    book.issue_receivable(request, 50).unwrap();

    assert_eq!(book.stream(&id(20)).unwrap().state.version, 2);
    assert!(book.validate(&[]).is_ok());
}

#[test]
fn assessor_guarantor_and_liquidity_provider_are_independent_capabilities() {
    let (mut book, root) = full_book();
    book.record_credit_decision(decision(root, &signer(102)), 45)
        .unwrap();
    book.record_guarantee(guarantee(root, &signer(103), Some(id(52))), 46)
        .unwrap();
    book.record_funding_quote(quote(root, &signer(104)), 47)
        .unwrap();

    let request = issuance(&book, Some(id(52)), Some(id(61)), Some(id(71)));
    book.issue_receivable(request, 50).unwrap();

    assert_eq!(guarantee_status(&book, id(61)), GuaranteeStatus::Bound);
    assert_eq!(
        book.funding_quotes
            .iter()
            .find(|q| q.quote_id == id(71))
            .unwrap()
            .bound_issuance_id,
        Some(id(91))
    );
    assert!(book.validate(&[]).is_ok());

    book.issuances[0].request_id = id(99);
    assert_eq!(book.validate(&[]), Err(AethelError::InvalidState));
}

#[test]
fn credit_decision_cannot_substitute_for_required_guarantee() {
    let attestor = signer(101);
    let assessor = signer(102);
    let mut book = AethelBook::new();
    register_provider(
        &mut book,
        10,
        provider(1, &attestor, &[ProviderCapability::StreamAttestor], None),
    );
    register_provider(
        &mut book,
        11,
        provider(2, &assessor, &[ProviderCapability::CreditAssessor], None),
    );
    register_stream(&mut book, &attestor);
    register_series(&mut book, policy(true, true, false));
    let root = book.stream(&id(20)).unwrap().state.root().unwrap();
    book.record_credit_decision(decision(root, &assessor), 45)
        .unwrap();

    assert_eq!(
        book.issue_receivable(issuance(&book, Some(id(52)), None, None), 50),
        Err(AethelError::MissingRequiredArtifact)
    );
}

#[test]
fn guarantor_capability_requires_a_defmi_guarantor_identity() {
    let key = signer(103);
    assert_eq!(
        provider(3, &key, &[ProviderCapability::Guarantor], None).validate_initial(),
        Err(ProviderError::MissingGuaranteeAuthority)
    );
}

#[test]
fn one_operator_can_bundle_credit_guarantee_and_liquidity_capabilities() {
    let aethel_operator = signer(105);
    let bundled = provider(
        5,
        &aethel_operator,
        &[
            ProviderCapability::CreditAssessor,
            ProviderCapability::Guarantor,
            ProviderCapability::LiquidityProvider,
        ],
        Some(45),
    );
    bundled.validate_initial().unwrap();

    let mut book = AethelBook::new();
    register_provider(&mut book, 15, bundled);
    let registered = book.provider(&id(5)).unwrap();
    assert!(registered.has(ProviderCapability::CreditAssessor, 50));
    assert!(registered.has(ProviderCapability::Guarantor, 50));
    assert!(registered.has(ProviderCapability::LiquidityProvider, 50));
}

#[test]
fn an_issuance_is_used_once() {
    let (mut book, root) = full_book();
    book.record_credit_decision(decision(root, &signer(102)), 45)
        .unwrap();
    book.record_guarantee(guarantee(root, &signer(103), Some(id(52))), 46)
        .unwrap();
    book.record_funding_quote(quote(root, &signer(104)), 47)
        .unwrap();
    let request = issuance(&book, Some(id(52)), Some(id(61)), Some(id(71)));
    let again = request.clone();
    book.issue_receivable(request, 50).unwrap();
    assert_eq!(book.issue_receivable(again, 50), Err(AethelError::Replay));
    let mut reused = issuance(&book, Some(id(52)), Some(id(61)), Some(id(71)));
    reused.operation_id = id(120);
    reused.issuance_id = id(121);
    reused.note_id = id(122);
    assert_eq!(
        book.issue_receivable(reused, 50),
        Err(AethelError::DuplicateIssuance)
    );
}

#[test]
fn a_recorded_artifact_is_not_recorded_again() {
    let (mut book, root) = full_book();
    let first = decision(root, &signer(102));
    let again = first.clone();
    book.record_credit_decision(first, 45).unwrap();
    assert_eq!(
        book.record_credit_decision(again, 45),
        Err(AethelError::Replay)
    );
    book.record_guarantee(guarantee(root, &signer(103), Some(id(52))), 46)
        .unwrap();
    let first_quote = quote(root, &signer(104));
    let again_quote = first_quote.clone();
    book.record_funding_quote(first_quote, 47).unwrap();
    assert_eq!(
        book.record_funding_quote(again_quote, 47),
        Err(AethelError::InvalidFundingQuote)
    );
}

#[test]
fn only_the_providers_current_key_signs_new_artifacts() {
    let (mut book, root) = full_book();
    // Signed by the guarantor's key rather than the assessor's.
    assert_eq!(
        book.record_credit_decision(decision(root, &signer(103)), 45),
        Err(AethelError::InvalidSignature)
    );
    // A guarantor cannot sign a credit decision.
    let mut foreign = decision(root, &signer(103));
    foreign.provider_id = id(3);
    foreign.signature = sign(&signer(103), &foreign.statement().unwrap());
    assert_eq!(
        book.record_credit_decision(foreign, 45),
        Err(AethelError::MissingProviderCapability)
    );
    // A decision against an old stream state is stale.
    let mut stale = decision(id(7), &signer(102));
    stale.signature = sign(&signer(102), &stale.statement().unwrap());
    assert_eq!(
        book.record_credit_decision(stale, 45),
        Err(AethelError::StaleStreamState)
    );
}

#[test]
fn a_bound_guarantee_is_not_released_and_is_claimed_once() {
    let (mut book, root) = full_book();
    book.record_credit_decision(decision(root, &signer(102)), 45)
        .unwrap();
    book.record_guarantee(guarantee(root, &signer(103), Some(id(52))), 46)
        .unwrap();
    book.record_funding_quote(quote(root, &signer(104)), 47)
        .unwrap();
    let request = issuance(&book, Some(id(52)), Some(id(61)), Some(id(71)));
    book.issue_receivable(request, 50).unwrap();

    let mut release = GuaranteeRelease {
        operation_id: id(110),
        guarantee_id: id(61),
        provider_id: id(3),
        defmi_settlement_digest: id(111),
        relation_proof_digest: id(112),
        released_at: 60,
        signature: Vec::new(),
    };
    release.signature = sign(&signer(103), &release.statement().unwrap());
    assert_eq!(
        book.release_guarantee(release, 60),
        Err(AethelError::GuaranteeUnavailable)
    );

    // The stream defaults and a servicer attests it.
    register_provider(
        &mut book,
        14,
        provider(6, &signer(106), &[ProviderCapability::Servicer], None),
    );
    let current = book.stream(&id(20)).unwrap().state;
    let mut defaulted = current;
    defaulted.version = current.version + 1;
    defaulted.as_of = current.as_of + 10;
    defaulted.status = StreamStatus::Defaulted;
    let mut transition = StreamTransition {
        operation_id: id(113),
        attestor_provider_id: id(1),
        before_state_root: current.root().unwrap(),
        after_state: defaulted,
        source_evidence_digest: id(114),
        relation_proof_digest: id(115),
        signature: Vec::new(),
    };
    transition.signature = sign(&signer(101), &transition.statement().unwrap());
    book.transition_stream(transition, 61).unwrap();
    let mut attestation = DefaultAttestation {
        operation_id: id(116),
        attestation_id: id(117),
        provider_id: id(6),
        stream_id: id(20),
        stream_state_version: defaulted.version,
        stream_state_root: defaulted.root().unwrap(),
        event_digest: id(118),
        reason_digest: id(119),
        observed_at: 61,
        signature: Vec::new(),
    };
    attestation.signature = sign(&signer(106), &attestation.statement().unwrap());
    book.record_default(attestation, 62).unwrap();

    let claim = GuaranteeClaim {
        operation_id: id(123),
        claim_id: id(124),
        guarantee_id: id(61),
        issuance_id: id(91),
        default_attestation_id: id(117),
        claim_amount_commitment: id(125),
        recovery_recipient_commitment: id(126),
        defmi_settlement_digest: id(127),
        relation_proof_digest: id(128),
        zkpi_digest: id(129),
        claimed_at: 63,
    };
    let mut second = claim.clone();
    second.operation_id = id(130);
    second.claim_id = id(131);
    second.claimed_at = 64;
    book.claim_guarantee(claim, 63).unwrap();
    assert_eq!(guarantee_status(&book, id(61)), GuaranteeStatus::Claimed);
    assert_eq!(
        book.claim_guarantee(second, 64),
        Err(AethelError::GuaranteeUnavailable)
    );
    assert!(book.validate(&[]).is_ok());
}

#[test]
fn an_unbound_guarantee_is_released_by_its_guarantor() {
    let (mut book, root) = full_book();
    book.record_credit_decision(decision(root, &signer(102)), 45)
        .unwrap();
    book.record_guarantee(guarantee(root, &signer(103), Some(id(52))), 46)
        .unwrap();
    let mut release = GuaranteeRelease {
        operation_id: id(110),
        guarantee_id: id(61),
        provider_id: id(3),
        defmi_settlement_digest: id(111),
        relation_proof_digest: id(112),
        released_at: 60,
        signature: Vec::new(),
    };
    release.signature = sign(&signer(103), &release.statement().unwrap());
    let again = release.clone();
    book.release_guarantee(release, 60).unwrap();
    assert_eq!(guarantee_status(&book, id(61)), GuaranteeStatus::Released);
    assert_eq!(book.release_guarantee(again, 60), Err(AethelError::Replay));
    assert!(book.validate(&[]).is_ok());
}

#[test]
fn revocation_is_terminal_and_rotation_retires_the_old_key() {
    let (mut book, root) = full_book();
    let next = signer(150);
    let mut rotation = RotateProviderKey {
        operation_id: id(140),
        provider_id: id(2),
        next_public_key: next.verifying_key().to_bytes(),
        expected_sequence: 0,
        rotated_at: 44,
        signature: Vec::new(),
    };
    // Signed by the old key: possession of the next key is not shown.
    rotation.signature = sign(&signer(102), &rotation.statement().unwrap());
    assert_eq!(
        book.rotate_provider_key(rotation.clone(), 44),
        Err(AethelError::InvalidSignature)
    );
    rotation.signature = sign(&next, &rotation.statement().unwrap());
    book.rotate_provider_key(rotation, 44).unwrap();
    let rotated = book.provider(&id(2)).unwrap();
    assert_eq!(rotated.sequence, 1);
    assert_eq!(rotated.retired_keys.len(), 1);
    assert_eq!(
        rotated.registration_key(),
        signer(102).verifying_key().to_bytes()
    );
    // The retired key signs nothing new; the next key does.
    assert_eq!(
        book.record_credit_decision(decision(root, &signer(102)), 45),
        Err(AethelError::InvalidSignature)
    );
    book.record_credit_decision(decision(root, &next), 45).unwrap();

    let revoke = SetProviderStatus {
        operation_id: id(141),
        provider_id: id(2),
        status: ProviderStatus::Revoked,
        expected_sequence: 1,
        effective_at: 46,
    };
    book.set_provider_status(revoke, 46).unwrap();
    let reinstate = SetProviderStatus {
        operation_id: id(142),
        provider_id: id(2),
        status: ProviderStatus::Active,
        expected_sequence: 2,
        effective_at: 47,
    };
    assert_eq!(
        book.set_provider_status(reinstate, 47),
        Err(AethelError::ProviderRevoked)
    );
    // What the revoked provider recorded while active stays valid.
    assert!(book.validate(&[]).is_ok());
}

#[test]
fn book_registrations_refuse_duplicates_and_bad_windows() {
    let (mut book, _) = full_book();
    assert!(!book.is_empty());
    assert!(AethelBook::new().is_empty());
    assert_eq!(
        book.register_provider(
            RegisterProvider {
                operation_id: id(160),
                provider: provider(1, &signer(101), &[ProviderCapability::StreamAttestor], None),
            },
            10,
        ),
        Err(AethelError::DuplicateProvider)
    );
    assert_eq!(
        book.register_provider(
            RegisterProvider {
                operation_id: id(161),
                provider: provider(7, &signer(107), &[ProviderCapability::Servicer], None),
            },
            5_000,
        ),
        Err(AethelError::OutsideValidityWindow)
    );
    let mut request = RegisterStream {
        operation_id: id(162),
        attestor_provider_id: id(1),
        state: initial_stream(),
        source_evidence_digest: id(31),
        relation_proof_digest: id(32),
        signature: Vec::new(),
    };
    request.signature = sign(&signer(101), &request.statement().unwrap());
    assert_eq!(
        book.register_stream(request, 40),
        Err(AethelError::DuplicateStream)
    );
    assert_eq!(book.stream(&id(77)).err(), Some(AethelError::UnknownStream));
    assert_eq!(book.provider(&id(77)).err(), Some(AethelError::UnknownProvider));
    assert!(book.confidential_subject(&id(50)).is_none());
}

#[test]
fn every_accepted_operation_keeps_the_book_valid() {
    let mut book = AethelBook::new();
    assert!(book.validate(&[]).is_ok());
    register_provider(
        &mut book,
        10,
        provider(1, &signer(101), &[ProviderCapability::StreamAttestor], None),
    );
    assert!(book.validate(&[]).is_ok());
    register_provider(
        &mut book,
        11,
        provider(2, &signer(102), &[ProviderCapability::CreditAssessor], None),
    );
    register_provider(
        &mut book,
        12,
        provider(3, &signer(103), &[ProviderCapability::Guarantor], Some(43)),
    );
    register_provider(
        &mut book,
        13,
        provider(4, &signer(104), &[ProviderCapability::LiquidityProvider], None),
    );
    assert!(book.validate(&[]).is_ok());
    register_stream(&mut book, &signer(101));
    assert!(book.validate(&[]).is_ok());
    register_series(&mut book, policy(true, true, true));
    assert!(book.validate(&[]).is_ok());
    let root = book.stream(&id(20)).unwrap().state.root().unwrap();
    book.record_credit_decision(decision(root, &signer(102)), 45)
        .unwrap();
    assert!(book.validate(&[]).is_ok());
    book.record_guarantee(guarantee(root, &signer(103), Some(id(52))), 46)
        .unwrap();
    assert!(book.validate(&[]).is_ok());
    book.record_funding_quote(quote(root, &signer(104)), 47)
        .unwrap();
    assert!(book.validate(&[]).is_ok());
    let request = issuance(&book, Some(id(52)), Some(id(61)), Some(id(71)));
    book.issue_receivable(request, 50).unwrap();
    assert!(book.validate(&[]).is_ok());
    assert_eq!(guarantee_status(&book, id(61)), GuaranteeStatus::Bound);
    assert_eq!(book.stream(&id(20)).unwrap().state.version, 2);
    assert_eq!(book.stream(&id(20)).unwrap().state.pledged_commitment, id(95));
    let mut status = SetProviderStatus {
        operation_id: id(140),
        provider_id: id(4),
        status: ProviderStatus::Suspended,
        expected_sequence: 0,
        effective_at: 70,
    };
    book.set_provider_status(status.clone(), 70).unwrap();
    assert!(book.validate(&[]).is_ok());
    status.operation_id = id(142);
    status.status = ProviderStatus::Active;
    status.expected_sequence = 1;
    book.set_provider_status(status, 70).unwrap();
    assert!(book.validate(&[]).is_ok());
}

fn signed_decision(
    book: &AethelBook,
    assessor: &SigningKey,
    operation: u8,
    decision_id: u8,
    request_id: u8,
    nonce: u8,
) -> CreditDecision {
    let stream = &book.stream(&id(20)).unwrap().state;
    let mut decision = CreditDecision {
        operation_id: id(operation),
        decision_id: id(decision_id),
        request_id: id(request_id),
        provider_id: id(2),
        series_id: id(34),
        stream_state_version: stream.version,
        stream_state_root: stream.root().unwrap(),
        model_digest: id(53),
        policy_digest: id(54),
        decision_terms_commitment: id(28),
        relation_proof_digest: id(56),
        valid_until: 500,
        nonce: id(nonce),
        signature: Vec::new(),
    };
    decision.signature = sign(assessor, &decision.statement().unwrap());
    decision
}

#[allow(clippy::too_many_arguments)]
fn signed_guarantee(
    book: &AethelBook,
    guarantor: &SigningKey,
    operation: u8,
    guarantee_id: u8,
    request_id: u8,
    decision_id: u8,
    hold: u8,
    nonce: u8,
) -> GuaranteeCommitment {
    let stream = &book.stream(&id(20)).unwrap().state;
    let mut guarantee = GuaranteeCommitment {
        operation_id: id(operation),
        guarantee_id: id(guarantee_id),
        request_id: id(request_id),
        provider_id: id(3),
        series_id: id(34),
        stream_state_version: stream.version,
        stream_state_root: stream.root().unwrap(),
        credit_decision_id: Some(id(decision_id)),
        defmi_facility_id: id(62),
        defmi_hold_id: id(hold),
        coverage_commitment: id(64),
        loss_layer: LossLayer::FirstLoss,
        guarantee_terms_digest: id(65),
        claim_policy_digest: id(38),
        relation_proof_digest: id(66),
        valid_until: 500,
        nonce: id(nonce),
        signature: Vec::new(),
        status: GuaranteeStatus::Available,
        bound_issuance_id: None,
    };
    guarantee.signature = sign(guarantor, &guarantee.statement().unwrap());
    guarantee
}

fn provider_rotation(
    provider: u8,
    next: &SigningKey,
    signer_of_request: &SigningKey,
    operation: u8,
    expected_sequence: u64,
    rotated_at: u64,
) -> RotateProviderKey {
    let mut rotation = RotateProviderKey {
        operation_id: id(operation),
        provider_id: id(provider),
        next_public_key: next.verifying_key().to_bytes(),
        expected_sequence,
        rotated_at,
        signature: Vec::new(),
    };
    rotation.signature = sign(signer_of_request, &rotation.statement().unwrap());
    rotation
}

fn provider_status(
    provider: u8,
    status: ProviderStatus,
    operation: u8,
    expected_sequence: u64,
    effective_at: u64,
) -> SetProviderStatus {
    SetProviderStatus {
        operation_id: id(operation),
        provider_id: id(provider),
        status,
        expected_sequence,
        effective_at,
    }
}

#[test]
fn provider_key_rotation_retires_the_old_key_but_keeps_what_it_recorded() {
    let attestor = signer(101);
    let assessor = signer(102);
    let mut book = AethelBook::default();
    register_provider(
        &mut book,
        10,
        provider(1, &attestor, &[ProviderCapability::StreamAttestor], None),
    );
    register_provider(
        &mut book,
        11,
        provider(2, &assessor, &[ProviderCapability::CreditAssessor], None),
    );
    register_stream(&mut book, &attestor);
    register_series(&mut book, policy(true, false, false));
    let first = signed_decision(&book, &assessor, 51, 52, 50, 57);
    book.record_credit_decision(first.clone(), 45).unwrap();

    let next = signer(112);
    assert_eq!(
        book.rotate_provider_key(provider_rotation(2, &next, &assessor, 70, 0, 46), 46),
        Err(AethelError::InvalidSignature)
    );
    assert_eq!(
        book.rotate_provider_key(provider_rotation(2, &next, &next, 70, 1, 46), 46),
        Err(AethelError::StaleSequence)
    );
    book.rotate_provider_key(provider_rotation(2, &next, &next, 70, 0, 46), 46)
        .unwrap();
    let rotated = book.provider(&id(2)).unwrap().clone();
    assert_eq!(rotated.sequence, 1);
    assert_eq!(rotated.public_key, next.verifying_key().to_bytes());
    assert_eq!(rotated.retired_keys.len(), 1);
    assert_eq!(rotated.retired_keys[0].retired_at, 46);
    assert_eq!(
        rotated.registration_key(),
        assessor.verifying_key().to_bytes()
    );

    assert_eq!(
        book.record_credit_decision(signed_decision(&book, &assessor, 71, 72, 50, 73), 47),
        Err(AethelError::InvalidSignature)
    );
    book.record_credit_decision(signed_decision(&book, &next, 71, 72, 50, 73), 47)
        .unwrap();
    book.validate(&[]).unwrap();
    assert_eq!(book.credit_decisions.len(), 2);
    assert_eq!(
        book.rotate_provider_key(provider_rotation(2, &assessor, &assessor, 74, 1, 48), 48),
        Err(AethelError::InvalidProviderKey)
    );

    book.set_provider_status(provider_status(2, ProviderStatus::Suspended, 75, 1, 49), 49)
        .unwrap();
    let while_suspended = signed_decision(&book, &next, 76, 77, 50, 78);
    assert_eq!(
        book.record_credit_decision(while_suspended.clone(), 49),
        Err(AethelError::MissingProviderCapability)
    );
    assert_eq!(
        book.set_provider_status(provider_status(2, ProviderStatus::Active, 79, 1, 50), 50),
        Err(AethelError::StaleSequence)
    );
    book.set_provider_status(provider_status(2, ProviderStatus::Active, 79, 2, 50), 50)
        .unwrap();
    book.record_credit_decision(while_suspended, 50).unwrap();
    book.set_provider_status(provider_status(2, ProviderStatus::Revoked, 80, 3, 51), 51)
        .unwrap();
    assert_eq!(
        book.set_provider_status(provider_status(2, ProviderStatus::Active, 81, 4, 52), 52),
        Err(AethelError::ProviderRevoked)
    );
    assert_eq!(
        book.rotate_provider_key(
            provider_rotation(2, &signer(113), &signer(113), 82, 4, 52),
            52
        ),
        Err(AethelError::ProviderRevoked)
    );
    assert_eq!(book.provider(&id(2)).unwrap().sequence, 4);
    assert_eq!(book.credit_decisions.len(), 3);
    book.validate(&[]).unwrap();
}

#[test]
fn guarantor_can_release_only_its_own_unbound_guarantee() {
    let attestor = signer(101);
    let assessor = signer(102);
    let guarantor = signer(103);
    let mut book = AethelBook::default();
    register_provider(
        &mut book,
        10,
        provider(1, &attestor, &[ProviderCapability::StreamAttestor], None),
    );
    register_provider(
        &mut book,
        11,
        provider(2, &assessor, &[ProviderCapability::CreditAssessor], None),
    );
    register_provider(
        &mut book,
        12,
        provider(3, &guarantor, &[ProviderCapability::Guarantor], Some(43)),
    );
    register_stream(&mut book, &attestor);
    register_series(&mut book, policy(true, true, false));
    book.record_credit_decision(signed_decision(&book, &assessor, 51, 52, 50, 57), 45)
        .unwrap();
    book.record_guarantee(
        signed_guarantee(&book, &guarantor, 60, 61, 50, 52, 63, 67),
        46,
    )
    .unwrap();

    let release_by = |signer: &SigningKey, provider: u8, guarantee: u8, operation: u8, at: u64| {
        let mut release = GuaranteeRelease {
            operation_id: id(operation),
            guarantee_id: id(guarantee),
            provider_id: id(provider),
            defmi_settlement_digest: id(83),
            relation_proof_digest: id(84),
            released_at: at,
            signature: Vec::new(),
        };
        release.signature = sign(signer, &release.statement().unwrap());
        release
    };
    assert_eq!(
        book.release_guarantee(release_by(&assessor, 2, 61, 85, 47), 47),
        Err(AethelError::MissingProviderCapability)
    );
    book.release_guarantee(release_by(&guarantor, 3, 61, 85, 47), 47)
        .unwrap();
    assert_eq!(guarantee_status(&book, id(61)), GuaranteeStatus::Released);
    assert_eq!(
        book.issue_receivable(issuance(&book, Some(id(52)), Some(id(61)), None), 50),
        Err(AethelError::MismatchedArtifact)
    );
    assert_eq!(
        book.release_guarantee(release_by(&guarantor, 3, 61, 86, 51), 51),
        Err(AethelError::GuaranteeUnavailable)
    );
    book.validate(&[]).unwrap();

    book.record_guarantee(
        signed_guarantee(&book, &guarantor, 87, 88, 50, 52, 89, 90),
        52,
    )
    .unwrap();
    book.issue_receivable(issuance(&book, Some(id(52)), Some(id(88)), None), 50)
        .unwrap();
    assert_eq!(
        book.release_guarantee(release_by(&guarantor, 3, 88, 91, 53), 53),
        Err(AethelError::GuaranteeUnavailable)
    );
    book.validate(&[]).unwrap();
}

#[test]
fn a_stray_allocation_nullifier_makes_the_book_invalid() {
    assert_eq!(AethelBook::default().validate(&[]), Ok(()));
    let mut book = AethelBook::default();
    book.used_allocation_nullifiers.push(id(1));
    assert_eq!(book.validate(&[]), Err(AethelError::InvalidState));
    let mut twice = AethelBook::default();
    twice.used_operations.push(id(2));
    twice.used_operations.push(id(2));
    assert_eq!(twice.validate(&[]), Err(AethelError::InvalidState));
}

fn decided_book() -> AethelBook {
    let (mut book, root) = full_book();
    book.record_credit_decision(decision(root, &signer(102)), 45)
        .unwrap();
    book
}

#[test]
fn validate_reports_the_record_that_fails_the_first_failing_check() {
    assert_eq!(decided_book().validate(&[]), Ok(()));

    let mut bad_provider = decided_book();
    bad_provider.providers[1].participant_id = [0u8; 32];
    bad_provider.streams[0].attestor_provider_id = id(9);
    assert_eq!(bad_provider.validate(&[]), Err(AethelError::InvalidProvider));

    let mut orphan_stream = decided_book();
    orphan_stream.streams[0].attestor_provider_id = id(9);
    assert_eq!(orphan_stream.validate(&[]), Err(AethelError::UnknownProvider));

    let mut verdicts = decided_book();
    verdicts.credit_decisions[0].signature[0] ^= 1;
    assert_eq!(verdicts.validate(&[true]), Err(AethelError::InvalidState));

    let mut forged = decided_book();
    forged.credit_decisions[0].signature[0] ^= 1;
    forged.providers[1].capabilities = vec![ProviderCapability::LiquidityProvider];
    assert_eq!(forged.validate(&[]), Err(AethelError::InvalidSignature));

    let mut unassessed = decided_book();
    unassessed.providers[1].capabilities = vec![ProviderCapability::LiquidityProvider];
    assert_eq!(unassessed.validate(&[]), Err(AethelError::InvalidState));
}

fn subject(request: u8, line: u8) -> ConfidentialSubjectBinding {
    ConfidentialSubjectBinding {
        request_id: id(request),
        issuer_provider_id: id(6),
        issuer_key_epoch: 1,
        issuer_namespace_digest: id(160),
        subject_commitment: id(161),
        scope_digest: id(request),
        policy_digest: id(37),
        subject_nullifier: id(162),
        proof_digest: id(163),
        subject_line_id: id(line),
        valid_until: 600,
    }
}

#[test]
fn a_confidential_artifact_binds_its_subject_line_and_both_or_neither_take_effect() {
    let (mut book, root) = full_book();
    register_provider(
        &mut book,
        14,
        provider(6, &signer(106), &[ProviderCapability::CredentialIssuer], None),
    );
    assert_eq!(
        book.record_confidential_credit_decision(subject(49, 164), decision(root, &signer(102)), 45),
        Err(AethelError::MismatchedConfidentialSubject)
    );
    let mut forged = decision(root, &signer(102));
    forged.signature[0] ^= 1;
    assert!(book
        .record_confidential_credit_decision(subject(50, 164), forged, 45)
        .is_err());
    assert!(book.confidential_subject(&id(50)).is_none());
    assert_eq!(book.validate(&[]), Ok(()));

    book.record_confidential_credit_decision(subject(50, 164), decision(root, &signer(102)), 45)
        .unwrap();
    assert_eq!(book.confidential_subject(&id(50)), Some(&subject(50, 164)));
    assert_eq!(book.validate(&[true]), Ok(()));
    assert_eq!(book.validate(&[false]), Err(AethelError::InvalidState));

    assert_eq!(
        book.record_confidential_guarantee(
            subject(50, 165),
            guarantee(root, &signer(103), Some(id(52))),
            46
        ),
        Err(AethelError::MismatchedConfidentialSubject)
    );
    book.record_confidential_guarantee(
        subject(50, 164),
        guarantee(root, &signer(103), Some(id(52))),
        46,
    )
    .unwrap();
    assert_eq!(book.validate(&[true]), Ok(()));
}
