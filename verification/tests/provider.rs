use aethel::artifacts::CreditDecision;
use aethel::contract::{active_provider, sign_artifact, sign_possession, verify_artifact, SignedArtifact};
use aethel::stream::RegisterStream;
use aethel::provider::{
    find_provider, ProviderCapability, ProviderDefinition, ProviderError, ProviderStatus,
    RegisterProvider, RetiredProviderKey, RotateProviderKey, SetProviderStatus,
};
use ed25519_dalek::{Signer, SigningKey};

fn id(byte: u8) -> [u8; 32] {
    [byte; 32]
}

fn signer(seed: u8) -> SigningKey {
    SigningKey::from_bytes(&id(seed))
}

fn sign(key: &SigningKey, statement: &[u8; 32]) -> Vec<u8> {
    key.sign(statement).to_bytes().to_vec()
}

fn definition(key: &SigningKey, capabilities: &[ProviderCapability]) -> ProviderDefinition {
    ProviderDefinition {
        provider_id: id(1),
        participant_id: id(2),
        capabilities: capabilities.to_vec(),
        public_key: key.verifying_key().to_bytes(),
        policy_registry_digest: id(3),
        defmi_guarantor_id: None,
        valid_from: 10,
        valid_until: 1_000,
        sequence: 0,
        status: ProviderStatus::Active,
        retired_keys: Vec::new(),
    }
}

fn decision(key: &SigningKey) -> CreditDecision {
    let mut decision = CreditDecision {
        operation_id: id(11),
        decision_id: id(12),
        request_id: id(13),
        provider_id: id(1),
        series_id: id(14),
        stream_state_version: 1,
        stream_state_root: id(15),
        model_digest: id(16),
        policy_digest: id(17),
        decision_terms_commitment: id(18),
        relation_proof_digest: id(19),
        valid_until: 500,
        nonce: id(20),
        signature: Vec::new(),
    };
    decision.signature = sign(key, &decision.statement().unwrap());
    decision
}

#[test]
fn provider_validation_names_each_defect() {
    let key = signer(101);
    let valid = definition(&key, &[ProviderCapability::CreditAssessor]);
    assert_eq!(valid.validate_initial(), Ok(()));

    let mut zero = valid.clone();
    zero.provider_id = [0; 32];
    assert_eq!(zero.validate(), Err(ProviderError::InvalidProvider));

    let unordered = definition(
        &key,
        &[ProviderCapability::Servicer, ProviderCapability::CreditAssessor],
    );
    assert_eq!(unordered.validate(), Err(ProviderError::InvalidProvider));

    let empty = definition(&key, &[]);
    assert_eq!(empty.validate(), Err(ProviderError::InvalidProvider));

    let guarantor = definition(&key, &[ProviderCapability::Guarantor]);
    assert_eq!(
        guarantor.validate(),
        Err(ProviderError::MissingGuaranteeAuthority)
    );
    let mut with_authority = guarantor.clone();
    with_authority.defmi_guarantor_id = Some(id(9));
    assert_eq!(with_authority.validate(), Ok(()));

    let mut assessor_with_authority = valid.clone();
    assessor_with_authority.defmi_guarantor_id = Some(id(9));
    assert_eq!(
        assessor_with_authority.validate(),
        Err(ProviderError::InvalidProvider)
    );

    let mut counted = valid.clone();
    counted.sequence = 1;
    assert_eq!(counted.validate(), Ok(()));
    assert_eq!(counted.validate_initial(), Err(ProviderError::InvalidProvider));
}

#[test]
fn capabilities_are_held_only_while_active_in_the_window() {
    let key = signer(101);
    let mut provider = definition(
        &key,
        &[ProviderCapability::CreditAssessor, ProviderCapability::Servicer],
    );
    assert!(provider.has(ProviderCapability::Servicer, 10));
    assert!(provider.has(ProviderCapability::CreditAssessor, 1_000));
    assert!(!provider.has(ProviderCapability::Guarantor, 500));
    assert!(!provider.has(ProviderCapability::Servicer, 9));
    assert!(!provider.has(ProviderCapability::Servicer, 1_001));
    assert!(provider.holds(ProviderCapability::Servicer));
    provider.status = ProviderStatus::Suspended;
    assert!(!provider.has(ProviderCapability::Servicer, 500));
    assert!(provider.holds(ProviderCapability::Servicer));
}

#[test]
fn a_retired_key_verifies_what_it_recorded_and_nothing_new() {
    let old = signer(101);
    let next = signer(102);
    let recorded = decision(&old);
    let statement = recorded.statement().unwrap();

    let mut provider = definition(&old, &[ProviderCapability::CreditAssessor]);
    assert_eq!(
        provider.verify_new_signature(&statement, &recorded.signature),
        Ok(())
    );
    provider.retired_keys.push(RetiredProviderKey {
        public_key: provider.public_key,
        retired_at: 50,
    });
    provider.public_key = next.verifying_key().to_bytes();
    provider.sequence = 1;
    assert_eq!(provider.validate(), Ok(()));
    assert_eq!(
        provider.verify_new_signature(&statement, &recorded.signature),
        Err(ProviderError::InvalidSignature)
    );
    assert_eq!(
        provider.verify_recorded_signature(&statement, &recorded.signature),
        Ok(())
    );
    assert_eq!(provider.registration_key(), old.verifying_key().to_bytes());
    assert_eq!(
        provider.signing_keys(),
        vec![old.verifying_key().to_bytes(), next.verifying_key().to_bytes()]
    );
    let mut short = recorded.signature.clone();
    short.pop();
    assert_eq!(
        provider.verify_recorded_signature(&statement, &short),
        Err(ProviderError::InvalidSignature)
    );
    let stranger = decision(&signer(103));
    assert_eq!(
        provider.verify_recorded_signature(&statement, &stranger.signature),
        Err(ProviderError::InvalidSignature)
    );

    // A key that was ever the provider's cannot come back.
    let mut returned = provider.clone();
    returned.public_key = old.verifying_key().to_bytes();
    assert_eq!(returned.validate(), Err(ProviderError::InvalidProvider));
}

#[test]
fn rotation_proves_possession_of_the_next_key() {
    let old = signer(101);
    let next = signer(102);
    let mut rotation = RotateProviderKey {
        operation_id: id(20),
        provider_id: id(1),
        next_public_key: next.verifying_key().to_bytes(),
        expected_sequence: 0,
        rotated_at: 50,
        signature: Vec::new(),
    };
    let statement = rotation.statement().unwrap();
    rotation.signature = sign(&old, &statement);
    assert_eq!(
        rotation.verify_possession(),
        Err(ProviderError::InvalidSignature)
    );
    rotation.signature = sign(&next, &statement);
    assert_eq!(rotation.verify_possession(), Ok(statement));

    let mut undated = rotation.clone();
    undated.rotated_at = 0;
    assert_eq!(undated.statement(), Err(ProviderError::InvalidProvider));
    let mut later = rotation.clone();
    later.rotated_at = 51;
    assert_ne!(later.statement().unwrap(), statement);
}

#[test]
fn control_requests_are_digested_over_their_fields() {
    let status = SetProviderStatus {
        operation_id: id(30),
        provider_id: id(1),
        status: ProviderStatus::Suspended,
        expected_sequence: 0,
        effective_at: 60,
    };
    let statement = status.statement().unwrap();
    let mut revoke = status;
    revoke.status = ProviderStatus::Revoked;
    assert_ne!(revoke.statement().unwrap(), statement);
    let mut unset = status;
    unset.operation_id = [0; 32];
    assert_eq!(unset.statement(), Err(ProviderError::InvalidProvider));

    let key = signer(101);
    let register = RegisterProvider {
        operation_id: id(31),
        provider: definition(&key, &[ProviderCapability::Servicer]),
    };
    assert!(register.statement().is_ok());
    let mut counted = register.clone();
    counted.provider.sequence = 1;
    assert_eq!(counted.statement(), Err(ProviderError::InvalidProvider));
}

#[test]
fn a_registry_finds_providers_by_identifier() {
    let first = definition(&signer(101), &[ProviderCapability::Servicer]);
    let mut second = definition(&signer(102), &[ProviderCapability::CreditAssessor]);
    second.provider_id = id(7);
    let registry = vec![first, second];
    assert_eq!(
        find_provider(&registry, &id(7)).map(|p| p.public_key),
        Some(signer(102).verifying_key().to_bytes())
    );
    assert!(find_provider(&registry, &id(8)).is_none());
}

#[test]
fn artifact_statements_cover_the_unsigned_form() {
    let key = signer(101);
    let signed = decision(&key);
    let statement = signed.statement().unwrap();
    // The signature is not part of what is signed.
    let mut resigned = signed.clone();
    resigned.signature = vec![1; 64];
    assert_eq!(resigned.statement().unwrap(), statement);
    let encoding = String::from_utf8(signed.unsigned_encoding_bytes()).unwrap();
    assert!(encoding.starts_with("{\"operationId\":[11,11,"));
    assert!(encoding.ends_with(",\"signature\":[]}"));
    let mut malformed = signed.clone();
    malformed.nonce = [0; 32];
    assert_eq!(
        malformed.statement(),
        Err(ProviderError::InvalidCreditDecision)
    );
    let mut later = signed;
    later.valid_until = 501;
    assert_ne!(later.statement().unwrap(), statement);
}

fn unsigned_decision() -> CreditDecision {
    CreditDecision {
        operation_id: id(10),
        decision_id: id(11),
        request_id: id(12),
        provider_id: id(1),
        series_id: id(13),
        stream_state_version: 1,
        stream_state_root: id(14),
        model_digest: id(15),
        policy_digest: id(16),
        decision_terms_commitment: id(17),
        relation_proof_digest: id(18),
        valid_until: 500,
        nonce: id(19),
        signature: Vec::new(),
    }
}

#[test]
fn a_malformed_artifact_is_never_signed() {
    let mut decision = unsigned_decision();
    decision.nonce = [0; 32];
    assert_eq!(
        sign_artifact(&mut decision, &id(101)),
        Err(ProviderError::InvalidCreditDecision)
    );
    assert!(decision.signature.is_empty());
}

#[test]
fn signing_an_artifact_uses_the_current_key_over_its_statement() {
    let key = signer(101);
    let mut decision = unsigned_decision();
    let statement = sign_artifact(&mut decision, &id(101)).unwrap();
    assert_eq!(decision.statement().unwrap(), statement);
    assert_eq!(decision.signature, sign(&key, &statement));
    let provider = definition(&key, &[ProviderCapability::CreditAssessor]);
    assert_eq!(provider.verify_new_signature(&statement, &decision.signature), Ok(()));
    assert_eq!(
        SignedArtifact::capability(&decision),
        ProviderCapability::CreditAssessor
    );
    assert_eq!(SignedArtifact::provider_id(&decision), id(1));

    let mut stream = RegisterStream {
        operation_id: id(30),
        attestor_provider_id: id(1),
        state: aethel::stream::StreamState {
            stream_id: id(20),
            payer_commitment: id(21),
            payee_commitment: id(22),
            settlement_asset_id: id(23),
            source_domain_digest: id(24),
            terms_digest: id(25),
            event_root: id(26),
            accrued_commitment: id(27),
            paid_commitment: [0; 32],
            eligible_commitment: id(28),
            pledged_commitment: [0; 32],
            as_of: 40,
            version: 2,
            status: aethel::stream::StreamStatus::Active,
        },
        source_evidence_digest: id(31),
        relation_proof_digest: id(32),
        signature: Vec::new(),
    };
    assert_eq!(
        sign_artifact(&mut stream, &id(101)),
        Err(ProviderError::InvalidStream)
    );
    stream.state.version = 1;
    let statement = sign_artifact(&mut stream, &id(101)).unwrap();
    assert_eq!(stream.signature, sign(&key, &statement));
}

#[test]
fn possession_is_signed_with_the_next_key() {
    let next = signer(102);
    let mut rotation = RotateProviderKey {
        operation_id: id(20),
        provider_id: id(1),
        next_public_key: next.verifying_key().to_bytes(),
        expected_sequence: 0,
        rotated_at: 50,
        signature: Vec::new(),
    };
    let statement = sign_possession(&mut rotation, &id(102)).unwrap();
    assert_eq!(rotation.verify_possession(), Ok(statement));
    rotation.rotated_at = 0;
    rotation.signature = Vec::new();
    assert_eq!(
        sign_possession(&mut rotation, &id(102)),
        Err(ProviderError::InvalidProvider)
    );
    assert!(rotation.signature.is_empty());
}

fn sdk_definition(key: &SigningKey, capabilities: &[ProviderCapability]) -> ProviderDefinition {
    ProviderDefinition {
        provider_id: id(1),
        participant_id: id(2),
        capabilities: capabilities.to_vec(),
        public_key: key.verifying_key().to_bytes(),
        policy_registry_digest: id(3),
        defmi_guarantor_id: None,
        valid_from: 1,
        valid_until: 1_000,
        sequence: 0,
        status: ProviderStatus::Active,
        retired_keys: Vec::new(),
    }
}

#[test]
fn an_artifact_is_accepted_only_under_the_capability_it_needs() {
    let key = SigningKey::from_bytes(&id(101));
    let mut decision = unsigned_decision();
    let statement = sign_artifact(&mut decision, &id(101)).unwrap();
    assert_eq!(decision.statement().unwrap(), statement);

    let assessor = vec![sdk_definition(&key, &[ProviderCapability::CreditAssessor])];
    assert_eq!(verify_artifact(&assessor, &decision, 100), Ok(statement));

    let guarantor_only = vec![sdk_definition(&key, &[ProviderCapability::LiquidityProvider])];
    assert_eq!(
        verify_artifact(&guarantor_only, &decision, 100),
        Err(ProviderError::MissingProviderCapability)
    );
    assert_eq!(
        verify_artifact(&[], &decision, 100),
        Err(ProviderError::UnknownProvider)
    );
    assert_eq!(
        verify_artifact(&assessor, &decision, 1_001),
        Err(ProviderError::MissingProviderCapability)
    );
}

#[test]
fn a_suspended_provider_signs_nothing_new_and_its_past_stays_verifiable() {
    let key = SigningKey::from_bytes(&id(101));
    let mut decision = unsigned_decision();
    let statement = sign_artifact(&mut decision, &id(101)).unwrap();
    let mut provider = sdk_definition(&key, &[ProviderCapability::CreditAssessor]);
    provider.status = ProviderStatus::Suspended;
    provider.sequence = 1;
    assert_eq!(
        verify_artifact(&[provider.clone()], &decision, 100),
        Err(ProviderError::MissingProviderCapability)
    );
    assert_eq!(
        provider.verify_recorded_signature(&statement, &decision.signature),
        Ok(())
    );
    assert!(active_provider(&[provider], &id(1), ProviderCapability::CreditAssessor, 100).is_err());
}

#[test]
fn rotation_retires_the_old_key_for_new_artifacts_only() {
    let old = SigningKey::from_bytes(&id(101));
    let next = SigningKey::from_bytes(&id(102));
    let mut decision = unsigned_decision();
    let statement = sign_artifact(&mut decision, &id(101)).unwrap();

    let mut rotation = RotateProviderKey {
        operation_id: id(20),
        provider_id: id(1),
        next_public_key: next.verifying_key().to_bytes(),
        expected_sequence: 0,
        rotated_at: 50,
        signature: Vec::new(),
    };
    // Signed by the wrong key: possession of the next key is not shown.
    rotation.signature = sign(&old, &rotation.statement().unwrap());
    assert_eq!(
        rotation.verify_possession(),
        Err(ProviderError::InvalidSignature)
    );
    sign_possession(&mut rotation, &id(102)).unwrap();
    assert!(rotation.verify_possession().is_ok());

    let mut provider = sdk_definition(&old, &[ProviderCapability::CreditAssessor]);
    provider.retired_keys.push(RetiredProviderKey {
        public_key: provider.public_key,
        retired_at: 50,
    });
    provider.public_key = rotation.next_public_key;
    provider.sequence = 1;
    provider.validate().unwrap();
    assert_eq!(
        provider.verify_new_signature(&statement, &decision.signature),
        Err(ProviderError::InvalidSignature)
    );
    assert_eq!(
        provider.verify_recorded_signature(&statement, &decision.signature),
        Ok(())
    );
    assert_eq!(provider.registration_key(), old.verifying_key().to_bytes());
}

#[test]
fn guarantor_capability_needs_a_defmi_authority_and_nothing_else_may_carry_one() {
    let key = SigningKey::from_bytes(&id(101));
    let guarantor = sdk_definition(&key, &[ProviderCapability::Guarantor]);
    assert_eq!(
        guarantor.validate_initial(),
        Err(ProviderError::MissingGuaranteeAuthority)
    );
    let mut assessor = sdk_definition(&key, &[ProviderCapability::CreditAssessor]);
    assessor.defmi_guarantor_id = Some(id(9));
    assert_eq!(
        assessor.validate_initial(),
        Err(ProviderError::InvalidProvider)
    );
}
