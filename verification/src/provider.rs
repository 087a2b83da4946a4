//! The provider record: capabilities, signing key with rotation history,
//! validity window, status, and the control operations that change them.
//!
//! Capabilities stay separate even when one institution implements several:
//! a credit score never silently becomes a guarantee or a promise to advance
//! cash.

use vstd::prelude::*;

use crate::canon::{
    dec, items, json_id, json_list, json_opt_id, lemma_items_step, lit, push_id, push_lit,
    push_opt_id, push_u64,
};
use crate::seqs::{first_match, lemma_first_match_step, lemma_full_prefix};
use crate::types::{
    digest, ed25519_key_decodes, is_verifying_key, is_zero, is_zero_id, push_all, same_id,
    spec_digest, spec_valid_window, spec_verify_key_signature, valid_window, verify_key_signature,
    Commitment, Identifier, SignatureError, MAX_UNIX_TIME,
};

verus! {

/// Why a provider definition, control operation, or signed artifact was not
/// accepted.
#[derive(Clone, Copy, Debug, PartialEq, Eq, Structural)]
pub enum ProviderError {
    Encoding,
    InvalidProvider,
    InvalidProviderKey,
    InvalidSignature,
    MissingGuaranteeAuthority,
    UnknownProvider,
    MissingProviderCapability,
    InvalidStream,
    InvalidStreamTransition,
    StreamUnavailable,
    InvalidCreditDecision,
    InvalidGuarantee,
    InvalidGuaranteeRelease,
    InvalidFundingQuote,
    InvalidDefaultAttestation,
    InvalidCredentialIssuer,
    InvalidCredentialStatus,
    Credential,
    ArithmeticOverflow,
}

impl ProviderError {
    /// The human-readable message for each condition.
    pub open spec fn spec_message(self) -> Seq<char> {
        match self {
            ProviderError::Encoding => "Aethel state encoding failed"@,
            ProviderError::InvalidProvider => "provider definition is invalid"@,
            ProviderError::InvalidProviderKey => "provider key is invalid"@,
            ProviderError::InvalidSignature => "provider signature is invalid"@,
            ProviderError::MissingGuaranteeAuthority => "guarantee-capable provider has no DeFMI guarantee authority"@,
            ProviderError::UnknownProvider => "provider is unknown"@,
            ProviderError::MissingProviderCapability => "provider lacks the required active capability"@,
            ProviderError::InvalidStream => "stream state is invalid"@,
            ProviderError::InvalidStreamTransition => "stream transition is invalid"@,
            ProviderError::StreamUnavailable => "stream is not eligible for a new receivable"@,
            ProviderError::InvalidCreditDecision => "credit decision is invalid"@,
            ProviderError::InvalidGuarantee => "guarantee commitment is invalid"@,
            ProviderError::InvalidGuaranteeRelease => "guarantee release is invalid"@,
            ProviderError::InvalidFundingQuote => "funding quote is invalid"@,
            ProviderError::InvalidDefaultAttestation => "default attestation is invalid"@,
            ProviderError::InvalidCredentialIssuer => "credential issuer registration is invalid"@,
            ProviderError::InvalidCredentialStatus => "credential status publication is invalid"@,
            ProviderError::Credential => "DeKYX rejected the subject evidence"@,
            ProviderError::ArithmeticOverflow => "arithmetic overflow"@,
        }
    }
}

impl ProviderError {
    /// The human-readable message for each condition.
    pub fn message(&self) -> (r: String)
        ensures
            r@ == self.spec_message(),
    {
        match self {
            ProviderError::Encoding => String::from_str("Aethel state encoding failed"),
            ProviderError::InvalidProvider => String::from_str("provider definition is invalid"),
            ProviderError::InvalidProviderKey => String::from_str("provider key is invalid"),
            ProviderError::InvalidSignature => String::from_str("provider signature is invalid"),
            ProviderError::MissingGuaranteeAuthority => String::from_str(
                "guarantee-capable provider has no DeFMI guarantee authority",
            ),
            ProviderError::UnknownProvider => String::from_str("provider is unknown"),
            ProviderError::MissingProviderCapability => String::from_str(
                "provider lacks the required active capability",
            ),
            ProviderError::InvalidStream => String::from_str("stream state is invalid"),
            ProviderError::InvalidStreamTransition => String::from_str(
                "stream transition is invalid",
            ),
            ProviderError::StreamUnavailable => String::from_str(
                "stream is not eligible for a new receivable",
            ),
            ProviderError::InvalidCreditDecision => String::from_str("credit decision is invalid"),
            ProviderError::InvalidGuarantee => String::from_str("guarantee commitment is invalid"),
            ProviderError::InvalidGuaranteeRelease => String::from_str(
                "guarantee release is invalid",
            ),
            ProviderError::InvalidFundingQuote => String::from_str("funding quote is invalid"),
            ProviderError::InvalidDefaultAttestation => String::from_str(
                "default attestation is invalid",
            ),
            ProviderError::InvalidCredentialIssuer => String::from_str(
                "credential issuer registration is invalid",
            ),
            ProviderError::InvalidCredentialStatus => String::from_str(
                "credential status publication is invalid",
            ),
            ProviderError::Credential => String::from_str("DeKYX rejected the subject evidence"),
            ProviderError::ArithmeticOverflow => String::from_str("arithmetic overflow"),
        }
    }
}

/// The provider error for a signature check that failed.
pub open spec fn signature_error(e: SignatureError) -> ProviderError {
    match e {
        SignatureError::InvalidKey => ProviderError::InvalidProviderKey,
        SignatureError::InvalidSignature => ProviderError::InvalidSignature,
    }
}

/// What one institution is registered to do.
#[derive(Clone, Copy, Debug, PartialEq, Eq, Structural)]
pub enum ProviderCapability {
    StreamAttestor,
    CreditAssessor,
    Guarantor,
    LiquidityProvider,
    Servicer,
    /// Vouches for a DeKYX issuer key without becoming the credit assessor or
    /// guarantor of any line credentialed under it.
    CredentialIssuer,
}

impl ProviderCapability {
    /// Position in the capability order (the order of declaration).
    pub open spec fn rank(self) -> nat {
        match self {
            ProviderCapability::StreamAttestor => 0,
            ProviderCapability::CreditAssessor => 1,
            ProviderCapability::Guarantor => 2,
            ProviderCapability::LiquidityProvider => 3,
            ProviderCapability::Servicer => 4,
            ProviderCapability::CredentialIssuer => 5,
        }
    }

    pub fn rank_of(&self) -> (r: u8)
        ensures
            r as nat == self.rank(),
    {
        match self {
            ProviderCapability::StreamAttestor => 0,
            ProviderCapability::CreditAssessor => 1,
            ProviderCapability::Guarantor => 2,
            ProviderCapability::LiquidityProvider => 3,
            ProviderCapability::Servicer => 4,
            ProviderCapability::CredentialIssuer => 5,
        }
    }

    pub open spec fn json(self) -> Seq<u8> {
        match self {
            ProviderCapability::StreamAttestor => lit("\"stream_attestor\""),
            ProviderCapability::CreditAssessor => lit("\"credit_assessor\""),
            ProviderCapability::Guarantor => lit("\"guarantor\""),
            ProviderCapability::LiquidityProvider => lit("\"liquidity_provider\""),
            ProviderCapability::Servicer => lit("\"servicer\""),
            ProviderCapability::CredentialIssuer => lit("\"credential_issuer\""),
        }
    }

    pub fn push_json(&self, out: &mut Vec<u8>)
        ensures
            final(out)@ == old(out)@ + self.json(),
    {
        match self {
            ProviderCapability::StreamAttestor => push_lit(out, "\"stream_attestor\""),
            ProviderCapability::CreditAssessor => push_lit(out, "\"credit_assessor\""),
            ProviderCapability::Guarantor => push_lit(out, "\"guarantor\""),
            ProviderCapability::LiquidityProvider => push_lit(out, "\"liquidity_provider\""),
            ProviderCapability::Servicer => push_lit(out, "\"servicer\""),
            ProviderCapability::CredentialIssuer => push_lit(out, "\"credential_issuer\""),
        }
    }
}

#[derive(Clone, Copy, Debug, PartialEq, Eq, Structural)]
pub enum ProviderStatus {
    Active,
    Suspended,
    Revoked,
}

impl ProviderStatus {
    pub open spec fn json(self) -> Seq<u8> {
        match self {
            ProviderStatus::Active => lit("\"active\""),
            ProviderStatus::Suspended => lit("\"suspended\""),
            ProviderStatus::Revoked => lit("\"revoked\""),
        }
    }

    pub fn push_json(&self, out: &mut Vec<u8>)
        ensures
            final(out)@ == old(out)@ + self.json(),
    {
        match self {
            ProviderStatus::Active => push_lit(out, "\"active\""),
            ProviderStatus::Suspended => push_lit(out, "\"suspended\""),
            ProviderStatus::Revoked => push_lit(out, "\"revoked\""),
        }
    }
}

/// A key the provider signed with before a rotation. Artifacts recorded while
/// it was live stay verifiable against it; nothing new is accepted under it.
#[derive(Clone, Copy, Debug, PartialEq, Eq)]
pub struct RetiredProviderKey {
    pub public_key: [u8; 32],
    pub retired_at: u64,
}

impl RetiredProviderKey {
    pub open spec fn json(self) -> Seq<u8> {
        lit("{\"publicKey\":") + json_id(self.public_key) + lit(",\"retiredAt\":") + dec(
            self.retired_at as nat,
        ) + lit("}")
    }
}

/// One capability-bearing endpoint operated by a verified DeFMI participant.
///
/// `capabilities` is a set: it holds each capability at most once, in the
/// order of [`ProviderCapability`]. `public_key` signs new artifacts;
/// `retired_keys` lists, in rotation order, every earlier key; `sequence`
/// counts rotations and status changes.
#[derive(Clone, Debug, PartialEq, Eq)]
pub struct ProviderDefinition {
    pub provider_id: Identifier,
    pub participant_id: Identifier,
    pub capabilities: Vec<ProviderCapability>,
    pub public_key: [u8; 32],
    pub policy_registry_digest: Commitment,
    pub defmi_guarantor_id: Option<Identifier>,
    pub valid_from: u64,
    pub valid_until: u64,
    pub sequence: u64,
    pub status: ProviderStatus,
    pub retired_keys: Vec<RetiredProviderKey>,
}

/// The capabilities strictly increase in rank: a set, in order.
pub open spec fn capabilities_are_set(c: Seq<ProviderCapability>) -> bool {
    forall|i: int, j: int| 0 <= i < j < c.len() ==> c[i].rank() < c[j].rank()
}

impl ProviderDefinition {
    /// The checks that precede the key checks.
    pub open spec fn shape_ok(&self) -> bool {
        &&& !is_zero(self.provider_id)
        &&& !is_zero(self.participant_id)
        &&& !is_zero(self.public_key)
        &&& !is_zero(self.policy_registry_digest)
        &&& self.capabilities@.len() > 0
        &&& capabilities_are_set(self.capabilities@)
        &&& spec_valid_window(self.valid_from, self.valid_until)
        &&& self.sequence >= self.retired_keys@.len()
    }

    /// Whether retired key `k` fails a check, and with which error.
    pub open spec fn retired_failure(&self, k: int) -> Option<ProviderError> {
        let key = self.retired_keys@[k];
        let last_retired_at: u64 = if k == 0 {
            0
        } else {
            self.retired_keys@[k - 1].retired_at
        };
        if !ed25519_key_decodes(key.public_key@) {
            Some(ProviderError::InvalidProviderKey)
        } else if key.public_key == self.public_key || (exists|j: int|
            0 <= j < k && #[trigger] self.retired_keys@[j].public_key == key.public_key)
            || key.retired_at < last_retired_at || key.retired_at == 0 || key.retired_at
            > MAX_UNIX_TIME {
            Some(ProviderError::InvalidProvider)
        } else {
            None
        }
    }

    /// Positions of the retired keys.
    pub open spec fn retired_positions(&self) -> Seq<int> {
        Seq::new(self.retired_keys@.len(), |k: int| k)
    }

    /// Whether the retired key at a position fails.
    pub open spec fn retired_fails(&self) -> spec_fn(int) -> bool {
        |k: int| self.retired_failure(k) is Some
    }

    /// Index of the first retired key that fails, or -1.
    pub open spec fn first_retired_failure(&self) -> int {
        first_match(self.retired_positions(), self.retired_fails())
    }

    /// The guarantee authority is present exactly for a guarantor.
    pub open spec fn guarantor_result(&self) -> Result<(), ProviderError> {
        let guarantor = self.capabilities@.contains(ProviderCapability::Guarantor);
        match self.defmi_guarantor_id {
            Some(id) => if guarantor && !is_zero(id) {
                Ok(())
            } else if guarantor {
                Err(ProviderError::MissingGuaranteeAuthority)
            } else {
                Err(ProviderError::InvalidProvider)
            },
            None => if guarantor {
                Err(ProviderError::MissingGuaranteeAuthority)
            } else {
                Ok(())
            },
        }
    }

    /// What [`ProviderDefinition::validate`] returns.
    pub open spec fn validate_result(&self) -> Result<(), ProviderError> {
        if !self.shape_ok() {
            Err(ProviderError::InvalidProvider)
        } else if !ed25519_key_decodes(self.public_key@) {
            Err(ProviderError::InvalidProviderKey)
        } else if self.first_retired_failure() >= 0 {
            Err(self.retired_failure(self.first_retired_failure()).unwrap())
        } else {
            self.guarantor_result()
        }
    }

    /// What [`ProviderDefinition::validate_initial`] returns.
    pub open spec fn validate_initial_result(&self) -> Result<(), ProviderError> {
        if self.sequence != 0 || self.status != ProviderStatus::Active
            || self.retired_keys@.len() != 0 {
            Err(ProviderError::InvalidProvider)
        } else {
            self.validate_result()
        }
    }

    /// The registration form: sequence zero, active, and no key history.
    pub fn validate_initial(&self) -> (r: Result<(), ProviderError>)
        ensures
            r == self.validate_initial_result(),
    {
        if self.sequence != 0 || !matches!(self.status, ProviderStatus::Active)
            || self.retired_keys.len() != 0 {
            return Err(ProviderError::InvalidProvider);
        }
        self.validate()
    }

    fn capabilities_in_order(&self) -> (r: bool)
        ensures
            r == capabilities_are_set(self.capabilities@),
    {
        let c = &self.capabilities;
        let mut i: usize = 1;
        if c.len() == 0 {
            return true;
        }
        while i < c.len()
            invariant
                1 <= i <= c@.len(),
                c@ == self.capabilities@,
                forall|a: int, b: int| 0 <= a < b < i ==> c@[a].rank() < c@[b].rank(),
            decreases c@.len() - i,
        {
            if c[i - 1].rank_of() >= c[i].rank_of() {
                assert(!(c@[(i - 1) as int].rank() < c@[i as int].rank()));
                return false;
            }
            assert forall|a: int, b: int| 0 <= a < b < i + 1 implies c@[a].rank()
                < c@[b].rank() by {
                if b == i && a < i - 1 {
                    assert(c@[a].rank() < c@[(i - 1) as int].rank());
                }
            }
            i = i + 1;
        }
        true
    }

    /// Whether the provider holds `capability` at all.
    pub fn holds(&self, capability: ProviderCapability) -> (r: bool)
        ensures
            r == self.capabilities@.contains(capability),
    {
        let mut i: usize = 0;
        while i < self.capabilities.len()
            invariant
                i <= self.capabilities@.len(),
                forall|j: int| 0 <= j < i ==> self.capabilities@[j] != capability,
            decreases self.capabilities@.len() - i,
        {
            if self.capabilities[i] == capability {
                return true;
            }
            i = i + 1;
        }
        false
    }

    /// The stored form after any number of rotations and status changes.
    pub fn validate(&self) -> (r: Result<(), ProviderError>)
        ensures
            r == self.validate_result(),
    {
        if is_zero_id(&self.provider_id) || is_zero_id(&self.participant_id) || is_zero_id(
            &self.public_key,
        ) || is_zero_id(&self.policy_registry_digest) || self.capabilities.len() == 0
            || !self.capabilities_in_order() || !valid_window(self.valid_from, self.valid_until)
            || self.sequence < self.retired_keys.len() as u64 {
            return Err(ProviderError::InvalidProvider);
        }
        if !is_verifying_key(&self.public_key) {
            return Err(ProviderError::InvalidProviderKey);
        }
        let ghost idx = self.retired_positions();
        let ghost fails = self.retired_fails();
        let mut last_retired_at: u64 = 0;
        let mut i: usize = 0;
        while i < self.retired_keys.len()
            invariant
                i <= self.retired_keys@.len(),
                idx == self.retired_positions(),
                fails == self.retired_fails(),
                self.shape_ok(),
                ed25519_key_decodes(self.public_key@),
                first_match(idx.subrange(0, i as int), fails) == -1,
                last_retired_at == if i == 0 {
                    0u64
                } else {
                    self.retired_keys@[i - 1].retired_at
                },
            decreases self.retired_keys@.len() - i,
        {
            proof {
                lemma_first_match_step(idx, i as int, fails);
            }
            let retired = self.retired_keys[i];
            assert(idx[i as int] == i as int);
            if !is_verifying_key(&retired.public_key) {
                assert(fails(idx[i as int]));
                proof {
                    lemma_first_match_prefix_stop(idx, i as int, fails);
                }
                return Err(ProviderError::InvalidProviderKey);
            }
            let mut duplicate = same_id(&retired.public_key, &self.public_key);
            let mut j: usize = 0;
            while j < i
                invariant
                    j <= i < self.retired_keys@.len(),
                    retired == self.retired_keys@[i as int],
                    duplicate == (retired.public_key == self.public_key || exists|m: int|
                        0 <= m < j && #[trigger] self.retired_keys@[m].public_key
                            == retired.public_key),
                decreases i - j,
            {
                if same_id(&self.retired_keys[j].public_key, &retired.public_key) {
                    duplicate = true;
                }
                j = j + 1;
            }
            if duplicate || retired.retired_at < last_retired_at || retired.retired_at == 0
                || retired.retired_at > MAX_UNIX_TIME {
                assert(fails(idx[i as int]));
                proof {
                    lemma_first_match_prefix_stop(idx, i as int, fails);
                }
                return Err(ProviderError::InvalidProvider);
            }
            last_retired_at = retired.retired_at;
            i = i + 1;
        }
        proof {
            lemma_full_prefix(idx);
        }
        let guarantor = self.holds(ProviderCapability::Guarantor);
        match self.defmi_guarantor_id {
            Some(id) => if guarantor && !is_zero_id(&id) {
                Ok(())
            } else if guarantor {
                Err(ProviderError::MissingGuaranteeAuthority)
            } else {
                Err(ProviderError::InvalidProvider)
            },
            None => if guarantor {
                Err(ProviderError::MissingGuaranteeAuthority)
            } else {
                Ok(())
            },
        }
    }

    /// Holds `capability`, is active, and `now` lies in the validity window.
    pub open spec fn spec_has(&self, capability: ProviderCapability, now: u64) -> bool {
        &&& self.status == ProviderStatus::Active
        &&& self.valid_from <= now <= self.valid_until
        &&& self.capabilities@.contains(capability)
    }

    pub fn has(&self, capability: ProviderCapability, now: u64) -> (r: bool)
        ensures
            r == self.spec_has(capability, now),
    {
        matches!(self.status, ProviderStatus::Active) && self.valid_from <= now && now
            <= self.valid_until && self.holds(capability)
    }

    /// The key the provider was registered with.
    pub open spec fn spec_registration_key(&self) -> [u8; 32] {
        if self.retired_keys@.len() > 0 {
            self.retired_keys@[0].public_key
        } else {
            self.public_key
        }
    }

    /// The key the provider was registered with. An application that bound
    /// another identity record to that key at registration compares against
    /// this rather than the rotating current key.
    pub fn registration_key(&self) -> (r: [u8; 32])
        ensures
            r == self.spec_registration_key(),
    {
        if self.retired_keys.len() > 0 {
            self.retired_keys[0].public_key
        } else {
            self.public_key
        }
    }

    /// Every key that has ever been this provider's, newest last.
    pub open spec fn spec_signing_keys(&self) -> Seq<[u8; 32]> {
        self.retired_keys@.map_values(|k: RetiredProviderKey| k.public_key).push(self.public_key)
    }

    /// Every key that has ever been this provider's, newest last.
    pub fn signing_keys(&self) -> (r: Vec<[u8; 32]>)
        ensures
            r@ == self.spec_signing_keys(),
    {
        let mut keys: Vec<[u8; 32]> = Vec::new();
        let mut i: usize = 0;
        while i < self.retired_keys.len()
            invariant
                i <= self.retired_keys@.len(),
                keys@ == self.retired_keys@.subrange(0, i as int).map_values(
                    |k: RetiredProviderKey| k.public_key,
                ),
            decreases self.retired_keys@.len() - i,
        {
            keys.push(self.retired_keys[i].public_key);
            assert(keys@ =~= self.retired_keys@.subrange(0, (i + 1) as int).map_values(
                |k: RetiredProviderKey| k.public_key,
            ));
            i = i + 1;
        }
        assert(self.retired_keys@.subrange(0, i as int) =~= self.retired_keys@);
        keys.push(self.public_key);
        keys
    }

    /// A new artifact must be signed by the provider's current key.
    pub fn verify_new_signature(&self, statement: &Commitment, signature: &[u8]) -> (r: Result<
        (),
        ProviderError,
    >)
        ensures
            r == match spec_verify_key_signature(self.public_key@, statement@, signature@) {
                Ok(()) => Ok(()),
                Err(e) => Err(signature_error(e)),
            },
    {
        match verify_key_signature(&self.public_key, statement, signature) {
            Ok(()) => Ok(()),
            Err(SignatureError::InvalidKey) => Err(ProviderError::InvalidProviderKey),
            Err(SignatureError::InvalidSignature) => Err(ProviderError::InvalidSignature),
        }
    }

    /// The answer of [`ProviderDefinition::verify_recorded_signature`]: the
    /// first key, oldest first, for which the check does not report a bad
    /// signature decides.
    pub open spec fn recorded_signature_result(&self, statement: Seq<u8>, signature: Seq<u8>) -> Result<
        (),
        ProviderError,
    > {
        let keys = self.spec_signing_keys();
        let decides = key_decides(statement, signature);
        let first = first_match(keys, decides);
        if signature.len() != 64 {
            Err(ProviderError::InvalidSignature)
        } else if first < 0 {
            Err(ProviderError::InvalidSignature)
        } else {
            match spec_verify_key_signature(keys[first]@, statement, signature) {
                Ok(()) => Ok(()),
                Err(_) => Err(ProviderError::InvalidProviderKey),
            }
        }
    }

    /// An artifact already recorded was verified against the key that was
    /// current when it was recorded; state validation accepts the current key
    /// or any retired one.
    pub fn verify_recorded_signature(&self, statement: &Commitment, signature: &[u8]) -> (r: Result<
        (),
        ProviderError,
    >)
        ensures
            r == self.recorded_signature_result(statement@, signature@),
    {
        if signature.len() != 64 {
            return Err(ProviderError::InvalidSignature);
        }
        let keys = self.signing_keys();
        let ghost decides = key_decides(statement@, signature@);
        let mut i: usize = 0;
        while i < keys.len()
            invariant
                i <= keys@.len(),
                signature@.len() == 64,
                keys@ == self.spec_signing_keys(),
                decides == key_decides(statement@, signature@),
                first_match(keys@.subrange(0, i as int), decides) == -1,
            decreases keys@.len() - i,
        {
            proof {
                lemma_first_match_step(keys@, i as int, decides);
            }
            match verify_key_signature(&keys[i], statement, signature) {
                Ok(()) => {
                    assert(decides(keys@[i as int]));
                    proof {
                        lemma_first_match_prefix_stop(keys@, i as int, decides);
                    }
                    return Ok(());
                },
                Err(SignatureError::InvalidKey) => {
                    assert(decides(keys@[i as int]));
                    proof {
                        lemma_first_match_prefix_stop(keys@, i as int, decides);
                    }
                    return Err(ProviderError::InvalidProviderKey);
                },
                Err(SignatureError::InvalidSignature) => {},
            }
            i = i + 1;
        }
        proof {
            lemma_full_prefix(keys@);
        }
        Err(ProviderError::InvalidSignature)
    }

    /// Canonical form of the definition.
    pub open spec fn json(&self) -> Seq<u8> {
        lit("{\"providerId\":") + json_id(self.provider_id) + lit(",\"participantId\":") + json_id(
            self.participant_id,
        ) + lit(",\"capabilities\":") + json_list(
            self.capabilities@,
            |c: ProviderCapability| c.json(),
        ) + lit(",\"publicKey\":") + json_id(self.public_key) + lit(",\"policyRegistryDigest\":")
            + json_id(self.policy_registry_digest) + lit(",\"defmiGuarantorId\":") + json_opt_id(
            self.defmi_guarantor_id,
        ) + lit(",\"validFrom\":") + dec(self.valid_from as nat) + lit(",\"validUntil\":") + dec(
            self.valid_until as nat,
        ) + lit(",\"sequence\":") + dec(self.sequence as nat) + lit(",\"status\":")
            + self.status.json() + (if self.retired_keys@.len() == 0 {
            Seq::empty()
        } else {
            lit(",\"retiredKeys\":") + json_list(
                self.retired_keys@,
                |k: RetiredProviderKey| k.json(),
            )
        }) + lit("}")
    }

    pub fn push_json(&self, out: &mut Vec<u8>)
        ensures
            final(out)@ == old(out)@ + self.json(),
    {
        let mut body: Vec<u8> = Vec::new();
        push_lit(&mut body, "{\"providerId\":");
        assert(body@ =~= lit("{\"providerId\":"));
        push_id(&mut body, &self.provider_id);
        push_lit(&mut body, ",\"participantId\":");
        push_id(&mut body, &self.participant_id);
        push_lit(&mut body, ",\"capabilities\":");
        let caps = capabilities_json(&self.capabilities);
        push_all(&mut body, caps.as_slice());
        push_lit(&mut body, ",\"publicKey\":");
        push_id(&mut body, &self.public_key);
        push_lit(&mut body, ",\"policyRegistryDigest\":");
        push_id(&mut body, &self.policy_registry_digest);
        push_lit(&mut body, ",\"defmiGuarantorId\":");
        push_opt_id(&mut body, &self.defmi_guarantor_id);
        push_lit(&mut body, ",\"validFrom\":");
        push_u64(&mut body, self.valid_from);
        push_lit(&mut body, ",\"validUntil\":");
        push_u64(&mut body, self.valid_until);
        push_lit(&mut body, ",\"sequence\":");
        push_u64(&mut body, self.sequence);
        push_lit(&mut body, ",\"status\":");
        self.status.push_json(&mut body);
        let mut retired: Vec<u8> = Vec::new();
        if self.retired_keys.len() != 0 {
            push_lit(&mut retired, ",\"retiredKeys\":");
            let keys = retired_keys_json(&self.retired_keys);
            push_all(&mut retired, keys.as_slice());
            assert(retired@ =~= lit(",\"retiredKeys\":") + json_list(
                self.retired_keys@,
                |k: RetiredProviderKey| k.json(),
            ));
        } else {
            assert(retired@ =~= Seq::<u8>::empty());
        }
        push_all(&mut body, retired.as_slice());
        push_lit(&mut body, "}");
        push_all(out, body.as_slice());
    }
}

/// Whether checking a signature under `key` settles the recorded-signature
/// search: it verifies, or the key itself is unusable.
pub open spec fn key_decides(statement: Seq<u8>, signature: Seq<u8>) -> spec_fn([u8; 32]) -> bool {
    |k: [u8; 32]|
        spec_verify_key_signature(k@, statement, signature) != Err::<(), SignatureError>(
            SignatureError::InvalidSignature,
        )
}

/// The search result at `i` is final once the element there decides.
pub proof fn lemma_first_match_prefix_stop<T>(s: Seq<T>, i: int, p: spec_fn(T) -> bool)
    requires
        0 <= i < s.len(),
        first_match(s.subrange(0, i), p) == -1,
        p(s[i]),
    ensures
        first_match(s, p) == i,
    decreases s.len(),
{
    if i == s.len() - 1 {
        assert(s.subrange(0, i) =~= s.drop_last());
    } else {
        assert(s.drop_last().subrange(0, i) =~= s.subrange(0, i));
        assert(s.drop_last()[i] == s[i]);
        lemma_first_match_prefix_stop(s.drop_last(), i, p);
    }
}

pub open spec fn provider_domain() -> Seq<u8> {
    lit("AETHEL:PROVIDER:v1")
}

pub open spec fn provider_key_rotation_domain() -> Seq<u8> {
    lit("AETHEL:PROVIDER-KEY-ROTATION:v1")
}

pub open spec fn provider_status_domain() -> Seq<u8> {
    lit("AETHEL:PROVIDER-STATUS:v1")
}

/// Moves a provider to a new signing key. The request is signed by the
/// *next* key as proof of possession; the authority to rotate is the
/// application's. Artifacts already recorded under the retired key remain
/// verifiable; no new artifact is accepted under it from `rotated_at` on.
#[derive(Clone, Debug, PartialEq, Eq)]
pub struct RotateProviderKey {
    pub operation_id: Identifier,
    pub provider_id: Identifier,
    pub next_public_key: [u8; 32],
    pub expected_sequence: u64,
    pub rotated_at: u64,
    pub signature: Vec<u8>,
}

impl RotateProviderKey {
    pub open spec fn shape_ok(&self) -> bool {
        &&& !is_zero(self.operation_id)
        &&& !is_zero(self.provider_id)
        &&& !is_zero(self.next_public_key)
        &&& self.rotated_at != 0
        &&& self.rotated_at <= MAX_UNIX_TIME
    }

    pub open spec fn unsigned_encoding(&self) -> Seq<u8> {
        lit("{\"operationId\":") + json_id(self.operation_id) + lit(",\"providerId\":") + json_id(
            self.provider_id,
        ) + lit(",\"nextPublicKey\":") + json_id(self.next_public_key) + lit(
            ",\"expectedSequence\":",
        ) + dec(self.expected_sequence as nat) + lit(",\"rotatedAt\":") + dec(
            self.rotated_at as nat,
        ) + lit(",\"signature\":[]}")
    }

    /// What [`RotateProviderKey::statement`] returns.
    pub open spec fn statement_result(&self) -> Result<Seq<u8>, ProviderError> {
        if !self.shape_ok() {
            Err(ProviderError::InvalidProvider)
        } else if !ed25519_key_decodes(self.next_public_key@) {
            Err(ProviderError::InvalidProviderKey)
        } else {
            Ok(spec_digest(provider_key_rotation_domain(), self.unsigned_encoding()))
        }
    }

    pub fn statement(&self) -> (r: Result<Commitment, ProviderError>)
        ensures
            match r {
                Ok(d) => self.statement_result() == Ok::<Seq<u8>, ProviderError>(d@),
                Err(e) => self.statement_result() == Err::<Seq<u8>, ProviderError>(e),
            },
    {
        if is_zero_id(&self.operation_id) || is_zero_id(&self.provider_id) || is_zero_id(
            &self.next_public_key,
        ) || self.rotated_at == 0 || self.rotated_at > MAX_UNIX_TIME {
            return Err(ProviderError::InvalidProvider);
        }
        if !is_verifying_key(&self.next_public_key) {
            return Err(ProviderError::InvalidProviderKey);
        }
        let mut out: Vec<u8> = Vec::new();
        push_lit(&mut out, "{\"operationId\":");
        assert(out@ =~= lit("{\"operationId\":"));
        push_id(&mut out, &self.operation_id);
        push_lit(&mut out, ",\"providerId\":");
        push_id(&mut out, &self.provider_id);
        push_lit(&mut out, ",\"nextPublicKey\":");
        push_id(&mut out, &self.next_public_key);
        push_lit(&mut out, ",\"expectedSequence\":");
        push_u64(&mut out, self.expected_sequence);
        push_lit(&mut out, ",\"rotatedAt\":");
        push_u64(&mut out, self.rotated_at);
        push_lit(&mut out, ",\"signature\":[]}");
        Ok(digest("AETHEL:PROVIDER-KEY-ROTATION:v1".as_bytes(), out.as_slice()))
    }

    /// Proof of possession: the request must be signed by the next key.
    pub fn verify_possession(&self) -> (r: Result<Commitment, ProviderError>)
        ensures
            match self.statement_result() {
                Err(e) => r == Err::<Commitment, ProviderError>(e),
                Ok(d) => match spec_verify_key_signature(
                    self.next_public_key@,
                    d,
                    self.signature@,
                ) {
                    Ok(()) => r matches Ok(x) && x@ == d,
                    Err(e) => r == Err::<Commitment, ProviderError>(signature_error(e)),
                },
            },
    {
        let statement = match self.statement() {
            Ok(d) => d,
            Err(e) => return Err(e),
        };
        match verify_key_signature(&self.next_public_key, &statement, self.signature.as_slice()) {
            Ok(()) => Ok(statement),
            Err(SignatureError::InvalidKey) => Err(ProviderError::InvalidProviderKey),
            Err(SignatureError::InvalidSignature) => Err(ProviderError::InvalidSignature),
        }
    }
}

/// Suspends, reinstates, or revokes a provider. A suspended or revoked
/// provider signs nothing new; what it recorded while active stays.
#[derive(Clone, Copy, Debug, PartialEq, Eq)]
pub struct SetProviderStatus {
    pub operation_id: Identifier,
    pub provider_id: Identifier,
    pub status: ProviderStatus,
    pub expected_sequence: u64,
    pub effective_at: u64,
}

impl SetProviderStatus {
    pub open spec fn well_formed(&self) -> bool {
        &&& !is_zero(self.operation_id)
        &&& !is_zero(self.provider_id)
        &&& self.effective_at != 0
        &&& self.effective_at <= MAX_UNIX_TIME
    }

    pub open spec fn encoding(&self) -> Seq<u8> {
        lit("{\"operationId\":") + json_id(self.operation_id) + lit(",\"providerId\":") + json_id(
            self.provider_id,
        ) + lit(",\"status\":") + self.status.json() + lit(",\"expectedSequence\":") + dec(
            self.expected_sequence as nat,
        ) + lit(",\"effectiveAt\":") + dec(self.effective_at as nat) + lit("}")
    }

    pub open spec fn spec_statement(&self) -> Seq<u8> {
        spec_digest(provider_status_domain(), self.encoding())
    }

    pub fn statement(&self) -> (r: Result<Commitment, ProviderError>)
        ensures
            r matches Ok(d) ==> self.well_formed() && d@ == self.spec_statement(),
            r matches Err(e) ==> !self.well_formed() && e == ProviderError::InvalidProvider,
    {
        if is_zero_id(&self.operation_id) || is_zero_id(&self.provider_id) || self.effective_at == 0
            || self.effective_at > MAX_UNIX_TIME {
            return Err(ProviderError::InvalidProvider);
        }
        let mut out: Vec<u8> = Vec::new();
        push_lit(&mut out, "{\"operationId\":");
        assert(out@ =~= lit("{\"operationId\":"));
        push_id(&mut out, &self.operation_id);
        push_lit(&mut out, ",\"providerId\":");
        push_id(&mut out, &self.provider_id);
        push_lit(&mut out, ",\"status\":");
        self.status.push_json(&mut out);
        push_lit(&mut out, ",\"expectedSequence\":");
        push_u64(&mut out, self.expected_sequence);
        push_lit(&mut out, ",\"effectiveAt\":");
        push_u64(&mut out, self.effective_at);
        push_lit(&mut out, "}");
        Ok(digest("AETHEL:PROVIDER-STATUS:v1".as_bytes(), out.as_slice()))
    }
}

/// The registration of a new provider.
#[derive(Clone, Debug, PartialEq, Eq)]
pub struct RegisterProvider {
    pub operation_id: Identifier,
    pub provider: ProviderDefinition,
}

impl RegisterProvider {
    pub open spec fn encoding(&self) -> Seq<u8> {
        lit("{\"operationId\":") + json_id(self.operation_id) + lit(",\"provider\":")
            + self.provider.json() + lit("}")
    }

    /// What [`RegisterProvider::statement`] returns.
    pub open spec fn statement_result(&self) -> Result<Seq<u8>, ProviderError> {
        if is_zero(self.operation_id) {
            Err(ProviderError::InvalidProvider)
        } else {
            match self.provider.validate_initial_result() {
                Err(e) => Err(e),
                Ok(()) => Ok(spec_digest(provider_domain(), self.encoding())),
            }
        }
    }

    pub fn statement(&self) -> (r: Result<Commitment, ProviderError>)
        ensures
            match r {
                Ok(d) => self.statement_result() == Ok::<Seq<u8>, ProviderError>(d@),
                Err(e) => self.statement_result() == Err::<Seq<u8>, ProviderError>(e),
            },
    {
        if is_zero_id(&self.operation_id) {
            return Err(ProviderError::InvalidProvider);
        }
        match self.provider.validate_initial() {
            Ok(()) => {},
            Err(e) => return Err(e),
        }
        let mut out: Vec<u8> = Vec::new();
        push_lit(&mut out, "{\"operationId\":");
        assert(out@ =~= lit("{\"operationId\":"));
        push_id(&mut out, &self.operation_id);
        push_lit(&mut out, ",\"provider\":");
        self.provider.push_json(&mut out);
        push_lit(&mut out, "}");
        Ok(digest("AETHEL:PROVIDER:v1".as_bytes(), out.as_slice()))
    }
}

pub open spec fn provider_has_id(id: Identifier) -> spec_fn(ProviderDefinition) -> bool {
    |p: ProviderDefinition| p.provider_id == id
}

/// The position of the provider with the id in a registry, or -1.
pub open spec fn provider_index(registry: Seq<ProviderDefinition>, id: Identifier) -> int {
    first_match(registry, provider_has_id(id))
}

/// Looks a provider up in a registry of definitions.
pub fn find_provider<'a>(registry: &'a [ProviderDefinition], provider_id: &Identifier) -> (r:
    Option<&'a ProviderDefinition>)
    ensures
        match r {
            Some(p) => provider_index(registry@, *provider_id) >= 0 && *p == registry@[provider_index(
                registry@,
                *provider_id,
            )],
            None => provider_index(registry@, *provider_id) == -1,
        },
{
    let ghost q = provider_has_id(*provider_id);
    let mut i: usize = 0;
    while i < registry.len()
        invariant
            i <= registry@.len(),
            q == provider_has_id(*provider_id),
            first_match(registry@.subrange(0, i as int), q) == -1,
        decreases registry@.len() - i,
    {
        proof {
            lemma_first_match_step(registry@, i as int, q);
        }
        if same_id(&registry[i].provider_id, provider_id) {
            proof {
                lemma_first_match_prefix_stop(registry@, i as int, q);
            }
            return Some(&registry[i]);
        }
        i = i + 1;
    }
    proof {
        lemma_full_prefix(registry@);
    }
    None
}


pub fn capabilities_json(c: &Vec<ProviderCapability>) -> (r: Vec<u8>)
    ensures
        r@ == json_list(c@, |x: ProviderCapability| x.json()),
{
    let ghost enc = |x: ProviderCapability| x.json();
    let mut out: Vec<u8> = Vec::new();
    out.push(91u8);
    let mut i: usize = 0;
    while i < c.len()
        invariant
            i <= c@.len(),
            enc == (|x: ProviderCapability| x.json()),
            out@ == seq![91u8] + items(c@.subrange(0, i as int), enc),
        decreases c@.len() - i,
    {
        proof {
            lemma_items_step(c@, i as int, enc);
        }
        if i > 0 {
            out.push(44u8);
        }
        c[i].push_json(&mut out);
        assert(out@ =~= seq![91u8] + items(c@.subrange(0, (i + 1) as int), enc));
        i = i + 1;
    }
    assert(c@.subrange(0, c@.len() as int) =~= c@);
    out.push(93u8);
    assert(out@ =~= json_list(c@, enc));
    out
}

pub fn retired_keys_json(k: &Vec<RetiredProviderKey>) -> (r: Vec<u8>)
    ensures
        r@ == json_list(k@, |x: RetiredProviderKey| x.json()),
{
    let ghost enc = |x: RetiredProviderKey| x.json();
    let mut out: Vec<u8> = Vec::new();
    out.push(91u8);
    let mut i: usize = 0;
    while i < k.len()
        invariant
            i <= k@.len(),
            enc == (|x: RetiredProviderKey| x.json()),
            out@ == seq![91u8] + items(k@.subrange(0, i as int), enc),
        decreases k@.len() - i,
    {
        proof {
            lemma_items_step(k@, i as int, enc);
        }
        if i > 0 {
            out.push(44u8);
        }
        let mut one: Vec<u8> = Vec::new();
        push_lit(&mut one, "{\"publicKey\":");
        assert(one@ =~= lit("{\"publicKey\":"));
        push_id(&mut one, &k[i].public_key);
        push_lit(&mut one, ",\"retiredAt\":");
        push_u64(&mut one, k[i].retired_at);
        push_lit(&mut one, "}");
        push_all(&mut out, one.as_slice());
        assert(out@ =~= seq![91u8] + items(k@.subrange(0, (i + 1) as int), enc));
        i = i + 1;
    }
    assert(k@.subrange(0, k@.len() as int) =~= k@);
    out.push(93u8);
    assert(out@ =~= json_list(k@, enc));
    out
}

/// Whether `q` is `p` after a rotation to `next` at `now`: the current key
/// retired at `now`, `next` current, and the sequence counted.
pub open spec fn rotated(p: ProviderDefinition, q: ProviderDefinition, next: [u8; 32], now: u64) -> bool {
    &&& q.provider_id == p.provider_id
    &&& q.participant_id == p.participant_id
    &&& q.capabilities@ == p.capabilities@
    &&& q.public_key == next
    &&& q.policy_registry_digest == p.policy_registry_digest
    &&& q.defmi_guarantor_id == p.defmi_guarantor_id
    &&& q.valid_from == p.valid_from
    &&& q.valid_until == p.valid_until
    &&& q.sequence == p.sequence + 1
    &&& q.status == p.status
    &&& q.retired_keys@ == p.retired_keys@.push(RetiredProviderKey { public_key: p.public_key, retired_at: now })
}

/// Whether a rotation of `p` at `now` would date its retirement before the
/// last one.
pub open spec fn retires_out_of_order(p: ProviderDefinition, now: u64) -> bool {
    p.retired_keys@.len() > 0 && now < p.retired_keys@.last().retired_at
}

/// The provider after a valid rotation to a fresh, decodable key is valid
/// exactly when the retirement is not dated before the last one.
pub proof fn lemma_rotated_validity(p: ProviderDefinition, q: ProviderDefinition, next: [u8; 32], now: u64)
    requires
        p.validate_result() is Ok,
        rotated(p, q, next, now),
        !is_zero(next),
        ed25519_key_decodes(next@),
        !p.spec_signing_keys().contains(next),
        0 < now <= MAX_UNIX_TIME,
    ensures
        q.validate_result() == if retires_out_of_order(p, now) {
            Err::<(), ProviderError>(ProviderError::InvalidProvider)
        } else {
            Ok::<(), ProviderError>(())
        },
{
    let n = p.retired_keys@.len() as int;
    let keys = p.spec_signing_keys();
    assert(keys[n] == p.public_key);
    assert forall|j: int| 0 <= j < n implies keys[j] == p.retired_keys@[j].public_key by {}
    crate::seqs::lemma_first_match(p.retired_positions(), p.retired_fails());
    assert forall|j: int| 0 <= j < n implies p.retired_failure(j) is None by {
        assert(p.retired_positions()[j] == j);
        assert(!(p.retired_fails())(p.retired_positions()[j]));
    }
    assert forall|j: int| 0 <= j < n implies q.retired_failure(j) == p.retired_failure(j) by {
        assert(q.retired_keys@[j] == p.retired_keys@[j]);
        if j > 0 {
            assert(q.retired_keys@[j - 1] == p.retired_keys@[j - 1]);
        }
        assert(keys[j] == p.retired_keys@[j].public_key);
        assert(p.retired_keys@[j].public_key != next);
        assert((exists|m: int| 0 <= m < j && #[trigger] q.retired_keys@[m].public_key
            == q.retired_keys@[j].public_key) == (exists|m: int|
            0 <= m < j && #[trigger] p.retired_keys@[m].public_key == p.retired_keys@[j].public_key))
            by {
            if exists|m: int| 0 <= m < j && #[trigger] q.retired_keys@[m].public_key == q.retired_keys@[j].public_key {
                let m = choose|m: int| 0 <= m < j && #[trigger] q.retired_keys@[m].public_key == q.retired_keys@[j].public_key;
                assert(q.retired_keys@[m] == p.retired_keys@[m]);
            }
            if exists|m: int| 0 <= m < j && #[trigger] p.retired_keys@[m].public_key == p.retired_keys@[j].public_key {
                let m = choose|m: int| 0 <= m < j && #[trigger] p.retired_keys@[m].public_key == p.retired_keys@[j].public_key;
                assert(q.retired_keys@[m] == p.retired_keys@[m]);
            }
        }
    }
    // The newly retired key.
    let last = q.retired_keys@[n];
    assert(last == RetiredProviderKey { public_key: p.public_key, retired_at: now });
    assert(p.public_key != next);
    assert(!(exists|m: int| 0 <= m < n && #[trigger] q.retired_keys@[m].public_key == last.public_key)) by {
        if exists|m: int| 0 <= m < n && #[trigger] q.retired_keys@[m].public_key == last.public_key {
            let m = choose|m: int| 0 <= m < n && #[trigger] q.retired_keys@[m].public_key == last.public_key;
            assert(q.retired_keys@[m] == p.retired_keys@[m]);
            assert(p.retired_failure(m) is None);
        }
    }
    if n > 0 {
        assert(q.retired_keys@[n - 1] == p.retired_keys@[n - 1]);
        assert(p.retired_keys@.last() == p.retired_keys@[n - 1]);
    }
    assert(q.retired_failure(n) is Some <==> retires_out_of_order(p, now));
    assert forall|j: int| 0 <= j < n implies !(q.retired_fails())(#[trigger] q.retired_positions()[j]) by {
        assert(q.retired_positions()[j] == j);
    }
    assert(q.retired_positions()[n] == n);
    if retires_out_of_order(p, now) {
        crate::seqs::lemma_first_match_unique(q.retired_positions(), q.retired_fails(), n);
    } else {
        assert forall|j: int| 0 <= j < q.retired_positions().len() implies !(q.retired_fails())(
            #[trigger] q.retired_positions()[j],
        ) by {
            assert(q.retired_positions()[j] == j);
        }
        crate::seqs::lemma_first_match_none(q.retired_positions(), q.retired_fails());
    }
    assert(q.guarantor_result() == p.guarantor_result());
}

} // verus!
