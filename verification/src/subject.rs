//! The provider artifact a confidential subject presentation is bound to.
//! The holder proves against the exact unsigned artifact, so a transcript
//! cannot be moved to another decision, another guarantee, or another line.
//! Verifying the presentation itself is the identity layer's work.

use vstd::prelude::*;

use crate::artifacts::{CreditDecision, GuaranteeCommitment};
use crate::canon::lit;
use crate::receivable::{aethel_error, AethelError};
use crate::types::{is_zero, is_zero_id, same_id, sha256, sha256_digest, Commitment, Identifier};

verus! {

pub open spec fn credit_decision_action_domain() -> Seq<u8> {
    lit("AETHEL:SUBJECT-ACTION:CREDIT-DECISION:v1")
}

pub open spec fn guarantee_action_domain() -> Seq<u8> {
    lit("AETHEL:SUBJECT-ACTION:GUARANTEE:v1")
}

/// The provider artifact a subject presentation is bound to.
#[derive(Clone, Copy, Debug)]
pub enum ConfidentialArtifact<'a> {
    CreditDecision(&'a CreditDecision),
    Guarantee(&'a GuaranteeCommitment),
}

impl<'a> ConfidentialArtifact<'a> {
    pub fn request_id(&self) -> (r: Identifier)
        ensures
            r == match *self {
                ConfidentialArtifact::CreditDecision(d) => d.request_id,
                ConfidentialArtifact::Guarantee(g) => g.request_id,
            },
    {
        match self {
            ConfidentialArtifact::CreditDecision(decision) => decision.request_id,
            ConfidentialArtifact::Guarantee(guarantee) => guarantee.request_id,
        }
    }

    pub fn series_id(&self) -> (r: Identifier)
        ensures
            r == match *self {
                ConfidentialArtifact::CreditDecision(d) => d.series_id,
                ConfidentialArtifact::Guarantee(g) => g.series_id,
            },
    {
        match self {
            ConfidentialArtifact::CreditDecision(decision) => decision.series_id,
            ConfidentialArtifact::Guarantee(guarantee) => guarantee.series_id,
        }
    }

    pub fn nonce(&self) -> (r: Identifier)
        ensures
            r == match *self {
                ConfidentialArtifact::CreditDecision(d) => d.nonce,
                ConfidentialArtifact::Guarantee(g) => g.nonce,
            },
    {
        match self {
            ConfidentialArtifact::CreditDecision(decision) => decision.nonce,
            ConfidentialArtifact::Guarantee(guarantee) => guarantee.nonce,
        }
    }

    pub fn valid_until(&self) -> (r: u64)
        ensures
            r == match *self {
                ConfidentialArtifact::CreditDecision(d) => d.valid_until,
                ConfidentialArtifact::Guarantee(g) => g.valid_until,
            },
    {
        match self {
            ConfidentialArtifact::CreditDecision(decision) => decision.valid_until,
            ConfidentialArtifact::Guarantee(guarantee) => guarantee.valid_until,
        }
    }

    /// The statement of the artifact, with the provider error it refuses a
    /// malformed artifact with.
    pub fn statement(&self) -> (r: Result<Commitment, AethelError>)
        ensures
            match *self {
                ConfidentialArtifact::CreditDecision(d) => match r {
                    Ok(x) => d.well_formed() && x@ == d.spec_statement(),
                    Err(e) => !d.well_formed() && e == AethelError::InvalidCreditDecision,
                },
                ConfidentialArtifact::Guarantee(g) => match r {
                    Ok(x) => g.well_formed() && x@ == g.spec_statement(),
                    Err(e) => !g.well_formed() && e == AethelError::InvalidGuarantee,
                },
            },
    {
        match self {
            ConfidentialArtifact::CreditDecision(decision) => match decision.statement() {
                Ok(d) => Ok(d),
                Err(e) => Err(aethel_error(e)),
            },
            ConfidentialArtifact::Guarantee(guarantee) => match guarantee.statement() {
                Ok(d) => Ok(d),
                Err(e) => Err(aethel_error(e)),
            },
        }
    }

    /// The action a presentation for this artifact proves: the SHA-256 of
    /// the artifact kind's action domain.
    pub fn action_digest(&self) -> (r: Commitment)
        ensures
            r@ == match *self {
                ConfidentialArtifact::CreditDecision(_) => sha256(credit_decision_action_domain()),
                ConfidentialArtifact::Guarantee(_) => sha256(guarantee_action_domain()),
            },
    {
        match self {
            ConfidentialArtifact::CreditDecision(_) => sha256_digest(
                "AETHEL:SUBJECT-ACTION:CREDIT-DECISION:v1".as_bytes(),
            ),
            ConfidentialArtifact::Guarantee(_) => sha256_digest(
                "AETHEL:SUBJECT-ACTION:GUARANTEE:v1".as_bytes(),
            ),
        }
    }
}

/// The record stored for an anonymous line: what the identity layer
/// returned when it verified a presentation for one provider artifact.
#[derive(Clone, Copy, Debug, PartialEq, Eq)]
pub struct ConfidentialSubjectBinding {
    pub request_id: Identifier,
    pub issuer_provider_id: Identifier,
    pub issuer_key_epoch: u64,
    pub issuer_namespace_digest: Commitment,
    pub subject_commitment: Commitment,
    pub scope_digest: Commitment,
    pub policy_digest: Commitment,
    pub subject_nullifier: Identifier,
    pub proof_digest: Commitment,
    pub subject_line_id: Identifier,
    pub valid_until: u64,
}

impl ConfidentialSubjectBinding {
    /// The shape of a binding that could have come from a verification:
    /// every digest set, scoped to its request, with an epoch and an expiry.
    pub open spec fn well_formed(self) -> bool {
        &&& !is_zero(self.request_id)
        &&& !is_zero(self.issuer_provider_id)
        &&& !is_zero(self.issuer_namespace_digest)
        &&& !is_zero(self.subject_commitment)
        &&& !is_zero(self.scope_digest)
        &&& !is_zero(self.policy_digest)
        &&& !is_zero(self.subject_nullifier)
        &&& !is_zero(self.proof_digest)
        &&& !is_zero(self.subject_line_id)
        &&& self.scope_digest == self.request_id
        &&& self.issuer_key_epoch != 0
        &&& self.valid_until != 0
    }

    /// Two bindings on one anonymous subject line: the same request, issuer,
    /// namespace, scope, policy, subject nullifier, and line. Fresh proof
    /// transcripts, issuer key epochs, and expiries may differ.
    pub open spec fn spec_same_subject_line(self, other: Self) -> bool {
        &&& self.request_id == other.request_id
        &&& self.issuer_provider_id == other.issuer_provider_id
        &&& self.issuer_namespace_digest == other.issuer_namespace_digest
        &&& self.scope_digest == other.scope_digest
        &&& self.policy_digest == other.policy_digest
        &&& self.subject_nullifier == other.subject_nullifier
        &&& self.subject_line_id == other.subject_line_id
    }

    pub fn same_subject_line(&self, other: &Self) -> (r: bool)
        ensures
            r == self.spec_same_subject_line(*other),
    {
        same_id(&self.request_id, &other.request_id) && same_id(
            &self.issuer_provider_id,
            &other.issuer_provider_id,
        ) && same_id(&self.issuer_namespace_digest, &other.issuer_namespace_digest) && same_id(
            &self.scope_digest,
            &other.scope_digest,
        ) && same_id(&self.policy_digest, &other.policy_digest) && same_id(
            &self.subject_nullifier,
            &other.subject_nullifier,
        ) && same_id(&self.subject_line_id, &other.subject_line_id)
    }
}

/// Shape check for a stored binding. Its content is the identity layer's
/// responsibility; this only refuses records that could not have come from a
/// verification.
pub fn binding_is_well_formed(binding: &ConfidentialSubjectBinding) -> (r: bool)
    ensures
        r == binding.well_formed(),
{
    !is_zero_id(&binding.request_id) && !is_zero_id(&binding.issuer_provider_id) && !is_zero_id(
        &binding.issuer_namespace_digest,
    ) && !is_zero_id(&binding.subject_commitment) && !is_zero_id(&binding.scope_digest)
        && !is_zero_id(&binding.policy_digest) && !is_zero_id(&binding.subject_nullifier)
        && !is_zero_id(&binding.proof_digest) && !is_zero_id(&binding.subject_line_id) && same_id(
        &binding.scope_digest,
        &binding.request_id,
    ) && binding.issuer_key_epoch != 0 && binding.valid_until != 0
}

} // verus!
