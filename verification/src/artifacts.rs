//! Provider-signed artifacts: the outputs of credit assessors, guarantors,
//! liquidity providers, and servicers. Each carries a statement digest over
//! its unsigned canonical form and the provider's signature over that digest.

use vstd::prelude::*;

use crate::canon::{dec, json_id, json_opt_id, lit, push_id, push_lit, push_opt_id, push_u64};
use crate::provider::ProviderError;
use crate::types::{
    digest, is_some_zero, is_zero, is_zero_id, some_zero, spec_digest, spec_valid_time, valid_time,
    Commitment, Identifier,
};

verus! {

pub open spec fn credit_decision_domain() -> Seq<u8> {
    lit("AETHEL:CREDIT-DECISION:v1")
}

pub open spec fn guarantee_domain() -> Seq<u8> {
    lit("AETHEL:GUARANTEE-COMMITMENT:v1")
}

pub open spec fn funding_quote_domain() -> Seq<u8> {
    lit("AETHEL:FUNDING-QUOTE:v1")
}

pub open spec fn default_domain() -> Seq<u8> {
    lit("AETHEL:DEFAULT-ATTESTATION:v1")
}

pub open spec fn guarantee_release_domain() -> Seq<u8> {
    lit("AETHEL:GUARANTEE-RELEASE:v1")
}

/// A private-policy underwriting result. It is information, not a promise to
/// absorb loss and not a promise to advance funds.
#[derive(Clone, Debug, PartialEq, Eq)]
pub struct CreditDecision {
    pub operation_id: Identifier,
    pub decision_id: Identifier,
    pub request_id: Identifier,
    pub provider_id: Identifier,
    pub series_id: Identifier,
    pub stream_state_version: u64,
    pub stream_state_root: Commitment,
    pub model_digest: Commitment,
    pub policy_digest: Commitment,
    pub decision_terms_commitment: Commitment,
    pub relation_proof_digest: Commitment,
    pub valid_until: u64,
    pub nonce: Identifier,
    pub signature: Vec<u8>,
}

impl CreditDecision {
    /// Every identifier set, a stream version, and a representable expiry.
    pub open spec fn well_formed(&self) -> bool {
        &&& !is_zero(self.operation_id)
        &&& !is_zero(self.decision_id)
        &&& !is_zero(self.request_id)
        &&& !is_zero(self.provider_id)
        &&& !is_zero(self.series_id)
        &&& !is_zero(self.stream_state_root)
        &&& !is_zero(self.model_digest)
        &&& !is_zero(self.policy_digest)
        &&& !is_zero(self.decision_terms_commitment)
        &&& !is_zero(self.relation_proof_digest)
        &&& !is_zero(self.nonce)
        &&& self.stream_state_version != 0
        &&& spec_valid_time(self.valid_until)
    }

    /// Canonical form with an empty signature.
    pub open spec fn unsigned_encoding(&self) -> Seq<u8> {
        lit("{\"operationId\":") + json_id(self.operation_id) + lit(",\"decisionId\":") + json_id(
            self.decision_id,
        ) + lit(",\"requestId\":") + json_id(self.request_id) + lit(",\"providerId\":")
            + json_id(self.provider_id) + lit(",\"seriesId\":") + json_id(self.series_id) + lit(
            ",\"streamStateVersion\":",
        ) + dec(self.stream_state_version as nat) + lit(",\"streamStateRoot\":") + json_id(
            self.stream_state_root,
        ) + lit(",\"modelDigest\":") + json_id(self.model_digest) + lit(",\"policyDigest\":")
            + json_id(self.policy_digest) + lit(",\"decisionTermsCommitment\":") + json_id(
            self.decision_terms_commitment,
        ) + lit(",\"relationProofDigest\":") + json_id(self.relation_proof_digest) + lit(
            ",\"validUntil\":",
        ) + dec(self.valid_until as nat) + lit(",\"nonce\":") + json_id(self.nonce) + lit(
            ",\"signature\":[]}",
        )
    }

    pub open spec fn spec_statement(&self) -> Seq<u8> {
        spec_digest(credit_decision_domain(), self.unsigned_encoding())
    }

    pub fn unsigned_encoding_bytes(&self) -> (r: Vec<u8>)
        ensures
            r@ == self.unsigned_encoding(),
    {
        let mut out: Vec<u8> = Vec::new();
        push_lit(&mut out, "{\"operationId\":");
        assert(out@ =~= lit("{\"operationId\":"));
        push_id(&mut out, &self.operation_id);
        push_lit(&mut out, ",\"decisionId\":");
        push_id(&mut out, &self.decision_id);
        push_lit(&mut out, ",\"requestId\":");
        push_id(&mut out, &self.request_id);
        push_lit(&mut out, ",\"providerId\":");
        push_id(&mut out, &self.provider_id);
        push_lit(&mut out, ",\"seriesId\":");
        push_id(&mut out, &self.series_id);
        push_lit(&mut out, ",\"streamStateVersion\":");
        push_u64(&mut out, self.stream_state_version);
        push_lit(&mut out, ",\"streamStateRoot\":");
        push_id(&mut out, &self.stream_state_root);
        push_lit(&mut out, ",\"modelDigest\":");
        push_id(&mut out, &self.model_digest);
        push_lit(&mut out, ",\"policyDigest\":");
        push_id(&mut out, &self.policy_digest);
        push_lit(&mut out, ",\"decisionTermsCommitment\":");
        push_id(&mut out, &self.decision_terms_commitment);
        push_lit(&mut out, ",\"relationProofDigest\":");
        push_id(&mut out, &self.relation_proof_digest);
        push_lit(&mut out, ",\"validUntil\":");
        push_u64(&mut out, self.valid_until);
        push_lit(&mut out, ",\"nonce\":");
        push_id(&mut out, &self.nonce);
        push_lit(&mut out, ",\"signature\":[]}");
        out
    }

    /// Digest of the unsigned decision; fails when the decision is malformed.
    pub fn statement(&self) -> (r: Result<Commitment, ProviderError>)
        ensures
            r matches Ok(d) ==> self.well_formed() && d@ == self.spec_statement(),
            r matches Err(e) ==> !self.well_formed() && e == ProviderError::InvalidCreditDecision,
    {
        if is_zero_id(&self.operation_id) || is_zero_id(&self.decision_id) || is_zero_id(
            &self.request_id,
        ) || is_zero_id(&self.provider_id) || is_zero_id(&self.series_id) || is_zero_id(
            &self.stream_state_root,
        ) || is_zero_id(&self.model_digest) || is_zero_id(&self.policy_digest) || is_zero_id(
            &self.decision_terms_commitment,
        ) || is_zero_id(&self.relation_proof_digest) || is_zero_id(&self.nonce)
            || self.stream_state_version == 0 || !valid_time(self.valid_until) {
            return Err(ProviderError::InvalidCreditDecision);
        }
        let encoding = self.unsigned_encoding_bytes();
        Ok(digest("AETHEL:CREDIT-DECISION:v1".as_bytes(), encoding.as_slice()))
    }
}

/// Which loss a guarantee absorbs first.
#[derive(Clone, Copy, Debug, PartialEq, Eq, Structural)]
pub enum LossLayer {
    FirstLoss,
    PariPassu,
    Excess,
}

impl LossLayer {
    pub open spec fn json(self) -> Seq<u8> {
        match self {
            LossLayer::FirstLoss => lit("\"first_loss\""),
            LossLayer::PariPassu => lit("\"pari_passu\""),
            LossLayer::Excess => lit("\"excess\""),
        }
    }

    pub fn push_json(&self, out: &mut Vec<u8>)
        ensures
            final(out)@ == old(out)@ + self.json(),
    {
        match self {
            LossLayer::FirstLoss => push_lit(out, "\"first_loss\""),
            LossLayer::PariPassu => push_lit(out, "\"pari_passu\""),
            LossLayer::Excess => push_lit(out, "\"excess\""),
        }
    }
}

/// Where a guarantee stands in its lifecycle.
#[derive(Clone, Copy, Debug, PartialEq, Eq, Structural)]
pub enum GuaranteeStatus {
    Available,
    Bound,
    Claimed,
    Released,
}

impl GuaranteeStatus {
    pub open spec fn json(self) -> Seq<u8> {
        match self {
            GuaranteeStatus::Available => lit("\"available\""),
            GuaranteeStatus::Bound => lit("\"bound\""),
            GuaranteeStatus::Claimed => lit("\"claimed\""),
            GuaranteeStatus::Released => lit("\"released\""),
        }
    }

    pub fn push_json(&self, out: &mut Vec<u8>)
        ensures
            final(out)@ == old(out)@ + self.json(),
    {
        match self {
            GuaranteeStatus::Available => push_lit(out, "\"available\""),
            GuaranteeStatus::Bound => push_lit(out, "\"bound\""),
            GuaranteeStatus::Claimed => push_lit(out, "\"claimed\""),
            GuaranteeStatus::Released => push_lit(out, "\"released\""),
        }
    }
}

/// A binding risk-capital commitment backed by an authoritative DeFMI hold.
/// This is intentionally distinct from [`CreditDecision`].
#[derive(Clone, Debug, PartialEq, Eq)]
pub struct GuaranteeCommitment {
    pub operation_id: Identifier,
    pub guarantee_id: Identifier,
    pub request_id: Identifier,
    pub provider_id: Identifier,
    pub series_id: Identifier,
    pub stream_state_version: u64,
    pub stream_state_root: Commitment,
    pub credit_decision_id: Option<Identifier>,
    pub defmi_facility_id: Identifier,
    pub defmi_hold_id: Identifier,
    pub coverage_commitment: Commitment,
    pub loss_layer: LossLayer,
    pub guarantee_terms_digest: Commitment,
    pub claim_policy_digest: Commitment,
    pub relation_proof_digest: Commitment,
    pub valid_until: u64,
    pub nonce: Identifier,
    pub signature: Vec<u8>,
    pub status: GuaranteeStatus,
    pub bound_issuance_id: Option<Identifier>,
}

impl GuaranteeCommitment {
    /// The form a guarantor signs: every identifier set, still available and
    /// unbound, with a representable expiry.
    pub open spec fn well_formed(&self) -> bool {
        &&& !is_zero(self.operation_id)
        &&& !is_zero(self.guarantee_id)
        &&& !is_zero(self.request_id)
        &&& !is_zero(self.provider_id)
        &&& !is_zero(self.series_id)
        &&& !is_zero(self.stream_state_root)
        &&& !is_zero(self.defmi_facility_id)
        &&& !is_zero(self.defmi_hold_id)
        &&& !is_zero(self.coverage_commitment)
        &&& !is_zero(self.guarantee_terms_digest)
        &&& !is_zero(self.claim_policy_digest)
        &&& !is_zero(self.relation_proof_digest)
        &&& !is_zero(self.nonce)
        &&& !some_zero(self.credit_decision_id)
        &&& self.stream_state_version != 0
        &&& spec_valid_time(self.valid_until)
        &&& self.status == GuaranteeStatus::Available
        &&& self.bound_issuance_id is None
    }

    pub open spec fn unsigned_encoding(&self) -> Seq<u8> {
        lit("{\"operationId\":") + json_id(self.operation_id) + lit(",\"guaranteeId\":") + json_id(
            self.guarantee_id,
        ) + lit(",\"requestId\":") + json_id(self.request_id) + lit(",\"providerId\":")
            + json_id(self.provider_id) + lit(",\"seriesId\":") + json_id(self.series_id) + lit(
            ",\"streamStateVersion\":",
        ) + dec(self.stream_state_version as nat) + lit(",\"streamStateRoot\":") + json_id(
            self.stream_state_root,
        ) + lit(",\"creditDecisionId\":") + json_opt_id(self.credit_decision_id) + lit(
            ",\"defmiFacilityId\":",
        ) + json_id(self.defmi_facility_id) + lit(",\"defmiHoldId\":") + json_id(
            self.defmi_hold_id,
        ) + lit(",\"coverageCommitment\":") + json_id(self.coverage_commitment) + lit(
            ",\"lossLayer\":",
        ) + self.loss_layer.json() + lit(",\"guaranteeTermsDigest\":") + json_id(
            self.guarantee_terms_digest,
        ) + lit(",\"claimPolicyDigest\":") + json_id(self.claim_policy_digest) + lit(
            ",\"relationProofDigest\":",
        ) + json_id(self.relation_proof_digest) + lit(",\"validUntil\":") + dec(
            self.valid_until as nat,
        ) + lit(",\"nonce\":") + json_id(self.nonce) + lit(",\"signature\":[],\"status\":")
            + self.status.json() + lit(",\"boundIssuanceId\":") + json_opt_id(
            self.bound_issuance_id,
        ) + lit("}")
    }

    pub open spec fn spec_statement(&self) -> Seq<u8> {
        spec_digest(guarantee_domain(), self.unsigned_encoding())
    }

    pub fn unsigned_encoding_bytes(&self) -> (r: Vec<u8>)
        ensures
            r@ == self.unsigned_encoding(),
    {
        let mut out: Vec<u8> = Vec::new();
        push_lit(&mut out, "{\"operationId\":");
        assert(out@ =~= lit("{\"operationId\":"));
        push_id(&mut out, &self.operation_id);
        push_lit(&mut out, ",\"guaranteeId\":");
        push_id(&mut out, &self.guarantee_id);
        push_lit(&mut out, ",\"requestId\":");
        push_id(&mut out, &self.request_id);
        push_lit(&mut out, ",\"providerId\":");
        push_id(&mut out, &self.provider_id);
        push_lit(&mut out, ",\"seriesId\":");
        push_id(&mut out, &self.series_id);
        push_lit(&mut out, ",\"streamStateVersion\":");
        push_u64(&mut out, self.stream_state_version);
        push_lit(&mut out, ",\"streamStateRoot\":");
        push_id(&mut out, &self.stream_state_root);
        push_lit(&mut out, ",\"creditDecisionId\":");
        push_opt_id(&mut out, &self.credit_decision_id);
        push_lit(&mut out, ",\"defmiFacilityId\":");
        push_id(&mut out, &self.defmi_facility_id);
        push_lit(&mut out, ",\"defmiHoldId\":");
        push_id(&mut out, &self.defmi_hold_id);
        push_lit(&mut out, ",\"coverageCommitment\":");
        push_id(&mut out, &self.coverage_commitment);
        push_lit(&mut out, ",\"lossLayer\":");
        self.loss_layer.push_json(&mut out);
        push_lit(&mut out, ",\"guaranteeTermsDigest\":");
        push_id(&mut out, &self.guarantee_terms_digest);
        push_lit(&mut out, ",\"claimPolicyDigest\":");
        push_id(&mut out, &self.claim_policy_digest);
        push_lit(&mut out, ",\"relationProofDigest\":");
        push_id(&mut out, &self.relation_proof_digest);
        push_lit(&mut out, ",\"validUntil\":");
        push_u64(&mut out, self.valid_until);
        push_lit(&mut out, ",\"nonce\":");
        push_id(&mut out, &self.nonce);
        push_lit(&mut out, ",\"signature\":[],\"status\":");
        self.status.push_json(&mut out);
        push_lit(&mut out, ",\"boundIssuanceId\":");
        push_opt_id(&mut out, &self.bound_issuance_id);
        push_lit(&mut out, "}");
        out
    }

    /// Digest of the unsigned commitment; fails when it is malformed, already
    /// bound, or not in the available state.
    pub fn statement(&self) -> (r: Result<Commitment, ProviderError>)
        ensures
            r matches Ok(d) ==> self.well_formed() && d@ == self.spec_statement(),
            r matches Err(e) ==> !self.well_formed() && e == ProviderError::InvalidGuarantee,
    {
        if is_zero_id(&self.operation_id) || is_zero_id(&self.guarantee_id) || is_zero_id(
            &self.request_id,
        ) || is_zero_id(&self.provider_id) || is_zero_id(&self.series_id) || is_zero_id(
            &self.stream_state_root,
        ) || is_zero_id(&self.defmi_facility_id) || is_zero_id(&self.defmi_hold_id)
            || is_zero_id(&self.coverage_commitment) || is_zero_id(&self.guarantee_terms_digest)
            || is_zero_id(&self.claim_policy_digest) || is_zero_id(&self.relation_proof_digest)
            || is_zero_id(&self.nonce) || is_some_zero(&self.credit_decision_id)
            || self.stream_state_version == 0 || !valid_time(self.valid_until) || !matches!(
            self.status,
            GuaranteeStatus::Available,
        ) || self.bound_issuance_id.is_some() {
            return Err(ProviderError::InvalidGuarantee);
        }
        let encoding = self.unsigned_encoding_bytes();
        Ok(digest("AETHEL:GUARANTEE-COMMITMENT:v1".as_bytes(), encoding.as_slice()))
    }
}

/// The guarantor withdraws an unbound guarantee, or lets an expired one go.
/// The host verifies that `defmi_settlement_digest` is the DeFMI release of
/// the backing hold before Aethel marks the guarantee released.
#[derive(Clone, Debug, PartialEq, Eq)]
pub struct GuaranteeRelease {
    pub operation_id: Identifier,
    pub guarantee_id: Identifier,
    pub provider_id: Identifier,
    pub defmi_settlement_digest: Commitment,
    pub relation_proof_digest: Commitment,
    pub released_at: u64,
    pub signature: Vec<u8>,
}

impl GuaranteeRelease {
    pub open spec fn well_formed(&self) -> bool {
        &&& !is_zero(self.operation_id)
        &&& !is_zero(self.guarantee_id)
        &&& !is_zero(self.provider_id)
        &&& !is_zero(self.defmi_settlement_digest)
        &&& !is_zero(self.relation_proof_digest)
        &&& spec_valid_time(self.released_at)
    }

    pub open spec fn unsigned_encoding(&self) -> Seq<u8> {
        lit("{\"operationId\":") + json_id(self.operation_id) + lit(",\"guaranteeId\":") + json_id(
            self.guarantee_id,
        ) + lit(",\"providerId\":") + json_id(self.provider_id) + lit(
            ",\"defmiSettlementDigest\":",
        ) + json_id(self.defmi_settlement_digest) + lit(",\"relationProofDigest\":") + json_id(
            self.relation_proof_digest,
        ) + lit(",\"releasedAt\":") + dec(self.released_at as nat) + lit(",\"signature\":[]}")
    }

    pub open spec fn spec_statement(&self) -> Seq<u8> {
        spec_digest(guarantee_release_domain(), self.unsigned_encoding())
    }

    pub fn unsigned_encoding_bytes(&self) -> (r: Vec<u8>)
        ensures
            r@ == self.unsigned_encoding(),
    {
        let mut out: Vec<u8> = Vec::new();
        push_lit(&mut out, "{\"operationId\":");
        assert(out@ =~= lit("{\"operationId\":"));
        push_id(&mut out, &self.operation_id);
        push_lit(&mut out, ",\"guaranteeId\":");
        push_id(&mut out, &self.guarantee_id);
        push_lit(&mut out, ",\"providerId\":");
        push_id(&mut out, &self.provider_id);
        push_lit(&mut out, ",\"defmiSettlementDigest\":");
        push_id(&mut out, &self.defmi_settlement_digest);
        push_lit(&mut out, ",\"relationProofDigest\":");
        push_id(&mut out, &self.relation_proof_digest);
        push_lit(&mut out, ",\"releasedAt\":");
        push_u64(&mut out, self.released_at);
        push_lit(&mut out, ",\"signature\":[]}");
        out
    }

    pub fn statement(&self) -> (r: Result<Commitment, ProviderError>)
        ensures
            r matches Ok(d) ==> self.well_formed() && d@ == self.spec_statement(),
            r matches Err(e) ==> !self.well_formed() && e == ProviderError::InvalidGuaranteeRelease,
    {
        if is_zero_id(&self.operation_id) || is_zero_id(&self.guarantee_id) || is_zero_id(
            &self.provider_id,
        ) || is_zero_id(&self.defmi_settlement_digest) || is_zero_id(&self.relation_proof_digest)
            || !valid_time(self.released_at) {
            return Err(ProviderError::InvalidGuaranteeRelease);
        }
        let encoding = self.unsigned_encoding_bytes();
        Ok(digest("AETHEL:GUARANTEE-RELEASE:v1".as_bytes(), encoding.as_slice()))
    }
}

/// An executable advance quote backed by a cash-note reservation in DeFMI.
#[derive(Clone, Debug, PartialEq, Eq)]
pub struct FundingQuote {
    pub operation_id: Identifier,
    pub quote_id: Identifier,
    pub request_id: Identifier,
    pub provider_id: Identifier,
    pub series_id: Identifier,
    pub stream_state_version: u64,
    pub stream_state_root: Commitment,
    pub credit_decision_id: Option<Identifier>,
    pub guarantee_id: Option<Identifier>,
    pub cash_asset_id: Identifier,
    pub cash_reservation_id: Identifier,
    pub advance_commitment: Commitment,
    pub price_commitment: Commitment,
    pub quote_terms_digest: Commitment,
    pub policy_digest: Commitment,
    pub relation_proof_digest: Commitment,
    pub valid_until: u64,
    pub nonce: Identifier,
    pub signature: Vec<u8>,
    pub bound_issuance_id: Option<Identifier>,
}

impl FundingQuote {
    pub open spec fn well_formed(&self) -> bool {
        &&& !is_zero(self.operation_id)
        &&& !is_zero(self.quote_id)
        &&& !is_zero(self.request_id)
        &&& !is_zero(self.provider_id)
        &&& !is_zero(self.series_id)
        &&& !is_zero(self.stream_state_root)
        &&& !is_zero(self.cash_asset_id)
        &&& !is_zero(self.cash_reservation_id)
        &&& !is_zero(self.advance_commitment)
        &&& !is_zero(self.price_commitment)
        &&& !is_zero(self.quote_terms_digest)
        &&& !is_zero(self.policy_digest)
        &&& !is_zero(self.relation_proof_digest)
        &&& !is_zero(self.nonce)
        &&& !some_zero(self.credit_decision_id)
        &&& !some_zero(self.guarantee_id)
        &&& self.stream_state_version != 0
        &&& spec_valid_time(self.valid_until)
        &&& self.bound_issuance_id is None
    }

    pub open spec fn unsigned_encoding(&self) -> Seq<u8> {
        lit("{\"operationId\":") + json_id(self.operation_id) + lit(",\"quoteId\":") + json_id(
            self.quote_id,
        ) + lit(",\"requestId\":") + json_id(self.request_id) + lit(",\"providerId\":")
            + json_id(self.provider_id) + lit(",\"seriesId\":") + json_id(self.series_id) + lit(
            ",\"streamStateVersion\":",
        ) + dec(self.stream_state_version as nat) + lit(",\"streamStateRoot\":") + json_id(
            self.stream_state_root,
        ) + lit(",\"creditDecisionId\":") + json_opt_id(self.credit_decision_id) + lit(
            ",\"guaranteeId\":",
        ) + json_opt_id(self.guarantee_id) + lit(",\"cashAssetId\":") + json_id(
            self.cash_asset_id,
        ) + lit(",\"cashReservationId\":") + json_id(self.cash_reservation_id) + lit(
            ",\"advanceCommitment\":",
        ) + json_id(self.advance_commitment) + lit(",\"priceCommitment\":") + json_id(
            self.price_commitment,
        ) + lit(",\"quoteTermsDigest\":") + json_id(self.quote_terms_digest) + lit(
            ",\"policyDigest\":",
        ) + json_id(self.policy_digest) + lit(",\"relationProofDigest\":") + json_id(
            self.relation_proof_digest,
        ) + lit(",\"validUntil\":") + dec(self.valid_until as nat) + lit(",\"nonce\":") + json_id(
            self.nonce,
        ) + lit(",\"signature\":[],\"boundIssuanceId\":") + json_opt_id(self.bound_issuance_id)
            + lit("}")
    }

    pub open spec fn spec_statement(&self) -> Seq<u8> {
        spec_digest(funding_quote_domain(), self.unsigned_encoding())
    }

    pub fn unsigned_encoding_bytes(&self) -> (r: Vec<u8>)
        ensures
            r@ == self.unsigned_encoding(),
    {
        let mut out: Vec<u8> = Vec::new();
        push_lit(&mut out, "{\"operationId\":");
        assert(out@ =~= lit("{\"operationId\":"));
        push_id(&mut out, &self.operation_id);
        push_lit(&mut out, ",\"quoteId\":");
        push_id(&mut out, &self.quote_id);
        push_lit(&mut out, ",\"requestId\":");
        push_id(&mut out, &self.request_id);
        push_lit(&mut out, ",\"providerId\":");
        push_id(&mut out, &self.provider_id);
        push_lit(&mut out, ",\"seriesId\":");
        push_id(&mut out, &self.series_id);
        push_lit(&mut out, ",\"streamStateVersion\":");
        push_u64(&mut out, self.stream_state_version);
        push_lit(&mut out, ",\"streamStateRoot\":");
        push_id(&mut out, &self.stream_state_root);
        push_lit(&mut out, ",\"creditDecisionId\":");
        push_opt_id(&mut out, &self.credit_decision_id);
        push_lit(&mut out, ",\"guaranteeId\":");
        push_opt_id(&mut out, &self.guarantee_id);
        push_lit(&mut out, ",\"cashAssetId\":");
        push_id(&mut out, &self.cash_asset_id);
        push_lit(&mut out, ",\"cashReservationId\":");
        push_id(&mut out, &self.cash_reservation_id);
        push_lit(&mut out, ",\"advanceCommitment\":");
        push_id(&mut out, &self.advance_commitment);
        push_lit(&mut out, ",\"priceCommitment\":");
        push_id(&mut out, &self.price_commitment);
        push_lit(&mut out, ",\"quoteTermsDigest\":");
        push_id(&mut out, &self.quote_terms_digest);
        push_lit(&mut out, ",\"policyDigest\":");
        push_id(&mut out, &self.policy_digest);
        push_lit(&mut out, ",\"relationProofDigest\":");
        push_id(&mut out, &self.relation_proof_digest);
        push_lit(&mut out, ",\"validUntil\":");
        push_u64(&mut out, self.valid_until);
        push_lit(&mut out, ",\"nonce\":");
        push_id(&mut out, &self.nonce);
        push_lit(&mut out, ",\"signature\":[],\"boundIssuanceId\":");
        push_opt_id(&mut out, &self.bound_issuance_id);
        push_lit(&mut out, "}");
        out
    }

    pub fn statement(&self) -> (r: Result<Commitment, ProviderError>)
        ensures
            r matches Ok(d) ==> self.well_formed() && d@ == self.spec_statement(),
            r matches Err(e) ==> !self.well_formed() && e == ProviderError::InvalidFundingQuote,
    {
        if is_zero_id(&self.operation_id) || is_zero_id(&self.quote_id) || is_zero_id(
            &self.request_id,
        ) || is_zero_id(&self.provider_id) || is_zero_id(&self.series_id) || is_zero_id(
            &self.stream_state_root,
        ) || is_zero_id(&self.cash_asset_id) || is_zero_id(&self.cash_reservation_id)
            || is_zero_id(&self.advance_commitment) || is_zero_id(&self.price_commitment)
            || is_zero_id(&self.quote_terms_digest) || is_zero_id(&self.policy_digest)
            || is_zero_id(&self.relation_proof_digest) || is_zero_id(&self.nonce) || is_some_zero(
            &self.credit_decision_id,
        ) || is_some_zero(&self.guarantee_id) || self.stream_state_version == 0 || !valid_time(
            self.valid_until,
        ) || self.bound_issuance_id.is_some() {
            return Err(ProviderError::InvalidFundingQuote);
        }
        let encoding = self.unsigned_encoding_bytes();
        Ok(digest("AETHEL:FUNDING-QUOTE:v1".as_bytes(), encoding.as_slice()))
    }
}

/// A servicer's signed observation that the contractually defined default
/// condition occurred. It is evidence for a claim, not the payout itself.
#[derive(Clone, Debug, PartialEq, Eq)]
pub struct DefaultAttestation {
    pub operation_id: Identifier,
    pub attestation_id: Identifier,
    pub provider_id: Identifier,
    pub stream_id: Identifier,
    pub stream_state_version: u64,
    pub stream_state_root: Commitment,
    pub event_digest: Commitment,
    pub reason_digest: Commitment,
    pub observed_at: u64,
    pub signature: Vec<u8>,
}

impl DefaultAttestation {
    pub open spec fn well_formed(&self) -> bool {
        &&& !is_zero(self.operation_id)
        &&& !is_zero(self.attestation_id)
        &&& !is_zero(self.provider_id)
        &&& !is_zero(self.stream_id)
        &&& !is_zero(self.stream_state_root)
        &&& !is_zero(self.event_digest)
        &&& !is_zero(self.reason_digest)
        &&& self.stream_state_version != 0
        &&& spec_valid_time(self.observed_at)
    }

    pub open spec fn unsigned_encoding(&self) -> Seq<u8> {
        lit("{\"operationId\":") + json_id(self.operation_id) + lit(",\"attestationId\":")
            + json_id(self.attestation_id) + lit(",\"providerId\":") + json_id(self.provider_id)
            + lit(",\"streamId\":") + json_id(self.stream_id) + lit(",\"streamStateVersion\":")
            + dec(self.stream_state_version as nat) + lit(",\"streamStateRoot\":") + json_id(
            self.stream_state_root,
        ) + lit(",\"eventDigest\":") + json_id(self.event_digest) + lit(",\"reasonDigest\":")
            + json_id(self.reason_digest) + lit(",\"observedAt\":") + dec(
            self.observed_at as nat,
        ) + lit(",\"signature\":[]}")
    }

    pub open spec fn spec_statement(&self) -> Seq<u8> {
        spec_digest(default_domain(), self.unsigned_encoding())
    }

    pub fn unsigned_encoding_bytes(&self) -> (r: Vec<u8>)
        ensures
            r@ == self.unsigned_encoding(),
    {
        let mut out: Vec<u8> = Vec::new();
        push_lit(&mut out, "{\"operationId\":");
        assert(out@ =~= lit("{\"operationId\":"));
        push_id(&mut out, &self.operation_id);
        push_lit(&mut out, ",\"attestationId\":");
        push_id(&mut out, &self.attestation_id);
        push_lit(&mut out, ",\"providerId\":");
        push_id(&mut out, &self.provider_id);
        push_lit(&mut out, ",\"streamId\":");
        push_id(&mut out, &self.stream_id);
        push_lit(&mut out, ",\"streamStateVersion\":");
        push_u64(&mut out, self.stream_state_version);
        push_lit(&mut out, ",\"streamStateRoot\":");
        push_id(&mut out, &self.stream_state_root);
        push_lit(&mut out, ",\"eventDigest\":");
        push_id(&mut out, &self.event_digest);
        push_lit(&mut out, ",\"reasonDigest\":");
        push_id(&mut out, &self.reason_digest);
        push_lit(&mut out, ",\"observedAt\":");
        push_u64(&mut out, self.observed_at);
        push_lit(&mut out, ",\"signature\":[]}");
        out
    }

    pub fn statement(&self) -> (r: Result<Commitment, ProviderError>)
        ensures
            r matches Ok(d) ==> self.well_formed() && d@ == self.spec_statement(),
            r matches Err(e) ==> !self.well_formed() && e == ProviderError::InvalidDefaultAttestation,
    {
        if is_zero_id(&self.operation_id) || is_zero_id(&self.attestation_id) || is_zero_id(
            &self.provider_id,
        ) || is_zero_id(&self.stream_id) || is_zero_id(&self.stream_state_root) || is_zero_id(
            &self.event_digest,
        ) || is_zero_id(&self.reason_digest) || self.stream_state_version == 0 || !valid_time(
            self.observed_at,
        ) {
            return Err(ProviderError::InvalidDefaultAttestation);
        }
        let encoding = self.unsigned_encoding_bytes();
        Ok(digest("AETHEL:DEFAULT-ATTESTATION:v1".as_bytes(), encoding.as_slice()))
    }
}

} // verus!
