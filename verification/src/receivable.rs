//! Receivable series, issuance, and guarantee-claim records of the protocol
//! book, with the protocol's error type.

use vstd::prelude::*;

use crate::canon::{
    dec, items, json_bool, json_id, json_list, json_opt_id, lemma_items_step, lit, opt_id_field,
    push_bool, push_id, push_lit, push_opt_id, push_opt_id_field, push_u64,
};
use crate::provider::ProviderError;
use crate::types::{
    digest, is_some_zero, is_zero, is_zero_id, push_all, some_zero, spec_digest, spec_valid_time,
    spec_valid_window, valid_time, valid_window, Commitment, Identifier,
};

verus! {

/// Why the protocol book refused an operation.
#[derive(Clone, Copy, Debug, PartialEq, Eq, Structural)]
pub enum AethelError {
    Encoding,
    InvalidState,
    InvalidProvider,
    InvalidProviderKey,
    InvalidSignature,
    MissingGuaranteeAuthority,
    UnknownProvider,
    DuplicateProvider,
    MissingProviderCapability,
    ProviderRevoked,
    StaleSequence,
    OutsideValidityWindow,
    InvalidStream,
    UnknownStream,
    DuplicateStream,
    InvalidStreamTransition,
    StreamUnavailable,
    StaleStreamState,
    InvalidSeries,
    UnknownSeries,
    DuplicateSeries,
    SeriesUnavailable,
    InvalidCreditDecision,
    InvalidConfidentialSubject,
    MissingConfidentialSubject,
    MismatchedConfidentialSubject,
    InvalidCredentialIssuer,
    InvalidCredentialStatus,
    Credential,
    UnknownCreditDecision,
    InvalidGuarantee,
    UnknownGuarantee,
    GuaranteeUnavailable,
    InvalidGuaranteeRelease,
    InvalidFundingQuote,
    UnknownFundingQuote,
    InvalidIssuance,
    DuplicateIssuance,
    UnknownIssuance,
    MissingRequiredArtifact,
    MismatchedArtifact,
    InvalidDefaultAttestation,
    UnknownDefaultAttestation,
    InvalidGuaranteeClaim,
    Replay,
    ArithmeticOverflow,
}

/// The protocol error a provider-contract error becomes, one for one.
pub open spec fn from_provider(e: ProviderError) -> AethelError {
    match e {
        ProviderError::Encoding => AethelError::Encoding,
        ProviderError::InvalidProvider => AethelError::InvalidProvider,
        ProviderError::InvalidProviderKey => AethelError::InvalidProviderKey,
        ProviderError::InvalidSignature => AethelError::InvalidSignature,
        ProviderError::MissingGuaranteeAuthority => AethelError::MissingGuaranteeAuthority,
        ProviderError::UnknownProvider => AethelError::UnknownProvider,
        ProviderError::MissingProviderCapability => AethelError::MissingProviderCapability,
        ProviderError::InvalidStream => AethelError::InvalidStream,
        ProviderError::InvalidStreamTransition => AethelError::InvalidStreamTransition,
        ProviderError::StreamUnavailable => AethelError::StreamUnavailable,
        ProviderError::InvalidCreditDecision => AethelError::InvalidCreditDecision,
        ProviderError::InvalidGuarantee => AethelError::InvalidGuarantee,
        ProviderError::InvalidGuaranteeRelease => AethelError::InvalidGuaranteeRelease,
        ProviderError::InvalidFundingQuote => AethelError::InvalidFundingQuote,
        ProviderError::InvalidDefaultAttestation => AethelError::InvalidDefaultAttestation,
        ProviderError::InvalidCredentialIssuer => AethelError::InvalidCredentialIssuer,
        ProviderError::InvalidCredentialStatus => AethelError::InvalidCredentialStatus,
        ProviderError::Credential => AethelError::Credential,
        ProviderError::ArithmeticOverflow => AethelError::ArithmeticOverflow,
    }
}

/// Converts a provider-contract error into the protocol's error.
pub fn aethel_error(e: ProviderError) -> (r: AethelError)
    ensures
        r == from_provider(e),
{
    match e {
        ProviderError::Encoding => AethelError::Encoding,
        ProviderError::InvalidProvider => AethelError::InvalidProvider,
        ProviderError::InvalidProviderKey => AethelError::InvalidProviderKey,
        ProviderError::InvalidSignature => AethelError::InvalidSignature,
        ProviderError::MissingGuaranteeAuthority => AethelError::MissingGuaranteeAuthority,
        ProviderError::UnknownProvider => AethelError::UnknownProvider,
        ProviderError::MissingProviderCapability => AethelError::MissingProviderCapability,
        ProviderError::InvalidStream => AethelError::InvalidStream,
        ProviderError::InvalidStreamTransition => AethelError::InvalidStreamTransition,
        ProviderError::StreamUnavailable => AethelError::StreamUnavailable,
        ProviderError::InvalidCreditDecision => AethelError::InvalidCreditDecision,
        ProviderError::InvalidGuarantee => AethelError::InvalidGuarantee,
        ProviderError::InvalidGuaranteeRelease => AethelError::InvalidGuaranteeRelease,
        ProviderError::InvalidFundingQuote => AethelError::InvalidFundingQuote,
        ProviderError::InvalidDefaultAttestation => AethelError::InvalidDefaultAttestation,
        ProviderError::InvalidCredentialIssuer => AethelError::InvalidCredentialIssuer,
        ProviderError::InvalidCredentialStatus => AethelError::InvalidCredentialStatus,
        ProviderError::Credential => AethelError::Credential,
        ProviderError::ArithmeticOverflow => AethelError::ArithmeticOverflow,
    }
}

#[derive(Clone, Copy, Debug, PartialEq, Eq, Structural)]
pub enum ReceivableStatus {
    Active,
    Suspended,
    Closed,
}

impl ReceivableStatus {
    pub open spec fn json(self) -> Seq<u8> {
        match self {
            ReceivableStatus::Active => lit("\"active\""),
            ReceivableStatus::Suspended => lit("\"suspended\""),
            ReceivableStatus::Closed => lit("\"closed\""),
        }
    }

    pub fn push_json(&self, out: &mut Vec<u8>)
        ensures
            final(out)@ == old(out)@ + self.json(),
    {
        match self {
            ReceivableStatus::Active => push_lit(out, "\"active\""),
            ReceivableStatus::Suspended => push_lit(out, "\"suspended\""),
            ReceivableStatus::Closed => push_lit(out, "\"closed\""),
        }
    }
}

/// The DeKYX subject kind an anonymous line must be credentialed as.
#[derive(Clone, Copy, Debug, PartialEq, Eq, Structural)]
pub enum SubjectKind {
    LegalEntity,
    NaturalPerson,
}

/// A DeKYX qualification a holder must disclose and prove, held as the
/// canonical encoding DeKYX gives it. Its meaning and validity are DeKYX's.
#[derive(Clone, Debug, PartialEq, Eq)]
pub struct Qualification {
    pub canonical: Vec<u8>,
}

/// Deterministic admission rules for one receivable series. Private
/// thresholds stay in `eligibility_policy_digest`.
#[derive(Clone, Debug, PartialEq, Eq)]
pub struct SeriesPolicy {
    pub requires_credit_decision: bool,
    pub requires_guarantee: bool,
    pub requires_funding_reservation: bool,
    pub requires_confidential_subject: bool,
    pub subject_kind: SubjectKind,
    pub required_qualifications: Vec<Qualification>,
    pub accepted_issuer_namespace_digest: Option<Commitment>,
    pub allow_secondary_transfer: bool,
    pub eligibility_policy_digest: Commitment,
    pub claim_policy_digest: Commitment,
}

impl SeriesPolicy {
    /// No qualification is listed twice.
    pub open spec fn qualifications_distinct(&self) -> bool {
        forall|i: int, j: int|
            0 <= i < j < self.required_qualifications@.len() ==> (
            #[trigger] self.required_qualifications@[i]).canonical@
                != (#[trigger] self.required_qualifications@[j]).canonical@
    }

    pub open spec fn spec_valid(&self) -> bool {
        &&& !is_zero(self.eligibility_policy_digest)
        &&& !is_zero(self.claim_policy_digest)
        &&& !some_zero(self.accepted_issuer_namespace_digest)
        &&& self.required_qualifications@.len() <= 256
        &&& !(self.requires_confidential_subject && !self.requires_credit_decision
            && !self.requires_guarantee)
        &&& self.qualifications_distinct()
    }

    /// The policy's own checks; each qualification's content is DeKYX's.
    pub fn validate(&self) -> (r: Result<(), AethelError>)
        ensures
            r is Ok <==> self.spec_valid(),
            r matches Err(e) ==> e == AethelError::InvalidSeries,
    {
        if is_zero_id(&self.eligibility_policy_digest) || is_zero_id(&self.claim_policy_digest)
            || is_some_zero(&self.accepted_issuer_namespace_digest)
            || self.required_qualifications.len() > 256 || (self.requires_confidential_subject
            && !self.requires_credit_decision && !self.requires_guarantee) {
            return Err(AethelError::InvalidSeries);
        }
        let q = &self.required_qualifications;
        let mut j: usize = 0;
        while j < q.len()
            invariant
                j <= q@.len(),
                q@ == self.required_qualifications@,
                forall|a: int, b: int|
                    0 <= a < b < j ==> (#[trigger] q@[a]).canonical@ != (#[trigger] q@[b]).canonical@,
            decreases q@.len() - j,
        {
            let mut i: usize = 0;
            while i < j
                invariant
                    i <= j < q@.len(),
                    q@ == self.required_qualifications@,
                    forall|a: int| 0 <= a < i ==> (#[trigger] q@[a]).canonical@ != q@[j as int].canonical@,
                decreases j - i,
            {
                if bytes_equal(q[i].canonical.as_slice(), q[j].canonical.as_slice()) {
                    assert(!self.qualifications_distinct()) by {
                        assert(q@[i as int].canonical@ == q@[j as int].canonical@);
                    }
                    return Err(AethelError::InvalidSeries);
                }
                i = i + 1;
            }
            j = j + 1;
        }
        Ok(())
    }

    pub open spec fn json(&self) -> Seq<u8> {
        lit("{\"requiresCreditDecision\":") + json_bool(self.requires_credit_decision) + lit(
            ",\"requiresGuarantee\":",
        ) + json_bool(self.requires_guarantee) + lit(",\"requiresFundingReservation\":")
            + json_bool(self.requires_funding_reservation) + (if self.requires_confidential_subject {
            lit(",\"requiresConfidentialSubject\":true")
        } else {
            Seq::empty()
        }) + (if self.subject_kind == SubjectKind::NaturalPerson {
            lit(",\"subjectKind\":\"natural_person\"")
        } else {
            Seq::empty()
        }) + (if self.required_qualifications@.len() == 0 {
            Seq::empty()
        } else {
            lit(",\"requiredQualifications\":") + json_list(
                self.required_qualifications@,
                |q: Qualification| q.canonical@,
            )
        }) + opt_id_field(",\"acceptedIssuerNamespaceDigest\":", self.accepted_issuer_namespace_digest)
            + lit(",\"allowSecondaryTransfer\":") + json_bool(self.allow_secondary_transfer) + lit(
            ",\"eligibilityPolicyDigest\":",
        ) + json_id(self.eligibility_policy_digest) + lit(",\"claimPolicyDigest\":") + json_id(
            self.claim_policy_digest,
        ) + lit("}")
    }

    pub fn json_bytes(&self) -> (r: Vec<u8>)
        ensures
            r@ == self.json(),
    {
        let mut out: Vec<u8> = Vec::new();
        push_lit(&mut out, "{\"requiresCreditDecision\":");
        assert(out@ =~= lit("{\"requiresCreditDecision\":"));
        push_bool(&mut out, self.requires_credit_decision);
        push_lit(&mut out, ",\"requiresGuarantee\":");
        push_bool(&mut out, self.requires_guarantee);
        push_lit(&mut out, ",\"requiresFundingReservation\":");
        push_bool(&mut out, self.requires_funding_reservation);
        let mut part: Vec<u8> = Vec::new();
        if self.requires_confidential_subject {
            push_lit(&mut part, ",\"requiresConfidentialSubject\":true");
        }
        assert(part@ =~= (if self.requires_confidential_subject {
            lit(",\"requiresConfidentialSubject\":true")
        } else {
            Seq::<u8>::empty()
        }));
        push_all(&mut out, part.as_slice());
        let mut part: Vec<u8> = Vec::new();
        if matches!(self.subject_kind, SubjectKind::NaturalPerson) {
            push_lit(&mut part, ",\"subjectKind\":\"natural_person\"");
        }
        assert(part@ =~= (if self.subject_kind == SubjectKind::NaturalPerson {
            lit(",\"subjectKind\":\"natural_person\"")
        } else {
            Seq::<u8>::empty()
        }));
        push_all(&mut out, part.as_slice());
        let mut part: Vec<u8> = Vec::new();
        if self.required_qualifications.len() != 0 {
            push_lit(&mut part, ",\"requiredQualifications\":");
            let list = qualifications_json(&self.required_qualifications);
            push_all(&mut part, list.as_slice());
        }
        assert(part@ =~= (if self.required_qualifications@.len() == 0 {
            Seq::<u8>::empty()
        } else {
            lit(",\"requiredQualifications\":") + json_list(
                self.required_qualifications@,
                |q: Qualification| q.canonical@,
            )
        }));
        push_all(&mut out, part.as_slice());
        push_opt_id_field(
            &mut out,
            ",\"acceptedIssuerNamespaceDigest\":",
            &self.accepted_issuer_namespace_digest,
        );
        push_lit(&mut out, ",\"allowSecondaryTransfer\":");
        push_bool(&mut out, self.allow_secondary_transfer);
        push_lit(&mut out, ",\"eligibilityPolicyDigest\":");
        push_id(&mut out, &self.eligibility_policy_digest);
        push_lit(&mut out, ",\"claimPolicyDigest\":");
        push_id(&mut out, &self.claim_policy_digest);
        push_lit(&mut out, "}");
        out
    }
}

/// Byte-wise equality of two byte strings.
pub fn bytes_equal(a: &[u8], b: &[u8]) -> (r: bool)
    ensures
        r == (a@ == b@),
{
    if a.len() != b.len() {
        return false;
    }
    let mut i: usize = 0;
    while i < a.len()
        invariant
            i <= a@.len(),
            a@.len() == b@.len(),
            forall|j: int| 0 <= j < i ==> a@[j] == b@[j],
        decreases a@.len() - i,
    {
        if a[i] != b[i] {
            return false;
        }
        i = i + 1;
    }
    assert(a@ =~= b@);
    true
}

fn qualifications_json(q: &Vec<Qualification>) -> (r: Vec<u8>)
    ensures
        r@ == json_list(q@, |x: Qualification| x.canonical@),
{
    let ghost enc = |x: Qualification| x.canonical@;
    let mut out: Vec<u8> = Vec::new();
    out.push(91u8);
    let mut i: usize = 0;
    while i < q.len()
        invariant
            i <= q@.len(),
            enc == (|x: Qualification| x.canonical@),
            out@ == seq![91u8] + items(q@.subrange(0, i as int), enc),
        decreases q@.len() - i,
    {
        proof {
            lemma_items_step(q@, i as int, enc);
        }
        if i > 0 {
            out.push(44u8);
        }
        push_all(&mut out, q[i].canonical.as_slice());
        assert(out@ =~= seq![91u8] + items(q@.subrange(0, (i + 1) as int), enc));
        i = i + 1;
    }
    assert(q@.subrange(0, q@.len() as int) =~= q@);
    out.push(93u8);
    assert(out@ =~= json_list(q@, enc));
    out
}

#[derive(Clone, Debug, PartialEq, Eq)]
pub struct ReceivableSeries {
    pub series_id: Identifier,
    pub aethel_domain_id: Identifier,
    pub stream_id: Identifier,
    pub receivable_asset_id: Identifier,
    pub issuer_participant_id: Identifier,
    pub policy: SeriesPolicy,
    pub valid_from: u64,
    pub maturity: u64,
    pub sequence: u64,
    pub status: ReceivableStatus,
}

impl ReceivableSeries {
    pub open spec fn spec_valid_initial(&self) -> bool {
        &&& !is_zero(self.series_id)
        &&& !is_zero(self.aethel_domain_id)
        &&& !is_zero(self.stream_id)
        &&& !is_zero(self.receivable_asset_id)
        &&& !is_zero(self.issuer_participant_id)
        &&& spec_valid_window(self.valid_from, self.maturity)
        &&& self.sequence == 0
        &&& self.status == ReceivableStatus::Active
        &&& self.policy.spec_valid()
    }

    /// The registration form of a series.
    pub fn validate_initial(&self) -> (r: Result<(), AethelError>)
        ensures
            r is Ok <==> self.spec_valid_initial(),
            r matches Err(e) ==> e == AethelError::InvalidSeries,
    {
        if is_zero_id(&self.series_id) || is_zero_id(&self.aethel_domain_id) || is_zero_id(
            &self.stream_id,
        ) || is_zero_id(&self.receivable_asset_id) || is_zero_id(&self.issuer_participant_id)
            || !valid_window(self.valid_from, self.maturity) || self.sequence != 0 || !matches!(
            self.status,
            ReceivableStatus::Active,
        ) {
            return Err(AethelError::InvalidSeries);
        }
        self.policy.validate()
    }

    pub open spec fn json(&self) -> Seq<u8> {
        lit("{\"seriesId\":") + json_id(self.series_id) + lit(",\"aethelDomainId\":") + json_id(
            self.aethel_domain_id,
        ) + lit(",\"streamId\":") + json_id(self.stream_id) + lit(",\"receivableAssetId\":")
            + json_id(self.receivable_asset_id) + lit(",\"issuerParticipantId\":") + json_id(
            self.issuer_participant_id,
        ) + lit(",\"policy\":") + self.policy.json() + lit(",\"validFrom\":") + dec(
            self.valid_from as nat,
        ) + lit(",\"maturity\":") + dec(self.maturity as nat) + lit(",\"sequence\":") + dec(
            self.sequence as nat,
        ) + lit(",\"status\":") + self.status.json() + lit("}")
    }

    pub fn json_bytes(&self) -> (r: Vec<u8>)
        ensures
            r@ == self.json(),
    {
        let mut out: Vec<u8> = Vec::new();
        push_lit(&mut out, "{\"seriesId\":");
        assert(out@ =~= lit("{\"seriesId\":"));
        push_id(&mut out, &self.series_id);
        push_lit(&mut out, ",\"aethelDomainId\":");
        push_id(&mut out, &self.aethel_domain_id);
        push_lit(&mut out, ",\"streamId\":");
        push_id(&mut out, &self.stream_id);
        push_lit(&mut out, ",\"receivableAssetId\":");
        push_id(&mut out, &self.receivable_asset_id);
        push_lit(&mut out, ",\"issuerParticipantId\":");
        push_id(&mut out, &self.issuer_participant_id);
        push_lit(&mut out, ",\"policy\":");
        let policy = self.policy.json_bytes();
        push_all(&mut out, policy.as_slice());
        push_lit(&mut out, ",\"validFrom\":");
        push_u64(&mut out, self.valid_from);
        push_lit(&mut out, ",\"maturity\":");
        push_u64(&mut out, self.maturity);
        push_lit(&mut out, ",\"sequence\":");
        push_u64(&mut out, self.sequence);
        push_lit(&mut out, ",\"status\":");
        self.status.push_json(&mut out);
        push_lit(&mut out, "}");
        out
    }
}

pub open spec fn series_domain() -> Seq<u8> {
    lit("AETHEL:RECEIVABLE-SERIES:v1")
}

pub open spec fn issuance_domain() -> Seq<u8> {
    lit("AETHEL:RECEIVABLE-ISSUANCE:v1")
}

pub open spec fn guarantee_claim_domain() -> Seq<u8> {
    lit("AETHEL:GUARANTEE-CLAIM:v1")
}

#[derive(Clone, Debug, PartialEq, Eq)]
pub struct RegisterSeries {
    pub operation_id: Identifier,
    pub series: ReceivableSeries,
}

impl RegisterSeries {
    pub open spec fn encoding(&self) -> Seq<u8> {
        lit("{\"operationId\":") + json_id(self.operation_id) + lit(",\"series\":")
            + self.series.json() + lit("}")
    }

    pub fn statement(&self) -> (r: Result<Commitment, AethelError>)
        ensures
            r is Ok <==> !is_zero(self.operation_id) && self.series.spec_valid_initial(),
            r matches Ok(d) ==> d@ == spec_digest(series_domain(), self.encoding()),
            r matches Err(e) ==> e == AethelError::InvalidSeries,
    {
        if is_zero_id(&self.operation_id) {
            return Err(AethelError::InvalidSeries);
        }
        match self.series.validate_initial() {
            Ok(()) => {},
            Err(e) => return Err(e),
        }
        let mut out: Vec<u8> = Vec::new();
        push_lit(&mut out, "{\"operationId\":");
        assert(out@ =~= lit("{\"operationId\":"));
        push_id(&mut out, &self.operation_id);
        push_lit(&mut out, ",\"series\":");
        let series = self.series.json_bytes();
        push_all(&mut out, series.as_slice());
        push_lit(&mut out, "}");
        Ok(digest("AETHEL:RECEIVABLE-SERIES:v1".as_bytes(), out.as_slice()))
    }
}

/// The Aethel-to-DeFMI binding for one issued receivable note.
#[derive(Clone, Debug, PartialEq, Eq)]
pub struct ReceivableIssuance {
    pub operation_id: Identifier,
    pub issuance_id: Identifier,
    pub request_id: Identifier,
    pub series_id: Identifier,
    pub note_id: Identifier,
    pub owner_commitment: Commitment,
    pub face_value_commitment: Commitment,
    pub before_stream_state_version: u64,
    pub before_stream_state_root: Commitment,
    pub after_pledged_commitment: Commitment,
    pub allocation_nullifier: Identifier,
    pub credit_decision_id: Option<Identifier>,
    pub guarantee_id: Option<Identifier>,
    pub funding_quote_id: Option<Identifier>,
    pub relation_proof_digest: Commitment,
    pub zkpi_digest: Commitment,
    pub issued_at: u64,
}

impl ReceivableIssuance {
    pub open spec fn well_formed(&self) -> bool {
        &&& !is_zero(self.operation_id)
        &&& !is_zero(self.issuance_id)
        &&& !is_zero(self.request_id)
        &&& !is_zero(self.series_id)
        &&& !is_zero(self.note_id)
        &&& !is_zero(self.owner_commitment)
        &&& !is_zero(self.face_value_commitment)
        &&& !is_zero(self.before_stream_state_root)
        &&& !is_zero(self.after_pledged_commitment)
        &&& !is_zero(self.allocation_nullifier)
        &&& !is_zero(self.relation_proof_digest)
        &&& !is_zero(self.zkpi_digest)
        &&& !some_zero(self.credit_decision_id)
        &&& !some_zero(self.guarantee_id)
        &&& !some_zero(self.funding_quote_id)
        &&& self.before_stream_state_version != 0
        &&& spec_valid_time(self.issued_at)
    }

    pub open spec fn encoding(&self) -> Seq<u8> {
        lit("{\"operationId\":") + json_id(self.operation_id) + lit(",\"issuanceId\":") + json_id(
            self.issuance_id,
        ) + lit(",\"requestId\":") + json_id(self.request_id) + lit(",\"seriesId\":") + json_id(
            self.series_id,
        ) + lit(",\"noteId\":") + json_id(self.note_id) + lit(",\"ownerCommitment\":") + json_id(
            self.owner_commitment,
        ) + lit(",\"faceValueCommitment\":") + json_id(self.face_value_commitment) + lit(
            ",\"beforeStreamStateVersion\":",
        ) + dec(self.before_stream_state_version as nat) + lit(",\"beforeStreamStateRoot\":")
            + json_id(self.before_stream_state_root) + lit(",\"afterPledgedCommitment\":") + json_id(
            self.after_pledged_commitment,
        ) + lit(",\"allocationNullifier\":") + json_id(self.allocation_nullifier) + lit(
            ",\"creditDecisionId\":",
        ) + json_opt_id(self.credit_decision_id) + lit(",\"guaranteeId\":") + json_opt_id(
            self.guarantee_id,
        ) + lit(",\"fundingQuoteId\":") + json_opt_id(self.funding_quote_id) + lit(
            ",\"relationProofDigest\":",
        ) + json_id(self.relation_proof_digest) + lit(",\"zkpiDigest\":") + json_id(
            self.zkpi_digest,
        ) + lit(",\"issuedAt\":") + dec(self.issued_at as nat) + lit("}")
    }

    pub open spec fn spec_statement(&self) -> Seq<u8> {
        spec_digest(issuance_domain(), self.encoding())
    }

    pub fn statement(&self) -> (r: Result<Commitment, AethelError>)
        ensures
            r matches Ok(d) ==> self.well_formed() && d@ == self.spec_statement(),
            r matches Err(e) ==> !self.well_formed() && e == AethelError::InvalidIssuance,
    {
        if is_zero_id(&self.operation_id) || is_zero_id(&self.issuance_id) || is_zero_id(
            &self.request_id,
        ) || is_zero_id(&self.series_id) || is_zero_id(&self.note_id) || is_zero_id(
            &self.owner_commitment,
        ) || is_zero_id(&self.face_value_commitment) || is_zero_id(
            &self.before_stream_state_root,
        ) || is_zero_id(&self.after_pledged_commitment) || is_zero_id(&self.allocation_nullifier)
            || is_zero_id(&self.relation_proof_digest) || is_zero_id(&self.zkpi_digest)
            || is_some_zero(&self.credit_decision_id) || is_some_zero(&self.guarantee_id)
            || is_some_zero(&self.funding_quote_id) || self.before_stream_state_version == 0
            || !valid_time(self.issued_at) {
            return Err(AethelError::InvalidIssuance);
        }
        let mut out: Vec<u8> = Vec::new();
        push_lit(&mut out, "{\"operationId\":");
        assert(out@ =~= lit("{\"operationId\":"));
        push_id(&mut out, &self.operation_id);
        push_lit(&mut out, ",\"issuanceId\":");
        push_id(&mut out, &self.issuance_id);
        push_lit(&mut out, ",\"requestId\":");
        push_id(&mut out, &self.request_id);
        push_lit(&mut out, ",\"seriesId\":");
        push_id(&mut out, &self.series_id);
        push_lit(&mut out, ",\"noteId\":");
        push_id(&mut out, &self.note_id);
        push_lit(&mut out, ",\"ownerCommitment\":");
        push_id(&mut out, &self.owner_commitment);
        push_lit(&mut out, ",\"faceValueCommitment\":");
        push_id(&mut out, &self.face_value_commitment);
        push_lit(&mut out, ",\"beforeStreamStateVersion\":");
        push_u64(&mut out, self.before_stream_state_version);
        push_lit(&mut out, ",\"beforeStreamStateRoot\":");
        push_id(&mut out, &self.before_stream_state_root);
        push_lit(&mut out, ",\"afterPledgedCommitment\":");
        push_id(&mut out, &self.after_pledged_commitment);
        push_lit(&mut out, ",\"allocationNullifier\":");
        push_id(&mut out, &self.allocation_nullifier);
        push_lit(&mut out, ",\"creditDecisionId\":");
        push_opt_id(&mut out, &self.credit_decision_id);
        push_lit(&mut out, ",\"guaranteeId\":");
        push_opt_id(&mut out, &self.guarantee_id);
        push_lit(&mut out, ",\"fundingQuoteId\":");
        push_opt_id(&mut out, &self.funding_quote_id);
        push_lit(&mut out, ",\"relationProofDigest\":");
        push_id(&mut out, &self.relation_proof_digest);
        push_lit(&mut out, ",\"zkpiDigest\":");
        push_id(&mut out, &self.zkpi_digest);
        push_lit(&mut out, ",\"issuedAt\":");
        push_u64(&mut out, self.issued_at);
        push_lit(&mut out, "}");
        Ok(digest("AETHEL:RECEIVABLE-ISSUANCE:v1".as_bytes(), out.as_slice()))
    }
}

/// Records completion of the DeFMI-backed guarantee claim.
#[derive(Clone, Debug, PartialEq, Eq)]
pub struct GuaranteeClaim {
    pub operation_id: Identifier,
    pub claim_id: Identifier,
    pub guarantee_id: Identifier,
    pub issuance_id: Identifier,
    pub default_attestation_id: Identifier,
    pub claim_amount_commitment: Commitment,
    pub recovery_recipient_commitment: Commitment,
    pub defmi_settlement_digest: Commitment,
    pub relation_proof_digest: Commitment,
    pub zkpi_digest: Commitment,
    pub claimed_at: u64,
}

impl GuaranteeClaim {
    pub open spec fn well_formed(&self) -> bool {
        &&& !is_zero(self.operation_id)
        &&& !is_zero(self.claim_id)
        &&& !is_zero(self.guarantee_id)
        &&& !is_zero(self.issuance_id)
        &&& !is_zero(self.default_attestation_id)
        &&& !is_zero(self.claim_amount_commitment)
        &&& !is_zero(self.recovery_recipient_commitment)
        &&& !is_zero(self.defmi_settlement_digest)
        &&& !is_zero(self.relation_proof_digest)
        &&& !is_zero(self.zkpi_digest)
        &&& spec_valid_time(self.claimed_at)
    }

    pub open spec fn encoding(&self) -> Seq<u8> {
        lit("{\"operationId\":") + json_id(self.operation_id) + lit(",\"claimId\":") + json_id(
            self.claim_id,
        ) + lit(",\"guaranteeId\":") + json_id(self.guarantee_id) + lit(",\"issuanceId\":")
            + json_id(self.issuance_id) + lit(",\"defaultAttestationId\":") + json_id(
            self.default_attestation_id,
        ) + lit(",\"claimAmountCommitment\":") + json_id(self.claim_amount_commitment) + lit(
            ",\"recoveryRecipientCommitment\":",
        ) + json_id(self.recovery_recipient_commitment) + lit(",\"defmiSettlementDigest\":")
            + json_id(self.defmi_settlement_digest) + lit(",\"relationProofDigest\":") + json_id(
            self.relation_proof_digest,
        ) + lit(",\"zkpiDigest\":") + json_id(self.zkpi_digest) + lit(",\"claimedAt\":") + dec(
            self.claimed_at as nat,
        ) + lit("}")
    }

    pub fn statement(&self) -> (r: Result<Commitment, AethelError>)
        ensures
            r matches Ok(d) ==> self.well_formed() && d@ == spec_digest(
                guarantee_claim_domain(),
                self.encoding(),
            ),
            r matches Err(e) ==> !self.well_formed() && e == AethelError::InvalidGuaranteeClaim,
    {
        if is_zero_id(&self.operation_id) || is_zero_id(&self.claim_id) || is_zero_id(
            &self.guarantee_id,
        ) || is_zero_id(&self.issuance_id) || is_zero_id(&self.default_attestation_id)
            || is_zero_id(&self.claim_amount_commitment) || is_zero_id(
            &self.recovery_recipient_commitment,
        ) || is_zero_id(&self.defmi_settlement_digest) || is_zero_id(&self.relation_proof_digest)
            || is_zero_id(&self.zkpi_digest) || !valid_time(self.claimed_at) {
            return Err(AethelError::InvalidGuaranteeClaim);
        }
        let mut out: Vec<u8> = Vec::new();
        push_lit(&mut out, "{\"operationId\":");
        assert(out@ =~= lit("{\"operationId\":"));
        push_id(&mut out, &self.operation_id);
        push_lit(&mut out, ",\"claimId\":");
        push_id(&mut out, &self.claim_id);
        push_lit(&mut out, ",\"guaranteeId\":");
        push_id(&mut out, &self.guarantee_id);
        push_lit(&mut out, ",\"issuanceId\":");
        push_id(&mut out, &self.issuance_id);
        push_lit(&mut out, ",\"defaultAttestationId\":");
        push_id(&mut out, &self.default_attestation_id);
        push_lit(&mut out, ",\"claimAmountCommitment\":");
        push_id(&mut out, &self.claim_amount_commitment);
        push_lit(&mut out, ",\"recoveryRecipientCommitment\":");
        push_id(&mut out, &self.recovery_recipient_commitment);
        push_lit(&mut out, ",\"defmiSettlementDigest\":");
        push_id(&mut out, &self.defmi_settlement_digest);
        push_lit(&mut out, ",\"relationProofDigest\":");
        push_id(&mut out, &self.relation_proof_digest);
        push_lit(&mut out, ",\"zkpiDigest\":");
        push_id(&mut out, &self.zkpi_digest);
        push_lit(&mut out, ",\"claimedAt\":");
        push_u64(&mut out, self.claimed_at);
        push_lit(&mut out, "}");
        Ok(digest("AETHEL:GUARANTEE-CLAIM:v1".as_bytes(), out.as_slice()))
    }
}

} // verus!
