//! The signed payment stream a receivable rests on: its canonical state,
//! the transitions an attestor may sign, and the successor a receivable
//! issuance produces.

use vstd::prelude::*;

use crate::canon::{dec, json_id, lit, push_id, push_lit, push_u64};
use crate::receivable::AethelError;
use crate::types::{
    digest, is_zero, is_zero_id, push_all, same_id, spec_digest, Commitment, Identifier,
    MAX_UNIX_TIME,
};

verus! {

pub open spec fn stream_state_domain() -> Seq<u8> {
    lit("AETHEL:STREAM-STATE:v1")
}

pub open spec fn stream_registration_domain() -> Seq<u8> {
    lit("AETHEL:STREAM-REGISTRATION:v1")
}

pub open spec fn stream_transition_domain() -> Seq<u8> {
    lit("AETHEL:STREAM-TRANSITION:v1")
}

#[derive(Clone, Copy, Debug, PartialEq, Eq, Structural)]
pub enum StreamStatus {
    Active,
    Paused,
    Cancelled,
    Defaulted,
    Closed,
}

impl StreamStatus {
    pub open spec fn json(self) -> Seq<u8> {
        match self {
            StreamStatus::Active => lit("\"active\""),
            StreamStatus::Paused => lit("\"paused\""),
            StreamStatus::Cancelled => lit("\"cancelled\""),
            StreamStatus::Defaulted => lit("\"defaulted\""),
            StreamStatus::Closed => lit("\"closed\""),
        }
    }

    pub fn push_json(&self, out: &mut Vec<u8>)
        ensures
            final(out)@ == old(out)@ + self.json(),
    {
        match self {
            StreamStatus::Active => push_lit(out, "\"active\""),
            StreamStatus::Paused => push_lit(out, "\"paused\""),
            StreamStatus::Cancelled => push_lit(out, "\"cancelled\""),
            StreamStatus::Defaulted => push_lit(out, "\"defaulted\""),
            StreamStatus::Closed => push_lit(out, "\"closed\""),
        }
    }
}

/// Which status a stream may move to: an active or paused stream to any
/// status, a cancelled or defaulted one only to itself or closed, and a
/// closed one only to closed.
pub open spec fn spec_valid_status_transition(before: StreamStatus, after: StreamStatus) -> bool {
    match before {
        StreamStatus::Active | StreamStatus::Paused => true,
        StreamStatus::Cancelled => after == StreamStatus::Cancelled || after
            == StreamStatus::Closed,
        StreamStatus::Defaulted => after == StreamStatus::Defaulted || after
            == StreamStatus::Closed,
        StreamStatus::Closed => after == StreamStatus::Closed,
    }
}

/// Whether a stream may move from `before` to `after`.
pub fn valid_status_transition(before: StreamStatus, after: StreamStatus) -> (r: bool)
    ensures
        r == spec_valid_status_transition(before, after),
{
    match before {
        StreamStatus::Active | StreamStatus::Paused => true,
        StreamStatus::Cancelled => matches!(after, StreamStatus::Cancelled | StreamStatus::Closed),
        StreamStatus::Defaulted => matches!(after, StreamStatus::Defaulted | StreamStatus::Closed),
        StreamStatus::Closed => matches!(after, StreamStatus::Closed),
    }
}

/// Canonical, lazy-accrual state of a payment stream. Amounts are
/// commitments; the attestor's signature authenticates their source.
#[derive(Clone, Copy, Debug, PartialEq, Eq)]
pub struct StreamState {
    pub stream_id: Identifier,
    pub payer_commitment: Commitment,
    pub payee_commitment: Commitment,
    pub settlement_asset_id: Identifier,
    pub source_domain_digest: Commitment,
    pub terms_digest: Commitment,
    pub event_root: Commitment,
    pub accrued_commitment: Commitment,
    pub paid_commitment: Commitment,
    pub eligible_commitment: Commitment,
    pub pledged_commitment: Commitment,
    pub as_of: u64,
    pub version: u64,
    pub status: StreamStatus,
}

impl StreamState {
    pub open spec fn spec_valid(self) -> bool {
        &&& !is_zero(self.stream_id)
        &&& !is_zero(self.payer_commitment)
        &&& !is_zero(self.payee_commitment)
        &&& !is_zero(self.settlement_asset_id)
        &&& !is_zero(self.source_domain_digest)
        &&& !is_zero(self.terms_digest)
        &&& !is_zero(self.event_root)
        &&& self.payer_commitment != self.payee_commitment
        &&& self.as_of != 0
        &&& self.as_of <= MAX_UNIX_TIME
        &&& self.version != 0
    }

    pub fn validate(&self) -> (r: Result<(), AethelError>)
        ensures
            r is Ok <==> self.spec_valid(),
            r matches Err(e) ==> e == AethelError::InvalidStream,
    {
        if is_zero_id(&self.stream_id) || is_zero_id(&self.payer_commitment) || is_zero_id(
            &self.payee_commitment,
        ) || is_zero_id(&self.settlement_asset_id) || is_zero_id(&self.source_domain_digest)
            || is_zero_id(&self.terms_digest) || is_zero_id(&self.event_root) || same_id(
            &self.payer_commitment,
            &self.payee_commitment,
        ) || self.as_of == 0 || self.as_of > MAX_UNIX_TIME || self.version == 0 {
            return Err(AethelError::InvalidStream);
        }
        Ok(())
    }

    pub open spec fn json(self) -> Seq<u8> {
        lit("{\"streamId\":") + json_id(self.stream_id) + lit(",\"payerCommitment\":") + json_id(
            self.payer_commitment,
        ) + lit(",\"payeeCommitment\":") + json_id(self.payee_commitment) + lit(
            ",\"settlementAssetId\":",
        ) + json_id(self.settlement_asset_id) + lit(",\"sourceDomainDigest\":") + json_id(
            self.source_domain_digest,
        ) + lit(",\"termsDigest\":") + json_id(self.terms_digest) + lit(",\"eventRoot\":")
            + json_id(self.event_root) + lit(",\"accruedCommitment\":") + json_id(
            self.accrued_commitment,
        ) + lit(",\"paidCommitment\":") + json_id(self.paid_commitment) + lit(
            ",\"eligibleCommitment\":",
        ) + json_id(self.eligible_commitment) + lit(",\"pledgedCommitment\":") + json_id(
            self.pledged_commitment,
        ) + lit(",\"asOf\":") + dec(self.as_of as nat) + lit(",\"version\":") + dec(
            self.version as nat,
        ) + lit(",\"status\":") + self.status.json() + lit("}")
    }

    pub fn json_bytes(&self) -> (r: Vec<u8>)
        ensures
            r@ == self.json(),
    {
        let mut out: Vec<u8> = Vec::new();
        push_lit(&mut out, "{\"streamId\":");
        assert(out@ =~= lit("{\"streamId\":"));
        push_id(&mut out, &self.stream_id);
        push_lit(&mut out, ",\"payerCommitment\":");
        push_id(&mut out, &self.payer_commitment);
        push_lit(&mut out, ",\"payeeCommitment\":");
        push_id(&mut out, &self.payee_commitment);
        push_lit(&mut out, ",\"settlementAssetId\":");
        push_id(&mut out, &self.settlement_asset_id);
        push_lit(&mut out, ",\"sourceDomainDigest\":");
        push_id(&mut out, &self.source_domain_digest);
        push_lit(&mut out, ",\"termsDigest\":");
        push_id(&mut out, &self.terms_digest);
        push_lit(&mut out, ",\"eventRoot\":");
        push_id(&mut out, &self.event_root);
        push_lit(&mut out, ",\"accruedCommitment\":");
        push_id(&mut out, &self.accrued_commitment);
        push_lit(&mut out, ",\"paidCommitment\":");
        push_id(&mut out, &self.paid_commitment);
        push_lit(&mut out, ",\"eligibleCommitment\":");
        push_id(&mut out, &self.eligible_commitment);
        push_lit(&mut out, ",\"pledgedCommitment\":");
        push_id(&mut out, &self.pledged_commitment);
        push_lit(&mut out, ",\"asOf\":");
        push_u64(&mut out, self.as_of);
        push_lit(&mut out, ",\"version\":");
        push_u64(&mut out, self.version);
        push_lit(&mut out, ",\"status\":");
        self.status.push_json(&mut out);
        push_lit(&mut out, "}");
        out
    }

    /// The digest of a valid state.
    pub fn root(&self) -> (r: Result<Commitment, AethelError>)
        ensures
            match r {
                Ok(d) => self.spec_valid() && d@ == spec_digest(stream_state_domain(), self.json()),
                Err(e) => !self.spec_valid() && e == AethelError::InvalidStream,
            },
    {
        match self.validate() {
            Ok(()) => {},
            Err(e) => return Err(e),
        }
        let out = self.json_bytes();
        Ok(digest("AETHEL:STREAM-STATE:v1".as_bytes(), out.as_slice()))
    }

    /// `next` continues this stream from the same source: the same parties,
    /// asset, source, terms, and pledge, the next version, a later time, and
    /// an allowed status change.
    pub open spec fn spec_valid_source_successor(self, next: StreamState) -> bool {
        &&& next.stream_id == self.stream_id
        &&& next.payer_commitment == self.payer_commitment
        &&& next.payee_commitment == self.payee_commitment
        &&& next.settlement_asset_id == self.settlement_asset_id
        &&& next.source_domain_digest == self.source_domain_digest
        &&& next.terms_digest == self.terms_digest
        &&& next.pledged_commitment == self.pledged_commitment
        &&& next.version == self.version + 1
        &&& next.as_of > self.as_of
        &&& spec_valid_status_transition(self.status, next.status)
    }

    /// Whether `next` continues this stream from the same source.
    pub fn valid_source_successor(&self, next: &StreamState) -> (r: bool)
        ensures
            r == self.spec_valid_source_successor(*next),
    {
        same_id(&next.stream_id, &self.stream_id) && same_id(
            &next.payer_commitment,
            &self.payer_commitment,
        ) && same_id(&next.payee_commitment, &self.payee_commitment) && same_id(
            &next.settlement_asset_id,
            &self.settlement_asset_id,
        ) && same_id(&next.source_domain_digest, &self.source_domain_digest) && same_id(
            &next.terms_digest,
            &self.terms_digest,
        ) && same_id(&next.pledged_commitment, &self.pledged_commitment) && self.version
            < u64::MAX && next.version == self.version + 1 && next.as_of > self.as_of
            && valid_status_transition(self.status, next.status)
    }

    /// The state after a receivable issuance pledges part of the stream:
    /// the next version with the new pledge. A cancelled, defaulted, or
    /// closed stream admits no issuance.
    pub fn valid_issuance_successor(&self, after_pledged_commitment: Commitment) -> (r: Result<
        StreamState,
        AethelError,
    >)
        ensures
            match self.status {
                StreamStatus::Cancelled | StreamStatus::Defaulted | StreamStatus::Closed => r
                    == Err::<StreamState, AethelError>(AethelError::StreamUnavailable),
                _ => if self.version == u64::MAX {
                    r == Err::<StreamState, AethelError>(AethelError::ArithmeticOverflow)
                } else {
                    r == Ok::<StreamState, AethelError>(
                        StreamState {
                            version: (self.version + 1) as u64,
                            pledged_commitment: after_pledged_commitment,
                            ..*self
                        },
                    )
                },
            },
    {
        if matches!(
            self.status,
            StreamStatus::Cancelled | StreamStatus::Defaulted | StreamStatus::Closed
        ) {
            return Err(AethelError::StreamUnavailable);
        }
        let version = match self.version.checked_add(1) {
            Some(v) => v,
            None => return Err(AethelError::ArithmeticOverflow),
        };
        Ok(StreamState { version, pledged_commitment: after_pledged_commitment, ..*self })
    }
}

/// An attestor's registration of a new stream.
#[derive(Clone, Debug, PartialEq, Eq)]
pub struct RegisterStream {
    pub operation_id: Identifier,
    pub attestor_provider_id: Identifier,
    pub state: StreamState,
    pub source_evidence_digest: Commitment,
    pub relation_proof_digest: Commitment,
    pub signature: Vec<u8>,
}

impl RegisterStream {
    /// Every identifier set and a valid, active first version.
    pub open spec fn well_formed(&self) -> bool {
        &&& !is_zero(self.operation_id)
        &&& !is_zero(self.attestor_provider_id)
        &&& !is_zero(self.source_evidence_digest)
        &&& !is_zero(self.relation_proof_digest)
        &&& self.state.version == 1
        &&& self.state.status == StreamStatus::Active
        &&& self.state.spec_valid()
    }

    pub open spec fn unsigned_encoding(&self) -> Seq<u8> {
        lit("{\"operationId\":") + json_id(self.operation_id) + lit(",\"attestorProviderId\":")
            + json_id(self.attestor_provider_id) + lit(",\"state\":") + self.state.json() + lit(
            ",\"sourceEvidenceDigest\":",
        ) + json_id(self.source_evidence_digest) + lit(",\"relationProofDigest\":") + json_id(
            self.relation_proof_digest,
        ) + lit(",\"signature\":[]}")
    }

    pub open spec fn spec_statement(&self) -> Seq<u8> {
        spec_digest(stream_registration_domain(), self.unsigned_encoding())
    }

    /// Digest of the unsigned registration; fails when it is malformed.
    pub fn statement(&self) -> (r: Result<Commitment, AethelError>)
        ensures
            r matches Ok(d) ==> self.well_formed() && d@ == self.spec_statement(),
            r matches Err(e) ==> !self.well_formed() && e == AethelError::InvalidStream,
    {
        if is_zero_id(&self.operation_id) || is_zero_id(&self.attestor_provider_id) || is_zero_id(
            &self.source_evidence_digest,
        ) || is_zero_id(&self.relation_proof_digest) || self.state.version != 1 || !matches!(
            self.state.status,
            StreamStatus::Active,
        ) {
            return Err(AethelError::InvalidStream);
        }
        match self.state.validate() {
            Ok(()) => {},
            Err(e) => return Err(e),
        }
        let mut out: Vec<u8> = Vec::new();
        push_lit(&mut out, "{\"operationId\":");
        assert(out@ =~= lit("{\"operationId\":"));
        push_id(&mut out, &self.operation_id);
        push_lit(&mut out, ",\"attestorProviderId\":");
        push_id(&mut out, &self.attestor_provider_id);
        push_lit(&mut out, ",\"state\":");
        let state = self.state.json_bytes();
        push_all(&mut out, state.as_slice());
        push_lit(&mut out, ",\"sourceEvidenceDigest\":");
        push_id(&mut out, &self.source_evidence_digest);
        push_lit(&mut out, ",\"relationProofDigest\":");
        push_id(&mut out, &self.relation_proof_digest);
        push_lit(&mut out, ",\"signature\":[]}");
        Ok(digest("AETHEL:STREAM-REGISTRATION:v1".as_bytes(), out.as_slice()))
    }
}

/// An attestor's signed move of a stream to its next state.
#[derive(Clone, Debug, PartialEq, Eq)]
pub struct StreamTransition {
    pub operation_id: Identifier,
    pub attestor_provider_id: Identifier,
    pub before_state_root: Commitment,
    pub after_state: StreamState,
    pub source_evidence_digest: Commitment,
    pub relation_proof_digest: Commitment,
    pub signature: Vec<u8>,
}

impl StreamTransition {
    /// Every identifier set and a valid next state.
    pub open spec fn well_formed(&self) -> bool {
        &&& !is_zero(self.operation_id)
        &&& !is_zero(self.attestor_provider_id)
        &&& !is_zero(self.before_state_root)
        &&& !is_zero(self.source_evidence_digest)
        &&& !is_zero(self.relation_proof_digest)
        &&& self.after_state.spec_valid()
    }

    pub open spec fn unsigned_encoding(&self) -> Seq<u8> {
        lit("{\"operationId\":") + json_id(self.operation_id) + lit(",\"attestorProviderId\":")
            + json_id(self.attestor_provider_id) + lit(",\"beforeStateRoot\":") + json_id(
            self.before_state_root,
        ) + lit(",\"afterState\":") + self.after_state.json() + lit(",\"sourceEvidenceDigest\":")
            + json_id(self.source_evidence_digest) + lit(",\"relationProofDigest\":") + json_id(
            self.relation_proof_digest,
        ) + lit(",\"signature\":[]}")
    }

    pub open spec fn spec_statement(&self) -> Seq<u8> {
        spec_digest(stream_transition_domain(), self.unsigned_encoding())
    }

    /// Why a malformed transition is refused: a missing identifier is an
    /// invalid transition; an invalid next state is an invalid stream.
    pub open spec fn malformed_error(&self) -> AethelError {
        if is_zero(self.operation_id) || is_zero(self.attestor_provider_id) || is_zero(
            self.before_state_root,
        ) || is_zero(self.source_evidence_digest) || is_zero(self.relation_proof_digest) {
            AethelError::InvalidStreamTransition
        } else {
            AethelError::InvalidStream
        }
    }

    /// Digest of the unsigned transition. A missing identifier is an invalid
    /// transition; an invalid next state is an invalid stream.
    pub fn statement(&self) -> (r: Result<Commitment, AethelError>)
        ensures
            r matches Ok(d) ==> self.well_formed() && d@ == self.spec_statement(),
            r matches Err(e) ==> !self.well_formed() && e == self.malformed_error(),
    {
        if is_zero_id(&self.operation_id) || is_zero_id(&self.attestor_provider_id) || is_zero_id(
            &self.before_state_root,
        ) || is_zero_id(&self.source_evidence_digest) || is_zero_id(&self.relation_proof_digest) {
            return Err(AethelError::InvalidStreamTransition);
        }
        match self.after_state.validate() {
            Ok(()) => {},
            Err(e) => return Err(e),
        }
        let mut out: Vec<u8> = Vec::new();
        push_lit(&mut out, "{\"operationId\":");
        assert(out@ =~= lit("{\"operationId\":"));
        push_id(&mut out, &self.operation_id);
        push_lit(&mut out, ",\"attestorProviderId\":");
        push_id(&mut out, &self.attestor_provider_id);
        push_lit(&mut out, ",\"beforeStateRoot\":");
        push_id(&mut out, &self.before_state_root);
        push_lit(&mut out, ",\"afterState\":");
        let state = self.after_state.json_bytes();
        push_all(&mut out, state.as_slice());
        push_lit(&mut out, ",\"sourceEvidenceDigest\":");
        push_id(&mut out, &self.source_evidence_digest);
        push_lit(&mut out, ",\"relationProofDigest\":");
        push_id(&mut out, &self.relation_proof_digest);
        push_lit(&mut out, ",\"signature\":[]}");
        Ok(digest("AETHEL:STREAM-TRANSITION:v1".as_bytes(), out.as_slice()))
    }
}

/// A registered stream: its attestor and its current state.
#[derive(Clone, Copy, Debug, PartialEq, Eq)]
pub struct RegisteredStream {
    pub attestor_provider_id: Identifier,
    pub state: StreamState,
}

/// An issuance successor of a valid state is valid: it keeps everything but
/// the version, which moves to the next, and the pledge.
pub proof fn law_issuance_successor_keeps_the_source(s: StreamState, pledged: Commitment)
    requires
        s.spec_valid(),
        s.version < u64::MAX,
    ensures
        ({
            let next = StreamState { version: (s.version + 1) as u64, pledged_commitment: pledged, ..s };
            &&& next.spec_valid()
            &&& next.version == s.version + 1
            &&& next.status == s.status
            &&& next.as_of == s.as_of
        }),
{
}

/// Closed is terminal, and a cancelled or defaulted stream can only stay or
/// close.
pub proof fn law_terminal_statuses(after: StreamStatus)
    ensures
        spec_valid_status_transition(StreamStatus::Closed, after) ==> after == StreamStatus::Closed,
        spec_valid_status_transition(StreamStatus::Cancelled, after) ==> after
            == StreamStatus::Cancelled || after == StreamStatus::Closed,
        spec_valid_status_transition(StreamStatus::Defaulted, after) ==> after
            == StreamStatus::Defaulted || after == StreamStatus::Closed,
{
}

} // verus!
