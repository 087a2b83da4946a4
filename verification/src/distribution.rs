//! The circulation boundary of a receivable token.
//!
//! Distribution decides whether a unit of a receivable token may move and
//! packages the result for settlement. It does not price, match, or hold an
//! order book: a [`CirculationRequest`] is admitted against the token series'
//! transfer restriction and handed to a venue as a [`VenueHandoff`]; the
//! venue returns a [`VenueFill`]; distribution checks the fill against the
//! request and emits a [`SettlementContext`] whose statement digest a host
//! binds into its settlement. The outcome is recorded from the host's
//! receipt.

use vstd::prelude::*;
use vstd::string::StringSliceAdditionalSpecFns;

use crate::canon::{dec, json_id, lit, opt_id_field, push_id, push_lit, push_opt_id_field, push_u64};
use crate::seqs::{
    first_match, lemma_first_match, lemma_first_match_step, lemma_full_prefix, sum_of,
};
use crate::order::{
    json_key_set, json_object, lemma_map_full, lemma_map_prefix_push, lemma_views_push, views,
    write_key_set, write_object,
};
use crate::tokenization::{
    distinct_ids, ids_distinct, TokenSeries, TokenSeriesStatus, TransferRestriction,
};
use crate::types::{
    digest, id_of, is_zero, is_zero_id, lemma_id_of, push_all, same_id, same_opt_id, some_zero,
    is_some_zero, spec_digest, spec_valid_time, valid_time, Commitment, Identifier,
};

verus! {

broadcast use vstd::array::group_array_axioms;

/// Why the distribution book refused an operation.
#[derive(Clone, Copy, Debug, PartialEq, Eq, Structural)]
pub enum DistributionError {
    Encoding,
    InvalidState,
    InvalidRequest,
    UnknownRequest,
    SeriesMismatch,
    SeriesUnavailable,
    NotTransferable,
    EligibilityRequired,
    InvalidFill,
    FillMismatch,
    OverFilled,
    InvalidContext,
    UnknownContext,
    InvalidOutcome,
    OutsideValidityWindow,
    Replay,
    ArithmeticOverflow,
}

pub open spec fn circulation_request_domain() -> Seq<u8> {
    lit("AETHEL:CIRCULATION-REQUEST:v1")
}

pub open spec fn venue_fill_domain() -> Seq<u8> {
    lit("AETHEL:VENUE-FILL:v1")
}

pub open spec fn settlement_context_domain() -> Seq<u8> {
    lit("AETHEL:SETTLEMENT-CONTEXT:v1")
}

pub open spec fn settlement_nullifier_domain() -> Seq<u8> {
    lit("AETHEL:SETTLEMENT-NULLIFIER:v1")
}

pub open spec fn transfer_restriction_domain() -> Seq<u8> {
    lit("AETHEL:TRANSFER-RESTRICTION:v1")
}

/// Where a request is circulated. The venue owns discovery and matching;
/// distribution owns eligibility and the settlement binding.
#[derive(Clone, Copy, Debug, PartialEq, Eq)]
pub enum Venue {
    /// A named counterparty; no discovery.
    Bilateral,
    /// Query-oblivious market making.
    Qomm,
    /// The oblivious central limit order book.
    Oclob,
    External { venue_id: Identifier },
}

impl Venue {
    pub open spec fn json(self) -> Seq<u8> {
        match self {
            Venue::Bilateral => lit("{\"kind\":\"bilateral\"}"),
            Venue::Qomm => lit("{\"kind\":\"qomm\"}"),
            Venue::Oclob => lit("{\"kind\":\"oclob\"}"),
            Venue::External { venue_id } => lit("{\"kind\":\"external\",\"venue_id\":") + json_id(
                venue_id,
            ) + lit("}"),
        }
    }

    pub fn push_json(&self, out: &mut Vec<u8>)
        ensures
            final(out)@ == old(out)@ + self.json(),
    {
        let mut part: Vec<u8> = Vec::new();
        match self {
            Venue::Bilateral => push_lit(&mut part, "{\"kind\":\"bilateral\"}"),
            Venue::Qomm => push_lit(&mut part, "{\"kind\":\"qomm\"}"),
            Venue::Oclob => push_lit(&mut part, "{\"kind\":\"oclob\"}"),
            Venue::External { venue_id } => {
                push_lit(&mut part, "{\"kind\":\"external\",\"venue_id\":");
                push_id(&mut part, venue_id);
                push_lit(&mut part, "}");
            },
        }
        assert(part@ =~= self.json());
        push_all(out, part.as_slice());
    }
}

/// Whether two venues are the same.
pub fn same_venue(a: &Venue, b: &Venue) -> (r: bool)
    ensures
        r == (*a == *b),
{
    match (a, b) {
        (Venue::Bilateral, Venue::Bilateral) => true,
        (Venue::Qomm, Venue::Qomm) => true,
        (Venue::Oclob, Venue::Oclob) => true,
        (Venue::External { venue_id: x }, Venue::External { venue_id: y }) => same_id(x, y),
        _ => false,
    }
}

#[derive(Clone, Copy, Debug, PartialEq, Eq, Structural)]
pub enum Side {
    Sell,
    Buy,
}

impl Side {
    pub open spec fn json(self) -> Seq<u8> {
        match self {
            Side::Sell => lit("\"sell\""),
            Side::Buy => lit("\"buy\""),
        }
    }

    pub fn push_json(&self, out: &mut Vec<u8>)
        ensures
            final(out)@ == old(out)@ + self.json(),
    {
        match self {
            Side::Sell => push_lit(out, "\"sell\""),
            Side::Buy => push_lit(out, "\"buy\""),
        }
    }
}

/// A holder's or buyer's request to circulate units of one issuance.
#[derive(Clone, Copy, Debug, PartialEq, Eq)]
pub struct CirculationRequest {
    pub request_id: Identifier,
    pub operation_id: Identifier,
    pub token_series_id: Identifier,
    pub series_id: Identifier,
    pub issuance_id: Identifier,
    pub receivable_asset_id: Identifier,
    pub cash_asset_id: Identifier,
    pub units: u64,
    pub side: Side,
    pub initiator_commitment: Commitment,
    /// Required for a bilateral request; absent otherwise, the venue names it.
    pub counterparty_commitment: Option<Commitment>,
    pub limit_price_commitment: Option<Commitment>,
    pub venue: Venue,
    /// Digest of the eligibility evidence for a qualified-holder series. The
    /// host verifies the evidence; this only binds which evidence the
    /// admission relied on.
    pub eligibility_attestation_digest: Option<Commitment>,
    pub valid_until: u64,
}

impl CirculationRequest {
    pub open spec fn well_formed(self) -> bool {
        &&& !is_zero(self.request_id)
        &&& !is_zero(self.operation_id)
        &&& !is_zero(self.token_series_id)
        &&& !is_zero(self.series_id)
        &&& !is_zero(self.issuance_id)
        &&& !is_zero(self.receivable_asset_id)
        &&& !is_zero(self.cash_asset_id)
        &&& !is_zero(self.initiator_commitment)
        &&& !some_zero(self.counterparty_commitment)
        &&& self.counterparty_commitment != Some(self.initiator_commitment)
        &&& !some_zero(self.limit_price_commitment)
        &&& !some_zero(self.eligibility_attestation_digest)
        &&& !(self.venue matches Venue::External { venue_id } && is_zero(venue_id))
        &&& self.units != 0
        &&& spec_valid_time(self.valid_until)
    }

    pub open spec fn encoding(self) -> Seq<u8> {
        lit("{\"requestId\":") + json_id(self.request_id) + lit(",\"operationId\":") + json_id(
            self.operation_id,
        ) + lit(",\"tokenSeriesId\":") + json_id(self.token_series_id) + lit(",\"seriesId\":")
            + json_id(self.series_id) + lit(",\"issuanceId\":") + json_id(self.issuance_id) + lit(
            ",\"receivableAssetId\":",
        ) + json_id(self.receivable_asset_id) + lit(",\"cashAssetId\":") + json_id(
            self.cash_asset_id,
        ) + lit(",\"units\":") + dec(self.units as nat) + lit(",\"side\":") + self.side.json()
            + lit(",\"initiatorCommitment\":") + json_id(self.initiator_commitment)
            + opt_id_field(",\"counterpartyCommitment\":", self.counterparty_commitment)
            + opt_id_field(",\"limitPriceCommitment\":", self.limit_price_commitment) + lit(
            ",\"venue\":",
        ) + self.venue.json() + opt_id_field(
            ",\"eligibilityAttestationDigest\":",
            self.eligibility_attestation_digest,
        ) + lit(",\"validUntil\":") + dec(self.valid_until as nat) + lit("}")
    }

    pub open spec fn spec_statement(self) -> Seq<u8> {
        spec_digest(circulation_request_domain(), self.encoding())
    }

    pub fn check(&self) -> (r: bool)
        ensures
            r == self.well_formed(),
    {
        let external_zero = match self.venue {
            Venue::External { venue_id } => is_zero_id(&venue_id),
            _ => false,
        };
        let self_counterparty = match self.counterparty_commitment {
            Some(c) => same_id(&c, &self.initiator_commitment),
            None => false,
        };
        !(is_zero_id(&self.request_id) || is_zero_id(&self.operation_id) || is_zero_id(
            &self.token_series_id,
        ) || is_zero_id(&self.series_id) || is_zero_id(&self.issuance_id) || is_zero_id(
            &self.receivable_asset_id,
        ) || is_zero_id(&self.cash_asset_id) || is_zero_id(&self.initiator_commitment)
            || is_some_zero(&self.counterparty_commitment) || self_counterparty || is_some_zero(
            &self.limit_price_commitment,
        ) || is_some_zero(&self.eligibility_attestation_digest) || external_zero || self.units
            == 0 || !valid_time(self.valid_until))
    }

    pub fn encoding_bytes(&self) -> (r: Vec<u8>)
        ensures
            r@ == self.encoding(),
    {
        let mut out: Vec<u8> = Vec::new();
        push_lit(&mut out, "{\"requestId\":");
        assert(out@ =~= lit("{\"requestId\":"));
        push_id(&mut out, &self.request_id);
        push_lit(&mut out, ",\"operationId\":");
        push_id(&mut out, &self.operation_id);
        push_lit(&mut out, ",\"tokenSeriesId\":");
        push_id(&mut out, &self.token_series_id);
        push_lit(&mut out, ",\"seriesId\":");
        push_id(&mut out, &self.series_id);
        push_lit(&mut out, ",\"issuanceId\":");
        push_id(&mut out, &self.issuance_id);
        push_lit(&mut out, ",\"receivableAssetId\":");
        push_id(&mut out, &self.receivable_asset_id);
        push_lit(&mut out, ",\"cashAssetId\":");
        push_id(&mut out, &self.cash_asset_id);
        push_lit(&mut out, ",\"units\":");
        push_u64(&mut out, self.units);
        push_lit(&mut out, ",\"side\":");
        self.side.push_json(&mut out);
        push_lit(&mut out, ",\"initiatorCommitment\":");
        push_id(&mut out, &self.initiator_commitment);
        push_opt_id_field(&mut out, ",\"counterpartyCommitment\":", &self.counterparty_commitment);
        push_opt_id_field(&mut out, ",\"limitPriceCommitment\":", &self.limit_price_commitment);
        push_lit(&mut out, ",\"venue\":");
        self.venue.push_json(&mut out);
        push_opt_id_field(
            &mut out,
            ",\"eligibilityAttestationDigest\":",
            &self.eligibility_attestation_digest,
        );
        push_lit(&mut out, ",\"validUntil\":");
        push_u64(&mut out, self.valid_until);
        push_lit(&mut out, "}");
        out
    }

    pub fn statement(&self) -> (r: Result<Commitment, DistributionError>)
        ensures
            r matches Ok(d) ==> self.well_formed() && d@ == self.spec_statement(),
            r matches Err(e) ==> !self.well_formed() && e == DistributionError::InvalidRequest,
    {
        if !self.check() {
            return Err(DistributionError::InvalidRequest);
        }
        let out = self.encoding_bytes();
        Ok(digest("AETHEL:CIRCULATION-REQUEST:v1".as_bytes(), out.as_slice()))
    }
}

/// What distribution gives the venue: the request digest and nothing about
/// the token beyond what the request already states.
#[derive(Clone, Copy, Debug, PartialEq, Eq)]
pub struct VenueHandoff {
    pub request_id: Identifier,
    pub venue: Venue,
    pub request_digest: Commitment,
    pub handed_at: u64,
}

/// What the venue returns: a (possibly partial) fill of one request.
#[derive(Clone, Copy, Debug, PartialEq, Eq)]
pub struct VenueFill {
    pub fill_id: Identifier,
    pub request_id: Identifier,
    pub venue: Venue,
    pub units: u64,
    pub counterparty_commitment: Commitment,
    pub price_commitment: Commitment,
    /// The venue's own evidence for the fill. Opaque here.
    pub venue_evidence_digest: Commitment,
    pub filled_at: u64,
}

impl VenueFill {
    pub open spec fn well_formed(self) -> bool {
        &&& !is_zero(self.fill_id)
        &&& !is_zero(self.request_id)
        &&& !is_zero(self.counterparty_commitment)
        &&& !is_zero(self.price_commitment)
        &&& !is_zero(self.venue_evidence_digest)
        &&& self.units != 0
        &&& spec_valid_time(self.filled_at)
    }

    pub open spec fn encoding(self) -> Seq<u8> {
        lit("{\"fillId\":") + json_id(self.fill_id) + lit(",\"requestId\":") + json_id(
            self.request_id,
        ) + lit(",\"venue\":") + self.venue.json() + lit(",\"units\":") + dec(self.units as nat)
            + lit(",\"counterpartyCommitment\":") + json_id(self.counterparty_commitment) + lit(
            ",\"priceCommitment\":",
        ) + json_id(self.price_commitment) + lit(",\"venueEvidenceDigest\":") + json_id(
            self.venue_evidence_digest,
        ) + lit(",\"filledAt\":") + dec(self.filled_at as nat) + lit("}")
    }

    pub open spec fn spec_statement(self) -> Seq<u8> {
        spec_digest(venue_fill_domain(), self.encoding())
    }

    pub fn check(&self) -> (r: bool)
        ensures
            r == self.well_formed(),
    {
        !(is_zero_id(&self.fill_id) || is_zero_id(&self.request_id) || is_zero_id(
            &self.counterparty_commitment,
        ) || is_zero_id(&self.price_commitment) || is_zero_id(&self.venue_evidence_digest)
            || self.units == 0 || !valid_time(self.filled_at))
    }

    pub fn statement(&self) -> (r: Result<Commitment, DistributionError>)
        ensures
            r matches Ok(d) ==> self.well_formed() && d@ == self.spec_statement(),
            r matches Err(e) ==> !self.well_formed() && e == DistributionError::InvalidFill,
    {
        if !self.check() {
            return Err(DistributionError::InvalidFill);
        }
        let mut out: Vec<u8> = Vec::new();
        push_lit(&mut out, "{\"fillId\":");
        assert(out@ =~= lit("{\"fillId\":"));
        push_id(&mut out, &self.fill_id);
        push_lit(&mut out, ",\"requestId\":");
        push_id(&mut out, &self.request_id);
        push_lit(&mut out, ",\"venue\":");
        self.venue.push_json(&mut out);
        push_lit(&mut out, ",\"units\":");
        push_u64(&mut out, self.units);
        push_lit(&mut out, ",\"counterpartyCommitment\":");
        push_id(&mut out, &self.counterparty_commitment);
        push_lit(&mut out, ",\"priceCommitment\":");
        push_id(&mut out, &self.price_commitment);
        push_lit(&mut out, ",\"venueEvidenceDigest\":");
        push_id(&mut out, &self.venue_evidence_digest);
        push_lit(&mut out, ",\"filledAt\":");
        push_u64(&mut out, self.filled_at);
        push_lit(&mut out, "}");
        Ok(digest("AETHEL:VENUE-FILL:v1".as_bytes(), out.as_slice()))
    }
}

/// The settlement binding: everything a host and the asset ledger need to
/// settle one fill, with no reference to how the venue arrived at it.
#[derive(Clone, Copy, Debug, PartialEq, Eq)]
pub struct SettlementContext {
    pub context_id: Identifier,
    pub request_id: Identifier,
    pub fill_id: Identifier,
    pub venue: Venue,
    pub token_series_id: Identifier,
    pub series_id: Identifier,
    pub issuance_id: Identifier,
    pub receivable_asset_id: Identifier,
    pub cash_asset_id: Identifier,
    pub units: u64,
    pub seller_commitment: Commitment,
    pub buyer_commitment: Commitment,
    pub price_commitment: Commitment,
    pub venue_evidence_digest: Commitment,
    /// Digest of the series' transfer restriction at admission, so the ledger
    /// lock the settlement applies is the one distribution evaluated.
    pub transfer_restriction_digest: Commitment,
    pub deadline: u64,
    pub nullifier: Identifier,
}

impl SettlementContext {
    pub open spec fn well_formed(self) -> bool {
        &&& !is_zero(self.context_id)
        &&& !is_zero(self.request_id)
        &&& !is_zero(self.fill_id)
        &&& !is_zero(self.token_series_id)
        &&& !is_zero(self.series_id)
        &&& !is_zero(self.issuance_id)
        &&& !is_zero(self.receivable_asset_id)
        &&& !is_zero(self.cash_asset_id)
        &&& !is_zero(self.seller_commitment)
        &&& !is_zero(self.buyer_commitment)
        &&& !is_zero(self.price_commitment)
        &&& !is_zero(self.venue_evidence_digest)
        &&& !is_zero(self.transfer_restriction_digest)
        &&& !is_zero(self.nullifier)
        &&& self.seller_commitment != self.buyer_commitment
        &&& self.units != 0
        &&& spec_valid_time(self.deadline)
    }

    pub open spec fn encoding(self) -> Seq<u8> {
        lit("{\"contextId\":") + json_id(self.context_id) + lit(",\"requestId\":") + json_id(
            self.request_id,
        ) + lit(",\"fillId\":") + json_id(self.fill_id) + lit(",\"venue\":") + self.venue.json()
            + lit(",\"tokenSeriesId\":") + json_id(self.token_series_id) + lit(",\"seriesId\":")
            + json_id(self.series_id) + lit(",\"issuanceId\":") + json_id(self.issuance_id) + lit(
            ",\"receivableAssetId\":",
        ) + json_id(self.receivable_asset_id) + lit(",\"cashAssetId\":") + json_id(
            self.cash_asset_id,
        ) + lit(",\"units\":") + dec(self.units as nat) + lit(",\"sellerCommitment\":") + json_id(
            self.seller_commitment,
        ) + lit(",\"buyerCommitment\":") + json_id(self.buyer_commitment) + lit(
            ",\"priceCommitment\":",
        ) + json_id(self.price_commitment) + lit(",\"venueEvidenceDigest\":") + json_id(
            self.venue_evidence_digest,
        ) + lit(",\"transferRestrictionDigest\":") + json_id(self.transfer_restriction_digest)
            + lit(",\"deadline\":") + dec(self.deadline as nat) + lit(",\"nullifier\":") + json_id(
            self.nullifier,
        ) + lit("}")
    }

    pub open spec fn spec_statement(self) -> Seq<u8> {
        spec_digest(settlement_context_domain(), self.encoding())
    }

    pub fn check(&self) -> (r: bool)
        ensures
            r == self.well_formed(),
    {
        !(is_zero_id(&self.context_id) || is_zero_id(&self.request_id) || is_zero_id(
            &self.fill_id,
        ) || is_zero_id(&self.token_series_id) || is_zero_id(&self.series_id) || is_zero_id(
            &self.issuance_id,
        ) || is_zero_id(&self.receivable_asset_id) || is_zero_id(&self.cash_asset_id)
            || is_zero_id(&self.seller_commitment) || is_zero_id(&self.buyer_commitment)
            || is_zero_id(&self.price_commitment) || is_zero_id(&self.venue_evidence_digest)
            || is_zero_id(&self.transfer_restriction_digest) || is_zero_id(&self.nullifier)
            || same_id(&self.seller_commitment, &self.buyer_commitment) || self.units == 0
            || !valid_time(self.deadline))
    }

    pub fn encoding_bytes(&self) -> (r: Vec<u8>)
        ensures
            r@ == self.encoding(),
    {
        let mut out: Vec<u8> = Vec::new();
        push_lit(&mut out, "{\"contextId\":");
        assert(out@ =~= lit("{\"contextId\":"));
        push_id(&mut out, &self.context_id);
        push_lit(&mut out, ",\"requestId\":");
        push_id(&mut out, &self.request_id);
        push_lit(&mut out, ",\"fillId\":");
        push_id(&mut out, &self.fill_id);
        push_lit(&mut out, ",\"venue\":");
        self.venue.push_json(&mut out);
        push_lit(&mut out, ",\"tokenSeriesId\":");
        push_id(&mut out, &self.token_series_id);
        push_lit(&mut out, ",\"seriesId\":");
        push_id(&mut out, &self.series_id);
        push_lit(&mut out, ",\"issuanceId\":");
        push_id(&mut out, &self.issuance_id);
        push_lit(&mut out, ",\"receivableAssetId\":");
        push_id(&mut out, &self.receivable_asset_id);
        push_lit(&mut out, ",\"cashAssetId\":");
        push_id(&mut out, &self.cash_asset_id);
        push_lit(&mut out, ",\"units\":");
        push_u64(&mut out, self.units);
        push_lit(&mut out, ",\"sellerCommitment\":");
        push_id(&mut out, &self.seller_commitment);
        push_lit(&mut out, ",\"buyerCommitment\":");
        push_id(&mut out, &self.buyer_commitment);
        push_lit(&mut out, ",\"priceCommitment\":");
        push_id(&mut out, &self.price_commitment);
        push_lit(&mut out, ",\"venueEvidenceDigest\":");
        push_id(&mut out, &self.venue_evidence_digest);
        push_lit(&mut out, ",\"transferRestrictionDigest\":");
        push_id(&mut out, &self.transfer_restriction_digest);
        push_lit(&mut out, ",\"deadline\":");
        push_u64(&mut out, self.deadline);
        push_lit(&mut out, ",\"nullifier\":");
        push_id(&mut out, &self.nullifier);
        push_lit(&mut out, "}");
        out
    }

    pub fn statement(&self) -> (r: Result<Commitment, DistributionError>)
        ensures
            r matches Ok(d) ==> self.well_formed() && d@ == self.spec_statement(),
            r matches Err(e) ==> !self.well_formed() && e == DistributionError::InvalidContext,
    {
        if !self.check() {
            return Err(DistributionError::InvalidContext);
        }
        let out = self.encoding_bytes();
        Ok(digest("AETHEL:SETTLEMENT-CONTEXT:v1".as_bytes(), out.as_slice()))
    }
}

/// What the host observed for a settlement context.
#[derive(Clone, Copy, Debug, PartialEq, Eq)]
pub enum SettlementOutcome {
    Settled { receipt_digest: Commitment, finalized_at: u64 },
    Expired { at: u64 },
    Rejected { reason_digest: Commitment, at: u64 },
}

impl SettlementOutcome {
    pub open spec fn json(self) -> Seq<u8> {
        match self {
            SettlementOutcome::Settled { receipt_digest, finalized_at } => lit(
                "{\"outcome\":\"settled\",\"receipt_digest\":",
            ) + json_id(receipt_digest) + lit(",\"finalized_at\":") + dec(finalized_at as nat)
                + lit("}"),
            SettlementOutcome::Expired { at } => lit("{\"outcome\":\"expired\",\"at\":") + dec(
                at as nat,
            ) + lit("}"),
            SettlementOutcome::Rejected { reason_digest, at } => lit(
                "{\"outcome\":\"rejected\",\"reason_digest\":",
            ) + json_id(reason_digest) + lit(",\"at\":") + dec(at as nat) + lit("}"),
        }
    }

    pub fn push_json(&self, out: &mut Vec<u8>)
        ensures
            final(out)@ == old(out)@ + self.json(),
    {
        let mut part: Vec<u8> = Vec::new();
        match self {
            SettlementOutcome::Settled { receipt_digest, finalized_at } => {
                push_lit(&mut part, "{\"outcome\":\"settled\",\"receipt_digest\":");
                assert(part@ =~= lit("{\"outcome\":\"settled\",\"receipt_digest\":"));
                push_id(&mut part, receipt_digest);
                push_lit(&mut part, ",\"finalized_at\":");
                push_u64(&mut part, *finalized_at);
                push_lit(&mut part, "}");
            },
            SettlementOutcome::Expired { at } => {
                push_lit(&mut part, "{\"outcome\":\"expired\",\"at\":");
                assert(part@ =~= lit("{\"outcome\":\"expired\",\"at\":"));
                push_u64(&mut part, *at);
                push_lit(&mut part, "}");
            },
            SettlementOutcome::Rejected { reason_digest, at } => {
                push_lit(&mut part, "{\"outcome\":\"rejected\",\"reason_digest\":");
                assert(part@ =~= lit("{\"outcome\":\"rejected\",\"reason_digest\":"));
                push_id(&mut part, reason_digest);
                push_lit(&mut part, ",\"at\":");
                push_u64(&mut part, *at);
                push_lit(&mut part, "}");
            },
        }
        assert(part@ =~= self.json());
        push_all(out, part.as_slice());
    }
}

/// An admitted request: the request, what the venue was given, the digest
/// of the transfer restriction it was admitted under, and the units its
/// open or settled fills hold.
#[derive(Clone, Copy, Debug, PartialEq, Eq)]
pub struct AdmittedRequest {
    pub request: CirculationRequest,
    pub handoff: VenueHandoff,
    pub transfer_restriction_digest: Commitment,
    pub filled_units: u64,
}

impl VenueHandoff {
    pub open spec fn json(self) -> Seq<u8> {
        lit("{\"requestId\":") + json_id(self.request_id) + lit(",\"venue\":") + self.venue.json()
            + lit(",\"requestDigest\":") + json_id(self.request_digest) + lit(",\"handedAt\":")
            + dec(self.handed_at as nat) + lit("}")
    }

    pub fn push_json(&self, out: &mut Vec<u8>)
        ensures
            final(out)@ == old(out)@ + self.json(),
    {
        let mut part: Vec<u8> = Vec::new();
        push_lit(&mut part, "{\"requestId\":");
        assert(part@ =~= lit("{\"requestId\":"));
        push_id(&mut part, &self.request_id);
        push_lit(&mut part, ",\"venue\":");
        self.venue.push_json(&mut part);
        push_lit(&mut part, ",\"requestDigest\":");
        push_id(&mut part, &self.request_digest);
        push_lit(&mut part, ",\"handedAt\":");
        push_u64(&mut part, self.handed_at);
        push_lit(&mut part, "}");
        push_all(out, part.as_slice());
    }
}

impl AdmittedRequest {
    pub open spec fn json(self) -> Seq<u8> {
        lit("{\"request\":") + self.request.encoding() + lit(",\"handoff\":") + self.handoff.json()
            + lit(",\"transferRestrictionDigest\":") + json_id(self.transfer_restriction_digest)
            + lit(",\"filledUnits\":") + dec(self.filled_units as nat) + lit("}")
    }

    pub fn json_bytes(&self) -> (r: Vec<u8>)
        ensures
            r@ == self.json(),
    {
        let mut out: Vec<u8> = Vec::new();
        push_lit(&mut out, "{\"request\":");
        assert(out@ =~= lit("{\"request\":"));
        let request = self.request.encoding_bytes();
        push_all(&mut out, request.as_slice());
        push_lit(&mut out, ",\"handoff\":");
        self.handoff.push_json(&mut out);
        push_lit(&mut out, ",\"transferRestrictionDigest\":");
        push_id(&mut out, &self.transfer_restriction_digest);
        push_lit(&mut out, ",\"filledUnits\":");
        push_u64(&mut out, self.filled_units);
        push_lit(&mut out, "}");
        out
    }
}

/// The digest of a transfer restriction, as bound into a settlement context.
pub open spec fn spec_restriction_digest(restriction: TransferRestriction) -> Seq<u8> {
    spec_digest(transfer_restriction_domain(), restriction.json())
}

/// Digest of a transfer restriction, as bound into a settlement context.
pub fn transfer_restriction_digest(restriction: &TransferRestriction) -> (r: Result<
    Commitment,
    DistributionError,
>)
    ensures
        r matches Ok(d) && d@ == spec_restriction_digest(*restriction),
{
    let mut out: Vec<u8> = Vec::new();
    restriction.push_json(&mut out);
    assert(out@ =~= restriction.json());
    Ok(digest("AETHEL:TRANSFER-RESTRICTION:v1".as_bytes(), out.as_slice()))
}

/// The JSON pair `[a,b]` of two identifiers.
pub open spec fn json_pair(a: Identifier, b: Identifier) -> Seq<u8> {
    lit("[") + json_id(a) + lit(",") + json_id(b) + lit("]")
}

/// The nullifier of a fill of a request.
pub open spec fn nullifier_of(request_id: Identifier, fill_id: Identifier) -> Identifier {
    id_of(spec_digest(settlement_nullifier_domain(), json_pair(request_id, fill_id)))
}

/// The id of the settlement context of a fill under its nullifier.
pub open spec fn context_id_of(fill_id: Identifier, nullifier: Identifier) -> Identifier {
    id_of(spec_digest(settlement_context_domain(), json_pair(fill_id, nullifier)))
}

/// The domain-separated digest of a pair of identifiers.
fn pair_digest(domain: &str, a: &Identifier, b: &Identifier) -> (r: Identifier)
    ensures
        r == id_of(spec_digest(domain.spec_bytes(), json_pair(*a, *b))),
{
    let mut out: Vec<u8> = Vec::new();
    push_lit(&mut out, "[");
    assert(out@ =~= lit("["));
    push_id(&mut out, a);
    push_lit(&mut out, ",");
    push_id(&mut out, b);
    push_lit(&mut out, "]");
    let d = digest(domain.as_bytes(), out.as_slice());
    proof {
        lemma_id_of(d);
    }
    d
}

/// The distribution book: admitted requests, settlement contexts with the
/// outcome recorded for each (`outcomes[k]` belongs to `contexts[k]`), and
/// the consumed operation ids and nullifiers.
#[derive(Debug)]
pub struct DistributionBook {
    pub requests: Vec<AdmittedRequest>,
    pub contexts: Vec<SettlementContext>,
    pub outcomes: Vec<Option<SettlementOutcome>>,
    pub used_operations: Vec<Identifier>,
    pub used_nullifiers: Vec<Identifier>,
}

/// The mathematical content of a [`DistributionBook`].
pub struct DistributionState {
    pub requests: Seq<AdmittedRequest>,
    pub contexts: Seq<SettlementContext>,
    pub outcomes: Seq<Option<SettlementOutcome>>,
    pub used_operations: Seq<Identifier>,
    pub used_nullifiers: Seq<Identifier>,
}

impl View for DistributionBook {
    type V = DistributionState;

    open spec fn view(&self) -> DistributionState {
        DistributionState {
            requests: self.requests@,
            contexts: self.contexts@,
            outcomes: self.outcomes@,
            used_operations: self.used_operations@,
            used_nullifiers: self.used_nullifiers@,
        }
    }
}

pub open spec fn request_has_id(id: Identifier) -> spec_fn(AdmittedRequest) -> bool {
    |a: AdmittedRequest| a.request.request_id == id
}

pub open spec fn context_has_id(id: Identifier) -> spec_fn(SettlementContext) -> bool {
    |c: SettlementContext| c.context_id == id
}

/// Whether a context with this outcome still holds its units: while it is
/// open and once it settled.
pub open spec fn holds_units(outcome: Option<SettlementOutcome>) -> bool {
    match outcome {
        None => true,
        Some(SettlementOutcome::Settled { .. }) => true,
        _ => false,
    }
}

/// The units a context with its outcome holds against request `id`.
pub open spec fn filled_of(id: Identifier) -> spec_fn((SettlementContext, Option<SettlementOutcome>)) -> nat {
    |e: (SettlementContext, Option<SettlementOutcome>)|
        if e.0.request_id == id && holds_units(e.1) {
            e.0.units as nat
        } else {
            0
        }
}

impl DistributionState {
    pub open spec fn request_index(self, id: Identifier) -> int {
        first_match(self.requests, request_has_id(id))
    }

    pub open spec fn context_index(self, id: Identifier) -> int {
        first_match(self.contexts, context_has_id(id))
    }

    pub open spec fn op_used(self, operation_id: Identifier) -> bool {
        self.used_operations.contains(operation_id)
    }

    pub open spec fn nullifier_used(self, nullifier: Identifier) -> bool {
        self.used_nullifiers.contains(nullifier)
    }

    /// Each context with its outcome.
    pub open spec fn entries(self) -> Seq<(SettlementContext, Option<SettlementOutcome>)> {
        Seq::new(self.contexts.len(), |k: int| (self.contexts[k], self.outcomes[k]))
    }

    /// Units held by open or settled fills of request `id`.
    pub open spec fn filled_total(self, id: Identifier) -> nat {
        sum_of(self.entries(), filled_of(id))
    }

    /// Identifiers occur once and outcomes pair with contexts.
    pub open spec fn shape(self) -> bool {
        &&& self.outcomes.len() == self.contexts.len()
        &&& forall|i: int, j: int|
            0 <= i < j < self.requests.len() ==> (#[trigger] self.requests[i]).request.request_id
                != (#[trigger] self.requests[j]).request.request_id
        &&& forall|i: int, j: int|
            0 <= i < j < self.contexts.len() ==> (#[trigger] self.contexts[i]).context_id != (
            #[trigger] self.contexts[j]).context_id
        &&& forall|i: int, j: int|
            0 <= i < j < self.used_nullifiers.len() ==> #[trigger] self.used_nullifiers[i]
                != #[trigger] self.used_nullifiers[j]
    }

    /// Request `i` is well formed, was handed off as admitted, holds no more
    /// units than requested, and holds exactly what its open and settled
    /// fills hold.
    pub open spec fn request_ok(self, i: int) -> bool {
        let a = self.requests[i];
        &&& a.request.well_formed()
        &&& a.handoff.request_id == a.request.request_id
        &&& a.handoff.venue == a.request.venue
        &&& a.handoff.request_digest@ == a.request.spec_statement()
        &&& a.filled_units <= a.request.units
        &&& self.op_used(a.request.operation_id)
        &&& a.filled_units == self.filled_total(a.request.request_id)
    }

    /// Context `k` is well formed, names an admitted request whose
    /// restriction digest and deadline it carries, and its nullifier is
    /// consumed.
    pub open spec fn context_ok(self, k: int) -> bool {
        let c = self.contexts[k];
        let ri = self.request_index(c.request_id);
        &&& c.well_formed()
        &&& ri >= 0
        &&& self.nullifier_used(c.nullifier)
        &&& c.transfer_restriction_digest == self.requests[ri].transfer_restriction_digest
        &&& c.deadline == self.requests[ri].request.valid_until
    }

    /// Request `i` was admitted as the book records it, whatever its fills
    /// hold: well formed, handed off as admitted under a set restriction
    /// digest and a consumed operation id, and filled no further than
    /// requested.
    pub open spec fn request_admitted(self, i: int) -> bool {
        let a = self.requests[i];
        &&& a.request.well_formed()
        &&& a.handoff.request_id == a.request.request_id
        &&& a.handoff.venue == a.request.venue
        &&& a.handoff.request_digest@ == a.request.spec_statement()
        &&& !is_zero(a.transfer_restriction_digest)
        &&& a.filled_units <= a.request.units
        &&& self.op_used(a.request.operation_id)
    }

    /// The invariant every operation keeps.
    pub open spec fn inv(self) -> bool {
        &&& self.shape()
        &&& forall|i: int| 0 <= i < self.requests.len() ==> #[trigger] self.request_ok(i)
        &&& forall|k: int| 0 <= k < self.contexts.len() ==> #[trigger] self.context_ok(k)
        &&& self.used_nullifiers.len() == self.contexts.len()
    }

    /// What [`DistributionBook::validate`] accepts: the invariant, and a
    /// set restriction digest on every request.
    pub open spec fn records_valid(self) -> bool {
        &&& self.inv()
        &&& forall|i: int|
            0 <= i < self.requests.len() ==> !is_zero(
                (#[trigger] self.requests[i]).transfer_restriction_digest,
            )
    }
}

/// Whether the transfer restriction refuses the request, and with which
/// error: a non-transferable series admits nothing, an issuer-repurchase
/// series only a bilateral sale to the issuer, and a qualified-holder series
/// only a request with eligibility evidence.
pub open spec fn restriction_refusal(
    restriction: TransferRestriction,
    request: CirculationRequest,
) -> Option<DistributionError> {
    match restriction {
        TransferRestriction::NonTransferable => Some(DistributionError::NotTransferable),
        TransferRestriction::IssuerRepurchaseOnly { issuer_commitment } => {
            let issuer_is_buyer = match request.side {
                Side::Sell => request.counterparty_commitment == Some(issuer_commitment),
                Side::Buy => request.initiator_commitment == issuer_commitment,
            };
            if !(request.venue is Bilateral) || !issuer_is_buyer {
                Some(DistributionError::NotTransferable)
            } else {
                None
            }
        },
        TransferRestriction::QualifiedHolders { .. } => if request.eligibility_attestation_digest
            is None {
            Some(DistributionError::EligibilityRequired)
        } else {
            None
        },
        TransferRestriction::Unrestricted => None,
    }
}

/// Why the book refuses to admit a request, if it does. The checks run in
/// this order: the request, the series it names, the series' state and
/// maturity, the request's window, the counterparty a bilateral request
/// needs and others must not name, the transfer restriction, and replay.
pub open spec fn admit_error(
    s: DistributionState,
    request: CirculationRequest,
    series: TokenSeries,
    now: u64,
) -> Option<DistributionError> {
    if !request.well_formed() {
        Some(DistributionError::InvalidRequest)
    } else if series.token_series_id != request.token_series_id || series.series_id
        != request.series_id || series.receivable_asset_id != request.receivable_asset_id {
        Some(DistributionError::SeriesMismatch)
    } else if series.status != TokenSeriesStatus::Open || now > series.maturity {
        Some(DistributionError::SeriesUnavailable)
    } else if now > request.valid_until || request.valid_until > series.maturity {
        Some(DistributionError::OutsideValidityWindow)
    } else if (request.venue is Bilateral) != (request.counterparty_commitment is Some) {
        Some(DistributionError::InvalidRequest)
    } else if restriction_refusal(series.transfer_restriction, request) is Some {
        restriction_refusal(series.transfer_restriction, request)
    } else if s.request_index(request.request_id) >= 0 || s.op_used(request.operation_id) {
        Some(DistributionError::Replay)
    } else {
        None
    }
}

/// What the venue receives for an admitted request.
pub open spec fn handoff_of(request: CirculationRequest, now: u64) -> VenueHandoff {
    VenueHandoff {
        request_id: request.request_id,
        venue: request.venue,
        request_digest: id_of(request.spec_statement()),
        handed_at: now,
    }
}

/// The record of an admitted request.
pub open spec fn admitted_of(
    request: CirculationRequest,
    series: TokenSeries,
    now: u64,
) -> AdmittedRequest {
    AdmittedRequest {
        request,
        handoff: handoff_of(request, now),
        transfer_restriction_digest: id_of(spec_restriction_digest(series.transfer_restriction)),
        filled_units: 0,
    }
}

/// The book after admitting a request.
pub open spec fn after_admit(
    s: DistributionState,
    request: CirculationRequest,
    series: TokenSeries,
    now: u64,
) -> DistributionState {
    DistributionState {
        requests: s.requests.push(admitted_of(request, series, now)),
        used_operations: s.used_operations.push(request.operation_id),
        ..s
    }
}

/// An accepted admission keeps the invariant.
pub proof fn lemma_admit_keeps_inv(
    s: DistributionState,
    request: CirculationRequest,
    series: TokenSeries,
    now: u64,
    request_digest: Identifier,
)
    requires
        s.inv(),
        request.well_formed(),
        s.request_index(request.request_id) < 0,
        request_digest@ == request.spec_statement(),
    ensures
        after_admit(s, request, series, now).inv(),
{
    lemma_id_of(request_digest);
    let s2 = after_admit(s, request, series, now);
    let a = admitted_of(request, series, now);
    let n = s.requests.len() as int;
    lemma_first_match(s.requests, request_has_id(request.request_id));
    assert forall|i: int, j: int| 0 <= i < j < s2.requests.len() implies (
    #[trigger] s2.requests[i]).request.request_id != (#[trigger] s2.requests[j]).request.request_id by {
        if j == n {
            assert(!request_has_id(request.request_id)(s.requests[i]));
        }
    }
    assert(s2.entries() =~= s.entries());
    assert forall|k: int| 0 <= k < s.entries().len() implies filled_of(request.request_id)(
        #[trigger] s.entries()[k],
    ) == 0 by {
        assert(s.context_ok(k));
        if s.contexts[k].request_id == request.request_id {
            assert(s.request_index(s.contexts[k].request_id) >= 0);
        }
    }
    crate::seqs::lemma_sum_zero(s.entries(), filled_of(request.request_id));
    assert forall|i: int| 0 <= i < s2.requests.len() implies #[trigger] s2.request_ok(i) by {
        if i < n {
            assert(s.request_ok(i));
            let w = choose|w: int|
                0 <= w < s.used_operations.len() && s.used_operations[w]
                    == s.requests[i].request.operation_id;
            assert(s2.used_operations[w] == s.used_operations[w]);
        } else {
            assert(s2.used_operations[s.used_operations.len() as int] == request.operation_id);
        }
    }
    assert forall|k: int| 0 <= k < s2.contexts.len() implies #[trigger] s2.context_ok(k) by {
        assert(s.context_ok(k));
        let id = s.contexts[k].request_id;
        lemma_first_match(s.requests, request_has_id(id));
        crate::seqs::lemma_first_match_push(s.requests, a, request_has_id(id));
    }
}

/// The settlement context a fill produces against its admitted request:
/// the seller and buyer follow the request's side, the nullifier is the
/// digest of the request and fill ids, and the context id the digest of the
/// fill id and nullifier.
pub open spec fn fill_context(s: DistributionState, fill: VenueFill) -> SettlementContext {
    let a = s.requests[s.request_index(fill.request_id)];
    let req = a.request;
    let n = nullifier_of(req.request_id, fill.fill_id);
    SettlementContext {
        context_id: context_id_of(fill.fill_id, n),
        request_id: req.request_id,
        fill_id: fill.fill_id,
        venue: req.venue,
        token_series_id: req.token_series_id,
        series_id: req.series_id,
        issuance_id: req.issuance_id,
        receivable_asset_id: req.receivable_asset_id,
        cash_asset_id: req.cash_asset_id,
        units: fill.units,
        seller_commitment: match req.side {
            Side::Sell => req.initiator_commitment,
            Side::Buy => fill.counterparty_commitment,
        },
        buyer_commitment: match req.side {
            Side::Sell => fill.counterparty_commitment,
            Side::Buy => req.initiator_commitment,
        },
        price_commitment: fill.price_commitment,
        venue_evidence_digest: fill.venue_evidence_digest,
        transfer_restriction_digest: a.transfer_restriction_digest,
        deadline: req.valid_until,
        nullifier: n,
    }
}

/// Why the book refuses a fill, if it does. The checks run in this order:
/// the fill, its request, a venue or counterparty other than the request's
/// (or the initiator itself), the fill's and request's times, the units
/// left on the request, the context it produces, and replay of its
/// nullifier or context id.
pub open spec fn fill_error(s: DistributionState, fill: VenueFill, now: u64) -> Option<
    DistributionError,
> {
    let ri = s.request_index(fill.request_id);
    if !fill.well_formed() {
        Some(DistributionError::InvalidFill)
    } else if ri < 0 {
        Some(DistributionError::UnknownRequest)
    } else {
        let a = s.requests[ri];
        let req = a.request;
        let total = a.filled_units + fill.units;
        let c = fill_context(s, fill);
        if fill.venue != req.venue || fill.counterparty_commitment == req.initiator_commitment || (
        req.counterparty_commitment matches Some(cp) && cp != fill.counterparty_commitment) {
            Some(DistributionError::FillMismatch)
        } else if fill.filled_at > now || now > req.valid_until {
            Some(DistributionError::OutsideValidityWindow)
        } else if total > u64::MAX {
            Some(DistributionError::ArithmeticOverflow)
        } else if total > req.units {
            Some(DistributionError::OverFilled)
        } else if !c.well_formed() {
            Some(DistributionError::InvalidContext)
        } else if s.nullifier_used(c.nullifier) || s.context_index(c.context_id) >= 0 {
            Some(DistributionError::Replay)
        } else {
            None
        }
    }
}

/// The book after an accepted fill: the request holds the fill's units,
/// and the context is recorded open with its nullifier consumed.
pub open spec fn after_fill(s: DistributionState, fill: VenueFill) -> DistributionState {
    let ri = s.request_index(fill.request_id);
    let a = s.requests[ri];
    let c = fill_context(s, fill);
    DistributionState {
        requests: s.requests.update(
            ri,
            AdmittedRequest { filled_units: (a.filled_units + fill.units) as u64, ..a },
        ),
        contexts: s.contexts.push(c),
        outcomes: s.outcomes.push(None),
        used_nullifiers: s.used_nullifiers.push(c.nullifier),
        ..s
    }
}

/// An accepted fill keeps the invariant.
pub proof fn lemma_fill_keeps_inv(s: DistributionState, fill: VenueFill, now: u64)
    requires
        s.inv(),
        fill_error(s, fill, now) is None,
    ensures
        after_fill(s, fill).inv(),
{
    let s2 = after_fill(s, fill);
    let ri = s.request_index(fill.request_id);
    let a = s.requests[ri];
    let a2 = AdmittedRequest { filled_units: (a.filled_units + fill.units) as u64, ..a };
    let c = fill_context(s, fill);
    let e = (c, None::<SettlementOutcome>);
    let n = s.contexts.len() as int;
    lemma_first_match(s.requests, request_has_id(fill.request_id));
    lemma_first_match(s.contexts, context_has_id(c.context_id));
    assert forall|id: Identifier| #[trigger] s2.request_index(id) == s.request_index(id) by {
        crate::seqs::lemma_first_match_update(s.requests, ri, a2, request_has_id(id));
    }
    assert forall|i: int, j: int| 0 <= i < j < s2.requests.len() implies (
    #[trigger] s2.requests[i]).request.request_id != (#[trigger] s2.requests[j]).request.request_id by {
        assert(s.requests[i].request.request_id != s.requests[j].request.request_id);
    }
    assert forall|i: int, j: int| 0 <= i < j < s2.contexts.len() implies (
    #[trigger] s2.contexts[i]).context_id != (#[trigger] s2.contexts[j]).context_id by {
        if j == n {
            assert(!context_has_id(c.context_id)(s.contexts[i]));
        }
    }
    assert forall|i: int, j: int| 0 <= i < j < s2.used_nullifiers.len() implies #[trigger] s2.used_nullifiers[i]
        != #[trigger] s2.used_nullifiers[j] by {
        if j == s.used_nullifiers.len() {
            assert(!s.nullifier_used(c.nullifier));
            assert(s.used_nullifiers[i] != c.nullifier);
        }
    }
    assert(s2.shape());
    assert(s2.entries() =~= s.entries().push(e));
    assert forall|i: int| 0 <= i < s2.requests.len() implies #[trigger] s2.request_ok(i) by {
        assert(s.request_ok(i));
        let id = s.requests[i].request.request_id;
        crate::seqs::lemma_sum_push(s.entries(), e, filled_of(id));
        if i != ri {
            assert(id != fill.request_id);
        }
    }
    assert forall|k: int| 0 <= k < s2.contexts.len() implies #[trigger] s2.context_ok(k) by {
        if k < n {
            assert(s.context_ok(k));
            let id = s.contexts[k].request_id;
            lemma_first_match(s.requests, request_has_id(id));
            let w = choose|w: int|
                0 <= w < s.used_nullifiers.len() && s.used_nullifiers[w] == s.contexts[k].nullifier;
            assert(s2.used_nullifiers[w] == s.used_nullifiers[w]);
        } else {
            assert(s2.used_nullifiers[s.used_nullifiers.len() as int] == c.nullifier);
        }
    }
}

/// Whether an outcome fits the context's deadline: a settlement carries a
/// receipt and a time no later than the deadline, an expiry comes after
/// it, and a rejection carries a reason and a valid time.
pub open spec fn outcome_consistent(outcome: SettlementOutcome, deadline: u64) -> bool {
    match outcome {
        SettlementOutcome::Settled { receipt_digest, finalized_at } => !is_zero(receipt_digest)
            && spec_valid_time(finalized_at) && finalized_at <= deadline,
        SettlementOutcome::Expired { at } => at > deadline,
        SettlementOutcome::Rejected { reason_digest, at } => !is_zero(reason_digest)
            && spec_valid_time(at),
    }
}

/// Why the book refuses an outcome, if it does: an unknown context, one
/// whose outcome is already recorded, or an outcome inconsistent with the
/// context's deadline.
pub open spec fn outcome_error(
    s: DistributionState,
    context_id: Identifier,
    outcome: SettlementOutcome,
) -> Option<DistributionError> {
    let k = s.context_index(context_id);
    if k < 0 {
        Some(DistributionError::UnknownContext)
    } else if s.outcomes[k] is Some {
        Some(DistributionError::Replay)
    } else if !outcome_consistent(outcome, s.contexts[k].deadline) {
        Some(DistributionError::InvalidOutcome)
    } else {
        None
    }
}

/// The book after an outcome is recorded. A context that did not settle
/// returns its units to the request's unfilled balance.
pub open spec fn after_outcome(
    s: DistributionState,
    context_id: Identifier,
    outcome: SettlementOutcome,
) -> DistributionState {
    let k = s.context_index(context_id);
    let c = s.contexts[k];
    let ri = s.request_index(c.request_id);
    let a = s.requests[ri];
    DistributionState {
        outcomes: s.outcomes.update(k, Some(outcome)),
        requests: if outcome is Settled {
            s.requests
        } else {
            s.requests.update(
                ri,
                AdmittedRequest { filled_units: (a.filled_units - c.units) as u64, ..a },
            )
        },
        ..s
    }
}

/// Recording an outcome keeps the invariant.
pub proof fn lemma_outcome_keeps_inv(
    s: DistributionState,
    context_id: Identifier,
    outcome: SettlementOutcome,
)
    requires
        s.inv(),
        outcome_error(s, context_id, outcome) is None,
    ensures
        after_outcome(s, context_id, outcome).inv(),
        ({
            let c = s.contexts[s.context_index(context_id)];
            c.units <= s.requests[s.request_index(c.request_id)].filled_units
        }),
{
    let s2 = after_outcome(s, context_id, outcome);
    let k = s.context_index(context_id);
    lemma_first_match(s.contexts, context_has_id(context_id));
    let c = s.contexts[k];
    assert(s.context_ok(k));
    let ri = s.request_index(c.request_id);
    lemma_first_match(s.requests, request_has_id(c.request_id));
    let a = s.requests[ri];
    let a2 = AdmittedRequest { filled_units: (a.filled_units - c.units) as u64, ..a };
    let e2 = (c, Some(outcome));
    assert(s.entries()[k] == (c, None::<SettlementOutcome>));
    assert(s.request_ok(ri));
    crate::seqs::lemma_sum_ge_term(s.entries(), k, filled_of(c.request_id));
    assert(s2.entries() =~= s.entries().update(k, e2));
    assert forall|id: Identifier| #[trigger] s2.request_index(id) == s.request_index(id) by {
        if !(outcome is Settled) {
            crate::seqs::lemma_first_match_update(s.requests, ri, a2, request_has_id(id));
        }
    }
    assert forall|i: int, j: int| 0 <= i < j < s2.requests.len() implies (
    #[trigger] s2.requests[i]).request.request_id != (#[trigger] s2.requests[j]).request.request_id by {
        assert(s.requests[i].request.request_id != s.requests[j].request.request_id);
    }
    assert(s2.shape());
    assert forall|i: int| 0 <= i < s2.requests.len() implies #[trigger] s2.request_ok(i) by {
        assert(s.request_ok(i));
        let id = s.requests[i].request.request_id;
        crate::seqs::lemma_sum_update(s.entries(), k, e2, filled_of(id));
        if i != ri {
            assert(id != c.request_id);
        }
    }
    assert forall|q: int| 0 <= q < s2.contexts.len() implies #[trigger] s2.context_ok(q) by {
        assert(s.context_ok(q));
        lemma_first_match(s.requests, request_has_id(s.contexts[q].request_id));
    }
}

impl Default for DistributionBook {
    /// An empty book.
    fn default() -> (r: Self)
        ensures
            r@.records_valid(),
            r@.requests.len() == 0,
            r@.contexts.len() == 0,
            r@.outcomes.len() == 0,
            r@.used_operations.len() == 0,
            r@.used_nullifiers.len() == 0,
    {
        DistributionBook::new()
    }
}

impl DistributionBook {
    /// An empty book.
    pub fn new() -> (r: Self)
        ensures
            r@.records_valid(),
            r@.requests.len() == 0,
            r@.contexts.len() == 0,
            r@.outcomes.len() == 0,
            r@.used_operations.len() == 0,
            r@.used_nullifiers.len() == 0,
    {
        DistributionBook {
            requests: Vec::new(),
            contexts: Vec::new(),
            outcomes: Vec::new(),
            used_operations: Vec::new(),
            used_nullifiers: Vec::new(),
        }
    }

    fn find_request(&self, id: &Identifier) -> (r: Option<usize>)
        ensures
            match r {
                Some(i) => i as int == self@.request_index(*id) && i < self.requests@.len(),
                None => self@.request_index(*id) == -1,
            },
    {
        let ghost p = request_has_id(*id);
        let mut i: usize = 0;
        while i < self.requests.len()
            invariant
                i <= self.requests@.len(),
                p == request_has_id(*id),
                first_match(self.requests@.subrange(0, i as int), p) == -1,
            decreases self.requests@.len() - i,
        {
            proof {
                lemma_first_match_step(self.requests@, i as int, p);
            }
            if same_id(&self.requests[i].request.request_id, id) {
                proof {
                    crate::provider::lemma_first_match_prefix_stop(self.requests@, i as int, p);
                }
                return Some(i);
            }
            i = i + 1;
        }
        proof {
            lemma_full_prefix(self.requests@);
        }
        None
    }

    fn find_context(&self, id: &Identifier) -> (r: Option<usize>)
        ensures
            match r {
                Some(i) => i as int == self@.context_index(*id) && i < self.contexts@.len(),
                None => self@.context_index(*id) == -1,
            },
    {
        let ghost p = context_has_id(*id);
        let mut i: usize = 0;
        while i < self.contexts.len()
            invariant
                i <= self.contexts@.len(),
                p == context_has_id(*id),
                first_match(self.contexts@.subrange(0, i as int), p) == -1,
            decreases self.contexts@.len() - i,
        {
            proof {
                lemma_first_match_step(self.contexts@, i as int, p);
            }
            if same_id(&self.contexts[i].context_id, id) {
                proof {
                    crate::provider::lemma_first_match_prefix_stop(self.contexts@, i as int, p);
                }
                return Some(i);
            }
            i = i + 1;
        }
        proof {
            lemma_full_prefix(self.contexts@);
        }
        None
    }

    fn operation_used(&self, operation_id: &Identifier) -> (r: bool)
        ensures
            r == self@.op_used(*operation_id),
    {
        let mut i: usize = 0;
        while i < self.used_operations.len()
            invariant
                i <= self.used_operations@.len(),
                forall|j: int| 0 <= j < i ==> self.used_operations@[j] != *operation_id,
            decreases self.used_operations@.len() - i,
        {
            if same_id(&self.used_operations[i], operation_id) {
                assert(self.used_operations@[i as int] == *operation_id);
                return true;
            }
            i = i + 1;
        }
        false
    }

    fn nullifier_used(&self, nullifier: &Identifier) -> (r: bool)
        ensures
            r == self@.nullifier_used(*nullifier),
    {
        let mut i: usize = 0;
        while i < self.used_nullifiers.len()
            invariant
                i <= self.used_nullifiers@.len(),
                forall|j: int| 0 <= j < i ==> self.used_nullifiers@[j] != *nullifier,
            decreases self.used_nullifiers@.len() - i,
        {
            if same_id(&self.used_nullifiers[i], nullifier) {
                assert(self.used_nullifiers@[i as int] == *nullifier);
                return true;
            }
            i = i + 1;
        }
        false
    }

    /// The admitted request with the id.
    pub fn request(&self, request_id: &Identifier) -> (r: Result<
        &AdmittedRequest,
        DistributionError,
    >)
        ensures
            match r {
                Ok(a) => self@.request_index(*request_id) >= 0 && *a
                    == self@.requests[self@.request_index(*request_id)],
                Err(e) => self@.request_index(*request_id) == -1 && e
                    == DistributionError::UnknownRequest,
            },
    {
        match self.find_request(request_id) {
            Some(i) => Ok(&self.requests[i]),
            None => Err(DistributionError::UnknownRequest),
        }
    }

    /// The settlement context with the id.
    pub fn context(&self, context_id: &Identifier) -> (r: Result<
        &SettlementContext,
        DistributionError,
    >)
        ensures
            match r {
                Ok(c) => self@.context_index(*context_id) >= 0 && *c
                    == self@.contexts[self@.context_index(*context_id)],
                Err(e) => self@.context_index(*context_id) == -1 && e
                    == DistributionError::UnknownContext,
            },
    {
        match self.find_context(context_id) {
            Some(i) => Ok(&self.contexts[i]),
            None => Err(DistributionError::UnknownContext),
        }
    }

    /// The outcome recorded for the context, if any.
    pub fn outcome(&self, context_id: &Identifier) -> (r: Option<&SettlementOutcome>)
        requires
            self@.shape(),
        ensures
            match r {
                Some(o) => self@.context_index(*context_id) >= 0 && self@.outcomes[self@.context_index(
                    *context_id,
                )] == Some(*o),
                None => self@.context_index(*context_id) == -1 || self@.outcomes[self@.context_index(
                    *context_id,
                )] is None,
            },
    {
        match self.find_context(context_id) {
            Some(i) => match &self.outcomes[i] {
                Some(o) => Some(o),
                None => None,
            },
            None => None,
        }
    }

    /// Admits a request against the token series the caller took from the
    /// tokenization book, and hands it to the venue.
    pub fn admit_request(&mut self, request: CirculationRequest, series: &TokenSeries, now: u64) -> (r:
        Result<VenueHandoff, DistributionError>)
        requires
            old(self)@.inv(),
        ensures
            final(self)@.inv(),
            match admit_error(old(self)@, request, *series, now) {
                Some(e) => r == Err::<VenueHandoff, DistributionError>(e) && final(self)@ == old(
                    self,
                )@,
                None => r == Ok::<VenueHandoff, DistributionError>(handoff_of(request, now))
                    && final(self)@ == after_admit(old(self)@, request, *series, now),
            },
    {
        let ghost s = self@;
        let request_digest = match request.statement() {
            Ok(d) => d,
            Err(e) => return Err(e),
        };
        if !same_id(&series.token_series_id, &request.token_series_id) || !same_id(
            &series.series_id,
            &request.series_id,
        ) || !same_id(&series.receivable_asset_id, &request.receivable_asset_id) {
            return Err(DistributionError::SeriesMismatch);
        }
        if !matches!(series.status, TokenSeriesStatus::Open) || now > series.maturity {
            return Err(DistributionError::SeriesUnavailable);
        }
        if now > request.valid_until || request.valid_until > series.maturity {
            return Err(DistributionError::OutsideValidityWindow);
        }
        let bilateral = matches!(request.venue, Venue::Bilateral);
        if bilateral != request.counterparty_commitment.is_some() {
            return Err(DistributionError::InvalidRequest);
        }
        match series.transfer_restriction {
            TransferRestriction::NonTransferable => return Err(DistributionError::NotTransferable),
            TransferRestriction::IssuerRepurchaseOnly { issuer_commitment } => {
                let issuer_is_buyer = match request.side {
                    Side::Sell => same_opt_id(
                        &request.counterparty_commitment,
                        &Some(issuer_commitment),
                    ),
                    Side::Buy => same_id(&request.initiator_commitment, &issuer_commitment),
                };
                if !bilateral || !issuer_is_buyer {
                    return Err(DistributionError::NotTransferable);
                }
            },
            TransferRestriction::QualifiedHolders { .. } => {
                if request.eligibility_attestation_digest.is_none() {
                    return Err(DistributionError::EligibilityRequired);
                }
            },
            TransferRestriction::Unrestricted => {},
        }
        if self.find_request(&request.request_id).is_some() || self.operation_used(
            &request.operation_id,
        ) {
            return Err(DistributionError::Replay);
        }
        let restriction_digest = match transfer_restriction_digest(&series.transfer_restriction) {
            Ok(d) => d,
            Err(e) => return Err(e),
        };
        let handoff = VenueHandoff {
            request_id: request.request_id,
            venue: request.venue,
            request_digest,
            handed_at: now,
        };
        proof {
            lemma_id_of(request_digest);
            lemma_id_of(restriction_digest);
            lemma_admit_keeps_inv(s, request, *series, now, request_digest);
        }
        self.used_operations.push(request.operation_id);
        self.requests.push(
            AdmittedRequest {
                request,
                handoff,
                transfer_restriction_digest: restriction_digest,
                filled_units: 0,
            },
        );
        Ok(handoff)
    }

    /// Checks a venue fill against its admitted request and emits the
    /// settlement context. Partial fills are allowed up to the requested
    /// units; every fill produces one context with its own nullifier.
    pub fn accept_fill(&mut self, fill: VenueFill, now: u64) -> (r: Result<
        SettlementContext,
        DistributionError,
    >)
        requires
            old(self)@.inv(),
        ensures
            final(self)@.inv(),
            match fill_error(old(self)@, fill, now) {
                Some(e) => r == Err::<SettlementContext, DistributionError>(e) && final(self)@
                    == old(self)@,
                None => r == Ok::<SettlementContext, DistributionError>(
                    fill_context(old(self)@, fill),
                ) && final(self)@ == after_fill(old(self)@, fill),
            },
    {
        let ghost s = self@;
        match fill.statement() {
            Ok(_) => {},
            Err(e) => return Err(e),
        }
        let ri = match self.find_request(&fill.request_id) {
            Some(i) => i,
            None => return Err(DistributionError::UnknownRequest),
        };
        let admitted = self.requests[ri];
        let request = admitted.request;
        let counterparty_differs = match request.counterparty_commitment {
            Some(c) => !same_id(&c, &fill.counterparty_commitment),
            None => false,
        };
        if !same_venue(&fill.venue, &request.venue) || same_id(
            &fill.counterparty_commitment,
            &request.initiator_commitment,
        ) || counterparty_differs {
            return Err(DistributionError::FillMismatch);
        }
        if fill.filled_at > now || now > request.valid_until {
            return Err(DistributionError::OutsideValidityWindow);
        }
        match admitted.filled_units.checked_add(fill.units) {
            None => return Err(DistributionError::ArithmeticOverflow),
            Some(total) => if total > request.units {
                return Err(DistributionError::OverFilled);
            },
        }
        let (seller_commitment, buyer_commitment) = match request.side {
            Side::Sell => (request.initiator_commitment, fill.counterparty_commitment),
            Side::Buy => (fill.counterparty_commitment, request.initiator_commitment),
        };
        let nullifier = pair_digest(
            "AETHEL:SETTLEMENT-NULLIFIER:v1",
            &request.request_id,
            &fill.fill_id,
        );
        let context_id = pair_digest("AETHEL:SETTLEMENT-CONTEXT:v1", &fill.fill_id, &nullifier);
        let context = SettlementContext {
            context_id,
            request_id: request.request_id,
            fill_id: fill.fill_id,
            venue: request.venue,
            token_series_id: request.token_series_id,
            series_id: request.series_id,
            issuance_id: request.issuance_id,
            receivable_asset_id: request.receivable_asset_id,
            cash_asset_id: request.cash_asset_id,
            units: fill.units,
            seller_commitment,
            buyer_commitment,
            price_commitment: fill.price_commitment,
            venue_evidence_digest: fill.venue_evidence_digest,
            transfer_restriction_digest: admitted.transfer_restriction_digest,
            deadline: request.valid_until,
            nullifier,
        };
        proof {
            lemma_first_match(s.requests, request_has_id(fill.request_id));
            assert(context == fill_context(s, fill));
        }
        match context.statement() {
            Ok(_) => {},
            Err(e) => return Err(e),
        }
        if self.nullifier_used(&nullifier) || self.find_context(&context_id).is_some() {
            return Err(DistributionError::Replay);
        }
        proof {
            lemma_fill_keeps_inv(s, fill, now);
        }
        self.used_nullifiers.push(nullifier);
        self.requests.set(
            ri,
            AdmittedRequest { filled_units: admitted.filled_units + fill.units, ..admitted },
        );
        self.contexts.push(context);
        self.outcomes.push(None);
        Ok(context)
    }

    /// Records what the host observed for a context. A settlement after the
    /// deadline is not a settlement; an expiry before it is not an expiry.
    /// A context that did not settle returns its units to the request so the
    /// venue may fill them again before the request expires.
    pub fn record_outcome(&mut self, context_id: &Identifier, outcome: SettlementOutcome) -> (r:
        Result<(), DistributionError>)
        requires
            old(self)@.inv(),
        ensures
            final(self)@.inv(),
            match outcome_error(old(self)@, *context_id, outcome) {
                Some(e) => r == Err::<(), DistributionError>(e) && final(self)@ == old(self)@,
                None => r is Ok && final(self)@ == after_outcome(old(self)@, *context_id, outcome),
            },
    {
        let ghost s = self@;
        let k = match self.find_context(context_id) {
            Some(k) => k,
            None => return Err(DistributionError::UnknownContext),
        };
        let context = self.contexts[k];
        if self.outcomes[k].is_some() {
            return Err(DistributionError::Replay);
        }
        let consistent = match outcome {
            SettlementOutcome::Settled { receipt_digest, finalized_at } => !is_zero_id(
                &receipt_digest,
            ) && valid_time(finalized_at) && finalized_at <= context.deadline,
            SettlementOutcome::Expired { at } => at > context.deadline,
            SettlementOutcome::Rejected { reason_digest, at } => !is_zero_id(&reason_digest)
                && valid_time(at),
        };
        if !consistent {
            return Err(DistributionError::InvalidOutcome);
        }
        proof {
            lemma_outcome_keeps_inv(s, *context_id, outcome);
            assert(s.context_ok(k as int));
        }
        if !matches!(outcome, SettlementOutcome::Settled { .. }) {
            let ri = match self.find_request(&context.request_id) {
                Some(i) => i,
                None => {
                    proof {
                        assert(false);
                    }
                    return Err(DistributionError::InvalidState);
                },
            };
            let admitted = self.requests[ri];
            self.requests.set(
                ri,
                AdmittedRequest { filled_units: admitted.filled_units - context.units, ..admitted },
            );
        }
        self.outcomes.set(k, Some(outcome));
        Ok(())
    }

    /// Units held by the open or settled fills of request `id`, or `None`
    /// past the integer range.
    fn filled_checked(&self, id: &Identifier) -> (r: Option<u64>)
        requires
            self@.outcomes.len() == self@.contexts.len(),
        ensures
            match r {
                Some(v) => v as nat == self@.filled_total(*id),
                None => self@.filled_total(*id) > u64::MAX,
            },
    {
        let ghost es = self@.entries();
        let ghost f = filled_of(*id);
        let mut total: u64 = 0;
        let mut k: usize = 0;
        while k < self.contexts.len()
            invariant
                k <= es.len(),
                es == self@.entries(),
                es.len() == self.contexts@.len(),
                self@.outcomes.len() == self@.contexts.len(),
                f == filled_of(*id),
                total as nat == sum_of(es.subrange(0, k as int), f),
            decreases es.len() - k,
        {
            proof {
                crate::seqs::lemma_sum_step(es, k as int, f);
            }
            let c = &self.contexts[k];
            let holds = match &self.outcomes[k] {
                None => true,
                Some(SettlementOutcome::Settled { .. }) => true,
                Some(_) => false,
            };
            if same_id(&c.request_id, id) && holds {
                match total.checked_add(c.units) {
                    Some(t) => total = t,
                    None => {
                        proof {
                            crate::seqs::lemma_sum_prefix_le(es, (k + 1) as int, f);
                        }
                        return None;
                    },
                }
            }
            k = k + 1;
        }
        proof {
            lemma_full_prefix(es);
        }
        Some(total)
    }

    /// Identifiers occur once and outcomes pair with contexts.
    fn shape_holds(&self) -> (r: bool)
        ensures
            r == self@.shape(),
    {
        let ghost s = self@;
        if self.outcomes.len() != self.contexts.len() {
            return false;
        }
        let mut i: usize = 0;
        while i < self.requests.len()
            invariant
                s == self@,
                i <= s.requests.len(),
                forall|a: int, b: int|
                    0 <= a < b < i ==> (#[trigger] s.requests[a]).request.request_id != (
                    #[trigger] s.requests[b]).request.request_id,
            decreases s.requests.len() - i,
        {
            let id = self.requests[i].request.request_id;
            match self.find_request(&id) {
                Some(j) => if j != i {
                    proof {
                        lemma_first_match(s.requests, request_has_id(id));
                        assert(s.requests[j as int].request.request_id == id);
                    }
                    return false;
                },
                None => {
                    proof {
                        lemma_first_match(s.requests, request_has_id(id));
                    }
                },
            }
            proof {
                lemma_first_match(s.requests, request_has_id(id));
                assert forall|a: int| 0 <= a < i implies (s.requests[a]).request.request_id != id by {
                    assert(!request_has_id(id)(s.requests[a]));
                }
            }
            i = i + 1;
        }
        let mut i: usize = 0;
        while i < self.contexts.len()
            invariant
                s == self@,
                i <= s.contexts.len(),
                forall|a: int, b: int|
                    0 <= a < b < s.requests.len() ==> (#[trigger] s.requests[a]).request.request_id
                        != (#[trigger] s.requests[b]).request.request_id,
                forall|a: int, b: int|
                    0 <= a < b < i ==> (#[trigger] s.contexts[a]).context_id != (
                    #[trigger] s.contexts[b]).context_id,
            decreases s.contexts.len() - i,
        {
            let id = self.contexts[i].context_id;
            match self.find_context(&id) {
                Some(j) => if j != i {
                    proof {
                        lemma_first_match(s.contexts, context_has_id(id));
                        assert(s.contexts[j as int].context_id == id);
                    }
                    return false;
                },
                None => {
                    proof {
                        lemma_first_match(s.contexts, context_has_id(id));
                    }
                },
            }
            proof {
                lemma_first_match(s.contexts, context_has_id(id));
                assert forall|a: int| 0 <= a < i implies (s.contexts[a]).context_id != id by {
                    assert(!context_has_id(id)(s.contexts[a]));
                }
            }
            i = i + 1;
        }
        let mut i: usize = 0;
        while i < self.used_nullifiers.len()
            invariant
                s == self@,
                i <= s.used_nullifiers.len(),
                s.outcomes.len() == s.contexts.len(),
                forall|a: int, b: int|
                    0 <= a < b < s.requests.len() ==> (#[trigger] s.requests[a]).request.request_id
                        != (#[trigger] s.requests[b]).request.request_id,
                forall|a: int, b: int|
                    0 <= a < b < s.contexts.len() ==> (#[trigger] s.contexts[a]).context_id != (
                    #[trigger] s.contexts[b]).context_id,
                forall|a: int, b: int|
                    0 <= a < b < i ==> #[trigger] s.used_nullifiers[a]
                        != #[trigger] s.used_nullifiers[b],
            decreases s.used_nullifiers.len() - i,
        {
            let mut j: usize = 0;
            while j < i
                invariant
                    s == self@,
                    j <= i < s.used_nullifiers.len(),
                    forall|a: int| 0 <= a < j ==> s.used_nullifiers[a] != s.used_nullifiers[i as int],
                decreases i - j,
            {
                if same_id(&self.used_nullifiers[j], &self.used_nullifiers[i]) {
                    return false;
                }
                j = j + 1;
            }
            i = i + 1;
        }
        true
    }

    /// Whether request `i` was admitted as the book records it.
    fn request_checks(&self, i: usize) -> (r: bool)
        requires
            i < self@.requests.len(),
        ensures
            r == self@.request_admitted(i as int),
    {
        let a = &self.requests[i];
        let d = match a.request.statement() {
            Ok(d) => d,
            Err(_) => return false,
        };
        proof {
            if a.handoff.request_digest@ == a.request.spec_statement() {
                assert(a.handoff.request_digest =~= d);
            }
        }
        same_id(&a.handoff.request_id, &a.request.request_id) && same_venue(
            &a.handoff.venue,
            &a.request.venue,
        ) && same_id(&a.handoff.request_digest, &d) && !is_zero_id(&a.transfer_restriction_digest)
            && a.filled_units <= a.request.units && self.operation_used(&a.request.operation_id)
    }

    /// Whether request `i` holds exactly what its open and settled fills
    /// hold.
    fn fills_match(&self, i: usize) -> (r: bool)
        requires
            i < self@.requests.len(),
            self@.shape(),
        ensures
            r == (self@.requests[i as int].filled_units == self@.filled_total(
                self@.requests[i as int].request.request_id,
            )),
    {
        let a = &self.requests[i];
        match self.filled_checked(&a.request.request_id) {
            Some(v) => v == a.filled_units,
            None => false,
        }
    }

    /// Whether context `k` is what the invariant says.
    fn context_checks(&self, k: usize) -> (r: bool)
        requires
            k < self@.contexts.len(),
        ensures
            r == self@.context_ok(k as int),
    {
        let c = &self.contexts[k];
        if !c.check() {
            return false;
        }
        let ri = match self.find_request(&c.request_id) {
            Some(ri) => ri,
            None => return false,
        };
        let a = &self.requests[ri];
        self.nullifier_used(&c.nullifier) && same_id(
            &c.transfer_restriction_digest,
            &a.transfer_restriction_digest,
        ) && c.deadline == a.request.valid_until
    }

    /// Checks the book's records: identifiers occur once, every request is
    /// well formed, was handed off as admitted under a set restriction
    /// digest and a consumed operation id, and holds exactly what its open
    /// and settled fills hold and no more than requested; every context is
    /// well formed, names an admitted request whose restriction digest and
    /// deadline it carries, under a consumed nullifier; and the nullifiers
    /// consumed are exactly as many as the contexts.
    ///
    /// Once identifiers occur once, the checks run in this order, and the
    /// first that fails gives the error: each request, first as a request
    /// (`InvalidRequest`), then against the book (`InvalidState`); each
    /// context, first as a context (`InvalidContext`), then by the request
    /// it names (`UnknownRequest`), then against the book (`InvalidState`);
    /// and last the fills and the nullifier count (`InvalidState`).
    pub fn validate(&self) -> (r: Result<(), DistributionError>)
        ensures
            r is Ok <==> self@.records_valid(),
            !self@.shape() ==> r == Err::<(), DistributionError>(DistributionError::InvalidState),
            ({
                &&& self@.shape()
                &&& exists|i: int|
                    0 <= i < self@.requests.len()
                        && !(#[trigger] self@.requests[i]).request.well_formed()
                &&& forall|i: int|
                    0 <= i < self@.requests.len() && (#[trigger] self@.requests[i]).request.well_formed()
                        ==> self@.request_admitted(i)
            }) ==> r == Err::<(), DistributionError>(DistributionError::InvalidRequest),
            ({
                &&& self@.shape()
                &&& forall|i: int|
                    0 <= i < self@.requests.len() ==> (#[trigger] self@.requests[i]).request.well_formed()
                &&& exists|i: int| 0 <= i < self@.requests.len() && !#[trigger] self@.request_admitted(i)
            }) ==> r == Err::<(), DistributionError>(DistributionError::InvalidState),
            ({
                &&& self@.shape()
                &&& forall|i: int| 0 <= i < self@.requests.len() ==> #[trigger] self@.request_admitted(i)
                &&& exists|k: int|
                    0 <= k < self@.contexts.len() && !(#[trigger] self@.contexts[k]).well_formed()
                &&& forall|k: int|
                    0 <= k < self@.contexts.len() && (#[trigger] self@.contexts[k]).well_formed()
                        ==> self@.context_ok(k)
            }) ==> r == Err::<(), DistributionError>(DistributionError::InvalidContext),
            ({
                &&& self@.shape()
                &&& forall|i: int| 0 <= i < self@.requests.len() ==> #[trigger] self@.request_admitted(i)
                &&& forall|k: int|
                    0 <= k < self@.contexts.len() ==> (#[trigger] self@.contexts[k]).well_formed()
                &&& exists|k: int|
                    0 <= k < self@.contexts.len() && self@.request_index(
                        (#[trigger] self@.contexts[k]).request_id,
                    ) < 0
                &&& forall|k: int|
                    0 <= k < self@.contexts.len() && self@.request_index(
                        (#[trigger] self@.contexts[k]).request_id,
                    ) >= 0 ==> self@.context_ok(k)
            }) ==> r == Err::<(), DistributionError>(DistributionError::UnknownRequest),
            ({
                &&& self@.shape()
                &&& forall|i: int| 0 <= i < self@.requests.len() ==> #[trigger] self@.request_admitted(i)
                &&& forall|k: int|
                    0 <= k < self@.contexts.len() ==> (#[trigger] self@.contexts[k]).well_formed()
                        && self@.request_index(self@.contexts[k].request_id) >= 0
                &&& !self@.records_valid()
            }) ==> r == Err::<(), DistributionError>(DistributionError::InvalidState),
    {
        let ghost s = self@;
        if !self.shape_holds() {
            return Err(DistributionError::InvalidState);
        }
        let mut i: usize = 0;
        while i < self.requests.len()
            invariant
                s == self@,
                s.shape(),
                i <= s.requests.len(),
                forall|j: int| 0 <= j < i ==> #[trigger] s.request_admitted(j),
            decreases s.requests.len() - i,
        {
            if !self.requests[i].request.check() {
                assert(!s.request_admitted(i as int));
                assert(!s.request_ok(i as int));
                return Err(DistributionError::InvalidRequest);
            }
            if !self.request_checks(i) {
                assert(!(s.request_ok(i as int) && !is_zero(s.requests[i as int].transfer_restriction_digest)));
                return Err(DistributionError::InvalidState);
            }
            i = i + 1;
        }
        assert forall|j: int| 0 <= j < s.requests.len() implies (#[trigger] s.requests[j]).request.well_formed() by {
            assert(s.request_admitted(j));
        }
        let mut k: usize = 0;
        while k < self.contexts.len()
            invariant
                s == self@,
                s.shape(),
                forall|j: int| 0 <= j < s.requests.len() ==> #[trigger] s.request_admitted(j),
                forall|j: int| 0 <= j < s.requests.len() ==> (#[trigger] s.requests[j]).request.well_formed(),
                k <= s.contexts.len(),
                forall|j: int| 0 <= j < k ==> #[trigger] s.context_ok(j),
            decreases s.contexts.len() - k,
        {
            let c = &self.contexts[k];
            if !c.check() {
                assert(!s.context_ok(k as int));
                return Err(DistributionError::InvalidContext);
            }
            if self.find_request(&c.request_id).is_none() {
                assert(!s.context_ok(k as int));
                return Err(DistributionError::UnknownRequest);
            }
            if !self.context_checks(k) {
                return Err(DistributionError::InvalidState);
            }
            k = k + 1;
        }
        assert forall|j: int| 0 <= j < s.contexts.len() implies (#[trigger] s.contexts[j]).well_formed()
            && s.request_index(s.contexts[j].request_id) >= 0 by {
            assert(s.context_ok(j));
        }
        let mut i: usize = 0;
        while i < self.requests.len()
            invariant
                s == self@,
                s.shape(),
                forall|j: int| 0 <= j < s.requests.len() ==> #[trigger] s.request_admitted(j),
                forall|j: int| 0 <= j < s.requests.len() ==> (#[trigger] s.requests[j]).request.well_formed(),
                forall|j: int| 0 <= j < s.contexts.len() ==> #[trigger] s.context_ok(j),
                forall|j: int| 0 <= j < s.contexts.len() ==> (#[trigger] s.contexts[j]).well_formed()
                    && s.request_index(s.contexts[j].request_id) >= 0,
                i <= s.requests.len(),
                forall|j: int| 0 <= j < i ==> #[trigger] s.request_ok(j),
            decreases s.requests.len() - i,
        {
            if !self.fills_match(i) {
                assert(!s.request_ok(i as int));
                return Err(DistributionError::InvalidState);
            }
            assert(s.request_admitted(i as int));
            i = i + 1;
        }
        assert forall|j: int| 0 <= j < s.requests.len() implies !is_zero(
            (#[trigger] s.requests[j]).transfer_restriction_digest,
        ) by {
            assert(s.request_admitted(j));
        }
        if self.used_nullifiers.len() != self.contexts.len() {
            return Err(DistributionError::InvalidState);
        }
        Ok(())
    }
}

pub open spec fn distribution_book_domain() -> Seq<u8> {
    lit("AETHEL:DISTRIBUTION-BOOK:v1")
}

/// The ids of the contexts whose outcome is recorded, in context order.
pub open spec fn outcome_keys(e: Seq<(SettlementContext, Option<SettlementOutcome>)>) -> Seq<
    Identifier,
>
    decreases e.len(),
{
    if e.len() == 0 {
        Seq::empty()
    } else {
        let rest = outcome_keys(e.drop_last());
        match e.last().1 {
            Some(_) => rest.push(e.last().0.context_id),
            None => rest,
        }
    }
}

/// The recorded outcomes, encoded, in context order.
pub open spec fn outcome_values(e: Seq<(SettlementContext, Option<SettlementOutcome>)>) -> Seq<
    Seq<u8>,
>
    decreases e.len(),
{
    if e.len() == 0 {
        Seq::empty()
    } else {
        let rest = outcome_values(e.drop_last());
        match e.last().1 {
            Some(o) => rest.push(o.json()),
            None => rest,
        }
    }
}

/// The canonical JSON form of the book: each keyed collection as an object
/// in ascending key order, and the consumed ids as sorted lists.
pub open spec fn book_json(s: DistributionState) -> Seq<u8> {
    lit("{\"requests\":") + json_object(
        s.requests.map_values(|a: AdmittedRequest| a.request.request_id),
        s.requests.map_values(|a: AdmittedRequest| a.json()),
    ) + lit(",\"contexts\":") + json_object(
        s.contexts.map_values(|c: SettlementContext| c.context_id),
        s.contexts.map_values(|c: SettlementContext| c.encoding()),
    ) + lit(",\"outcomes\":") + json_object(outcome_keys(s.entries()), outcome_values(s.entries()))
        + lit(",\"usedOperations\":") + json_key_set(s.used_operations) + lit(
        ",\"usedNullifiers\":",
    ) + json_key_set(s.used_nullifiers) + lit("}")
}

/// The recorded outcomes number as many as their keys.
proof fn lemma_outcome_lengths(e: Seq<(SettlementContext, Option<SettlementOutcome>)>)
    ensures
        outcome_keys(e).len() == outcome_values(e).len(),
    decreases e.len(),
{
    if e.len() > 0 {
        lemma_outcome_lengths(e.drop_last());
    }
}

impl DistributionBook {
    /// The JSON form of the book.
    #[verifier::spinoff_prover]
    #[verifier::rlimit(30)]
    fn json_bytes(&self) -> (r: Vec<u8>)
        requires
            self@.shape(),
        ensures
            r@ == book_json(self@),
    {
        let ghost s = self@;
        let ghost request_key = |a: AdmittedRequest| a.request.request_id;
        let ghost request_enc = |a: AdmittedRequest| a.json();
        let mut request_ids: Vec<Identifier> = Vec::new();
        let mut request_values: Vec<Vec<u8>> = Vec::new();
        let mut i: usize = 0;
        while i < self.requests.len()
            invariant
                s == self@,
                i <= s.requests.len(),
                request_key == (|a: AdmittedRequest| a.request.request_id),
                request_enc == (|a: AdmittedRequest| a.json()),
                request_ids@ == s.requests.subrange(0, i as int).map_values(request_key),
                views(request_values@) == s.requests.subrange(0, i as int).map_values(request_enc),
            decreases s.requests.len() - i,
        {
            let v = self.requests[i].json_bytes();
            proof {
                lemma_map_prefix_push(request_ids@, self.requests[i as int].request.request_id, s.requests, i as int, request_key);
                lemma_views_push(request_values@, v);
                lemma_map_prefix_push(views(request_values@), v@, s.requests, i as int, request_enc);
            }
            request_ids.push(self.requests[i].request.request_id);
            request_values.push(v);
            i = i + 1;
        }
        proof {
            lemma_map_full(s.requests, request_key);
            lemma_map_full(s.requests, request_enc);
        }
        let ghost context_key = |c: SettlementContext| c.context_id;
        let ghost context_enc = |c: SettlementContext| c.encoding();
        let mut context_ids: Vec<Identifier> = Vec::new();
        let mut context_values: Vec<Vec<u8>> = Vec::new();
        let mut outcome_ids: Vec<Identifier> = Vec::new();
        let mut outcome_encs: Vec<Vec<u8>> = Vec::new();
        let mut i: usize = 0;
        while i < self.contexts.len()
            invariant
                s == self@,
                s.outcomes.len() == s.contexts.len(),
                i <= s.contexts.len(),
                context_key == (|c: SettlementContext| c.context_id),
                context_enc == (|c: SettlementContext| c.encoding()),
                context_ids@ == s.contexts.subrange(0, i as int).map_values(context_key),
                views(context_values@) == s.contexts.subrange(0, i as int).map_values(context_enc),
                outcome_ids@ == outcome_keys(s.entries().subrange(0, i as int)),
                views(outcome_encs@) == outcome_values(s.entries().subrange(0, i as int)),
            decreases s.contexts.len() - i,
        {
            let v = self.contexts[i].encoding_bytes();
            proof {
                lemma_map_prefix_push(context_ids@, self.contexts[i as int].context_id, s.contexts, i as int, context_key);
                lemma_views_push(context_values@, v);
                lemma_map_prefix_push(views(context_values@), v@, s.contexts, i as int, context_enc);
                assert(s.entries().subrange(0, i + 1).drop_last() =~= s.entries().subrange(0, i as int));
            }
            context_ids.push(self.contexts[i].context_id);
            context_values.push(v);
            match &self.outcomes[i] {
                Some(o) => {
                    let mut enc: Vec<u8> = Vec::new();
                    o.push_json(&mut enc);
                    assert(enc@ =~= o.json());
                    proof {
                        lemma_views_push(outcome_encs@, enc);
                    }
                    outcome_ids.push(self.contexts[i].context_id);
                    outcome_encs.push(enc);
                },
                None => {},
            }
            i = i + 1;
        }
        proof {
            lemma_map_full(s.contexts, context_key);
            lemma_map_full(s.contexts, context_enc);
            assert(s.entries().subrange(0, s.entries().len() as int) =~= s.entries());
            lemma_outcome_lengths(s.entries());
        }
        let mut out: Vec<u8> = Vec::new();
        push_lit(&mut out, "{\"requests\":");
        assert(out@ =~= lit("{\"requests\":"));
        write_object(&mut out, &request_ids, &request_values);
        push_lit(&mut out, ",\"contexts\":");
        write_object(&mut out, &context_ids, &context_values);
        push_lit(&mut out, ",\"outcomes\":");
        write_object(&mut out, &outcome_ids, &outcome_encs);
        push_lit(&mut out, ",\"usedOperations\":");
        write_key_set(&mut out, &self.used_operations);
        push_lit(&mut out, ",\"usedNullifiers\":");
        write_key_set(&mut out, &self.used_nullifiers);
        push_lit(&mut out, "}");
        assert(out@ =~= book_json(s));
        out
    }

    /// The digest of the book's canonical form, once the book validates and
    /// lists each consumed operation id once.
    pub fn root(&self) -> (r: Result<Commitment, DistributionError>)
        ensures
            match r {
                Ok(d) => self@.records_valid() && ids_distinct(self@.used_operations) && d@
                    == spec_digest(distribution_book_domain(), book_json(self@)),
                Err(_) => !(self@.records_valid() && ids_distinct(self@.used_operations)),
            },
    {
        match self.validate() {
            Ok(()) => {},
            Err(e) => return Err(e),
        }
        if !distinct_ids(&self.used_operations) {
            return Err(DistributionError::InvalidState);
        }
        let out = self.json_bytes();
        Ok(digest("AETHEL:DISTRIBUTION-BOOK:v1".as_bytes(), out.as_slice()))
    }
}

/// Fills never exceed their request: in every state the book reaches, the
/// units held by a request's open and settled fills are exactly its filled
/// units and no more than it asked for.
pub proof fn law_fills_within_request(s: DistributionState)
    requires
        s.inv(),
    ensures
        forall|i: int|
            0 <= i < s.requests.len() ==> s.filled_total((#[trigger] s.requests[i]).request.request_id)
                == s.requests[i].filled_units && s.requests[i].filled_units
                <= s.requests[i].request.units,
{
    assert forall|i: int| 0 <= i < s.requests.len() implies s.filled_total(
        (#[trigger] s.requests[i]).request.request_id,
    ) == s.requests[i].filled_units && s.requests[i].filled_units
        <= s.requests[i].request.units by {
        assert(s.request_ok(i));
    }
}

/// A fill is accepted once: after a fill is accepted, the same fill id on
/// the same request is refused, because its nullifier is consumed.
pub proof fn law_fill_nullifier_single_use(
    s: DistributionState,
    fill: VenueFill,
    again: VenueFill,
    now: u64,
    later: u64,
)
    requires
        s.inv(),
        fill_error(s, fill, now) is None,
        again.request_id == fill.request_id,
        again.fill_id == fill.fill_id,
    ensures
        fill_error(after_fill(s, fill), again, later) is Some,
{
    let s2 = after_fill(s, fill);
    let ri = s.request_index(fill.request_id);
    let a = s.requests[ri];
    let a2 = AdmittedRequest { filled_units: (a.filled_units + fill.units) as u64, ..a };
    lemma_first_match(s.requests, request_has_id(fill.request_id));
    crate::seqs::lemma_first_match_update(s.requests, ri, a2, request_has_id(fill.request_id));
    let c = fill_context(s, fill);
    assert(s2.used_nullifiers[s.used_nullifiers.len() as int] == c.nullifier);
    assert(fill_context(s2, again).nullifier == c.nullifier);
}

/// A context that did not settle returns its units: recording an expiry or
/// a rejection lowers its request's filled units by the context's units.
pub proof fn law_unsettled_outcome_releases_units(
    s: DistributionState,
    context_id: Identifier,
    outcome: SettlementOutcome,
)
    requires
        s.inv(),
        outcome_error(s, context_id, outcome) is None,
        !(outcome is Settled),
    ensures
        ({
            let c = s.contexts[s.context_index(context_id)];
            let ri = s.request_index(c.request_id);
            let s2 = after_outcome(s, context_id, outcome);
            &&& 0 <= ri < s.requests.len()
            &&& s2.requests[ri].filled_units + c.units == s.requests[ri].filled_units
        }),
{
    lemma_outcome_keeps_inv(s, context_id, outcome);
    let k = s.context_index(context_id);
    lemma_first_match(s.contexts, context_has_id(context_id));
    assert(s.context_ok(k));
    lemma_first_match(s.requests, request_has_id(s.contexts[k].request_id));
}

/// An outcome is recorded once per context.
pub proof fn law_outcome_recorded_once(
    s: DistributionState,
    context_id: Identifier,
    outcome: SettlementOutcome,
    again: SettlementOutcome,
)
    requires
        s.inv(),
        outcome_error(s, context_id, outcome) is None,
    ensures
        outcome_error(after_outcome(s, context_id, outcome), context_id, again) == Some(
            DistributionError::Replay,
        ),
{
    lemma_first_match(s.contexts, context_has_id(context_id));
}

/// What the transfer restriction allows of an admitted request: nothing
/// for a non-transferable series, only a bilateral sale to the issuer for
/// an issuer-repurchase series, and only a request with eligibility
/// evidence for a qualified-holder series.
pub proof fn law_admission_respects_restriction(
    s: DistributionState,
    request: CirculationRequest,
    series: TokenSeries,
    now: u64,
)
    ensures
        admit_error(s, request, series, now) is None ==> match series.transfer_restriction {
            TransferRestriction::NonTransferable => false,
            TransferRestriction::IssuerRepurchaseOnly { issuer_commitment } => request.venue
                is Bilateral && match request.side {
                Side::Sell => request.counterparty_commitment == Some(issuer_commitment),
                Side::Buy => request.initiator_commitment == issuer_commitment,
            },
            TransferRestriction::QualifiedHolders { .. } => request.eligibility_attestation_digest
                is Some,
            TransferRestriction::Unrestricted => true,
        },
{
}


/// Admitting a request keeps a valid book valid, given that the digest of
/// the series' transfer restriction is set (a SHA-256 digest of all zero
/// bytes is the one case it would not be).
pub proof fn law_admission_keeps_the_book_valid(
    s: DistributionState,
    request: CirculationRequest,
    series: TokenSeries,
    now: u64,
    request_digest: Identifier,
)
    requires
        s.records_valid(),
        admit_error(s, request, series, now) is None,
        request_digest@ == request.spec_statement(),
        !is_zero(id_of(spec_restriction_digest(series.transfer_restriction))),
    ensures
        after_admit(s, request, series, now).records_valid(),
{
    lemma_admit_keeps_inv(s, request, series, now, request_digest);
    let s2 = after_admit(s, request, series, now);
    assert forall|i: int| 0 <= i < s2.requests.len() implies !is_zero(
        (#[trigger] s2.requests[i]).transfer_restriction_digest,
    ) by {
        if i < s.requests.len() {
            assert(s2.requests[i] == s.requests[i]);
        }
    }
}

/// Accepting a fill keeps a valid book valid.
pub proof fn law_fill_keeps_the_book_valid(s: DistributionState, fill: VenueFill, now: u64)
    requires
        s.records_valid(),
        fill_error(s, fill, now) is None,
    ensures
        after_fill(s, fill).records_valid(),
{
    lemma_fill_keeps_inv(s, fill, now);
    let s2 = after_fill(s, fill);
    let ri = s.request_index(fill.request_id);
    lemma_first_match(s.requests, request_has_id(fill.request_id));
    assert forall|i: int| 0 <= i < s2.requests.len() implies !is_zero(
        (#[trigger] s2.requests[i]).transfer_restriction_digest,
    ) by {
        assert(s2.requests[i].transfer_restriction_digest == s.requests[i].transfer_restriction_digest);
    }
}

/// Recording an outcome keeps a valid book valid.
pub proof fn law_outcome_keeps_the_book_valid(
    s: DistributionState,
    context_id: Identifier,
    outcome: SettlementOutcome,
)
    requires
        s.records_valid(),
        outcome_error(s, context_id, outcome) is None,
    ensures
        after_outcome(s, context_id, outcome).records_valid(),
{
    lemma_outcome_keeps_inv(s, context_id, outcome);
    let s2 = after_outcome(s, context_id, outcome);
    let k = s.context_index(context_id);
    lemma_first_match(s.contexts, context_has_id(context_id));
    assert(s.context_ok(k));
    let c = s.contexts[k];
    lemma_first_match(s.requests, request_has_id(c.request_id));
    assert forall|i: int| 0 <= i < s2.requests.len() implies !is_zero(
        (#[trigger] s2.requests[i]).transfer_restriction_digest,
    ) by {
        assert(s2.requests[i].transfer_restriction_digest == s.requests[i].transfer_restriction_digest);
    }
}

/// In the settlement context of an accepted fill, the request's initiator
/// is the seller when the request sells and the buyer when it buys, and the
/// fill's counterparty is the other party.
pub proof fn law_the_initiator_sells_on_a_sell_request_and_buys_on_a_buy_request(
    s: DistributionState,
    fill: VenueFill,
    now: u64,
)
    requires
        fill_error(s, fill, now) is None,
    ensures
        ({
            let request = s.requests[s.request_index(fill.request_id)].request;
            let context = fill_context(s, fill);
            &&& request.request_id == fill.request_id
            &&& context.request_id == fill.request_id
            &&& context.units == fill.units
            &&& request.side == Side::Sell ==> context.seller_commitment == request.initiator_commitment
                && context.buyer_commitment == fill.counterparty_commitment
            &&& request.side == Side::Buy ==> context.buyer_commitment == request.initiator_commitment
                && context.seller_commitment == fill.counterparty_commitment
        }),
{
    crate::seqs::lemma_first_match(s.requests, request_has_id(fill.request_id));
}

} // verus!
