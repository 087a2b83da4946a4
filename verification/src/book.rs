//! The protocol book: which providers are admitted, which signed stream
//! state is current, which receivable series exist, and which provider
//! artifacts were bound into each one-use receivable issuance. Asset title
//! and money stay with the settlement layer; the book records what they mean
//! for a streaming receivable.

use vstd::prelude::*;

use crate::artifacts::{
    CreditDecision, DefaultAttestation, FundingQuote, GuaranteeCommitment, GuaranteeRelease,
    GuaranteeStatus,
};
use crate::provider::{
    key_decides, lemma_rotated_validity, provider_index, retires_out_of_order, rotated, ProviderCapability,
    ProviderDefinition, ProviderError, ProviderStatus, RegisterProvider, RetiredProviderKey,
    RotateProviderKey, SetProviderStatus,
};
use crate::receivable::{
    aethel_error, from_provider, guarantee_claim_domain, series_domain, AethelError, RegisterSeries, GuaranteeClaim, ReceivableIssuance, ReceivableSeries,
    ReceivableStatus,
};
use crate::seqs::{first_match, lemma_first_match_step, lemma_full_prefix};
use crate::stream::{RegisterStream, RegisteredStream, StreamState, StreamStatus, StreamTransition};
use crate::subject::{binding_is_well_formed, ConfidentialSubjectBinding};
use crate::tokenization::{distinct_ids, ids_distinct};
use crate::provider::signature_error;
use crate::stream::stream_state_domain;
use crate::types::{
    ed25519_key_decodes, is_zero, is_zero_id, lemma_id_of, same_id, same_opt_id, spec_digest, spec_verify_key_signature, Commitment,
    Identifier,
};

verus! {

broadcast use vstd::array::group_array_axioms;

/// The protocol book. Each record is found by its identifier; the used
/// operation ids, provider nonces, allocation nullifiers, and subject
/// nullifiers are consumed once.
#[derive(Debug)]
pub struct AethelBook {
    pub providers: Vec<ProviderDefinition>,
    pub streams: Vec<RegisteredStream>,
    pub series: Vec<ReceivableSeries>,
    pub confidential_subjects: Vec<ConfidentialSubjectBinding>,
    pub credit_decisions: Vec<CreditDecision>,
    pub guarantees: Vec<GuaranteeCommitment>,
    pub funding_quotes: Vec<FundingQuote>,
    pub issuances: Vec<ReceivableIssuance>,
    pub default_attestations: Vec<DefaultAttestation>,
    pub guarantee_claims: Vec<GuaranteeClaim>,
    pub guarantee_releases: Vec<GuaranteeRelease>,
    pub used_operations: Vec<Identifier>,
    pub used_provider_nonces: Vec<(Identifier, Identifier)>,
    pub used_allocation_nullifiers: Vec<Identifier>,
    pub used_subject_nullifiers: Vec<Identifier>,
}

/// The mathematical content of an [`AethelBook`].
pub struct BookState {
    pub providers: Seq<ProviderDefinition>,
    pub streams: Seq<RegisteredStream>,
    pub series: Seq<ReceivableSeries>,
    pub confidential_subjects: Seq<ConfidentialSubjectBinding>,
    pub credit_decisions: Seq<CreditDecision>,
    pub guarantees: Seq<GuaranteeCommitment>,
    pub funding_quotes: Seq<FundingQuote>,
    pub issuances: Seq<ReceivableIssuance>,
    pub default_attestations: Seq<DefaultAttestation>,
    pub guarantee_claims: Seq<GuaranteeClaim>,
    pub guarantee_releases: Seq<GuaranteeRelease>,
    pub used_operations: Seq<Identifier>,
    pub used_provider_nonces: Seq<(Identifier, Identifier)>,
    pub used_allocation_nullifiers: Seq<Identifier>,
    pub used_subject_nullifiers: Seq<Identifier>,
}

impl View for AethelBook {
    type V = BookState;

    open spec fn view(&self) -> BookState {
        BookState {
            providers: self.providers@,
            streams: self.streams@,
            series: self.series@,
            confidential_subjects: self.confidential_subjects@,
            credit_decisions: self.credit_decisions@,
            guarantees: self.guarantees@,
            funding_quotes: self.funding_quotes@,
            issuances: self.issuances@,
            default_attestations: self.default_attestations@,
            guarantee_claims: self.guarantee_claims@,
            guarantee_releases: self.guarantee_releases@,
            used_operations: self.used_operations@,
            used_provider_nonces: self.used_provider_nonces@,
            used_allocation_nullifiers: self.used_allocation_nullifiers@,
            used_subject_nullifiers: self.used_subject_nullifiers@,
        }
    }
}
pub open spec fn stream_has_id(id: Identifier) -> spec_fn(RegisteredStream) -> bool {
    |x: RegisteredStream| x.state.stream_id == id
}
pub open spec fn series_has_id(id: Identifier) -> spec_fn(ReceivableSeries) -> bool {
    |x: ReceivableSeries| x.series_id == id
}
pub open spec fn decision_has_id(id: Identifier) -> spec_fn(CreditDecision) -> bool {
    |x: CreditDecision| x.decision_id == id
}
pub open spec fn guarantee_has_id(id: Identifier) -> spec_fn(GuaranteeCommitment) -> bool {
    |x: GuaranteeCommitment| x.guarantee_id == id
}
pub open spec fn quote_has_id(id: Identifier) -> spec_fn(FundingQuote) -> bool {
    |x: FundingQuote| x.quote_id == id
}
pub open spec fn issuance_has_id(id: Identifier) -> spec_fn(ReceivableIssuance) -> bool {
    |x: ReceivableIssuance| x.issuance_id == id
}
pub open spec fn default_has_id(id: Identifier) -> spec_fn(DefaultAttestation) -> bool {
    |x: DefaultAttestation| x.attestation_id == id
}
pub open spec fn claim_has_id(id: Identifier) -> spec_fn(GuaranteeClaim) -> bool {
    |x: GuaranteeClaim| x.claim_id == id
}
pub open spec fn release_has_id(id: Identifier) -> spec_fn(GuaranteeRelease) -> bool {
    |x: GuaranteeRelease| x.guarantee_id == id
}
pub open spec fn binding_has_id(id: Identifier) -> spec_fn(ConfidentialSubjectBinding) -> bool {
    |x: ConfidentialSubjectBinding| x.request_id == id
}
impl BookState {
    pub open spec fn provider_index(self, id: Identifier) -> int {
        provider_index(self.providers, id)
    }

    pub open spec fn stream_index(self, id: Identifier) -> int {
        first_match(self.streams, stream_has_id(id))
    }

    pub open spec fn series_index(self, id: Identifier) -> int {
        first_match(self.series, series_has_id(id))
    }

    pub open spec fn decision_index(self, id: Identifier) -> int {
        first_match(self.credit_decisions, decision_has_id(id))
    }

    pub open spec fn guarantee_index(self, id: Identifier) -> int {
        first_match(self.guarantees, guarantee_has_id(id))
    }

    pub open spec fn quote_index(self, id: Identifier) -> int {
        first_match(self.funding_quotes, quote_has_id(id))
    }

    pub open spec fn issuance_index(self, id: Identifier) -> int {
        first_match(self.issuances, issuance_has_id(id))
    }

    pub open spec fn default_index(self, id: Identifier) -> int {
        first_match(self.default_attestations, default_has_id(id))
    }

    pub open spec fn claim_index(self, id: Identifier) -> int {
        first_match(self.guarantee_claims, claim_has_id(id))
    }

    pub open spec fn release_index(self, id: Identifier) -> int {
        first_match(self.guarantee_releases, release_has_id(id))
    }

    pub open spec fn binding_index(self, id: Identifier) -> int {
        first_match(self.confidential_subjects, binding_has_id(id))
    }
}

/// Whether `v` holds `id`.
pub fn contains_id(v: &Vec<Identifier>, id: &Identifier) -> (r: bool)
    ensures
        r == v@.contains(*id),
{
    let mut i: usize = 0;
    while i < v.len()
        invariant
            i <= v@.len(),
            forall|j: int| 0 <= j < i ==> v@[j] != *id,
        decreases v@.len() - i,
    {
        if same_id(&v[i], id) {
            assert(v@[i as int] == *id);
            return true;
        }
        i = i + 1;
    }
    false
}

/// Whether `v` holds the pair `(a, b)`.
pub fn contains_pair(v: &Vec<(Identifier, Identifier)>, a: &Identifier, b: &Identifier) -> (r: bool)
    ensures
        r == v@.contains((*a, *b)),
{
    let mut i: usize = 0;
    while i < v.len()
        invariant
            i <= v@.len(),
            forall|j: int| 0 <= j < i ==> v@[j] != (*a, *b),
        decreases v@.len() - i,
    {
        if same_id(&v[i].0, a) && same_id(&v[i].1, b) {
            assert(v@[i as int] == (*a, *b));
            return true;
        }
        i = i + 1;
    }
    false
}

impl AethelBook {
    fn find_stream(&self, id: &Identifier) -> (r: Option<usize>)
        ensures
            match r {
                Some(i) => i as int == self@.stream_index(*id) && i < self.streams@.len(),
                None => self@.stream_index(*id) == -1,
            },
    {
        let ghost q = stream_has_id(*id);
        let mut i: usize = 0;
        while i < self.streams.len()
            invariant
                i <= self.streams@.len(),
                q == stream_has_id(*id),
                first_match(self.streams@.subrange(0, i as int), q) == -1,
            decreases self.streams@.len() - i,
        {
            proof {
                lemma_first_match_step(self.streams@, i as int, q);
            }
            if same_id(&self.streams[i].state.stream_id, id) {
                proof {
                    crate::provider::lemma_first_match_prefix_stop(self.streams@, i as int, q);
                }
                return Some(i);
            }
            i = i + 1;
        }
        proof {
            lemma_full_prefix(self.streams@);
        }
        None
    }

    fn find_series(&self, id: &Identifier) -> (r: Option<usize>)
        ensures
            match r {
                Some(i) => i as int == self@.series_index(*id) && i < self.series@.len(),
                None => self@.series_index(*id) == -1,
            },
    {
        let ghost q = series_has_id(*id);
        let mut i: usize = 0;
        while i < self.series.len()
            invariant
                i <= self.series@.len(),
                q == series_has_id(*id),
                first_match(self.series@.subrange(0, i as int), q) == -1,
            decreases self.series@.len() - i,
        {
            proof {
                lemma_first_match_step(self.series@, i as int, q);
            }
            if same_id(&self.series[i].series_id, id) {
                proof {
                    crate::provider::lemma_first_match_prefix_stop(self.series@, i as int, q);
                }
                return Some(i);
            }
            i = i + 1;
        }
        proof {
            lemma_full_prefix(self.series@);
        }
        None
    }

    fn find_decision(&self, id: &Identifier) -> (r: Option<usize>)
        ensures
            match r {
                Some(i) => i as int == self@.decision_index(*id) && i < self.credit_decisions@.len(),
                None => self@.decision_index(*id) == -1,
            },
    {
        let ghost q = decision_has_id(*id);
        let mut i: usize = 0;
        while i < self.credit_decisions.len()
            invariant
                i <= self.credit_decisions@.len(),
                q == decision_has_id(*id),
                first_match(self.credit_decisions@.subrange(0, i as int), q) == -1,
            decreases self.credit_decisions@.len() - i,
        {
            proof {
                lemma_first_match_step(self.credit_decisions@, i as int, q);
            }
            if same_id(&self.credit_decisions[i].decision_id, id) {
                proof {
                    crate::provider::lemma_first_match_prefix_stop(self.credit_decisions@, i as int, q);
                }
                return Some(i);
            }
            i = i + 1;
        }
        proof {
            lemma_full_prefix(self.credit_decisions@);
        }
        None
    }

    fn find_guarantee(&self, id: &Identifier) -> (r: Option<usize>)
        ensures
            match r {
                Some(i) => i as int == self@.guarantee_index(*id) && i < self.guarantees@.len(),
                None => self@.guarantee_index(*id) == -1,
            },
    {
        let ghost q = guarantee_has_id(*id);
        let mut i: usize = 0;
        while i < self.guarantees.len()
            invariant
                i <= self.guarantees@.len(),
                q == guarantee_has_id(*id),
                first_match(self.guarantees@.subrange(0, i as int), q) == -1,
            decreases self.guarantees@.len() - i,
        {
            proof {
                lemma_first_match_step(self.guarantees@, i as int, q);
            }
            if same_id(&self.guarantees[i].guarantee_id, id) {
                proof {
                    crate::provider::lemma_first_match_prefix_stop(self.guarantees@, i as int, q);
                }
                return Some(i);
            }
            i = i + 1;
        }
        proof {
            lemma_full_prefix(self.guarantees@);
        }
        None
    }

    fn find_quote(&self, id: &Identifier) -> (r: Option<usize>)
        ensures
            match r {
                Some(i) => i as int == self@.quote_index(*id) && i < self.funding_quotes@.len(),
                None => self@.quote_index(*id) == -1,
            },
    {
        let ghost q = quote_has_id(*id);
        let mut i: usize = 0;
        while i < self.funding_quotes.len()
            invariant
                i <= self.funding_quotes@.len(),
                q == quote_has_id(*id),
                first_match(self.funding_quotes@.subrange(0, i as int), q) == -1,
            decreases self.funding_quotes@.len() - i,
        {
            proof {
                lemma_first_match_step(self.funding_quotes@, i as int, q);
            }
            if same_id(&self.funding_quotes[i].quote_id, id) {
                proof {
                    crate::provider::lemma_first_match_prefix_stop(self.funding_quotes@, i as int, q);
                }
                return Some(i);
            }
            i = i + 1;
        }
        proof {
            lemma_full_prefix(self.funding_quotes@);
        }
        None
    }

    fn find_issuance(&self, id: &Identifier) -> (r: Option<usize>)
        ensures
            match r {
                Some(i) => i as int == self@.issuance_index(*id) && i < self.issuances@.len(),
                None => self@.issuance_index(*id) == -1,
            },
    {
        let ghost q = issuance_has_id(*id);
        let mut i: usize = 0;
        while i < self.issuances.len()
            invariant
                i <= self.issuances@.len(),
                q == issuance_has_id(*id),
                first_match(self.issuances@.subrange(0, i as int), q) == -1,
            decreases self.issuances@.len() - i,
        {
            proof {
                lemma_first_match_step(self.issuances@, i as int, q);
            }
            if same_id(&self.issuances[i].issuance_id, id) {
                proof {
                    crate::provider::lemma_first_match_prefix_stop(self.issuances@, i as int, q);
                }
                return Some(i);
            }
            i = i + 1;
        }
        proof {
            lemma_full_prefix(self.issuances@);
        }
        None
    }

    fn find_default(&self, id: &Identifier) -> (r: Option<usize>)
        ensures
            match r {
                Some(i) => i as int == self@.default_index(*id) && i < self.default_attestations@.len(),
                None => self@.default_index(*id) == -1,
            },
    {
        let ghost q = default_has_id(*id);
        let mut i: usize = 0;
        while i < self.default_attestations.len()
            invariant
                i <= self.default_attestations@.len(),
                q == default_has_id(*id),
                first_match(self.default_attestations@.subrange(0, i as int), q) == -1,
            decreases self.default_attestations@.len() - i,
        {
            proof {
                lemma_first_match_step(self.default_attestations@, i as int, q);
            }
            if same_id(&self.default_attestations[i].attestation_id, id) {
                proof {
                    crate::provider::lemma_first_match_prefix_stop(self.default_attestations@, i as int, q);
                }
                return Some(i);
            }
            i = i + 1;
        }
        proof {
            lemma_full_prefix(self.default_attestations@);
        }
        None
    }

    fn find_claim(&self, id: &Identifier) -> (r: Option<usize>)
        ensures
            match r {
                Some(i) => i as int == self@.claim_index(*id) && i < self.guarantee_claims@.len(),
                None => self@.claim_index(*id) == -1,
            },
    {
        let ghost q = claim_has_id(*id);
        let mut i: usize = 0;
        while i < self.guarantee_claims.len()
            invariant
                i <= self.guarantee_claims@.len(),
                q == claim_has_id(*id),
                first_match(self.guarantee_claims@.subrange(0, i as int), q) == -1,
            decreases self.guarantee_claims@.len() - i,
        {
            proof {
                lemma_first_match_step(self.guarantee_claims@, i as int, q);
            }
            if same_id(&self.guarantee_claims[i].claim_id, id) {
                proof {
                    crate::provider::lemma_first_match_prefix_stop(self.guarantee_claims@, i as int, q);
                }
                return Some(i);
            }
            i = i + 1;
        }
        proof {
            lemma_full_prefix(self.guarantee_claims@);
        }
        None
    }

    fn find_release(&self, id: &Identifier) -> (r: Option<usize>)
        ensures
            match r {
                Some(i) => i as int == self@.release_index(*id) && i < self.guarantee_releases@.len(),
                None => self@.release_index(*id) == -1,
            },
    {
        let ghost q = release_has_id(*id);
        let mut i: usize = 0;
        while i < self.guarantee_releases.len()
            invariant
                i <= self.guarantee_releases@.len(),
                q == release_has_id(*id),
                first_match(self.guarantee_releases@.subrange(0, i as int), q) == -1,
            decreases self.guarantee_releases@.len() - i,
        {
            proof {
                lemma_first_match_step(self.guarantee_releases@, i as int, q);
            }
            if same_id(&self.guarantee_releases[i].guarantee_id, id) {
                proof {
                    crate::provider::lemma_first_match_prefix_stop(self.guarantee_releases@, i as int, q);
                }
                return Some(i);
            }
            i = i + 1;
        }
        proof {
            lemma_full_prefix(self.guarantee_releases@);
        }
        None
    }

    fn find_binding(&self, id: &Identifier) -> (r: Option<usize>)
        ensures
            match r {
                Some(i) => i as int == self@.binding_index(*id) && i < self.confidential_subjects@.len(),
                None => self@.binding_index(*id) == -1,
            },
    {
        let ghost q = binding_has_id(*id);
        let mut i: usize = 0;
        while i < self.confidential_subjects.len()
            invariant
                i <= self.confidential_subjects@.len(),
                q == binding_has_id(*id),
                first_match(self.confidential_subjects@.subrange(0, i as int), q) == -1,
            decreases self.confidential_subjects@.len() - i,
        {
            proof {
                lemma_first_match_step(self.confidential_subjects@, i as int, q);
            }
            if same_id(&self.confidential_subjects[i].request_id, id) {
                proof {
                    crate::provider::lemma_first_match_prefix_stop(self.confidential_subjects@, i as int, q);
                }
                return Some(i);
            }
            i = i + 1;
        }
        proof {
            lemma_full_prefix(self.confidential_subjects@);
        }
        None
    }

    fn find_provider_index(&self, id: &Identifier) -> (r: Option<usize>)
        ensures
            match r {
                Some(i) => i as int == self@.provider_index(*id) && i < self.providers@.len(),
                None => self@.provider_index(*id) == -1,
            },
    {
        let ghost q = crate::provider::provider_has_id(*id);
        let mut i: usize = 0;
        while i < self.providers.len()
            invariant
                i <= self.providers@.len(),
                q == crate::provider::provider_has_id(*id),
                first_match(self.providers@.subrange(0, i as int), q) == -1,
            decreases self.providers@.len() - i,
        {
            proof {
                lemma_first_match_step(self.providers@, i as int, q);
            }
            if same_id(&self.providers[i].provider_id, id) {
                proof {
                    crate::provider::lemma_first_match_prefix_stop(self.providers@, i as int, q);
                }
                return Some(i);
            }
            i = i + 1;
        }
        proof {
            lemma_full_prefix(self.providers@);
        }
        None
    }
}

/// Whether two artifacts describe the same request against the same stream
/// state of the same series.
pub open spec fn spec_same_request_state(
    left_request: Identifier,
    left_series: Identifier,
    left_version: u64,
    left_root: Commitment,
    right_request: Identifier,
    right_series: Identifier,
    right_version: u64,
    right_root: Commitment,
) -> bool {
    left_request == right_request && left_series == right_series && left_version == right_version
        && left_root == right_root
}

pub fn same_request_state(
    left_request: Identifier,
    left_series: Identifier,
    left_version: u64,
    left_root: Commitment,
    right_request: Identifier,
    right_series: Identifier,
    right_version: u64,
    right_root: Commitment,
) -> (r: bool)
    ensures
        r == spec_same_request_state(
            left_request,
            left_series,
            left_version,
            left_root,
            right_request,
            right_series,
            right_version,
            right_root,
        ),
{
    same_id(&left_request, &right_request) && same_id(&left_series, &right_series) && left_version
        == right_version && same_id(&left_root, &right_root)
}

/// The error a new artifact's signature check under the provider's current
/// key gives, if any.
#[verifier::opaque]
pub open spec fn new_signature_error(p: ProviderDefinition, statement: Seq<u8>, signature: Seq<u8>) -> Option<
    AethelError,
> {
    match spec_verify_key_signature(p.public_key@, statement, signature) {
        Ok(()) => None,
        Err(e) => Some(from_provider(signature_error(e))),
    }
}

/// The root of a stream state: the digest of its canonical form.
pub open spec fn state_root(st: StreamState) -> Seq<u8> {
    spec_digest(stream_state_domain(), st.json())
}

/// Whether a stream state no longer matches a claimed version and root: a
/// different version, an invalid state, or a different root.
pub open spec fn stale_state_error(st: StreamState, version: u64, root: Commitment) -> Option<AethelError> {
    if st.version != version {
        Some(AethelError::StaleStreamState)
    } else if !st.spec_valid() {
        Some(AethelError::InvalidStream)
    } else if root@ != state_root(st) {
        Some(AethelError::StaleStreamState)
    } else {
        None
    }
}

impl BookState {
    /// An operation id can be consumed: it is set and unused.
    pub open spec fn op_available(self, operation_id: Identifier) -> bool {
        !is_zero(operation_id) && !self.used_operations.contains(operation_id)
    }

    pub open spec fn nonce_used(self, provider_id: Identifier, nonce: Identifier) -> bool {
        self.used_provider_nonces.contains((provider_id, nonce))
    }

    /// Why the provider cannot act with the capability at `now`, if it
    /// cannot: unknown, or without the capability while active in its window.
    #[verifier::opaque]
    pub open spec fn active_provider_error(
        self,
        provider_id: Identifier,
        capability: ProviderCapability,
        now: u64,
    ) -> Option<AethelError> {
        let pi = self.provider_index(provider_id);
        if pi < 0 {
            Some(AethelError::UnknownProvider)
        } else if !self.providers[pi].spec_has(capability, now) {
            Some(AethelError::MissingProviderCapability)
        } else {
            None
        }
    }

    /// Why an artifact cannot be made against the series at this stream
    /// state, if it cannot: an unknown or unavailable series, an unknown
    /// stream, or a stale or invalid stream state.
    #[verifier::opaque]
    pub open spec fn series_state_error(
        self,
        series_id: Identifier,
        version: u64,
        root: Commitment,
        now: u64,
    ) -> Option<AethelError> {
        let si = self.series_index(series_id);
        let series = self.series[si];
        let ti = self.stream_index(series.stream_id);
        if si < 0 {
            Some(AethelError::UnknownSeries)
        } else if series.status != ReceivableStatus::Active || now < series.valid_from || now
            > series.maturity {
            Some(AethelError::SeriesUnavailable)
        } else if ti < 0 {
            Some(AethelError::UnknownStream)
        } else {
            stale_state_error(self.streams[ti].state, version, root)
        }
    }

    /// The current stream state of the series' stream.
    pub open spec fn series_stream_state(self, series_id: Identifier) -> StreamState {
        self.streams[self.stream_index(self.series[self.series_index(series_id)].stream_id)].state
    }

    /// Whether a recorded quote already uses the cash reservation.
    pub open spec fn reservation_taken(self, reservation_id: Identifier) -> bool {
        exists|i: int|
            0 <= i < self.funding_quotes.len()
                && (#[trigger] self.funding_quotes[i]).cash_reservation_id == reservation_id
    }

    /// Why a well-formed funding quote cannot be recorded at `now`, if it
    /// cannot, in the order the checks run.
    #[verifier::opaque]
    pub open spec fn funding_quote_error(self, q: FundingQuote, statement: Seq<u8>, now: u64) -> Option<
        AethelError,
    > {
        let p = self.providers[self.provider_index(q.provider_id)];
        let series = self.series[self.series_index(q.series_id)];
        let st = self.series_stream_state(q.series_id);
        if self.active_provider_error(q.provider_id, ProviderCapability::LiquidityProvider, now) is Some {
            self.active_provider_error(q.provider_id, ProviderCapability::LiquidityProvider, now)
        } else if new_signature_error(p, statement, q.signature@) is Some {
            new_signature_error(p, statement, q.signature@)
        } else if self.series_state_error(
            q.series_id,
            q.stream_state_version,
            q.stream_state_root,
            now,
        ) is Some {
            self.series_state_error(q.series_id, q.stream_state_version, q.stream_state_root, now)
        } else if q.cash_asset_id != st.settlement_asset_id || q.valid_until < now || q.valid_until
            > p.valid_until || q.valid_until > series.maturity || self.reservation_taken(
            q.cash_reservation_id,
        ) {
            Some(AethelError::InvalidFundingQuote)
        } else if self.quote_links_error(q, now) is Some {
            self.quote_links_error(q, now)
        } else if !self.op_available(q.operation_id) || self.quote_index(q.quote_id) >= 0
            || self.nonce_used(q.provider_id, q.nonce) {
            Some(AethelError::Replay)
        } else {
            None
        }
    }

    /// Why the credit decision a quote names does not back it at `now`, if
    /// it does not: unknown, another request or stream state, or expired.
    #[verifier::opaque]
    pub open spec fn decision_link_error(
        self,
        decision_id: Option<Identifier>,
        request_id: Identifier,
        series_id: Identifier,
        version: u64,
        root: Commitment,
        now: u64,
    ) -> Option<AethelError> {
        match decision_id {
            None => None,
            Some(id) => {
                let di = self.decision_index(id);
                let d = self.credit_decisions[di];
                if di < 0 {
                    Some(AethelError::UnknownCreditDecision)
                } else if !spec_same_request_state(
                    d.request_id,
                    d.series_id,
                    d.stream_state_version,
                    d.stream_state_root,
                    request_id,
                    series_id,
                    version,
                    root,
                ) || d.valid_until < now {
                    Some(AethelError::MismatchedArtifact)
                } else {
                    None
                }
            },
        }
    }

    /// Why the linked credit decision or guarantee does not back a quote at
    /// `now`, if they do not; an available guarantee is needed.
    #[verifier::opaque]
    pub open spec fn quote_links_error(self, q: FundingQuote, now: u64) -> Option<AethelError> {
        let d = self.decision_link_error(
            q.credit_decision_id,
            q.request_id,
            q.series_id,
            q.stream_state_version,
            q.stream_state_root,
            now,
        );
        if d is Some {
            d
        } else {
            match q.guarantee_id {
                None => None,
                Some(id) => {
                    let gi = self.guarantee_index(id);
                    let g = self.guarantees[gi];
                    if gi < 0 {
                        Some(AethelError::UnknownGuarantee)
                    } else if !spec_same_request_state(
                        g.request_id,
                        g.series_id,
                        g.stream_state_version,
                        g.stream_state_root,
                        q.request_id,
                        q.series_id,
                        q.stream_state_version,
                        q.stream_state_root,
                    ) || g.status != GuaranteeStatus::Available || g.valid_until < now {
                        Some(AethelError::MismatchedArtifact)
                    } else {
                        None
                    }
                },
            }
        }
    }
}

impl AethelBook {
    fn ensure_operation_unused(&self, operation_id: &Identifier) -> (r: Result<(), AethelError>)
        ensures
            r is Ok <==> self@.op_available(*operation_id),
            r matches Err(e) ==> e == AethelError::Replay,
    {
        if is_zero_id(operation_id) || contains_id(&self.used_operations, operation_id) {
            return Err(AethelError::Replay);
        }
        Ok(())
    }

    fn active_provider(&self, provider_id: &Identifier, capability: ProviderCapability, now: u64) -> (r:
        Result<usize, AethelError>)
        ensures
            match self@.active_provider_error(*provider_id, capability, now) {
                Some(e) => r == Err::<usize, AethelError>(e),
                None => r matches Ok(i) && i as int == self@.provider_index(*provider_id),
            },
            r matches Ok(i) ==> i < self.providers@.len(),
    {
        reveal(BookState::active_provider_error);
        let i = match self.find_provider_index(provider_id) {
            Some(i) => i,
            None => return Err(AethelError::UnknownProvider),
        };
        if !self.providers[i].has(capability, now) {
            return Err(AethelError::MissingProviderCapability);
        }
        Ok(i)
    }

    fn verify_new(&self, pi: usize, statement: &Commitment, signature: &[u8]) -> (r: Result<(), AethelError>)
        requires
            pi < self.providers@.len(),
        ensures
            match new_signature_error(self.providers@[pi as int], statement@, signature@) {
                Some(e) => r == Err::<(), AethelError>(e),
                None => r is Ok,
            },
    {
        reveal(new_signature_error);
        match self.providers[pi].verify_new_signature(statement, signature) {
            Ok(()) => Ok(()),
            Err(e) => Err(aethel_error(e)),
        }
    }

    fn ensure_series_state(&self, series_id: &Identifier, version: u64, root: &Commitment, now: u64) -> (r:
        Result<usize, AethelError>)
        ensures
            match self@.series_state_error(*series_id, version, *root, now) {
                Some(e) => r == Err::<usize, AethelError>(e),
                None => r matches Ok(i) && i as int == self@.stream_index(
                    self@.series[self@.series_index(*series_id)].stream_id,
                ),
            },
            r matches Ok(i) ==> i < self.streams@.len() && self@.series_index(*series_id) >= 0,
    {
        reveal(BookState::series_state_error);
        let si = match self.find_series(series_id) {
            Some(i) => i,
            None => return Err(AethelError::UnknownSeries),
        };
        let series = &self.series[si];
        if !matches!(series.status, ReceivableStatus::Active) || now < series.valid_from || now
            > series.maturity {
            return Err(AethelError::SeriesUnavailable);
        }
        let ti = match self.find_stream(&series.stream_id) {
            Some(i) => i,
            None => return Err(AethelError::UnknownStream),
        };
        let st = &self.streams[ti].state;
        if st.version != version {
            return Err(AethelError::StaleStreamState);
        }
        let current = match st.root() {
            Ok(d) => d,
            Err(e) => return Err(e),
        };
        proof {
            lemma_id_of(current);
            lemma_id_of(*root);
        }
        if !same_id(&current, root) {
            return Err(AethelError::StaleStreamState);
        }
        Ok(ti)
    }

    fn reservation_taken(&self, reservation_id: &Identifier) -> (r: bool)
        ensures
            r == self@.reservation_taken(*reservation_id),
    {
        let mut i: usize = 0;
        while i < self.funding_quotes.len()
            invariant
                i <= self.funding_quotes@.len(),
                forall|j: int|
                    0 <= j < i ==> (#[trigger] self.funding_quotes@[j]).cash_reservation_id
                        != *reservation_id,
            decreases self.funding_quotes@.len() - i,
        {
            if same_id(&self.funding_quotes[i].cash_reservation_id, reservation_id) {
                return true;
            }
            i = i + 1;
        }
        false
    }

    fn check_decision_link(
        &self,
        decision_id: &Option<Identifier>,
        request_id: &Identifier,
        series_id: &Identifier,
        version: u64,
        root: &Commitment,
        now: u64,
    ) -> (r: Result<(), AethelError>)
        ensures
            match self@.decision_link_error(*decision_id, *request_id, *series_id, version, *root, now) {
                Some(e) => r == Err::<(), AethelError>(e),
                None => r is Ok,
            },
    {
        reveal(BookState::decision_link_error);
        match decision_id {
            None => Ok(()),
            Some(id) => {
                let di = match self.find_decision(id) {
                    Some(i) => i,
                    None => return Err(AethelError::UnknownCreditDecision),
                };
                let d = &self.credit_decisions[di];
                if !same_request_state(
                    d.request_id,
                    d.series_id,
                    d.stream_state_version,
                    d.stream_state_root,
                    *request_id,
                    *series_id,
                    version,
                    *root,
                ) || d.valid_until < now {
                    return Err(AethelError::MismatchedArtifact);
                }
                Ok(())
            },
        }
    }

    fn check_quote_links(&self, q: &FundingQuote, now: u64) -> (r: Result<(), AethelError>)
        ensures
            match self@.quote_links_error(*q, now) {
                Some(e) => r == Err::<(), AethelError>(e),
                None => r is Ok,
            },
    {
        reveal(BookState::quote_links_error);
        match self.check_decision_link(
            &q.credit_decision_id,
            &q.request_id,
            &q.series_id,
            q.stream_state_version,
            &q.stream_state_root,
            now,
        ) {
            Ok(()) => {},
            Err(e) => return Err(e),
        }
        match &q.guarantee_id {
            None => Ok(()),
            Some(id) => {
                let gi = match self.find_guarantee(id) {
                    Some(i) => i,
                    None => return Err(AethelError::UnknownGuarantee),
                };
                let g = &self.guarantees[gi];
                if !same_request_state(
                    g.request_id,
                    g.series_id,
                    g.stream_state_version,
                    g.stream_state_root,
                    q.request_id,
                    q.series_id,
                    q.stream_state_version,
                    q.stream_state_root,
                ) || !matches!(g.status, GuaranteeStatus::Available) || g.valid_until < now {
                    return Err(AethelError::MismatchedArtifact);
                }
                Ok(())
            },
        }
    }

    fn check_funding_quote(&self, q: &FundingQuote, statement: &Commitment, now: u64) -> (r: Result<
        (),
        AethelError,
    >)
        ensures
            match self@.funding_quote_error(*q, statement@, now) {
                Some(e) => r == Err::<(), AethelError>(e),
                None => r is Ok,
            },
    {
        reveal(BookState::funding_quote_error);
        let pi = match self.active_provider(&q.provider_id, ProviderCapability::LiquidityProvider, now) {
            Ok(i) => i,
            Err(e) => return Err(e),
        };
        match self.verify_new(pi, statement, q.signature.as_slice()) {
            Ok(()) => {},
            Err(e) => return Err(e),
        }
        let ti = match self.ensure_series_state(
            &q.series_id,
            q.stream_state_version,
            &q.stream_state_root,
            now,
        ) {
            Ok(i) => i,
            Err(e) => return Err(e),
        };
        let si = match self.find_series(&q.series_id) {
            Some(i) => i,
            None => return Err(AethelError::UnknownSeries),
        };
        if !same_id(&q.cash_asset_id, &self.streams[ti].state.settlement_asset_id) || q.valid_until
            < now || q.valid_until > self.providers[pi].valid_until || q.valid_until
            > self.series[si].maturity || self.reservation_taken(&q.cash_reservation_id) {
            return Err(AethelError::InvalidFundingQuote);
        }
        match self.check_quote_links(q, now) {
            Ok(()) => {},
            Err(e) => return Err(e),
        }
        match self.ensure_operation_unused(&q.operation_id) {
            Ok(()) => {},
            Err(e) => return Err(e),
        }
        if self.find_quote(&q.quote_id).is_some() || contains_pair(
            &self.used_provider_nonces,
            &q.provider_id,
            &q.nonce,
        ) {
            return Err(AethelError::Replay);
        }
        Ok(())
    }

    /// Records a liquidity provider's signed funding quote for a request
    /// against the current stream state of an available series.
    pub fn record_funding_quote(&mut self, quote: FundingQuote, now: u64) -> (r: Result<Commitment, AethelError>)
        ensures
            !quote.well_formed() ==> r == Err::<Commitment, AethelError>(
                AethelError::InvalidFundingQuote,
            ),
            quote.well_formed() ==> match old(self)@.funding_quote_error(
                quote,
                quote.spec_statement(),
                now,
            ) {
                Some(e) => r == Err::<Commitment, AethelError>(e),
                None => r matches Ok(d) && d@ == quote.spec_statement(),
            },
            r is Ok ==> final(self)@ == old(self)@.after_quote(quote),
            r is Err ==> final(self)@ == old(self)@,
    {
        let statement = match quote.statement() {
            Ok(d) => d,
            Err(e) => return Err(aethel_error(e)),
        };
        match self.check_funding_quote(&quote, &statement, now) {
            Ok(()) => {},
            Err(e) => return Err(e),
        }
        let operation_id = quote.operation_id;
        let nonce = (quote.provider_id, quote.nonce);
        self.funding_quotes.push(quote);
        self.used_operations.push(operation_id);
        self.used_provider_nonces.push(nonce);
        Ok(statement)
    }
}

/// The guarantee bound to an issuance.
pub open spec fn bound_guarantee(g: GuaranteeCommitment, issuance_id: Identifier) -> GuaranteeCommitment {
    GuaranteeCommitment { status: GuaranteeStatus::Bound, bound_issuance_id: Some(issuance_id), ..g }
}

/// The funding quote bound to an issuance.
pub open spec fn bound_quote(q: FundingQuote, issuance_id: Identifier) -> FundingQuote {
    FundingQuote { bound_issuance_id: Some(issuance_id), ..q }
}

/// The stream state after an issuance pledges part of it.
pub open spec fn pledged_state(st: StreamState, after_pledged: Commitment) -> StreamState {
    StreamState { version: (st.version + 1) as u64, pledged_commitment: after_pledged, ..st }
}

impl BookState {
    /// Why the provider artifacts an issuance names do not back it at `now`,
    /// if they do not: an artifact the series requires is missing; the
    /// credit decision, guarantee, or funding quote is unknown, describes
    /// another request or stream state, has expired, is no longer available,
    /// or links other artifacts than the issuance.
    #[verifier::opaque]
    pub open spec fn issuance_artifacts_error(
        self,
        iss: ReceivableIssuance,
        series: ReceivableSeries,
        now: u64,
    ) -> Option<AethelError> {
        let d = self.decision_link_error(
            iss.credit_decision_id,
            iss.request_id,
            iss.series_id,
            iss.before_stream_state_version,
            iss.before_stream_state_root,
            now,
        );
        if (series.policy.requires_credit_decision && iss.credit_decision_id is None) || (
        series.policy.requires_guarantee && iss.guarantee_id is None) || (
        series.policy.requires_funding_reservation && iss.funding_quote_id is None) {
            Some(AethelError::MissingRequiredArtifact)
        } else if d is Some {
            d
        } else if iss.guarantee_id is Some && self.guarantee_index(iss.guarantee_id->0) < 0 {
            Some(AethelError::UnknownGuarantee)
        } else if iss.guarantee_id is Some && ({
            let g = self.guarantees[self.guarantee_index(iss.guarantee_id->0)];
            !spec_same_request_state(
                g.request_id,
                g.series_id,
                g.stream_state_version,
                g.stream_state_root,
                iss.request_id,
                iss.series_id,
                iss.before_stream_state_version,
                iss.before_stream_state_root,
            ) || g.status != GuaranteeStatus::Available || g.valid_until < now
                || g.credit_decision_id != iss.credit_decision_id
        }) {
            Some(AethelError::MismatchedArtifact)
        } else if iss.funding_quote_id is Some && self.quote_index(iss.funding_quote_id->0) < 0 {
            Some(AethelError::UnknownFundingQuote)
        } else if iss.funding_quote_id is Some && ({
            let q = self.funding_quotes[self.quote_index(iss.funding_quote_id->0)];
            !spec_same_request_state(
                q.request_id,
                q.series_id,
                q.stream_state_version,
                q.stream_state_root,
                iss.request_id,
                iss.series_id,
                iss.before_stream_state_version,
                iss.before_stream_state_root,
            ) || q.bound_issuance_id is Some || q.valid_until < now || q.credit_decision_id
                != iss.credit_decision_id || q.guarantee_id != iss.guarantee_id
        }) {
            Some(AethelError::MismatchedArtifact)
        } else {
            None
        }
    }

    /// Whether an issuance already uses the note.
    pub open spec fn note_taken(self, note_id: Identifier) -> bool {
        exists|i: int| 0 <= i < self.issuances.len() && (#[trigger] self.issuances[i]).note_id == note_id
    }

    /// Why a well-formed issuance cannot be recorded at `now`, if it cannot,
    /// in the order the checks run.
    #[verifier::opaque]
    pub open spec fn issue_error(self, iss: ReceivableIssuance, now: u64) -> Option<AethelError> {
        let si = self.series_index(iss.series_id);
        let series = self.series[si];
        let ti = self.stream_index(series.stream_id);
        let st = self.streams[ti].state;
        if iss.issued_at != now {
            Some(AethelError::InvalidIssuance)
        } else if !self.op_available(iss.operation_id) {
            Some(AethelError::Replay)
        } else if self.issuance_index(iss.issuance_id) >= 0 || self.note_taken(iss.note_id)
            || self.used_allocation_nullifiers.contains(iss.allocation_nullifier) {
            Some(AethelError::DuplicateIssuance)
        } else if si < 0 {
            Some(AethelError::UnknownSeries)
        } else if series.status != ReceivableStatus::Active || now > series.maturity {
            Some(AethelError::SeriesUnavailable)
        } else if ti < 0 {
            Some(AethelError::UnknownStream)
        } else if stale_state_error(st, iss.before_stream_state_version, iss.before_stream_state_root) is Some {
            stale_state_error(st, iss.before_stream_state_version, iss.before_stream_state_root)
        } else if self.issuance_artifacts_error(iss, series, now) is Some {
            self.issuance_artifacts_error(iss, series, now)
        } else if st.status == StreamStatus::Cancelled || st.status == StreamStatus::Defaulted
            || st.status == StreamStatus::Closed {
            Some(AethelError::StreamUnavailable)
        } else if st.version == u64::MAX {
            Some(AethelError::ArithmeticOverflow)
        } else {
            None
        }
    }

    /// The book after recording an issuance: the stream pledged at its next
    /// version, the guarantee and funding quote bound to the issuance, the
    /// allocation nullifier and operation consumed, and the issuance stored.
    pub open spec fn after_issue(self, iss: ReceivableIssuance) -> BookState {
        let ti = self.stream_index(self.series[self.series_index(iss.series_id)].stream_id);
        let t = self.streams[ti];
        BookState {
            streams: self.streams.update(
                ti,
                RegisteredStream {
                    state: pledged_state(t.state, iss.after_pledged_commitment),
                    ..t
                },
            ),
            guarantees: match iss.guarantee_id {
                Some(id) => self.guarantees.update(
                    self.guarantee_index(id),
                    bound_guarantee(self.guarantees[self.guarantee_index(id)], iss.issuance_id),
                ),
                None => self.guarantees,
            },
            funding_quotes: match iss.funding_quote_id {
                Some(id) => self.funding_quotes.update(
                    self.quote_index(id),
                    bound_quote(self.funding_quotes[self.quote_index(id)], iss.issuance_id),
                ),
                None => self.funding_quotes,
            },
            used_allocation_nullifiers: self.used_allocation_nullifiers.push(
                iss.allocation_nullifier,
            ),
            issuances: self.issuances.push(iss),
            used_operations: self.used_operations.push(iss.operation_id),
            ..self
        }
    }
}

/// What an accepted issuance finds in the book: its series and stream, the
/// guarantee and funding quote it names, and a stream that can take the
/// pledge.
proof fn lemma_issue_accepted(s: BookState, iss: ReceivableIssuance, now: u64)
    requires
        s.issue_error(iss, now) is None,
    ensures
        s.series_index(iss.series_id) >= 0,
        s.stream_index(s.series[s.series_index(iss.series_id)].stream_id) >= 0,
        iss.guarantee_id matches Some(id) ==> s.guarantee_index(id) >= 0,
        iss.funding_quote_id matches Some(id) ==> s.quote_index(id) >= 0,
        ({
            let st = s.series_stream_state(iss.series_id);
            &&& st.status != StreamStatus::Cancelled
            &&& st.status != StreamStatus::Defaulted
            &&& st.status != StreamStatus::Closed
            &&& st.version < u64::MAX
        }),
{
    reveal(BookState::issue_error);
    reveal(BookState::issuance_artifacts_error);
}

impl AethelBook {
    fn note_taken(&self, note_id: &Identifier) -> (r: bool)
        ensures
            r == self@.note_taken(*note_id),
    {
        let mut i: usize = 0;
        while i < self.issuances.len()
            invariant
                i <= self.issuances@.len(),
                forall|j: int| 0 <= j < i ==> (#[trigger] self.issuances@[j]).note_id != *note_id,
            decreases self.issuances@.len() - i,
        {
            if same_id(&self.issuances[i].note_id, note_id) {
                return true;
            }
            i = i + 1;
        }
        false
    }

    fn validate_issuance_artifacts(
        &self,
        issuance: &ReceivableIssuance,
        series: &ReceivableSeries,
        now: u64,
    ) -> (r: Result<(), AethelError>)
        ensures
            match self@.issuance_artifacts_error(*issuance, *series, now) {
                Some(e) => r == Err::<(), AethelError>(e),
                None => r is Ok,
            },
    {
        reveal(BookState::issuance_artifacts_error);
        if (series.policy.requires_credit_decision && issuance.credit_decision_id.is_none()) || (
        series.policy.requires_guarantee && issuance.guarantee_id.is_none()) || (
        series.policy.requires_funding_reservation && issuance.funding_quote_id.is_none()) {
            return Err(AethelError::MissingRequiredArtifact);
        }
        match self.check_decision_link(
            &issuance.credit_decision_id,
            &issuance.request_id,
            &issuance.series_id,
            issuance.before_stream_state_version,
            &issuance.before_stream_state_root,
            now,
        ) {
            Ok(()) => {},
            Err(e) => return Err(e),
        }
        if let Some(id) = &issuance.guarantee_id {
            let gi = match self.find_guarantee(id) {
                Some(i) => i,
                None => return Err(AethelError::UnknownGuarantee),
            };
            let g = &self.guarantees[gi];
            if !same_request_state(
                g.request_id,
                g.series_id,
                g.stream_state_version,
                g.stream_state_root,
                issuance.request_id,
                issuance.series_id,
                issuance.before_stream_state_version,
                issuance.before_stream_state_root,
            ) || !matches!(g.status, GuaranteeStatus::Available) || g.valid_until < now
                || !same_opt_id(&g.credit_decision_id, &issuance.credit_decision_id) {
                return Err(AethelError::MismatchedArtifact);
            }
        }
        if let Some(id) = &issuance.funding_quote_id {
            let qi = match self.find_quote(id) {
                Some(i) => i,
                None => return Err(AethelError::UnknownFundingQuote),
            };
            let q = &self.funding_quotes[qi];
            if !same_request_state(
                q.request_id,
                q.series_id,
                q.stream_state_version,
                q.stream_state_root,
                issuance.request_id,
                issuance.series_id,
                issuance.before_stream_state_version,
                issuance.before_stream_state_root,
            ) || q.bound_issuance_id.is_some() || q.valid_until < now || !same_opt_id(
                &q.credit_decision_id,
                &issuance.credit_decision_id,
            ) || !same_opt_id(&q.guarantee_id, &issuance.guarantee_id) {
                return Err(AethelError::MismatchedArtifact);
            }
        }
        Ok(())
    }

    fn check_issuance(&self, iss: &ReceivableIssuance, now: u64) -> (r: Result<(), AethelError>)
        ensures
            match self@.issue_error(*iss, now) {
                Some(e) => r == Err::<(), AethelError>(e),
                None => r is Ok,
            },
    {
        reveal(BookState::issue_error);
        if iss.issued_at != now {
            return Err(AethelError::InvalidIssuance);
        }
        match self.ensure_operation_unused(&iss.operation_id) {
            Ok(()) => {},
            Err(e) => return Err(e),
        }
        if self.find_issuance(&iss.issuance_id).is_some() || self.note_taken(&iss.note_id)
            || contains_id(&self.used_allocation_nullifiers, &iss.allocation_nullifier) {
            return Err(AethelError::DuplicateIssuance);
        }
        let si = match self.find_series(&iss.series_id) {
            Some(i) => i,
            None => return Err(AethelError::UnknownSeries),
        };
        let series = &self.series[si];
        if !matches!(series.status, ReceivableStatus::Active) || now > series.maturity {
            return Err(AethelError::SeriesUnavailable);
        }
        let ti = match self.find_stream(&series.stream_id) {
            Some(i) => i,
            None => return Err(AethelError::UnknownStream),
        };
        let st = &self.streams[ti].state;
        if st.version != iss.before_stream_state_version {
            return Err(AethelError::StaleStreamState);
        }
        let current = match st.root() {
            Ok(d) => d,
            Err(e) => return Err(e),
        };
        proof {
            lemma_id_of(current);
            lemma_id_of(iss.before_stream_state_root);
        }
        if !same_id(&current, &iss.before_stream_state_root) {
            return Err(AethelError::StaleStreamState);
        }
        match self.validate_issuance_artifacts(iss, series, now) {
            Ok(()) => {},
            Err(e) => return Err(e),
        }
        match st.valid_issuance_successor(iss.after_pledged_commitment) {
            Ok(_) => {},
            Err(e) => return Err(e),
        }
        Ok(())
    }

    fn set_stream_state(&mut self, i: usize, state: StreamState)
        requires
            i < old(self).streams@.len(),
        ensures
            final(self)@ == (BookState {
                streams: old(self)@.streams.update(
                    i as int,
                    RegisteredStream { state, ..old(self)@.streams[i as int] },
                ),
                ..old(self)@
            }),
    {
        let attestor_provider_id = self.streams[i].attestor_provider_id;
        self.streams.set(i, RegisteredStream { attestor_provider_id, state });
    }

    fn bind_guarantee(&mut self, i: usize, issuance_id: Identifier)
        requires
            i < old(self).guarantees@.len(),
        ensures
            final(self)@ == (BookState {
                guarantees: old(self)@.guarantees.update(
                    i as int,
                    bound_guarantee(old(self)@.guarantees[i as int], issuance_id),
                ),
                ..old(self)@
            }),
    {
        let mut g = self.guarantees.remove(i);
        g.status = GuaranteeStatus::Bound;
        g.bound_issuance_id = Some(issuance_id);
        self.guarantees.insert(i, g);
        proof {
            assert(self.guarantees@ =~= old(self).guarantees@.update(
                i as int,
                bound_guarantee(old(self).guarantees@[i as int], issuance_id),
            ));
        }
    }

    fn bind_quote(&mut self, i: usize, issuance_id: Identifier)
        requires
            i < old(self).funding_quotes@.len(),
        ensures
            final(self)@ == (BookState {
                funding_quotes: old(self)@.funding_quotes.update(
                    i as int,
                    bound_quote(old(self)@.funding_quotes[i as int], issuance_id),
                ),
                ..old(self)@
            }),
    {
        let mut q = self.funding_quotes.remove(i);
        q.bound_issuance_id = Some(issuance_id);
        self.funding_quotes.insert(i, q);
        proof {
            assert(self.funding_quotes@ =~= old(self).funding_quotes@.update(
                i as int,
                bound_quote(old(self).funding_quotes@[i as int], issuance_id),
            ));
        }
    }

    /// Records a one-use receivable issuance: the series must be available,
    /// the stream state current, and every artifact the series requires
    /// present and describing the same request; the stream then moves to its
    /// next version with the new pledge, and the guarantee and funding quote
    /// are bound to the issuance.
    pub fn issue_receivable(&mut self, issuance: ReceivableIssuance, now: u64) -> (r: Result<
        Commitment,
        AethelError,
    >)
        ensures
            !issuance.well_formed() ==> r == Err::<Commitment, AethelError>(
                AethelError::InvalidIssuance,
            ),
            issuance.well_formed() ==> match old(self)@.issue_error(issuance, now) {
                Some(e) => r == Err::<Commitment, AethelError>(e),
                None => r matches Ok(d) && d@ == issuance.spec_statement(),
            },
            r is Ok ==> final(self)@ == old(self)@.after_issue(issuance),
            r is Err ==> final(self)@ == old(self)@,
    {
        let statement = match issuance.statement() {
            Ok(d) => d,
            Err(e) => return Err(e),
        };
        match self.check_issuance(&issuance, now) {
            Ok(()) => {},
            Err(e) => return Err(e),
        }
        proof {
            lemma_issue_accepted(self@, issuance, now);
        }
        let ghost s0 = self@;
        let si = match self.find_series(&issuance.series_id) {
            Some(i) => i,
            None => return Err(AethelError::UnknownSeries),
        };
        let ti = match self.find_stream(&self.series[si].stream_id) {
            Some(i) => i,
            None => return Err(AethelError::UnknownStream),
        };
        let next = match self.streams[ti].state.valid_issuance_successor(
            issuance.after_pledged_commitment,
        ) {
            Ok(st) => st,
            Err(e) => return Err(e),
        };
        self.set_stream_state(ti, next);
        if let Some(id) = &issuance.guarantee_id {
            match self.find_guarantee(id) {
                Some(gi) => self.bind_guarantee(gi, issuance.issuance_id),
                None => {},
            }
        }
        if let Some(id) = &issuance.funding_quote_id {
            match self.find_quote(id) {
                Some(qi) => self.bind_quote(qi, issuance.issuance_id),
                None => {},
            }
        }
        self.used_allocation_nullifiers.push(issuance.allocation_nullifier);
        let operation_id = issuance.operation_id;
        self.issuances.push(issuance);
        self.used_operations.push(operation_id);
        proof {
            assert(self@.streams =~= s0.after_issue(issuance).streams);
            assert(self@.guarantees =~= s0.after_issue(issuance).guarantees);
            assert(self@.funding_quotes =~= s0.after_issue(issuance).funding_quotes);
        }
        Ok(statement)
    }
}

impl BookState {
    /// Why the anonymous line of the request does not back an artifact valid
    /// until `valid_until`, if it does not: the series wants a bound subject
    /// and there is none, or the bound subject was verified under another
    /// eligibility policy or expires first.
    #[verifier::opaque]
    pub open spec fn subject_binding_error(
        self,
        series_id: Identifier,
        request_id: Identifier,
        valid_until: u64,
    ) -> Option<AethelError> {
        let si = self.series_index(series_id);
        let series = self.series[si];
        let bi = self.binding_index(request_id);
        if si < 0 {
            Some(AethelError::UnknownSeries)
        } else if series.policy.requires_confidential_subject && bi < 0 {
            Some(AethelError::MissingConfidentialSubject)
        } else if bi >= 0 && (self.confidential_subjects[bi].policy_digest
            != series.policy.eligibility_policy_digest || self.confidential_subjects[bi].valid_until
            < valid_until) {
            Some(AethelError::MismatchedConfidentialSubject)
        } else {
            None
        }
    }

    /// Why a well-formed credit decision with this statement cannot be
    /// recorded at `now`, if it cannot, in the order the checks run.
    #[verifier::opaque]
    pub open spec fn credit_decision_error(self, d: CreditDecision, statement: Seq<u8>, now: u64) -> Option<
        AethelError,
    > {
        let p = self.providers[self.provider_index(d.provider_id)];
        let series = self.series[self.series_index(d.series_id)];
        if self.active_provider_error(d.provider_id, ProviderCapability::CreditAssessor, now) is Some {
            self.active_provider_error(d.provider_id, ProviderCapability::CreditAssessor, now)
        } else if new_signature_error(p, statement, d.signature@) is Some {
            new_signature_error(p, statement, d.signature@)
        } else if self.series_state_error(
            d.series_id,
            d.stream_state_version,
            d.stream_state_root,
            now,
        ) is Some {
            self.series_state_error(d.series_id, d.stream_state_version, d.stream_state_root, now)
        } else if d.valid_until < now || d.valid_until > p.valid_until || d.valid_until
            > series.maturity {
            Some(AethelError::OutsideValidityWindow)
        } else if self.subject_binding_error(d.series_id, d.request_id, d.valid_until) is Some {
            self.subject_binding_error(d.series_id, d.request_id, d.valid_until)
        } else if !self.op_available(d.operation_id) || self.decision_index(d.decision_id) >= 0
            || self.nonce_used(d.provider_id, d.nonce) {
            Some(AethelError::Replay)
        } else {
            None
        }
    }

    /// Whether a recorded guarantee already uses the hold.
    pub open spec fn hold_taken(self, hold_id: Identifier) -> bool {
        exists|i: int| 0 <= i < self.guarantees.len() && (#[trigger] self.guarantees[i]).defmi_hold_id == hold_id
    }

    /// Why a well-formed guarantee with this statement cannot be recorded at
    /// `now`, if it cannot, in the order the checks run.
    #[verifier::opaque]
    pub open spec fn guarantee_error(self, g: GuaranteeCommitment, statement: Seq<u8>, now: u64) -> Option<
        AethelError,
    > {
        let p = self.providers[self.provider_index(g.provider_id)];
        let series = self.series[self.series_index(g.series_id)];
        let link = self.decision_link_error(
            g.credit_decision_id,
            g.request_id,
            g.series_id,
            g.stream_state_version,
            g.stream_state_root,
            now,
        );
        if self.active_provider_error(g.provider_id, ProviderCapability::Guarantor, now) is Some {
            self.active_provider_error(g.provider_id, ProviderCapability::Guarantor, now)
        } else if new_signature_error(p, statement, g.signature@) is Some {
            new_signature_error(p, statement, g.signature@)
        } else if self.series_state_error(
            g.series_id,
            g.stream_state_version,
            g.stream_state_root,
            now,
        ) is Some {
            self.series_state_error(g.series_id, g.stream_state_version, g.stream_state_root, now)
        } else if g.valid_until < now || g.valid_until > p.valid_until || g.valid_until
            > series.maturity || self.hold_taken(g.defmi_hold_id) {
            Some(AethelError::InvalidGuarantee)
        } else if link is Some {
            link
        } else if self.subject_binding_error(g.series_id, g.request_id, g.valid_until) is Some {
            self.subject_binding_error(g.series_id, g.request_id, g.valid_until)
        } else if !self.op_available(g.operation_id) || self.guarantee_index(g.guarantee_id) >= 0
            || self.nonce_used(g.provider_id, g.nonce) {
            Some(AethelError::Replay)
        } else {
            None
        }
    }
}

impl AethelBook {
    fn check_subject_binding(&self, series_id: &Identifier, request_id: &Identifier, valid_until: u64) -> (r:
        Result<(), AethelError>)
        ensures
            match self@.subject_binding_error(*series_id, *request_id, valid_until) {
                Some(e) => r == Err::<(), AethelError>(e),
                None => r == Ok::<(), AethelError>(()),
            },
    {
        reveal(BookState::subject_binding_error);
        let si = match self.find_series(series_id) {
            Some(i) => i,
            None => return Err(AethelError::UnknownSeries),
        };
        let policy = &self.series[si].policy;
        match self.find_binding(request_id) {
            None => {
                if policy.requires_confidential_subject {
                    return Err(AethelError::MissingConfidentialSubject);
                }
            },
            Some(bi) => {
                let b = &self.confidential_subjects[bi];
                if !same_id(&b.policy_digest, &policy.eligibility_policy_digest) || b.valid_until
                    < valid_until {
                    return Err(AethelError::MismatchedConfidentialSubject);
                }
            },
        }
        Ok(())
    }

    fn hold_taken(&self, hold_id: &Identifier) -> (r: bool)
        ensures
            r == self@.hold_taken(*hold_id),
    {
        let mut i: usize = 0;
        while i < self.guarantees.len()
            invariant
                i <= self.guarantees@.len(),
                forall|j: int| 0 <= j < i ==> (#[trigger] self.guarantees@[j]).defmi_hold_id != *hold_id,
            decreases self.guarantees@.len() - i,
        {
            if same_id(&self.guarantees[i].defmi_hold_id, hold_id) {
                return true;
            }
            i = i + 1;
        }
        false
    }

    fn check_credit_decision(&self, d: &CreditDecision, statement: &Commitment, now: u64) -> (r: Result<
        (),
        AethelError,
    >)
        ensures
            match self@.credit_decision_error(*d, statement@, now) {
                Some(e) => r == Err::<(), AethelError>(e),
                None => r is Ok,
            },
    {
        reveal(BookState::credit_decision_error);
        let pi = match self.active_provider(&d.provider_id, ProviderCapability::CreditAssessor, now) {
            Ok(i) => i,
            Err(e) => return Err(e),
        };
        match self.verify_new(pi, statement, d.signature.as_slice()) {
            Ok(()) => {},
            Err(e) => return Err(e),
        }
        match self.ensure_series_state(&d.series_id, d.stream_state_version, &d.stream_state_root, now) {
            Ok(_) => {},
            Err(e) => return Err(e),
        }
        let si = match self.find_series(&d.series_id) {
            Some(i) => i,
            None => return Err(AethelError::UnknownSeries),
        };
        if d.valid_until < now || d.valid_until > self.providers[pi].valid_until || d.valid_until
            > self.series[si].maturity {
            return Err(AethelError::OutsideValidityWindow);
        }
        match self.check_subject_binding(&d.series_id, &d.request_id, d.valid_until) {
            Ok(()) => {},
            Err(e) => return Err(e),
        }
        match self.ensure_operation_unused(&d.operation_id) {
            Ok(()) => {},
            Err(e) => return Err(e),
        }
        if self.find_decision(&d.decision_id).is_some() || contains_pair(
            &self.used_provider_nonces,
            &d.provider_id,
            &d.nonce,
        ) {
            return Err(AethelError::Replay);
        }
        Ok(())
    }

    /// Records a credit assessor's signed decision for a request against the
    /// current stream state of an available series.
    pub fn record_credit_decision(&mut self, decision: CreditDecision, now: u64) -> (r: Result<
        Commitment,
        AethelError,
    >)
        ensures
            !decision.well_formed() ==> r == Err::<Commitment, AethelError>(
                AethelError::InvalidCreditDecision,
            ),
            decision.well_formed() ==> match old(self)@.credit_decision_error(
                decision,
                decision.spec_statement(),
                now,
            ) {
                Some(e) => r == Err::<Commitment, AethelError>(e),
                None => r matches Ok(d) && d@ == decision.spec_statement(),
            },
            r is Ok ==> final(self)@ == old(self)@.after_decision(decision),
            r is Err ==> final(self)@ == old(self)@,
    {
        let statement = match decision.statement() {
            Ok(d) => d,
            Err(e) => return Err(aethel_error(e)),
        };
        match self.check_credit_decision(&decision, &statement, now) {
            Ok(()) => {},
            Err(e) => return Err(e),
        }
        let operation_id = decision.operation_id;
        let nonce = (decision.provider_id, decision.nonce);
        self.credit_decisions.push(decision);
        self.used_operations.push(operation_id);
        self.used_provider_nonces.push(nonce);
        Ok(statement)
    }

    fn check_guarantee(&self, g: &GuaranteeCommitment, statement: &Commitment, now: u64) -> (r: Result<
        (),
        AethelError,
    >)
        ensures
            match self@.guarantee_error(*g, statement@, now) {
                Some(e) => r == Err::<(), AethelError>(e),
                None => r is Ok,
            },
    {
        reveal(BookState::guarantee_error);
        let pi = match self.active_provider(&g.provider_id, ProviderCapability::Guarantor, now) {
            Ok(i) => i,
            Err(e) => return Err(e),
        };
        match self.verify_new(pi, statement, g.signature.as_slice()) {
            Ok(()) => {},
            Err(e) => return Err(e),
        }
        match self.ensure_series_state(&g.series_id, g.stream_state_version, &g.stream_state_root, now) {
            Ok(_) => {},
            Err(e) => return Err(e),
        }
        let si = match self.find_series(&g.series_id) {
            Some(i) => i,
            None => return Err(AethelError::UnknownSeries),
        };
        if g.valid_until < now || g.valid_until > self.providers[pi].valid_until || g.valid_until
            > self.series[si].maturity || self.hold_taken(&g.defmi_hold_id) {
            return Err(AethelError::InvalidGuarantee);
        }
        match self.check_decision_link(
            &g.credit_decision_id,
            &g.request_id,
            &g.series_id,
            g.stream_state_version,
            &g.stream_state_root,
            now,
        ) {
            Ok(()) => {},
            Err(e) => return Err(e),
        }
        match self.check_subject_binding(&g.series_id, &g.request_id, g.valid_until) {
            Ok(()) => {},
            Err(e) => return Err(e),
        }
        match self.ensure_operation_unused(&g.operation_id) {
            Ok(()) => {},
            Err(e) => return Err(e),
        }
        if self.find_guarantee(&g.guarantee_id).is_some() || contains_pair(
            &self.used_provider_nonces,
            &g.provider_id,
            &g.nonce,
        ) {
            return Err(AethelError::Replay);
        }
        Ok(())
    }

    /// Records a guarantor's signed commitment backed by a settlement-layer
    /// hold that no other guarantee uses.
    #[verifier::spinoff_prover]
    #[verifier::rlimit(30)]
    pub fn record_guarantee(&mut self, guarantee: GuaranteeCommitment, now: u64) -> (r: Result<
        Commitment,
        AethelError,
    >)
        ensures
            !guarantee.well_formed() ==> r == Err::<Commitment, AethelError>(
                AethelError::InvalidGuarantee,
            ),
            guarantee.well_formed() ==> match old(self)@.guarantee_error(
                guarantee,
                guarantee.spec_statement(),
                now,
            ) {
                Some(e) => r == Err::<Commitment, AethelError>(e),
                None => r matches Ok(d) && d@ == guarantee.spec_statement(),
            },
            r is Ok ==> final(self)@ == old(self)@.after_guarantee(guarantee),
            r is Err ==> final(self)@ == old(self)@,
    {
        let statement = match guarantee.statement() {
            Ok(d) => d,
            Err(e) => return Err(aethel_error(e)),
        };
        match self.check_guarantee(&guarantee, &statement, now) {
            Ok(()) => {},
            Err(e) => return Err(e),
        }
        let operation_id = guarantee.operation_id;
        let nonce = (guarantee.provider_id, guarantee.nonce);
        self.guarantees.push(guarantee);
        self.used_operations.push(operation_id);
        self.used_provider_nonces.push(nonce);
        Ok(statement)
    }
}

/// The guarantee with another status.
pub open spec fn guarantee_with_status(g: GuaranteeCommitment, status: GuaranteeStatus) -> GuaranteeCommitment {
    GuaranteeCommitment { status, ..g }
}

impl BookState {
    /// Why a well-formed release with this statement cannot be recorded at
    /// `now`, if it cannot: the guarantor is not active or did not sign it,
    /// it is not dated now, its operation is spent, the guarantee is unknown,
    /// belongs to another guarantor, is not available or is bound, or was
    /// already released.
    #[verifier::opaque]
    pub open spec fn release_error(self, rel: GuaranteeRelease, statement: Seq<u8>, now: u64) -> Option<
        AethelError,
    > {
        let p = self.providers[self.provider_index(rel.provider_id)];
        let gi = self.guarantee_index(rel.guarantee_id);
        let g = self.guarantees[gi];
        if self.active_provider_error(rel.provider_id, ProviderCapability::Guarantor, now) is Some {
            self.active_provider_error(rel.provider_id, ProviderCapability::Guarantor, now)
        } else if new_signature_error(p, statement, rel.signature@) is Some {
            new_signature_error(p, statement, rel.signature@)
        } else if rel.released_at != now {
            Some(AethelError::InvalidGuaranteeRelease)
        } else if !self.op_available(rel.operation_id) {
            Some(AethelError::Replay)
        } else if gi < 0 {
            Some(AethelError::UnknownGuarantee)
        } else if g.provider_id != rel.provider_id || g.status != GuaranteeStatus::Available
            || g.bound_issuance_id is Some {
            Some(AethelError::GuaranteeUnavailable)
        } else if self.release_index(rel.guarantee_id) >= 0 {
            Some(AethelError::Replay)
        } else {
            None
        }
    }

    /// Why a well-formed default attestation with this statement cannot be
    /// recorded at `now`, if it cannot: the servicer is not active or did not
    /// sign it, the stream is unknown, the attestation does not describe the
    /// stream's current defaulted state or is dated after `now`, or its
    /// operation or identifier is spent.
    #[verifier::opaque]
    pub open spec fn default_error(self, a: DefaultAttestation, statement: Seq<u8>, now: u64) -> Option<
        AethelError,
    > {
        let p = self.providers[self.provider_index(a.provider_id)];
        let ti = self.stream_index(a.stream_id);
        let st = self.streams[ti].state;
        if self.active_provider_error(a.provider_id, ProviderCapability::Servicer, now) is Some {
            self.active_provider_error(a.provider_id, ProviderCapability::Servicer, now)
        } else if new_signature_error(p, statement, a.signature@) is Some {
            new_signature_error(p, statement, a.signature@)
        } else if ti < 0 {
            Some(AethelError::UnknownStream)
        } else if st.version != a.stream_state_version {
            Some(AethelError::InvalidDefaultAttestation)
        } else if !st.spec_valid() {
            Some(AethelError::InvalidStream)
        } else if a.stream_state_root@ != state_root(st) || st.status != StreamStatus::Defaulted
            || a.observed_at > now {
            Some(AethelError::InvalidDefaultAttestation)
        } else if !self.op_available(a.operation_id) || self.default_index(a.attestation_id) >= 0
            || self.nonce_used(a.provider_id, a.attestation_id) {
            Some(AethelError::Replay)
        } else {
            None
        }
    }

    /// Why a well-formed claim cannot be recorded at `now`, if it cannot:
    /// not dated now or already recorded, its operation is spent, the
    /// guarantee is unknown or not bound to the claimed issuance while live,
    /// the issuance, its series, or the default attestation is unknown, or
    /// the default is not the series' stream's.
    #[verifier::opaque]
    pub open spec fn claim_error(self, c: GuaranteeClaim, now: u64) -> Option<AethelError> {
        let gi = self.guarantee_index(c.guarantee_id);
        let g = self.guarantees[gi];
        let ii = self.issuance_index(c.issuance_id);
        let si = self.series_index(self.issuances[ii].series_id);
        let di = self.default_index(c.default_attestation_id);
        if c.claimed_at != now || self.claim_index(c.claim_id) >= 0 {
            Some(AethelError::InvalidGuaranteeClaim)
        } else if !self.op_available(c.operation_id) {
            Some(AethelError::Replay)
        } else if gi < 0 {
            Some(AethelError::UnknownGuarantee)
        } else if g.status != GuaranteeStatus::Bound || g.bound_issuance_id != Some(c.issuance_id)
            || g.valid_until < now {
            Some(AethelError::GuaranteeUnavailable)
        } else if ii < 0 {
            Some(AethelError::UnknownIssuance)
        } else if si < 0 {
            Some(AethelError::UnknownSeries)
        } else if di < 0 {
            Some(AethelError::UnknownDefaultAttestation)
        } else if self.default_attestations[di].stream_id != self.series[si].stream_id {
            Some(AethelError::MismatchedArtifact)
        } else {
            None
        }
    }
}

proof fn lemma_release_accepted(s: BookState, rel: GuaranteeRelease, statement: Seq<u8>, now: u64)
    requires
        s.release_error(rel, statement, now) is None,
    ensures
        s.guarantee_index(rel.guarantee_id) >= 0,
{
    reveal(BookState::release_error);
}

proof fn lemma_claim_accepted(s: BookState, c: GuaranteeClaim, now: u64)
    requires
        s.claim_error(c, now) is None,
    ensures
        s.guarantee_index(c.guarantee_id) >= 0,
{
    reveal(BookState::claim_error);
}

impl AethelBook {
    fn set_guarantee_status(&mut self, i: usize, status: GuaranteeStatus)
        requires
            i < old(self).guarantees@.len(),
        ensures
            final(self)@ == (BookState {
                guarantees: old(self)@.guarantees.update(
                    i as int,
                    guarantee_with_status(old(self)@.guarantees[i as int], status),
                ),
                ..old(self)@
            }),
    {
        let mut g = self.guarantees.remove(i);
        g.status = status;
        self.guarantees.insert(i, g);
        proof {
            assert(self.guarantees@ =~= old(self).guarantees@.update(
                i as int,
                guarantee_with_status(old(self).guarantees@[i as int], status),
            ));
        }
    }

    fn check_release(&self, rel: &GuaranteeRelease, statement: &Commitment, now: u64) -> (r: Result<
        (),
        AethelError,
    >)
        ensures
            match self@.release_error(*rel, statement@, now) {
                Some(e) => r == Err::<(), AethelError>(e),
                None => r is Ok,
            },
    {
        reveal(BookState::release_error);
        let pi = match self.active_provider(&rel.provider_id, ProviderCapability::Guarantor, now) {
            Ok(i) => i,
            Err(e) => return Err(e),
        };
        match self.verify_new(pi, statement, rel.signature.as_slice()) {
            Ok(()) => {},
            Err(e) => return Err(e),
        }
        if rel.released_at != now {
            return Err(AethelError::InvalidGuaranteeRelease);
        }
        match self.ensure_operation_unused(&rel.operation_id) {
            Ok(()) => {},
            Err(e) => return Err(e),
        }
        let gi = match self.find_guarantee(&rel.guarantee_id) {
            Some(i) => i,
            None => return Err(AethelError::UnknownGuarantee),
        };
        let g = &self.guarantees[gi];
        if !same_id(&g.provider_id, &rel.provider_id) || !matches!(g.status, GuaranteeStatus::Available)
            || g.bound_issuance_id.is_some() {
            return Err(AethelError::GuaranteeUnavailable);
        }
        if self.find_release(&rel.guarantee_id).is_some() {
            return Err(AethelError::Replay);
        }
        Ok(())
    }

    /// The guarantor withdraws a guarantee that no issuance has bound. A bound
    /// guarantee covers a live note and can only end through a claim.
    pub fn release_guarantee(&mut self, release: GuaranteeRelease, now: u64) -> (r: Result<
        Commitment,
        AethelError,
    >)
        ensures
            !release.well_formed() ==> r == Err::<Commitment, AethelError>(
                AethelError::InvalidGuaranteeRelease,
            ),
            release.well_formed() ==> match old(self)@.release_error(
                release,
                release.spec_statement(),
                now,
            ) {
                Some(e) => r == Err::<Commitment, AethelError>(e),
                None => r matches Ok(d) && d@ == release.spec_statement(),
            },
            r is Ok ==> final(self)@ == old(self)@.after_release(release),
            r is Err ==> final(self)@ == old(self)@,
    {
        let statement = match release.statement() {
            Ok(d) => d,
            Err(e) => return Err(aethel_error(e)),
        };
        match self.check_release(&release, &statement, now) {
            Ok(()) => {},
            Err(e) => return Err(e),
        }
        proof {
            lemma_release_accepted(self@, release, statement@, now);
        }
        let gi = match self.find_guarantee(&release.guarantee_id) {
            Some(i) => i,
            None => return Err(AethelError::UnknownGuarantee),
        };
        self.set_guarantee_status(gi, GuaranteeStatus::Released);
        let operation_id = release.operation_id;
        self.guarantee_releases.push(release);
        self.used_operations.push(operation_id);
        Ok(statement)
    }

    fn check_default(&self, a: &DefaultAttestation, statement: &Commitment, now: u64) -> (r: Result<
        (),
        AethelError,
    >)
        ensures
            match self@.default_error(*a, statement@, now) {
                Some(e) => r == Err::<(), AethelError>(e),
                None => r is Ok,
            },
    {
        reveal(BookState::default_error);
        let pi = match self.active_provider(&a.provider_id, ProviderCapability::Servicer, now) {
            Ok(i) => i,
            Err(e) => return Err(e),
        };
        match self.verify_new(pi, statement, a.signature.as_slice()) {
            Ok(()) => {},
            Err(e) => return Err(e),
        }
        let ti = match self.find_stream(&a.stream_id) {
            Some(i) => i,
            None => return Err(AethelError::UnknownStream),
        };
        let st = &self.streams[ti].state;
        if st.version != a.stream_state_version {
            return Err(AethelError::InvalidDefaultAttestation);
        }
        let current = match st.root() {
            Ok(d) => d,
            Err(e) => return Err(e),
        };
        proof {
            lemma_id_of(current);
            lemma_id_of(a.stream_state_root);
        }
        if !same_id(&current, &a.stream_state_root) || !matches!(st.status, StreamStatus::Defaulted)
            || a.observed_at > now {
            return Err(AethelError::InvalidDefaultAttestation);
        }
        match self.ensure_operation_unused(&a.operation_id) {
            Ok(()) => {},
            Err(e) => return Err(e),
        }
        if self.find_default(&a.attestation_id).is_some() || contains_pair(
            &self.used_provider_nonces,
            &a.provider_id,
            &a.attestation_id,
        ) {
            return Err(AethelError::Replay);
        }
        Ok(())
    }

    /// Records a servicer's signed observation that the stream defaulted, at
    /// its current state.
    pub fn record_default(&mut self, attestation: DefaultAttestation, now: u64) -> (r: Result<
        Commitment,
        AethelError,
    >)
        ensures
            !attestation.well_formed() ==> r == Err::<Commitment, AethelError>(
                AethelError::InvalidDefaultAttestation,
            ),
            attestation.well_formed() ==> match old(self)@.default_error(
                attestation,
                attestation.spec_statement(),
                now,
            ) {
                Some(e) => r == Err::<Commitment, AethelError>(e),
                None => r matches Ok(d) && d@ == attestation.spec_statement(),
            },
            r is Ok ==> final(self)@ == old(self)@.after_default(attestation),
            r is Err ==> final(self)@ == old(self)@,
    {
        let statement = match attestation.statement() {
            Ok(d) => d,
            Err(e) => return Err(aethel_error(e)),
        };
        match self.check_default(&attestation, &statement, now) {
            Ok(()) => {},
            Err(e) => return Err(e),
        }
        let operation_id = attestation.operation_id;
        let nonce = (attestation.provider_id, attestation.attestation_id);
        self.default_attestations.push(attestation);
        self.used_operations.push(operation_id);
        self.used_provider_nonces.push(nonce);
        Ok(statement)
    }

    fn check_claim(&self, c: &GuaranteeClaim, now: u64) -> (r: Result<(), AethelError>)
        ensures
            match self@.claim_error(*c, now) {
                Some(e) => r == Err::<(), AethelError>(e),
                None => r is Ok,
            },
    {
        reveal(BookState::claim_error);
        if c.claimed_at != now || self.find_claim(&c.claim_id).is_some() {
            return Err(AethelError::InvalidGuaranteeClaim);
        }
        match self.ensure_operation_unused(&c.operation_id) {
            Ok(()) => {},
            Err(e) => return Err(e),
        }
        let gi = match self.find_guarantee(&c.guarantee_id) {
            Some(i) => i,
            None => return Err(AethelError::UnknownGuarantee),
        };
        let g = &self.guarantees[gi];
        if !matches!(g.status, GuaranteeStatus::Bound) || !same_opt_id(
            &g.bound_issuance_id,
            &Some(c.issuance_id),
        ) || g.valid_until < now {
            return Err(AethelError::GuaranteeUnavailable);
        }
        let ii = match self.find_issuance(&c.issuance_id) {
            Some(i) => i,
            None => return Err(AethelError::UnknownIssuance),
        };
        let si = match self.find_series(&self.issuances[ii].series_id) {
            Some(i) => i,
            None => return Err(AethelError::UnknownSeries),
        };
        let di = match self.find_default(&c.default_attestation_id) {
            Some(i) => i,
            None => return Err(AethelError::UnknownDefaultAttestation),
        };
        if !same_id(&self.default_attestations[di].stream_id, &self.series[si].stream_id) {
            return Err(AethelError::MismatchedArtifact);
        }
        Ok(())
    }

    /// Records the settled claim on a bound guarantee after the stream of the
    /// issuance it covers defaulted. The guarantee ends claimed.
    pub fn claim_guarantee(&mut self, claim: GuaranteeClaim, now: u64) -> (r: Result<
        Commitment,
        AethelError,
    >)
        ensures
            !claim.well_formed() ==> r == Err::<Commitment, AethelError>(
                AethelError::InvalidGuaranteeClaim,
            ),
            claim.well_formed() ==> match old(self)@.claim_error(claim, now) {
                Some(e) => r == Err::<Commitment, AethelError>(e),
                None => r matches Ok(d) && d@ == spec_digest(guarantee_claim_domain(), claim.encoding()),
            },
            r is Ok ==> final(self)@ == old(self)@.after_claim(claim),
            r is Err ==> final(self)@ == old(self)@,
    {
        let statement = match claim.statement() {
            Ok(d) => d,
            Err(e) => return Err(e),
        };
        match self.check_claim(&claim, now) {
            Ok(()) => {},
            Err(e) => return Err(e),
        }
        proof {
            lemma_claim_accepted(self@, claim, now);
        }
        let gi = match self.find_guarantee(&claim.guarantee_id) {
            Some(i) => i,
            None => return Err(AethelError::UnknownGuarantee),
        };
        self.set_guarantee_status(gi, GuaranteeStatus::Claimed);
        let operation_id = claim.operation_id;
        self.guarantee_claims.push(claim);
        self.used_operations.push(operation_id);
        Ok(statement)
    }
}

/// The provider with another status and sequence.
pub open spec fn provider_with(p: ProviderDefinition, status: ProviderStatus, sequence: u64) -> ProviderDefinition {
    ProviderDefinition { status, sequence, ..p }
}

impl BookState {
    /// Why a stream registration with this statement cannot be recorded at
    /// `now`, if it cannot: the attestor is not active or did not sign it,
    /// the stream is registered, or the operation is spent.
    #[verifier::opaque]
    pub open spec fn register_stream_error(self, req: RegisterStream, statement: Seq<u8>, now: u64) -> Option<
        AethelError,
    > {
        let p = self.providers[self.provider_index(req.attestor_provider_id)];
        if self.active_provider_error(req.attestor_provider_id, ProviderCapability::StreamAttestor, now) is Some {
            self.active_provider_error(req.attestor_provider_id, ProviderCapability::StreamAttestor, now)
        } else if new_signature_error(p, statement, req.signature@) is Some {
            new_signature_error(p, statement, req.signature@)
        } else if self.stream_index(req.state.stream_id) >= 0 {
            Some(AethelError::DuplicateStream)
        } else if !self.op_available(req.operation_id) {
            Some(AethelError::Replay)
        } else {
            None
        }
    }

    /// Why a stream transition with this statement cannot be recorded at
    /// `now`, if it cannot: the attestor is not active or did not sign it,
    /// the operation is spent, the stream is unknown, or the transition is
    /// not its attestor's move from the current state to a valid successor.
    #[verifier::opaque]
    pub open spec fn transition_error(self, req: StreamTransition, statement: Seq<u8>, now: u64) -> Option<
        AethelError,
    > {
        let p = self.providers[self.provider_index(req.attestor_provider_id)];
        let ti = self.stream_index(req.after_state.stream_id);
        let current = self.streams[ti];
        if self.active_provider_error(req.attestor_provider_id, ProviderCapability::StreamAttestor, now) is Some {
            self.active_provider_error(req.attestor_provider_id, ProviderCapability::StreamAttestor, now)
        } else if new_signature_error(p, statement, req.signature@) is Some {
            new_signature_error(p, statement, req.signature@)
        } else if !self.op_available(req.operation_id) {
            Some(AethelError::Replay)
        } else if ti < 0 {
            Some(AethelError::UnknownStream)
        } else if current.attestor_provider_id != req.attestor_provider_id {
            Some(AethelError::InvalidStreamTransition)
        } else if !current.state.spec_valid() {
            Some(AethelError::InvalidStream)
        } else if req.before_state_root@ != state_root(current.state)
            || !current.state.spec_valid_source_successor(req.after_state) {
            Some(AethelError::InvalidStreamTransition)
        } else {
            None
        }
    }

    /// Whether a registered series already issues the asset.
    pub open spec fn asset_taken(self, asset_id: Identifier) -> bool {
        exists|i: int| 0 <= i < self.series.len() && (#[trigger] self.series[i]).receivable_asset_id == asset_id
    }

    /// Why a valid series registration cannot be recorded at `now`, if it
    /// cannot: its stream is unknown, it would issue the stream's own
    /// settlement asset, `now` is outside its window, the series or its asset
    /// is registered, or the operation is spent.
    #[verifier::opaque]
    pub open spec fn register_series_error(self, req: RegisterSeries, now: u64) -> Option<AethelError> {
        let ti = self.stream_index(req.series.stream_id);
        if ti < 0 {
            Some(AethelError::UnknownStream)
        } else if self.streams[ti].state.settlement_asset_id == req.series.receivable_asset_id || now
            < req.series.valid_from || now > req.series.maturity {
            Some(AethelError::InvalidSeries)
        } else if self.series_index(req.series.series_id) >= 0 || self.asset_taken(
            req.series.receivable_asset_id,
        ) {
            Some(AethelError::DuplicateSeries)
        } else if !self.op_available(req.operation_id) {
            Some(AethelError::Replay)
        } else {
            None
        }
    }

    /// Why a status change with this statement cannot be recorded at `now`,
    /// if it cannot: the operation is spent, the provider is unknown or
    /// revoked, the change is not dated now, its sequence is stale, or it
    /// changes nothing.
    #[verifier::opaque]
    pub open spec fn provider_status_error(self, req: SetProviderStatus, now: u64) -> Option<AethelError> {
        let pi = self.provider_index(req.provider_id);
        let p = self.providers[pi];
        if !self.op_available(req.operation_id) {
            Some(AethelError::Replay)
        } else if pi < 0 {
            Some(AethelError::UnknownProvider)
        } else if p.status == ProviderStatus::Revoked {
            Some(AethelError::ProviderRevoked)
        } else if req.effective_at != now {
            Some(AethelError::OutsideValidityWindow)
        } else if p.sequence != req.expected_sequence {
            Some(AethelError::StaleSequence)
        } else if p.status == req.status {
            Some(AethelError::InvalidProvider)
        } else {
            None
        }
    }

    /// Why a valid provider registration cannot be recorded at `now`, if it
    /// cannot: `now` is outside its window, the provider is registered, or
    /// the operation is spent.
    pub open spec fn register_provider_error(self, req: RegisterProvider, now: u64) -> Option<AethelError> {
        if now < req.provider.valid_from || now > req.provider.valid_until {
            Some(AethelError::OutsideValidityWindow)
        } else if self.provider_index(req.provider.provider_id) >= 0 {
            Some(AethelError::DuplicateProvider)
        } else if !self.op_available(req.operation_id) {
            Some(AethelError::Replay)
        } else {
            None
        }
    }
}

proof fn lemma_transition_accepted(s: BookState, req: StreamTransition, statement: Seq<u8>, now: u64)
    requires
        s.transition_error(req, statement, now) is None,
    ensures
        s.stream_index(req.after_state.stream_id) >= 0,
{
    reveal(BookState::transition_error);
}

proof fn lemma_status_accepted(s: BookState, req: SetProviderStatus, now: u64)
    requires
        s.provider_status_error(req, now) is None,
    ensures
        s.provider_index(req.provider_id) >= 0,
{
    reveal(BookState::provider_status_error);
}

impl AethelBook {
    fn check_register_stream(&self, req: &RegisterStream, statement: &Commitment, now: u64) -> (r: Result<
        (),
        AethelError,
    >)
        ensures
            match self@.register_stream_error(*req, statement@, now) {
                Some(e) => r == Err::<(), AethelError>(e),
                None => r is Ok,
            },
    {
        reveal(BookState::register_stream_error);
        let pi = match self.active_provider(&req.attestor_provider_id, ProviderCapability::StreamAttestor, now) {
            Ok(i) => i,
            Err(e) => return Err(e),
        };
        match self.verify_new(pi, statement, req.signature.as_slice()) {
            Ok(()) => {},
            Err(e) => return Err(e),
        }
        if self.find_stream(&req.state.stream_id).is_some() {
            return Err(AethelError::DuplicateStream);
        }
        self.ensure_operation_unused(&req.operation_id)
    }

    /// Registers a new stream at its first version, signed by an active
    /// stream attestor.
    pub fn register_stream(&mut self, request: RegisterStream, now: u64) -> (r: Result<Commitment, AethelError>)
        ensures
            !request.well_formed() ==> r == Err::<Commitment, AethelError>(AethelError::InvalidStream),
            request.well_formed() ==> match old(self)@.register_stream_error(
                request,
                request.spec_statement(),
                now,
            ) {
                Some(e) => r == Err::<Commitment, AethelError>(e),
                None => r matches Ok(d) && d@ == request.spec_statement(),
            },
            r is Ok ==> final(self)@ == old(self)@.after_stream(request),
            r is Err ==> final(self)@ == old(self)@,
    {
        let statement = match request.statement() {
            Ok(d) => d,
            Err(e) => return Err(e),
        };
        match self.check_register_stream(&request, &statement, now) {
            Ok(()) => {},
            Err(e) => return Err(e),
        }
        self.streams.push(
            RegisteredStream { attestor_provider_id: request.attestor_provider_id, state: request.state },
        );
        self.used_operations.push(request.operation_id);
        Ok(statement)
    }

    fn check_transition(&self, req: &StreamTransition, statement: &Commitment, now: u64) -> (r: Result<
        (),
        AethelError,
    >)
        ensures
            match self@.transition_error(*req, statement@, now) {
                Some(e) => r == Err::<(), AethelError>(e),
                None => r is Ok,
            },
    {
        reveal(BookState::transition_error);
        let pi = match self.active_provider(&req.attestor_provider_id, ProviderCapability::StreamAttestor, now) {
            Ok(i) => i,
            Err(e) => return Err(e),
        };
        match self.verify_new(pi, statement, req.signature.as_slice()) {
            Ok(()) => {},
            Err(e) => return Err(e),
        }
        match self.ensure_operation_unused(&req.operation_id) {
            Ok(()) => {},
            Err(e) => return Err(e),
        }
        let ti = match self.find_stream(&req.after_state.stream_id) {
            Some(i) => i,
            None => return Err(AethelError::UnknownStream),
        };
        let current = &self.streams[ti];
        if !same_id(&current.attestor_provider_id, &req.attestor_provider_id) {
            return Err(AethelError::InvalidStreamTransition);
        }
        let root = match current.state.root() {
            Ok(d) => d,
            Err(e) => return Err(e),
        };
        proof {
            lemma_id_of(root);
            lemma_id_of(req.before_state_root);
        }
        if !same_id(&root, &req.before_state_root) || !current.state.valid_source_successor(
            &req.after_state,
        ) {
            return Err(AethelError::InvalidStreamTransition);
        }
        Ok(())
    }

    /// Moves a stream to its next state, signed by its attestor against the
    /// root of the current state.
    pub fn transition_stream(&mut self, request: StreamTransition, now: u64) -> (r: Result<
        Commitment,
        AethelError,
    >)
        ensures
            !request.well_formed() ==> r == Err::<Commitment, AethelError>(request.malformed_error()),
            request.well_formed() ==> match old(self)@.transition_error(
                request,
                request.spec_statement(),
                now,
            ) {
                Some(e) => r == Err::<Commitment, AethelError>(e),
                None => r matches Ok(d) && d@ == request.spec_statement(),
            },
            r is Ok ==> final(self)@ == old(self)@.after_transition(request),
            r is Err ==> final(self)@ == old(self)@,
    {
        let statement = match request.statement() {
            Ok(d) => d,
            Err(e) => return Err(e),
        };
        match self.check_transition(&request, &statement, now) {
            Ok(()) => {},
            Err(e) => return Err(e),
        }
        proof {
            lemma_transition_accepted(self@, request, statement@, now);
        }
        let ti = match self.find_stream(&request.after_state.stream_id) {
            Some(i) => i,
            None => return Err(AethelError::UnknownStream),
        };
        self.set_stream_state(ti, request.after_state);
        self.used_operations.push(request.operation_id);
        Ok(statement)
    }

    fn asset_taken(&self, asset_id: &Identifier) -> (r: bool)
        ensures
            r == self@.asset_taken(*asset_id),
    {
        let mut i: usize = 0;
        while i < self.series.len()
            invariant
                i <= self.series@.len(),
                forall|j: int| 0 <= j < i ==> (#[trigger] self.series@[j]).receivable_asset_id != *asset_id,
            decreases self.series@.len() - i,
        {
            if same_id(&self.series[i].receivable_asset_id, asset_id) {
                return true;
            }
            i = i + 1;
        }
        false
    }

    fn check_register_series(&self, req: &RegisterSeries, now: u64) -> (r: Result<(), AethelError>)
        ensures
            match self@.register_series_error(*req, now) {
                Some(e) => r == Err::<(), AethelError>(e),
                None => r is Ok,
            },
    {
        reveal(BookState::register_series_error);
        let ti = match self.find_stream(&req.series.stream_id) {
            Some(i) => i,
            None => return Err(AethelError::UnknownStream),
        };
        if same_id(&self.streams[ti].state.settlement_asset_id, &req.series.receivable_asset_id) || now
            < req.series.valid_from || now > req.series.maturity {
            return Err(AethelError::InvalidSeries);
        }
        if self.find_series(&req.series.series_id).is_some() || self.asset_taken(
            &req.series.receivable_asset_id,
        ) {
            return Err(AethelError::DuplicateSeries);
        }
        self.ensure_operation_unused(&req.operation_id)
    }

    /// Registers a receivable series on a registered stream. A series issues
    /// its own asset, never the stream's settlement asset, and no two series
    /// share one.
    pub fn register_series(&mut self, request: RegisterSeries, now: u64) -> (r: Result<Commitment, AethelError>)
        ensures
            !(!is_zero(request.operation_id) && request.series.spec_valid_initial()) ==> r == Err::<
                Commitment,
                AethelError,
            >(AethelError::InvalidSeries),
            !is_zero(request.operation_id) && request.series.spec_valid_initial() ==> match old(self)@.register_series_error(request, now) {
                Some(e) => r == Err::<Commitment, AethelError>(e),
                None => r matches Ok(d) && d@ == spec_digest(series_domain(), request.encoding()),
            },
            r is Ok ==> final(self)@ == old(self)@.after_series(request),
            r is Err ==> final(self)@ == old(self)@,
    {
        let statement = match request.statement() {
            Ok(d) => d,
            Err(e) => return Err(e),
        };
        match self.check_register_series(&request, now) {
            Ok(()) => {},
            Err(e) => return Err(e),
        }
        self.used_operations.push(request.operation_id);
        self.series.push(request.series);
        Ok(statement)
    }

    fn check_provider_status(&self, req: &SetProviderStatus, now: u64) -> (r: Result<(), AethelError>)
        ensures
            match self@.provider_status_error(*req, now) {
                Some(e) => r == Err::<(), AethelError>(e),
                None => r is Ok,
            },
    {
        reveal(BookState::provider_status_error);
        match self.ensure_operation_unused(&req.operation_id) {
            Ok(()) => {},
            Err(e) => return Err(e),
        }
        let pi = match self.find_provider_index(&req.provider_id) {
            Some(i) => i,
            None => return Err(AethelError::UnknownProvider),
        };
        let p = &self.providers[pi];
        if matches!(p.status, ProviderStatus::Revoked) {
            return Err(AethelError::ProviderRevoked);
        }
        if req.effective_at != now {
            return Err(AethelError::OutsideValidityWindow);
        }
        if p.sequence != req.expected_sequence {
            return Err(AethelError::StaleSequence);
        }
        if same_status(&p.status, &req.status) {
            return Err(AethelError::InvalidProvider);
        }
        Ok(())
    }

    fn set_provider(&mut self, i: usize, status: ProviderStatus, sequence: u64)
        requires
            i < old(self).providers@.len(),
        ensures
            final(self)@ == (BookState {
                providers: old(self)@.providers.update(
                    i as int,
                    provider_with(old(self)@.providers[i as int], status, sequence),
                ),
                ..old(self)@
            }),
    {
        let mut p = self.providers.remove(i);
        p.status = status;
        p.sequence = sequence;
        self.providers.insert(i, p);
        proof {
            assert(self.providers@ =~= old(self).providers@.update(
                i as int,
                provider_with(old(self).providers@[i as int], status, sequence),
            ));
        }
    }

    /// Suspends, reinstates, or revokes a provider. Revocation is terminal.
    /// Nothing already recorded is removed: a suspended or revoked provider's
    /// past artifacts stay verifiable, and it can sign no new ones. A status
    /// change at the end of the sequence range takes effect without being
    /// counted and reports the overflow.
    pub fn set_provider_status(&mut self, request: SetProviderStatus, now: u64) -> (r: Result<
        Commitment,
        AethelError,
    >)
        ensures
            !request.well_formed() ==> r == Err::<Commitment, AethelError>(AethelError::InvalidProvider),
            request.well_formed() ==> match old(self)@.provider_status_error(request, now) {
                Some(e) => r == Err::<Commitment, AethelError>(e),
                None => {
                    let p = old(self)@.providers[old(self)@.provider_index(request.provider_id)];
                    &&& final(self)@ == old(self)@.after_status(request)
                    &&& if p.sequence == u64::MAX {
                        r == Err::<Commitment, AethelError>(AethelError::ArithmeticOverflow)
                    } else {
                        r matches Ok(d) && d@ == request.spec_statement()
                    }
                },
            },
            !request.well_formed() || old(self)@.provider_status_error(request, now) is Some
                ==> final(self)@ == old(self)@,
    {
        let statement = match request.statement() {
            Ok(d) => d,
            Err(e) => return Err(aethel_error(e)),
        };
        match self.check_provider_status(&request, now) {
            Ok(()) => {},
            Err(e) => return Err(e),
        }
        proof {
            lemma_status_accepted(self@, request, now);
        }
        let pi = match self.find_provider_index(&request.provider_id) {
            Some(i) => i,
            None => return Err(AethelError::UnknownProvider),
        };
        let sequence = self.providers[pi].sequence;
        if sequence == u64::MAX {
            self.set_provider(pi, request.status, sequence);
            return Err(AethelError::ArithmeticOverflow);
        }
        self.set_provider(pi, request.status, sequence + 1);
        self.used_operations.push(request.operation_id);
        Ok(statement)
    }

    /// Registers a provider in its initial form, within its validity window.
    pub fn register_provider(&mut self, request: RegisterProvider, now: u64) -> (r: Result<
        Commitment,
        AethelError,
    >)
        ensures
            match request.statement_result() {
                Err(e) => r == Err::<Commitment, AethelError>(from_provider(e)),
                Ok(d) => match old(self)@.register_provider_error(request, now) {
                    Some(e) => r == Err::<Commitment, AethelError>(e),
                    None => r matches Ok(x) && x@ == d,
                },
            },
            r is Ok ==> final(self)@ == old(self)@.after_provider(request),
            r is Err ==> final(self)@ == old(self)@,
    {
        let statement = match request.statement() {
            Ok(d) => d,
            Err(e) => return Err(aethel_error(e)),
        };
        if now < request.provider.valid_from || now > request.provider.valid_until {
            return Err(AethelError::OutsideValidityWindow);
        }
        if self.find_provider_index(&request.provider.provider_id).is_some() {
            return Err(AethelError::DuplicateProvider);
        }
        match self.ensure_operation_unused(&request.operation_id) {
            Ok(()) => {},
            Err(e) => return Err(e),
        }
        self.used_operations.push(request.operation_id);
        self.providers.push(request.provider);
        Ok(statement)
    }
}

/// Whether two statuses are the same.
pub fn same_status(a: &ProviderStatus, b: &ProviderStatus) -> (r: bool)
    ensures
        r == (*a == *b),
{
    match (a, b) {
        (ProviderStatus::Active, ProviderStatus::Active) => true,
        (ProviderStatus::Suspended, ProviderStatus::Suspended) => true,
        (ProviderStatus::Revoked, ProviderStatus::Revoked) => true,
        _ => false,
    }
}

impl BookState {
    /// A book with nothing in it.
    pub open spec fn is_empty(self) -> bool {
        &&& self.providers.len() == 0
        &&& self.streams.len() == 0
        &&& self.series.len() == 0
        &&& self.confidential_subjects.len() == 0
        &&& self.credit_decisions.len() == 0
        &&& self.guarantees.len() == 0
        &&& self.funding_quotes.len() == 0
        &&& self.issuances.len() == 0
        &&& self.default_attestations.len() == 0
        &&& self.guarantee_claims.len() == 0
        &&& self.guarantee_releases.len() == 0
        &&& self.used_operations.len() == 0
        &&& self.used_provider_nonces.len() == 0
        &&& self.used_allocation_nullifiers.len() == 0
        &&& self.used_subject_nullifiers.len() == 0
    }
}

impl Default for AethelBook {
    /// An empty book.
    fn default() -> (r: AethelBook)
        ensures
            r@.is_empty(),
    {
        AethelBook::new()
    }
}

impl AethelBook {
    /// An empty book.
    pub fn new() -> (r: AethelBook)
        ensures
            r@.is_empty(),
    {
        AethelBook {
            providers: Vec::new(),
            streams: Vec::new(),
            series: Vec::new(),
            confidential_subjects: Vec::new(),
            credit_decisions: Vec::new(),
            guarantees: Vec::new(),
            funding_quotes: Vec::new(),
            issuances: Vec::new(),
            default_attestations: Vec::new(),
            guarantee_claims: Vec::new(),
            guarantee_releases: Vec::new(),
            used_operations: Vec::new(),
            used_provider_nonces: Vec::new(),
            used_allocation_nullifiers: Vec::new(),
            used_subject_nullifiers: Vec::new(),
        }
    }

    /// Whether the book holds nothing.
    pub fn is_empty(&self) -> (r: bool)
        ensures
            r == self@.is_empty(),
    {
        self.providers.len() == 0 && self.streams.len() == 0 && self.series.len() == 0
            && self.confidential_subjects.len() == 0 && self.credit_decisions.len() == 0
            && self.guarantees.len() == 0 && self.funding_quotes.len() == 0 && self.issuances.len()
            == 0 && self.default_attestations.len() == 0 && self.guarantee_claims.len() == 0
            && self.guarantee_releases.len() == 0 && self.used_operations.len() == 0
            && self.used_provider_nonces.len() == 0 && self.used_allocation_nullifiers.len() == 0
            && self.used_subject_nullifiers.len() == 0
    }

    /// The registered provider with the identifier.
    pub fn provider(&self, provider_id: &Identifier) -> (r: Result<&ProviderDefinition, AethelError>)
        ensures
            match r {
                Ok(p) => self@.provider_index(*provider_id) >= 0 && *p == self@.providers[self@.provider_index(
                    *provider_id,
                )],
                Err(e) => self@.provider_index(*provider_id) == -1 && e == AethelError::UnknownProvider,
            },
    {
        match self.find_provider_index(provider_id) {
            Some(i) => Ok(&self.providers[i]),
            None => Err(AethelError::UnknownProvider),
        }
    }

    /// The registered stream with the identifier.
    pub fn stream(&self, stream_id: &Identifier) -> (r: Result<&RegisteredStream, AethelError>)
        ensures
            match r {
                Ok(t) => self@.stream_index(*stream_id) >= 0 && *t == self@.streams[self@.stream_index(
                    *stream_id,
                )],
                Err(e) => self@.stream_index(*stream_id) == -1 && e == AethelError::UnknownStream,
            },
    {
        match self.find_stream(stream_id) {
            Some(i) => Ok(&self.streams[i]),
            None => Err(AethelError::UnknownStream),
        }
    }

    /// The confidential subject bound to the request's anonymous line.
    pub fn confidential_subject(&self, request_id: &Identifier) -> (r: Option<&ConfidentialSubjectBinding>)
        ensures
            match r {
                Some(b) => self@.binding_index(*request_id) >= 0 && *b
                    == self@.confidential_subjects[self@.binding_index(*request_id)],
                None => self@.binding_index(*request_id) == -1,
            },
    {
        match self.find_binding(request_id) {
            Some(i) => Some(&self.confidential_subjects[i]),
            None => None,
        }
    }
}

pub open spec fn providers_key() -> spec_fn(ProviderDefinition) -> Identifier {
    |x: ProviderDefinition| x.provider_id
}

pub open spec fn streams_key() -> spec_fn(RegisteredStream) -> Identifier {
    |x: RegisteredStream| x.state.stream_id
}

pub open spec fn series_key() -> spec_fn(ReceivableSeries) -> Identifier {
    |x: ReceivableSeries| x.series_id
}

pub open spec fn confidential_subjects_key() -> spec_fn(ConfidentialSubjectBinding) -> Identifier {
    |x: ConfidentialSubjectBinding| x.request_id
}

pub open spec fn credit_decisions_key() -> spec_fn(CreditDecision) -> Identifier {
    |x: CreditDecision| x.decision_id
}

pub open spec fn guarantees_key() -> spec_fn(GuaranteeCommitment) -> Identifier {
    |x: GuaranteeCommitment| x.guarantee_id
}

pub open spec fn funding_quotes_key() -> spec_fn(FundingQuote) -> Identifier {
    |x: FundingQuote| x.quote_id
}

pub open spec fn issuances_key() -> spec_fn(ReceivableIssuance) -> Identifier {
    |x: ReceivableIssuance| x.issuance_id
}

pub open spec fn default_attestations_key() -> spec_fn(DefaultAttestation) -> Identifier {
    |x: DefaultAttestation| x.attestation_id
}

pub open spec fn guarantee_claims_key() -> spec_fn(GuaranteeClaim) -> Identifier {
    |x: GuaranteeClaim| x.claim_id
}

pub open spec fn guarantee_releases_key() -> spec_fn(GuaranteeRelease) -> Identifier {
    |x: GuaranteeRelease| x.guarantee_id
}

impl BookState {
    /// Each record is the only one under its identifier, and each consumed
    /// value is recorded once.
    pub open spec fn ids_unique(self) -> bool {
        &&& ids_distinct(self.providers.map_values(providers_key()))
        &&& ids_distinct(self.streams.map_values(streams_key()))
        &&& ids_distinct(self.series.map_values(series_key()))
        &&& ids_distinct(self.confidential_subjects.map_values(confidential_subjects_key()))
        &&& ids_distinct(self.credit_decisions.map_values(credit_decisions_key()))
        &&& ids_distinct(self.guarantees.map_values(guarantees_key()))
        &&& ids_distinct(self.funding_quotes.map_values(funding_quotes_key()))
        &&& ids_distinct(self.issuances.map_values(issuances_key()))
        &&& ids_distinct(self.default_attestations.map_values(default_attestations_key()))
        &&& ids_distinct(self.guarantee_claims.map_values(guarantee_claims_key()))
        &&& ids_distinct(self.guarantee_releases.map_values(guarantee_releases_key()))
        &&& ids_distinct(self.used_operations)
        &&& pairs_distinct(self.used_provider_nonces)
        &&& ids_distinct(self.used_allocation_nullifiers)
        &&& ids_distinct(self.used_subject_nullifiers)
    }
}

/// No pair occurs twice.
pub open spec fn pairs_distinct(s: Seq<(Identifier, Identifier)>) -> bool {
    forall|i: int, j: int| 0 <= i < j < s.len() ==> #[trigger] s[i] != #[trigger] s[j]
}

/// Whether no pair of `v` occurs twice.
pub fn distinct_pairs(v: &Vec<(Identifier, Identifier)>) -> (r: bool)
    ensures
        r == pairs_distinct(v@),
{
    let mut i: usize = 0;
    while i < v.len()
        invariant
            i <= v@.len(),
            forall|a: int, b: int| 0 <= a < b < i ==> #[trigger] v@[a] != #[trigger] v@[b],
        decreases v@.len() - i,
    {
        let mut j: usize = 0;
        while j < i
            invariant
                j <= i < v@.len(),
                forall|a: int, b: int| 0 <= a < b < i ==> #[trigger] v@[a] != #[trigger] v@[b],
                forall|a: int| 0 <= a < j ==> v@[a] != v@[i as int],
            decreases i - j,
        {
            if same_id(&v[j].0, &v[i].0) && same_id(&v[j].1, &v[i].1) {
                assert(v@[j as int] == v@[i as int]);
                return false;
            }
            j = j + 1;
        }
        i = i + 1;
    }
    true
}

impl AethelBook {
    fn providers_ids(&self) -> (r: Vec<Identifier>)
        ensures
            r@ == self.providers@.map_values(providers_key()),
    {
        let mut out: Vec<Identifier> = Vec::new();
        let mut i: usize = 0;
        while i < self.providers.len()
            invariant
                i <= self.providers@.len(),
                out@ == self.providers@.subrange(0, i as int).map_values(providers_key()),
            decreases self.providers@.len() - i,
        {
            proof {
                assert(self.providers@.subrange(0, i + 1).map_values(providers_key()) =~= self.providers@.subrange(
                    0,
                    i as int,
                ).map_values(providers_key()).push(self.providers@[i as int].provider_id));
            }
            out.push(self.providers[i].provider_id);
            i = i + 1;
        }
        proof {
            lemma_full_prefix(self.providers@);
        }
        out
    }

    fn streams_ids(&self) -> (r: Vec<Identifier>)
        ensures
            r@ == self.streams@.map_values(streams_key()),
    {
        let mut out: Vec<Identifier> = Vec::new();
        let mut i: usize = 0;
        while i < self.streams.len()
            invariant
                i <= self.streams@.len(),
                out@ == self.streams@.subrange(0, i as int).map_values(streams_key()),
            decreases self.streams@.len() - i,
        {
            proof {
                assert(self.streams@.subrange(0, i + 1).map_values(streams_key()) =~= self.streams@.subrange(
                    0,
                    i as int,
                ).map_values(streams_key()).push(self.streams@[i as int].state.stream_id));
            }
            out.push(self.streams[i].state.stream_id);
            i = i + 1;
        }
        proof {
            lemma_full_prefix(self.streams@);
        }
        out
    }

    fn series_ids(&self) -> (r: Vec<Identifier>)
        ensures
            r@ == self.series@.map_values(series_key()),
    {
        let mut out: Vec<Identifier> = Vec::new();
        let mut i: usize = 0;
        while i < self.series.len()
            invariant
                i <= self.series@.len(),
                out@ == self.series@.subrange(0, i as int).map_values(series_key()),
            decreases self.series@.len() - i,
        {
            proof {
                assert(self.series@.subrange(0, i + 1).map_values(series_key()) =~= self.series@.subrange(
                    0,
                    i as int,
                ).map_values(series_key()).push(self.series@[i as int].series_id));
            }
            out.push(self.series[i].series_id);
            i = i + 1;
        }
        proof {
            lemma_full_prefix(self.series@);
        }
        out
    }

    fn confidential_subjects_ids(&self) -> (r: Vec<Identifier>)
        ensures
            r@ == self.confidential_subjects@.map_values(confidential_subjects_key()),
    {
        let mut out: Vec<Identifier> = Vec::new();
        let mut i: usize = 0;
        while i < self.confidential_subjects.len()
            invariant
                i <= self.confidential_subjects@.len(),
                out@ == self.confidential_subjects@.subrange(0, i as int).map_values(confidential_subjects_key()),
            decreases self.confidential_subjects@.len() - i,
        {
            proof {
                assert(self.confidential_subjects@.subrange(0, i + 1).map_values(confidential_subjects_key()) =~= self.confidential_subjects@.subrange(
                    0,
                    i as int,
                ).map_values(confidential_subjects_key()).push(self.confidential_subjects@[i as int].request_id));
            }
            out.push(self.confidential_subjects[i].request_id);
            i = i + 1;
        }
        proof {
            lemma_full_prefix(self.confidential_subjects@);
        }
        out
    }

    fn credit_decisions_ids(&self) -> (r: Vec<Identifier>)
        ensures
            r@ == self.credit_decisions@.map_values(credit_decisions_key()),
    {
        let mut out: Vec<Identifier> = Vec::new();
        let mut i: usize = 0;
        while i < self.credit_decisions.len()
            invariant
                i <= self.credit_decisions@.len(),
                out@ == self.credit_decisions@.subrange(0, i as int).map_values(credit_decisions_key()),
            decreases self.credit_decisions@.len() - i,
        {
            proof {
                assert(self.credit_decisions@.subrange(0, i + 1).map_values(credit_decisions_key()) =~= self.credit_decisions@.subrange(
                    0,
                    i as int,
                ).map_values(credit_decisions_key()).push(self.credit_decisions@[i as int].decision_id));
            }
            out.push(self.credit_decisions[i].decision_id);
            i = i + 1;
        }
        proof {
            lemma_full_prefix(self.credit_decisions@);
        }
        out
    }

    fn guarantees_ids(&self) -> (r: Vec<Identifier>)
        ensures
            r@ == self.guarantees@.map_values(guarantees_key()),
    {
        let mut out: Vec<Identifier> = Vec::new();
        let mut i: usize = 0;
        while i < self.guarantees.len()
            invariant
                i <= self.guarantees@.len(),
                out@ == self.guarantees@.subrange(0, i as int).map_values(guarantees_key()),
            decreases self.guarantees@.len() - i,
        {
            proof {
                assert(self.guarantees@.subrange(0, i + 1).map_values(guarantees_key()) =~= self.guarantees@.subrange(
                    0,
                    i as int,
                ).map_values(guarantees_key()).push(self.guarantees@[i as int].guarantee_id));
            }
            out.push(self.guarantees[i].guarantee_id);
            i = i + 1;
        }
        proof {
            lemma_full_prefix(self.guarantees@);
        }
        out
    }

    fn funding_quotes_ids(&self) -> (r: Vec<Identifier>)
        ensures
            r@ == self.funding_quotes@.map_values(funding_quotes_key()),
    {
        let mut out: Vec<Identifier> = Vec::new();
        let mut i: usize = 0;
        while i < self.funding_quotes.len()
            invariant
                i <= self.funding_quotes@.len(),
                out@ == self.funding_quotes@.subrange(0, i as int).map_values(funding_quotes_key()),
            decreases self.funding_quotes@.len() - i,
        {
            proof {
                assert(self.funding_quotes@.subrange(0, i + 1).map_values(funding_quotes_key()) =~= self.funding_quotes@.subrange(
                    0,
                    i as int,
                ).map_values(funding_quotes_key()).push(self.funding_quotes@[i as int].quote_id));
            }
            out.push(self.funding_quotes[i].quote_id);
            i = i + 1;
        }
        proof {
            lemma_full_prefix(self.funding_quotes@);
        }
        out
    }

    fn issuances_ids(&self) -> (r: Vec<Identifier>)
        ensures
            r@ == self.issuances@.map_values(issuances_key()),
    {
        let mut out: Vec<Identifier> = Vec::new();
        let mut i: usize = 0;
        while i < self.issuances.len()
            invariant
                i <= self.issuances@.len(),
                out@ == self.issuances@.subrange(0, i as int).map_values(issuances_key()),
            decreases self.issuances@.len() - i,
        {
            proof {
                assert(self.issuances@.subrange(0, i + 1).map_values(issuances_key()) =~= self.issuances@.subrange(
                    0,
                    i as int,
                ).map_values(issuances_key()).push(self.issuances@[i as int].issuance_id));
            }
            out.push(self.issuances[i].issuance_id);
            i = i + 1;
        }
        proof {
            lemma_full_prefix(self.issuances@);
        }
        out
    }

    fn default_attestations_ids(&self) -> (r: Vec<Identifier>)
        ensures
            r@ == self.default_attestations@.map_values(default_attestations_key()),
    {
        let mut out: Vec<Identifier> = Vec::new();
        let mut i: usize = 0;
        while i < self.default_attestations.len()
            invariant
                i <= self.default_attestations@.len(),
                out@ == self.default_attestations@.subrange(0, i as int).map_values(default_attestations_key()),
            decreases self.default_attestations@.len() - i,
        {
            proof {
                assert(self.default_attestations@.subrange(0, i + 1).map_values(default_attestations_key()) =~= self.default_attestations@.subrange(
                    0,
                    i as int,
                ).map_values(default_attestations_key()).push(self.default_attestations@[i as int].attestation_id));
            }
            out.push(self.default_attestations[i].attestation_id);
            i = i + 1;
        }
        proof {
            lemma_full_prefix(self.default_attestations@);
        }
        out
    }

    fn guarantee_claims_ids(&self) -> (r: Vec<Identifier>)
        ensures
            r@ == self.guarantee_claims@.map_values(guarantee_claims_key()),
    {
        let mut out: Vec<Identifier> = Vec::new();
        let mut i: usize = 0;
        while i < self.guarantee_claims.len()
            invariant
                i <= self.guarantee_claims@.len(),
                out@ == self.guarantee_claims@.subrange(0, i as int).map_values(guarantee_claims_key()),
            decreases self.guarantee_claims@.len() - i,
        {
            proof {
                assert(self.guarantee_claims@.subrange(0, i + 1).map_values(guarantee_claims_key()) =~= self.guarantee_claims@.subrange(
                    0,
                    i as int,
                ).map_values(guarantee_claims_key()).push(self.guarantee_claims@[i as int].claim_id));
            }
            out.push(self.guarantee_claims[i].claim_id);
            i = i + 1;
        }
        proof {
            lemma_full_prefix(self.guarantee_claims@);
        }
        out
    }

    fn guarantee_releases_ids(&self) -> (r: Vec<Identifier>)
        ensures
            r@ == self.guarantee_releases@.map_values(guarantee_releases_key()),
    {
        let mut out: Vec<Identifier> = Vec::new();
        let mut i: usize = 0;
        while i < self.guarantee_releases.len()
            invariant
                i <= self.guarantee_releases@.len(),
                out@ == self.guarantee_releases@.subrange(0, i as int).map_values(guarantee_releases_key()),
            decreases self.guarantee_releases@.len() - i,
        {
            proof {
                assert(self.guarantee_releases@.subrange(0, i + 1).map_values(guarantee_releases_key()) =~= self.guarantee_releases@.subrange(
                    0,
                    i as int,
                ).map_values(guarantee_releases_key()).push(self.guarantee_releases@[i as int].guarantee_id));
            }
            out.push(self.guarantee_releases[i].guarantee_id);
            i = i + 1;
        }
        proof {
            lemma_full_prefix(self.guarantee_releases@);
        }
        out
    }

    fn ids_unique(&self) -> (r: bool)
        ensures
            r == self@.ids_unique(),
    {
        let providers = self.providers_ids();
        let streams = self.streams_ids();
        let series = self.series_ids();
        let confidential_subjects = self.confidential_subjects_ids();
        let credit_decisions = self.credit_decisions_ids();
        let guarantees = self.guarantees_ids();
        let funding_quotes = self.funding_quotes_ids();
        let issuances = self.issuances_ids();
        let default_attestations = self.default_attestations_ids();
        let guarantee_claims = self.guarantee_claims_ids();
        let guarantee_releases = self.guarantee_releases_ids();
        distinct_ids(&providers) && distinct_ids(&streams) && distinct_ids(&series) && distinct_ids(&confidential_subjects) && distinct_ids(&credit_decisions) && distinct_ids(&guarantees) && distinct_ids(&funding_quotes) && distinct_ids(&issuances) && distinct_ids(&default_attestations) && distinct_ids(&guarantee_claims) && distinct_ids(&guarantee_releases)
            && distinct_ids(&self.used_operations) && distinct_pairs(&self.used_provider_nonces)
            && distinct_ids(&self.used_allocation_nullifiers) && distinct_ids(
            &self.used_subject_nullifiers,
        )
    }
}

impl BookState {
    /// The provider is registered and holds the capability.
    pub open spec fn provider_holds(self, provider_id: Identifier, capability: ProviderCapability) -> bool {
        let pi = self.provider_index(provider_id);
        pi >= 0 && self.providers[pi].capabilities@.contains(capability)
    }

    /// A valid state attested by a registered stream attestor.
    pub open spec fn stream_ok(self, t: RegisteredStream) -> bool {
        &&& t.state.spec_valid()
        &&& self.provider_holds(t.attestor_provider_id, ProviderCapability::StreamAttestor)
    }

    /// Series `i` is in its registration form, on a registered stream, and
    /// the only series of its asset.
    pub open spec fn series_ok(self, i: int) -> bool {
        let x = self.series[i];
        &&& x.spec_valid_initial()
        &&& self.stream_index(x.stream_id) >= 0
        &&& forall|j: int|
            0 <= j < self.series.len() && j != i ==> (#[trigger] self.series[j]).receivable_asset_id
                != x.receivable_asset_id
    }

    /// Whether a recorded credit decision or guarantee is for the request.
    pub open spec fn artifact_for_request(self, request_id: Identifier) -> bool {
        ||| exists|i: int|
            0 <= i < self.credit_decisions.len() && (#[trigger] self.credit_decisions[i]).request_id
                == request_id
        ||| exists|i: int|
            0 <= i < self.guarantees.len() && (#[trigger] self.guarantees[i]).request_id == request_id
    }

    /// Binding `k` is well formed, vouched for by a registered credential
    /// issuer whose key epoch the identity layer knows (`registered`), the
    /// only binding of its subject nullifier, and backs a recorded artifact.
    pub open spec fn binding_ok(self, k: int, registered: bool) -> bool {
        let b = self.confidential_subjects[k];
        &&& b.well_formed()
        &&& registered
        &&& self.provider_holds(b.issuer_provider_id, ProviderCapability::CredentialIssuer)
        &&& forall|j: int|
            0 <= j < self.confidential_subjects.len() && j != k
                ==> (#[trigger] self.confidential_subjects[j]).subject_nullifier != b.subject_nullifier
        &&& self.artifact_for_request(b.request_id)
    }

    /// The consumed subject nullifiers are exactly those of the bindings.
    pub open spec fn subject_nullifiers_match(self) -> bool {
        let bound = self.confidential_subjects.map_values(binding_nullifier());
        &&& forall|k: int| 0 <= k < bound.len() ==> self.used_subject_nullifiers.contains(#[trigger] bound[k])
        &&& forall|u: int|
            0 <= u < self.used_subject_nullifiers.len() ==> bound.contains(
                #[trigger] self.used_subject_nullifiers[u],
            )
    }
}

pub open spec fn binding_nullifier() -> spec_fn(ConfidentialSubjectBinding) -> Identifier {
    |b: ConfidentialSubjectBinding| b.subject_nullifier
}

impl AethelBook {
    fn provider_holds(&self, provider_id: &Identifier, capability: ProviderCapability) -> (r: Result<
        bool,
        AethelError,
    >)
        ensures
            match r {
                Ok(b) => self@.provider_index(*provider_id) >= 0 && b == self@.provider_holds(
                    *provider_id,
                    capability,
                ),
                Err(e) => self@.provider_index(*provider_id) < 0 && e == AethelError::UnknownProvider,
            },
    {
        match self.find_provider_index(provider_id) {
            Some(i) => Ok(self.providers[i].holds(capability)),
            None => Err(AethelError::UnknownProvider),
        }
    }

    fn check_stream(&self, t: &RegisteredStream) -> (r: Result<(), AethelError>)
        ensures
            r is Ok <==> self@.stream_ok(*t),
            r == self@.stream_result(*t),
            r matches Err(e) ==> e == AethelError::InvalidStream || e == AethelError::UnknownProvider
                || e == AethelError::InvalidState,
    {
        reveal(BookState::stream_result);
        match t.state.validate() {
            Ok(()) => {},
            Err(e) => return Err(e),
        }
        match self.provider_holds(&t.attestor_provider_id, ProviderCapability::StreamAttestor) {
            Ok(true) => Ok(()),
            Ok(false) => Err(AethelError::InvalidState),
            Err(e) => Err(e),
        }
    }

    fn check_series(&self, i: usize) -> (r: Result<(), AethelError>)
        requires
            i < self.series@.len(),
        ensures
            r is Ok <==> self@.series_ok(i as int),
            r == self@.series_result(i as int),
            r matches Err(e) ==> e == AethelError::InvalidSeries || e == AethelError::InvalidState,
    {
        reveal(BookState::series_result);
        let x = &self.series[i];
        match x.validate_initial() {
            Ok(()) => {},
            Err(e) => return Err(e),
        }
        if self.find_stream(&x.stream_id).is_none() {
            return Err(AethelError::InvalidState);
        }
        let mut j: usize = 0;
        while j < self.series.len()
            invariant
                j <= self.series@.len(),
                i < self.series@.len(),
                self@.series[i as int].spec_valid_initial(),
                forall|k: int|
                    0 <= k < j && k != i ==> (#[trigger] self.series@[k]).receivable_asset_id
                        != self.series@[i as int].receivable_asset_id,
            decreases self.series@.len() - j,
        {
            if j != i && same_id(&self.series[j].receivable_asset_id, &self.series[i].receivable_asset_id) {
                proof {
                    reveal(BookState::series_result);
                }
                return Err(AethelError::InvalidState);
            }
            j = j + 1;
        }
        Ok(())
    }

    fn artifact_for_request(&self, request_id: &Identifier) -> (r: bool)
        ensures
            r == self@.artifact_for_request(*request_id),
    {
        let mut i: usize = 0;
        while i < self.credit_decisions.len()
            invariant
                i <= self.credit_decisions@.len(),
                forall|k: int|
                    0 <= k < i ==> (#[trigger] self.credit_decisions@[k]).request_id != *request_id,
            decreases self.credit_decisions@.len() - i,
        {
            if same_id(&self.credit_decisions[i].request_id, request_id) {
                assert(self.credit_decisions@[i as int].request_id == *request_id);
                assert(self@.credit_decisions[i as int].request_id == *request_id);
                return true;
            }
            i = i + 1;
        }
        let mut j: usize = 0;
        while j < self.guarantees.len()
            invariant
                j <= self.guarantees@.len(),
                forall|k: int| 0 <= k < self.credit_decisions@.len() ==> (#[trigger] self.credit_decisions@[k]).request_id != *request_id,
                forall|k: int| 0 <= k < j ==> (#[trigger] self.guarantees@[k]).request_id != *request_id,
            decreases self.guarantees@.len() - j,
        {
            if same_id(&self.guarantees[j].request_id, request_id) {
                assert(self.guarantees@[j as int].request_id == *request_id);
                assert(self@.guarantees[j as int].request_id == *request_id);
                return true;
            }
            j = j + 1;
        }
        false
    }

    fn check_binding(&self, k: usize, registered: bool) -> (r: Result<(), AethelError>)
        requires
            k < self.confidential_subjects@.len(),
        ensures
            r is Ok <==> self@.binding_ok(k as int, registered),
            r == self@.binding_result(k as int, registered),
            r matches Err(e) ==> e == AethelError::InvalidConfidentialSubject || e
                == AethelError::UnknownProvider || e == AethelError::InvalidState,
    {
        reveal(BookState::binding_result);
        let b = &self.confidential_subjects[k];
        if !binding_is_well_formed(b) {
            return Err(AethelError::InvalidConfidentialSubject);
        }
        let holds = match self.provider_holds(&b.issuer_provider_id, ProviderCapability::CredentialIssuer) {
            Ok(h) => h,
            Err(e) => return Err(e),
        };
        if !registered || !holds {
            return Err(AethelError::InvalidState);
        }
        let mut j: usize = 0;
        while j < self.confidential_subjects.len()
            invariant
                j <= self.confidential_subjects@.len(),
                k < self.confidential_subjects@.len(),
                self@.confidential_subjects[k as int].well_formed(),
                self@.provider_index(self@.confidential_subjects[k as int].issuer_provider_id) >= 0,
                forall|m: int|
                    0 <= m < j && m != k ==> (#[trigger] self.confidential_subjects@[m]).subject_nullifier
                        != self.confidential_subjects@[k as int].subject_nullifier,
            decreases self.confidential_subjects@.len() - j,
        {
            if j != k && same_id(
                &self.confidential_subjects[j].subject_nullifier,
                &self.confidential_subjects[k].subject_nullifier,
            ) {
                proof {
                    reveal(BookState::binding_result);
                }
                return Err(AethelError::InvalidState);
            }
            j = j + 1;
        }
        if !self.artifact_for_request(&b.request_id) {
            return Err(AethelError::InvalidState);
        }
        Ok(())
    }

    fn subject_nullifiers_match(&self) -> (r: bool)
        ensures
            r == self@.subject_nullifiers_match(),
    {
        let mut bound: Vec<Identifier> = Vec::new();
        let mut i: usize = 0;
        while i < self.confidential_subjects.len()
            invariant
                i <= self.confidential_subjects@.len(),
                bound@ == self.confidential_subjects@.subrange(0, i as int).map_values(binding_nullifier()),
            decreases self.confidential_subjects@.len() - i,
        {
            proof {
                assert(self.confidential_subjects@.subrange(0, i + 1).map_values(binding_nullifier())
                    =~= self.confidential_subjects@.subrange(0, i as int).map_values(
                    binding_nullifier(),
                ).push(self.confidential_subjects@[i as int].subject_nullifier));
            }
            bound.push(self.confidential_subjects[i].subject_nullifier);
            i = i + 1;
        }
        proof {
            lemma_full_prefix(self.confidential_subjects@);
        }
        let mut k: usize = 0;
        while k < bound.len()
            invariant
                k <= bound@.len(),
                bound@ == self.confidential_subjects@.map_values(binding_nullifier()),
                forall|m: int| 0 <= m < k ==> self.used_subject_nullifiers@.contains(#[trigger] bound@[m]),
            decreases bound@.len() - k,
        {
            if !contains_id(&self.used_subject_nullifiers, &bound[k]) {
                assert(!self@.subject_nullifiers_match()) by {
                    let b = self@.confidential_subjects.map_values(binding_nullifier());
                    assert(b == bound@);
                    assert(!self@.used_subject_nullifiers.contains(b[k as int]));
                }
                return false;
            }
            k = k + 1;
        }
        let mut u: usize = 0;
        while u < self.used_subject_nullifiers.len()
            invariant
                u <= self.used_subject_nullifiers@.len(),
                bound@ == self.confidential_subjects@.map_values(binding_nullifier()),
                forall|m: int| 0 <= m < bound@.len() ==> self.used_subject_nullifiers@.contains(#[trigger] bound@[m]),
                forall|w: int| 0 <= w < u ==> bound@.contains(#[trigger] self.used_subject_nullifiers@[w]),
            decreases self.used_subject_nullifiers@.len() - u,
        {
            if !contains_id(&bound, &self.used_subject_nullifiers[u]) {
                assert(!self@.subject_nullifiers_match()) by {
                    let b = self@.confidential_subjects.map_values(binding_nullifier());
                    assert(b == bound@);
                    assert(!b.contains(self@.used_subject_nullifiers[u as int]));
                }
                return false;
            }
            u = u + 1;
        }
        true
    }
}

/// A guarantee in the form its guarantor signed: available and unbound.
pub open spec fn initial_guarantee(g: GuaranteeCommitment) -> GuaranteeCommitment {
    GuaranteeCommitment { status: GuaranteeStatus::Available, bound_issuance_id: None, ..g }
}

/// A funding quote in the form its provider signed: unbound.
pub open spec fn initial_quote(q: FundingQuote) -> FundingQuote {
    FundingQuote { bound_issuance_id: None, ..q }
}

pub open spec fn allocation_nullifier_of() -> spec_fn(ReceivableIssuance) -> Identifier {
    |x: ReceivableIssuance| x.allocation_nullifier
}

impl BookState {
    /// The recorded signature verifies under one of the provider's keys.
    pub open spec fn recorded_ok(self, pi: int, statement: Seq<u8>, signature: Seq<u8>) -> bool {
        self.providers[pi].recorded_signature_result(statement, signature) is Ok
    }

    /// A recorded credit decision: well formed, signed by a registered credit
    /// assessor, on a registered series, and backed as the series' subject
    /// policy requires.
    #[verifier::opaque]
    pub open spec fn decision_ok(self, d: CreditDecision) -> bool {
        let pi = self.provider_index(d.provider_id);
        &&& d.well_formed()
        &&& pi >= 0
        &&& self.recorded_ok(pi, d.spec_statement(), d.signature@)
        &&& self.series_index(d.series_id) >= 0
        &&& self.providers[pi].capabilities@.contains(ProviderCapability::CreditAssessor)
        &&& self.subject_binding_error(d.series_id, d.request_id, d.valid_until) is None
    }

    /// A recorded guarantee: its signed form well formed and signed by a
    /// registered guarantor, on a registered series, bound exactly when bound
    /// or claimed, released exactly when a release is recorded, consistent
    /// with the credit decision it names, and backed as the series' subject
    /// policy requires.
    #[verifier::opaque]
    pub open spec fn guarantee_ok(self, g: GuaranteeCommitment) -> bool {
        let i = initial_guarantee(g);
        let pi = self.provider_index(g.provider_id);
        &&& i.well_formed()
        &&& pi >= 0
        &&& self.recorded_ok(pi, i.spec_statement(), g.signature@)
        &&& self.providers[pi].capabilities@.contains(ProviderCapability::Guarantor)
        &&& self.series_index(g.series_id) >= 0
        &&& !((g.status == GuaranteeStatus::Available || g.status == GuaranteeStatus::Released)
            && g.bound_issuance_id is Some)
        &&& !((g.status == GuaranteeStatus::Bound || g.status == GuaranteeStatus::Claimed)
            && g.bound_issuance_id is None)
        &&& (self.release_index(g.guarantee_id) >= 0) == (g.status == GuaranteeStatus::Released)
        &&& (g.credit_decision_id matches Some(id) ==> {
            let di = self.decision_index(id);
            let d = self.credit_decisions[di];
            di >= 0 && spec_same_request_state(
                d.request_id,
                d.series_id,
                d.stream_state_version,
                d.stream_state_root,
                g.request_id,
                g.series_id,
                g.stream_state_version,
                g.stream_state_root,
            )
        })
        &&& self.subject_binding_error(g.series_id, g.request_id, g.valid_until) is None
    }

    /// A recorded funding quote: its signed form well formed and signed by a
    /// registered liquidity provider, on a registered series, and consistent
    /// with the credit decision and guarantee it names.
    #[verifier::opaque]
    pub open spec fn quote_ok(self, q: FundingQuote) -> bool {
        let i = initial_quote(q);
        let pi = self.provider_index(q.provider_id);
        &&& i.well_formed()
        &&& pi >= 0
        &&& self.recorded_ok(pi, i.spec_statement(), q.signature@)
        &&& self.series_index(q.series_id) >= 0
        &&& self.providers[pi].capabilities@.contains(ProviderCapability::LiquidityProvider)
        &&& (q.credit_decision_id matches Some(id) ==> {
            let di = self.decision_index(id);
            let d = self.credit_decisions[di];
            di >= 0 && spec_same_request_state(
                d.request_id,
                d.series_id,
                d.stream_state_version,
                d.stream_state_root,
                q.request_id,
                q.series_id,
                q.stream_state_version,
                q.stream_state_root,
            )
        })
        &&& (q.guarantee_id matches Some(id) ==> {
            let gi = self.guarantee_index(id);
            let g = self.guarantees[gi];
            gi >= 0 && spec_same_request_state(
                g.request_id,
                g.series_id,
                g.stream_state_version,
                g.stream_state_root,
                q.request_id,
                q.series_id,
                q.stream_state_version,
                q.stream_state_root,
            )
        })
    }

    /// Issuance `k`: well formed, on a registered series whose required
    /// artifacts it names, the only issuance of its note and allocation
    /// nullifier, and bound to the credit decision, guarantee, and funding
    /// quote it names, each describing its request and stream state.
    #[verifier::opaque]
    pub open spec fn issuance_ok(self, k: int) -> bool {
        let x = self.issuances[k];
        let si = self.series_index(x.series_id);
        let policy = self.series[si].policy;
        &&& x.well_formed()
        &&& si >= 0
        &&& forall|j: int|
            0 <= j < self.issuances.len() && j != k ==> (#[trigger] self.issuances[j]).note_id
                != x.note_id && self.issuances[j].allocation_nullifier != x.allocation_nullifier
        &&& !(policy.requires_credit_decision && x.credit_decision_id is None)
        &&& !(policy.requires_guarantee && x.guarantee_id is None)
        &&& !(policy.requires_funding_reservation && x.funding_quote_id is None)
        &&& (x.credit_decision_id matches Some(id) ==> {
            let di = self.decision_index(id);
            let d = self.credit_decisions[di];
            di >= 0 && spec_same_request_state(
                d.request_id,
                d.series_id,
                d.stream_state_version,
                d.stream_state_root,
                x.request_id,
                x.series_id,
                x.before_stream_state_version,
                x.before_stream_state_root,
            )
        })
        &&& (x.guarantee_id matches Some(id) ==> {
            let gi = self.guarantee_index(id);
            let g = self.guarantees[gi];
            &&& gi >= 0
            &&& g.bound_issuance_id == Some(x.issuance_id)
            &&& (g.status == GuaranteeStatus::Bound || g.status == GuaranteeStatus::Claimed)
            &&& spec_same_request_state(
                g.request_id,
                g.series_id,
                g.stream_state_version,
                g.stream_state_root,
                x.request_id,
                x.series_id,
                x.before_stream_state_version,
                x.before_stream_state_root,
            )
            &&& g.credit_decision_id == x.credit_decision_id
        })
        &&& (x.funding_quote_id matches Some(id) ==> {
            let qi = self.quote_index(id);
            let q = self.funding_quotes[qi];
            &&& qi >= 0
            &&& q.bound_issuance_id == Some(x.issuance_id)
            &&& spec_same_request_state(
                q.request_id,
                q.series_id,
                q.stream_state_version,
                q.stream_state_root,
                x.request_id,
                x.series_id,
                x.before_stream_state_version,
                x.before_stream_state_root,
            )
            &&& q.credit_decision_id == x.credit_decision_id
            &&& q.guarantee_id == x.guarantee_id
        })
    }

    /// The consumed allocation nullifiers are exactly those of the
    /// issuances.
    pub open spec fn allocation_nullifiers_match(self) -> bool {
        let issued = self.issuances.map_values(allocation_nullifier_of());
        &&& forall|k: int| 0 <= k < issued.len() ==> self.used_allocation_nullifiers.contains(#[trigger] issued[k])
        &&& forall|u: int|
            0 <= u < self.used_allocation_nullifiers.len() ==> issued.contains(
                #[trigger] self.used_allocation_nullifiers[u],
            )
    }

    /// A recorded release: well formed, signed by a registered guarantor, of
    /// that guarantor's guarantee, which is released.
    #[verifier::opaque]
    pub open spec fn release_ok(self, r: GuaranteeRelease) -> bool {
        let pi = self.provider_index(r.provider_id);
        let gi = self.guarantee_index(r.guarantee_id);
        &&& r.well_formed()
        &&& pi >= 0
        &&& self.recorded_ok(pi, r.spec_statement(), r.signature@)
        &&& gi >= 0
        &&& self.guarantees[gi].provider_id == r.provider_id
        &&& self.guarantees[gi].status == GuaranteeStatus::Released
        &&& self.providers[pi].capabilities@.contains(ProviderCapability::Guarantor)
    }

    /// A recorded default attestation: well formed and signed by a
    /// registered servicer.
    #[verifier::opaque]
    pub open spec fn default_ok(self, a: DefaultAttestation) -> bool {
        let pi = self.provider_index(a.provider_id);
        &&& a.well_formed()
        &&& pi >= 0
        &&& self.recorded_ok(pi, a.spec_statement(), a.signature@)
        &&& self.providers[pi].capabilities@.contains(ProviderCapability::Servicer)
    }

    /// A recorded claim: well formed, on a claimed guarantee bound to the
    /// claimed issuance, with a default attestation of the issuance's
    /// series' stream.
    #[verifier::opaque]
    pub open spec fn claim_ok(self, c: GuaranteeClaim) -> bool {
        let gi = self.guarantee_index(c.guarantee_id);
        let ii = self.issuance_index(c.issuance_id);
        let di = self.default_index(c.default_attestation_id);
        let si = self.series_index(self.issuances[ii].series_id);
        &&& c.well_formed()
        &&& gi >= 0
        &&& ii >= 0
        &&& di >= 0
        &&& si >= 0
        &&& self.guarantees[gi].status == GuaranteeStatus::Claimed
        &&& self.guarantees[gi].bound_issuance_id == Some(c.issuance_id)
        &&& self.default_attestations[di].stream_id == self.series[si].stream_id
    }
}

impl AethelBook {
    fn verify_recorded(&self, pi: usize, statement: &Commitment, signature: &[u8]) -> (r: Result<(), AethelError>)
        requires
            pi < self.providers@.len(),
        ensures
            r is Ok <==> self@.recorded_ok(pi as int, statement@, signature@),
            r == match self@.providers[pi as int].recorded_signature_result(statement@, signature@) {
                Ok(_) => Ok::<(), AethelError>(()),
                Err(e) => Err(from_provider(e)),
            },
    {
        match self.providers[pi].verify_recorded_signature(statement, signature) {
            Ok(()) => Ok(()),
            Err(e) => Err(aethel_error(e)),
        }
    }

    fn check_recorded_decision(&self, d: &CreditDecision) -> (r: Result<(), AethelError>)
        ensures
            r is Ok <==> self@.decision_ok(*d),
            r == self@.decision_result(*d),
    {
        reveal(BookState::decision_result);
        reveal(BookState::decision_ok);
        let statement = match d.statement() {
            Ok(c) => c,
            Err(e) => return Err(aethel_error(e)),
        };
        let pi = match self.find_provider_index(&d.provider_id) {
            Some(i) => i,
            None => return Err(AethelError::UnknownProvider),
        };
        match self.verify_recorded(pi, &statement, d.signature.as_slice()) {
            Ok(()) => {},
            Err(e) => return Err(e),
        }
        if self.find_series(&d.series_id).is_none() || !self.providers[pi].holds(
            ProviderCapability::CreditAssessor,
        ) {
            return Err(AethelError::InvalidState);
        }
        self.check_subject_binding(&d.series_id, &d.request_id, d.valid_until)
    }

    /// The statement of a guarantee in the form its guarantor signed.
    fn initial_guarantee_statement(g: &GuaranteeCommitment) -> (r: Result<Commitment, AethelError>)
        ensures
            r matches Ok(c) ==> initial_guarantee(*g).well_formed() && c@ == initial_guarantee(
                *g,
            ).spec_statement(),
            r is Err ==> !initial_guarantee(*g).well_formed(),
            r matches Err(e) ==> e == from_provider(ProviderError::InvalidGuarantee),
    {
        let initial = GuaranteeCommitment {
            operation_id: g.operation_id,
            guarantee_id: g.guarantee_id,
            request_id: g.request_id,
            provider_id: g.provider_id,
            series_id: g.series_id,
            stream_state_version: g.stream_state_version,
            stream_state_root: g.stream_state_root,
            credit_decision_id: g.credit_decision_id,
            defmi_facility_id: g.defmi_facility_id,
            defmi_hold_id: g.defmi_hold_id,
            coverage_commitment: g.coverage_commitment,
            loss_layer: g.loss_layer,
            guarantee_terms_digest: g.guarantee_terms_digest,
            claim_policy_digest: g.claim_policy_digest,
            relation_proof_digest: g.relation_proof_digest,
            valid_until: g.valid_until,
            nonce: g.nonce,
            signature: Vec::new(),
            status: GuaranteeStatus::Available,
            bound_issuance_id: None,
        };
        proof {
            assert(initial.unsigned_encoding() == initial_guarantee(*g).unsigned_encoding());
        }
        match initial.statement() {
            Ok(c) => Ok(c),
            Err(e) => Err(aethel_error(e)),
        }
    }

    #[verifier::spinoff_prover]
    #[verifier::rlimit(40)]
    fn check_recorded_guarantee(&self, g: &GuaranteeCommitment) -> (r: Result<(), AethelError>)
        ensures
            r is Ok <==> self@.guarantee_ok(*g),
            r == self@.guarantee_result(*g),
    {
        reveal(BookState::guarantee_result);
        reveal(BookState::guarantee_ok);
        let statement = match Self::initial_guarantee_statement(g) {
            Ok(c) => c,
            Err(e) => return Err(e),
        };
        let pi = match self.find_provider_index(&g.provider_id) {
            Some(i) => i,
            None => return Err(AethelError::UnknownProvider),
        };
        match self.verify_recorded(pi, &statement, g.signature.as_slice()) {
            Ok(()) => {},
            Err(e) => return Err(e),
        }
        let released = self.find_release(&g.guarantee_id).is_some();
        let available_or_released = matches!(g.status, GuaranteeStatus::Available)
            || matches!(g.status, GuaranteeStatus::Released);
        let bound_or_claimed = matches!(g.status, GuaranteeStatus::Bound) || matches!(
            g.status,
            GuaranteeStatus::Claimed
        );
        if !self.providers[pi].holds(ProviderCapability::Guarantor) || self.find_series(
            &g.series_id,
        ).is_none() || (available_or_released && g.bound_issuance_id.is_some()) || (
        bound_or_claimed && g.bound_issuance_id.is_none()) || released != matches!(
            g.status,
            GuaranteeStatus::Released
        ) {
            return Err(AethelError::InvalidState);
        }
        if let Some(id) = &g.credit_decision_id {
            let di = match self.find_decision(id) {
                Some(i) => i,
                None => return Err(AethelError::InvalidState),
            };
            let d = &self.credit_decisions[di];
            if !same_request_state(
                d.request_id,
                d.series_id,
                d.stream_state_version,
                d.stream_state_root,
                g.request_id,
                g.series_id,
                g.stream_state_version,
                g.stream_state_root,
            ) {
                return Err(AethelError::InvalidState);
            }
        }
        self.check_subject_binding(&g.series_id, &g.request_id, g.valid_until)
    }

    /// The statement of a funding quote in the form its provider signed.
    fn initial_quote_statement(q: &FundingQuote) -> (r: Result<Commitment, AethelError>)
        ensures
            r matches Ok(c) ==> initial_quote(*q).well_formed() && c@ == initial_quote(
                *q,
            ).spec_statement(),
            r is Err ==> !initial_quote(*q).well_formed(),
            r matches Err(e) ==> e == from_provider(ProviderError::InvalidFundingQuote),
    {
        let initial = FundingQuote {
            operation_id: q.operation_id,
            quote_id: q.quote_id,
            request_id: q.request_id,
            provider_id: q.provider_id,
            series_id: q.series_id,
            stream_state_version: q.stream_state_version,
            stream_state_root: q.stream_state_root,
            credit_decision_id: q.credit_decision_id,
            guarantee_id: q.guarantee_id,
            cash_asset_id: q.cash_asset_id,
            cash_reservation_id: q.cash_reservation_id,
            advance_commitment: q.advance_commitment,
            price_commitment: q.price_commitment,
            quote_terms_digest: q.quote_terms_digest,
            policy_digest: q.policy_digest,
            relation_proof_digest: q.relation_proof_digest,
            valid_until: q.valid_until,
            nonce: q.nonce,
            signature: Vec::new(),
            bound_issuance_id: None,
        };
        proof {
            assert(initial.unsigned_encoding() == initial_quote(*q).unsigned_encoding());
        }
        match initial.statement() {
            Ok(c) => Ok(c),
            Err(e) => Err(aethel_error(e)),
        }
    }

    fn check_recorded_quote(&self, q: &FundingQuote) -> (r: Result<(), AethelError>)
        ensures
            r is Ok <==> self@.quote_ok(*q),
            r == self@.quote_result(*q),
    {
        reveal(BookState::quote_result);
        reveal(BookState::quote_ok);
        let statement = match Self::initial_quote_statement(q) {
            Ok(c) => c,
            Err(e) => return Err(e),
        };
        let pi = match self.find_provider_index(&q.provider_id) {
            Some(i) => i,
            None => return Err(AethelError::UnknownProvider),
        };
        match self.verify_recorded(pi, &statement, q.signature.as_slice()) {
            Ok(()) => {},
            Err(e) => return Err(e),
        }
        if self.find_series(&q.series_id).is_none() || !self.providers[pi].holds(
            ProviderCapability::LiquidityProvider,
        ) {
            return Err(AethelError::InvalidState);
        }
        if let Some(id) = &q.credit_decision_id {
            let di = match self.find_decision(id) {
                Some(i) => i,
                None => return Err(AethelError::InvalidState),
            };
            let d = &self.credit_decisions[di];
            if !same_request_state(
                d.request_id,
                d.series_id,
                d.stream_state_version,
                d.stream_state_root,
                q.request_id,
                q.series_id,
                q.stream_state_version,
                q.stream_state_root,
            ) {
                return Err(AethelError::InvalidState);
            }
        }
        if let Some(id) = &q.guarantee_id {
            let gi = match self.find_guarantee(id) {
                Some(i) => i,
                None => return Err(AethelError::InvalidState),
            };
            let g = &self.guarantees[gi];
            if !same_request_state(
                g.request_id,
                g.series_id,
                g.stream_state_version,
                g.stream_state_root,
                q.request_id,
                q.series_id,
                q.stream_state_version,
                q.stream_state_root,
            ) {
                return Err(AethelError::InvalidState);
            }
        }
        Ok(())
    }
}

impl AethelBook {
    fn issuance_unique(&self, k: usize) -> (r: bool)
        requires
            k < self.issuances@.len(),
        ensures
            r == forall|j: int|
                0 <= j < self.issuances@.len() && j != k ==> (#[trigger] self.issuances@[j]).note_id
                    != self.issuances@[k as int].note_id && self.issuances@[j].allocation_nullifier
                    != self.issuances@[k as int].allocation_nullifier,
    {
        let mut j: usize = 0;
        while j < self.issuances.len()
            invariant
                j <= self.issuances@.len(),
                k < self.issuances@.len(),
                forall|m: int|
                    0 <= m < j && m != k ==> (#[trigger] self.issuances@[m]).note_id
                        != self.issuances@[k as int].note_id && self.issuances@[m].allocation_nullifier
                        != self.issuances@[k as int].allocation_nullifier,
            decreases self.issuances@.len() - j,
        {
            if j != k && (same_id(&self.issuances[j].note_id, &self.issuances[k].note_id) || same_id(
                &self.issuances[j].allocation_nullifier,
                &self.issuances[k].allocation_nullifier,
            )) {
                return false;
            }
            j = j + 1;
        }
        true
    }

    #[verifier::spinoff_prover]
    #[verifier::rlimit(30)]
    fn check_recorded_issuance(&self, k: usize) -> (r: Result<(), AethelError>)
        requires
            k < self.issuances@.len(),
        ensures
            r is Ok <==> self@.issuance_ok(k as int),
            r == self@.issuance_result(k as int),
    {
        reveal(BookState::issuance_result);
        reveal(BookState::issuance_ok);
        let x = &self.issuances[k];
        match x.statement() {
            Ok(_) => {},
            Err(e) => return Err(e),
        }
        let si = match self.find_series(&x.series_id) {
            Some(i) => i,
            None => return Err(AethelError::InvalidState),
        };
        if !self.issuance_unique(k) {
            return Err(AethelError::InvalidState);
        }
        let policy = &self.series[si].policy;
        if (policy.requires_credit_decision && x.credit_decision_id.is_none()) || (
        policy.requires_guarantee && x.guarantee_id.is_none()) || (
        policy.requires_funding_reservation && x.funding_quote_id.is_none()) {
            return Err(AethelError::InvalidState);
        }
        if let Some(id) = &x.credit_decision_id {
            let di = match self.find_decision(id) {
                Some(i) => i,
                None => return Err(AethelError::InvalidState),
            };
            let d = &self.credit_decisions[di];
            if !same_request_state(
                d.request_id,
                d.series_id,
                d.stream_state_version,
                d.stream_state_root,
                x.request_id,
                x.series_id,
                x.before_stream_state_version,
                x.before_stream_state_root,
            ) {
                return Err(AethelError::InvalidState);
            }
        }
        if let Some(id) = &x.guarantee_id {
            let gi = match self.find_guarantee(id) {
                Some(i) => i,
                None => return Err(AethelError::InvalidState),
            };
            let g = &self.guarantees[gi];
            if !same_opt_id(&g.bound_issuance_id, &Some(x.issuance_id)) || !(matches!(
                g.status,
                GuaranteeStatus::Bound
            ) || matches!(g.status, GuaranteeStatus::Claimed)) || !same_request_state(
                g.request_id,
                g.series_id,
                g.stream_state_version,
                g.stream_state_root,
                x.request_id,
                x.series_id,
                x.before_stream_state_version,
                x.before_stream_state_root,
            ) || !same_opt_id(&g.credit_decision_id, &x.credit_decision_id) {
                return Err(AethelError::InvalidState);
            }
        }
        if let Some(id) = &x.funding_quote_id {
            let qi = match self.find_quote(id) {
                Some(i) => i,
                None => return Err(AethelError::InvalidState),
            };
            let q = &self.funding_quotes[qi];
            if !same_opt_id(&q.bound_issuance_id, &Some(x.issuance_id)) || !same_request_state(
                q.request_id,
                q.series_id,
                q.stream_state_version,
                q.stream_state_root,
                x.request_id,
                x.series_id,
                x.before_stream_state_version,
                x.before_stream_state_root,
            ) || !same_opt_id(&q.credit_decision_id, &x.credit_decision_id) || !same_opt_id(
                &q.guarantee_id,
                &x.guarantee_id,
            ) {
                return Err(AethelError::InvalidState);
            }
        }
        Ok(())
    }

    fn allocation_nullifiers_match(&self) -> (r: bool)
        ensures
            r == self@.allocation_nullifiers_match(),
    {
        let mut issued: Vec<Identifier> = Vec::new();
        let mut i: usize = 0;
        while i < self.issuances.len()
            invariant
                i <= self.issuances@.len(),
                issued@ == self.issuances@.subrange(0, i as int).map_values(allocation_nullifier_of()),
            decreases self.issuances@.len() - i,
        {
            proof {
                assert(self.issuances@.subrange(0, i + 1).map_values(allocation_nullifier_of())
                    =~= self.issuances@.subrange(0, i as int).map_values(allocation_nullifier_of()).push(
                    self.issuances@[i as int].allocation_nullifier,
                ));
            }
            issued.push(self.issuances[i].allocation_nullifier);
            i = i + 1;
        }
        proof {
            lemma_full_prefix(self.issuances@);
        }
        let mut k: usize = 0;
        while k < issued.len()
            invariant
                k <= issued@.len(),
                issued@ == self.issuances@.map_values(allocation_nullifier_of()),
                forall|m: int| 0 <= m < k ==> self.used_allocation_nullifiers@.contains(#[trigger] issued@[m]),
            decreases issued@.len() - k,
        {
            if !contains_id(&self.used_allocation_nullifiers, &issued[k]) {
                assert(!self@.allocation_nullifiers_match()) by {
                    let b = self@.issuances.map_values(allocation_nullifier_of());
                    assert(b == issued@);
                    assert(!self@.used_allocation_nullifiers.contains(b[k as int]));
                }
                return false;
            }
            k = k + 1;
        }
        let mut u: usize = 0;
        while u < self.used_allocation_nullifiers.len()
            invariant
                u <= self.used_allocation_nullifiers@.len(),
                issued@ == self.issuances@.map_values(allocation_nullifier_of()),
                forall|m: int| 0 <= m < issued@.len() ==> self.used_allocation_nullifiers@.contains(#[trigger] issued@[m]),
                forall|w: int| 0 <= w < u ==> issued@.contains(#[trigger] self.used_allocation_nullifiers@[w]),
            decreases self.used_allocation_nullifiers@.len() - u,
        {
            if !contains_id(&issued, &self.used_allocation_nullifiers[u]) {
                assert(!self@.allocation_nullifiers_match()) by {
                    let b = self@.issuances.map_values(allocation_nullifier_of());
                    assert(b == issued@);
                    assert(!b.contains(self@.used_allocation_nullifiers[u as int]));
                }
                return false;
            }
            u = u + 1;
        }
        true
    }

    fn check_recorded_release(&self, rel: &GuaranteeRelease) -> (r: Result<(), AethelError>)
        ensures
            r is Ok <==> self@.release_ok(*rel),
            r == self@.release_result(*rel),
    {
        reveal(BookState::release_result);
        reveal(BookState::release_ok);
        let statement = match rel.statement() {
            Ok(c) => c,
            Err(e) => return Err(aethel_error(e)),
        };
        let pi = match self.find_provider_index(&rel.provider_id) {
            Some(i) => i,
            None => return Err(AethelError::UnknownProvider),
        };
        match self.verify_recorded(pi, &statement, rel.signature.as_slice()) {
            Ok(()) => {},
            Err(e) => return Err(e),
        }
        let gi = match self.find_guarantee(&rel.guarantee_id) {
            Some(i) => i,
            None => return Err(AethelError::InvalidState),
        };
        let g = &self.guarantees[gi];
        if !same_id(&g.provider_id, &rel.provider_id) || !matches!(g.status, GuaranteeStatus::Released)
            || !self.providers[pi].holds(ProviderCapability::Guarantor) {
            return Err(AethelError::InvalidState);
        }
        Ok(())
    }

    fn check_recorded_default(&self, a: &DefaultAttestation) -> (r: Result<(), AethelError>)
        ensures
            r is Ok <==> self@.default_ok(*a),
            r == self@.default_result(*a),
    {
        reveal(BookState::default_result);
        reveal(BookState::default_ok);
        let statement = match a.statement() {
            Ok(c) => c,
            Err(e) => return Err(aethel_error(e)),
        };
        let pi = match self.find_provider_index(&a.provider_id) {
            Some(i) => i,
            None => return Err(AethelError::UnknownProvider),
        };
        match self.verify_recorded(pi, &statement, a.signature.as_slice()) {
            Ok(()) => {},
            Err(e) => return Err(e),
        }
        if !self.providers[pi].holds(ProviderCapability::Servicer) {
            return Err(AethelError::InvalidState);
        }
        Ok(())
    }

    fn check_recorded_claim(&self, c: &GuaranteeClaim) -> (r: Result<(), AethelError>)
        ensures
            r is Ok <==> self@.claim_ok(*c),
            r == self@.claim_result(*c),
    {
        reveal(BookState::claim_result);
        reveal(BookState::claim_ok);
        match c.statement() {
            Ok(_) => {},
            Err(e) => return Err(e),
        }
        let gi = match self.find_guarantee(&c.guarantee_id) {
            Some(i) => i,
            None => return Err(AethelError::InvalidState),
        };
        let ii = match self.find_issuance(&c.issuance_id) {
            Some(i) => i,
            None => return Err(AethelError::InvalidState),
        };
        let di = match self.find_default(&c.default_attestation_id) {
            Some(i) => i,
            None => return Err(AethelError::InvalidState),
        };
        let si = match self.find_series(&self.issuances[ii].series_id) {
            Some(i) => i,
            None => return Err(AethelError::InvalidState),
        };
        let g = &self.guarantees[gi];
        if !matches!(g.status, GuaranteeStatus::Claimed) || !same_opt_id(
            &g.bound_issuance_id,
            &Some(c.issuance_id),
        ) || !same_id(&self.default_attestations[di].stream_id, &self.series[si].stream_id) {
            return Err(AethelError::InvalidState);
        }
        Ok(())
    }
}

/// What the check of a registered provider answers.
pub open spec fn provider_result(p: ProviderDefinition) -> Result<(), AethelError> {
    match p.validate_result() {
        Ok(_) => Ok(()),
        Err(e) => Err(from_provider(e)),
    }
}

impl BookState {
    pub open spec fn providers_valid(self) -> bool {
        forall|j: int| 0 <= j < self.providers.len() ==> (#[trigger] self.providers[j]).validate_result() is Ok
    }

    pub open spec fn streams_valid(self) -> bool {
        forall|j: int| 0 <= j < self.streams.len() ==> self.stream_ok(#[trigger] self.streams[j])
    }

    pub open spec fn series_valid(self) -> bool {
        forall|j: int| 0 <= j < self.series.len() ==> #[trigger] self.series_ok(j)
    }

    pub open spec fn decisions_valid(self) -> bool {
        forall|j: int| 0 <= j < self.credit_decisions.len() ==> self.decision_ok(#[trigger] self.credit_decisions[j])
    }

    pub open spec fn guarantees_valid(self) -> bool {
        forall|j: int| 0 <= j < self.guarantees.len() ==> self.guarantee_ok(#[trigger] self.guarantees[j])
    }

    pub open spec fn quotes_valid(self) -> bool {
        forall|j: int| 0 <= j < self.funding_quotes.len() ==> self.quote_ok(#[trigger] self.funding_quotes[j])
    }

    pub open spec fn issuances_valid(self) -> bool {
        forall|j: int| 0 <= j < self.issuances.len() ==> #[trigger] self.issuance_ok(j)
    }

    pub open spec fn releases_valid(self) -> bool {
        forall|j: int| 0 <= j < self.guarantee_releases.len() ==> self.release_ok(#[trigger] self.guarantee_releases[j])
    }

    pub open spec fn defaults_valid(self) -> bool {
        forall|j: int| 0 <= j < self.default_attestations.len() ==> self.default_ok(#[trigger] self.default_attestations[j])
    }

    pub open spec fn claims_valid(self) -> bool {
        forall|j: int| 0 <= j < self.guarantee_claims.len() ==> self.claim_ok(#[trigger] self.guarantee_claims[j])
    }

    /// Every provider valid, every stream valid and attested by a registered
    /// stream attestor, and every series in its registration form on a
    /// registered stream and alone on its asset.
    pub open spec fn registry_valid(self) -> bool {
        &&& self.providers_valid()
        &&& self.streams_valid()
        &&& self.series_valid()
    }

    /// Every recorded credit decision, guarantee, and funding quote checks
    /// out.
    pub open spec fn artifacts_valid(self) -> bool {
        &&& self.decisions_valid()
        &&& self.guarantees_valid()
        &&& self.quotes_valid()
    }

    /// Every issuance, release, default attestation, and claim checks out.
    pub open spec fn outcomes_valid(self) -> bool {
        &&& self.issuances_valid()
        &&& self.releases_valid()
        &&& self.defaults_valid()
        &&& self.claims_valid()
    }

    /// What a check answers once the record's earlier checks pass and only
    /// those that fail with `InvalidState` remain.
    pub open spec fn state_answer(ok: bool) -> Result<(), AethelError> {
        if ok {
            Ok(())
        } else {
            Err(AethelError::InvalidState)
        }
    }

    /// What the check of stream `t` answers: its state, then its attestor's
    /// registration, then the attestor's capability.
    #[verifier::opaque]
    pub open spec fn stream_result(self, t: RegisteredStream) -> Result<(), AethelError> {
        if !t.state.spec_valid() {
            Err(AethelError::InvalidStream)
        } else if self.provider_index(t.attestor_provider_id) < 0 {
            Err(AethelError::UnknownProvider)
        } else {
            Self::state_answer(self.stream_ok(t))
        }
    }

    /// What the check of series `i` answers: its registration form first.
    #[verifier::opaque]
    pub open spec fn series_result(self, i: int) -> Result<(), AethelError> {
        if !self.series[i].spec_valid_initial() {
            Err(AethelError::InvalidSeries)
        } else {
            Self::state_answer(self.series_ok(i))
        }
    }

    /// What the check of binding `k` answers: its form, then its issuer's
    /// registration, then the rest.
    #[verifier::opaque]
    pub open spec fn binding_result(self, k: int, registered: bool) -> Result<(), AethelError> {
        let b = self.confidential_subjects[k];
        if !b.well_formed() {
            Err(AethelError::InvalidConfidentialSubject)
        } else if self.provider_index(b.issuer_provider_id) < 0 {
            Err(AethelError::UnknownProvider)
        } else {
            Self::state_answer(self.binding_ok(k, registered))
        }
    }

    /// What the check of a recorded signed artifact answers: the artifact's
    /// form (`artifact_error`), its signer's registration, the signature
    /// under a key the signer had, and then `rest`.
    pub open spec fn signed_answer(
        self,
        well_formed: bool,
        artifact_error: ProviderError,
        provider_id: Identifier,
        statement: Seq<u8>,
        signature: Seq<u8>,
        rest: Result<(), AethelError>,
    ) -> Result<(), AethelError> {
        let pi = self.provider_index(provider_id);
        if !well_formed {
            Err(from_provider(artifact_error))
        } else if pi < 0 {
            Err(AethelError::UnknownProvider)
        } else {
            match self.providers[pi].recorded_signature_result(statement, signature) {
                Err(e) => Err(from_provider(e)),
                Ok(_) => rest,
            }
        }
    }

    /// The subject binding answer, once the other checks pass.
    pub open spec fn binding_answer(self, series_id: Identifier, request_id: Identifier, valid_until: u64) -> Result<(), AethelError> {
        match self.subject_binding_error(series_id, request_id, valid_until) {
            Some(e) => Err(e),
            None => Ok(()),
        }
    }

    #[verifier::opaque]
    pub open spec fn decision_result(self, d: CreditDecision) -> Result<(), AethelError> {
        let pi = self.provider_index(d.provider_id);
        self.signed_answer(
            d.well_formed(),
            ProviderError::InvalidCreditDecision,
            d.provider_id,
            d.spec_statement(),
            d.signature@,
            if self.series_index(d.series_id) < 0 || !self.providers[pi].capabilities@.contains(
                ProviderCapability::CreditAssessor,
            ) {
                Err(AethelError::InvalidState)
            } else {
                self.binding_answer(d.series_id, d.request_id, d.valid_until)
            },
        )
    }

    /// A recorded guarantee's checks against the book other than its
    /// artifact, signature, and subject binding.
    pub open spec fn guarantee_linked(self, g: GuaranteeCommitment) -> bool {
        let pi = self.provider_index(g.provider_id);
        &&& self.providers[pi].capabilities@.contains(ProviderCapability::Guarantor)
        &&& self.series_index(g.series_id) >= 0
        &&& !((g.status == GuaranteeStatus::Available || g.status == GuaranteeStatus::Released)
            && g.bound_issuance_id is Some)
        &&& !((g.status == GuaranteeStatus::Bound || g.status == GuaranteeStatus::Claimed)
            && g.bound_issuance_id is None)
        &&& (self.release_index(g.guarantee_id) >= 0) == (g.status == GuaranteeStatus::Released)
        &&& (g.credit_decision_id matches Some(id) ==> {
            let di = self.decision_index(id);
            let d = self.credit_decisions[di];
            di >= 0 && spec_same_request_state(
                d.request_id,
                d.series_id,
                d.stream_state_version,
                d.stream_state_root,
                g.request_id,
                g.series_id,
                g.stream_state_version,
                g.stream_state_root,
            )
        })
    }

    #[verifier::opaque]
    pub open spec fn guarantee_result(self, g: GuaranteeCommitment) -> Result<(), AethelError> {
        let i = initial_guarantee(g);
        self.signed_answer(
            i.well_formed(),
            ProviderError::InvalidGuarantee,
            g.provider_id,
            i.spec_statement(),
            g.signature@,
            if !self.guarantee_linked(g) {
                Err(AethelError::InvalidState)
            } else {
                self.binding_answer(g.series_id, g.request_id, g.valid_until)
            },
        )
    }

    #[verifier::opaque]
    pub open spec fn quote_result(self, q: FundingQuote) -> Result<(), AethelError> {
        let i = initial_quote(q);
        self.signed_answer(
            i.well_formed(),
            ProviderError::InvalidFundingQuote,
            q.provider_id,
            i.spec_statement(),
            q.signature@,
            Self::state_answer(self.quote_ok(q)),
        )
    }

    #[verifier::opaque]
    pub open spec fn issuance_result(self, k: int) -> Result<(), AethelError> {
        if !self.issuances[k].well_formed() {
            Err(AethelError::InvalidIssuance)
        } else {
            Self::state_answer(self.issuance_ok(k))
        }
    }

    #[verifier::opaque]
    pub open spec fn release_result(self, rel: GuaranteeRelease) -> Result<(), AethelError> {
        self.signed_answer(
            rel.well_formed(),
            ProviderError::InvalidGuaranteeRelease,
            rel.provider_id,
            rel.spec_statement(),
            rel.signature@,
            Self::state_answer(self.release_ok(rel)),
        )
    }

    #[verifier::opaque]
    pub open spec fn default_result(self, a: DefaultAttestation) -> Result<(), AethelError> {
        self.signed_answer(
            a.well_formed(),
            ProviderError::InvalidDefaultAttestation,
            a.provider_id,
            a.spec_statement(),
            a.signature@,
            Self::state_answer(self.default_ok(a)),
        )
    }

    #[verifier::opaque]
    pub open spec fn claim_result(self, c: GuaranteeClaim) -> Result<(), AethelError> {
        if !c.well_formed() {
            Err(AethelError::InvalidGuaranteeClaim)
        } else {
            Self::state_answer(self.claim_ok(c))
        }
    }

    /// `r` is the error of a provider that fails its checks.
    pub open spec fn provider_failure(self, r: Result<(), AethelError>) -> bool {
        exists|j: int|
            0 <= j < self.providers.len() && #[trigger] provider_result(self.providers[j]) is Err && r
                == provider_result(self.providers[j])
    }

    /// `r` is the error of a stream that fails its checks.
    pub open spec fn stream_failure(self, r: Result<(), AethelError>) -> bool {
        exists|j: int|
            0 <= j < self.streams.len() && #[trigger] self.stream_result(self.streams[j]) is Err && r
                == self.stream_result(self.streams[j])
    }

    /// `r` is the error of a series that fails its checks.
    pub open spec fn series_failure(self, r: Result<(), AethelError>) -> bool {
        exists|j: int| 0 <= j < self.series.len() && #[trigger] self.series_result(j) is Err && r == self.series_result(j)
    }

    /// `r` is the error of a binding that fails its checks.
    pub open spec fn binding_failure(self, r: Result<(), AethelError>, issuers_registered: Seq<bool>) -> bool {
        exists|k: int|
            0 <= k < self.confidential_subjects.len() && #[trigger] self.binding_result(k, issuers_registered[k])
                is Err && r == self.binding_result(k, issuers_registered[k])
    }

    /// `r` is the error of a credit decision that fails its checks.
    pub open spec fn decision_failure(self, r: Result<(), AethelError>) -> bool {
        exists|j: int|
            0 <= j < self.credit_decisions.len() && #[trigger] self.decision_result(self.credit_decisions[j])
                is Err && r == self.decision_result(self.credit_decisions[j])
    }

    /// `r` is the error of a guarantee that fails its checks.
    pub open spec fn guarantee_failure(self, r: Result<(), AethelError>) -> bool {
        exists|j: int|
            0 <= j < self.guarantees.len() && #[trigger] self.guarantee_result(self.guarantees[j]) is Err
                && r == self.guarantee_result(self.guarantees[j])
    }

    /// `r` is the error of a funding quote that fails its checks.
    pub open spec fn quote_failure(self, r: Result<(), AethelError>) -> bool {
        exists|j: int|
            0 <= j < self.funding_quotes.len() && #[trigger] self.quote_result(self.funding_quotes[j]) is Err
                && r == self.quote_result(self.funding_quotes[j])
    }

    /// `r` is the error of an issuance that fails its checks.
    pub open spec fn issuance_failure(self, r: Result<(), AethelError>) -> bool {
        exists|j: int| 0 <= j < self.issuances.len() && #[trigger] self.issuance_result(j) is Err && r == self.issuance_result(j)
    }

    /// `r` is the error of a guarantee release that fails its checks.
    pub open spec fn release_failure(self, r: Result<(), AethelError>) -> bool {
        exists|j: int|
            0 <= j < self.guarantee_releases.len() && #[trigger] self.release_result(
                self.guarantee_releases[j],
            ) is Err && r == self.release_result(self.guarantee_releases[j])
    }

    /// `r` is the error of a default attestation that fails its checks.
    pub open spec fn default_failure(self, r: Result<(), AethelError>) -> bool {
        exists|j: int|
            0 <= j < self.default_attestations.len() && #[trigger] self.default_result(
                self.default_attestations[j],
            ) is Err && r == self.default_result(self.default_attestations[j])
    }

    /// `r` is the error of a guarantee claim that fails its checks.
    pub open spec fn claim_failure(self, r: Result<(), AethelError>) -> bool {
        exists|j: int|
            0 <= j < self.guarantee_claims.len() && #[trigger] self.claim_result(self.guarantee_claims[j]) is Err
                && r == self.claim_result(self.guarantee_claims[j])
    }

    /// The checks up to and including the confidential subjects pass.
    pub open spec fn subjects_pass(self, issuers_registered: Seq<bool>) -> bool {
        &&& self.ids_unique()
        &&& self.registry_valid()
        &&& self.bindings_valid(issuers_registered)
        &&& self.subject_nullifiers_match()
    }

    /// There is a verdict for each binding, and each binding is valid under
    /// its verdict.
    pub open spec fn bindings_valid(self, issuers_registered: Seq<bool>) -> bool {
        &&& issuers_registered.len() == self.confidential_subjects.len()
        &&& forall|k: int|
            0 <= k < self.confidential_subjects.len() ==> #[trigger] self.binding_ok(
                k,
                issuers_registered[k],
            )
    }

    /// What [`AethelBook::validate`] accepts, given for each confidential
    /// subject whether the identity layer knows its issuer's key epoch.
    #[verifier::opaque]
    pub open spec fn records_valid(self, issuers_registered: Seq<bool>) -> bool {
        &&& self.ids_unique()
        &&& self.registry_valid()
        &&& issuers_registered.len() == self.confidential_subjects.len()
        &&& forall|k: int|
            0 <= k < self.confidential_subjects.len() ==> #[trigger] self.binding_ok(
                k,
                issuers_registered[k],
            )
        &&& self.subject_nullifiers_match()
        &&& self.artifacts_valid()
        &&& self.outcomes_valid()
        &&& self.allocation_nullifiers_match()
    }
}

impl AethelBook {
    fn validate_providers(&self) -> (r: Result<(), AethelError>)
        ensures
            r is Ok <==> self@.providers_valid(),
            r is Err ==> self@.provider_failure(r),
    {
        let mut i: usize = 0;
        while i < self.providers.len()
            invariant
                i <= self.providers@.len(),
                forall|j: int| 0 <= j < i ==> #[trigger] self@.providers[j].validate_result() is Ok,
            decreases self.providers@.len() - i,
        {
            match self.providers[i].validate() {
                Ok(()) => {},
                Err(e) => {
                    let r = Err(aethel_error(e));
                    assert(provider_result(self@.providers[i as int]) is Err);
                    return r;
                },
            }
            i = i + 1;
        }
        Ok(())
    }

    fn validate_streams(&self) -> (r: Result<(), AethelError>)
        ensures
            r is Ok <==> self@.streams_valid(),
            r is Err ==> self@.stream_failure(r),
    {
        let mut i: usize = 0;
        while i < self.streams.len()
            invariant
                i <= self.streams@.len(),
                forall|j: int| 0 <= j < i ==> #[trigger] self@.stream_ok(self@.streams[j]),
            decreases self.streams@.len() - i,
        {
            let r = self.check_stream(&self.streams[i]);
            if r.is_err() {
                assert(self@.stream_result(self@.streams[i as int]) is Err);
                return r;
            }
            i = i + 1;
        }
        Ok(())
    }

    fn validate_series(&self) -> (r: Result<(), AethelError>)
        ensures
            r is Ok <==> self@.series_valid(),
            r is Err ==> self@.series_failure(r),
    {
        let mut i: usize = 0;
        while i < self.series.len()
            invariant
                i <= self.series@.len(),
                forall|j: int| 0 <= j < i ==> #[trigger] self@.series_ok(j),
            decreases self.series@.len() - i,
        {
            let r = self.check_series(i);
            if r.is_err() {
                assert(self@.series_result(i as int) is Err);
                return r;
            }
            i = i + 1;
        }
        Ok(())
    }

    fn validate_decisions(&self) -> (r: Result<(), AethelError>)
        ensures
            r is Ok <==> self@.decisions_valid(),
            r is Err ==> self@.decision_failure(r),
    {
        let mut i: usize = 0;
        while i < self.credit_decisions.len()
            invariant
                i <= self.credit_decisions@.len(),
                forall|j: int| 0 <= j < i ==> #[trigger] self@.decision_ok(self@.credit_decisions[j]),
            decreases self.credit_decisions@.len() - i,
        {
            let r = self.check_recorded_decision(&self.credit_decisions[i]);
            if r.is_err() {
                assert(self@.decision_result(self@.credit_decisions[i as int]) is Err);
                return r;
            }
            i = i + 1;
        }
        Ok(())
    }

    fn validate_guarantees(&self) -> (r: Result<(), AethelError>)
        ensures
            r is Ok <==> self@.guarantees_valid(),
            r is Err ==> self@.guarantee_failure(r),
    {
        let mut i: usize = 0;
        while i < self.guarantees.len()
            invariant
                i <= self.guarantees@.len(),
                forall|j: int| 0 <= j < i ==> #[trigger] self@.guarantee_ok(self@.guarantees[j]),
            decreases self.guarantees@.len() - i,
        {
            let r = self.check_recorded_guarantee(&self.guarantees[i]);
            if r.is_err() {
                assert(self@.guarantee_result(self@.guarantees[i as int]) is Err);
                return r;
            }
            i = i + 1;
        }
        Ok(())
    }

    fn validate_quotes(&self) -> (r: Result<(), AethelError>)
        ensures
            r is Ok <==> self@.quotes_valid(),
            r is Err ==> self@.quote_failure(r),
    {
        let mut i: usize = 0;
        while i < self.funding_quotes.len()
            invariant
                i <= self.funding_quotes@.len(),
                forall|j: int| 0 <= j < i ==> #[trigger] self@.quote_ok(self@.funding_quotes[j]),
            decreases self.funding_quotes@.len() - i,
        {
            let r = self.check_recorded_quote(&self.funding_quotes[i]);
            if r.is_err() {
                assert(self@.quote_result(self@.funding_quotes[i as int]) is Err);
                return r;
            }
            i = i + 1;
        }
        Ok(())
    }

    fn validate_issuances(&self) -> (r: Result<(), AethelError>)
        ensures
            r is Ok <==> self@.issuances_valid(),
            r is Err ==> self@.issuance_failure(r),
    {
        let mut i: usize = 0;
        while i < self.issuances.len()
            invariant
                i <= self.issuances@.len(),
                forall|j: int| 0 <= j < i ==> #[trigger] self@.issuance_ok(j),
            decreases self.issuances@.len() - i,
        {
            let r = self.check_recorded_issuance(i);
            if r.is_err() {
                assert(self@.issuance_result(i as int) is Err);
                return r;
            }
            i = i + 1;
        }
        Ok(())
    }

    fn validate_releases(&self) -> (r: Result<(), AethelError>)
        ensures
            r is Ok <==> self@.releases_valid(),
            r is Err ==> self@.release_failure(r),
    {
        let mut i: usize = 0;
        while i < self.guarantee_releases.len()
            invariant
                i <= self.guarantee_releases@.len(),
                forall|j: int| 0 <= j < i ==> #[trigger] self@.release_ok(self@.guarantee_releases[j]),
            decreases self.guarantee_releases@.len() - i,
        {
            let r = self.check_recorded_release(&self.guarantee_releases[i]);
            if r.is_err() {
                assert(self@.release_result(self@.guarantee_releases[i as int]) is Err);
                return r;
            }
            i = i + 1;
        }
        Ok(())
    }

    fn validate_defaults(&self) -> (r: Result<(), AethelError>)
        ensures
            r is Ok <==> self@.defaults_valid(),
            r is Err ==> self@.default_failure(r),
    {
        let mut i: usize = 0;
        while i < self.default_attestations.len()
            invariant
                i <= self.default_attestations@.len(),
                forall|j: int| 0 <= j < i ==> #[trigger] self@.default_ok(self@.default_attestations[j]),
            decreases self.default_attestations@.len() - i,
        {
            let r = self.check_recorded_default(&self.default_attestations[i]);
            if r.is_err() {
                assert(self@.default_result(self@.default_attestations[i as int]) is Err);
                return r;
            }
            i = i + 1;
        }
        Ok(())
    }

    fn validate_claims(&self) -> (r: Result<(), AethelError>)
        ensures
            r is Ok <==> self@.claims_valid(),
            r is Err ==> self@.claim_failure(r),
    {
        let mut i: usize = 0;
        while i < self.guarantee_claims.len()
            invariant
                i <= self.guarantee_claims@.len(),
                forall|j: int| 0 <= j < i ==> #[trigger] self@.claim_ok(self@.guarantee_claims[j]),
            decreases self.guarantee_claims@.len() - i,
        {
            let r = self.check_recorded_claim(&self.guarantee_claims[i]);
            if r.is_err() {
                assert(self@.claim_result(self@.guarantee_claims[i as int]) is Err);
                return r;
            }
            i = i + 1;
        }
        Ok(())
    }

    /// Checks the whole book: each identifier once, valid providers,
    /// streams, and series, confidential subjects vouched for by registered
    /// credential issuers whose key epoch the identity layer knows
    /// (`issuers_registered[k]` for subject `k`), every recorded artifact
    /// signed by a provider holding its capability under a key the provider
    /// had, every issuance bound to the artifacts it names, and the consumed
    /// nullifiers exactly those recorded.
    ///
    /// The checks run in this order, and the error is that of a record that
    /// fails the first check some record fails: identifiers, providers,
    /// streams, series, the verdicts given, confidential subjects, the
    /// consumed subject nullifiers, credit decisions, guarantees, funding
    /// quotes, issuances, the consumed allocation nullifiers, guarantee
    /// releases, default attestations, and guarantee claims. A record's own
    /// checks run as `stream_result`, `series_result`, `binding_result` and
    /// the like say.
    pub fn validate(&self, issuers_registered: &[bool]) -> (r: Result<(), AethelError>)
        ensures
            r is Ok <==> self@.records_valid(issuers_registered@),
            !self@.ids_unique() ==> r == Err::<(), AethelError>(AethelError::InvalidState),
            self@.ids_unique() && !self@.providers_valid() ==> self@.provider_failure(r),
            self@.ids_unique() && self@.providers_valid() && !self@.streams_valid()
                ==> self@.stream_failure(r),
            self@.ids_unique() && self@.providers_valid() && self@.streams_valid()
                && !self@.series_valid() ==> self@.series_failure(r),
            self@.ids_unique() && self@.registry_valid() && issuers_registered@.len()
                != self@.confidential_subjects.len() ==> r == Err::<(), AethelError>(
                AethelError::InvalidState,
            ),
            self@.ids_unique() && self@.registry_valid() && issuers_registered@.len()
                == self@.confidential_subjects.len() && !self@.bindings_valid(issuers_registered@)
                ==> self@.binding_failure(r, issuers_registered@),
            self@.ids_unique() && self@.registry_valid() && self@.bindings_valid(issuers_registered@)
                && !self@.subject_nullifiers_match() ==> r == Err::<(), AethelError>(
                AethelError::InvalidState,
            ),
            self@.subjects_pass(issuers_registered@) && !self@.decisions_valid()
                ==> self@.decision_failure(r),
            self@.subjects_pass(issuers_registered@) && self@.decisions_valid()
                && !self@.guarantees_valid() ==> self@.guarantee_failure(r),
            self@.subjects_pass(issuers_registered@) && self@.decisions_valid()
                && self@.guarantees_valid() && !self@.quotes_valid() ==> self@.quote_failure(r),
            self@.subjects_pass(issuers_registered@) && self@.artifacts_valid()
                && !self@.issuances_valid() ==> self@.issuance_failure(r),
            self@.subjects_pass(issuers_registered@) && self@.artifacts_valid()
                && self@.issuances_valid() && !self@.allocation_nullifiers_match() ==> r == Err::<
                (),
                AethelError,
            >(AethelError::InvalidState),
            self@.subjects_pass(issuers_registered@) && self@.artifacts_valid()
                && self@.issuances_valid() && self@.allocation_nullifiers_match()
                && !self@.releases_valid() ==> self@.release_failure(r),
            self@.subjects_pass(issuers_registered@) && self@.artifacts_valid()
                && self@.issuances_valid() && self@.allocation_nullifiers_match()
                && self@.releases_valid() && !self@.defaults_valid() ==> self@.default_failure(r),
            self@.subjects_pass(issuers_registered@) && self@.artifacts_valid()
                && self@.issuances_valid() && self@.allocation_nullifiers_match()
                && self@.releases_valid() && self@.defaults_valid() && !self@.claims_valid()
                ==> self@.claim_failure(r),
    {
        reveal(BookState::records_valid);
        if !self.ids_unique() {
            return Err(AethelError::InvalidState);
        }
        let r = self.validate_providers();
        if r.is_err() {
            return r;
        }
        let r = self.validate_streams();
        if r.is_err() {
            return r;
        }
        let r = self.validate_series();
        if r.is_err() {
            return r;
        }
        if issuers_registered.len() != self.confidential_subjects.len() {
            return Err(AethelError::InvalidState);
        }
        let mut k: usize = 0;
        while k < self.confidential_subjects.len()
            invariant
                k <= self.confidential_subjects@.len(),
                issuers_registered@.len() == self.confidential_subjects@.len(),
                self@.ids_unique(),
                self@.registry_valid(),
                forall|j: int| 0 <= j < k ==> #[trigger] self@.binding_ok(j, issuers_registered@[j]),
            decreases self.confidential_subjects@.len() - k,
        {
            let r = self.check_binding(k, issuers_registered[k]);
            if r.is_err() {
                proof {
                    reveal(BookState::records_valid);
                }
                assert(self@.binding_result(k as int, issuers_registered@[k as int]) is Err);
                return r;
            }
            k = k + 1;
        }
        if !self.subject_nullifiers_match() {
            return Err(AethelError::InvalidState);
        }
        let r = self.validate_decisions();
        if r.is_err() {
            return r;
        }
        let r = self.validate_guarantees();
        if r.is_err() {
            return r;
        }
        let r = self.validate_quotes();
        if r.is_err() {
            return r;
        }
        let r = self.validate_issuances();
        if r.is_err() {
            return r;
        }
        if !self.allocation_nullifiers_match() {
            return Err(AethelError::InvalidState);
        }
        let r = self.validate_releases();
        if r.is_err() {
            return r;
        }
        let r = self.validate_defaults();
        if r.is_err() {
            return r;
        }
        let r = self.validate_claims();
        if r.is_err() {
            return r;
        }
        Ok(())
    }
}

impl BookState {
    /// Why the book refuses a verified confidential subject presented for an
    /// artifact on `series_id`, for request `request_id`, valid until
    /// `valid_until`, if it does: the series must be registered, the issuer
    /// a registered credential issuer at `now` in the namespace the series
    /// accepts, and the subject must be for this request and outlive the
    /// artifact.
    pub open spec fn presentation_error(
        self,
        b: ConfidentialSubjectBinding,
        series_id: Identifier,
        request_id: Identifier,
        valid_until: u64,
        now: u64,
    ) -> Option<AethelError> {
        let si = self.series_index(series_id);
        if si < 0 {
            Some(AethelError::UnknownSeries)
        } else if self.active_provider_error(b.issuer_provider_id, ProviderCapability::CredentialIssuer, now) is Some {
            self.active_provider_error(b.issuer_provider_id, ProviderCapability::CredentialIssuer, now)
        } else if self.series[si].policy.accepted_issuer_namespace_digest matches Some(ns)
            && ns != b.issuer_namespace_digest {
            Some(AethelError::InvalidConfidentialSubject)
        } else if b.request_id != request_id || b.valid_until < valid_until {
            Some(AethelError::MismatchedConfidentialSubject)
        } else {
            None
        }
    }

    /// Why the book refuses to bind `b` at `now`, if it does: its form, its
    /// window, its issuer's capability, and then either the subject line
    /// already bound to the request, which `b` must continue, or, for a new
    /// binding, a subject nullifier not yet consumed.
    pub open spec fn bind_error(self, b: ConfidentialSubjectBinding, now: u64) -> Option<AethelError> {
        let bi = self.binding_index(b.request_id);
        if !b.well_formed() {
            Some(AethelError::InvalidConfidentialSubject)
        } else if b.valid_until < now {
            Some(AethelError::OutsideValidityWindow)
        } else if self.active_provider_error(b.issuer_provider_id, ProviderCapability::CredentialIssuer, now) is Some {
            self.active_provider_error(b.issuer_provider_id, ProviderCapability::CredentialIssuer, now)
        } else if bi >= 0 {
            if self.confidential_subjects[bi].spec_same_subject_line(b) {
                None
            } else {
                Some(AethelError::MismatchedConfidentialSubject)
            }
        } else if self.used_subject_nullifiers.contains(b.subject_nullifier) {
            Some(AethelError::Replay)
        } else {
            None
        }
    }

    /// The book once `b` is bound: a request already bound keeps its
    /// binding; otherwise `b` is recorded and its subject nullifier consumed.
    pub open spec fn after_bind(self, b: ConfidentialSubjectBinding) -> BookState {
        if self.binding_index(b.request_id) >= 0 {
            self
        } else {
            BookState {
                confidential_subjects: self.confidential_subjects.push(b),
                used_subject_nullifiers: self.used_subject_nullifiers.push(b.subject_nullifier),
                ..self
            }
        }
    }
}

impl AethelBook {
    fn check_presentation(
        &self,
        b: &ConfidentialSubjectBinding,
        series_id: &Identifier,
        request_id: &Identifier,
        valid_until: u64,
        now: u64,
    ) -> (r: Result<(), AethelError>)
        ensures
            match self@.presentation_error(*b, *series_id, *request_id, valid_until, now) {
                Some(e) => r == Err::<(), AethelError>(e),
                None => r == Ok::<(), AethelError>(()),
            },
    {
        let si = match self.find_series(series_id) {
            Some(i) => i,
            None => return Err(AethelError::UnknownSeries),
        };
        match self.active_provider(&b.issuer_provider_id, ProviderCapability::CredentialIssuer, now) {
            Ok(_) => {},
            Err(e) => return Err(e),
        }
        match &self.series[si].policy.accepted_issuer_namespace_digest {
            Some(ns) => if !same_id(ns, &b.issuer_namespace_digest) {
                return Err(AethelError::InvalidConfidentialSubject);
            },
            None => {},
        }
        if !same_id(&b.request_id, request_id) || b.valid_until < valid_until {
            return Err(AethelError::MismatchedConfidentialSubject);
        }
        Ok(())
    }

    /// Binds a verified confidential subject to its request, or checks that
    /// it continues the subject line already bound there.
    fn bind_or_match_confidential_subject(&mut self, binding: ConfidentialSubjectBinding, now: u64) -> (r:
        Result<(), AethelError>)
        ensures
            match old(self)@.bind_error(binding, now) {
                Some(e) => r == Err::<(), AethelError>(e),
                None => r == Ok::<(), AethelError>(()),
            },
            r is Ok ==> final(self)@ == old(self)@.after_bind(binding),
            r is Err ==> final(self)@ == old(self)@,
    {
        if !binding_is_well_formed(&binding) {
            return Err(AethelError::InvalidConfidentialSubject);
        }
        if binding.valid_until < now {
            return Err(AethelError::OutsideValidityWindow);
        }
        match self.active_provider(&binding.issuer_provider_id, ProviderCapability::CredentialIssuer, now) {
            Ok(_) => {},
            Err(e) => return Err(e),
        }
        match self.find_binding(&binding.request_id) {
            Some(i) => {
                if self.confidential_subjects[i].same_subject_line(&binding) {
                    return Ok(());
                } else {
                    return Err(AethelError::MismatchedConfidentialSubject);
                }
            },
            None => {},
        }
        if contains_id(&self.used_subject_nullifiers, &binding.subject_nullifier) {
            return Err(AethelError::Replay);
        }
        self.used_subject_nullifiers.push(binding.subject_nullifier);
        self.confidential_subjects.push(binding);
        Ok(())
    }

    /// Records a credit decision with the confidential subject the identity
    /// layer verified for it: checks the subject against the decision and
    /// the book, binds it to the decision's request (or matches the subject
    /// line already bound there), and records the decision; either both
    /// take effect or neither does.
    pub fn record_confidential_credit_decision(
        &mut self,
        binding: ConfidentialSubjectBinding,
        decision: CreditDecision,
        now: u64,
    ) -> (r: Result<Commitment, AethelError>)
        ensures
            old(self)@.presentation_error(binding, decision.series_id, decision.request_id, decision.valid_until, now)
                matches Some(e) ==> r == Err::<Commitment, AethelError>(e),
            ({
                &&& old(self)@.presentation_error(binding, decision.series_id, decision.request_id, decision.valid_until, now) is None
                &&& old(self)@.bind_error(binding, now) is Some
            }) ==> r == Err::<Commitment, AethelError>(old(self)@.bind_error(binding, now)->0),
            ({
                &&& old(self)@.presentation_error(binding, decision.series_id, decision.request_id, decision.valid_until, now) is None
                &&& old(self)@.bind_error(binding, now) is None
            }) ==> {
                &&& !decision.well_formed() ==> r == Err::<Commitment, AethelError>(
                    AethelError::InvalidCreditDecision,
                )
                &&& decision.well_formed() ==> match old(self)@.after_bind(binding).credit_decision_error(
                    decision,
                    decision.spec_statement(),
                    now,
                ) {
                    Some(e) => r == Err::<Commitment, AethelError>(e),
                    None => r matches Ok(d) && d@ == decision.spec_statement(),
                }
            },
            r is Ok ==> final(self)@ == old(self)@.after_bind(binding).after_decision(decision),
            r is Err ==> final(self)@ == old(self)@,
    {
        let ghost s0 = self@;
        match self.check_presentation(&binding, &decision.series_id, &decision.request_id, decision.valid_until, now) {
            Ok(()) => {},
            Err(e) => return Err(e),
        }
        let fresh = self.find_binding(&binding.request_id).is_none();
        match self.bind_or_match_confidential_subject(binding, now) {
            Ok(()) => {},
            Err(e) => return Err(e),
        }
        match self.record_credit_decision(decision, now) {
            Ok(d) => Ok(d),
            Err(e) => {
                if fresh {
                    self.confidential_subjects.pop();
                    self.used_subject_nullifiers.pop();
                    assert(self.confidential_subjects@ =~= s0.confidential_subjects);
                    assert(self.used_subject_nullifiers@ =~= s0.used_subject_nullifiers);
                }
                Err(e)
            },
        }
    }

    /// Records a guarantee with the confidential subject the identity layer
    /// verified for it, on the subject line of its credit decision: checks
    /// the subject against the guarantee and the book, binds it to the
    /// guarantee's request (or matches the line already bound there), and
    /// records the guarantee; either both take effect or neither does.
    pub fn record_confidential_guarantee(
        &mut self,
        binding: ConfidentialSubjectBinding,
        guarantee: GuaranteeCommitment,
        now: u64,
    ) -> (r: Result<Commitment, AethelError>)
        ensures
            old(self)@.presentation_error(binding, guarantee.series_id, guarantee.request_id, guarantee.valid_until, now)
                matches Some(e) ==> r == Err::<Commitment, AethelError>(e),
            ({
                &&& old(self)@.presentation_error(binding, guarantee.series_id, guarantee.request_id, guarantee.valid_until, now) is None
                &&& old(self)@.bind_error(binding, now) is Some
            }) ==> r == Err::<Commitment, AethelError>(old(self)@.bind_error(binding, now)->0),
            ({
                &&& old(self)@.presentation_error(binding, guarantee.series_id, guarantee.request_id, guarantee.valid_until, now) is None
                &&& old(self)@.bind_error(binding, now) is None
            }) ==> {
                &&& !guarantee.well_formed() ==> r == Err::<Commitment, AethelError>(
                    AethelError::InvalidGuarantee,
                )
                &&& guarantee.well_formed() ==> match old(self)@.after_bind(binding).guarantee_error(
                    guarantee,
                    guarantee.spec_statement(),
                    now,
                ) {
                    Some(e) => r == Err::<Commitment, AethelError>(e),
                    None => r matches Ok(d) && d@ == guarantee.spec_statement(),
                }
            },
            r is Ok ==> final(self)@ == old(self)@.after_bind(binding).after_guarantee(guarantee),
            r is Err ==> final(self)@ == old(self)@,
    {
        let ghost s0 = self@;
        match self.check_presentation(&binding, &guarantee.series_id, &guarantee.request_id, guarantee.valid_until, now) {
            Ok(()) => {},
            Err(e) => return Err(e),
        }
        let fresh = self.find_binding(&binding.request_id).is_none();
        match self.bind_or_match_confidential_subject(binding, now) {
            Ok(()) => {},
            Err(e) => return Err(e),
        }
        match self.record_guarantee(guarantee, now) {
            Ok(d) => Ok(d),
            Err(e) => {
                if fresh {
                    self.confidential_subjects.pop();
                    self.used_subject_nullifiers.pop();
                    assert(self.confidential_subjects@ =~= s0.confidential_subjects);
                    assert(self.used_subject_nullifiers@ =~= s0.used_subject_nullifiers);
                }
                Err(e)
            },
        }
    }
}

/// Binding a new subject leaves the subject checks of every other request
/// unchanged.
proof fn lemma_bind_frame_subjects(s: BookState, b: ConfidentialSubjectBinding)
    requires
        s.binding_index(b.request_id) < 0,
    ensures
        forall|series_id: Identifier, request_id: Identifier, valid_until: u64|
            request_id != b.request_id ==> #[trigger] s.after_bind(b).subject_binding_error(
                series_id,
                request_id,
                valid_until,
            ) == s.subject_binding_error(series_id, request_id, valid_until),
{
    reveal(BookState::subject_binding_error);
    let u = s.after_bind(b);
    assert forall|series_id: Identifier, request_id: Identifier, valid_until: u64|
        request_id != b.request_id implies #[trigger] u.subject_binding_error(
            series_id,
            request_id,
            valid_until,
        ) == s.subject_binding_error(series_id, request_id, valid_until) by {
        crate::seqs::lemma_first_match_push(s.confidential_subjects, b, binding_has_id(request_id));
        crate::seqs::lemma_first_match(s.confidential_subjects, binding_has_id(request_id));
        let bi = s.binding_index(request_id);
        if bi >= 0 {
            assert(u.confidential_subjects[bi] == s.confidential_subjects[bi]);
        }
    }
}

/// Binding a new subject leaves how every record not for its request is
/// judged unchanged.
#[verifier::spinoff_prover]
proof fn lemma_bind_frame_records(s: BookState, b: ConfidentialSubjectBinding)
    requires
        s.binding_index(b.request_id) < 0,
    ensures
        forall|x: CreditDecision|
            x.request_id != b.request_id ==> #[trigger] s.after_bind(b).decision_ok(x) == s.decision_ok(x),
        forall|x: GuaranteeCommitment|
            x.request_id != b.request_id ==> #[trigger] s.after_bind(b).guarantee_ok(x) == s.guarantee_ok(x),
        forall|x: FundingQuote| #[trigger] s.after_bind(b).quote_ok(x) == s.quote_ok(x),
        forall|k: int| #[trigger] s.after_bind(b).issuance_ok(k) == s.issuance_ok(k),
        forall|x: GuaranteeRelease| #[trigger] s.after_bind(b).release_ok(x) == s.release_ok(x),
        forall|x: DefaultAttestation| #[trigger] s.after_bind(b).default_ok(x) == s.default_ok(x),
        forall|x: GuaranteeClaim| #[trigger] s.after_bind(b).claim_ok(x) == s.claim_ok(x),
{
    let u = s.after_bind(b);
    lemma_bind_frame_subjects(s, b);
    assert forall|x: CreditDecision| x.request_id != b.request_id implies #[trigger] u.decision_ok(x)
        == s.decision_ok(x) by {
        reveal(BookState::decision_ok);
        assert(u.subject_binding_error(x.series_id, x.request_id, x.valid_until) == s.subject_binding_error(
            x.series_id,
            x.request_id,
            x.valid_until,
        ));
    }
    assert forall|x: GuaranteeCommitment| x.request_id != b.request_id implies #[trigger] u.guarantee_ok(x)
        == s.guarantee_ok(x) by {
        reveal(BookState::guarantee_ok);
        assert(u.subject_binding_error(x.series_id, x.request_id, x.valid_until) == s.subject_binding_error(
            x.series_id,
            x.request_id,
            x.valid_until,
        ));
    }
    assert forall|x: FundingQuote| #[trigger] u.quote_ok(x) == s.quote_ok(x) by {
        reveal(BookState::quote_ok);
    }
    assert forall|k: int| #[trigger] u.issuance_ok(k) == s.issuance_ok(k) by {
        reveal(BookState::issuance_ok);
    }
    assert forall|x: GuaranteeRelease| #[trigger] u.release_ok(x) == s.release_ok(x) by {
        reveal(BookState::release_ok);
    }
    assert forall|x: DefaultAttestation| #[trigger] u.default_ok(x) == s.default_ok(x) by {
        reveal(BookState::default_ok);
    }
    assert forall|x: GuaranteeClaim| #[trigger] u.claim_ok(x) == s.claim_ok(x) by {
        reveal(BookState::claim_ok);
    }
}

/// Binding a new subject whose nullifier is unconsumed keeps identifiers
/// and consumed values unique.
proof fn lemma_bind_keeps_ids(s: BookState, b: ConfidentialSubjectBinding)
    requires
        s.ids_unique(),
        s.binding_index(b.request_id) < 0,
        !s.used_subject_nullifiers.contains(b.subject_nullifier),
    ensures
        s.after_bind(b).ids_unique(),
{
    let u = s.after_bind(b);
    let n = s.confidential_subjects.len() as int;
    crate::seqs::lemma_first_match(s.confidential_subjects, binding_has_id(b.request_id));
    let before = s.confidential_subjects.map_values(confidential_subjects_key());
    let after = u.confidential_subjects.map_values(confidential_subjects_key());
    assert(after =~= before.push(b.request_id));
    assert forall|i: int, j: int| 0 <= i < j < after.len() implies #[trigger] after[i] != #[trigger] after[j] by {
        if j == n {
            assert(!(binding_has_id(b.request_id))(s.confidential_subjects[i]));
        } else {
            assert(before[i] != before[j]);
        }
    }
    assert forall|i: int, j: int|
        0 <= i < j < u.used_subject_nullifiers.len() implies #[trigger] u.used_subject_nullifiers[i]
        != #[trigger] u.used_subject_nullifiers[j] by {
        if j == s.used_subject_nullifiers.len() {
            assert(s.used_subject_nullifiers[i] == u.used_subject_nullifiers[i]);
        } else {
            assert(s.used_subject_nullifiers[i] != s.used_subject_nullifiers[j]);
        }
    }
}

/// Binding a new subject keeps the registry, every record, and the
/// allocation nullifiers checking out, when each decision and guarantee for
/// its request passes its subject check against it.
#[verifier::spinoff_prover]
proof fn lemma_bind_keeps_records(s: BookState, b: ConfidentialSubjectBinding)
    requires
        s.registry_valid(),
        s.artifacts_valid(),
        s.outcomes_valid(),
        s.allocation_nullifiers_match(),
        s.binding_index(b.request_id) < 0,
        forall|j: int|
            0 <= j < s.credit_decisions.len() && (#[trigger] s.credit_decisions[j]).request_id
                == b.request_id ==> s.after_bind(b).decision_ok(s.credit_decisions[j]),
        forall|j: int|
            0 <= j < s.guarantees.len() && (#[trigger] s.guarantees[j]).request_id == b.request_id
                ==> s.after_bind(b).guarantee_ok(s.guarantees[j]),
    ensures
        s.after_bind(b).registry_valid(),
        s.after_bind(b).artifacts_valid(),
        s.after_bind(b).outcomes_valid(),
        s.after_bind(b).allocation_nullifiers_match(),
{
    let u = s.after_bind(b);
    lemma_bind_frame_records(s, b);
    assert forall|j: int| 0 <= j < u.series.len() implies #[trigger] u.series_ok(j) by {
        assert(s.series_ok(j));
    }
    assert forall|j: int| 0 <= j < u.streams.len() implies u.stream_ok(#[trigger] u.streams[j]) by {
        assert(s.stream_ok(s.streams[j]));
    }
    assert forall|j: int| 0 <= j < u.credit_decisions.len() implies u.decision_ok(
        #[trigger] u.credit_decisions[j],
    ) by {
        assert(s.decision_ok(s.credit_decisions[j]));
    }
    assert forall|j: int| 0 <= j < u.guarantees.len() implies u.guarantee_ok(#[trigger] u.guarantees[j]) by {
        assert(s.guarantee_ok(s.guarantees[j]));
    }
    assert forall|j: int| 0 <= j < u.funding_quotes.len() implies u.quote_ok(
        #[trigger] u.funding_quotes[j],
    ) by {
        assert(s.quote_ok(s.funding_quotes[j]));
    }
    assert forall|k: int| 0 <= k < u.issuances.len() implies #[trigger] u.issuance_ok(k) by {
        assert(s.issuance_ok(k));
    }
    assert forall|j: int| 0 <= j < u.guarantee_releases.len() implies u.release_ok(
        #[trigger] u.guarantee_releases[j],
    ) by {
        assert(s.release_ok(s.guarantee_releases[j]));
    }
    assert forall|j: int| 0 <= j < u.default_attestations.len() implies u.default_ok(
        #[trigger] u.default_attestations[j],
    ) by {
        assert(s.default_ok(s.default_attestations[j]));
    }
    assert forall|j: int| 0 <= j < u.guarantee_claims.len() implies u.claim_ok(
        #[trigger] u.guarantee_claims[j],
    ) by {
        assert(s.claim_ok(s.guarantee_claims[j]));
    }
}

/// After a new subject is bound and a credit decision for its request
/// recorded, every binding checks out under its verdict, the new one's
/// given as known, and the consumed subject nullifiers are those bound.
#[verifier::spinoff_prover]
proof fn lemma_bound_line_checks_out(
    s: BookState,
    b: ConfidentialSubjectBinding,
    d: CreditDecision,
    now: u64,
    issuers_registered: Seq<bool>,
)
    requires
        issuers_registered.len() == s.confidential_subjects.len(),
        forall|k: int|
            0 <= k < s.confidential_subjects.len() ==> #[trigger] s.binding_ok(k, issuers_registered[k]),
        s.subject_nullifiers_match(),
        s.binding_index(b.request_id) < 0,
        b.request_id == d.request_id,
        s.bind_error(b, now) is None,
    ensures
        ({
            let t = s.after_bind(b).after_decision(d);
            let verdicts = issuers_registered.push(true);
            &&& verdicts.len() == t.confidential_subjects.len()
            &&& forall|k: int|
                0 <= k < t.confidential_subjects.len() ==> #[trigger] t.binding_ok(k, verdicts[k])
            &&& t.subject_nullifiers_match()
        }),
{
    let t = s.after_bind(b).after_decision(d);
    let verdicts = issuers_registered.push(true);
    let n = s.confidential_subjects.len() as int;
    reveal(BookState::active_provider_error);
    let bound = s.confidential_subjects.map_values(binding_nullifier());
    assert(t.confidential_subjects.map_values(binding_nullifier()) =~= bound.push(b.subject_nullifier));
    assert forall|k: int| 0 <= k < n implies s.confidential_subjects[k].subject_nullifier
        != b.subject_nullifier by {
        assert(s.used_subject_nullifiers.contains(bound[k]));
    }
    assert forall|k: int| 0 <= k < t.confidential_subjects.len() implies #[trigger] t.binding_ok(
        k,
        verdicts[k],
    ) by {
        if k < n {
            assert(s.binding_ok(k, issuers_registered[k]));
            assert(verdicts[k] == issuers_registered[k]);
            let request_id = s.confidential_subjects[k].request_id;
            if exists|i: int|
                0 <= i < s.credit_decisions.len() && (#[trigger] s.credit_decisions[i]).request_id
                    == request_id {
                let i = choose|i: int|
                    0 <= i < s.credit_decisions.len() && (#[trigger] s.credit_decisions[i]).request_id
                        == request_id;
                assert(t.credit_decisions[i] == s.credit_decisions[i]);
            } else {
                let i = choose|i: int|
                    0 <= i < s.guarantees.len() && (#[trigger] s.guarantees[i]).request_id == request_id;
                assert(t.guarantees[i] == s.guarantees[i]);
            }
        } else {
            assert(t.confidential_subjects[k] == b);
            assert(t.credit_decisions[s.credit_decisions.len() as int] == d);
        }
    }
    let bound_t = t.confidential_subjects.map_values(binding_nullifier());
    let used = s.used_subject_nullifiers;
    assert(t.used_subject_nullifiers == used.push(b.subject_nullifier));
    assert forall|k: int| 0 <= k < bound_t.len() implies t.used_subject_nullifiers.contains(
        #[trigger] bound_t[k],
    ) by {
        if k < n {
            assert(used.contains(bound[k]));
            let w = choose|w: int| 0 <= w < used.len() && used[w] == bound[k];
            assert(t.used_subject_nullifiers[w] == bound[k]);
        } else {
            assert(t.used_subject_nullifiers[used.len() as int] == b.subject_nullifier);
        }
    }
    assert forall|w: int| 0 <= w < t.used_subject_nullifiers.len() implies bound_t.contains(
        #[trigger] t.used_subject_nullifiers[w],
    ) by {
        if w < used.len() {
            assert(bound.contains(used[w]));
            let k = choose|k: int| 0 <= k < bound.len() && bound[k] == used[w];
            assert(bound_t[k] == used[w]);
        } else {
            assert(bound_t[n] == b.subject_nullifier);
        }
    }
}

/// A credit decision recorded with a verified subject on a request no
/// subject was bound to keeps a valid book valid, the new subject's issuer
/// known to the identity layer, when each decision and guarantee already
/// recorded for that request still checks out once the subject is bound
/// (otherwise that record is what makes the book invalid).
#[verifier::spinoff_prover]
pub proof fn law_a_confidential_decision_on_a_new_line_keeps_the_book_valid(
    s: BookState,
    b: ConfidentialSubjectBinding,
    d: CreditDecision,
    now: u64,
    issuers_registered: Seq<bool>,
)
    requires
        s.records_valid(issuers_registered),
        s.binding_index(b.request_id) < 0,
        s.presentation_error(b, d.series_id, d.request_id, d.valid_until, now) is None,
        s.bind_error(b, now) is None,
        d.well_formed(),
        s.after_bind(b).credit_decision_error(d, d.spec_statement(), now) is None,
        forall|j: int|
            0 <= j < s.credit_decisions.len() && (#[trigger] s.credit_decisions[j]).request_id
                == b.request_id ==> s.after_bind(b).decision_ok(s.credit_decisions[j]),
        forall|j: int|
            0 <= j < s.guarantees.len() && (#[trigger] s.guarantees[j]).request_id == b.request_id
                ==> s.after_bind(b).guarantee_ok(s.guarantees[j]),
    ensures
        s.after_bind(b).after_decision(d).records_valid(issuers_registered.push(true)),
{
    let u = s.after_bind(b);
    let t = u.after_decision(d);
    lemma_book_parts(s, issuers_registered);
    assert(!s.used_subject_nullifiers.contains(b.subject_nullifier));
    lemma_bind_keeps_ids(s, b);
    lemma_bind_keeps_records(s, b);
    lemma_decision_keeps_ids(u, d, now);
    lemma_recordable_decision_ok(u, d, now);
    lemma_decision_accepted(u, d, now);
    lemma_decision_keeps_records(u, d);
    assert forall|j: int| 0 <= j < t.series.len() implies #[trigger] t.series_ok(j) by {
        assert(u.series_ok(j));
    }
    assert forall|j: int| 0 <= j < t.streams.len() implies t.stream_ok(#[trigger] t.streams[j]) by {
        assert(u.stream_ok(u.streams[j]));
    }
    lemma_bound_line_checks_out(s, b, d, now, issuers_registered);
    lemma_book_intro(t, issuers_registered.push(true));
}

/// After a new subject is bound and a guarantee for its request recorded, every binding checks out under its verdict, the new one's
/// given as known, and the consumed subject nullifiers are those bound.
#[verifier::spinoff_prover]
proof fn lemma_bound_line_checks_out_for_guarantee(
    s: BookState,
    b: ConfidentialSubjectBinding,
    g: GuaranteeCommitment,
    now: u64,
    issuers_registered: Seq<bool>,
)
    requires
        issuers_registered.len() == s.confidential_subjects.len(),
        forall|k: int|
            0 <= k < s.confidential_subjects.len() ==> #[trigger] s.binding_ok(k, issuers_registered[k]),
        s.subject_nullifiers_match(),
        s.binding_index(b.request_id) < 0,
        b.request_id == g.request_id,
        s.bind_error(b, now) is None,
    ensures
        ({
            let t = s.after_bind(b).after_guarantee(g);
            let verdicts = issuers_registered.push(true);
            &&& verdicts.len() == t.confidential_subjects.len()
            &&& forall|k: int|
                0 <= k < t.confidential_subjects.len() ==> #[trigger] t.binding_ok(k, verdicts[k])
            &&& t.subject_nullifiers_match()
        }),
{
    let t = s.after_bind(b).after_guarantee(g);
    let verdicts = issuers_registered.push(true);
    let n = s.confidential_subjects.len() as int;
    reveal(BookState::active_provider_error);
    let bound = s.confidential_subjects.map_values(binding_nullifier());
    assert(t.confidential_subjects.map_values(binding_nullifier()) =~= bound.push(b.subject_nullifier));
    assert forall|k: int| 0 <= k < n implies s.confidential_subjects[k].subject_nullifier
        != b.subject_nullifier by {
        assert(s.used_subject_nullifiers.contains(bound[k]));
    }
    assert forall|k: int| 0 <= k < t.confidential_subjects.len() implies #[trigger] t.binding_ok(
        k,
        verdicts[k],
    ) by {
        if k < n {
            assert(s.binding_ok(k, issuers_registered[k]));
            assert(verdicts[k] == issuers_registered[k]);
            let request_id = s.confidential_subjects[k].request_id;
            if exists|i: int|
                0 <= i < s.credit_decisions.len() && (#[trigger] s.credit_decisions[i]).request_id
                    == request_id {
                let i = choose|i: int|
                    0 <= i < s.credit_decisions.len() && (#[trigger] s.credit_decisions[i]).request_id
                        == request_id;
                assert(t.credit_decisions[i] == s.credit_decisions[i]);
            } else {
                let i = choose|i: int|
                    0 <= i < s.guarantees.len() && (#[trigger] s.guarantees[i]).request_id == request_id;
                assert(t.guarantees[i] == s.guarantees[i]);
            }
        } else {
            assert(t.confidential_subjects[k] == b);
            assert(t.guarantees[s.guarantees.len() as int] == g);
        }
    }
    let bound_t = t.confidential_subjects.map_values(binding_nullifier());
    let used = s.used_subject_nullifiers;
    assert(t.used_subject_nullifiers == used.push(b.subject_nullifier));
    assert forall|k: int| 0 <= k < bound_t.len() implies t.used_subject_nullifiers.contains(
        #[trigger] bound_t[k],
    ) by {
        if k < n {
            assert(used.contains(bound[k]));
            let w = choose|w: int| 0 <= w < used.len() && used[w] == bound[k];
            assert(t.used_subject_nullifiers[w] == bound[k]);
        } else {
            assert(t.used_subject_nullifiers[used.len() as int] == b.subject_nullifier);
        }
    }
    assert forall|w: int| 0 <= w < t.used_subject_nullifiers.len() implies bound_t.contains(
        #[trigger] t.used_subject_nullifiers[w],
    ) by {
        if w < used.len() {
            assert(bound.contains(used[w]));
            let k = choose|k: int| 0 <= k < bound.len() && bound[k] == used[w];
            assert(bound_t[k] == used[w]);
        } else {
            assert(bound_t[n] == b.subject_nullifier);
        }
    }
}

/// A guarantee recorded with a verified subject on a request no
/// subject was bound to keeps a valid book valid, the new subject's issuer
/// known to the identity layer, when each decision and guarantee already
/// recorded for that request still checks out once the subject is bound
/// (otherwise that record is what makes the book invalid).
#[verifier::spinoff_prover]
pub proof fn law_a_confidential_guarantee_on_a_new_line_keeps_the_book_valid(
    s: BookState,
    b: ConfidentialSubjectBinding,
    g: GuaranteeCommitment,
    now: u64,
    issuers_registered: Seq<bool>,
)
    requires
        s.records_valid(issuers_registered),
        s.binding_index(b.request_id) < 0,
        s.presentation_error(b, g.series_id, g.request_id, g.valid_until, now) is None,
        s.bind_error(b, now) is None,
        g.well_formed(),
        s.after_bind(b).guarantee_error(g, g.spec_statement(), now) is None,
        forall|j: int|
            0 <= j < s.credit_decisions.len() && (#[trigger] s.credit_decisions[j]).request_id
                == b.request_id ==> s.after_bind(b).decision_ok(s.credit_decisions[j]),
        forall|j: int|
            0 <= j < s.guarantees.len() && (#[trigger] s.guarantees[j]).request_id == b.request_id
                ==> s.after_bind(b).guarantee_ok(s.guarantees[j]),
    ensures
        s.after_bind(b).after_guarantee(g).records_valid(issuers_registered.push(true)),
{
    let u = s.after_bind(b);
    let t = u.after_guarantee(g);
    lemma_book_parts(s, issuers_registered);
    assert(!s.used_subject_nullifiers.contains(b.subject_nullifier));
    lemma_bind_keeps_ids(s, b);
    lemma_bind_keeps_records(s, b);
    lemma_guarantee_keeps_ids(u, g, now);
    lemma_recordable_guarantee_ok(u, g, now);
    lemma_guarantee_keeps_records(u, g);
    assert forall|j: int| 0 <= j < t.series.len() implies #[trigger] t.series_ok(j) by {
        assert(u.series_ok(j));
    }
    assert forall|j: int| 0 <= j < t.streams.len() implies t.stream_ok(#[trigger] t.streams[j]) by {
        assert(u.stream_ok(u.streams[j]));
    }
    lemma_bound_line_checks_out_for_guarantee(s, b, g, now, issuers_registered);
    lemma_book_intro(t, issuers_registered.push(true));
}

/// A credit decision recorded with a verified subject that continues the
/// subject line already bound to its request keeps a valid book valid.
pub proof fn law_a_confidential_decision_on_a_bound_line_keeps_the_book_valid(
    s: BookState,
    b: ConfidentialSubjectBinding,
    d: CreditDecision,
    now: u64,
    issuers_registered: Seq<bool>,
)
    requires
        s.records_valid(issuers_registered),
        s.binding_index(b.request_id) >= 0,
        s.bind_error(b, now) is None,
        d.well_formed(),
        s.after_bind(b).credit_decision_error(d, d.spec_statement(), now) is None,
    ensures
        s.after_bind(b).after_decision(d).records_valid(issuers_registered),
{
    law_recording_a_decision_keeps_the_book_valid(s, d, now, issuers_registered);
}

/// A guarantee recorded with a verified subject that continues the subject
/// line already bound to its request keeps a valid book valid.
pub proof fn law_a_confidential_guarantee_on_a_bound_line_keeps_the_book_valid(
    s: BookState,
    b: ConfidentialSubjectBinding,
    g: GuaranteeCommitment,
    now: u64,
    issuers_registered: Seq<bool>,
)
    requires
        s.records_valid(issuers_registered),
        s.binding_index(b.request_id) >= 0,
        s.bind_error(b, now) is None,
        g.well_formed(),
        s.after_bind(b).guarantee_error(g, g.spec_statement(), now) is None,
    ensures
        s.after_bind(b).after_guarantee(g).records_valid(issuers_registered),
{
    law_recording_a_guarantee_keeps_the_book_valid(s, g, now, issuers_registered);
}

/// A receivable is issued only at the time it states, against the active
/// series it names, and no later than that series' maturity.
pub proof fn law_a_receivable_is_issued_only_while_its_series_is_active_and_unmatured(
    s: BookState,
    issuance: ReceivableIssuance,
    now: u64,
)
    requires
        s.issue_error(issuance, now) is None,
    ensures
        ({
            let si = s.series_index(issuance.series_id);
            &&& issuance.issued_at == now
            &&& 0 <= si < s.series.len()
            &&& s.series[si].series_id == issuance.series_id
            &&& s.series[si].status == ReceivableStatus::Active
            &&& now <= s.series[si].maturity
        }),
{
    reveal(BookState::issue_error);
    crate::seqs::lemma_first_match(s.series, series_has_id(issuance.series_id));
}

/// A bound guarantee covers a live note and can only end through a claim:
/// no release of it is accepted.
pub proof fn law_bound_guarantee_is_not_released(
    s: BookState,
    release: GuaranteeRelease,
    statement: Seq<u8>,
    now: u64,
)
    requires
        s.guarantee_index(release.guarantee_id) >= 0,
        s.guarantees[s.guarantee_index(release.guarantee_id)].bound_issuance_id is Some,
    ensures
        s.release_error(release, statement, now) is Some,
{
    reveal(BookState::release_error);
}

/// Revocation is terminal: no status change of a revoked provider is
/// accepted.
pub proof fn law_revocation_is_terminal(s: BookState, request: SetProviderStatus, now: u64)
    requires
        s.provider_index(request.provider_id) >= 0,
        s.providers[s.provider_index(request.provider_id)].status == ProviderStatus::Revoked,
    ensures
        s.provider_status_error(request, now) is Some,
{
    reveal(BookState::provider_status_error);
}

/// An issuance is one-use: once recorded, neither it nor any issuance
/// reusing its allocation nullifier or its note is accepted again.
pub proof fn law_issuance_is_one_use(
    s: BookState,
    issuance: ReceivableIssuance,
    again: ReceivableIssuance,
    now: u64,
    later: u64,
)
    requires
        s.issue_error(issuance, now) is None,
        again.issuance_id == issuance.issuance_id || again.allocation_nullifier
            == issuance.allocation_nullifier || again.note_id == issuance.note_id,
    ensures
        s.after_issue(issuance).issue_error(again, later) is Some,
{
    reveal(BookState::issue_error);
    let t = s.after_issue(issuance);
    let n = s.issuances.len();
    assert(t.issuances[n as int] == issuance);
    if again.issuance_id == issuance.issuance_id {
        crate::seqs::lemma_first_match_push(s.issuances, issuance, issuance_has_id(again.issuance_id));
    }
    if again.allocation_nullifier == issuance.allocation_nullifier {
        assert(t.used_allocation_nullifiers[s.used_allocation_nullifiers.len() as int]
            == issuance.allocation_nullifier);
    }
}

/// An accepted issuance binds the guarantee and the funding quote it names
/// to itself, and moves its stream to the next version with the new pledge.
pub proof fn law_issuance_binds_its_artifacts(s: BookState, issuance: ReceivableIssuance, now: u64)
    requires
        s.issue_error(issuance, now) is None,
    ensures
        ({
            let t = s.after_issue(issuance);
            let st = s.series_stream_state(issuance.series_id);
            let ti = s.stream_index(s.series[s.series_index(issuance.series_id)].stream_id);
            &&& t.streams[ti].state.version == st.version + 1
            &&& t.streams[ti].state.pledged_commitment == issuance.after_pledged_commitment
            &&& (issuance.guarantee_id matches Some(id) ==> {
                let g = t.guarantees[s.guarantee_index(id)];
                g.status == GuaranteeStatus::Bound && g.bound_issuance_id == Some(
                    issuance.issuance_id,
                )
            })
            &&& (issuance.funding_quote_id matches Some(id) ==> t.funding_quotes[s.quote_index(
                id,
            )].bound_issuance_id == Some(issuance.issuance_id))
        }),
{
    lemma_issue_accepted(s, issuance, now);
    let t = s.after_issue(issuance);
    let ti = s.stream_index(s.series[s.series_index(issuance.series_id)].stream_id);
    crate::seqs::lemma_first_match(s.streams, stream_has_id(s.series[s.series_index(issuance.series_id)].stream_id));
    assert(t.streams[ti].state == pledged_state(s.streams[ti].state, issuance.after_pledged_commitment));
    if let Some(id) = issuance.guarantee_id {
        let gi = s.guarantee_index(id);
        crate::seqs::lemma_first_match(s.guarantees, guarantee_has_id(id));
        assert(t.guarantees == s.guarantees.update(gi, bound_guarantee(s.guarantees[gi], issuance.issuance_id)));
        assert(t.guarantees[gi] == bound_guarantee(s.guarantees[gi], issuance.issuance_id));
    }
    if let Some(id) = issuance.funding_quote_id {
        let qi = s.quote_index(id);
        crate::seqs::lemma_first_match(s.funding_quotes, quote_has_id(id));
        assert(t.funding_quotes[qi] == bound_quote(s.funding_quotes[qi], issuance.issuance_id));
    }
}

/// A funding quote, once recorded, is not recorded again: its cash
/// reservation is taken and its operation is spent.
pub proof fn law_recorded_quote_is_not_recorded_again(
    s: BookState,
    quote: FundingQuote,
    statement: Seq<u8>,
    now: u64,
    later: u64,
)
    requires
        s.funding_quote_error(quote, statement, now) is None,
    ensures
        s.after_quote(quote).funding_quote_error(quote, statement, later) is Some,
{
    reveal(BookState::funding_quote_error);
    let t = s.after_quote(quote);
    assert(t.funding_quotes[s.funding_quotes.len() as int] == quote);
    assert(t.reservation_taken(quote.cash_reservation_id));
    assert(t.used_operations[s.used_operations.len() as int] == quote.operation_id);
    assert(!t.op_available(quote.operation_id));
}

/// A guarantee is claimed once: after a claim it is claimed, and no claim on
/// it is accepted again.
pub proof fn law_guarantee_is_claimed_once(
    s: BookState,
    claim: GuaranteeClaim,
    again: GuaranteeClaim,
    now: u64,
    later: u64,
)
    requires
        s.claim_error(claim, now) is None,
        again.guarantee_id == claim.guarantee_id,
    ensures
        ({
            let gi = s.guarantee_index(claim.guarantee_id);
            let t = BookState {
                guarantees: s.guarantees.update(
                    gi,
                    guarantee_with_status(s.guarantees[gi], GuaranteeStatus::Claimed),
                ),
                guarantee_claims: s.guarantee_claims.push(claim),
                used_operations: s.used_operations.push(claim.operation_id),
                ..s
            };
            &&& t.guarantees[gi].status == GuaranteeStatus::Claimed
            &&& t.claim_error(again, later) is Some
        }),
{
    reveal(BookState::claim_error);
    let gi = s.guarantee_index(claim.guarantee_id);
    let g2 = guarantee_with_status(s.guarantees[gi], GuaranteeStatus::Claimed);
    crate::seqs::lemma_first_match(s.guarantees, guarantee_has_id(claim.guarantee_id));
    crate::seqs::lemma_first_match_update(s.guarantees, gi, g2, guarantee_has_id(claim.guarantee_id));
}

/// What the proof of possession of a rotation request gives: its statement
/// when the next key signed it.
pub open spec fn possession_result(req: RotateProviderKey) -> Result<Seq<u8>, ProviderError> {
    match req.statement_result() {
        Err(e) => Err(e),
        Ok(d) => match spec_verify_key_signature(req.next_public_key@, d, req.signature@) {
            Ok(()) => Ok(d),
            Err(e) => Err(signature_error(e)),
        },
    }
}

impl BookState {
    /// Why a rotation whose possession proof holds cannot be recorded at
    /// `now`, if it cannot: the operation is spent; the provider is unknown,
    /// invalid, or revoked; the rotation is not dated now within the
    /// provider's window; the sequence is stale; the next key was ever the
    /// provider's; the sequence is at its end; or the retirement would be
    /// dated before the last one.
    pub open spec fn rotate_error(self, req: RotateProviderKey, now: u64) -> Option<AethelError> {
        let pi = self.provider_index(req.provider_id);
        let p = self.providers[pi];
        if !self.op_available(req.operation_id) {
            Some(AethelError::Replay)
        } else if pi < 0 {
            Some(AethelError::UnknownProvider)
        } else if p.validate_result() is Err {
            Some(from_provider(p.validate_result()->Err_0))
        } else if p.status == ProviderStatus::Revoked {
            Some(AethelError::ProviderRevoked)
        } else if req.rotated_at != now || now < p.valid_from || now > p.valid_until {
            Some(AethelError::OutsideValidityWindow)
        } else if p.sequence != req.expected_sequence {
            Some(AethelError::StaleSequence)
        } else if p.spec_signing_keys().contains(req.next_public_key) {
            Some(AethelError::InvalidProviderKey)
        } else if p.sequence == u64::MAX {
            Some(AethelError::ArithmeticOverflow)
        } else if retires_out_of_order(p, now) {
            Some(AethelError::InvalidProvider)
        } else {
            None
        }
    }
}

impl AethelBook {
    /// Retires the provider's current key and installs the next one. The
    /// request proves possession of the next key; whether this provider may
    /// rotate at all is the application's decision. Artifacts already
    /// recorded under the retired key stay in the book; it signs nothing new.
    /// A key that was ever the provider's cannot return.
    pub fn rotate_provider_key(&mut self, request: RotateProviderKey, now: u64) -> (r: Result<
        Commitment,
        AethelError,
    >)
        ensures
            match possession_result(request) {
                Err(e) => r == Err::<Commitment, AethelError>(from_provider(e)),
                Ok(d) => match old(self)@.rotate_error(request, now) {
                    Some(e) => r == Err::<Commitment, AethelError>(e),
                    None => r matches Ok(x) && x@ == d,
                },
            },
            r is Ok ==> ({
                let pi = old(self)@.provider_index(request.provider_id);
                &&& final(self)@.providers.len() == old(self)@.providers.len()
                &&& forall|j: int|
                    0 <= j < old(self)@.providers.len() && j != pi ==> final(self)@.providers[j]
                        == old(self)@.providers[j]
                &&& rotated(
                    old(self)@.providers[pi],
                    final(self)@.providers[pi],
                    request.next_public_key,
                    now,
                )
                &&& final(self)@.providers[pi].validate_result() is Ok
                &&& final(self)@ == (BookState {
                    providers: final(self)@.providers,
                    used_operations: old(self)@.used_operations.push(request.operation_id),
                    ..old(self)@
                })
            }),
            r is Err ==> final(self)@ == old(self)@,
    {
        let statement = match request.verify_possession() {
            Ok(d) => d,
            Err(e) => return Err(aethel_error(e)),
        };
        match self.ensure_operation_unused(&request.operation_id) {
            Ok(()) => {},
            Err(e) => return Err(e),
        }
        let pi = match self.find_provider_index(&request.provider_id) {
            Some(i) => i,
            None => return Err(AethelError::UnknownProvider),
        };
        match self.providers[pi].validate() {
            Ok(()) => {},
            Err(e) => return Err(aethel_error(e)),
        }
        let p = &self.providers[pi];
        if matches!(p.status, ProviderStatus::Revoked) {
            return Err(AethelError::ProviderRevoked);
        }
        if request.rotated_at != now || now < p.valid_from || now > p.valid_until {
            return Err(AethelError::OutsideValidityWindow);
        }
        if p.sequence != request.expected_sequence {
            return Err(AethelError::StaleSequence);
        }
        let keys = p.signing_keys();
        if contains_id(&keys, &request.next_public_key) {
            return Err(AethelError::InvalidProviderKey);
        }
        if p.sequence == u64::MAX {
            return Err(AethelError::ArithmeticOverflow);
        }
        let n = p.retired_keys.len();
        if n > 0 && now < p.retired_keys[n - 1].retired_at {
            return Err(AethelError::InvalidProvider);
        }
        let ghost before = self@;
        let mut q = self.providers.remove(pi);
        let ghost old_q = q;
        let retired = RetiredProviderKey { public_key: q.public_key, retired_at: now };
        q.retired_keys.push(retired);
        q.public_key = request.next_public_key;
        q.sequence = q.sequence + 1;
        proof {
            lemma_rotated_validity(old_q, q, request.next_public_key, now);
        }
        self.providers.insert(pi, q);
        self.used_operations.push(request.operation_id);
        proof {
            assert(self@.providers =~= before.providers.update(pi as int, q));
        }
        Ok(statement)
    }
}

/// The parts of a valid book.
proof fn lemma_book_parts(s: BookState, issuers_registered: Seq<bool>)
    requires
        s.records_valid(issuers_registered),
    ensures
        s.ids_unique(),
        s.registry_valid(),
        issuers_registered.len() == s.confidential_subjects.len(),
        forall|k: int|
            0 <= k < s.confidential_subjects.len() ==> #[trigger] s.binding_ok(k, issuers_registered[k]),
        s.subject_nullifiers_match(),
        s.artifacts_valid(),
        s.outcomes_valid(),
        s.allocation_nullifiers_match(),
{
    reveal(BookState::records_valid);
}

/// A book with every part valid is valid.
proof fn lemma_book_intro(s: BookState, issuers_registered: Seq<bool>)
    requires
        s.ids_unique(),
        s.registry_valid(),
        issuers_registered.len() == s.confidential_subjects.len(),
        forall|k: int|
            0 <= k < s.confidential_subjects.len() ==> #[trigger] s.binding_ok(k, issuers_registered[k]),
        s.subject_nullifiers_match(),
        s.artifacts_valid(),
        s.outcomes_valid(),
        s.allocation_nullifiers_match(),
    ensures
        s.records_valid(issuers_registered),
{
    reveal(BookState::records_valid);
}

/// Every key a valid provider has ever held decodes.
proof fn lemma_valid_provider_keys_decode(p: ProviderDefinition)
    requires
        p.validate_result() is Ok,
    ensures
        forall|j: int|
            0 <= j < p.spec_signing_keys().len() ==> ed25519_key_decodes(
                (#[trigger] p.spec_signing_keys()[j])@,
            ),
{
    let n = p.retired_keys@.len() as int;
    crate::seqs::lemma_first_match(p.retired_positions(), p.retired_fails());
    assert forall|j: int| 0 <= j < p.spec_signing_keys().len() implies ed25519_key_decodes(
        (#[trigger] p.spec_signing_keys()[j])@,
    ) by {
        if j < n {
            assert(p.retired_positions()[j] == j);
            assert(!(p.retired_fails())(p.retired_positions()[j]));
            assert(p.spec_signing_keys()[j] == p.retired_keys@[j].public_key);
        } else {
            assert(p.spec_signing_keys()[j] == p.public_key);
        }
    }
}

/// A signature a valid provider's current key accepts is accepted as
/// recorded.
proof fn lemma_new_signature_is_recorded(p: ProviderDefinition, statement: Seq<u8>, signature: Seq<u8>)
    requires
        p.validate_result() is Ok,
        spec_verify_key_signature(p.public_key@, statement, signature) is Ok,
    ensures
        p.recorded_signature_result(statement, signature) is Ok,
{
    let keys = p.spec_signing_keys();
    let decides = key_decides(statement, signature);
    let n = keys.len() - 1;
    assert(keys[n] == p.public_key);
    lemma_valid_provider_keys_decode(p);
    crate::seqs::lemma_first_match(keys, decides);
    assert(decides(keys[n]));
    let first = first_match(keys, decides);
    assert(first >= 0);
    assert(ed25519_key_decodes(keys[first]@));
}

impl BookState {
    /// The book after recording a funding quote: the quote stored, its
    /// operation and provider nonce consumed.
    pub open spec fn after_quote(self, q: FundingQuote) -> BookState {
        BookState {
            funding_quotes: self.funding_quotes.push(q),
            used_operations: self.used_operations.push(q.operation_id),
            used_provider_nonces: self.used_provider_nonces.push((q.provider_id, q.nonce)),
            ..self
        }
    }
}

/// Recorded decisions, guarantees, and quotes are judged by the providers,
/// series, bindings, decisions, guarantees, and releases alone.
proof fn lemma_artifacts_frame(s: BookState, t: BookState)
    requires
        s.providers == t.providers,
        s.series == t.series,
        s.confidential_subjects == t.confidential_subjects,
        s.credit_decisions == t.credit_decisions,
        s.guarantees == t.guarantees,
        s.guarantee_releases == t.guarantee_releases,
    ensures
        forall|d: CreditDecision| #[trigger] s.decision_ok(d) == t.decision_ok(d),
        forall|g: GuaranteeCommitment| #[trigger] s.guarantee_ok(g) == t.guarantee_ok(g),
        forall|q: FundingQuote| #[trigger] s.quote_ok(q) == t.quote_ok(q),
{
    reveal(BookState::decision_ok);
    reveal(BookState::guarantee_ok);
    reveal(BookState::quote_ok);
    reveal(BookState::subject_binding_error);
}

/// Releases, defaults, and claims are judged by the providers, guarantees,
/// issuances, defaults, and series alone.
proof fn lemma_tail_frame(s: BookState, t: BookState)
    requires
        s.providers == t.providers,
        s.series == t.series,
        s.guarantees == t.guarantees,
        s.issuances == t.issuances,
        s.default_attestations == t.default_attestations,
    ensures
        forall|r: GuaranteeRelease| #[trigger] s.release_ok(r) == t.release_ok(r),
        forall|a: DefaultAttestation| #[trigger] s.default_ok(a) == t.default_ok(a),
        forall|c: GuaranteeClaim| #[trigger] s.claim_ok(c) == t.claim_ok(c),
{
    reveal(BookState::release_ok);
    reveal(BookState::default_ok);
    reveal(BookState::claim_ok);
}

/// What a funding quote that can be recorded finds in the book.
proof fn lemma_quote_accepted(s: BookState, q: FundingQuote, now: u64)
    requires
        s.funding_quote_error(q, q.spec_statement(), now) is None,
    ensures
        s.provider_index(q.provider_id) >= 0,
        s.providers[s.provider_index(q.provider_id)].spec_has(ProviderCapability::LiquidityProvider, now),
        spec_verify_key_signature(
            s.providers[s.provider_index(q.provider_id)].public_key@,
            q.spec_statement(),
            q.signature@,
        ) is Ok,
        s.series_index(q.series_id) >= 0,
        s.op_available(q.operation_id),
        s.quote_index(q.quote_id) < 0,
        !s.nonce_used(q.provider_id, q.nonce),
        q.credit_decision_id matches Some(id) ==> ({
            let di = s.decision_index(id);
            let d = s.credit_decisions[di];
            di >= 0 && spec_same_request_state(
                d.request_id,
                d.series_id,
                d.stream_state_version,
                d.stream_state_root,
                q.request_id,
                q.series_id,
                q.stream_state_version,
                q.stream_state_root,
            )
        }),
        q.guarantee_id matches Some(id) ==> ({
            let gi = s.guarantee_index(id);
            let g = s.guarantees[gi];
            gi >= 0 && spec_same_request_state(
                g.request_id,
                g.series_id,
                g.stream_state_version,
                g.stream_state_root,
                q.request_id,
                q.series_id,
                q.stream_state_version,
                q.stream_state_root,
            )
        }),
{
    reveal(BookState::funding_quote_error);
    reveal(BookState::active_provider_error);
    reveal(new_signature_error);
    reveal(BookState::series_state_error);
    reveal(BookState::quote_links_error);
    reveal(BookState::decision_link_error);
}

/// Recording an accepted funding quote keeps identifiers unique.
#[verifier::spinoff_prover]
proof fn lemma_quote_keeps_ids(s: BookState, q: FundingQuote, now: u64)
    requires
        s.ids_unique(),
        s.funding_quote_error(q, q.spec_statement(), now) is None,
    ensures
        s.after_quote(q).ids_unique(),
{
    let t = s.after_quote(q);
    let n = s.funding_quotes.len() as int;
    lemma_quote_accepted(s, q, now);
    crate::seqs::lemma_first_match(s.funding_quotes, quote_has_id(q.quote_id));
    let before = s.funding_quotes.map_values(funding_quotes_key());
    let after = t.funding_quotes.map_values(funding_quotes_key());
    assert(after =~= before.push(q.quote_id));
    assert forall|a: int, b: int| 0 <= a < b < after.len() implies #[trigger] after[a] != #[trigger] after[b] by {
        if b == n {
            assert(!(quote_has_id(q.quote_id))(s.funding_quotes[a]));
        } else {
            assert(before[a] != before[b]);
        }
    }
    assert forall|a: int, b: int|
        0 <= a < b < t.used_operations.len() implies #[trigger] t.used_operations[a]
        != #[trigger] t.used_operations[b] by {
        if b == s.used_operations.len() {
            assert(s.used_operations[a] != q.operation_id);
        }
    }
    assert forall|a: int, b: int|
        0 <= a < b < t.used_provider_nonces.len() implies #[trigger] t.used_provider_nonces[a]
        != #[trigger] t.used_provider_nonces[b] by {
        if b == s.used_provider_nonces.len() {
            assert(s.used_provider_nonces[a] != (q.provider_id, q.nonce));
        }
    }
}

/// A funding quote that can be recorded checks out in the book it is
/// recorded in.
#[verifier::spinoff_prover]
proof fn lemma_accepted_quote_ok(s: BookState, q: FundingQuote, now: u64)
    requires
        q.well_formed(),
        s.provider_index(q.provider_id) >= 0,
        s.providers[s.provider_index(q.provider_id)].validate_result() is Ok,
        s.providers[s.provider_index(q.provider_id)].spec_has(ProviderCapability::LiquidityProvider, now),
        spec_verify_key_signature(
            s.providers[s.provider_index(q.provider_id)].public_key@,
            q.spec_statement(),
            q.signature@,
        ) is Ok,
        s.series_index(q.series_id) >= 0,
        s.op_available(q.operation_id),
        s.quote_index(q.quote_id) < 0,
        !s.nonce_used(q.provider_id, q.nonce),
        q.credit_decision_id matches Some(id) ==> ({
            let di = s.decision_index(id);
            let d = s.credit_decisions[di];
            di >= 0 && spec_same_request_state(
                d.request_id,
                d.series_id,
                d.stream_state_version,
                d.stream_state_root,
                q.request_id,
                q.series_id,
                q.stream_state_version,
                q.stream_state_root,
            )
        }),
        q.guarantee_id matches Some(id) ==> ({
            let gi = s.guarantee_index(id);
            let g = s.guarantees[gi];
            gi >= 0 && spec_same_request_state(
                g.request_id,
                g.series_id,
                g.stream_state_version,
                g.stream_state_root,
                q.request_id,
                q.series_id,
                q.stream_state_version,
                q.stream_state_root,
            )
        }),
    ensures
        s.quote_ok(q),
{
    let pi = s.provider_index(q.provider_id);
    assert(s.recorded_ok(pi, q.spec_statement(), q.signature@)) by {
        lemma_new_signature_is_recorded(s.providers[pi], q.spec_statement(), q.signature@);
    }
    assert(initial_quote(q) == q);
    assert(s.providers[pi].capabilities@.contains(ProviderCapability::LiquidityProvider));
    reveal(BookState::quote_ok);
}

/// A funding quote that can be recorded in a book with a valid registry
/// checks out there.
#[verifier::spinoff_prover]
proof fn lemma_recordable_quote_ok(s: BookState, q: FundingQuote, now: u64)
    requires
        s.registry_valid(),
        q.well_formed(),
        s.funding_quote_error(q, q.spec_statement(), now) is None,
    ensures
        s.quote_ok(q),
{
    lemma_quote_accepted(s, q, now);
    crate::seqs::lemma_first_match(s.providers, crate::provider::provider_has_id(q.provider_id));
    assert(s.providers[s.provider_index(q.provider_id)].validate_result() is Ok);
    lemma_accepted_quote_ok(s, q, now);
}

/// Recording a funding quote that checks out keeps every recorded artifact
/// checking out.
#[verifier::spinoff_prover]
proof fn lemma_quote_keeps_artifacts(s: BookState, q: FundingQuote)
    requires
        s.artifacts_valid(),
        s.quote_ok(q),
    ensures
        s.after_quote(q).artifacts_valid(),
{
    let t = s.after_quote(q);
    let n = s.funding_quotes.len() as int;
    lemma_artifacts_frame(s, t);
    assert forall|j: int| 0 <= j < t.funding_quotes.len() implies t.quote_ok(
        #[trigger] t.funding_quotes[j],
    ) by {
        if j < n {
            assert(s.quote_ok(s.funding_quotes[j]));
        }
    }
    assert forall|j: int| 0 <= j < t.credit_decisions.len() implies t.decision_ok(
        #[trigger] t.credit_decisions[j],
    ) by {
        assert(s.decision_ok(s.credit_decisions[j]));
    }
    assert forall|j: int| 0 <= j < t.guarantees.len() implies t.guarantee_ok(
        #[trigger] t.guarantees[j],
    ) by {
        assert(s.guarantee_ok(s.guarantees[j]));
    }
}

/// Recording a funding quote leaves the registry, the bindings, and the
/// consumed nullifiers as they were judged.
#[verifier::spinoff_prover]
proof fn lemma_quote_keeps_registry(s: BookState, q: FundingQuote, issuers_registered: Seq<bool>)
    requires
        s.registry_valid(),
        issuers_registered.len() == s.confidential_subjects.len(),
        forall|k: int|
            0 <= k < s.confidential_subjects.len() ==> #[trigger] s.binding_ok(k, issuers_registered[k]),
        s.subject_nullifiers_match(),
        s.allocation_nullifiers_match(),
    ensures
        ({
            let t = s.after_quote(q);
            &&& t.registry_valid()
            &&& forall|k: int|
                0 <= k < t.confidential_subjects.len() ==> #[trigger] t.binding_ok(
                    k,
                    issuers_registered[k],
                )
            &&& t.subject_nullifiers_match()
            &&& t.allocation_nullifiers_match()
        }),
{
    let t = s.after_quote(q);
    assert(t.providers == s.providers);
    assert(t.streams == s.streams);
    assert(t.series == s.series);
    assert(t.confidential_subjects == s.confidential_subjects);
    assert(t.credit_decisions == s.credit_decisions);
    assert(t.guarantees == s.guarantees);
    assert(t.issuances == s.issuances);
    assert(t.used_subject_nullifiers == s.used_subject_nullifiers);
    assert(t.used_allocation_nullifiers == s.used_allocation_nullifiers);
    assert forall|k: int|
        0 <= k < t.confidential_subjects.len() implies #[trigger] t.binding_ok(k, issuers_registered[k]) by {
        assert(s.binding_ok(k, issuers_registered[k]));
    }
    assert forall|j: int| 0 <= j < t.series.len() implies #[trigger] t.series_ok(j) by {
        assert(s.series_ok(j));
    }
    assert forall|j: int| 0 <= j < t.streams.len() implies t.stream_ok(#[trigger] t.streams[j]) by {
        assert(s.stream_ok(s.streams[j]));
    }
}

/// Recording an accepted funding quote keeps every issuance, release,
/// default, and claim checking out.
#[verifier::spinoff_prover]
proof fn lemma_quote_keeps_outcomes(s: BookState, q: FundingQuote, now: u64)
    requires
        s.outcomes_valid(),
        s.funding_quote_error(q, q.spec_statement(), now) is None,
    ensures
        s.after_quote(q).outcomes_valid(),
{
    let t = s.after_quote(q);
    lemma_quote_accepted(s, q, now);
    lemma_tail_frame(s, t);
    assert forall|k: int| 0 <= k < t.issuances.len() implies #[trigger] t.issuance_ok(k) by {
        assert(s.issuance_ok(k));
        reveal(BookState::issuance_ok);
        if let Some(id) = s.issuances[k].funding_quote_id {
            crate::seqs::lemma_first_match_push(s.funding_quotes, q, quote_has_id(id));
            crate::seqs::lemma_first_match(s.funding_quotes, quote_has_id(id));
        }
    }
}

/// Recording a funding quote keeps a valid book valid.
#[verifier::spinoff_prover]
pub proof fn law_recording_a_quote_keeps_the_book_valid(
    s: BookState,
    q: FundingQuote,
    now: u64,
    issuers_registered: Seq<bool>,
)
    requires
        s.records_valid(issuers_registered),
        q.well_formed(),
        s.funding_quote_error(q, q.spec_statement(), now) is None,
    ensures
        s.after_quote(q).records_valid(issuers_registered),
{
    let t = s.after_quote(q);
    lemma_book_parts(s, issuers_registered);
    lemma_quote_keeps_ids(s, q, now);
    lemma_recordable_quote_ok(s, q, now);
    lemma_quote_keeps_artifacts(s, q);
    lemma_quote_keeps_outcomes(s, q, now);
    lemma_quote_keeps_registry(s, q, issuers_registered);
    lemma_book_intro(t, issuers_registered);
}

impl BookState {
    /// The book after recording a credit decision: the decision stored, its
    /// operation and provider nonce consumed.
    pub open spec fn after_decision(self, d: CreditDecision) -> BookState {
        BookState {
            credit_decisions: self.credit_decisions.push(d),
            used_operations: self.used_operations.push(d.operation_id),
            used_provider_nonces: self.used_provider_nonces.push((d.provider_id, d.nonce)),
            ..self
        }
    }
}

/// What a credit decision that can be recorded finds in the book.
proof fn lemma_decision_accepted(s: BookState, d: CreditDecision, now: u64)
    requires
        s.credit_decision_error(d, d.spec_statement(), now) is None,
    ensures
        s.provider_index(d.provider_id) >= 0,
        s.providers[s.provider_index(d.provider_id)].spec_has(ProviderCapability::CreditAssessor, now),
        spec_verify_key_signature(
            s.providers[s.provider_index(d.provider_id)].public_key@,
            d.spec_statement(),
            d.signature@,
        ) is Ok,
        s.series_index(d.series_id) >= 0,
        s.subject_binding_error(d.series_id, d.request_id, d.valid_until) is None,
        s.op_available(d.operation_id),
        s.decision_index(d.decision_id) < 0,
        !s.nonce_used(d.provider_id, d.nonce),
{
    reveal(BookState::credit_decision_error);
    reveal(BookState::active_provider_error);
    reveal(new_signature_error);
    reveal(BookState::series_state_error);
}

/// Recording an accepted credit decision keeps identifiers unique.
#[verifier::spinoff_prover]
proof fn lemma_decision_keeps_ids(s: BookState, d: CreditDecision, now: u64)
    requires
        s.ids_unique(),
        s.credit_decision_error(d, d.spec_statement(), now) is None,
    ensures
        s.after_decision(d).ids_unique(),
{
    let t = s.after_decision(d);
    let n = s.credit_decisions.len() as int;
    lemma_decision_accepted(s, d, now);
    crate::seqs::lemma_first_match(s.credit_decisions, decision_has_id(d.decision_id));
    let before = s.credit_decisions.map_values(credit_decisions_key());
    let after = t.credit_decisions.map_values(credit_decisions_key());
    assert(after =~= before.push(d.decision_id));
    assert forall|a: int, b: int| 0 <= a < b < after.len() implies #[trigger] after[a] != #[trigger] after[b] by {
        if b == n {
            assert(!(decision_has_id(d.decision_id))(s.credit_decisions[a]));
        } else {
            assert(before[a] != before[b]);
        }
    }
    assert forall|a: int, b: int|
        0 <= a < b < t.used_operations.len() implies #[trigger] t.used_operations[a]
        != #[trigger] t.used_operations[b] by {
        if b == s.used_operations.len() {
            assert(s.used_operations[a] != d.operation_id);
        }
    }
    assert forall|a: int, b: int|
        0 <= a < b < t.used_provider_nonces.len() implies #[trigger] t.used_provider_nonces[a]
        != #[trigger] t.used_provider_nonces[b] by {
        if b == s.used_provider_nonces.len() {
            assert(s.used_provider_nonces[a] != (d.provider_id, d.nonce));
        }
    }
}

/// A credit decision that passes every check checks out in the book.
#[verifier::spinoff_prover]
proof fn lemma_accepted_decision_ok(s: BookState, d: CreditDecision, now: u64)
    requires
        d.well_formed(),
        s.provider_index(d.provider_id) >= 0,
        s.providers[s.provider_index(d.provider_id)].validate_result() is Ok,
        s.providers[s.provider_index(d.provider_id)].spec_has(ProviderCapability::CreditAssessor, now),
        spec_verify_key_signature(
            s.providers[s.provider_index(d.provider_id)].public_key@,
            d.spec_statement(),
            d.signature@,
        ) is Ok,
        s.series_index(d.series_id) >= 0,
        s.subject_binding_error(d.series_id, d.request_id, d.valid_until) is None,
    ensures
        s.decision_ok(d),
{
    let pi = s.provider_index(d.provider_id);
    assert(s.recorded_ok(pi, d.spec_statement(), d.signature@)) by {
        lemma_new_signature_is_recorded(s.providers[pi], d.spec_statement(), d.signature@);
    }
    reveal(BookState::decision_ok);
}

/// A credit decision that can be recorded in a book with a valid registry
/// checks out there.
#[verifier::spinoff_prover]
proof fn lemma_recordable_decision_ok(s: BookState, d: CreditDecision, now: u64)
    requires
        s.registry_valid(),
        d.well_formed(),
        s.credit_decision_error(d, d.spec_statement(), now) is None,
    ensures
        s.decision_ok(d),
{
    lemma_decision_accepted(s, d, now);
    crate::seqs::lemma_first_match(s.providers, crate::provider::provider_has_id(d.provider_id));
    assert(s.providers[s.provider_index(d.provider_id)].validate_result() is Ok);
    lemma_accepted_decision_ok(s, d, now);
}

/// Appending a credit decision leaves how decisions are judged unchanged.
proof fn lemma_decision_frame_decisions(s: BookState, d: CreditDecision)
    ensures
        forall|x: CreditDecision| #[trigger] s.after_decision(d).decision_ok(x) == s.decision_ok(x),
{
    let t = s.after_decision(d);
    assert forall|x: CreditDecision| #[trigger] t.decision_ok(x) == s.decision_ok(x) by {
        reveal(BookState::decision_ok);
        reveal(BookState::subject_binding_error);
    }
}

/// Appending a credit decision leaves the subject checks unchanged.
proof fn lemma_decision_frame_subjects(s: BookState, d: CreditDecision)
    ensures
        forall|series_id: Identifier, request_id: Identifier, valid_until: u64|
            #[trigger] s.after_decision(d).subject_binding_error(series_id, request_id, valid_until)
                == s.subject_binding_error(series_id, request_id, valid_until),
{
    reveal(BookState::subject_binding_error);
}

/// Appending a credit decision keeps a guarantee checking out: if it names
/// a decision, it still finds the same one.
#[verifier::spinoff_prover]
proof fn lemma_decision_frame_guarantee(s: BookState, d: CreditDecision, g: GuaranteeCommitment)
    requires
        s.guarantee_ok(g),
    ensures
        s.after_decision(d).guarantee_ok(g),
{
    let t = s.after_decision(d);
    lemma_decision_frame_subjects(s, d);
    reveal(BookState::guarantee_ok);
    if let Some(id) = g.credit_decision_id {
        crate::seqs::lemma_first_match_push(s.credit_decisions, d, decision_has_id(id));
        crate::seqs::lemma_first_match(s.credit_decisions, decision_has_id(id));
        let di = s.decision_index(id);
        assert(t.credit_decisions[di] == s.credit_decisions[di]);
    }
}

/// Appending a credit decision keeps a funding quote checking out.
#[verifier::spinoff_prover]
proof fn lemma_decision_frame_quote(s: BookState, d: CreditDecision, q: FundingQuote)
    requires
        s.quote_ok(q),
    ensures
        s.after_decision(d).quote_ok(q),
{
    let t = s.after_decision(d);
    reveal(BookState::quote_ok);
    if let Some(id) = q.credit_decision_id {
        crate::seqs::lemma_first_match_push(s.credit_decisions, d, decision_has_id(id));
        crate::seqs::lemma_first_match(s.credit_decisions, decision_has_id(id));
        let di = s.decision_index(id);
        assert(t.credit_decisions[di] == s.credit_decisions[di]);
    }
}

/// Appending a credit decision keeps every issuance checking out.
#[verifier::spinoff_prover]
proof fn lemma_decision_frame_issuances(s: BookState, d: CreditDecision)
    ensures
        forall|k: int|
            0 <= k < s.issuances.len() && s.issuance_ok(k) ==> #[trigger] s.after_decision(d).issuance_ok(k),
{
    let t = s.after_decision(d);
    assert forall|k: int| 0 <= k < s.issuances.len() && s.issuance_ok(k) implies #[trigger] t.issuance_ok(k) by {
        reveal(BookState::issuance_ok);
        if let Some(id) = s.issuances[k].credit_decision_id {
            crate::seqs::lemma_first_match_push(s.credit_decisions, d, decision_has_id(id));
            crate::seqs::lemma_first_match(s.credit_decisions, decision_has_id(id));
            let di = s.decision_index(id);
            assert(t.credit_decisions[di] == s.credit_decisions[di]);
        }
    }
}

/// Recording a credit decision that checks out keeps every recorded
/// artifact and outcome checking out.
#[verifier::spinoff_prover]
proof fn lemma_decision_keeps_records(s: BookState, d: CreditDecision)
    requires
        s.artifacts_valid(),
        s.outcomes_valid(),
        s.decision_ok(d),
        s.decision_index(d.decision_id) < 0,
    ensures
        s.after_decision(d).artifacts_valid(),
        s.after_decision(d).outcomes_valid(),
{
    let t = s.after_decision(d);
    let n = s.credit_decisions.len() as int;
    lemma_decision_frame_decisions(s, d);
    lemma_decision_frame_issuances(s, d);
    lemma_tail_frame(s, t);
    assert forall|j: int| 0 <= j < t.credit_decisions.len() implies t.decision_ok(
        #[trigger] t.credit_decisions[j],
    ) by {
        if j < n {
            assert(s.decision_ok(s.credit_decisions[j]));
        }
    }
    assert forall|j: int| 0 <= j < t.guarantees.len() implies t.guarantee_ok(#[trigger] t.guarantees[j]) by {
        lemma_decision_frame_guarantee(s, d, s.guarantees[j]);
    }
    assert forall|j: int| 0 <= j < t.funding_quotes.len() implies t.quote_ok(
        #[trigger] t.funding_quotes[j],
    ) by {
        lemma_decision_frame_quote(s, d, s.funding_quotes[j]);
    }
    assert forall|k: int| 0 <= k < t.issuances.len() implies #[trigger] t.issuance_ok(k) by {
        assert(s.issuance_ok(k));
    }
    assert forall|j: int| 0 <= j < t.guarantee_releases.len() implies t.release_ok(
        #[trigger] t.guarantee_releases[j],
    ) by {
        assert(s.release_ok(s.guarantee_releases[j]));
    }
    assert forall|j: int| 0 <= j < t.default_attestations.len() implies t.default_ok(
        #[trigger] t.default_attestations[j],
    ) by {
        assert(s.default_ok(s.default_attestations[j]));
    }
    assert forall|j: int| 0 <= j < t.guarantee_claims.len() implies t.claim_ok(
        #[trigger] t.guarantee_claims[j],
    ) by {
        assert(s.claim_ok(s.guarantee_claims[j]));
    }
}

/// Recording a credit decision leaves the registry, the bindings, and the
/// consumed nullifiers as they were judged.
#[verifier::spinoff_prover]
proof fn lemma_decision_keeps_registry(s: BookState, d: CreditDecision, issuers_registered: Seq<bool>)
    requires
        s.registry_valid(),
        issuers_registered.len() == s.confidential_subjects.len(),
        forall|k: int|
            0 <= k < s.confidential_subjects.len() ==> #[trigger] s.binding_ok(k, issuers_registered[k]),
        s.subject_nullifiers_match(),
        s.allocation_nullifiers_match(),
    ensures
        ({
            let t = s.after_decision(d);
            &&& t.registry_valid()
            &&& forall|k: int|
                0 <= k < t.confidential_subjects.len() ==> #[trigger] t.binding_ok(
                    k,
                    issuers_registered[k],
                )
            &&& t.subject_nullifiers_match()
            &&& t.allocation_nullifiers_match()
        }),
{
    let t = s.after_decision(d);
    assert forall|k: int|
        0 <= k < t.confidential_subjects.len() implies #[trigger] t.binding_ok(k, issuers_registered[k]) by {
        assert(s.binding_ok(k, issuers_registered[k]));
        let request_id = s.confidential_subjects[k].request_id;
        if exists|i: int|
            0 <= i < s.credit_decisions.len() && (#[trigger] s.credit_decisions[i]).request_id
                == request_id {
            let i = choose|i: int|
                0 <= i < s.credit_decisions.len() && (#[trigger] s.credit_decisions[i]).request_id
                    == request_id;
            assert(t.credit_decisions[i] == s.credit_decisions[i]);
        }
    }
    assert forall|j: int| 0 <= j < t.series.len() implies #[trigger] t.series_ok(j) by {
        assert(s.series_ok(j));
    }
    assert forall|j: int| 0 <= j < t.streams.len() implies t.stream_ok(#[trigger] t.streams[j]) by {
        assert(s.stream_ok(s.streams[j]));
    }
}

/// Recording a credit decision keeps a valid book valid.
#[verifier::spinoff_prover]
pub proof fn law_recording_a_decision_keeps_the_book_valid(
    s: BookState,
    d: CreditDecision,
    now: u64,
    issuers_registered: Seq<bool>,
)
    requires
        s.records_valid(issuers_registered),
        d.well_formed(),
        s.credit_decision_error(d, d.spec_statement(), now) is None,
    ensures
        s.after_decision(d).records_valid(issuers_registered),
{
    let t = s.after_decision(d);
    lemma_book_parts(s, issuers_registered);
    lemma_decision_keeps_ids(s, d, now);
    lemma_recordable_decision_ok(s, d, now);
    lemma_decision_accepted(s, d, now);
    lemma_decision_keeps_records(s, d);
    lemma_decision_keeps_registry(s, d, issuers_registered);
    lemma_book_intro(t, issuers_registered);
}

impl BookState {
    /// The book after recording a guarantee: the guarantee stored, its
    /// operation and provider nonce consumed.
    pub open spec fn after_guarantee(self, g: GuaranteeCommitment) -> BookState {
        BookState {
            guarantees: self.guarantees.push(g),
            used_operations: self.used_operations.push(g.operation_id),
            used_provider_nonces: self.used_provider_nonces.push((g.provider_id, g.nonce)),
            ..self
        }
    }
}

/// What a guarantee that can be recorded finds in the book.
proof fn lemma_guarantee_accepted(s: BookState, g: GuaranteeCommitment, now: u64)
    requires
        s.guarantee_error(g, g.spec_statement(), now) is None,
    ensures
        s.provider_index(g.provider_id) >= 0,
        s.providers[s.provider_index(g.provider_id)].spec_has(ProviderCapability::Guarantor, now),
        spec_verify_key_signature(
            s.providers[s.provider_index(g.provider_id)].public_key@,
            g.spec_statement(),
            g.signature@,
        ) is Ok,
        s.series_index(g.series_id) >= 0,
        g.credit_decision_id matches Some(id) ==> ({
            let di = s.decision_index(id);
            let d = s.credit_decisions[di];
            di >= 0 && spec_same_request_state(
                d.request_id,
                d.series_id,
                d.stream_state_version,
                d.stream_state_root,
                g.request_id,
                g.series_id,
                g.stream_state_version,
                g.stream_state_root,
            )
        }),
        s.subject_binding_error(g.series_id, g.request_id, g.valid_until) is None,
        s.op_available(g.operation_id),
        s.guarantee_index(g.guarantee_id) < 0,
        !s.nonce_used(g.provider_id, g.nonce),
{
    reveal(BookState::guarantee_error);
    reveal(BookState::active_provider_error);
    reveal(new_signature_error);
    reveal(BookState::series_state_error);
    reveal(BookState::decision_link_error);
}

/// Recording an accepted guarantee keeps identifiers unique.
#[verifier::spinoff_prover]
proof fn lemma_guarantee_keeps_ids(s: BookState, g: GuaranteeCommitment, now: u64)
    requires
        s.ids_unique(),
        s.guarantee_error(g, g.spec_statement(), now) is None,
    ensures
        s.after_guarantee(g).ids_unique(),
{
    let t = s.after_guarantee(g);
    let n = s.guarantees.len() as int;
    lemma_guarantee_accepted(s, g, now);
    crate::seqs::lemma_first_match(s.guarantees, guarantee_has_id(g.guarantee_id));
    let before = s.guarantees.map_values(guarantees_key());
    let after = t.guarantees.map_values(guarantees_key());
    assert(after =~= before.push(g.guarantee_id));
    assert forall|a: int, b: int| 0 <= a < b < after.len() implies #[trigger] after[a] != #[trigger] after[b] by {
        if b == n {
            assert(!(guarantee_has_id(g.guarantee_id))(s.guarantees[a]));
        } else {
            assert(before[a] != before[b]);
        }
    }
    assert forall|a: int, b: int|
        0 <= a < b < t.used_operations.len() implies #[trigger] t.used_operations[a]
        != #[trigger] t.used_operations[b] by {
        if b == s.used_operations.len() {
            assert(s.used_operations[a] != g.operation_id);
        }
    }
    assert forall|a: int, b: int|
        0 <= a < b < t.used_provider_nonces.len() implies #[trigger] t.used_provider_nonces[a]
        != #[trigger] t.used_provider_nonces[b] by {
        if b == s.used_provider_nonces.len() {
            assert(s.used_provider_nonces[a] != (g.provider_id, g.nonce));
        }
    }
}

/// No release is recorded under an identifier no guarantee has.
proof fn lemma_no_release_without_guarantee(s: BookState, id: Identifier)
    requires
        s.outcomes_valid(),
        s.guarantee_index(id) < 0,
    ensures
        s.release_index(id) < 0,
{
    crate::seqs::lemma_first_match(s.guarantee_releases, release_has_id(id));
    let ri = s.release_index(id);
    if ri >= 0 {
        assert(s.release_ok(s.guarantee_releases[ri]));
        reveal(BookState::release_ok);
    }
}

/// A guarantee that passes every check checks out in the book.
#[verifier::spinoff_prover]
proof fn lemma_accepted_guarantee_ok(s: BookState, g: GuaranteeCommitment, now: u64)
    requires
        g.well_formed(),
        s.provider_index(g.provider_id) >= 0,
        s.providers[s.provider_index(g.provider_id)].validate_result() is Ok,
        s.providers[s.provider_index(g.provider_id)].spec_has(ProviderCapability::Guarantor, now),
        spec_verify_key_signature(
            s.providers[s.provider_index(g.provider_id)].public_key@,
            g.spec_statement(),
            g.signature@,
        ) is Ok,
        s.series_index(g.series_id) >= 0,
        g.credit_decision_id matches Some(id) ==> ({
            let di = s.decision_index(id);
            let d = s.credit_decisions[di];
            di >= 0 && spec_same_request_state(
                d.request_id,
                d.series_id,
                d.stream_state_version,
                d.stream_state_root,
                g.request_id,
                g.series_id,
                g.stream_state_version,
                g.stream_state_root,
            )
        }),
        s.subject_binding_error(g.series_id, g.request_id, g.valid_until) is None,
        s.release_index(g.guarantee_id) < 0,
    ensures
        s.guarantee_ok(g),
{
    let pi = s.provider_index(g.provider_id);
    assert(s.recorded_ok(pi, g.spec_statement(), g.signature@)) by {
        lemma_new_signature_is_recorded(s.providers[pi], g.spec_statement(), g.signature@);
    }
    assert(initial_guarantee(g) == g);
    reveal(BookState::guarantee_ok);
}

/// A guarantee that can be recorded in a valid book checks out there.
#[verifier::spinoff_prover]
proof fn lemma_recordable_guarantee_ok(s: BookState, g: GuaranteeCommitment, now: u64)
    requires
        s.registry_valid(),
        s.outcomes_valid(),
        g.well_formed(),
        s.guarantee_error(g, g.spec_statement(), now) is None,
    ensures
        s.guarantee_ok(g),
{
    lemma_guarantee_accepted(s, g, now);
    lemma_no_release_without_guarantee(s, g.guarantee_id);
    crate::seqs::lemma_first_match(s.providers, crate::provider::provider_has_id(g.provider_id));
    assert(s.providers[s.provider_index(g.provider_id)].validate_result() is Ok);
    lemma_accepted_guarantee_ok(s, g, now);
}

/// Appending a guarantee leaves how decisions, guarantees, and defaults are
/// judged unchanged.
proof fn lemma_guarantee_frame_same(s: BookState, g: GuaranteeCommitment)
    ensures
        forall|x: CreditDecision| #[trigger] s.after_guarantee(g).decision_ok(x) == s.decision_ok(x),
        forall|x: GuaranteeCommitment| #[trigger] s.after_guarantee(g).guarantee_ok(x) == s.guarantee_ok(x),
        forall|a: DefaultAttestation| #[trigger] s.after_guarantee(g).default_ok(a) == s.default_ok(a),
{
    let t = s.after_guarantee(g);
    assert forall|series_id: Identifier, request_id: Identifier, valid_until: u64|
        #[trigger] t.subject_binding_error(series_id, request_id, valid_until) == s.subject_binding_error(
            series_id,
            request_id,
            valid_until,
        ) by {
        reveal(BookState::subject_binding_error);
    }
    reveal(BookState::decision_ok);
    reveal(BookState::guarantee_ok);
    reveal(BookState::default_ok);
}

/// Appending a guarantee under a new identifier keeps a funding quote
/// checking out: if it names a guarantee, it still finds the same one.
#[verifier::spinoff_prover]
proof fn lemma_guarantee_frame_quote(s: BookState, g: GuaranteeCommitment, q: FundingQuote)
    requires
        s.quote_ok(q),
    ensures
        s.after_guarantee(g).quote_ok(q),
{
    let t = s.after_guarantee(g);
    reveal(BookState::quote_ok);
    if let Some(id) = q.guarantee_id {
        crate::seqs::lemma_first_match_push(s.guarantees, g, guarantee_has_id(id));
        crate::seqs::lemma_first_match(s.guarantees, guarantee_has_id(id));
        let gi = s.guarantee_index(id);
        assert(t.guarantees[gi] == s.guarantees[gi]);
    }
}

/// Appending a guarantee keeps an issuance checking out.
#[verifier::spinoff_prover]
proof fn lemma_guarantee_frame_issuance(s: BookState, g: GuaranteeCommitment, k: int)
    requires
        0 <= k < s.issuances.len(),
        s.issuance_ok(k),
    ensures
        s.after_guarantee(g).issuance_ok(k),
{
    let t = s.after_guarantee(g);
    reveal(BookState::issuance_ok);
    if let Some(id) = s.issuances[k].guarantee_id {
        crate::seqs::lemma_first_match_push(s.guarantees, g, guarantee_has_id(id));
        crate::seqs::lemma_first_match(s.guarantees, guarantee_has_id(id));
        let gi = s.guarantee_index(id);
        assert(t.guarantees[gi] == s.guarantees[gi]);
    }
}

/// Appending a guarantee keeps releases and claims checking out.
#[verifier::spinoff_prover]
proof fn lemma_guarantee_frame_tail(s: BookState, g: GuaranteeCommitment)
    ensures
        forall|r: GuaranteeRelease| s.release_ok(r) ==> #[trigger] s.after_guarantee(g).release_ok(r),
        forall|c: GuaranteeClaim| s.claim_ok(c) ==> #[trigger] s.after_guarantee(g).claim_ok(c),
{
    let t = s.after_guarantee(g);
    assert forall|r: GuaranteeRelease| s.release_ok(r) implies #[trigger] t.release_ok(r) by {
        reveal(BookState::release_ok);
        crate::seqs::lemma_first_match_push(s.guarantees, g, guarantee_has_id(r.guarantee_id));
        crate::seqs::lemma_first_match(s.guarantees, guarantee_has_id(r.guarantee_id));
        let gi = s.guarantee_index(r.guarantee_id);
        assert(t.guarantees[gi] == s.guarantees[gi]);
    }
    assert forall|c: GuaranteeClaim| s.claim_ok(c) implies #[trigger] t.claim_ok(c) by {
        reveal(BookState::claim_ok);
        crate::seqs::lemma_first_match_push(s.guarantees, g, guarantee_has_id(c.guarantee_id));
        crate::seqs::lemma_first_match(s.guarantees, guarantee_has_id(c.guarantee_id));
        let gi = s.guarantee_index(c.guarantee_id);
        assert(t.guarantees[gi] == s.guarantees[gi]);
    }
}

/// Recording a guarantee that checks out keeps every recorded artifact and
/// outcome checking out.
#[verifier::spinoff_prover]
proof fn lemma_guarantee_keeps_records(s: BookState, g: GuaranteeCommitment)
    requires
        s.artifacts_valid(),
        s.outcomes_valid(),
        s.guarantee_ok(g),
    ensures
        s.after_guarantee(g).artifacts_valid(),
        s.after_guarantee(g).outcomes_valid(),
{
    let t = s.after_guarantee(g);
    let n = s.guarantees.len() as int;
    lemma_guarantee_frame_same(s, g);
    lemma_guarantee_frame_tail(s, g);
    assert forall|j: int| 0 <= j < t.credit_decisions.len() implies t.decision_ok(
        #[trigger] t.credit_decisions[j],
    ) by {
        assert(s.decision_ok(s.credit_decisions[j]));
    }
    assert forall|j: int| 0 <= j < t.guarantees.len() implies t.guarantee_ok(#[trigger] t.guarantees[j]) by {
        if j < n {
            assert(s.guarantee_ok(s.guarantees[j]));
        }
    }
    assert forall|j: int| 0 <= j < t.funding_quotes.len() implies t.quote_ok(
        #[trigger] t.funding_quotes[j],
    ) by {
        lemma_guarantee_frame_quote(s, g, s.funding_quotes[j]);
    }
    assert forall|k: int| 0 <= k < t.issuances.len() implies #[trigger] t.issuance_ok(k) by {
        lemma_guarantee_frame_issuance(s, g, k);
    }
    assert forall|j: int| 0 <= j < t.guarantee_releases.len() implies t.release_ok(
        #[trigger] t.guarantee_releases[j],
    ) by {
        assert(s.release_ok(s.guarantee_releases[j]));
    }
    assert forall|j: int| 0 <= j < t.default_attestations.len() implies t.default_ok(
        #[trigger] t.default_attestations[j],
    ) by {
        assert(s.default_ok(s.default_attestations[j]));
    }
    assert forall|j: int| 0 <= j < t.guarantee_claims.len() implies t.claim_ok(
        #[trigger] t.guarantee_claims[j],
    ) by {
        assert(s.claim_ok(s.guarantee_claims[j]));
    }
}

/// Recording a guarantee leaves the registry, the bindings, and the consumed
/// nullifiers as they were judged.
#[verifier::spinoff_prover]
proof fn lemma_guarantee_keeps_registry(s: BookState, g: GuaranteeCommitment, issuers_registered: Seq<bool>)
    requires
        s.registry_valid(),
        issuers_registered.len() == s.confidential_subjects.len(),
        forall|k: int|
            0 <= k < s.confidential_subjects.len() ==> #[trigger] s.binding_ok(k, issuers_registered[k]),
        s.subject_nullifiers_match(),
        s.allocation_nullifiers_match(),
    ensures
        ({
            let t = s.after_guarantee(g);
            &&& t.registry_valid()
            &&& forall|k: int|
                0 <= k < t.confidential_subjects.len() ==> #[trigger] t.binding_ok(
                    k,
                    issuers_registered[k],
                )
            &&& t.subject_nullifiers_match()
            &&& t.allocation_nullifiers_match()
        }),
{
    let t = s.after_guarantee(g);
    assert forall|k: int|
        0 <= k < t.confidential_subjects.len() implies #[trigger] t.binding_ok(k, issuers_registered[k]) by {
        assert(s.binding_ok(k, issuers_registered[k]));
        let request_id = s.confidential_subjects[k].request_id;
        if exists|i: int|
            0 <= i < s.guarantees.len() && (#[trigger] s.guarantees[i]).request_id == request_id {
            let i = choose|i: int|
                0 <= i < s.guarantees.len() && (#[trigger] s.guarantees[i]).request_id == request_id;
            assert(t.guarantees[i] == s.guarantees[i]);
        } else {
            let i = choose|i: int|
                0 <= i < s.credit_decisions.len() && (#[trigger] s.credit_decisions[i]).request_id
                    == request_id;
            assert(t.credit_decisions[i] == s.credit_decisions[i]);
        }
        assert(t.artifact_for_request(request_id));
    }
    assert forall|j: int| 0 <= j < t.series.len() implies #[trigger] t.series_ok(j) by {
        assert(s.series_ok(j));
    }
    assert forall|j: int| 0 <= j < t.streams.len() implies t.stream_ok(#[trigger] t.streams[j]) by {
        assert(s.stream_ok(s.streams[j]));
    }
}

/// Recording a guarantee keeps a valid book valid.
#[verifier::spinoff_prover]
pub proof fn law_recording_a_guarantee_keeps_the_book_valid(
    s: BookState,
    g: GuaranteeCommitment,
    now: u64,
    issuers_registered: Seq<bool>,
)
    requires
        s.records_valid(issuers_registered),
        g.well_formed(),
        s.guarantee_error(g, g.spec_statement(), now) is None,
    ensures
        s.after_guarantee(g).records_valid(issuers_registered),
{
    let t = s.after_guarantee(g);
    lemma_book_parts(s, issuers_registered);
    lemma_guarantee_keeps_ids(s, g, now);
    lemma_recordable_guarantee_ok(s, g, now);
    lemma_guarantee_keeps_records(s, g);
    lemma_guarantee_keeps_registry(s, g, issuers_registered);
    lemma_book_intro(t, issuers_registered);
}

impl BookState {
    /// The book after recording a default attestation: the attestation
    /// stored, its operation and its provider's attestation identifier
    /// consumed.
    pub open spec fn after_default(self, a: DefaultAttestation) -> BookState {
        BookState {
            default_attestations: self.default_attestations.push(a),
            used_operations: self.used_operations.push(a.operation_id),
            used_provider_nonces: self.used_provider_nonces.push((a.provider_id, a.attestation_id)),
            ..self
        }
    }
}

/// What a default attestation that can be recorded finds in the book.
proof fn lemma_default_accepted(s: BookState, a: DefaultAttestation, now: u64)
    requires
        s.default_error(a, a.spec_statement(), now) is None,
    ensures
        s.provider_index(a.provider_id) >= 0,
        s.providers[s.provider_index(a.provider_id)].spec_has(ProviderCapability::Servicer, now),
        spec_verify_key_signature(
            s.providers[s.provider_index(a.provider_id)].public_key@,
            a.spec_statement(),
            a.signature@,
        ) is Ok,
        s.op_available(a.operation_id),
        s.default_index(a.attestation_id) < 0,
        !s.nonce_used(a.provider_id, a.attestation_id),
{
    reveal(BookState::default_error);
    reveal(BookState::active_provider_error);
    reveal(new_signature_error);
}

/// Recording an accepted default attestation keeps identifiers unique.
#[verifier::spinoff_prover]
proof fn lemma_default_keeps_ids(s: BookState, a: DefaultAttestation, now: u64)
    requires
        s.ids_unique(),
        s.default_error(a, a.spec_statement(), now) is None,
    ensures
        s.after_default(a).ids_unique(),
{
    let t = s.after_default(a);
    let n = s.default_attestations.len() as int;
    lemma_default_accepted(s, a, now);
    crate::seqs::lemma_first_match(s.default_attestations, default_has_id(a.attestation_id));
    let before = s.default_attestations.map_values(default_attestations_key());
    let after = t.default_attestations.map_values(default_attestations_key());
    assert(after =~= before.push(a.attestation_id));
    assert forall|x: int, y: int| 0 <= x < y < after.len() implies #[trigger] after[x] != #[trigger] after[y] by {
        if y == n {
            assert(!(default_has_id(a.attestation_id))(s.default_attestations[x]));
        } else {
            assert(before[x] != before[y]);
        }
    }
    assert forall|x: int, y: int|
        0 <= x < y < t.used_operations.len() implies #[trigger] t.used_operations[x]
        != #[trigger] t.used_operations[y] by {
        if y == s.used_operations.len() {
            assert(s.used_operations[x] != a.operation_id);
        }
    }
    assert forall|x: int, y: int|
        0 <= x < y < t.used_provider_nonces.len() implies #[trigger] t.used_provider_nonces[x]
        != #[trigger] t.used_provider_nonces[y] by {
        if y == s.used_provider_nonces.len() {
            assert(s.used_provider_nonces[x] != (a.provider_id, a.attestation_id));
        }
    }
}

/// A default attestation that can be recorded in a book with a valid
/// registry checks out there.
#[verifier::spinoff_prover]
proof fn lemma_recordable_default_ok(s: BookState, a: DefaultAttestation, now: u64)
    requires
        s.registry_valid(),
        a.well_formed(),
        s.default_error(a, a.spec_statement(), now) is None,
    ensures
        s.default_ok(a),
{
    lemma_default_accepted(s, a, now);
    crate::seqs::lemma_first_match(s.providers, crate::provider::provider_has_id(a.provider_id));
    let pi = s.provider_index(a.provider_id);
    assert(s.providers[pi].validate_result() is Ok);
    assert(s.recorded_ok(pi, a.spec_statement(), a.signature@)) by {
        lemma_new_signature_is_recorded(s.providers[pi], a.spec_statement(), a.signature@);
    }
    reveal(BookState::default_ok);
}

/// Appending a default attestation under a new identifier keeps a claim
/// checking out: it still finds the same attestation.
#[verifier::spinoff_prover]
proof fn lemma_default_frame_claim(s: BookState, a: DefaultAttestation, c: GuaranteeClaim)
    requires
        s.claim_ok(c),
    ensures
        s.after_default(a).claim_ok(c),
{
    let t = s.after_default(a);
    reveal(BookState::claim_ok);
    crate::seqs::lemma_first_match_push(s.default_attestations, a, default_has_id(c.default_attestation_id));
    crate::seqs::lemma_first_match(s.default_attestations, default_has_id(c.default_attestation_id));
    let di = s.default_index(c.default_attestation_id);
    assert(t.default_attestations[di] == s.default_attestations[di]);
}

/// Recording a default attestation that checks out keeps every recorded
/// artifact and outcome checking out.
#[verifier::spinoff_prover]
proof fn lemma_default_keeps_records(s: BookState, a: DefaultAttestation)
    requires
        s.artifacts_valid(),
        s.outcomes_valid(),
        s.default_ok(a),
    ensures
        s.after_default(a).artifacts_valid(),
        s.after_default(a).outcomes_valid(),
{
    let t = s.after_default(a);
    let n = s.default_attestations.len() as int;
    lemma_artifacts_frame(s, t);
    assert forall|j: int| 0 <= j < t.credit_decisions.len() implies t.decision_ok(
        #[trigger] t.credit_decisions[j],
    ) by {
        assert(s.decision_ok(s.credit_decisions[j]));
    }
    assert forall|j: int| 0 <= j < t.guarantees.len() implies t.guarantee_ok(#[trigger] t.guarantees[j]) by {
        assert(s.guarantee_ok(s.guarantees[j]));
    }
    assert forall|j: int| 0 <= j < t.funding_quotes.len() implies t.quote_ok(
        #[trigger] t.funding_quotes[j],
    ) by {
        assert(s.quote_ok(s.funding_quotes[j]));
    }
    assert forall|k: int| 0 <= k < t.issuances.len() implies #[trigger] t.issuance_ok(k) by {
        assert(s.issuance_ok(k));
        reveal(BookState::issuance_ok);
    }
    assert forall|j: int| 0 <= j < t.guarantee_releases.len() implies t.release_ok(
        #[trigger] t.guarantee_releases[j],
    ) by {
        assert(s.release_ok(s.guarantee_releases[j]));
        reveal(BookState::release_ok);
    }
    assert forall|j: int| 0 <= j < t.default_attestations.len() implies t.default_ok(
        #[trigger] t.default_attestations[j],
    ) by {
        reveal(BookState::default_ok);
        if j < n {
            assert(s.default_ok(s.default_attestations[j]));
        }
    }
    assert forall|j: int| 0 <= j < t.guarantee_claims.len() implies t.claim_ok(
        #[trigger] t.guarantee_claims[j],
    ) by {
        lemma_default_frame_claim(s, a, s.guarantee_claims[j]);
    }
}

/// A request backed by a recorded decision or guarantee stays backed while
/// those records are kept, in place, with their requests.
proof fn lemma_request_artifact_kept(s: BookState, t: BookState, request_id: Identifier)
    requires
        s.artifact_for_request(request_id),
        s.credit_decisions.len() <= t.credit_decisions.len(),
        forall|i: int|
            0 <= i < s.credit_decisions.len() ==> (#[trigger] t.credit_decisions[i]).request_id
                == s.credit_decisions[i].request_id,
        s.guarantees.len() <= t.guarantees.len(),
        forall|i: int|
            0 <= i < s.guarantees.len() ==> (#[trigger] t.guarantees[i]).request_id
                == s.guarantees[i].request_id,
    ensures
        t.artifact_for_request(request_id),
{
    if exists|i: int|
        0 <= i < s.guarantees.len() && (#[trigger] s.guarantees[i]).request_id == request_id {
        let i = choose|i: int|
            0 <= i < s.guarantees.len() && (#[trigger] s.guarantees[i]).request_id == request_id;
        assert(t.guarantees[i].request_id == request_id);
    } else {
        let i = choose|i: int|
            0 <= i < s.credit_decisions.len() && (#[trigger] s.credit_decisions[i]).request_id
                == request_id;
        assert(t.credit_decisions[i].request_id == request_id);
    }
}

/// A binding stays valid while the registry and the bindings are unchanged
/// and its request stays backed.
proof fn lemma_binding_kept(s: BookState, t: BookState, k: int, registered: bool)
    requires
        0 <= k < s.confidential_subjects.len(),
        s.binding_ok(k, registered),
        t.providers == s.providers,
        t.confidential_subjects == s.confidential_subjects,
        t.artifact_for_request(s.confidential_subjects[k].request_id),
    ensures
        t.binding_ok(k, registered),
{
}

/// Recording a default attestation leaves the registry, the bindings, and
/// the consumed nullifiers as they were judged.
#[verifier::spinoff_prover]
proof fn lemma_default_keeps_registry(s: BookState, a: DefaultAttestation, issuers_registered: Seq<bool>)
    requires
        s.registry_valid(),
        issuers_registered.len() == s.confidential_subjects.len(),
        forall|k: int|
            0 <= k < s.confidential_subjects.len() ==> #[trigger] s.binding_ok(k, issuers_registered[k]),
        s.subject_nullifiers_match(),
        s.allocation_nullifiers_match(),
    ensures
        ({
            let t = s.after_default(a);
            &&& t.registry_valid()
            &&& forall|k: int|
                0 <= k < t.confidential_subjects.len() ==> #[trigger] t.binding_ok(
                    k,
                    issuers_registered[k],
                )
            &&& t.subject_nullifiers_match()
            &&& t.allocation_nullifiers_match()
        }),
{
    let t = s.after_default(a);
    assert forall|k: int|
        0 <= k < t.confidential_subjects.len() implies #[trigger] t.binding_ok(k, issuers_registered[k]) by {
        assert(s.binding_ok(k, issuers_registered[k]));
        lemma_request_artifact_kept(s, t, s.confidential_subjects[k].request_id);
        lemma_binding_kept(s, t, k, issuers_registered[k]);
    }
    assert forall|j: int| 0 <= j < t.series.len() implies #[trigger] t.series_ok(j) by {
        assert(s.series_ok(j));
    }
    assert forall|j: int| 0 <= j < t.streams.len() implies t.stream_ok(#[trigger] t.streams[j]) by {
        assert(s.stream_ok(s.streams[j]));
    }
}

/// Recording a default attestation keeps a valid book valid.
#[verifier::spinoff_prover]
pub proof fn law_recording_a_default_keeps_the_book_valid(
    s: BookState,
    a: DefaultAttestation,
    now: u64,
    issuers_registered: Seq<bool>,
)
    requires
        s.records_valid(issuers_registered),
        a.well_formed(),
        s.default_error(a, a.spec_statement(), now) is None,
    ensures
        s.after_default(a).records_valid(issuers_registered),
{
    let t = s.after_default(a);
    lemma_book_parts(s, issuers_registered);
    lemma_default_keeps_ids(s, a, now);
    lemma_recordable_default_ok(s, a, now);
    lemma_default_keeps_records(s, a);
    lemma_default_keeps_registry(s, a, issuers_registered);
    lemma_book_intro(t, issuers_registered);
}

impl BookState {
    /// The book after recording a release: the released guarantee marked
    /// released, the release stored, its operation consumed.
    pub open spec fn after_release(self, rel: GuaranteeRelease) -> BookState {
        let gi = self.guarantee_index(rel.guarantee_id);
        BookState {
            guarantees: self.guarantees.update(
                gi,
                guarantee_with_status(self.guarantees[gi], GuaranteeStatus::Released),
            ),
            guarantee_releases: self.guarantee_releases.push(rel),
            used_operations: self.used_operations.push(rel.operation_id),
            ..self
        }
    }
}

/// What a release that can be recorded finds in the book.
proof fn lemma_release_finds(s: BookState, rel: GuaranteeRelease, now: u64)
    requires
        s.release_error(rel, rel.spec_statement(), now) is None,
    ensures
        s.provider_index(rel.provider_id) >= 0,
        s.providers[s.provider_index(rel.provider_id)].spec_has(ProviderCapability::Guarantor, now),
        spec_verify_key_signature(
            s.providers[s.provider_index(rel.provider_id)].public_key@,
            rel.spec_statement(),
            rel.signature@,
        ) is Ok,
        s.op_available(rel.operation_id),
        0 <= s.guarantee_index(rel.guarantee_id) < s.guarantees.len(),
        s.guarantees[s.guarantee_index(rel.guarantee_id)].guarantee_id == rel.guarantee_id,
        s.guarantees[s.guarantee_index(rel.guarantee_id)].provider_id == rel.provider_id,
        s.guarantees[s.guarantee_index(rel.guarantee_id)].status == GuaranteeStatus::Available,
        s.guarantees[s.guarantee_index(rel.guarantee_id)].bound_issuance_id is None,
        s.release_index(rel.guarantee_id) < 0,
{
    reveal(BookState::release_error);
    reveal(BookState::active_provider_error);
    reveal(new_signature_error);
    crate::seqs::lemma_first_match(s.guarantees, guarantee_has_id(rel.guarantee_id));
}

/// Recording an accepted release keeps identifiers unique.
#[verifier::spinoff_prover]
proof fn lemma_release_keeps_ids(s: BookState, rel: GuaranteeRelease, now: u64)
    requires
        s.ids_unique(),
        s.release_error(rel, rel.spec_statement(), now) is None,
    ensures
        s.after_release(rel).ids_unique(),
{
    let t = s.after_release(rel);
    let gi = s.guarantee_index(rel.guarantee_id);
    let n = s.guarantee_releases.len() as int;
    lemma_release_finds(s, rel, now);
    assert(t.guarantees.map_values(guarantees_key()) =~= s.guarantees.map_values(guarantees_key()));
    crate::seqs::lemma_first_match(s.guarantee_releases, release_has_id(rel.guarantee_id));
    let before = s.guarantee_releases.map_values(guarantee_releases_key());
    let after = t.guarantee_releases.map_values(guarantee_releases_key());
    assert(after =~= before.push(rel.guarantee_id));
    assert forall|x: int, y: int| 0 <= x < y < after.len() implies #[trigger] after[x] != #[trigger] after[y] by {
        if y == n {
            assert(!(release_has_id(rel.guarantee_id))(s.guarantee_releases[x]));
        } else {
            assert(before[x] != before[y]);
        }
    }
    assert forall|x: int, y: int|
        0 <= x < y < t.used_operations.len() implies #[trigger] t.used_operations[x]
        != #[trigger] t.used_operations[y] by {
        if y == s.used_operations.len() {
            assert(s.used_operations[x] != rel.operation_id);
        }
    }
}

/// Releasing changes the released guarantee's status and nothing else in
/// the guarantees.
proof fn lemma_release_shape(s: BookState, rel: GuaranteeRelease, now: u64)
    requires
        s.release_error(rel, rel.spec_statement(), now) is None,
    ensures
        ({
            let t = s.after_release(rel);
            let gi = s.guarantee_index(rel.guarantee_id);
            &&& 0 <= gi < s.guarantees.len()
            &&& t.guarantees.len() == s.guarantees.len()
            &&& t.guarantees[gi] == guarantee_with_status(s.guarantees[gi], GuaranteeStatus::Released)
            &&& forall|j: int| 0 <= j < s.guarantees.len() && j != gi ==> #[trigger] t.guarantees[j] == s.guarantees[j]
            &&& forall|j: int|
                0 <= j < s.guarantees.len() ==> (#[trigger] t.guarantees[j]).request_id
                    == s.guarantees[j].request_id
        }),
{
    lemma_release_finds(s, rel, now);
}

/// Releasing keeps each recorded guarantee checking out: the released one
/// now has its release recorded, and no other one gains one.
#[verifier::spinoff_prover]
proof fn lemma_release_frame_guarantee(s: BookState, rel: GuaranteeRelease, now: u64, j: int)
    requires
        s.ids_unique(),
        s.release_error(rel, rel.spec_statement(), now) is None,
        0 <= j < s.guarantees.len(),
        s.guarantee_ok(s.guarantees[j]),
    ensures
        s.after_release(rel).guarantee_ok(s.after_release(rel).guarantees[j]),
{
    let t = s.after_release(rel);
    let gi = s.guarantee_index(rel.guarantee_id);
    let x = s.guarantees[j];
    lemma_release_finds(s, rel, now);
    assert forall|series_id: Identifier, request_id: Identifier, valid_until: u64|
        #[trigger] t.subject_binding_error(series_id, request_id, valid_until) == s.subject_binding_error(
            series_id,
            request_id,
            valid_until,
        ) by {
        reveal(BookState::subject_binding_error);
    }
    crate::seqs::lemma_first_match_push(s.guarantee_releases, rel, release_has_id(x.guarantee_id));
    if j != gi {
        let keys = s.guarantees.map_values(guarantees_key());
        if j < gi {
            assert(keys[j] != keys[gi]);
        } else {
            assert(keys[gi] != keys[j]);
        }
        assert(t.guarantees[j] == x);
        reveal(BookState::guarantee_ok);
    } else {
        assert(initial_guarantee(t.guarantees[j]) == initial_guarantee(x));
        reveal(BookState::guarantee_ok);
    }
}

/// The books agree on everything the records are judged by, except that
/// guarantee `gi`, and only it, may have changed its status (from available,
/// or from bound to claimed), keeping its binding.
pub open spec fn one_guarantee_restated(s: BookState, t: BookState, gi: int) -> bool {
    &&& t.providers == s.providers
    &&& t.streams == s.streams
    &&& t.series == s.series
    &&& t.confidential_subjects == s.confidential_subjects
    &&& t.credit_decisions == s.credit_decisions
    &&& t.funding_quotes == s.funding_quotes
    &&& t.issuances == s.issuances
    &&& t.default_attestations == s.default_attestations
    &&& 0 <= gi < s.guarantees.len()
    &&& t.guarantees.len() == s.guarantees.len()
    &&& forall|j: int| 0 <= j < s.guarantees.len() && j != gi ==> #[trigger] t.guarantees[j] == s.guarantees[j]
    &&& t.guarantees[gi] == guarantee_with_status(s.guarantees[gi], t.guarantees[gi].status)
    &&& (s.guarantees[gi].status == GuaranteeStatus::Available || (s.guarantees[gi].status
        == GuaranteeStatus::Bound && t.guarantees[gi].status == GuaranteeStatus::Claimed))
}

/// Restating one guarantee keeps where each guarantee is found.
proof fn lemma_restated_guarantee_index(s: BookState, t: BookState, gi: int, id: Identifier)
    requires
        one_guarantee_restated(s, t, gi),
    ensures
        t.guarantee_index(id) == s.guarantee_index(id),
{
    assert forall|j: int| 0 <= j < s.guarantees.len() implies (guarantee_has_id(id))(
        #[trigger] s.guarantees[j],
    ) == (guarantee_has_id(id))(t.guarantees[j]) by {
        if j != gi {
            assert(t.guarantees[j] == s.guarantees[j]);
        }
    }
    crate::seqs::lemma_first_match_alike(s.guarantees, t.guarantees, guarantee_has_id(id), guarantee_has_id(id));
}

/// Restating one guarantee leaves how decisions and defaults are judged
/// unchanged.
proof fn lemma_restated_same(s: BookState, t: BookState, gi: int)
    requires
        one_guarantee_restated(s, t, gi),
    ensures
        forall|x: CreditDecision| #[trigger] t.decision_ok(x) == s.decision_ok(x),
        forall|a: DefaultAttestation| #[trigger] t.default_ok(a) == s.default_ok(a),
        forall|series_id: Identifier, request_id: Identifier, valid_until: u64|
            #[trigger] t.subject_binding_error(series_id, request_id, valid_until)
                == s.subject_binding_error(series_id, request_id, valid_until),
{
    reveal(BookState::decision_ok);
    reveal(BookState::default_ok);
    reveal(BookState::subject_binding_error);
}

/// Restating one guarantee keeps a funding quote checking out: a guarantee
/// it names is found where it was, describing the same request.
#[verifier::spinoff_prover]
proof fn lemma_restated_quote(s: BookState, t: BookState, gi: int, q: FundingQuote)
    requires
        one_guarantee_restated(s, t, gi),
        s.quote_ok(q),
    ensures
        t.quote_ok(q),
{
    reveal(BookState::quote_ok);
    if let Some(id) = q.guarantee_id {
        lemma_restated_guarantee_index(s, t, gi, id);
        crate::seqs::lemma_first_match(s.guarantees, guarantee_has_id(id));
        let gj = s.guarantee_index(id);
        if gj != gi {
            assert(t.guarantees[gj] == s.guarantees[gj]);
        }
    }
}

/// Restating one guarantee keeps an issuance checking out: an available
/// guarantee is named by no issuance, and a bound one that is claimed keeps
/// its binding.
#[verifier::spinoff_prover]
proof fn lemma_restated_issuance(s: BookState, t: BookState, gi: int, k: int)
    requires
        one_guarantee_restated(s, t, gi),
        0 <= k < s.issuances.len(),
        s.issuance_ok(k),
    ensures
        t.issuance_ok(k),
{
    reveal(BookState::issuance_ok);
    if let Some(id) = s.issuances[k].guarantee_id {
        lemma_restated_guarantee_index(s, t, gi, id);
        crate::seqs::lemma_first_match(s.guarantees, guarantee_has_id(id));
        let gj = s.guarantee_index(id);
        if gj != gi {
            assert(t.guarantees[gj] == s.guarantees[gj]);
        }
    }
}

/// Restating one guarantee keeps the recorded releases and claims checking
/// out: neither names an available or bound guarantee.
#[verifier::spinoff_prover]
proof fn lemma_restated_tail(s: BookState, t: BookState, gi: int)
    requires
        one_guarantee_restated(s, t, gi),
    ensures
        forall|r: GuaranteeRelease| s.release_ok(r) ==> #[trigger] t.release_ok(r),
        forall|c: GuaranteeClaim| s.claim_ok(c) ==> #[trigger] t.claim_ok(c),
{
    assert forall|r: GuaranteeRelease| s.release_ok(r) implies #[trigger] t.release_ok(r) by {
        reveal(BookState::release_ok);
        lemma_restated_guarantee_index(s, t, gi, r.guarantee_id);
        crate::seqs::lemma_first_match(s.guarantees, guarantee_has_id(r.guarantee_id));
        let gj = s.guarantee_index(r.guarantee_id);
        assert(t.guarantees[gj] == s.guarantees[gj]);
    }
    assert forall|c: GuaranteeClaim| s.claim_ok(c) implies #[trigger] t.claim_ok(c) by {
        reveal(BookState::claim_ok);
        lemma_restated_guarantee_index(s, t, gi, c.guarantee_id);
        crate::seqs::lemma_first_match(s.guarantees, guarantee_has_id(c.guarantee_id));
        let gj = s.guarantee_index(c.guarantee_id);
        assert(t.guarantees[gj] == s.guarantees[gj]);
    }
}

/// A release restates only the released guarantee.
proof fn lemma_release_restates(s: BookState, rel: GuaranteeRelease, now: u64)
    requires
        s.release_error(rel, rel.spec_statement(), now) is None,
    ensures
        one_guarantee_restated(s, s.after_release(rel), s.guarantee_index(rel.guarantee_id)),
        s.after_release(rel).guarantees[s.guarantee_index(rel.guarantee_id)].status
            == GuaranteeStatus::Released,
{
    lemma_release_finds(s, rel, now);
}

/// The new release checks out once recorded.
#[verifier::spinoff_prover]
proof fn lemma_new_release_ok(s: BookState, rel: GuaranteeRelease, now: u64)
    requires
        s.registry_valid(),
        rel.well_formed(),
        s.release_error(rel, rel.spec_statement(), now) is None,
    ensures
        s.after_release(rel).release_ok(rel),
{
    let t = s.after_release(rel);
    let gi = s.guarantee_index(rel.guarantee_id);
    lemma_release_finds(s, rel, now);
    lemma_release_restates(s, rel, now);
    lemma_restated_guarantee_index(s, t, gi, rel.guarantee_id);
    crate::seqs::lemma_first_match(s.providers, crate::provider::provider_has_id(rel.provider_id));
    let pi = s.provider_index(rel.provider_id);
    assert(s.providers[pi].validate_result() is Ok);
    assert(t.recorded_ok(pi, rel.spec_statement(), rel.signature@)) by {
        lemma_new_signature_is_recorded(s.providers[pi], rel.spec_statement(), rel.signature@);
    }
    reveal(BookState::release_ok);
}

/// Recording an accepted release keeps every recorded artifact and outcome
/// checking out.
#[verifier::spinoff_prover]
proof fn lemma_release_keeps_records(s: BookState, rel: GuaranteeRelease, now: u64)
    requires
        s.ids_unique(),
        s.registry_valid(),
        s.artifacts_valid(),
        s.outcomes_valid(),
        rel.well_formed(),
        s.release_error(rel, rel.spec_statement(), now) is None,
    ensures
        s.after_release(rel).artifacts_valid(),
        s.after_release(rel).outcomes_valid(),
{
    let t = s.after_release(rel);
    let gi = s.guarantee_index(rel.guarantee_id);
    let n = s.guarantee_releases.len() as int;
    lemma_release_restates(s, rel, now);
    lemma_restated_same(s, t, gi);
    lemma_restated_tail(s, t, gi);
    lemma_new_release_ok(s, rel, now);
    assert forall|j: int| 0 <= j < t.credit_decisions.len() implies t.decision_ok(
        #[trigger] t.credit_decisions[j],
    ) by {
        assert(s.decision_ok(s.credit_decisions[j]));
    }
    assert forall|j: int| 0 <= j < t.guarantees.len() implies t.guarantee_ok(#[trigger] t.guarantees[j]) by {
        assert(s.guarantee_ok(s.guarantees[j]));
        lemma_release_frame_guarantee(s, rel, now, j);
    }
    assert forall|j: int| 0 <= j < t.funding_quotes.len() implies t.quote_ok(
        #[trigger] t.funding_quotes[j],
    ) by {
        lemma_restated_quote(s, t, gi, s.funding_quotes[j]);
    }
    assert forall|k: int| 0 <= k < t.issuances.len() implies #[trigger] t.issuance_ok(k) by {
        lemma_restated_issuance(s, t, gi, k);
    }
    assert forall|j: int| 0 <= j < t.guarantee_releases.len() implies t.release_ok(
        #[trigger] t.guarantee_releases[j],
    ) by {
        if j < n {
            assert(s.release_ok(s.guarantee_releases[j]));
        }
    }
    assert forall|j: int| 0 <= j < t.default_attestations.len() implies t.default_ok(
        #[trigger] t.default_attestations[j],
    ) by {
        assert(s.default_ok(s.default_attestations[j]));
    }
    assert forall|j: int| 0 <= j < t.guarantee_claims.len() implies t.claim_ok(
        #[trigger] t.guarantee_claims[j],
    ) by {
        assert(s.claim_ok(s.guarantee_claims[j]));
    }
}

/// Recording a release leaves the registry, the bindings, and the consumed
/// nullifiers as they were judged.
#[verifier::spinoff_prover]
proof fn lemma_release_keeps_registry(
    s: BookState,
    rel: GuaranteeRelease,
    now: u64,
    issuers_registered: Seq<bool>,
)
    requires
        s.release_error(rel, rel.spec_statement(), now) is None,
        s.registry_valid(),
        issuers_registered.len() == s.confidential_subjects.len(),
        forall|k: int|
            0 <= k < s.confidential_subjects.len() ==> #[trigger] s.binding_ok(k, issuers_registered[k]),
        s.subject_nullifiers_match(),
        s.allocation_nullifiers_match(),
    ensures
        ({
            let t = s.after_release(rel);
            &&& t.registry_valid()
            &&& forall|k: int|
                0 <= k < t.confidential_subjects.len() ==> #[trigger] t.binding_ok(
                    k,
                    issuers_registered[k],
                )
            &&& t.subject_nullifiers_match()
            &&& t.allocation_nullifiers_match()
        }),
{
    let t = s.after_release(rel);
    lemma_release_shape(s, rel, now);
    assert forall|k: int|
        0 <= k < t.confidential_subjects.len() implies #[trigger] t.binding_ok(k, issuers_registered[k]) by {
        assert(s.binding_ok(k, issuers_registered[k]));
        lemma_request_artifact_kept(s, t, s.confidential_subjects[k].request_id);
        lemma_binding_kept(s, t, k, issuers_registered[k]);
    }
    assert forall|j: int| 0 <= j < t.series.len() implies #[trigger] t.series_ok(j) by {
        assert(s.series_ok(j));
    }
    assert forall|j: int| 0 <= j < t.streams.len() implies t.stream_ok(#[trigger] t.streams[j]) by {
        assert(s.stream_ok(s.streams[j]));
    }
}

/// Releasing a guarantee keeps a valid book valid.
#[verifier::spinoff_prover]
pub proof fn law_releasing_a_guarantee_keeps_the_book_valid(
    s: BookState,
    rel: GuaranteeRelease,
    now: u64,
    issuers_registered: Seq<bool>,
)
    requires
        s.records_valid(issuers_registered),
        rel.well_formed(),
        s.release_error(rel, rel.spec_statement(), now) is None,
    ensures
        s.after_release(rel).records_valid(issuers_registered),
{
    let t = s.after_release(rel);
    lemma_book_parts(s, issuers_registered);
    lemma_release_keeps_ids(s, rel, now);
    lemma_release_keeps_records(s, rel, now);
    lemma_release_keeps_registry(s, rel, now, issuers_registered);
    lemma_book_intro(t, issuers_registered);
}

impl BookState {
    /// The book after recording a claim: the claimed guarantee marked
    /// claimed, the claim stored, its operation consumed.
    pub open spec fn after_claim(self, c: GuaranteeClaim) -> BookState {
        let gi = self.guarantee_index(c.guarantee_id);
        BookState {
            guarantees: self.guarantees.update(
                gi,
                guarantee_with_status(self.guarantees[gi], GuaranteeStatus::Claimed),
            ),
            guarantee_claims: self.guarantee_claims.push(c),
            used_operations: self.used_operations.push(c.operation_id),
            ..self
        }
    }
}

/// What a claim that can be recorded finds in the book.
proof fn lemma_claim_finds(s: BookState, c: GuaranteeClaim, now: u64)
    requires
        s.claim_error(c, now) is None,
    ensures
        s.claim_index(c.claim_id) < 0,
        s.op_available(c.operation_id),
        0 <= s.guarantee_index(c.guarantee_id) < s.guarantees.len(),
        s.guarantees[s.guarantee_index(c.guarantee_id)].status == GuaranteeStatus::Bound,
        s.guarantees[s.guarantee_index(c.guarantee_id)].bound_issuance_id == Some(c.issuance_id),
        s.issuance_index(c.issuance_id) >= 0,
        s.series_index(s.issuances[s.issuance_index(c.issuance_id)].series_id) >= 0,
        s.default_index(c.default_attestation_id) >= 0,
        s.default_attestations[s.default_index(c.default_attestation_id)].stream_id
            == s.series[s.series_index(s.issuances[s.issuance_index(c.issuance_id)].series_id)].stream_id,
{
    reveal(BookState::claim_error);
    crate::seqs::lemma_first_match(s.guarantees, guarantee_has_id(c.guarantee_id));
}

/// Recording an accepted claim keeps identifiers unique.
#[verifier::spinoff_prover]
proof fn lemma_claim_keeps_ids(s: BookState, c: GuaranteeClaim, now: u64)
    requires
        s.ids_unique(),
        s.claim_error(c, now) is None,
    ensures
        s.after_claim(c).ids_unique(),
{
    let t = s.after_claim(c);
    let n = s.guarantee_claims.len() as int;
    lemma_claim_finds(s, c, now);
    assert(t.guarantees.map_values(guarantees_key()) =~= s.guarantees.map_values(guarantees_key()));
    crate::seqs::lemma_first_match(s.guarantee_claims, claim_has_id(c.claim_id));
    let before = s.guarantee_claims.map_values(guarantee_claims_key());
    let after = t.guarantee_claims.map_values(guarantee_claims_key());
    assert(after =~= before.push(c.claim_id));
    assert forall|x: int, y: int| 0 <= x < y < after.len() implies #[trigger] after[x] != #[trigger] after[y] by {
        if y == n {
            assert(!(claim_has_id(c.claim_id))(s.guarantee_claims[x]));
        } else {
            assert(before[x] != before[y]);
        }
    }
    assert forall|x: int, y: int|
        0 <= x < y < t.used_operations.len() implies #[trigger] t.used_operations[x]
        != #[trigger] t.used_operations[y] by {
        if y == s.used_operations.len() {
            assert(s.used_operations[x] != c.operation_id);
        }
    }
}

/// A claim restates only the claimed guarantee.
proof fn lemma_claim_restates(s: BookState, c: GuaranteeClaim, now: u64)
    requires
        s.claim_error(c, now) is None,
    ensures
        one_guarantee_restated(s, s.after_claim(c), s.guarantee_index(c.guarantee_id)),
        s.after_claim(c).guarantees[s.guarantee_index(c.guarantee_id)].status == GuaranteeStatus::Claimed,
{
    lemma_claim_finds(s, c, now);
}

/// Claiming keeps each recorded guarantee checking out: the claimed one
/// stays bound to its issuance and unreleased.
#[verifier::spinoff_prover]
proof fn lemma_claimed_guarantee_ok(s: BookState, t: BookState, gi: int, j: int)
    requires
        one_guarantee_restated(s, t, gi),
        t.guarantee_releases == s.guarantee_releases,
        s.guarantees[gi].status == GuaranteeStatus::Bound,
        t.guarantees[gi].status == GuaranteeStatus::Claimed,
        0 <= j < s.guarantees.len(),
        s.guarantee_ok(s.guarantees[j]),
    ensures
        t.guarantee_ok(t.guarantees[j]),
{
    lemma_restated_same(s, t, gi);
    if j != gi {
        assert(t.guarantees[j] == s.guarantees[j]);
        reveal(BookState::guarantee_ok);
    } else {
        assert(initial_guarantee(t.guarantees[j]) == initial_guarantee(s.guarantees[j]));
        reveal(BookState::guarantee_ok);
    }
}

/// The new claim checks out once recorded.
#[verifier::spinoff_prover]
proof fn lemma_new_claim_ok(s: BookState, c: GuaranteeClaim, now: u64)
    requires
        c.well_formed(),
        s.claim_error(c, now) is None,
    ensures
        s.after_claim(c).claim_ok(c),
{
    let t = s.after_claim(c);
    let gi = s.guarantee_index(c.guarantee_id);
    lemma_claim_finds(s, c, now);
    lemma_claim_restates(s, c, now);
    lemma_restated_guarantee_index(s, t, gi, c.guarantee_id);
    reveal(BookState::claim_ok);
}

/// Recording an accepted claim keeps every recorded artifact and outcome
/// checking out.
#[verifier::spinoff_prover]
proof fn lemma_claim_keeps_records(s: BookState, c: GuaranteeClaim, now: u64)
    requires
        s.artifacts_valid(),
        s.outcomes_valid(),
        c.well_formed(),
        s.claim_error(c, now) is None,
    ensures
        s.after_claim(c).artifacts_valid(),
        s.after_claim(c).outcomes_valid(),
{
    let t = s.after_claim(c);
    let gi = s.guarantee_index(c.guarantee_id);
    let n = s.guarantee_claims.len() as int;
    lemma_claim_restates(s, c, now);
    lemma_restated_same(s, t, gi);
    lemma_restated_tail(s, t, gi);
    lemma_new_claim_ok(s, c, now);
    assert forall|j: int| 0 <= j < t.credit_decisions.len() implies t.decision_ok(
        #[trigger] t.credit_decisions[j],
    ) by {
        assert(s.decision_ok(s.credit_decisions[j]));
    }
    assert forall|j: int| 0 <= j < t.guarantees.len() implies t.guarantee_ok(#[trigger] t.guarantees[j]) by {
        assert(s.guarantee_ok(s.guarantees[j]));
        lemma_claim_finds(s, c, now);
        lemma_claimed_guarantee_ok(s, t, gi, j);
    }
    assert forall|j: int| 0 <= j < t.funding_quotes.len() implies t.quote_ok(
        #[trigger] t.funding_quotes[j],
    ) by {
        lemma_restated_quote(s, t, gi, s.funding_quotes[j]);
    }
    assert forall|k: int| 0 <= k < t.issuances.len() implies #[trigger] t.issuance_ok(k) by {
        lemma_restated_issuance(s, t, gi, k);
    }
    assert forall|j: int| 0 <= j < t.guarantee_releases.len() implies t.release_ok(
        #[trigger] t.guarantee_releases[j],
    ) by {
        assert(s.release_ok(s.guarantee_releases[j]));
    }
    assert forall|j: int| 0 <= j < t.default_attestations.len() implies t.default_ok(
        #[trigger] t.default_attestations[j],
    ) by {
        assert(s.default_ok(s.default_attestations[j]));
    }
    assert forall|j: int| 0 <= j < t.guarantee_claims.len() implies t.claim_ok(
        #[trigger] t.guarantee_claims[j],
    ) by {
        if j < n {
            assert(s.claim_ok(s.guarantee_claims[j]));
        }
    }
}

/// Recording a claim leaves the registry, the bindings, and the consumed
/// nullifiers as they were judged.
#[verifier::spinoff_prover]
proof fn lemma_claim_keeps_registry(s: BookState, c: GuaranteeClaim, now: u64, issuers_registered: Seq<bool>)
    requires
        s.claim_error(c, now) is None,
        s.registry_valid(),
        issuers_registered.len() == s.confidential_subjects.len(),
        forall|k: int|
            0 <= k < s.confidential_subjects.len() ==> #[trigger] s.binding_ok(k, issuers_registered[k]),
        s.subject_nullifiers_match(),
        s.allocation_nullifiers_match(),
    ensures
        ({
            let t = s.after_claim(c);
            &&& t.registry_valid()
            &&& forall|k: int|
                0 <= k < t.confidential_subjects.len() ==> #[trigger] t.binding_ok(
                    k,
                    issuers_registered[k],
                )
            &&& t.subject_nullifiers_match()
            &&& t.allocation_nullifiers_match()
        }),
{
    let t = s.after_claim(c);
    let gi = s.guarantee_index(c.guarantee_id);
    lemma_claim_restates(s, c, now);
    assert forall|j: int| 0 <= j < s.guarantees.len() implies (#[trigger] t.guarantees[j]).request_id
        == s.guarantees[j].request_id by {
        if j != gi {
            assert(t.guarantees[j] == s.guarantees[j]);
        }
    }
    assert forall|k: int|
        0 <= k < t.confidential_subjects.len() implies #[trigger] t.binding_ok(k, issuers_registered[k]) by {
        assert(s.binding_ok(k, issuers_registered[k]));
        lemma_request_artifact_kept(s, t, s.confidential_subjects[k].request_id);
        lemma_binding_kept(s, t, k, issuers_registered[k]);
    }
    assert forall|j: int| 0 <= j < t.series.len() implies #[trigger] t.series_ok(j) by {
        assert(s.series_ok(j));
    }
    assert forall|j: int| 0 <= j < t.streams.len() implies t.stream_ok(#[trigger] t.streams[j]) by {
        assert(s.stream_ok(s.streams[j]));
    }
}

/// Claiming a guarantee keeps a valid book valid.
#[verifier::spinoff_prover]
pub proof fn law_claiming_a_guarantee_keeps_the_book_valid(
    s: BookState,
    c: GuaranteeClaim,
    now: u64,
    issuers_registered: Seq<bool>,
)
    requires
        s.records_valid(issuers_registered),
        c.well_formed(),
        s.claim_error(c, now) is None,
    ensures
        s.after_claim(c).records_valid(issuers_registered),
{
    let t = s.after_claim(c);
    lemma_book_parts(s, issuers_registered);
    lemma_claim_keeps_ids(s, c, now);
    lemma_claim_keeps_records(s, c, now);
    lemma_claim_keeps_registry(s, c, now, issuers_registered);
    lemma_book_intro(t, issuers_registered);
}

/// `b` stands for `a` in the registry: the same capabilities, and every
/// key `a` ever held, in order, perhaps followed by one newer key.
pub open spec fn provider_keeps_records(a: ProviderDefinition, b: ProviderDefinition) -> bool {
    &&& b.capabilities@ == a.capabilities@
    &&& (b.spec_signing_keys() == a.spec_signing_keys() || b.spec_signing_keys()
        == a.spec_signing_keys().push(b.public_key))
}

/// A signature a provider's keys accept stays accepted by a provider that
/// keeps its records.
proof fn lemma_kept_keys_accept(a: ProviderDefinition, b: ProviderDefinition, statement: Seq<u8>, signature: Seq<u8>)
    requires
        provider_keeps_records(a, b),
        a.recorded_signature_result(statement, signature) is Ok,
    ensures
        b.recorded_signature_result(statement, signature) is Ok,
{
    let decides = key_decides(statement, signature);
    crate::seqs::lemma_first_match(a.spec_signing_keys(), decides);
    if b.spec_signing_keys() != a.spec_signing_keys() {
        crate::seqs::lemma_first_match_push(a.spec_signing_keys(), b.public_key, decides);
    }
}

/// The books agree on everything but the providers, and each registered
/// provider is found where it was, keeping its records.
pub open spec fn providers_restated(s: BookState, t: BookState) -> bool {
    &&& t.streams == s.streams
    &&& t.series == s.series
    &&& t.confidential_subjects == s.confidential_subjects
    &&& t.credit_decisions == s.credit_decisions
    &&& t.guarantees == s.guarantees
    &&& t.funding_quotes == s.funding_quotes
    &&& t.issuances == s.issuances
    &&& t.default_attestations == s.default_attestations
    &&& t.guarantee_claims == s.guarantee_claims
    &&& t.guarantee_releases == s.guarantee_releases
    &&& t.used_provider_nonces == s.used_provider_nonces
    &&& t.used_allocation_nullifiers == s.used_allocation_nullifiers
    &&& t.used_subject_nullifiers == s.used_subject_nullifiers
    &&& forall|id: Identifier|
        #![trigger s.provider_index(id)]
        s.provider_index(id) >= 0 ==> t.provider_index(id) == s.provider_index(id) && provider_keeps_records(
            s.providers[s.provider_index(id)],
            t.providers[s.provider_index(id)],
        )
}

/// With the providers restated, a registered provider still holds what it
/// held, and a signature recorded as its own is still accepted.
proof fn lemma_restated_provider(s: BookState, t: BookState, id: Identifier)
    requires
        providers_restated(s, t),
        s.provider_index(id) >= 0,
    ensures
        t.provider_index(id) == s.provider_index(id),
        t.providers[t.provider_index(id)].capabilities@ == s.providers[s.provider_index(id)].capabilities@,
        forall|statement: Seq<u8>, signature: Seq<u8>|
            s.recorded_ok(s.provider_index(id), statement, signature) ==> #[trigger] t.recorded_ok(
                t.provider_index(id),
                statement,
                signature,
            ),
{
    let pi = s.provider_index(id);
    assert forall|statement: Seq<u8>, signature: Seq<u8>|
        s.recorded_ok(pi, statement, signature) implies #[trigger] t.recorded_ok(pi, statement, signature) by {
        lemma_kept_keys_accept(s.providers[pi], t.providers[pi], statement, signature);
    }
}

/// With the providers restated, the subject checks are unchanged.
proof fn lemma_restated_subjects(s: BookState, t: BookState)
    requires
        providers_restated(s, t),
    ensures
        forall|series_id: Identifier, request_id: Identifier, valid_until: u64|
            #[trigger] t.subject_binding_error(series_id, request_id, valid_until)
                == s.subject_binding_error(series_id, request_id, valid_until),
{
    reveal(BookState::subject_binding_error);
}

/// With the providers restated, a decision keeps checking out.
#[verifier::spinoff_prover]
proof fn lemma_restated_decision(s: BookState, t: BookState, x: CreditDecision)
    requires
        providers_restated(s, t),
        s.decision_ok(x),
    ensures
        t.decision_ok(x),
{
    reveal(BookState::decision_ok);
    lemma_restated_subjects(s, t);
    lemma_restated_provider(s, t, x.provider_id);
}

/// With the providers restated, a guarantee keeps checking out.
#[verifier::spinoff_prover]
proof fn lemma_restated_provider_guarantee(s: BookState, t: BookState, g: GuaranteeCommitment)
    requires
        providers_restated(s, t),
        s.guarantee_ok(g),
    ensures
        t.guarantee_ok(g),
{
    reveal(BookState::guarantee_ok);
    lemma_restated_subjects(s, t);
    lemma_restated_provider(s, t, g.provider_id);
}

/// With the providers restated, a funding quote keeps checking out.
#[verifier::spinoff_prover]
proof fn lemma_restated_provider_quote(s: BookState, t: BookState, q: FundingQuote)
    requires
        providers_restated(s, t),
        s.quote_ok(q),
    ensures
        t.quote_ok(q),
{
    reveal(BookState::quote_ok);
    lemma_restated_provider(s, t, q.provider_id);
}

/// With the providers restated, releases and defaults keep checking out,
/// and issuances and claims are judged as before.
#[verifier::spinoff_prover]
proof fn lemma_restated_provider_tail(s: BookState, t: BookState)
    requires
        providers_restated(s, t),
    ensures
        forall|r: GuaranteeRelease| s.release_ok(r) ==> #[trigger] t.release_ok(r),
        forall|a: DefaultAttestation| s.default_ok(a) ==> #[trigger] t.default_ok(a),
        forall|k: int| #[trigger] t.issuance_ok(k) == s.issuance_ok(k),
        forall|c: GuaranteeClaim| #[trigger] t.claim_ok(c) == s.claim_ok(c),
{
    assert forall|r: GuaranteeRelease| s.release_ok(r) implies #[trigger] t.release_ok(r) by {
        reveal(BookState::release_ok);
        lemma_restated_provider(s, t, r.provider_id);
    }
    assert forall|a: DefaultAttestation| s.default_ok(a) implies #[trigger] t.default_ok(a) by {
        reveal(BookState::default_ok);
        lemma_restated_provider(s, t, a.provider_id);
    }
    reveal(BookState::issuance_ok);
    reveal(BookState::claim_ok);
}

/// With the providers restated, every recorded artifact and outcome keeps
/// checking out.
#[verifier::spinoff_prover]
proof fn lemma_restated_provider_records(s: BookState, t: BookState)
    requires
        providers_restated(s, t),
        s.artifacts_valid(),
        s.outcomes_valid(),
    ensures
        t.artifacts_valid(),
        t.outcomes_valid(),
{
    lemma_restated_provider_tail(s, t);
    assert forall|j: int| 0 <= j < t.credit_decisions.len() implies t.decision_ok(
        #[trigger] t.credit_decisions[j],
    ) by {
        lemma_restated_decision(s, t, s.credit_decisions[j]);
    }
    assert forall|j: int| 0 <= j < t.guarantees.len() implies t.guarantee_ok(#[trigger] t.guarantees[j]) by {
        lemma_restated_provider_guarantee(s, t, s.guarantees[j]);
    }
    assert forall|j: int| 0 <= j < t.funding_quotes.len() implies t.quote_ok(
        #[trigger] t.funding_quotes[j],
    ) by {
        lemma_restated_provider_quote(s, t, s.funding_quotes[j]);
    }
    assert forall|k: int| 0 <= k < t.issuances.len() implies #[trigger] t.issuance_ok(k) by {
        assert(s.issuance_ok(k));
    }
    assert forall|j: int| 0 <= j < t.guarantee_releases.len() implies t.release_ok(
        #[trigger] t.guarantee_releases[j],
    ) by {
        assert(s.release_ok(s.guarantee_releases[j]));
    }
    assert forall|j: int| 0 <= j < t.default_attestations.len() implies t.default_ok(
        #[trigger] t.default_attestations[j],
    ) by {
        assert(s.default_ok(s.default_attestations[j]));
    }
    assert forall|j: int| 0 <= j < t.guarantee_claims.len() implies t.claim_ok(
        #[trigger] t.guarantee_claims[j],
    ) by {
        assert(s.claim_ok(s.guarantee_claims[j]));
    }
}

/// With the providers restated and each of them valid, the registry, the
/// bindings, and the consumed nullifiers are judged as before.
#[verifier::spinoff_prover]
proof fn lemma_restated_provider_registry(s: BookState, t: BookState, issuers_registered: Seq<bool>)
    requires
        providers_restated(s, t),
        forall|j: int| 0 <= j < t.providers.len() ==> (#[trigger] t.providers[j]).validate_result() is Ok,
        s.registry_valid(),
        issuers_registered.len() == s.confidential_subjects.len(),
        forall|k: int|
            0 <= k < s.confidential_subjects.len() ==> #[trigger] s.binding_ok(k, issuers_registered[k]),
        s.subject_nullifiers_match(),
        s.allocation_nullifiers_match(),
    ensures
        t.registry_valid(),
        forall|k: int|
            0 <= k < t.confidential_subjects.len() ==> #[trigger] t.binding_ok(k, issuers_registered[k]),
        t.subject_nullifiers_match(),
        t.allocation_nullifiers_match(),
{
    assert forall|k: int|
        0 <= k < t.confidential_subjects.len() implies #[trigger] t.binding_ok(k, issuers_registered[k]) by {
        assert(s.binding_ok(k, issuers_registered[k]));
        lemma_restated_provider(s, t, s.confidential_subjects[k].issuer_provider_id);
    }
    assert forall|j: int| 0 <= j < t.series.len() implies #[trigger] t.series_ok(j) by {
        assert(s.series_ok(j));
    }
    assert forall|j: int| 0 <= j < t.streams.len() implies t.stream_ok(#[trigger] t.streams[j]) by {
        assert(s.stream_ok(s.streams[j]));
        lemma_restated_provider(s, t, s.streams[j].attestor_provider_id);
    }
}

/// With the providers restated, each valid and under distinct identifiers,
/// and a fresh operation consumed, a valid book stays valid.
#[verifier::spinoff_prover]
proof fn lemma_restated_provider_valid(s: BookState, t: BookState, issuers_registered: Seq<bool>)
    requires
        s.records_valid(issuers_registered),
        providers_restated(s, t),
        forall|j: int| 0 <= j < t.providers.len() ==> (#[trigger] t.providers[j]).validate_result() is Ok,
        ids_distinct(t.providers.map_values(providers_key())),
        ids_distinct(t.used_operations),
    ensures
        t.records_valid(issuers_registered),
{
    lemma_book_parts(s, issuers_registered);
    lemma_restated_provider_records(s, t);
    lemma_restated_provider_registry(s, t, issuers_registered);
    lemma_book_intro(t, issuers_registered);
}

impl BookState {
    /// The book after registering a provider: the provider stored, the
    /// operation consumed.
    pub open spec fn after_provider(self, req: RegisterProvider) -> BookState {
        BookState {
            providers: self.providers.push(req.provider),
            used_operations: self.used_operations.push(req.operation_id),
            ..self
        }
    }
}

/// Registering a provider keeps a valid book valid.
#[verifier::spinoff_prover]
pub proof fn law_registering_a_provider_keeps_the_book_valid(
    s: BookState,
    req: RegisterProvider,
    now: u64,
    issuers_registered: Seq<bool>,
)
    requires
        s.records_valid(issuers_registered),
        req.statement_result() is Ok,
        s.register_provider_error(req, now) is None,
    ensures
        s.after_provider(req).records_valid(issuers_registered),
{
    let t = s.after_provider(req);
    let n = s.providers.len() as int;
    lemma_book_parts(s, issuers_registered);
    assert forall|id: Identifier| #![trigger s.provider_index(id)] s.provider_index(id) >= 0 implies t.provider_index(id)
        == s.provider_index(id) && provider_keeps_records(
        s.providers[s.provider_index(id)],
        t.providers[s.provider_index(id)],
    ) by {
        crate::seqs::lemma_first_match_push(s.providers, req.provider, crate::provider::provider_has_id(id));
        crate::seqs::lemma_first_match(s.providers, crate::provider::provider_has_id(id));
    }
    assert forall|j: int| 0 <= j < t.providers.len() implies (#[trigger] t.providers[j]).validate_result() is Ok by {
        if j < n {
            assert(s.providers[j].validate_result() is Ok);
        }
    }
    crate::seqs::lemma_first_match(s.providers, crate::provider::provider_has_id(req.provider.provider_id));
    let before = s.providers.map_values(providers_key());
    let after = t.providers.map_values(providers_key());
    assert(after =~= before.push(req.provider.provider_id));
    assert forall|x: int, y: int| 0 <= x < y < after.len() implies #[trigger] after[x] != #[trigger] after[y] by {
        if y == n {
            assert(!(crate::provider::provider_has_id(req.provider.provider_id))(s.providers[x]));
        } else {
            assert(before[x] != before[y]);
        }
    }
    assert forall|x: int, y: int|
        0 <= x < y < t.used_operations.len() implies #[trigger] t.used_operations[x]
        != #[trigger] t.used_operations[y] by {
        if y == s.used_operations.len() {
            assert(s.used_operations[x] != req.operation_id);
        }
    }
    lemma_restated_provider_valid(s, t, issuers_registered);
}

/// Replacing one provider by one under the same identifier that keeps its
/// records restates the providers.
proof fn lemma_provider_replaced(s: BookState, t: BookState, pi: int)
    requires
        0 <= pi < s.providers.len(),
        t.providers == s.providers.update(pi, t.providers[pi]),
        t.providers[pi].provider_id == s.providers[pi].provider_id,
        provider_keeps_records(s.providers[pi], t.providers[pi]),
        t == (BookState { providers: t.providers, used_operations: t.used_operations, ..s }),
    ensures
        providers_restated(s, t),
        t.providers.map_values(providers_key()) == s.providers.map_values(providers_key()),
{
    assert forall|id: Identifier| #![trigger s.provider_index(id)] s.provider_index(id) >= 0 implies t.provider_index(id)
        == s.provider_index(id) && provider_keeps_records(
        s.providers[s.provider_index(id)],
        t.providers[s.provider_index(id)],
    ) by {
        crate::seqs::lemma_first_match_update(
            s.providers,
            pi,
            t.providers[pi],
            crate::provider::provider_has_id(id),
        );
        crate::seqs::lemma_first_match(s.providers, crate::provider::provider_has_id(id));
        let j = s.provider_index(id);
        if j != pi {
            assert(t.providers[j] == s.providers[j]);
        }
    }
    assert(t.providers.map_values(providers_key()) =~= s.providers.map_values(providers_key()));
}

impl BookState {
    /// The book after a status change: the provider's status set and its
    /// sequence advanced, with the operation consumed; at the end of the
    /// sequence, the status set alone.
    pub open spec fn after_status(self, req: SetProviderStatus) -> BookState {
        let pi = self.provider_index(req.provider_id);
        let p = self.providers[pi];
        if p.sequence == u64::MAX {
            BookState { providers: self.providers.update(pi, provider_with(p, req.status, p.sequence)), ..self }
        } else {
            BookState {
                providers: self.providers.update(pi, provider_with(p, req.status, (p.sequence + 1) as u64)),
                used_operations: self.used_operations.push(req.operation_id),
                ..self
            }
        }
    }
}

/// Changing a provider's status keeps a valid book valid, the operation
/// consumed or not.
#[verifier::spinoff_prover]
pub proof fn law_changing_a_status_keeps_the_book_valid(
    s: BookState,
    req: SetProviderStatus,
    now: u64,
    issuers_registered: Seq<bool>,
)
    requires
        s.records_valid(issuers_registered),
        s.provider_status_error(req, now) is None,
    ensures
        s.after_status(req).records_valid(issuers_registered),
{
    let t = s.after_status(req);
    let pi = s.provider_index(req.provider_id);
    lemma_book_parts(s, issuers_registered);
    reveal(BookState::provider_status_error);
    crate::seqs::lemma_first_match(s.providers, crate::provider::provider_has_id(req.provider_id));
    let p = s.providers[pi];
    assert(p.validate_result() is Ok);
    assert(t.providers[pi].spec_signing_keys() =~= p.spec_signing_keys());
    lemma_provider_replaced(s, t, pi);
    assert forall|j: int| 0 <= j < t.providers.len() implies (#[trigger] t.providers[j]).validate_result() is Ok by {
        assert(s.providers[j].validate_result() is Ok);
        if j == pi {
            assert(t.providers[j].retired_positions() =~= p.retired_positions());
            assert forall|k: int| 0 <= k < p.retired_keys@.len() implies #[trigger] t.providers[j].retired_failure(k)
                == p.retired_failure(k) by {}
            assert(t.providers[j].retired_fails() =~= p.retired_fails());
        }
    }
    assert forall|x: int, y: int|
        0 <= x < y < t.used_operations.len() implies #[trigger] t.used_operations[x]
        != #[trigger] t.used_operations[y] by {
        if y == s.used_operations.len() {
            assert(s.used_operations[x] != req.operation_id);
        }
    }
    lemma_restated_provider_valid(s, t, issuers_registered);
}

impl BookState {
    /// The book after a key rotation that makes `rotated_provider` of the
    /// rotating provider: it replaces the provider, and the operation is
    /// consumed.
    pub open spec fn after_rotation(self, req: RotateProviderKey, rotated_provider: ProviderDefinition) -> BookState {
        BookState {
            providers: self.providers.update(self.provider_index(req.provider_id), rotated_provider),
            used_operations: self.used_operations.push(req.operation_id),
            ..self
        }
    }
}

/// Rotating a provider's key keeps a valid book valid: what the retired key
/// signed stays accepted.
#[verifier::spinoff_prover]
pub proof fn law_rotating_a_key_keeps_the_book_valid(
    s: BookState,
    req: RotateProviderKey,
    now: u64,
    rotated_provider: ProviderDefinition,
    issuers_registered: Seq<bool>,
)
    requires
        s.records_valid(issuers_registered),
        possession_result(req) is Ok,
        s.rotate_error(req, now) is None,
        rotated(
            s.providers[s.provider_index(req.provider_id)],
            rotated_provider,
            req.next_public_key,
            now,
        ),
    ensures
        s.after_rotation(req, rotated_provider).records_valid(issuers_registered),
{
    let t = s.after_rotation(req, rotated_provider);
    let pi = s.provider_index(req.provider_id);
    let p = s.providers[pi];
    let q = rotated_provider;
    lemma_book_parts(s, issuers_registered);
    crate::seqs::lemma_first_match(s.providers, crate::provider::provider_has_id(req.provider_id));
    lemma_rotated_validity(p, q, req.next_public_key, now);
    let rk = |k: RetiredProviderKey| k.public_key;
    assert(q.retired_keys@.map_values(rk) =~= p.retired_keys@.map_values(rk).push(p.public_key));
    assert(q.spec_signing_keys() =~= p.spec_signing_keys().push(q.public_key));
    lemma_provider_replaced(s, t, pi);
    assert forall|j: int| 0 <= j < t.providers.len() implies (#[trigger] t.providers[j]).validate_result() is Ok by {
        assert(s.providers[j].validate_result() is Ok);
    }
    assert forall|x: int, y: int|
        0 <= x < y < t.used_operations.len() implies #[trigger] t.used_operations[x]
        != #[trigger] t.used_operations[y] by {
        if y == s.used_operations.len() {
            assert(s.used_operations[x] != req.operation_id);
        }
    }
    lemma_restated_provider_valid(s, t, issuers_registered);
}

/// The books agree on everything but the streams; each registered stream
/// is found where it was.
pub open spec fn streams_restated(s: BookState, t: BookState) -> bool {
    &&& t.providers == s.providers
    &&& t.series == s.series
    &&& t.confidential_subjects == s.confidential_subjects
    &&& t.credit_decisions == s.credit_decisions
    &&& t.guarantees == s.guarantees
    &&& t.funding_quotes == s.funding_quotes
    &&& t.issuances == s.issuances
    &&& t.default_attestations == s.default_attestations
    &&& t.guarantee_claims == s.guarantee_claims
    &&& t.guarantee_releases == s.guarantee_releases
    &&& t.used_provider_nonces == s.used_provider_nonces
    &&& t.used_allocation_nullifiers == s.used_allocation_nullifiers
    &&& t.used_subject_nullifiers == s.used_subject_nullifiers
    &&& forall|id: Identifier|
        #![trigger s.stream_index(id)]
        s.stream_index(id) >= 0 ==> t.stream_index(id) == s.stream_index(id)
}

/// No recorded artifact or outcome is judged by the streams.
#[verifier::spinoff_prover]
proof fn lemma_streams_frame(s: BookState, t: BookState)
    requires
        streams_restated(s, t),
    ensures
        forall|x: CreditDecision| #[trigger] t.decision_ok(x) == s.decision_ok(x),
        forall|g: GuaranteeCommitment| #[trigger] t.guarantee_ok(g) == s.guarantee_ok(g),
        forall|q: FundingQuote| #[trigger] t.quote_ok(q) == s.quote_ok(q),
        forall|k: int| #[trigger] t.issuance_ok(k) == s.issuance_ok(k),
        forall|r: GuaranteeRelease| #[trigger] t.release_ok(r) == s.release_ok(r),
        forall|a: DefaultAttestation| #[trigger] t.default_ok(a) == s.default_ok(a),
        forall|c: GuaranteeClaim| #[trigger] t.claim_ok(c) == s.claim_ok(c),
{
    lemma_artifacts_frame(s, t);
    lemma_tail_frame(s, t);
    reveal(BookState::issuance_ok);
}

/// With the streams restated, each of them valid and attested, under
/// distinct identifiers, and a fresh operation consumed, a valid book
/// stays valid.
#[verifier::spinoff_prover]
proof fn lemma_restated_streams_valid(s: BookState, t: BookState, issuers_registered: Seq<bool>)
    requires
        s.records_valid(issuers_registered),
        streams_restated(s, t),
        forall|j: int| 0 <= j < t.streams.len() ==> t.stream_ok(#[trigger] t.streams[j]),
        ids_distinct(t.streams.map_values(streams_key())),
        ids_distinct(t.used_operations),
    ensures
        t.records_valid(issuers_registered),
{
    lemma_book_parts(s, issuers_registered);
    lemma_streams_frame(s, t);
    assert forall|j: int| 0 <= j < t.series.len() implies #[trigger] t.series_ok(j) by {
        assert(s.series_ok(j));
    }
    assert forall|k: int|
        0 <= k < t.confidential_subjects.len() implies #[trigger] t.binding_ok(k, issuers_registered[k]) by {
        assert(s.binding_ok(k, issuers_registered[k]));
    }
    assert forall|j: int| 0 <= j < t.credit_decisions.len() implies t.decision_ok(
        #[trigger] t.credit_decisions[j],
    ) by {
        assert(s.decision_ok(s.credit_decisions[j]));
    }
    assert forall|j: int| 0 <= j < t.guarantees.len() implies t.guarantee_ok(#[trigger] t.guarantees[j]) by {
        assert(s.guarantee_ok(s.guarantees[j]));
    }
    assert forall|j: int| 0 <= j < t.funding_quotes.len() implies t.quote_ok(
        #[trigger] t.funding_quotes[j],
    ) by {
        assert(s.quote_ok(s.funding_quotes[j]));
    }
    assert forall|k: int| 0 <= k < t.issuances.len() implies #[trigger] t.issuance_ok(k) by {
        assert(s.issuance_ok(k));
    }
    assert forall|j: int| 0 <= j < t.guarantee_releases.len() implies t.release_ok(
        #[trigger] t.guarantee_releases[j],
    ) by {
        assert(s.release_ok(s.guarantee_releases[j]));
    }
    assert forall|j: int| 0 <= j < t.default_attestations.len() implies t.default_ok(
        #[trigger] t.default_attestations[j],
    ) by {
        assert(s.default_ok(s.default_attestations[j]));
    }
    assert forall|j: int| 0 <= j < t.guarantee_claims.len() implies t.claim_ok(
        #[trigger] t.guarantee_claims[j],
    ) by {
        assert(s.claim_ok(s.guarantee_claims[j]));
    }
    lemma_book_intro(t, issuers_registered);
}

impl BookState {
    /// The book after registering a stream: the stream stored under its
    /// attestor, the operation consumed.
    pub open spec fn after_stream(self, req: RegisterStream) -> BookState {
        BookState {
            streams: self.streams.push(
                RegisteredStream { attestor_provider_id: req.attestor_provider_id, state: req.state },
            ),
            used_operations: self.used_operations.push(req.operation_id),
            ..self
        }
    }
}

/// Registering a stream keeps a valid book valid.
#[verifier::spinoff_prover]
pub proof fn law_registering_a_stream_keeps_the_book_valid(
    s: BookState,
    req: RegisterStream,
    now: u64,
    issuers_registered: Seq<bool>,
)
    requires
        s.records_valid(issuers_registered),
        req.well_formed(),
        s.register_stream_error(req, req.spec_statement(), now) is None,
    ensures
        s.after_stream(req).records_valid(issuers_registered),
{
    let t = s.after_stream(req);
    let n = s.streams.len() as int;
    let fresh = RegisteredStream { attestor_provider_id: req.attestor_provider_id, state: req.state };
    lemma_book_parts(s, issuers_registered);
    reveal(BookState::register_stream_error);
    reveal(BookState::active_provider_error);
    assert forall|id: Identifier| #![trigger s.stream_index(id)] s.stream_index(id) >= 0 implies t.stream_index(id)
        == s.stream_index(id) by {
        crate::seqs::lemma_first_match_push(s.streams, fresh, stream_has_id(id));
    }
    assert forall|j: int| 0 <= j < t.streams.len() implies t.stream_ok(#[trigger] t.streams[j]) by {
        if j < n {
            assert(s.stream_ok(s.streams[j]));
        }
    }
    crate::seqs::lemma_first_match(s.streams, stream_has_id(req.state.stream_id));
    let before = s.streams.map_values(streams_key());
    let after = t.streams.map_values(streams_key());
    assert(after =~= before.push(req.state.stream_id));
    assert forall|x: int, y: int| 0 <= x < y < after.len() implies #[trigger] after[x] != #[trigger] after[y] by {
        if y == n {
            assert(!(stream_has_id(req.state.stream_id))(s.streams[x]));
        } else {
            assert(before[x] != before[y]);
        }
    }
    assert forall|x: int, y: int|
        0 <= x < y < t.used_operations.len() implies #[trigger] t.used_operations[x]
        != #[trigger] t.used_operations[y] by {
        if y == s.used_operations.len() {
            assert(s.used_operations[x] != req.operation_id);
        }
    }
    lemma_restated_streams_valid(s, t, issuers_registered);
}

impl BookState {
    /// The book after a stream transition: the stream moved to its new
    /// state, the operation consumed.
    pub open spec fn after_transition(self, req: StreamTransition) -> BookState {
        let ti = self.stream_index(req.after_state.stream_id);
        BookState {
            streams: self.streams.update(ti, RegisteredStream { state: req.after_state, ..self.streams[ti] }),
            used_operations: self.used_operations.push(req.operation_id),
            ..self
        }
    }
}

/// Moving a stream to its next state keeps a valid book valid.
#[verifier::spinoff_prover]
pub proof fn law_moving_a_stream_keeps_the_book_valid(
    s: BookState,
    req: StreamTransition,
    now: u64,
    issuers_registered: Seq<bool>,
)
    requires
        s.records_valid(issuers_registered),
        req.well_formed(),
        s.transition_error(req, req.spec_statement(), now) is None,
    ensures
        s.after_transition(req).records_valid(issuers_registered),
{
    let t = s.after_transition(req);
    let ti = s.stream_index(req.after_state.stream_id);
    lemma_book_parts(s, issuers_registered);
    reveal(BookState::transition_error);
    crate::seqs::lemma_first_match(s.streams, stream_has_id(req.after_state.stream_id));
    let moved = RegisteredStream { state: req.after_state, ..s.streams[ti] };
    assert forall|id: Identifier| #![trigger s.stream_index(id)] s.stream_index(id) >= 0 implies t.stream_index(id)
        == s.stream_index(id) by {
        crate::seqs::lemma_first_match_update(s.streams, ti, moved, stream_has_id(id));
    }
    assert forall|j: int| 0 <= j < t.streams.len() implies t.stream_ok(#[trigger] t.streams[j]) by {
        assert(s.stream_ok(s.streams[j]));
    }
    assert(t.streams.map_values(streams_key()) =~= s.streams.map_values(streams_key()));
    assert forall|x: int, y: int|
        0 <= x < y < t.used_operations.len() implies #[trigger] t.used_operations[x]
        != #[trigger] t.used_operations[y] by {
        if y == s.used_operations.len() {
            assert(s.used_operations[x] != req.operation_id);
        }
    }
    lemma_restated_streams_valid(s, t, issuers_registered);
}

/// The books agree on everything but the series; each registered series is
/// found where it was, unchanged.
pub open spec fn series_extended(s: BookState, t: BookState) -> bool {
    &&& t.providers == s.providers
    &&& t.streams == s.streams
    &&& t.confidential_subjects == s.confidential_subjects
    &&& t.credit_decisions == s.credit_decisions
    &&& t.guarantees == s.guarantees
    &&& t.funding_quotes == s.funding_quotes
    &&& t.issuances == s.issuances
    &&& t.default_attestations == s.default_attestations
    &&& t.guarantee_claims == s.guarantee_claims
    &&& t.guarantee_releases == s.guarantee_releases
    &&& t.used_provider_nonces == s.used_provider_nonces
    &&& t.used_allocation_nullifiers == s.used_allocation_nullifiers
    &&& t.used_subject_nullifiers == s.used_subject_nullifiers
    &&& forall|id: Identifier|
        #![trigger s.series_index(id)]
        s.series_index(id) >= 0 ==> t.series_index(id) == s.series_index(id) && t.series[s.series_index(
            id,
        )] == s.series[s.series_index(id)]
}

/// With the series extended, the subject check of a registered series is
/// unchanged.
proof fn lemma_extended_subjects(s: BookState, t: BookState)
    requires
        series_extended(s, t),
    ensures
        forall|series_id: Identifier, request_id: Identifier, valid_until: u64|
            s.series_index(series_id) >= 0 ==> #[trigger] t.subject_binding_error(
                series_id,
                request_id,
                valid_until,
            ) == s.subject_binding_error(series_id, request_id, valid_until),
{
    reveal(BookState::subject_binding_error);
}

/// With the series extended, decisions, guarantees, and quotes on a
/// registered series keep checking out.
#[verifier::spinoff_prover]
proof fn lemma_extended_artifacts(s: BookState, t: BookState)
    requires
        series_extended(s, t),
    ensures
        forall|x: CreditDecision| s.decision_ok(x) ==> #[trigger] t.decision_ok(x),
        forall|g: GuaranteeCommitment| s.guarantee_ok(g) ==> #[trigger] t.guarantee_ok(g),
        forall|q: FundingQuote| s.quote_ok(q) ==> #[trigger] t.quote_ok(q),
{
    lemma_extended_subjects(s, t);
    assert forall|x: CreditDecision| s.decision_ok(x) implies #[trigger] t.decision_ok(x) by {
        reveal(BookState::decision_ok);
    }
    assert forall|g: GuaranteeCommitment| s.guarantee_ok(g) implies #[trigger] t.guarantee_ok(g) by {
        reveal(BookState::guarantee_ok);
    }
    assert forall|q: FundingQuote| s.quote_ok(q) implies #[trigger] t.quote_ok(q) by {
        reveal(BookState::quote_ok);
    }
}

/// With the series extended, issuances, releases, defaults, and claims keep
/// checking out.
#[verifier::spinoff_prover]
proof fn lemma_extended_outcomes(s: BookState, t: BookState)
    requires
        series_extended(s, t),
    ensures
        forall|k: int| s.issuance_ok(k) ==> #[trigger] t.issuance_ok(k),
        forall|r: GuaranteeRelease| s.release_ok(r) ==> #[trigger] t.release_ok(r),
        forall|a: DefaultAttestation| s.default_ok(a) ==> #[trigger] t.default_ok(a),
        forall|c: GuaranteeClaim| s.claim_ok(c) ==> #[trigger] t.claim_ok(c),
{
    assert forall|k: int| s.issuance_ok(k) implies #[trigger] t.issuance_ok(k) by {
        reveal(BookState::issuance_ok);
    }
    assert forall|c: GuaranteeClaim| s.claim_ok(c) implies #[trigger] t.claim_ok(c) by {
        reveal(BookState::claim_ok);
    }
    lemma_tail_frame(s, s);
    reveal(BookState::release_ok);
    reveal(BookState::default_ok);
}

impl BookState {
    /// The book after registering a series: the series stored, the
    /// operation consumed.
    pub open spec fn after_series(self, req: RegisterSeries) -> BookState {
        BookState {
            series: self.series.push(req.series),
            used_operations: self.used_operations.push(req.operation_id),
            ..self
        }
    }
}

/// Registering a series keeps the recorded artifacts and outcomes checking
/// out.
#[verifier::spinoff_prover]
proof fn lemma_series_keeps_records(s: BookState, req: RegisterSeries, now: u64)
    requires
        s.artifacts_valid(),
        s.outcomes_valid(),
        s.register_series_error(req, now) is None,
    ensures
        s.after_series(req).artifacts_valid(),
        s.after_series(req).outcomes_valid(),
{
    let t = s.after_series(req);
    reveal(BookState::register_series_error);
    assert forall|id: Identifier| #![trigger s.series_index(id)] s.series_index(id) >= 0 implies t.series_index(id)
        == s.series_index(id) && t.series[s.series_index(id)] == s.series[s.series_index(id)] by {
        crate::seqs::lemma_first_match_push(s.series, req.series, series_has_id(id));
        crate::seqs::lemma_first_match(s.series, series_has_id(id));
    }
    assert(series_extended(s, t));
    lemma_extended_artifacts(s, t);
    lemma_extended_outcomes(s, t);
    assert forall|j: int| 0 <= j < t.credit_decisions.len() implies t.decision_ok(
        #[trigger] t.credit_decisions[j],
    ) by {
        assert(s.decision_ok(s.credit_decisions[j]));
    }
    assert forall|j: int| 0 <= j < t.guarantees.len() implies t.guarantee_ok(#[trigger] t.guarantees[j]) by {
        assert(s.guarantee_ok(s.guarantees[j]));
    }
    assert forall|j: int| 0 <= j < t.funding_quotes.len() implies t.quote_ok(
        #[trigger] t.funding_quotes[j],
    ) by {
        assert(s.quote_ok(s.funding_quotes[j]));
    }
    assert forall|k: int| 0 <= k < t.issuances.len() implies #[trigger] t.issuance_ok(k) by {
        assert(s.issuance_ok(k));
    }
    assert forall|j: int| 0 <= j < t.guarantee_releases.len() implies t.release_ok(
        #[trigger] t.guarantee_releases[j],
    ) by {
        assert(s.release_ok(s.guarantee_releases[j]));
    }
    assert forall|j: int| 0 <= j < t.default_attestations.len() implies t.default_ok(
        #[trigger] t.default_attestations[j],
    ) by {
        assert(s.default_ok(s.default_attestations[j]));
    }
    assert forall|j: int| 0 <= j < t.guarantee_claims.len() implies t.claim_ok(
        #[trigger] t.guarantee_claims[j],
    ) by {
        assert(s.claim_ok(s.guarantee_claims[j]));
    }
}

/// Registering a series keeps the registry valid: the new series is in its
/// registration form on a registered stream, alone on its asset.
#[verifier::spinoff_prover]
proof fn lemma_series_keeps_registry(s: BookState, req: RegisterSeries, now: u64)
    requires
        s.registry_valid(),
        s.ids_unique(),
        req.series.spec_valid_initial(),
        s.register_series_error(req, now) is None,
    ensures
        s.after_series(req).registry_valid(),
        ids_distinct(s.after_series(req).series.map_values(series_key())),
{
    let t = s.after_series(req);
    let n = s.series.len() as int;
    reveal(BookState::register_series_error);
    crate::seqs::lemma_first_match(s.series, series_has_id(req.series.series_id));
    assert forall|j: int| 0 <= j < t.series.len() implies #[trigger] t.series_ok(j) by {
        if j < n {
            assert(s.series_ok(j));
            assert(t.series[n] == req.series);
            assert(t.series[n].receivable_asset_id != s.series[j].receivable_asset_id);
        } else {
            assert forall|i: int| 0 <= i < t.series.len() && i != j implies (#[trigger] t.series[i]).receivable_asset_id
                != req.series.receivable_asset_id by {
                assert(t.series[i] == s.series[i]);
            }
        }
    }
    let before = s.series.map_values(series_key());
    let after = t.series.map_values(series_key());
    assert(after =~= before.push(req.series.series_id));
    assert forall|x: int, y: int| 0 <= x < y < after.len() implies #[trigger] after[x] != #[trigger] after[y] by {
        if y == n {
            assert(!(series_has_id(req.series.series_id))(s.series[x]));
        } else {
            assert(before[x] != before[y]);
        }
    }
}

/// Registering a series keeps a valid book valid.
#[verifier::spinoff_prover]
pub proof fn law_registering_a_series_keeps_the_book_valid(
    s: BookState,
    req: RegisterSeries,
    now: u64,
    issuers_registered: Seq<bool>,
)
    requires
        s.records_valid(issuers_registered),
        req.series.spec_valid_initial(),
        s.register_series_error(req, now) is None,
    ensures
        s.after_series(req).records_valid(issuers_registered),
{
    let t = s.after_series(req);
    lemma_book_parts(s, issuers_registered);
    lemma_series_keeps_records(s, req, now);
    lemma_series_keeps_registry(s, req, now);
    assert forall|k: int|
        0 <= k < t.confidential_subjects.len() implies #[trigger] t.binding_ok(k, issuers_registered[k]) by {
        assert(s.binding_ok(k, issuers_registered[k]));
        lemma_request_artifact_kept(s, t, s.confidential_subjects[k].request_id);
        lemma_binding_kept(s, t, k, issuers_registered[k]);
    }
    reveal(BookState::register_series_error);
    assert forall|x: int, y: int|
        0 <= x < y < t.used_operations.len() implies #[trigger] t.used_operations[x]
        != #[trigger] t.used_operations[y] by {
        if y == s.used_operations.len() {
            assert(s.used_operations[x] != req.operation_id);
        }
    }
    lemma_book_intro(t, issuers_registered);
}

/// What an issuance that can be recorded finds in the book: its series and
/// stream, fresh identifiers, and the artifacts its series requires, each
/// describing its request and stream state and still available.
proof fn lemma_issue_finds(s: BookState, x: ReceivableIssuance, now: u64)
    requires
        s.issue_error(x, now) is None,
    ensures
        ({
            let si = s.series_index(x.series_id);
            let policy = s.series[si].policy;
            let ti = s.stream_index(s.series[si].stream_id);
            &&& 0 <= si < s.series.len()
            &&& 0 <= ti < s.streams.len()
            &&& s.streams[ti].state.spec_valid()
            &&& s.streams[ti].state.version < u64::MAX
            &&& s.issuance_index(x.issuance_id) < 0
            &&& !s.note_taken(x.note_id)
            &&& !s.used_allocation_nullifiers.contains(x.allocation_nullifier)
            &&& s.op_available(x.operation_id)
            &&& !(policy.requires_credit_decision && x.credit_decision_id is None)
            &&& !(policy.requires_guarantee && x.guarantee_id is None)
            &&& !(policy.requires_funding_reservation && x.funding_quote_id is None)
        }),
        x.credit_decision_id matches Some(id) ==> ({
            let di = s.decision_index(id);
            let d = s.credit_decisions[di];
            di >= 0 && spec_same_request_state(
                d.request_id,
                d.series_id,
                d.stream_state_version,
                d.stream_state_root,
                x.request_id,
                x.series_id,
                x.before_stream_state_version,
                x.before_stream_state_root,
            )
        }),
        x.guarantee_id matches Some(id) ==> ({
            let gi = s.guarantee_index(id);
            let g = s.guarantees[gi];
            &&& 0 <= gi < s.guarantees.len()
            &&& g.guarantee_id == id
            &&& g.status == GuaranteeStatus::Available
            &&& g.credit_decision_id == x.credit_decision_id
            &&& spec_same_request_state(
                g.request_id,
                g.series_id,
                g.stream_state_version,
                g.stream_state_root,
                x.request_id,
                x.series_id,
                x.before_stream_state_version,
                x.before_stream_state_root,
            )
        }),
        x.funding_quote_id matches Some(id) ==> ({
            let qi = s.quote_index(id);
            let q = s.funding_quotes[qi];
            &&& 0 <= qi < s.funding_quotes.len()
            &&& q.quote_id == id
            &&& q.bound_issuance_id is None
            &&& q.credit_decision_id == x.credit_decision_id
            &&& q.guarantee_id == x.guarantee_id
            &&& spec_same_request_state(
                q.request_id,
                q.series_id,
                q.stream_state_version,
                q.stream_state_root,
                x.request_id,
                x.series_id,
                x.before_stream_state_version,
                x.before_stream_state_root,
            )
        }),
{
    reveal(BookState::issue_error);
    reveal(BookState::issuance_artifacts_error);
    reveal(BookState::decision_link_error);
    crate::seqs::lemma_first_match(s.series, series_has_id(x.series_id));
    crate::seqs::lemma_first_match(s.streams, stream_has_id(s.series[s.series_index(x.series_id)].stream_id));
    if let Some(id) = x.guarantee_id {
        crate::seqs::lemma_first_match(s.guarantees, guarantee_has_id(id));
    }
    if let Some(id) = x.funding_quote_id {
        crate::seqs::lemma_first_match(s.funding_quotes, quote_has_id(id));
    }
}

/// The guarantee an issuance binds, if any: its position, or -1.
pub open spec fn bound_position(s: BookState, x: ReceivableIssuance) -> int {
    match x.guarantee_id {
        Some(id) => s.guarantee_index(id),
        None => -1,
    }
}

/// The funding quote an issuance binds, if any: its position, or -1.
pub open spec fn reserved_position(s: BookState, x: ReceivableIssuance) -> int {
    match x.funding_quote_id {
        Some(id) => s.quote_index(id),
        None => -1,
    }
}

/// Recording an issuance changes the books in these ways only.
pub open spec fn issue_shape(s: BookState, t: BookState, x: ReceivableIssuance) -> bool {
    let si = s.series_index(x.series_id);
    let ti = s.stream_index(s.series[si].stream_id);
    let gi = bound_position(s, x);
    let qi = reserved_position(s, x);
    &&& t.providers == s.providers
    &&& t.series == s.series
    &&& t.confidential_subjects == s.confidential_subjects
    &&& t.credit_decisions == s.credit_decisions
    &&& t.default_attestations == s.default_attestations
    &&& t.guarantee_claims == s.guarantee_claims
    &&& t.guarantee_releases == s.guarantee_releases
    &&& t.used_provider_nonces == s.used_provider_nonces
    &&& t.used_subject_nullifiers == s.used_subject_nullifiers
    &&& t.issuances == s.issuances.push(x)
    &&& t.used_allocation_nullifiers == s.used_allocation_nullifiers.push(x.allocation_nullifier)
    &&& t.used_operations == s.used_operations.push(x.operation_id)
    &&& t.streams.len() == s.streams.len()
    &&& forall|j: int| 0 <= j < s.streams.len() && j != ti ==> #[trigger] t.streams[j] == s.streams[j]
    &&& t.streams[ti] == (RegisteredStream {
        state: pledged_state(s.streams[ti].state, x.after_pledged_commitment),
        ..s.streams[ti]
    })
    &&& t.guarantees.len() == s.guarantees.len()
    &&& forall|j: int| 0 <= j < s.guarantees.len() && j != gi ==> #[trigger] t.guarantees[j] == s.guarantees[j]
    &&& gi >= 0 ==> t.guarantees[gi] == bound_guarantee(s.guarantees[gi], x.issuance_id)
    &&& t.funding_quotes.len() == s.funding_quotes.len()
    &&& forall|j: int|
        0 <= j < s.funding_quotes.len() && j != qi ==> #[trigger] t.funding_quotes[j] == s.funding_quotes[j]
    &&& qi >= 0 ==> t.funding_quotes[qi] == bound_quote(s.funding_quotes[qi], x.issuance_id)
}

/// Recording an issuance that can be recorded changes the book as
/// described.
proof fn lemma_issue_shape(s: BookState, x: ReceivableIssuance, now: u64)
    requires
        s.issue_error(x, now) is None,
    ensures
        issue_shape(s, s.after_issue(x), x),
{
    lemma_issue_finds(s, x, now);
}

/// Recording an accepted issuance keeps identifiers unique.
#[verifier::spinoff_prover]
proof fn lemma_issue_keeps_ids(s: BookState, t: BookState, x: ReceivableIssuance, now: u64)
    requires
        s.ids_unique(),
        s.issue_error(x, now) is None,
        issue_shape(s, t, x),
    ensures
        t.ids_unique(),
{
    let si = s.series_index(x.series_id);
    let ti = s.stream_index(s.series[si].stream_id);
    let gi = bound_position(s, x);
    let qi = reserved_position(s, x);
    let n = s.issuances.len() as int;
    lemma_issue_finds(s, x, now);
    assert(t.streams.map_values(streams_key()) =~= s.streams.map_values(streams_key()));
    assert(t.guarantees.map_values(guarantees_key()) =~= s.guarantees.map_values(guarantees_key()));
    assert(t.funding_quotes.map_values(funding_quotes_key()) =~= s.funding_quotes.map_values(
        funding_quotes_key(),
    ));
    crate::seqs::lemma_first_match(s.issuances, issuance_has_id(x.issuance_id));
    let before = s.issuances.map_values(issuances_key());
    let after = t.issuances.map_values(issuances_key());
    assert(after =~= before.push(x.issuance_id));
    assert forall|a: int, b: int| 0 <= a < b < after.len() implies #[trigger] after[a] != #[trigger] after[b] by {
        if b == n {
            assert(!(issuance_has_id(x.issuance_id))(s.issuances[a]));
        } else {
            assert(before[a] != before[b]);
        }
    }
    assert forall|a: int, b: int|
        0 <= a < b < t.used_operations.len() implies #[trigger] t.used_operations[a]
        != #[trigger] t.used_operations[b] by {
        if b == s.used_operations.len() {
            assert(s.used_operations[a] != x.operation_id);
        }
    }
    assert forall|a: int, b: int|
        0 <= a < b < t.used_allocation_nullifiers.len() implies #[trigger] t.used_allocation_nullifiers[a]
        != #[trigger] t.used_allocation_nullifiers[b] by {
        if b == s.used_allocation_nullifiers.len() {
            assert(s.used_allocation_nullifiers[a] != x.allocation_nullifier);
        }
    }
}

/// Recording an issuance keeps where each stream, guarantee, funding quote,
/// and earlier issuance is found.
proof fn lemma_issue_lookups(s: BookState, t: BookState, x: ReceivableIssuance, now: u64)
    requires
        s.issue_error(x, now) is None,
        issue_shape(s, t, x),
    ensures
        forall|id: Identifier| #[trigger] t.stream_index(id) == s.stream_index(id),
        forall|id: Identifier| #[trigger] t.guarantee_index(id) == s.guarantee_index(id),
        forall|id: Identifier| #[trigger] t.quote_index(id) == s.quote_index(id),
        forall|id: Identifier| s.issuance_index(id) >= 0 ==> #[trigger] t.issuance_index(id) == s.issuance_index(id),
{
    let si = s.series_index(x.series_id);
    let ti = s.stream_index(s.series[si].stream_id);
    let gi = bound_position(s, x);
    let qi = reserved_position(s, x);
    lemma_issue_finds(s, x, now);
    assert forall|id: Identifier| #[trigger] t.stream_index(id) == s.stream_index(id) by {
        assert forall|j: int| 0 <= j < s.streams.len() implies (stream_has_id(id))(#[trigger] s.streams[j])
            == (stream_has_id(id))(t.streams[j]) by {
            if j != ti {
                assert(t.streams[j] == s.streams[j]);
            }
        }
        crate::seqs::lemma_first_match_alike(s.streams, t.streams, stream_has_id(id), stream_has_id(id));
    }
    assert forall|id: Identifier| #[trigger] t.guarantee_index(id) == s.guarantee_index(id) by {
        assert forall|j: int| 0 <= j < s.guarantees.len() implies (guarantee_has_id(id))(
            #[trigger] s.guarantees[j],
        ) == (guarantee_has_id(id))(t.guarantees[j]) by {
            if j != gi {
                assert(t.guarantees[j] == s.guarantees[j]);
            }
        }
        crate::seqs::lemma_first_match_alike(s.guarantees, t.guarantees, guarantee_has_id(id), guarantee_has_id(id));
    }
    assert forall|id: Identifier| #[trigger] t.quote_index(id) == s.quote_index(id) by {
        assert forall|j: int| 0 <= j < s.funding_quotes.len() implies (quote_has_id(id))(
            #[trigger] s.funding_quotes[j],
        ) == (quote_has_id(id))(t.funding_quotes[j]) by {
            if j != qi {
                assert(t.funding_quotes[j] == s.funding_quotes[j]);
            }
        }
        crate::seqs::lemma_first_match_alike(s.funding_quotes, t.funding_quotes, quote_has_id(id), quote_has_id(id));
    }
    assert forall|id: Identifier| s.issuance_index(id) >= 0 implies #[trigger] t.issuance_index(id) == s.issuance_index(id) by {
        crate::seqs::lemma_first_match_push(s.issuances, x, issuance_has_id(id));
    }
}

/// Recording an issuance keeps the registry, the bindings, and the
/// consumed nullifiers valid: the pledged stream stays valid, and the
/// allocation nullifier is consumed with the issuance that carries it.
#[verifier::spinoff_prover]
proof fn lemma_issue_keeps_registry(
    s: BookState,
    t: BookState,
    x: ReceivableIssuance,
    now: u64,
    issuers_registered: Seq<bool>,
)
    requires
        s.issue_error(x, now) is None,
        issue_shape(s, t, x),
        s.registry_valid(),
        issuers_registered.len() == s.confidential_subjects.len(),
        forall|k: int|
            0 <= k < s.confidential_subjects.len() ==> #[trigger] s.binding_ok(k, issuers_registered[k]),
        s.subject_nullifiers_match(),
        s.allocation_nullifiers_match(),
    ensures
        t.registry_valid(),
        forall|k: int|
            0 <= k < t.confidential_subjects.len() ==> #[trigger] t.binding_ok(k, issuers_registered[k]),
        t.subject_nullifiers_match(),
        t.allocation_nullifiers_match(),
{
    let si = s.series_index(x.series_id);
    let ti = s.stream_index(s.series[si].stream_id);
    let gi = bound_position(s, x);
    lemma_issue_finds(s, x, now);
    lemma_issue_lookups(s, t, x, now);
    assert forall|j: int| 0 <= j < s.guarantees.len() implies (#[trigger] t.guarantees[j]).request_id
        == s.guarantees[j].request_id by {
        if j != gi {
            assert(t.guarantees[j] == s.guarantees[j]);
        }
    }
    assert forall|k: int|
        0 <= k < t.confidential_subjects.len() implies #[trigger] t.binding_ok(k, issuers_registered[k]) by {
        assert(s.binding_ok(k, issuers_registered[k]));
        lemma_request_artifact_kept(s, t, s.confidential_subjects[k].request_id);
        lemma_binding_kept(s, t, k, issuers_registered[k]);
    }
    assert forall|j: int| 0 <= j < t.series.len() implies #[trigger] t.series_ok(j) by {
        assert(s.series_ok(j));
    }
    assert forall|j: int| 0 <= j < t.streams.len() implies t.stream_ok(#[trigger] t.streams[j]) by {
        assert(s.stream_ok(s.streams[j]));
        if j != ti {
            assert(t.streams[j] == s.streams[j]);
        }
    }
    let issued = s.issuances.map_values(allocation_nullifier_of());
    let issued2 = t.issuances.map_values(allocation_nullifier_of());
    assert(issued2 =~= issued.push(x.allocation_nullifier));
    assert forall|k: int| 0 <= k < issued2.len() implies t.used_allocation_nullifiers.contains(
        #[trigger] issued2[k],
    ) by {
        if k < issued.len() {
            assert(s.used_allocation_nullifiers.contains(issued[k]));
            let u = choose|u: int|
                0 <= u < s.used_allocation_nullifiers.len() && s.used_allocation_nullifiers[u] == issued[k];
            assert(t.used_allocation_nullifiers[u] == issued[k]);
        } else {
            assert(t.used_allocation_nullifiers[s.used_allocation_nullifiers.len() as int]
                == x.allocation_nullifier);
        }
    }
    assert forall|u: int| 0 <= u < t.used_allocation_nullifiers.len() implies issued2.contains(
        #[trigger] t.used_allocation_nullifiers[u],
    ) by {
        if u < s.used_allocation_nullifiers.len() {
            assert(issued.contains(s.used_allocation_nullifiers[u]));
            let k = choose|k: int| 0 <= k < issued.len() && issued[k] == s.used_allocation_nullifiers[u];
            assert(issued2[k] == issued[k]);
        } else {
            assert(issued2[issued.len() as int] == x.allocation_nullifier);
        }
    }
}

/// Recording an issuance leaves how decisions, defaults, and subjects are
/// judged unchanged.
proof fn lemma_issue_same(s: BookState, t: BookState, x: ReceivableIssuance)
    requires
        issue_shape(s, t, x),
    ensures
        forall|d: CreditDecision| #[trigger] t.decision_ok(d) == s.decision_ok(d),
        forall|a: DefaultAttestation| #[trigger] t.default_ok(a) == s.default_ok(a),
        forall|series_id: Identifier, request_id: Identifier, valid_until: u64|
            #[trigger] t.subject_binding_error(series_id, request_id, valid_until)
                == s.subject_binding_error(series_id, request_id, valid_until),
{
    reveal(BookState::decision_ok);
    reveal(BookState::default_ok);
    reveal(BookState::subject_binding_error);
}

/// Recording an issuance keeps each guarantee checking out: the one it
/// binds was available and unreleased, and is now bound to it.
#[verifier::spinoff_prover]
proof fn lemma_issue_guarantee(s: BookState, t: BookState, x: ReceivableIssuance, now: u64, j: int)
    requires
        s.issue_error(x, now) is None,
        issue_shape(s, t, x),
        0 <= j < s.guarantees.len(),
        s.guarantee_ok(s.guarantees[j]),
    ensures
        t.guarantee_ok(t.guarantees[j]),
{
    let gi = bound_position(s, x);
    lemma_issue_finds(s, x, now);
    lemma_issue_same(s, t, x);
    if j != gi {
        assert(t.guarantees[j] == s.guarantees[j]);
        reveal(BookState::guarantee_ok);
    } else {
        assert(initial_guarantee(t.guarantees[j]) == initial_guarantee(s.guarantees[j]));
        reveal(BookState::guarantee_ok);
    }
}

/// Recording an issuance keeps each funding quote checking out: the one it
/// reserves is now bound to it, as signed otherwise.
#[verifier::spinoff_prover]
proof fn lemma_issue_quote(s: BookState, t: BookState, x: ReceivableIssuance, now: u64, j: int)
    requires
        s.issue_error(x, now) is None,
        issue_shape(s, t, x),
        0 <= j < s.funding_quotes.len(),
        s.quote_ok(s.funding_quotes[j]),
    ensures
        t.quote_ok(t.funding_quotes[j]),
{
    let gi = bound_position(s, x);
    let qi = reserved_position(s, x);
    let q = s.funding_quotes[j];
    lemma_issue_finds(s, x, now);
    lemma_issue_lookups(s, t, x, now);
    if j != qi {
        assert(t.funding_quotes[j] == q);
    } else {
        assert(initial_quote(t.funding_quotes[j]) == initial_quote(q));
    }
    reveal(BookState::quote_ok);
    if let Some(id) = q.guarantee_id {
        crate::seqs::lemma_first_match(s.guarantees, guarantee_has_id(id));
        let gj = s.guarantee_index(id);
        if gj >= 0 && gj != gi {
            assert(t.guarantees[gj] == s.guarantees[gj]);
        }
    }
}

/// Recording an issuance keeps each earlier issuance checking out: the new
/// one takes another note and allocation nullifier, and binds no guarantee
/// or funding quote an earlier one holds.
#[verifier::spinoff_prover]
proof fn lemma_issue_earlier(s: BookState, t: BookState, x: ReceivableIssuance, now: u64, k: int)
    requires
        s.issue_error(x, now) is None,
        issue_shape(s, t, x),
        s.allocation_nullifiers_match(),
        0 <= k < s.issuances.len(),
        s.issuance_ok(k),
    ensures
        t.issuance_ok(k),
{
    let gi = bound_position(s, x);
    let qi = reserved_position(s, x);
    let n = s.issuances.len() as int;
    let y = s.issuances[k];
    lemma_issue_finds(s, x, now);
    lemma_issue_lookups(s, t, x, now);
    assert(t.issuances[k] == y);
    assert(t.issuances[n] == x);
    assert(x.note_id != y.note_id);
    let issued = s.issuances.map_values(allocation_nullifier_of());
    assert(issued[k] == y.allocation_nullifier);
    assert(s.used_allocation_nullifiers.contains(issued[k]));
    assert(x.allocation_nullifier != y.allocation_nullifier);
    reveal(BookState::issuance_ok);
    assert forall|j: int| 0 <= j < t.issuances.len() && j != k implies (#[trigger] t.issuances[j]).note_id
        != y.note_id && t.issuances[j].allocation_nullifier != y.allocation_nullifier by {
        if j < n {
            assert(t.issuances[j] == s.issuances[j]);
        }
    }
    if let Some(id) = y.guarantee_id {
        let gj = s.guarantee_index(id);
        crate::seqs::lemma_first_match(s.guarantees, guarantee_has_id(id));
        if gj != gi {
            assert(t.guarantees[gj] == s.guarantees[gj]);
        }
    }
    if let Some(id) = y.funding_quote_id {
        let qj = s.quote_index(id);
        crate::seqs::lemma_first_match(s.funding_quotes, quote_has_id(id));
        if qj != qi {
            assert(t.funding_quotes[qj] == s.funding_quotes[qj]);
        }
    }
}

/// The new issuance checks out once recorded: alone on its note and
/// allocation nullifier, backed as its series requires, bound to the
/// guarantee and funding quote it names.
#[verifier::spinoff_prover]
proof fn lemma_issue_new(s: BookState, t: BookState, x: ReceivableIssuance, now: u64)
    requires
        x.well_formed(),
        s.issue_error(x, now) is None,
        issue_shape(s, t, x),
        s.allocation_nullifiers_match(),
    ensures
        t.issuance_ok(s.issuances.len() as int),
{
    let n = s.issuances.len() as int;
    let gi = bound_position(s, x);
    let qi = reserved_position(s, x);
    lemma_issue_finds(s, x, now);
    lemma_issue_lookups(s, t, x, now);
    assert(t.issuances[n] == x);
    let issued = s.issuances.map_values(allocation_nullifier_of());
    assert forall|j: int| 0 <= j < t.issuances.len() && j != n implies (#[trigger] t.issuances[j]).note_id
        != x.note_id && t.issuances[j].allocation_nullifier != x.allocation_nullifier by {
        assert(t.issuances[j] == s.issuances[j]);
        assert(issued[j] == s.issuances[j].allocation_nullifier);
        assert(s.used_allocation_nullifiers.contains(issued[j]));
    }
    reveal(BookState::issuance_ok);
}

/// Recording an issuance keeps the releases and claims checking out:
/// neither names the available guarantee it binds.
#[verifier::spinoff_prover]
proof fn lemma_issue_tail(s: BookState, t: BookState, x: ReceivableIssuance, now: u64)
    requires
        s.issue_error(x, now) is None,
        issue_shape(s, t, x),
    ensures
        forall|r: GuaranteeRelease| s.release_ok(r) ==> #[trigger] t.release_ok(r),
        forall|c: GuaranteeClaim| s.claim_ok(c) ==> #[trigger] t.claim_ok(c),
{
    let gi = bound_position(s, x);
    lemma_issue_finds(s, x, now);
    lemma_issue_lookups(s, t, x, now);
    assert forall|r: GuaranteeRelease| s.release_ok(r) implies #[trigger] t.release_ok(r) by {
        reveal(BookState::release_ok);
        crate::seqs::lemma_first_match(s.guarantees, guarantee_has_id(r.guarantee_id));
        let gj = s.guarantee_index(r.guarantee_id);
        assert(t.guarantees[gj] == s.guarantees[gj]);
    }
    assert forall|c: GuaranteeClaim| s.claim_ok(c) implies #[trigger] t.claim_ok(c) by {
        reveal(BookState::claim_ok);
        crate::seqs::lemma_first_match(s.guarantees, guarantee_has_id(c.guarantee_id));
        crate::seqs::lemma_first_match(s.issuances, issuance_has_id(c.issuance_id));
        let gj = s.guarantee_index(c.guarantee_id);
        let ii = s.issuance_index(c.issuance_id);
        assert(t.guarantees[gj] == s.guarantees[gj]);
        assert(t.issuances[ii] == s.issuances[ii]);
    }
}

/// Recording an issuance keeps every recorded artifact and outcome checking
/// out, the new issuance among them.
#[verifier::spinoff_prover]
proof fn lemma_issue_keeps_records(s: BookState, t: BookState, x: ReceivableIssuance, now: u64)
    requires
        x.well_formed(),
        s.issue_error(x, now) is None,
        issue_shape(s, t, x),
        s.artifacts_valid(),
        s.outcomes_valid(),
        s.allocation_nullifiers_match(),
    ensures
        t.artifacts_valid(),
        t.outcomes_valid(),
{
    let n = s.issuances.len() as int;
    lemma_issue_same(s, t, x);
    lemma_issue_tail(s, t, x, now);
    lemma_issue_new(s, t, x, now);
    assert forall|j: int| 0 <= j < t.credit_decisions.len() implies t.decision_ok(
        #[trigger] t.credit_decisions[j],
    ) by {
        assert(s.decision_ok(s.credit_decisions[j]));
    }
    assert forall|j: int| 0 <= j < t.guarantees.len() implies t.guarantee_ok(#[trigger] t.guarantees[j]) by {
        assert(s.guarantee_ok(s.guarantees[j]));
        lemma_issue_guarantee(s, t, x, now, j);
    }
    assert forall|j: int| 0 <= j < t.funding_quotes.len() implies t.quote_ok(
        #[trigger] t.funding_quotes[j],
    ) by {
        assert(s.quote_ok(s.funding_quotes[j]));
        lemma_issue_quote(s, t, x, now, j);
    }
    assert forall|k: int| 0 <= k < t.issuances.len() implies #[trigger] t.issuance_ok(k) by {
        if k < n {
            assert(s.issuance_ok(k));
            lemma_issue_earlier(s, t, x, now, k);
        }
    }
    assert forall|j: int| 0 <= j < t.guarantee_releases.len() implies t.release_ok(
        #[trigger] t.guarantee_releases[j],
    ) by {
        assert(s.release_ok(s.guarantee_releases[j]));
    }
    assert forall|j: int| 0 <= j < t.default_attestations.len() implies t.default_ok(
        #[trigger] t.default_attestations[j],
    ) by {
        assert(s.default_ok(s.default_attestations[j]));
    }
    assert forall|j: int| 0 <= j < t.guarantee_claims.len() implies t.claim_ok(
        #[trigger] t.guarantee_claims[j],
    ) by {
        assert(s.claim_ok(s.guarantee_claims[j]));
    }
}

/// Issuing a receivable keeps a valid book valid: the stream is pledged at
/// its next version, the guarantee and funding quote it names are bound to
/// it, and its allocation nullifier is consumed with it.
#[verifier::spinoff_prover]
pub proof fn law_issuing_keeps_the_book_valid(
    s: BookState,
    x: ReceivableIssuance,
    now: u64,
    issuers_registered: Seq<bool>,
)
    requires
        s.records_valid(issuers_registered),
        x.well_formed(),
        s.issue_error(x, now) is None,
    ensures
        s.after_issue(x).records_valid(issuers_registered),
{
    let t = s.after_issue(x);
    lemma_book_parts(s, issuers_registered);
    lemma_issue_shape(s, x, now);
    lemma_issue_keeps_ids(s, t, x, now);
    lemma_issue_keeps_registry(s, t, x, now, issuers_registered);
    lemma_issue_keeps_records(s, t, x, now);
    lemma_book_intro(t, issuers_registered);
}

/// A new, empty book is valid.
pub proof fn law_an_empty_book_is_valid(s: BookState)
    requires
        s.is_empty(),
    ensures
        s.records_valid(Seq::empty()),
{
    reveal(BookState::records_valid);
}

} // verus!
