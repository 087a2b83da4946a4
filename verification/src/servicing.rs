//! Servicing: the independent record of whether a stream is paying.
//!
//! A servicer or stream attestor submits signed [`PaymentEvidence`] against
//! the installments of a stream. The [`ServicingBook`] derives the servicing
//! status (performing, delinquent, cured, defaulted) from that evidence and
//! the stream's grace and cure terms alone. A provider registered only as a
//! credit assessor, guarantor, liquidity provider, or credential issuer
//! cannot submit evidence.
//!
//! Default is evidence-driven. The book produces [`DefaultEvidence`] only
//! when the missed installments and the elapsed cure window meet the terms,
//! and it accepts a [`DefaultAttestation`] only from a registered servicer and
//! only when the attestation names exactly that evidence.

use vstd::prelude::*;

use crate::artifacts::DefaultAttestation;
use crate::canon::{
    dec, json_bytes, json_id, json_list, json_u64s, lemma_items_step, items, lit, push_byte_list,
    push_id, push_lit, push_u64, push_u64_list,
};
use crate::order::{
    json_key_set, json_object, lemma_map_full, lemma_map_prefix_push, lemma_views_push, views,
    write_key_set, write_object,
};
use crate::tokenization::{distinct_ids, ids_distinct};
use crate::provider::{
    find_provider, provider_index, signature_error, ProviderCapability, ProviderDefinition,
    ProviderError,
};
use crate::seqs::{
    first_match, lemma_first_match, lemma_first_match_step, lemma_full_prefix, sum_of,
};
use crate::types::{
    digest, id_of, is_zero, is_zero_id, lemma_id_of, push_all, same_id, spec_digest,
    spec_valid_time, spec_verify_key_signature, valid_time, Commitment, Identifier,
    MAX_UNIX_TIME,
};

verus! {

broadcast use vstd::array::group_array_axioms;

/// Why the servicing book refused an operation.
#[derive(Clone, Copy, Debug, PartialEq, Eq, Structural)]
pub enum ServicingError {
    Encoding,
    InvalidState,
    InvalidTerms,
    InvalidEvidence,
    UnknownInstallment,
    NotAnObserver,
    NotAServicer,
    DefaultUnsupported,
    UnsupportedDefault,
    AlreadyDefaulted,
    Provider(ProviderError),
    Replay,
}

pub open spec fn payment_evidence_domain() -> Seq<u8> {
    lit("AETHEL:PAYMENT-EVIDENCE:v1")
}

pub open spec fn default_event_domain() -> Seq<u8> {
    lit("AETHEL:DEFAULT-EVENT:v1")
}

pub open spec fn default_reason_domain() -> Seq<u8> {
    lit("AETHEL:DEFAULT-REASON:v1")
}

/// One installment of the schedule.
#[derive(Clone, Copy, Debug, PartialEq, Eq, Structural)]
pub struct DueInstallment {
    pub sequence: u64,
    pub due_at: u64,
    pub units: u64,
}

/// The contractual terms servicing evaluates against.
#[derive(Clone, Debug, PartialEq, Eq)]
pub struct ServicingTerms {
    pub stream_id: Identifier,
    pub schedule: Vec<DueInstallment>,
    /// Seconds after `due_at` before an unpaid installment counts as missed.
    pub grace_seconds: u64,
    /// Seconds after the first missed installment's grace end during which
    /// payment cures the delinquency without a default.
    pub cure_window_seconds: u64,
    /// Missed installments (at once) required before default is supported.
    pub default_after_missed: u32,
}

/// Installment `i` carries sequence `i + 1`, units, and a valid due time;
/// due times strictly increase.
pub open spec fn schedule_ok(s: Seq<DueInstallment>) -> bool {
    &&& forall|i: int|
        0 <= i < s.len() ==> (#[trigger] s[i]).sequence == i + 1 && s[i].units != 0
            && spec_valid_time(s[i].due_at)
    &&& forall|i: int, j: int| 0 <= i < j < s.len() ==> (#[trigger] s[i]).due_at < (#[trigger] s[j]).due_at
}

pub open spec fn installment_has_sequence(sequence: u64) -> spec_fn(DueInstallment) -> bool {
    |d: DueInstallment| d.sequence == sequence
}

impl ServicingTerms {
    pub open spec fn spec_valid(&self) -> bool {
        &&& !is_zero(self.stream_id)
        &&& self.schedule@.len() != 0
        &&& self.default_after_missed != 0
        &&& self.grace_seconds <= MAX_UNIX_TIME
        &&& self.cure_window_seconds <= MAX_UNIX_TIME
        &&& schedule_ok(self.schedule@)
    }

    pub fn validate(&self) -> (r: Result<(), ServicingError>)
        ensures
            r is Ok <==> self.spec_valid(),
            r matches Err(e) ==> e == ServicingError::InvalidTerms,
    {
        if is_zero_id(&self.stream_id) || self.schedule.len() == 0 || self.default_after_missed == 0
            || self.grace_seconds > MAX_UNIX_TIME || self.cure_window_seconds > MAX_UNIX_TIME {
            return Err(ServicingError::InvalidTerms);
        }
        let s = &self.schedule;
        let mut i: usize = 0;
        while i < s.len()
            invariant
                i <= s@.len(),
                s@ == self.schedule@,
                forall|j: int|
                    0 <= j < i ==> (#[trigger] s@[j]).sequence == j + 1 && s@[j].units != 0
                        && spec_valid_time(s@[j].due_at),
                forall|a: int, b: int| 0 <= a < b < i ==> (#[trigger] s@[a]).due_at < (#[trigger] s@[b]).due_at,
            decreases s@.len() - i,
        {
            let expected: usize = i + 1;
            let d = s[i];
            if d.sequence != expected as u64 || d.units == 0 || !valid_time(d.due_at) || (i > 0
                && s[i - 1].due_at >= d.due_at) {
                return Err(ServicingError::InvalidTerms);
            }
            proof {
                assert forall|a: int, b: int| 0 <= a < b < i + 1 implies (#[trigger] s@[a]).due_at < (
                #[trigger] s@[b]).due_at by {
                    if b == i && a < i - 1 {
                        assert(s@[a].due_at < s@[i - 1].due_at);
                    }
                }
            }
            i = i + 1;
        }
        Ok(())
    }

    /// Position of the installment with the sequence, or -1.
    pub open spec fn installment_index(&self, sequence: u64) -> int {
        first_match(self.schedule@, installment_has_sequence(sequence))
    }

    /// The installment with the sequence number.
    pub fn installment(&self, sequence: u64) -> (r: Option<&DueInstallment>)
        ensures
            match r {
                Some(d) => self.installment_index(sequence) >= 0 && *d
                    == self.schedule@[self.installment_index(sequence)],
                None => self.installment_index(sequence) == -1,
            },
    {
        let ghost q = installment_has_sequence(sequence);
        let mut i: usize = 0;
        while i < self.schedule.len()
            invariant
                i <= self.schedule@.len(),
                q == installment_has_sequence(sequence),
                first_match(self.schedule@.subrange(0, i as int), q) == -1,
            decreases self.schedule@.len() - i,
        {
            proof {
                lemma_first_match_step(self.schedule@, i as int, q);
            }
            if self.schedule[i].sequence == sequence {
                proof {
                    crate::provider::lemma_first_match_prefix_stop(self.schedule@, i as int, q);
                }
                return Some(&self.schedule[i]);
            }
            i = i + 1;
        }
        proof {
            lemma_full_prefix(self.schedule@);
        }
        None
    }
}

/// A signed observation that units were paid against one installment. The
/// signer is a servicer or the stream's attestor; `source_evidence_digest`
/// names the settlement receipt or source record the observation rests on.
#[derive(Clone, Debug, PartialEq, Eq)]
pub struct PaymentEvidence {
    pub evidence_id: Identifier,
    pub operation_id: Identifier,
    pub provider_id: Identifier,
    pub stream_id: Identifier,
    pub installment_sequence: u64,
    pub paid_units: u64,
    pub observed_at: u64,
    pub source_evidence_digest: Commitment,
    pub signature: Vec<u8>,
}

impl PaymentEvidence {
    pub open spec fn well_formed(&self) -> bool {
        &&& !is_zero(self.evidence_id)
        &&& !is_zero(self.operation_id)
        &&& !is_zero(self.provider_id)
        &&& !is_zero(self.stream_id)
        &&& !is_zero(self.source_evidence_digest)
        &&& self.installment_sequence != 0
        &&& self.paid_units != 0
        &&& spec_valid_time(self.observed_at)
    }

    pub open spec fn unsigned_encoding(&self) -> Seq<u8> {
        lit("{\"evidenceId\":") + json_id(self.evidence_id) + lit(",\"operationId\":") + json_id(
            self.operation_id,
        ) + lit(",\"providerId\":") + json_id(self.provider_id) + lit(",\"streamId\":") + json_id(
            self.stream_id,
        ) + lit(",\"installmentSequence\":") + dec(self.installment_sequence as nat) + lit(
            ",\"paidUnits\":",
        ) + dec(self.paid_units as nat) + lit(",\"observedAt\":") + dec(self.observed_at as nat)
            + lit(",\"sourceEvidenceDigest\":") + json_id(self.source_evidence_digest) + lit(
            ",\"signature\":[]}",
        )
    }

    pub open spec fn spec_statement(&self) -> Seq<u8> {
        spec_digest(payment_evidence_domain(), self.unsigned_encoding())
    }

    pub fn check(&self) -> (r: bool)
        ensures
            r == self.well_formed(),
    {
        !(is_zero_id(&self.evidence_id) || is_zero_id(&self.operation_id) || is_zero_id(
            &self.provider_id,
        ) || is_zero_id(&self.stream_id) || is_zero_id(&self.source_evidence_digest)
            || self.installment_sequence == 0 || self.paid_units == 0 || !valid_time(
            self.observed_at,
        ))
    }

    pub fn statement(&self) -> (r: Result<Commitment, ServicingError>)
        ensures
            r matches Ok(d) ==> self.well_formed() && d@ == self.spec_statement(),
            r matches Err(e) ==> !self.well_formed() && e == ServicingError::InvalidEvidence,
    {
        if !self.check() {
            return Err(ServicingError::InvalidEvidence);
        }
        let mut out: Vec<u8> = Vec::new();
        push_lit(&mut out, "{\"evidenceId\":");
        assert(out@ =~= lit("{\"evidenceId\":"));
        push_id(&mut out, &self.evidence_id);
        push_lit(&mut out, ",\"operationId\":");
        push_id(&mut out, &self.operation_id);
        push_lit(&mut out, ",\"providerId\":");
        push_id(&mut out, &self.provider_id);
        push_lit(&mut out, ",\"streamId\":");
        push_id(&mut out, &self.stream_id);
        push_lit(&mut out, ",\"installmentSequence\":");
        push_u64(&mut out, self.installment_sequence);
        push_lit(&mut out, ",\"paidUnits\":");
        push_u64(&mut out, self.paid_units);
        push_lit(&mut out, ",\"observedAt\":");
        push_u64(&mut out, self.observed_at);
        push_lit(&mut out, ",\"sourceEvidenceDigest\":");
        push_id(&mut out, &self.source_evidence_digest);
        push_lit(&mut out, ",\"signature\":[]}");
        Ok(digest("AETHEL:PAYMENT-EVIDENCE:v1".as_bytes(), out.as_slice()))
    }
}

/// The servicing status of a stream.
#[derive(Clone, Debug, PartialEq, Eq)]
pub enum ServicingStatus {
    Performing,
    Delinquent { since: u64, missed: Vec<u64> },
    Cured { at: u64 },
    Defaulted { attestation_id: Identifier },
}

/// The mathematical content of a [`ServicingStatus`].
pub enum StatusView {
    Performing,
    Delinquent { since: u64, missed: Seq<u64> },
    Cured { at: u64 },
    Defaulted { attestation_id: Identifier },
}

impl View for ServicingStatus {
    type V = StatusView;

    open spec fn view(&self) -> StatusView {
        match self {
            ServicingStatus::Performing => StatusView::Performing,
            ServicingStatus::Delinquent { since, missed } => StatusView::Delinquent {
                since: *since,
                missed: missed@,
            },
            ServicingStatus::Cured { at } => StatusView::Cured { at: *at },
            ServicingStatus::Defaulted { attestation_id } => StatusView::Defaulted {
                attestation_id: *attestation_id,
            },
        }
    }
}

/// A copy of a list of sequence numbers.
fn copy_u64s(v: &Vec<u64>) -> (r: Vec<u64>)
    ensures
        r@ == v@,
{
    let mut out: Vec<u64> = Vec::new();
    let mut i: usize = 0;
    while i < v.len()
        invariant
            i <= v@.len(),
            out@ == v@.subrange(0, i as int),
        decreases v@.len() - i,
    {
        out.push(v[i]);
        assert(out@ =~= v@.subrange(0, (i + 1) as int));
        i = i + 1;
    }
    assert(v@.subrange(0, v@.len() as int) =~= v@);
    out
}

impl ServicingStatus {
    /// A copy of the status.
    pub fn copy(&self) -> (r: ServicingStatus)
        ensures
            r@ == self@,
    {
        match self {
            ServicingStatus::Performing => ServicingStatus::Performing,
            ServicingStatus::Delinquent { since, missed } => ServicingStatus::Delinquent {
                since: *since,
                missed: copy_u64s(missed),
            },
            ServicingStatus::Cured { at } => ServicingStatus::Cured { at: *at },
            ServicingStatus::Defaulted { attestation_id } => ServicingStatus::Defaulted {
                attestation_id: *attestation_id,
            },
        }
    }
}

impl StatusView {
    pub open spec fn json(self) -> Seq<u8> {
        match self {
            StatusView::Performing => lit("{\"state\":\"performing\"}"),
            StatusView::Delinquent { since, missed } => lit("{\"state\":\"delinquent\",\"since\":")
                + dec(since as nat) + lit(",\"missed\":") + json_u64s(missed) + lit("}"),
            StatusView::Cured { at } => lit("{\"state\":\"cured\",\"at\":") + dec(at as nat) + lit(
                "}",
            ),
            StatusView::Defaulted { attestation_id } => lit(
                "{\"state\":\"defaulted\",\"attestation_id\":",
            ) + json_id(attestation_id) + lit("}"),
        }
    }
}

/// The evidence a default rests on. Its `event_digest` is what a
/// [`DefaultAttestation`] must carry.
#[derive(Clone, Debug, PartialEq, Eq)]
pub struct DefaultEvidence {
    pub stream_id: Identifier,
    pub missed_sequences: Vec<u64>,
    pub first_missed_due_at: u64,
    pub evaluated_at: u64,
    pub evidence_root: Commitment,
    pub event_digest: Commitment,
    pub reason_digest: Commitment,
}

/// The mathematical content of a [`DefaultEvidence`].
pub struct DefaultEvidenceView {
    pub stream_id: Identifier,
    pub missed_sequences: Seq<u64>,
    pub first_missed_due_at: u64,
    pub evaluated_at: u64,
    pub evidence_root: Commitment,
    pub event_digest: Commitment,
    pub reason_digest: Commitment,
}

impl View for DefaultEvidence {
    type V = DefaultEvidenceView;

    open spec fn view(&self) -> DefaultEvidenceView {
        DefaultEvidenceView {
            stream_id: self.stream_id,
            missed_sequences: self.missed_sequences@,
            first_missed_due_at: self.first_missed_due_at,
            evaluated_at: self.evaluated_at,
            evidence_root: self.evidence_root,
            event_digest: self.event_digest,
            reason_digest: self.reason_digest,
        }
    }
}

impl DefaultEvidence {
    /// A copy of the evidence.
    pub fn copy(&self) -> (r: DefaultEvidence)
        ensures
            r@ == self@,
    {
        DefaultEvidence {
            stream_id: self.stream_id,
            missed_sequences: copy_u64s(&self.missed_sequences),
            first_missed_due_at: self.first_missed_due_at,
            evaluated_at: self.evaluated_at,
            evidence_root: self.evidence_root,
            event_digest: self.event_digest,
            reason_digest: self.reason_digest,
        }
    }
}

/// The servicing book of one stream: its terms, the payment evidence
/// recorded, the derived status, the default evidence once derived, the
/// accepted default attestation, and the consumed operation ids.
#[derive(Debug)]
pub struct ServicingBook {
    pub terms: ServicingTerms,
    pub evidence: Vec<PaymentEvidence>,
    pub status: ServicingStatus,
    pub default_evidence: Option<DefaultEvidence>,
    pub accepted_attestation: Option<DefaultAttestation>,
    pub used_operations: Vec<Identifier>,
}

/// The mathematical content of a [`ServicingBook`].
pub struct ServicingState {
    pub terms: ServicingTerms,
    pub evidence: Seq<PaymentEvidence>,
    pub status: StatusView,
    pub default_evidence: Option<DefaultEvidenceView>,
    pub accepted_attestation: Option<DefaultAttestation>,
    pub used_operations: Seq<Identifier>,
}

impl View for ServicingBook {
    type V = ServicingState;

    open spec fn view(&self) -> ServicingState {
        ServicingState {
            terms: self.terms,
            evidence: self.evidence@,
            status: self.status@,
            default_evidence: match self.default_evidence {
                Some(e) => Some(e@),
                None => None,
            },
            accepted_attestation: self.accepted_attestation,
            used_operations: self.used_operations@,
        }
    }
}

/// `a + b`, or the largest `u64` when that does not fit.
pub open spec fn sat_add(a: u64, b: u64) -> u64 {
    if a + b > u64::MAX {
        u64::MAX
    } else {
        (a + b) as u64
    }
}

fn saturating(a: u64, b: u64) -> (r: u64)
    ensures
        r == sat_add(a, b),
{
    match a.checked_add(b) {
        Some(v) => v,
        None => u64::MAX,
    }
}

/// Units a record of evidence pays against installment `sequence`.
pub open spec fn paid_in(sequence: u64) -> spec_fn(PaymentEvidence) -> nat {
    |e: PaymentEvidence|
        if e.installment_sequence == sequence {
            e.paid_units as nat
        } else {
            0
        }
}

pub open spec fn evidence_has_id(id: Identifier) -> spec_fn(PaymentEvidence) -> bool {
    |e: PaymentEvidence| e.evidence_id == id
}

/// The installments of `xs` missed at `now`: their grace has ended and
/// less than their units was observed paid.
pub open spec fn missed_list(
    evidence: Seq<PaymentEvidence>,
    grace: u64,
    xs: Seq<DueInstallment>,
    now: u64,
) -> Seq<DueInstallment>
    decreases xs.len(),
{
    if xs.len() == 0 {
        Seq::empty()
    } else {
        let rest = missed_list(evidence, grace, xs.drop_last(), now);
        if is_missed(evidence, grace, xs.last(), now) {
            rest.push(xs.last())
        } else {
            rest
        }
    }
}

/// Installment `d` is missed at `now`: its grace has ended and less than
/// its units was observed paid.
pub open spec fn is_missed(
    evidence: Seq<PaymentEvidence>,
    grace: u64,
    d: DueInstallment,
    now: u64,
) -> bool {
    &&& sat_add(d.due_at, grace) < now
    &&& sum_of(evidence, paid_in(d.sequence)) < d.units
}

/// The sequence numbers of installments.
pub open spec fn sequences(xs: Seq<DueInstallment>) -> Seq<u64> {
    xs.map_values(|d: DueInstallment| d.sequence)
}

impl ServicingState {
    /// Units observed paid against installment `sequence`.
    pub open spec fn paid_total(self, sequence: u64) -> nat {
        sum_of(self.evidence, paid_in(sequence))
    }

    /// The installments missed at `now`, in schedule order.
    pub open spec fn missed_at(self, now: u64) -> Seq<DueInstallment> {
        missed_list(self.evidence, self.terms.grace_seconds, self.terms.schedule@, now)
    }

    pub open spec fn evidence_index(self, id: Identifier) -> int {
        first_match(self.evidence, evidence_has_id(id))
    }

    pub open spec fn op_used(self, operation_id: Identifier) -> bool {
        self.used_operations.contains(operation_id)
    }

    /// The status the evidence supports at `now`. An attested default is
    /// terminal; otherwise missed installments make the stream delinquent
    /// since the first one's grace end, and a delinquency with nothing left
    /// missed is cured.
    pub open spec fn evaluated(self, now: u64) -> StatusView {
        let m = self.missed_at(now);
        if self.status is Defaulted {
            self.status
        } else if m.len() == 0 {
            match self.status {
                StatusView::Delinquent { .. } => StatusView::Cured { at: now },
                StatusView::Cured { at } => StatusView::Cured { at },
                _ => StatusView::Performing,
            }
        } else {
            StatusView::Delinquent {
                since: sat_add(m[0].due_at, self.terms.grace_seconds),
                missed: sequences(m),
            }
        }
    }

    /// The book with its status re-derived at `now`.
    pub open spec fn with_evaluation(self, now: u64) -> ServicingState {
        ServicingState { status: self.evaluated(now), ..self }
    }
}

impl ServicingBook {
    fn operation_used(&self, operation_id: &Identifier) -> (r: bool)
        ensures
            r == self@.op_used(*operation_id),
    {
        let mut i: usize = 0;
        while i < self.used_operations.len()
            invariant
                i <= self.used_operations@.len(),
                forall|j: int| 0 <= j < i ==> self.used_operations@[j] != *operation_id,
            decreases self.used_operations@.len() - i,
        {
            if same_id(&self.used_operations[i], operation_id) {
                assert(self.used_operations@[i as int] == *operation_id);
                return true;
            }
            i = i + 1;
        }
        false
    }

    fn find_evidence(&self, id: &Identifier) -> (r: Option<usize>)
        ensures
            match r {
                Some(i) => i as int == self@.evidence_index(*id) && i < self.evidence@.len(),
                None => self@.evidence_index(*id) == -1,
            },
    {
        let ghost q = evidence_has_id(*id);
        let mut i: usize = 0;
        while i < self.evidence.len()
            invariant
                i <= self.evidence@.len(),
                q == evidence_has_id(*id),
                first_match(self.evidence@.subrange(0, i as int), q) == -1,
            decreases self.evidence@.len() - i,
        {
            proof {
                lemma_first_match_step(self.evidence@, i as int, q);
            }
            if same_id(&self.evidence[i].evidence_id, id) {
                proof {
                    crate::provider::lemma_first_match_prefix_stop(self.evidence@, i as int, q);
                }
                return Some(i);
            }
            i = i + 1;
        }
        proof {
            lemma_full_prefix(self.evidence@);
        }
        None
    }

    /// Units observed paid against one installment.
    pub fn paid_units(&self, sequence: u64) -> (r: u64)
        requires
            self@.paid_total(sequence) <= u64::MAX,
        ensures
            r == self@.paid_total(sequence),
    {
        let ghost f = paid_in(sequence);
        let mut total: u64 = 0;
        let mut i: usize = 0;
        while i < self.evidence.len()
            invariant
                i <= self.evidence@.len(),
                f == paid_in(sequence),
                total as nat == sum_of(self.evidence@.subrange(0, i as int), f),
                sum_of(self.evidence@, f) <= u64::MAX,
            decreases self.evidence@.len() - i,
        {
            proof {
                crate::seqs::lemma_sum_step(self.evidence@, i as int, f);
                crate::seqs::lemma_sum_prefix_le(self.evidence@, (i + 1) as int, f);
            }
            if self.evidence[i].installment_sequence == sequence {
                total = total + self.evidence[i].paid_units;
            }
            i = i + 1;
        }
        proof {
            lemma_full_prefix(self.evidence@);
        }
        total
    }

    /// Whether at least `units` were observed paid against the installment.
    fn paid_at_least(&self, sequence: u64, units: u64) -> (r: bool)
        ensures
            r == (self@.paid_total(sequence) >= units),
    {
        let ghost f = paid_in(sequence);
        if units == 0 {
            return true;
        }
        let mut total: u64 = 0;
        let mut i: usize = 0;
        while i < self.evidence.len()
            invariant
                i <= self.evidence@.len(),
                f == paid_in(sequence),
                total as nat == sum_of(self.evidence@.subrange(0, i as int), f),
                total < units,
            decreases self.evidence@.len() - i,
        {
            proof {
                crate::seqs::lemma_sum_step(self.evidence@, i as int, f);
                crate::seqs::lemma_sum_prefix_le(self.evidence@, (i + 1) as int, f);
            }
            if self.evidence[i].installment_sequence == sequence {
                match total.checked_add(self.evidence[i].paid_units) {
                    Some(t) => total = t,
                    None => return true,
                }
            }
            if total >= units {
                proof {
                    crate::seqs::lemma_sum_prefix_le(self.evidence@, (i + 1) as int, f);
                }
                return true;
            }
            i = i + 1;
        }
        proof {
            lemma_full_prefix(self.evidence@);
        }
        false
    }

    /// Installments whose grace period has ended at `now` without full
    /// payment, in schedule order.
    pub fn missed(&self, now: u64) -> (r: Vec<DueInstallment>)
        ensures
            r@ == self@.missed_at(now),
    {
        let ghost s = self@;
        let schedule = &self.terms.schedule;
        let mut out: Vec<DueInstallment> = Vec::new();
        let mut i: usize = 0;
        while i < schedule.len()
            invariant
                s == self@,
                schedule@ == s.terms.schedule@,
                i <= schedule@.len(),
                out@ == missed_list(s.evidence, s.terms.grace_seconds, schedule@.subrange(0, i as int), now),
            decreases schedule@.len() - i,
        {
            let d = schedule[i];
            proof {
                assert(schedule@.subrange(0, i + 1).drop_last() =~= schedule@.subrange(0, i as int));
            }
            if saturating(d.due_at, self.terms.grace_seconds) < now && !self.paid_at_least(
                d.sequence,
                d.units,
            ) {
                out.push(d);
            }
            i = i + 1;
        }
        proof {
            lemma_full_prefix(schedule@);
        }
        out
    }

    /// Re-derives the status from the evidence at `now`. A default, once
    /// attested, is terminal. Returns the new status.
    pub fn evaluate(&mut self, now: u64) -> (r: ServicingStatus)
        ensures
            final(self)@ == old(self)@.with_evaluation(now),
            r@ == old(self)@.evaluated(now),
    {
        if matches!(self.status, ServicingStatus::Defaulted { .. }) {
            return self.status.copy();
        }
        let missed = self.missed(now);
        let next = if missed.len() == 0 {
            match self.status {
                ServicingStatus::Delinquent { .. } => ServicingStatus::Cured { at: now },
                ServicingStatus::Cured { at } => ServicingStatus::Cured { at },
                _ => ServicingStatus::Performing,
            }
        } else {
            let since = saturating(missed[0].due_at, self.terms.grace_seconds);
            let mut seqs: Vec<u64> = Vec::new();
            let mut i: usize = 0;
            while i < missed.len()
                invariant
                    i <= missed@.len(),
                    seqs@ == sequences(missed@.subrange(0, i as int)),
                decreases missed@.len() - i,
            {
                seqs.push(missed[i].sequence);
                assert(seqs@ =~= sequences(missed@.subrange(0, (i + 1) as int)));
                i = i + 1;
            }
            assert(missed@.subrange(0, missed@.len() as int) =~= missed@);
            ServicingStatus::Delinquent { since, missed: seqs }
        };
        let r = next.copy();
        self.status = next;
        r
    }
}

impl ServicingState {
    /// Evidence record `i` is well formed, observes this stream and one of
    /// its installments, under a consumed operation id.
    pub open spec fn evidence_ok(self, i: int) -> bool {
        let e = self.evidence[i];
        &&& e.well_formed()
        &&& e.stream_id == self.terms.stream_id
        &&& self.terms.installment_index(e.installment_sequence) >= 0
        &&& self.op_used(e.operation_id)
    }

    /// An attested default carries its attestation, which names the default
    /// evidence of this stream under a consumed operation id; no
    /// attestation is held otherwise.
    pub open spec fn attestation_ok(self) -> bool {
        match (self.status, self.default_evidence, self.accepted_attestation) {
            (StatusView::Defaulted { attestation_id }, Some(ev), Some(att)) => {
                &&& att.well_formed()
                &&& att.attestation_id == attestation_id
                &&& att.event_digest == ev.event_digest
                &&& att.reason_digest == ev.reason_digest
                &&& ev.stream_id == self.terms.stream_id
                &&& self.op_used(att.operation_id)
            },
            (StatusView::Defaulted { .. }, _, _) => false,
            (_, _, Some(_)) => false,
            _ => true,
        }
    }

    /// Evidence identifiers occur once.
    pub open spec fn evidence_unique(self) -> bool {
        forall|i: int, j: int|
            0 <= i < j < self.evidence.len() ==> (#[trigger] self.evidence[i]).evidence_id != (
            #[trigger] self.evidence[j]).evidence_id
    }

    /// What [`ServicingBook::validate`] answers once the terms and the
    /// evidence records pass: a held attestation of an attested default is
    /// checked as an artifact first, then against the book.
    pub open spec fn attestation_result(self) -> Result<(), ServicingError> {
        let artifact_ok = match (self.status, self.default_evidence, self.accepted_attestation) {
            (StatusView::Defaulted { .. }, Some(_), Some(att)) => att.well_formed(),
            _ => true,
        };
        if !artifact_ok {
            Err(ServicingError::Provider(ProviderError::InvalidDefaultAttestation))
        } else if self.attestation_ok() {
            Ok(())
        } else {
            Err(ServicingError::InvalidState)
        }
    }

    /// What [`ServicingBook::validate`] accepts.
    pub open spec fn records_valid(self) -> bool {
        &&& self.terms.spec_valid()
        &&& forall|i: int, j: int|
            0 <= i < j < self.evidence.len() ==> (#[trigger] self.evidence[i]).evidence_id != (
            #[trigger] self.evidence[j]).evidence_id
        &&& forall|i: int| 0 <= i < self.evidence.len() ==> #[trigger] self.evidence_ok(i)
        &&& self.attestation_ok()
    }

    /// The invariant every operation keeps: the records are valid and any
    /// default evidence describes this stream.
    pub open spec fn inv(self) -> bool {
        &&& self.records_valid()
        &&& (self.default_evidence matches Some(ev) ==> ev.stream_id == self.terms.stream_id)
    }
}

/// Re-deriving the status keeps the invariant.
pub proof fn lemma_evaluation_keeps_inv(s: ServicingState, now: u64)
    requires
        s.inv(),
    ensures
        s.with_evaluation(now).inv(),
{
    let s2 = s.with_evaluation(now);
    assert forall|i: int| 0 <= i < s2.evidence.len() implies #[trigger] s2.evidence_ok(i) by {
        assert(s.evidence_ok(i));
    }
}

/// Why the book refuses payment evidence, if it does. The checks run in
/// this order: an attested default, the evidence itself, its signer's
/// registration, the signer's capability to observe payment at `now`, the
/// signature under the signer's current key, the stream and observation
/// time, the installment, and replay of the evidence or operation id.
pub open spec fn evidence_error(
    s: ServicingState,
    evidence: PaymentEvidence,
    registry: Seq<ProviderDefinition>,
    now: u64,
) -> Option<ServicingError> {
    let pi = provider_index(registry, evidence.provider_id);
    if s.status is Defaulted {
        Some(ServicingError::AlreadyDefaulted)
    } else if !evidence.well_formed() {
        Some(ServicingError::InvalidEvidence)
    } else if pi < 0 {
        Some(ServicingError::Provider(ProviderError::UnknownProvider))
    } else if !registry[pi].spec_has(ProviderCapability::Servicer, now) && !registry[pi].spec_has(
        ProviderCapability::StreamAttestor,
        now,
    ) {
        Some(ServicingError::NotAnObserver)
    } else {
        match spec_verify_key_signature(
            registry[pi].public_key@,
            evidence.spec_statement(),
            evidence.signature@,
        ) {
            Err(e) => Some(ServicingError::Provider(signature_error(e))),
            Ok(()) => if evidence.stream_id != s.terms.stream_id || evidence.observed_at > now {
                Some(ServicingError::InvalidEvidence)
            } else if s.terms.installment_index(evidence.installment_sequence) < 0 {
                Some(ServicingError::UnknownInstallment)
            } else if s.evidence_index(evidence.evidence_id) >= 0 || s.op_used(
                evidence.operation_id,
            ) {
                Some(ServicingError::Replay)
            } else {
                None
            },
        }
    }
}

/// The book after recording payment evidence: the evidence is kept, its
/// operation id consumed, and the status re-derived at `now`.
pub open spec fn after_evidence(
    s: ServicingState,
    evidence: PaymentEvidence,
    now: u64,
) -> ServicingState {
    ServicingState {
        evidence: s.evidence.push(evidence),
        used_operations: s.used_operations.push(evidence.operation_id),
        ..s
    }.with_evaluation(now)
}

/// Recording accepted evidence keeps the invariant.
pub proof fn lemma_evidence_keeps_inv(
    s: ServicingState,
    evidence: PaymentEvidence,
    registry: Seq<ProviderDefinition>,
    now: u64,
)
    requires
        s.inv(),
        evidence_error(s, evidence, registry, now) is None,
    ensures
        after_evidence(s, evidence, now).inv(),
{
    let s1 = ServicingState {
        evidence: s.evidence.push(evidence),
        used_operations: s.used_operations.push(evidence.operation_id),
        ..s
    };
    let n = s.evidence.len() as int;
    lemma_first_match(s.evidence, evidence_has_id(evidence.evidence_id));
    assert forall|i: int, j: int| 0 <= i < j < s1.evidence.len() implies (
    #[trigger] s1.evidence[i]).evidence_id != (#[trigger] s1.evidence[j]).evidence_id by {
        if j == n {
            assert(!evidence_has_id(evidence.evidence_id)(s.evidence[i]));
        }
    }
    assert forall|i: int| 0 <= i < s1.evidence.len() implies #[trigger] s1.evidence_ok(i) by {
        if i < n {
            assert(s.evidence_ok(i));
            let w = choose|w: int|
                0 <= w < s.used_operations.len() && s.used_operations[w]
                    == s.evidence[i].operation_id;
            assert(s1.used_operations[w] == s.used_operations[w]);
        } else {
            assert(s1.used_operations[s.used_operations.len() as int] == evidence.operation_id);
        }
    }
    assert(s1.attestation_ok());
    lemma_evaluation_keeps_inv(s1, now);
}

/// The lower-case hexadecimal ids of the evidence, in ascending order, as a
/// JSON list of strings.
pub open spec fn evidence_keys_json(evidence: Seq<PaymentEvidence>) -> Seq<u8> {
    json_key_set(evidence.map_values(|e: PaymentEvidence| e.evidence_id))
}

/// The encoded event a default rests on: the stream, the missed sequence
/// numbers, the first missed due time, the evaluation time, and the
/// evidence root.
pub open spec fn event_json(
    stream_id: Identifier,
    missed: Seq<u64>,
    first_due_at: u64,
    now: u64,
    evidence_root: Commitment,
) -> Seq<u8> {
    lit("[") + json_id(stream_id) + lit(",") + json_u64s(missed) + lit(",") + dec(
        first_due_at as nat,
    ) + lit(",") + dec(now as nat) + lit(",") + json_id(evidence_root) + lit("]")
}

/// The encoded reason of a default: its rule, the number of missed
/// installments, and the grace and cure terms.
pub open spec fn reason_json(missed: nat, grace: u64, cure: u64) -> Seq<u8> {
    lit("[\"missed installments beyond grace and cure window\",") + dec(missed) + lit(",") + dec(
        grace as nat,
    ) + lit(",") + dec(cure as nat) + lit("]")
}

/// Whether the status supports a default at `now`: enough installments
/// missed at once, and the cure window since the first miss elapsed.
pub open spec fn default_supported(s: ServicingState, now: u64) -> bool {
    match s.status {
        StatusView::Delinquent { since, missed } => missed.len() >= s.terms.default_after_missed
            && now >= sat_add(since, s.terms.cure_window_seconds),
        _ => false,
    }
}

/// The default evidence derived from the book at `now`.
#[verifier::opaque]
pub open spec fn derived_evidence(s: ServicingState, now: u64) -> DefaultEvidenceView {
    let m = s.missed_at(now);
    let root = id_of(spec_digest(payment_evidence_domain(), evidence_keys_json(s.evidence)));
    DefaultEvidenceView {
        stream_id: s.terms.stream_id,
        missed_sequences: sequences(m),
        first_missed_due_at: m[0].due_at,
        evaluated_at: now,
        evidence_root: root,
        event_digest: id_of(
            spec_digest(
                default_event_domain(),
                event_json(s.terms.stream_id, sequences(m), m[0].due_at, now, root),
            ),
        ),
        reason_digest: id_of(
            spec_digest(
                default_reason_domain(),
                reason_json(
                    m.len(),
                    s.terms.grace_seconds,
                    s.terms.cure_window_seconds,
                ),
            ),
        ),
    }
}

/// The ids of the evidence in ascending order, as a JSON list of
/// hexadecimal strings.
fn evidence_keys_bytes(evidence: &Vec<PaymentEvidence>) -> (r: Vec<u8>)
    ensures
        r@ == evidence_keys_json(evidence@),
{
    let mut ids: Vec<Identifier> = Vec::new();
    let mut i: usize = 0;
    while i < evidence.len()
        invariant
            i <= evidence@.len(),
            ids@ == evidence@.subrange(0, i as int).map_values(|e: PaymentEvidence| e.evidence_id),
        decreases evidence@.len() - i,
    {
        ids.push(evidence[i].evidence_id);
        assert(ids@ =~= evidence@.subrange(0, (i + 1) as int).map_values(
            |e: PaymentEvidence| e.evidence_id,
        ));
        i = i + 1;
    }
    assert(evidence@.subrange(0, evidence@.len() as int) =~= evidence@);
    let mut out: Vec<u8> = Vec::new();
    write_key_set(&mut out, &ids);
    assert(out@ =~= evidence_keys_json(evidence@));
    out
}

/// Why the book refuses a default attestation, if it does. The checks run
/// in this order: an attested default already, the attestation itself, its
/// signer's registration and servicer capability at `now`, the signature
/// under the signer's current key, default evidence derived by this book
/// and named exactly by the attestation at a time between its evaluation
/// and `now`, and replay of the operation id.
pub open spec fn attestation_error(
    s: ServicingState,
    attestation: DefaultAttestation,
    registry: Seq<ProviderDefinition>,
    now: u64,
) -> Option<ServicingError> {
    let pi = provider_index(registry, attestation.provider_id);
    if s.status is Defaulted {
        Some(ServicingError::AlreadyDefaulted)
    } else if !attestation.well_formed() {
        Some(ServicingError::Provider(ProviderError::InvalidDefaultAttestation))
    } else if pi < 0 || !registry[pi].spec_has(ProviderCapability::Servicer, now) {
        Some(ServicingError::NotAServicer)
    } else {
        match spec_verify_key_signature(
            registry[pi].public_key@,
            attestation.spec_statement(),
            attestation.signature@,
        ) {
            Err(e) => Some(ServicingError::Provider(signature_error(e))),
            Ok(()) => match s.default_evidence {
                None => Some(ServicingError::UnsupportedDefault),
                Some(ev) => if attestation.stream_id != ev.stream_id || attestation.event_digest
                    != ev.event_digest || attestation.reason_digest != ev.reason_digest
                    || attestation.observed_at < ev.evaluated_at || attestation.observed_at > now {
                    Some(ServicingError::UnsupportedDefault)
                } else if s.op_used(attestation.operation_id) {
                    Some(ServicingError::Replay)
                } else {
                    None
                },
            },
        }
    }
}

/// The book after an accepted default attestation: the stream is in
/// attested default, and the attestation and its operation id are kept.
pub open spec fn after_attestation(s: ServicingState, attestation: DefaultAttestation) -> ServicingState {
    ServicingState {
        status: StatusView::Defaulted { attestation_id: attestation.attestation_id },
        accepted_attestation: Some(attestation),
        used_operations: s.used_operations.push(attestation.operation_id),
        ..s
    }
}

/// An accepted attestation keeps the invariant.
pub proof fn lemma_attestation_keeps_inv(
    s: ServicingState,
    attestation: DefaultAttestation,
    registry: Seq<ProviderDefinition>,
    now: u64,
)
    requires
        s.inv(),
        attestation_error(s, attestation, registry, now) is None,
    ensures
        after_attestation(s, attestation).inv(),
{
    let s2 = after_attestation(s, attestation);
    assert forall|i: int| 0 <= i < s2.evidence.len() implies #[trigger] s2.evidence_ok(i) by {
        assert(s.evidence_ok(i));
        let w = choose|w: int|
            0 <= w < s.used_operations.len() && s.used_operations[w] == s.evidence[i].operation_id;
        assert(s2.used_operations[w] == s.used_operations[w]);
    }
    assert(s2.used_operations[s.used_operations.len() as int] == attestation.operation_id);
}

/// Storing default evidence of this stream keeps the invariant of a book
/// that holds no attestation.
pub proof fn lemma_store_default_keeps_inv(s: ServicingState, ev: DefaultEvidenceView)
    requires
        s.inv(),
        s.accepted_attestation is None,
        ev.stream_id == s.terms.stream_id,
    ensures
        (ServicingState { default_evidence: Some(ev), ..s }).inv(),
{
    let s2 = ServicingState { default_evidence: Some(ev), ..s };
    assert forall|i: int| 0 <= i < s2.evidence.len() implies #[trigger] s2.evidence_ok(i) by {
        assert(s.evidence_ok(i));
    }
}

/// Derived default evidence names the book's stream.
pub proof fn lemma_derived_stream(s: ServicingState, now: u64)
    ensures
        derived_evidence(s, now).stream_id == s.terms.stream_id,
{
    reveal(derived_evidence);
}

impl ServicingBook {
    /// A book for valid terms, performing, with no evidence yet.
    pub fn new(terms: ServicingTerms) -> (r: Result<Self, ServicingError>)
        ensures
            match r {
                Ok(b) => terms.spec_valid() && b@.inv() && b@.terms == terms && b@.evidence.len()
                    == 0 && b@.status == StatusView::Performing && b@.default_evidence is None
                    && b@.accepted_attestation is None && b@.used_operations.len() == 0,
                Err(e) => !terms.spec_valid() && e == ServicingError::InvalidTerms,
            },
    {
        match terms.validate() {
            Ok(()) => {},
            Err(e) => return Err(e),
        }
        Ok(
            ServicingBook {
                terms,
                evidence: Vec::new(),
                status: ServicingStatus::Performing,
                default_evidence: None,
                accepted_attestation: None,
                used_operations: Vec::new(),
            },
        )
    }

    /// Records an observation. The signer must be a registered servicer or
    /// stream attestor active at `now`; a provider registered under any other
    /// capability is not an observer of payment.
    pub fn record_payment_evidence(
        &mut self,
        evidence: PaymentEvidence,
        registry: &[ProviderDefinition],
        now: u64,
    ) -> (r: Result<Commitment, ServicingError>)
        requires
            old(self)@.inv(),
        ensures
            final(self)@.inv(),
            match evidence_error(old(self)@, evidence, registry@, now) {
                Some(e) => r == Err::<Commitment, ServicingError>(e) && final(self)@ == old(self)@,
                None => r matches Ok(d) && d@ == evidence.spec_statement() && final(self)@
                    == after_evidence(old(self)@, evidence, now),
            },
    {
        let ghost s = self@;
        if matches!(self.status, ServicingStatus::Defaulted { .. }) {
            return Err(ServicingError::AlreadyDefaulted);
        }
        let statement = match evidence.statement() {
            Ok(d) => d,
            Err(e) => return Err(e),
        };
        let provider = match find_provider(registry, &evidence.provider_id) {
            Some(p) => p,
            None => return Err(ServicingError::Provider(ProviderError::UnknownProvider)),
        };
        if !provider.has(ProviderCapability::Servicer, now) && !provider.has(
            ProviderCapability::StreamAttestor,
            now,
        ) {
            return Err(ServicingError::NotAnObserver);
        }
        match provider.verify_new_signature(&statement, evidence.signature.as_slice()) {
            Ok(()) => {},
            Err(e) => return Err(ServicingError::Provider(e)),
        }
        if !same_id(&evidence.stream_id, &self.terms.stream_id) || evidence.observed_at > now {
            return Err(ServicingError::InvalidEvidence);
        }
        if self.terms.installment(evidence.installment_sequence).is_none() {
            return Err(ServicingError::UnknownInstallment);
        }
        if self.find_evidence(&evidence.evidence_id).is_some() || self.operation_used(
            &evidence.operation_id,
        ) {
            return Err(ServicingError::Replay);
        }
        proof {
            lemma_evidence_keeps_inv(s, evidence, registry@, now);
        }
        self.used_operations.push(evidence.operation_id);
        self.evidence.push(evidence);
        self.evaluate(now);
        Ok(statement)
    }

    /// The default evidence the book derives at `now` from the installments
    /// missed then.
    fn derive_evidence(&self, now: u64) -> (r: DefaultEvidence)
        requires
            self@.missed_at(now).len() > 0,
        ensures
            r@ == derived_evidence(self@, now),
    {
        reveal(derived_evidence);
        let missed = self.missed(now);
        let mut missed_sequences: Vec<u64> = Vec::new();
        let mut i: usize = 0;
        while i < missed.len()
            invariant
                i <= missed@.len(),
                missed_sequences@ == sequences(missed@.subrange(0, i as int)),
            decreases missed@.len() - i,
        {
            missed_sequences.push(missed[i].sequence);
            assert(missed_sequences@ =~= sequences(missed@.subrange(0, (i + 1) as int)));
            i = i + 1;
        }
        assert(missed@.subrange(0, missed@.len() as int) =~= missed@);
        let first_due_at = missed[0].due_at;
        let keys = evidence_keys_bytes(&self.evidence);
        let evidence_root = digest("AETHEL:PAYMENT-EVIDENCE:v1".as_bytes(), keys.as_slice());
        let mut event: Vec<u8> = Vec::new();
        push_lit(&mut event, "[");
        assert(event@ =~= lit("["));
        push_id(&mut event, &self.terms.stream_id);
        push_lit(&mut event, ",");
        push_u64_list(&mut event, missed_sequences.as_slice());
        push_lit(&mut event, ",");
        push_u64(&mut event, first_due_at);
        push_lit(&mut event, ",");
        push_u64(&mut event, now);
        push_lit(&mut event, ",");
        push_id(&mut event, &evidence_root);
        push_lit(&mut event, "]");
        let event_digest = digest("AETHEL:DEFAULT-EVENT:v1".as_bytes(), event.as_slice());
        let mut reason: Vec<u8> = Vec::new();
        push_lit(&mut reason, "[\"missed installments beyond grace and cure window\",");
        assert(reason@ =~= lit("[\"missed installments beyond grace and cure window\","));
        push_u64(&mut reason, missed.len() as u64);
        push_lit(&mut reason, ",");
        push_u64(&mut reason, self.terms.grace_seconds);
        push_lit(&mut reason, ",");
        push_u64(&mut reason, self.terms.cure_window_seconds);
        push_lit(&mut reason, "]");
        let reason_digest = digest("AETHEL:DEFAULT-REASON:v1".as_bytes(), reason.as_slice());
        proof {
            lemma_id_of(evidence_root);
            lemma_id_of(event_digest);
            lemma_id_of(reason_digest);
        }
        let evidence = DefaultEvidence {
            stream_id: self.terms.stream_id,
            missed_sequences,
            first_missed_due_at: first_due_at,
            evaluated_at: now,
            evidence_root,
            event_digest,
            reason_digest,
        };
        evidence
    }

    /// Produces the evidence a default may rest on, or refuses when the terms
    /// are not met: too few installments missed, or the cure window still
    /// open. Once produced, the evidence is kept and returned again.
    pub fn default_evidence(&mut self, now: u64) -> (r: Result<DefaultEvidence, ServicingError>)
        requires
            old(self)@.inv(),
        ensures
            final(self)@.inv(),
            match old(self)@.default_evidence {
                Some(ev) => r matches Ok(x) && x@ == ev && final(self)@ == old(self)@,
                None => {
                    let s1 = old(self)@.with_evaluation(now);
                    if default_supported(s1, now) {
                        r matches Ok(x) && x@ == derived_evidence(s1, now) && final(self)@
                            == (ServicingState {
                            default_evidence: Some(derived_evidence(s1, now)),
                            ..s1
                        })
                    } else {
                        r == Err::<DefaultEvidence, ServicingError>(
                            ServicingError::DefaultUnsupported,
                        ) && final(self)@ == s1
                    }
                },
            },
    {
        let ghost s = self@;
        match &self.default_evidence {
            Some(existing) => return Ok(existing.copy()),
            None => {},
        }
        self.evaluate(now);
        proof {
            lemma_evaluation_keeps_inv(s, now);
        }
        let (since, count) = match &self.status {
            ServicingStatus::Delinquent { since, missed } => (*since, missed.len()),
            _ => return Err(ServicingError::DefaultUnsupported),
        };
        if count < self.terms.default_after_missed as usize || now < saturating(
            since,
            self.terms.cure_window_seconds,
        ) {
            return Err(ServicingError::DefaultUnsupported);
        }
        proof {
            assert(self@.missed_at(now).len() == count);
            lemma_derived_stream(self@, now);
            lemma_store_default_keeps_inv(self@, derived_evidence(self@, now));
        }
        let evidence = self.derive_evidence(now);
        let stored = evidence.copy();
        self.default_evidence = Some(stored);
        Ok(evidence)
    }

    /// The unsigned attestation a servicer signs for the stored evidence. The
    /// stream state version and root are those of the stream after its
    /// attestor moved it to `Defaulted`; the servicer supplies them.
    pub fn draft_default_attestation(
        &self,
        operation_id: Identifier,
        attestation_id: Identifier,
        servicer_provider_id: Identifier,
        stream_state_version: u64,
        stream_state_root: Commitment,
        observed_at: u64,
    ) -> (r: Result<DefaultAttestation, ServicingError>)
        ensures
            match self@.default_evidence {
                None => r == Err::<DefaultAttestation, ServicingError>(
                    ServicingError::DefaultUnsupported,
                ),
                Some(ev) => r matches Ok(a) && a.operation_id == operation_id && a.attestation_id
                    == attestation_id && a.provider_id == servicer_provider_id && a.stream_id
                    == ev.stream_id && a.stream_state_version == stream_state_version
                    && a.stream_state_root == stream_state_root && a.event_digest == ev.event_digest
                    && a.reason_digest == ev.reason_digest && a.observed_at == observed_at
                    && a.signature@.len() == 0,
            },
    {
        let evidence = match &self.default_evidence {
            Some(e) => e,
            None => return Err(ServicingError::DefaultUnsupported),
        };
        Ok(
            DefaultAttestation {
                operation_id,
                attestation_id,
                provider_id: servicer_provider_id,
                stream_id: evidence.stream_id,
                stream_state_version,
                stream_state_root,
                event_digest: evidence.event_digest,
                reason_digest: evidence.reason_digest,
                observed_at,
                signature: Vec::new(),
            },
        )
    }

    /// Accepts a signed default attestation. Its signer must be a registered
    /// servicer, and its event and reason digests must be the ones this book
    /// derived from payment evidence; anything else is a self-declared
    /// default and is refused.
    pub fn accept_default_attestation(
        &mut self,
        attestation: DefaultAttestation,
        registry: &[ProviderDefinition],
        now: u64,
    ) -> (r: Result<Commitment, ServicingError>)
        requires
            old(self)@.inv(),
        ensures
            final(self)@.inv(),
            match attestation_error(old(self)@, attestation, registry@, now) {
                Some(e) => r == Err::<Commitment, ServicingError>(e) && final(self)@ == old(self)@,
                None => r matches Ok(d) && d@ == attestation.spec_statement() && final(self)@
                    == after_attestation(old(self)@, attestation),
            },
    {
        let ghost s = self@;
        if matches!(self.status, ServicingStatus::Defaulted { .. }) {
            return Err(ServicingError::AlreadyDefaulted);
        }
        let statement = match attestation.statement() {
            Ok(d) => d,
            Err(e) => return Err(ServicingError::Provider(e)),
        };
        let provider = match find_provider(registry, &attestation.provider_id) {
            Some(p) => p,
            None => return Err(ServicingError::NotAServicer),
        };
        if !provider.has(ProviderCapability::Servicer, now) {
            return Err(ServicingError::NotAServicer);
        }
        match provider.verify_new_signature(&statement, attestation.signature.as_slice()) {
            Ok(()) => {},
            Err(e) => return Err(ServicingError::Provider(e)),
        }
        let evidence = match &self.default_evidence {
            Some(e) => e,
            None => return Err(ServicingError::UnsupportedDefault),
        };
        if !same_id(&attestation.stream_id, &evidence.stream_id) || !same_id(
            &attestation.event_digest,
            &evidence.event_digest,
        ) || !same_id(&attestation.reason_digest, &evidence.reason_digest)
            || attestation.observed_at < evidence.evaluated_at || attestation.observed_at > now {
            return Err(ServicingError::UnsupportedDefault);
        }
        if is_zero_id(&attestation.operation_id) || self.operation_used(&attestation.operation_id) {
            return Err(ServicingError::Replay);
        }
        proof {
            lemma_attestation_keeps_inv(s, attestation, registry@, now);
        }
        self.used_operations.push(attestation.operation_id);
        self.status = ServicingStatus::Defaulted { attestation_id: attestation.attestation_id };
        self.accepted_attestation = Some(attestation);
        Ok(statement)
    }

    /// Whether evidence record `i` is what the invariant says.
    fn evidence_checks(&self, i: usize) -> (r: bool)
        requires
            i < self@.evidence.len(),
        ensures
            r == self@.evidence_ok(i as int),
    {
        let e = &self.evidence[i];
        e.check() && same_id(&e.stream_id, &self.terms.stream_id) && self.terms.installment(
            e.installment_sequence,
        ).is_some() && self.operation_used(&e.operation_id)
    }

    /// Whether the status, default evidence, and accepted attestation agree.
    fn attestation_checks(&self) -> (r: bool)
        ensures
            r == self@.attestation_ok(),
    {
        match (&self.status, &self.default_evidence, &self.accepted_attestation) {
            (ServicingStatus::Defaulted { attestation_id }, Some(ev), Some(att)) => {
                att.statement().is_ok() && same_id(&att.attestation_id, attestation_id) && same_id(
                    &att.event_digest,
                    &ev.event_digest,
                ) && same_id(&att.reason_digest, &ev.reason_digest) && same_id(
                    &ev.stream_id,
                    &self.terms.stream_id,
                ) && self.operation_used(&att.operation_id)
            },
            (ServicingStatus::Defaulted { .. }, _, _) => false,
            (_, _, Some(_)) => false,
            _ => true,
        }
    }

    /// Checks the book's records: valid terms; every evidence record once,
    /// well formed, observing this stream and one of its installments under
    /// a consumed operation id; and an attested default exactly when an
    /// attestation naming this book's default evidence is held.
    ///
    /// The checks run in this order, and the first that fails gives the
    /// error: the terms (`InvalidTerms`); each evidence record, first as an
    /// artifact (`InvalidEvidence`), then against the book (`InvalidState`);
    /// and last the attestation, as an artifact, then against the book.
    pub fn validate(&self) -> (r: Result<(), ServicingError>)
        ensures
            r is Ok <==> self@.records_valid(),
            !self@.terms.spec_valid() ==> r == Err::<(), ServicingError>(
                ServicingError::InvalidTerms,
            ),
            ({
                &&& self@.terms.spec_valid()
                &&& self@.evidence_unique()
                &&& exists|i: int|
                    0 <= i < self@.evidence.len() && !(#[trigger] self@.evidence[i]).well_formed()
                &&& forall|i: int|
                    0 <= i < self@.evidence.len() && (#[trigger] self@.evidence[i]).well_formed()
                        ==> self@.evidence_ok(i)
            }) ==> r == Err::<(), ServicingError>(ServicingError::InvalidEvidence),
            ({
                &&& self@.terms.spec_valid()
                &&& forall|i: int|
                    0 <= i < self@.evidence.len() ==> (#[trigger] self@.evidence[i]).well_formed()
                &&& !(self@.evidence_unique() && forall|i: int|
                    0 <= i < self@.evidence.len() ==> #[trigger] self@.evidence_ok(i))
            }) ==> r == Err::<(), ServicingError>(ServicingError::InvalidState),
            ({
                &&& self@.terms.spec_valid()
                &&& self@.evidence_unique()
                &&& forall|i: int| 0 <= i < self@.evidence.len() ==> #[trigger] self@.evidence_ok(i)
            }) ==> r == self@.attestation_result(),
    {
        let ghost s = self@;
        match self.terms.validate() {
            Ok(()) => {},
            Err(e) => return Err(e),
        }
        let mut i: usize = 0;
        while i < self.evidence.len()
            invariant
                s == self@,
                s.terms.spec_valid(),
                i <= s.evidence.len(),
                forall|a: int, b: int|
                    0 <= a < b < i ==> (#[trigger] s.evidence[a]).evidence_id != (
                    #[trigger] s.evidence[b]).evidence_id,
                forall|j: int| 0 <= j < i ==> #[trigger] s.evidence_ok(j),
            decreases s.evidence.len() - i,
        {
            let id = self.evidence[i].evidence_id;
            match self.find_evidence(&id) {
                Some(j) => if j != i {
                    proof {
                        lemma_first_match(s.evidence, evidence_has_id(id));
                        assert(s.evidence[j as int].evidence_id == id);
                    }
                    return Err(ServicingError::InvalidState);
                },
                None => {
                    proof {
                        lemma_first_match(s.evidence, evidence_has_id(id));
                    }
                },
            }
            proof {
                lemma_first_match(s.evidence, evidence_has_id(id));
                assert forall|a: int| 0 <= a < i implies (s.evidence[a]).evidence_id != id by {
                    assert(!evidence_has_id(id)(s.evidence[a]));
                }
            }
            if !self.evidence[i].check() {
                assert(!s.evidence_ok(i as int));
                return Err(ServicingError::InvalidEvidence);
            }
            if !self.evidence_checks(i) {
                return Err(ServicingError::InvalidState);
            }
            i = i + 1;
        }
        assert forall|j: int| 0 <= j < s.evidence.len() implies (#[trigger] s.evidence[j]).well_formed() by {
            assert(s.evidence_ok(j));
        }
        match (&self.status, &self.default_evidence, &self.accepted_attestation) {
            (ServicingStatus::Defaulted { .. }, Some(_), Some(att)) => {
                if att.statement().is_err() {
                    return Err(ServicingError::Provider(ProviderError::InvalidDefaultAttestation));
                }
            },
            _ => {},
        }
        if !self.attestation_checks() {
            return Err(ServicingError::InvalidState);
        }
        Ok(())
    }
}

pub open spec fn servicing_book_domain() -> Seq<u8> {
    lit("AETHEL:SERVICING-BOOK:v1")
}

impl DueInstallment {
    pub open spec fn json(self) -> Seq<u8> {
        lit("{\"sequence\":") + dec(self.sequence as nat) + lit(",\"dueAt\":") + dec(
            self.due_at as nat,
        ) + lit(",\"units\":") + dec(self.units as nat) + lit("}")
    }
}

impl ServicingTerms {
    pub open spec fn json(&self) -> Seq<u8> {
        lit("{\"streamId\":") + json_id(self.stream_id) + lit(",\"schedule\":") + json_list(
            self.schedule@,
            |d: DueInstallment| d.json(),
        ) + lit(",\"graceSeconds\":") + dec(self.grace_seconds as nat) + lit(
            ",\"cureWindowSeconds\":",
        ) + dec(self.cure_window_seconds as nat) + lit(",\"defaultAfterMissed\":") + dec(
            self.default_after_missed as nat,
        ) + lit("}")
    }

    pub fn json_bytes(&self) -> (r: Vec<u8>)
        ensures
            r@ == self.json(),
    {
        let ghost enc = |d: DueInstallment| d.json();
        let mut list: Vec<u8> = Vec::new();
        list.push(91u8);
        let mut i: usize = 0;
        while i < self.schedule.len()
            invariant
                i <= self.schedule@.len(),
                enc == (|d: DueInstallment| d.json()),
                list@ == seq![91u8] + items(self.schedule@.subrange(0, i as int), enc),
            decreases self.schedule@.len() - i,
        {
            proof {
                lemma_items_step(self.schedule@, i as int, enc);
            }
            if i > 0 {
                list.push(44u8);
            }
            let d = self.schedule[i];
            let mut one: Vec<u8> = Vec::new();
            push_lit(&mut one, "{\"sequence\":");
            assert(one@ =~= lit("{\"sequence\":"));
            push_u64(&mut one, d.sequence);
            push_lit(&mut one, ",\"dueAt\":");
            push_u64(&mut one, d.due_at);
            push_lit(&mut one, ",\"units\":");
            push_u64(&mut one, d.units);
            push_lit(&mut one, "}");
            push_all(&mut list, one.as_slice());
            assert(list@ =~= seq![91u8] + items(self.schedule@.subrange(0, (i + 1) as int), enc));
            i = i + 1;
        }
        assert(self.schedule@.subrange(0, self.schedule@.len() as int) =~= self.schedule@);
        list.push(93u8);
        let mut out: Vec<u8> = Vec::new();
        push_lit(&mut out, "{\"streamId\":");
        assert(out@ =~= lit("{\"streamId\":"));
        push_id(&mut out, &self.stream_id);
        push_lit(&mut out, ",\"schedule\":");
        push_all(&mut out, list.as_slice());
        push_lit(&mut out, ",\"graceSeconds\":");
        push_u64(&mut out, self.grace_seconds);
        push_lit(&mut out, ",\"cureWindowSeconds\":");
        push_u64(&mut out, self.cure_window_seconds);
        push_lit(&mut out, ",\"defaultAfterMissed\":");
        push_u64(&mut out, self.default_after_missed as u64);
        push_lit(&mut out, "}");
        assert(out@ =~= self.json());
        out
    }
}

impl PaymentEvidence {
    /// The evidence with its signature.
    pub open spec fn json(&self) -> Seq<u8> {
        lit("{\"evidenceId\":") + json_id(self.evidence_id) + lit(",\"operationId\":") + json_id(
            self.operation_id,
        ) + lit(",\"providerId\":") + json_id(self.provider_id) + lit(",\"streamId\":") + json_id(
            self.stream_id,
        ) + lit(",\"installmentSequence\":") + dec(self.installment_sequence as nat) + lit(
            ",\"paidUnits\":",
        ) + dec(self.paid_units as nat) + lit(",\"observedAt\":") + dec(self.observed_at as nat)
            + lit(",\"sourceEvidenceDigest\":") + json_id(self.source_evidence_digest) + lit(
            ",\"signature\":",
        ) + json_bytes(self.signature@) + lit("}")
    }

    pub fn json_bytes(&self) -> (r: Vec<u8>)
        ensures
            r@ == self.json(),
    {
        let mut out: Vec<u8> = Vec::new();
        push_lit(&mut out, "{\"evidenceId\":");
        assert(out@ =~= lit("{\"evidenceId\":"));
        push_id(&mut out, &self.evidence_id);
        push_lit(&mut out, ",\"operationId\":");
        push_id(&mut out, &self.operation_id);
        push_lit(&mut out, ",\"providerId\":");
        push_id(&mut out, &self.provider_id);
        push_lit(&mut out, ",\"streamId\":");
        push_id(&mut out, &self.stream_id);
        push_lit(&mut out, ",\"installmentSequence\":");
        push_u64(&mut out, self.installment_sequence);
        push_lit(&mut out, ",\"paidUnits\":");
        push_u64(&mut out, self.paid_units);
        push_lit(&mut out, ",\"observedAt\":");
        push_u64(&mut out, self.observed_at);
        push_lit(&mut out, ",\"sourceEvidenceDigest\":");
        push_id(&mut out, &self.source_evidence_digest);
        push_lit(&mut out, ",\"signature\":");
        push_byte_list(&mut out, self.signature.as_slice());
        push_lit(&mut out, "}");
        out
    }
}

impl ServicingStatus {
    pub fn push_json(&self, out: &mut Vec<u8>)
        ensures
            final(out)@ == old(out)@ + self@.json(),
    {
        let mut part: Vec<u8> = Vec::new();
        match self {
            ServicingStatus::Performing => push_lit(&mut part, "{\"state\":\"performing\"}"),
            ServicingStatus::Delinquent { since, missed } => {
                push_lit(&mut part, "{\"state\":\"delinquent\",\"since\":");
                assert(part@ =~= lit("{\"state\":\"delinquent\",\"since\":"));
                push_u64(&mut part, *since);
                push_lit(&mut part, ",\"missed\":");
                push_u64_list(&mut part, missed.as_slice());
                push_lit(&mut part, "}");
            },
            ServicingStatus::Cured { at } => {
                push_lit(&mut part, "{\"state\":\"cured\",\"at\":");
                assert(part@ =~= lit("{\"state\":\"cured\",\"at\":"));
                push_u64(&mut part, *at);
                push_lit(&mut part, "}");
            },
            ServicingStatus::Defaulted { attestation_id } => {
                push_lit(&mut part, "{\"state\":\"defaulted\",\"attestation_id\":");
                assert(part@ =~= lit("{\"state\":\"defaulted\",\"attestation_id\":"));
                push_id(&mut part, attestation_id);
                push_lit(&mut part, "}");
            },
        }
        assert(part@ =~= self@.json());
        push_all(out, part.as_slice());
    }
}

impl DefaultEvidenceView {
    pub open spec fn json(self) -> Seq<u8> {
        lit("{\"streamId\":") + json_id(self.stream_id) + lit(",\"missedSequences\":") + json_u64s(
            self.missed_sequences,
        ) + lit(",\"firstMissedDueAt\":") + dec(self.first_missed_due_at as nat) + lit(
            ",\"evaluatedAt\":",
        ) + dec(self.evaluated_at as nat) + lit(",\"evidenceRoot\":") + json_id(
            self.evidence_root,
        ) + lit(",\"eventDigest\":") + json_id(self.event_digest) + lit(",\"reasonDigest\":")
            + json_id(self.reason_digest) + lit("}")
    }
}

impl DefaultEvidence {
    pub fn push_json(&self, out: &mut Vec<u8>)
        ensures
            final(out)@ == old(out)@ + self@.json(),
    {
        let mut part: Vec<u8> = Vec::new();
        push_lit(&mut part, "{\"streamId\":");
        assert(part@ =~= lit("{\"streamId\":"));
        push_id(&mut part, &self.stream_id);
        push_lit(&mut part, ",\"missedSequences\":");
        push_u64_list(&mut part, self.missed_sequences.as_slice());
        push_lit(&mut part, ",\"firstMissedDueAt\":");
        push_u64(&mut part, self.first_missed_due_at);
        push_lit(&mut part, ",\"evaluatedAt\":");
        push_u64(&mut part, self.evaluated_at);
        push_lit(&mut part, ",\"evidenceRoot\":");
        push_id(&mut part, &self.evidence_root);
        push_lit(&mut part, ",\"eventDigest\":");
        push_id(&mut part, &self.event_digest);
        push_lit(&mut part, ",\"reasonDigest\":");
        push_id(&mut part, &self.reason_digest);
        push_lit(&mut part, "}");
        assert(part@ =~= self@.json());
        push_all(out, part.as_slice());
    }
}

/// A default attestation with its signature.
pub open spec fn attestation_json(a: DefaultAttestation) -> Seq<u8> {
    lit("{\"operationId\":") + json_id(a.operation_id) + lit(",\"attestationId\":") + json_id(
        a.attestation_id,
    ) + lit(",\"providerId\":") + json_id(a.provider_id) + lit(",\"streamId\":") + json_id(
        a.stream_id,
    ) + lit(",\"streamStateVersion\":") + dec(a.stream_state_version as nat) + lit(
        ",\"streamStateRoot\":",
    ) + json_id(a.stream_state_root) + lit(",\"eventDigest\":") + json_id(a.event_digest) + lit(
        ",\"reasonDigest\":",
    ) + json_id(a.reason_digest) + lit(",\"observedAt\":") + dec(a.observed_at as nat) + lit(
        ",\"signature\":",
    ) + json_bytes(a.signature@) + lit("}")
}

fn push_attestation_json(out: &mut Vec<u8>, a: &DefaultAttestation)
    ensures
        final(out)@ == old(out)@ + attestation_json(*a),
{
    let mut part: Vec<u8> = Vec::new();
    push_lit(&mut part, "{\"operationId\":");
    assert(part@ =~= lit("{\"operationId\":"));
    push_id(&mut part, &a.operation_id);
    push_lit(&mut part, ",\"attestationId\":");
    push_id(&mut part, &a.attestation_id);
    push_lit(&mut part, ",\"providerId\":");
    push_id(&mut part, &a.provider_id);
    push_lit(&mut part, ",\"streamId\":");
    push_id(&mut part, &a.stream_id);
    push_lit(&mut part, ",\"streamStateVersion\":");
    push_u64(&mut part, a.stream_state_version);
    push_lit(&mut part, ",\"streamStateRoot\":");
    push_id(&mut part, &a.stream_state_root);
    push_lit(&mut part, ",\"eventDigest\":");
    push_id(&mut part, &a.event_digest);
    push_lit(&mut part, ",\"reasonDigest\":");
    push_id(&mut part, &a.reason_digest);
    push_lit(&mut part, ",\"observedAt\":");
    push_u64(&mut part, a.observed_at);
    push_lit(&mut part, ",\"signature\":");
    push_byte_list(&mut part, a.signature.as_slice());
    push_lit(&mut part, "}");
    assert(part@ =~= attestation_json(*a));
    push_all(out, part.as_slice());
}

/// The canonical JSON form of the book: the terms, the evidence keyed by id
/// in ascending order, the status, the default evidence and accepted
/// attestation when present, and the consumed operation ids as a sorted
/// list.
pub open spec fn book_json(s: ServicingState) -> Seq<u8> {
    lit("{\"terms\":") + s.terms.json() + lit(",\"evidence\":") + json_object(
        s.evidence.map_values(|e: PaymentEvidence| e.evidence_id),
        s.evidence.map_values(|e: PaymentEvidence| e.json()),
    ) + lit(",\"status\":") + s.status.json() + match s.default_evidence {
        Some(ev) => lit(",\"defaultEvidence\":") + ev.json(),
        None => Seq::empty(),
    } + match s.accepted_attestation {
        Some(a) => lit(",\"acceptedAttestation\":") + attestation_json(a),
        None => Seq::empty(),
    } + lit(",\"usedOperations\":") + json_key_set(s.used_operations) + lit("}")
}

impl ServicingBook {
    /// The evidence ids and their encodings, in record order.
    fn evidence_entries(&self) -> (r: (Vec<Identifier>, Vec<Vec<u8>>))
        ensures
            r.0@ == self@.evidence.map_values(|e: PaymentEvidence| e.evidence_id),
            views(r.1@) == self@.evidence.map_values(|e: PaymentEvidence| e.json()),
            r.0@.len() == r.1@.len(),
    {
        let ghost s = self@;
        let ghost evidence_key = |e: PaymentEvidence| e.evidence_id;
        let ghost evidence_enc = |e: PaymentEvidence| e.json();
        let mut ids: Vec<Identifier> = Vec::new();
        let mut values: Vec<Vec<u8>> = Vec::new();
        let mut i: usize = 0;
        while i < self.evidence.len()
            invariant
                s == self@,
                i <= s.evidence.len(),
                evidence_key == (|e: PaymentEvidence| e.evidence_id),
                evidence_enc == (|e: PaymentEvidence| e.json()),
                ids@ == s.evidence.subrange(0, i as int).map_values(evidence_key),
                views(values@) == s.evidence.subrange(0, i as int).map_values(evidence_enc),
            decreases s.evidence.len() - i,
        {
            let v = self.evidence[i].json_bytes();
            proof {
                lemma_map_prefix_push(ids@, self.evidence[i as int].evidence_id, s.evidence, i as int, evidence_key);
                lemma_views_push(values@, v);
                lemma_map_prefix_push(views(values@), v@, s.evidence, i as int, evidence_enc);
            }
            ids.push(self.evidence[i].evidence_id);
            values.push(v);
            i = i + 1;
        }
        proof {
            lemma_map_full(s.evidence, evidence_key);
            lemma_map_full(s.evidence, evidence_enc);
        }
        (ids, values)
    }

    /// The JSON form of the book.
    fn json_bytes(&self) -> (r: Vec<u8>)
        ensures
            r@ == book_json(self@),
    {
        let ghost s = self@;
        let (ids, values) = self.evidence_entries();
        let mut out: Vec<u8> = Vec::new();
        push_lit(&mut out, "{\"terms\":");
        assert(out@ =~= lit("{\"terms\":"));
        let terms = self.terms.json_bytes();
        push_all(&mut out, terms.as_slice());
        push_lit(&mut out, ",\"evidence\":");
        write_object(&mut out, &ids, &values);
        push_lit(&mut out, ",\"status\":");
        self.status.push_json(&mut out);
        let mut default_part: Vec<u8> = Vec::new();
        match &self.default_evidence {
            Some(ev) => {
                push_lit(&mut default_part, ",\"defaultEvidence\":");
                ev.push_json(&mut default_part);
            },
            None => {},
        }
        assert(default_part@ =~= match s.default_evidence {
            Some(ev) => lit(",\"defaultEvidence\":") + ev.json(),
            None => Seq::<u8>::empty(),
        });
        push_all(&mut out, default_part.as_slice());
        let mut attestation_part: Vec<u8> = Vec::new();
        match &self.accepted_attestation {
            Some(a) => {
                push_lit(&mut attestation_part, ",\"acceptedAttestation\":");
                push_attestation_json(&mut attestation_part, a);
            },
            None => {},
        }
        assert(attestation_part@ =~= match s.accepted_attestation {
            Some(a) => lit(",\"acceptedAttestation\":") + attestation_json(a),
            None => Seq::<u8>::empty(),
        });
        push_all(&mut out, attestation_part.as_slice());
        push_lit(&mut out, ",\"usedOperations\":");
        write_key_set(&mut out, &self.used_operations);
        push_lit(&mut out, "}");
        assert(out@ =~= book_json(s));
        out
    }

    /// The digest of the book's canonical form, once the book validates and
    /// lists each consumed operation id once.
    pub fn root(&self) -> (r: Result<Commitment, ServicingError>)
        ensures
            match r {
                Ok(d) => self@.records_valid() && ids_distinct(self@.used_operations) && d@
                    == spec_digest(servicing_book_domain(), book_json(self@)),
                Err(_) => !(self@.records_valid() && ids_distinct(self@.used_operations)),
            },
    {
        match self.validate() {
            Ok(()) => {},
            Err(e) => return Err(e),
        }
        if !distinct_ids(&self.used_operations) {
            return Err(ServicingError::InvalidState);
        }
        let out = self.json_bytes();
        Ok(digest("AETHEL:SERVICING-BOOK:v1".as_bytes(), out.as_slice()))
    }
}

/// Only a servicer or a stream attestor observes payment: accepted payment
/// evidence was signed, under its current key, by a registered provider
/// holding one of those two capabilities at `now`.
pub proof fn law_only_observers_record_payment(
    s: ServicingState,
    evidence: PaymentEvidence,
    registry: Seq<ProviderDefinition>,
    now: u64,
)
    requires
        evidence_error(s, evidence, registry, now) is None,
    ensures
        ({
            let pi = provider_index(registry, evidence.provider_id);
            &&& 0 <= pi < registry.len()
            &&& (registry[pi].spec_has(ProviderCapability::Servicer, now) || registry[pi].spec_has(
                ProviderCapability::StreamAttestor,
                now,
            ))
            &&& spec_verify_key_signature(
                registry[pi].public_key@,
                evidence.spec_statement(),
                evidence.signature@,
            ) is Ok
        }),
{
    lemma_first_match(registry, crate::provider::provider_has_id(evidence.provider_id));
}

/// A default attestation is accepted only from a servicer and only for the
/// evidence this book derived: its signer holds the servicer capability at
/// `now`, and its stream, event, and reason digests are those of the
/// book's default evidence.
pub proof fn law_default_only_from_servicer_for_derived_evidence(
    s: ServicingState,
    attestation: DefaultAttestation,
    registry: Seq<ProviderDefinition>,
    now: u64,
)
    requires
        attestation_error(s, attestation, registry, now) is None,
    ensures
        ({
            let pi = provider_index(registry, attestation.provider_id);
            &&& 0 <= pi < registry.len()
            &&& registry[pi].spec_has(ProviderCapability::Servicer, now)
            &&& s.default_evidence matches Some(ev) && ev.stream_id == attestation.stream_id
                && ev.event_digest == attestation.event_digest && ev.reason_digest
                == attestation.reason_digest
        }),
{
    lemma_first_match(registry, crate::provider::provider_has_id(attestation.provider_id));
}

/// An attested default is terminal: the status no longer changes with the
/// evidence, and neither evidence nor another attestation is accepted.
pub proof fn law_default_is_terminal(
    s: ServicingState,
    now: u64,
    evidence: PaymentEvidence,
    attestation: DefaultAttestation,
    registry: Seq<ProviderDefinition>,
)
    requires
        s.status is Defaulted,
    ensures
        s.with_evaluation(now) == s,
        evidence_error(s, evidence, registry, now) == Some(ServicingError::AlreadyDefaulted),
        attestation_error(s, attestation, registry, now) == Some(
            ServicingError::AlreadyDefaulted,
        ),
{
}

/// Re-deriving the status twice at the same time gives what re-deriving it
/// once gives.
pub proof fn law_evaluation_is_idempotent(s: ServicingState, now: u64)
    ensures
        s.with_evaluation(now).with_evaluation(now) == s.with_evaluation(now),
{
}

/// Delinquency cures on payment: a delinquent stream with nothing missed at
/// `now` is cured at `now`, and a stream with a missed installment is
/// delinquent since the first one's grace end unless it is in attested
/// default.
pub proof fn law_delinquency_follows_missed_installments(s: ServicingState, now: u64)
    ensures
        (s.status is Delinquent) && s.missed_at(now).len() == 0 ==> s.evaluated(now) == (
        StatusView::Cured { at: now }),
        !(s.status is Defaulted) && s.missed_at(now).len() > 0 ==> s.evaluated(now) == (
        StatusView::Delinquent {
            since: sat_add(s.missed_at(now)[0].due_at, s.terms.grace_seconds),
            missed: sequences(s.missed_at(now)),
        }),
{
}

/// The missed installments of `xs` are exactly those of `xs` that are
/// missed.
proof fn lemma_missed_list_members(
    evidence: Seq<PaymentEvidence>,
    grace: u64,
    xs: Seq<DueInstallment>,
    now: u64,
    d: DueInstallment,
)
    ensures
        missed_list(evidence, grace, xs, now).contains(d) <==> xs.contains(d) && is_missed(
            evidence,
            grace,
            d,
            now,
        ),
    decreases xs.len(),
{
    if xs.len() > 0 {
        let rest = xs.drop_last();
        lemma_missed_list_members(evidence, grace, rest, now, d);
        let m = missed_list(evidence, grace, rest, now);
        assert(xs =~= rest.push(xs.last()));
        if xs.contains(d) {
            let k = choose|k: int| 0 <= k < xs.len() && xs[k] == d;
            if k < rest.len() {
                assert(rest[k] == d);
            }
        }
        if rest.contains(d) {
            let k = choose|k: int| 0 <= k < rest.len() && rest[k] == d;
            assert(xs[k] == d);
        }
        if is_missed(evidence, grace, xs.last(), now) {
            assert(m.push(xs.last())[m.len() as int] == xs.last());
            if m.contains(d) {
                let k = choose|k: int| 0 <= k < m.len() && m[k] == d;
                assert(m.push(xs.last())[k] == d);
            }
            if m.push(xs.last()).contains(d) {
                let k = choose|k: int| 0 <= k < m.len() + 1 && m.push(xs.last())[k] == d;
                if k < m.len() {
                    assert(m[k] == d);
                }
            }
        }
    }
}

/// An installment is missed at `now` exactly when it is in the schedule, its
/// grace period ended before `now`, and the units observed paid against it
/// fall short of its scheduled units; a partial payment does not count as
/// payment.
pub proof fn law_an_installment_is_missed_exactly_when_underpaid_after_its_grace(
    s: ServicingState,
    now: u64,
    d: DueInstallment,
)
    ensures
        s.missed_at(now).contains(d) <==> ({
            &&& s.terms.schedule@.contains(d)
            &&& d.due_at + s.terms.grace_seconds < now
            &&& s.paid_total(d.sequence) < d.units
        }),
{
    lemma_missed_list_members(s.evidence, s.terms.grace_seconds, s.terms.schedule@, now, d);
}

/// No evidence, nothing paid.
pub proof fn law_without_evidence_nothing_is_paid(s: ServicingState, sequence: u64)
    requires
        s.evidence.len() == 0,
    ensures
        s.paid_total(sequence) == 0,
{
}

/// Recording payment evidence adds its units to what is paid against its
/// installment and to nothing else.
pub proof fn law_recorded_evidence_pays_its_installment(
    s: ServicingState,
    evidence: PaymentEvidence,
    now: u64,
    sequence: u64,
)
    ensures
        after_evidence(s, evidence, now).paid_total(sequence) == s.paid_total(sequence) + if evidence.installment_sequence
            == sequence {
            evidence.paid_units as int
        } else {
            0int
        },
{
    crate::seqs::lemma_sum_push(s.evidence, evidence, paid_in(sequence));
}

/// A stream not in attested default with an installment underpaid past its
/// grace is evaluated delinquent, that installment among those missed.
pub proof fn law_an_underpaid_installment_past_grace_makes_the_stream_delinquent(
    s: ServicingState,
    now: u64,
    d: DueInstallment,
)
    requires
        !(s.status is Defaulted),
        s.terms.schedule@.contains(d),
        d.due_at + s.terms.grace_seconds < now,
        s.paid_total(d.sequence) < d.units,
    ensures
        s.evaluated(now) matches StatusView::Delinquent { missed, .. } && missed.contains(d.sequence),
{
    law_an_installment_is_missed_exactly_when_underpaid_after_its_grace(s, now, d);
    let m = s.missed_at(now);
    let k = choose|k: int| 0 <= k < m.len() && m[k] == d;
    assert(sequences(m)[k] == d.sequence);
}

/// A stream with no installment underpaid past its grace is not evaluated
/// delinquent.
pub proof fn law_a_stream_with_nothing_underpaid_past_grace_is_not_delinquent(s: ServicingState, now: u64)
    requires
        forall|d: DueInstallment|
            #[trigger] s.terms.schedule@.contains(d) && d.due_at + s.terms.grace_seconds < now
                ==> s.paid_total(d.sequence) >= d.units,
    ensures
        !(s.evaluated(now) is Delinquent),
{
    let m = s.missed_at(now);
    if m.len() > 0 {
        law_an_installment_is_missed_exactly_when_underpaid_after_its_grace(s, now, m[0]);
        assert(m.contains(m[0]));
    }
}

} // verus!
