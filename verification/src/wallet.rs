//! The obligor's side of a stream.
//!
//! An obligation wallet knows the payment schedule it owes, the bounded
//! pre-authorizations under which payments may be signed, and the state of
//! every payment it has sent: pending, in flight, retrying, acknowledged, or
//! abandoned. It keeps a durable outbound queue with at-least-once delivery
//! and idempotent acknowledgement, and reconciles against receipts from the
//! authoritative side.
//!
//! The wallet is not a ledger: the only paid amount it reports is the sum of
//! receipts it reconciled.
//!
//! Payment keys are hybrid signature keys of the identity layer. Whether a
//! key record is well formed, whether it is usable at an instant, and whether
//! a signature verifies under it are that layer's answers; the wallet takes
//! them as inputs and decides everything else.

use vstd::prelude::*;

use crate::canon::{dec, json_id, lit, push_id, push_lit, push_u64};
use crate::receivable::bytes_equal;
use crate::order::{id_less, id_lt};
use crate::tokenization::{distinct_ids, ids_distinct};
use crate::seqs::{first_match, lemma_first_match, lemma_first_match_step, lemma_full_prefix, sum_of};
use crate::types::{
    digest, hex_chars, id_key, lemma_id_of, is_zero, is_zero_id, same_id, spec_digest, spec_valid_time,
    spec_valid_window, valid_time, valid_window, Commitment, Identifier,
};

verus! {

broadcast use vstd::array::group_array_axioms;

/// Why the wallet refused an operation.
#[derive(Clone, Copy, Debug, PartialEq, Eq, Structural)]
pub enum WalletError {
    Encoding,
    InvalidState,
    InvalidSchedule,
    UnknownInstallment,
    InstallmentAlreadyQueued,
    InvalidAuthorization,
    AuthorizationMismatch,
    UnknownAuthorization,
    ExceedsAuthorization,
    OutsideValidityWindow,
    InvalidPayment,
    ScheduleMismatch,
    InvalidSignature,
    UnknownPayment,
    NotReady,
    InvalidReceipt,
    InvalidRetryPolicy,
    Replay,
    ArithmeticOverflow,
}

pub open spec fn payment_domain() -> Seq<u8> {
    lit("AETHEL:OBLIGOR-PAYMENT:v1")
}

#[derive(Clone, Copy, Debug, PartialEq, Eq, Structural)]
pub struct Installment {
    pub sequence: u64,
    pub due_at: u64,
    pub units: u64,
}

/// The schedule the obligor owes on one stream, in settlement-asset units.
#[derive(Clone, Debug, PartialEq, Eq)]
pub struct PaymentSchedule {
    pub stream_id: Identifier,
    pub obligor_commitment: Commitment,
    pub payee_commitment: Commitment,
    pub settlement_asset_id: Identifier,
    pub installments: Vec<Installment>,
}

/// Installment `i` carries sequence `i + 1`, units, and a valid due time;
/// due times strictly increase.
pub open spec fn installments_ok(s: Seq<Installment>) -> bool {
    &&& forall|i: int|
        0 <= i < s.len() ==> (#[trigger] s[i]).sequence == i + 1 && s[i].units != 0
            && spec_valid_time(s[i].due_at)
    &&& forall|i: int, j: int| 0 <= i < j < s.len() ==> (#[trigger] s[i]).due_at < (#[trigger] s[j]).due_at
}

pub open spec fn has_sequence(sequence: u64) -> spec_fn(Installment) -> bool {
    |d: Installment| d.sequence == sequence
}

/// The installments of `xs` due in `[from, until]`, in order.
pub open spec fn due_within(xs: Seq<Installment>, from: u64, until: u64) -> Seq<Installment>
    decreases xs.len(),
{
    if xs.len() == 0 {
        Seq::empty()
    } else {
        let rest = due_within(xs.drop_last(), from, until);
        if from <= xs.last().due_at && xs.last().due_at <= until {
            rest.push(xs.last())
        } else {
            rest
        }
    }
}

/// Units of an installment.
pub open spec fn units_of() -> spec_fn(Installment) -> nat {
    |d: Installment| d.units as nat
}

impl PaymentSchedule {
    pub open spec fn spec_valid(&self) -> bool {
        &&& !is_zero(self.stream_id)
        &&& !is_zero(self.obligor_commitment)
        &&& !is_zero(self.payee_commitment)
        &&& !is_zero(self.settlement_asset_id)
        &&& self.obligor_commitment != self.payee_commitment
        &&& self.installments@.len() != 0
        &&& installments_ok(self.installments@)
    }

    pub fn validate(&self) -> (r: Result<(), WalletError>)
        ensures
            r is Ok <==> self.spec_valid(),
            r matches Err(e) ==> e == WalletError::InvalidSchedule,
    {
        if is_zero_id(&self.stream_id) || is_zero_id(&self.obligor_commitment) || is_zero_id(
            &self.payee_commitment,
        ) || is_zero_id(&self.settlement_asset_id) || same_id(
            &self.obligor_commitment,
            &self.payee_commitment,
        ) || self.installments.len() == 0 {
            return Err(WalletError::InvalidSchedule);
        }
        let s = &self.installments;
        let mut i: usize = 0;
        while i < s.len()
            invariant
                i <= s@.len(),
                s@ == self.installments@,
                forall|j: int|
                    0 <= j < i ==> (#[trigger] s@[j]).sequence == j + 1 && s@[j].units != 0
                        && spec_valid_time(s@[j].due_at),
                forall|a: int, b: int| 0 <= a < b < i ==> (#[trigger] s@[a]).due_at < (#[trigger] s@[b]).due_at,
            decreases s@.len() - i,
        {
            let expected: usize = i + 1;
            let d = s[i];
            if d.sequence != expected as u64 || d.units == 0 || !valid_time(d.due_at) || (i > 0
                && s[i - 1].due_at >= d.due_at) {
                return Err(WalletError::InvalidSchedule);
            }
            proof {
                assert forall|a: int, b: int| 0 <= a < b < i + 1 implies (#[trigger] s@[a]).due_at < (
                #[trigger] s@[b]).due_at by {
                    if b == i && a < i - 1 {
                        assert(s@[a].due_at < s@[i - 1].due_at);
                    }
                }
            }
            i = i + 1;
        }
        Ok(())
    }

    /// Position of the installment with the sequence, or -1.
    pub open spec fn installment_index(&self, sequence: u64) -> int {
        first_match(self.installments@, has_sequence(sequence))
    }

    pub fn installment(&self, sequence: u64) -> (r: Option<&Installment>)
        ensures
            match r {
                Some(d) => self.installment_index(sequence) >= 0 && *d
                    == self.installments@[self.installment_index(sequence)],
                None => self.installment_index(sequence) == -1,
            },
    {
        let ghost q = has_sequence(sequence);
        let mut i: usize = 0;
        while i < self.installments.len()
            invariant
                i <= self.installments@.len(),
                q == has_sequence(sequence),
                first_match(self.installments@.subrange(0, i as int), q) == -1,
            decreases self.installments@.len() - i,
        {
            proof {
                lemma_first_match_step(self.installments@, i as int, q);
            }
            if self.installments[i].sequence == sequence {
                proof {
                    crate::provider::lemma_first_match_prefix_stop(
                        self.installments@,
                        i as int,
                        q,
                    );
                }
                return Some(&self.installments[i]);
            }
            i = i + 1;
        }
        proof {
            lemma_full_prefix(self.installments@);
        }
        None
    }

    /// Installments due in `[from, until]`, in schedule order.
    pub fn projection(&self, from: u64, until: u64) -> (r: Vec<Installment>)
        ensures
            r@ == due_within(self.installments@, from, until),
    {
        let s = &self.installments;
        let mut out: Vec<Installment> = Vec::new();
        let mut i: usize = 0;
        while i < s.len()
            invariant
                i <= s@.len(),
                out@ == due_within(s@.subrange(0, i as int), from, until),
            decreases s@.len() - i,
        {
            proof {
                assert(s@.subrange(0, i + 1).drop_last() =~= s@.subrange(0, i as int));
            }
            let d = s[i];
            if from <= d.due_at && d.due_at <= until {
                out.push(d);
            }
            i = i + 1;
        }
        proof {
            lemma_full_prefix(s@);
        }
        out
    }

    /// The units of the whole schedule, unless they pass the integer range.
    pub fn total_units(&self) -> (r: Result<u64, WalletError>)
        ensures
            r matches Ok(t) ==> t as nat == sum_of(self.installments@, units_of()),
            r is Err <==> sum_of(self.installments@, units_of()) > u64::MAX,
            r matches Err(e) ==> e == WalletError::ArithmeticOverflow,
    {
        let ghost f = units_of();
        let s = &self.installments;
        let mut total: u64 = 0;
        let mut i: usize = 0;
        while i < s.len()
            invariant
                i <= s@.len(),
                f == units_of(),
                s@ == self.installments@,
                total as nat == sum_of(s@.subrange(0, i as int), f),
            decreases s@.len() - i,
        {
            proof {
                crate::seqs::lemma_sum_step(s@, i as int, f);
                assert(f(s@[i as int]) == s@[i as int].units);
            }
            match total.checked_add(s[i].units) {
                Some(t) => total = t,
                None => {
                    proof {
                        assert(f(s@[i as int]) == s@[i as int].units);
                        crate::seqs::lemma_sum_prefix_le(s@, (i + 1) as int, f);
                        assert(sum_of(s@, f) > u64::MAX);
                    }
                    return Err(WalletError::ArithmeticOverflow);
                },
            }
            i = i + 1;
        }
        proof {
            lemma_full_prefix(s@);
        }
        Ok(total)
    }
}

/// Exponential backoff with a ceiling on both the delay and the attempts.
#[derive(Clone, Copy, Debug, PartialEq, Eq, Structural)]
pub struct RetryPolicy {
    pub max_attempts: u32,
    pub base_delay_seconds: u64,
    pub max_delay_seconds: u64,
}

impl RetryPolicy {
    pub open spec fn spec_valid(self) -> bool {
        &&& self.max_attempts != 0
        &&& self.base_delay_seconds != 0
        &&& self.max_delay_seconds >= self.base_delay_seconds
    }

    pub fn validate(&self) -> (r: Result<(), WalletError>)
        ensures
            r is Ok <==> self.spec_valid(),
            r matches Err(e) ==> e == WalletError::InvalidRetryPolicy,
    {
        if self.max_attempts == 0 || self.base_delay_seconds == 0 || self.max_delay_seconds
            < self.base_delay_seconds {
            return Err(WalletError::InvalidRetryPolicy);
        }
        Ok(())
    }

    /// How many times the base delay doubles before attempt `attempts + 1`:
    /// one less than the attempts made, none before the first.
    pub open spec fn backoff_exponent(attempts: u32) -> nat {
        if attempts == 0 {
            0
        } else {
            (attempts - 1) as nat
        }
    }

    /// The delay before attempt `attempts + 1`: exponential backoff from the
    /// base delay, with the maximum delay as its ceiling.
    pub open spec fn spec_delay_after(self, attempts: u32) -> u64 {
        let d = doubled(self.base_delay_seconds as int, Self::backoff_exponent(attempts));
        if d < self.max_delay_seconds {
            d as u64
        } else {
            self.max_delay_seconds
        }
    }

    /// Delay before attempt number `attempts + 1`.
    pub fn delay_after(&self, attempts: u32) -> (r: u64)
        ensures
            r == self.spec_delay_after(attempts),
    {
        let base = self.base_delay_seconds;
        let max = self.max_delay_seconds;
        let n: u32 = if attempts == 0 {
            0
        } else {
            attempts - 1
        };
        proof {
            lemma_doubled_nonnegative(base as int, n as nat);
        }
        if base == 0 {
            proof {
                lemma_doubled_zero(n as nat);
            }
            return 0;
        }
        let mut d: u64 = base;
        let mut i: u32 = 0;
        while i < n && d < max
            invariant
                i <= n,
                base >= 1,
                n as nat == Self::backoff_exponent(attempts),
                max == self.max_delay_seconds,
                base == self.base_delay_seconds,
                d < max ==> d == doubled(base as int, i as nat),
                d >= max ==> doubled(base as int, i as nat) >= max,
            decreases n - i,
        {
            proof {
                lemma_doubled_nonnegative(base as int, i as nat);
            }
            if d > u64::MAX / 2 {
                d = max;
            } else {
                d = d * 2;
            }
            i = i + 1;
        }
        proof {
            lemma_doubled_monotone(base as int, i as nat, n as nat);
        }
        if d < max {
            d
        } else {
            max
        }
    }
}

/// `x` doubled `n` times.
pub open spec fn doubled(x: int, n: nat) -> int
    decreases n,
{
    if n == 0 {
        x
    } else {
        2 * doubled(x, (n - 1) as nat)
    }
}

/// Doubling keeps a non-negative value non-negative.
pub proof fn lemma_doubled_nonnegative(x: int, n: nat)
    requires
        x >= 0,
    ensures
        doubled(x, n) >= 0,
    decreases n,
{
    if n > 0 {
        lemma_doubled_nonnegative(x, (n - 1) as nat);
    }
}

/// Zero doubled stays zero.
pub proof fn lemma_doubled_zero(n: nat)
    ensures
        doubled(0, n) == 0,
    decreases n,
{
    if n > 0 {
        lemma_doubled_zero((n - 1) as nat);
    }
}

/// Doubling more often gives no less.
pub proof fn lemma_doubled_monotone(x: int, m: nat, n: nat)
    requires
        x >= 0,
        m <= n,
    ensures
        doubled(x, m) <= doubled(x, n),
    decreases n,
{
    if m < n {
        lemma_doubled_monotone(x, m, (n - 1) as nat);
        lemma_doubled_nonnegative(x, (n - 1) as nat);
    }
}

/// One payment the obligor is asked to sign.
#[derive(Clone, Copy, Debug, PartialEq, Eq)]
pub struct PaymentRequest {
    pub payment_id: Identifier,
    pub stream_id: Identifier,
    pub installment_sequence: u64,
    pub units: u64,
    pub obligor_commitment: Commitment,
    pub payee_commitment: Commitment,
    pub settlement_asset_id: Identifier,
    pub due_at: u64,
    pub authorization_id: Identifier,
}

impl PaymentRequest {
    pub open spec fn well_formed(self) -> bool {
        &&& !is_zero(self.payment_id)
        &&& !is_zero(self.stream_id)
        &&& !is_zero(self.obligor_commitment)
        &&& !is_zero(self.payee_commitment)
        &&& !is_zero(self.settlement_asset_id)
        &&& !is_zero(self.authorization_id)
        &&& self.installment_sequence != 0
        &&& self.units != 0
        &&& spec_valid_time(self.due_at)
    }

    pub open spec fn encoding(self) -> Seq<u8> {
        lit("{\"paymentId\":") + json_id(self.payment_id) + lit(",\"streamId\":") + json_id(
            self.stream_id,
        ) + lit(",\"installmentSequence\":") + dec(self.installment_sequence as nat) + lit(
            ",\"units\":",
        ) + dec(self.units as nat) + lit(",\"obligorCommitment\":") + json_id(
            self.obligor_commitment,
        ) + lit(",\"payeeCommitment\":") + json_id(self.payee_commitment) + lit(
            ",\"settlementAssetId\":",
        ) + json_id(self.settlement_asset_id) + lit(",\"dueAt\":") + dec(self.due_at as nat) + lit(
            ",\"authorizationId\":",
        ) + json_id(self.authorization_id) + lit("}")
    }

    pub open spec fn spec_statement(self) -> Seq<u8> {
        spec_digest(payment_domain(), self.encoding())
    }

    pub fn statement(&self) -> (r: Result<Commitment, WalletError>)
        ensures
            r matches Ok(d) ==> self.well_formed() && d@ == self.spec_statement(),
            r matches Err(e) ==> !self.well_formed() && e == WalletError::InvalidPayment,
    {
        if is_zero_id(&self.payment_id) || is_zero_id(&self.stream_id) || is_zero_id(
            &self.obligor_commitment,
        ) || is_zero_id(&self.payee_commitment) || is_zero_id(&self.settlement_asset_id)
            || is_zero_id(&self.authorization_id) || self.installment_sequence == 0 || self.units
            == 0 || !valid_time(self.due_at) {
            return Err(WalletError::InvalidPayment);
        }
        let mut out: Vec<u8> = Vec::new();
        push_lit(&mut out, "{\"paymentId\":");
        assert(out@ =~= lit("{\"paymentId\":"));
        push_id(&mut out, &self.payment_id);
        push_lit(&mut out, ",\"streamId\":");
        push_id(&mut out, &self.stream_id);
        push_lit(&mut out, ",\"installmentSequence\":");
        push_u64(&mut out, self.installment_sequence);
        push_lit(&mut out, ",\"units\":");
        push_u64(&mut out, self.units);
        push_lit(&mut out, ",\"obligorCommitment\":");
        push_id(&mut out, &self.obligor_commitment);
        push_lit(&mut out, ",\"payeeCommitment\":");
        push_id(&mut out, &self.payee_commitment);
        push_lit(&mut out, ",\"settlementAssetId\":");
        push_id(&mut out, &self.settlement_asset_id);
        push_lit(&mut out, ",\"dueAt\":");
        push_u64(&mut out, self.due_at);
        push_lit(&mut out, ",\"authorizationId\":");
        push_id(&mut out, &self.authorization_id);
        push_lit(&mut out, "}");
        Ok(digest("AETHEL:OBLIGOR-PAYMENT:v1".as_bytes(), out.as_slice()))
    }
}

/// Whether two payment requests are the same.
pub fn same_payment(a: &PaymentRequest, b: &PaymentRequest) -> (r: bool)
    ensures
        r == (*a == *b),
{
    same_id(&a.payment_id, &b.payment_id) && same_id(&a.stream_id, &b.stream_id)
        && a.installment_sequence == b.installment_sequence && a.units == b.units && same_id(
        &a.obligor_commitment,
        &b.obligor_commitment,
    ) && same_id(&a.payee_commitment, &b.payee_commitment) && same_id(
        &a.settlement_asset_id,
        &b.settlement_asset_id,
    ) && a.due_at == b.due_at && same_id(&a.authorization_id, &b.authorization_id)
}

/// The hybrid key a pre-authorization lets sign payments, as plain values.
/// `record_valid` is the identity layer's verdict on the key record;
/// `hybrid_suite` and `settlement_purpose` say whether the record names the
/// payment suite and the settlement-instruction purpose.
#[derive(Clone, Debug, PartialEq, Eq)]
pub struct PaymentKey {
    pub participant_id: String,
    pub key_id: String,
    pub key_version: u32,
    pub hybrid_suite: bool,
    pub settlement_purpose: bool,
    pub record_valid: bool,
    pub public_key: Vec<u8>,
    pub not_before: u64,
    pub not_after: u64,
    pub revoked_at: Option<u64>,
}

/// A standing, bounded permission to sign payments to one payee. Nothing can
/// be signed above the per-payment ceiling or above the period ceiling
/// counted over all payments enqueued in one period.
#[derive(Clone, Debug, PartialEq, Eq)]
pub struct PreAuthorization {
    pub authorization_id: Identifier,
    pub stream_id: Identifier,
    pub obligor_commitment: Commitment,
    pub payee_commitment: Commitment,
    pub settlement_asset_id: Identifier,
    pub payment_key: PaymentKey,
    pub per_payment_ceiling: u64,
    pub period_ceiling: u64,
    pub period_seconds: u64,
    pub valid_from: u64,
    pub valid_until: u64,
}

impl PreAuthorization {
    /// Every identifier set, ceilings that nest, a period, a window, and a
    /// valid payment key of the obligor for settlement instructions.
    pub open spec fn spec_valid(&self) -> bool {
        &&& !is_zero(self.authorization_id)
        &&& !is_zero(self.stream_id)
        &&& !is_zero(self.obligor_commitment)
        &&& !is_zero(self.payee_commitment)
        &&& !is_zero(self.settlement_asset_id)
        &&& self.per_payment_ceiling != 0
        &&& self.period_ceiling >= self.per_payment_ceiling
        &&& self.period_seconds != 0
        &&& spec_valid_window(self.valid_from, self.valid_until)
        &&& self.payment_key.record_valid
        &&& self.payment_key.hybrid_suite
        &&& self.payment_key.settlement_purpose
        &&& self.payment_key.participant_id@ == hex_chars(self.obligor_commitment@)
    }

    pub fn validate(&self) -> (r: Result<(), WalletError>)
        ensures
            r is Ok <==> self.spec_valid(),
            r matches Err(e) ==> e == WalletError::InvalidAuthorization,
    {
        if is_zero_id(&self.authorization_id) || is_zero_id(&self.stream_id) || is_zero_id(
            &self.obligor_commitment,
        ) || is_zero_id(&self.payee_commitment) || is_zero_id(&self.settlement_asset_id)
            || self.per_payment_ceiling == 0 || self.period_ceiling < self.per_payment_ceiling
            || self.period_seconds == 0 || !valid_window(self.valid_from, self.valid_until) {
            return Err(WalletError::InvalidAuthorization);
        }
        if !self.payment_key.record_valid {
            return Err(WalletError::InvalidAuthorization);
        }
        let owner = id_key(&self.obligor_commitment);
        if !self.payment_key.hybrid_suite || !self.payment_key.settlement_purpose
            || self.payment_key.participant_id != owner {
            return Err(WalletError::InvalidAuthorization);
        }
        Ok(())
    }

    /// Why the authorization does not permit the payment at `now`, if it
    /// does not: another authorization, stream, party, or asset; a time
    /// outside its window or a key not usable then; or units above the
    /// per-payment ceiling.
    pub open spec fn permits_error(
        &self,
        payment: PaymentRequest,
        key_usable: bool,
        now: u64,
    ) -> Option<WalletError> {
        if payment.authorization_id != self.authorization_id || payment.stream_id
            != self.stream_id || payment.obligor_commitment != self.obligor_commitment
            || payment.payee_commitment != self.payee_commitment || payment.settlement_asset_id
            != self.settlement_asset_id {
            Some(WalletError::AuthorizationMismatch)
        } else if now < self.valid_from || now > self.valid_until || !key_usable {
            Some(WalletError::OutsideValidityWindow)
        } else if payment.units > self.per_payment_ceiling {
            Some(WalletError::ExceedsAuthorization)
        } else {
            None
        }
    }

    fn permits(&self, payment: &PaymentRequest, key_usable: bool, now: u64) -> (r: Result<
        (),
        WalletError,
    >)
        ensures
            match self.permits_error(*payment, key_usable, now) {
                Some(e) => r == Err::<(), WalletError>(e),
                None => r is Ok,
            },
    {
        if !same_id(&payment.authorization_id, &self.authorization_id) || !same_id(
            &payment.stream_id,
            &self.stream_id,
        ) || !same_id(&payment.obligor_commitment, &self.obligor_commitment) || !same_id(
            &payment.payee_commitment,
            &self.payee_commitment,
        ) || !same_id(&payment.settlement_asset_id, &self.settlement_asset_id) {
            return Err(WalletError::AuthorizationMismatch);
        }
        if now < self.valid_from || now > self.valid_until || !key_usable {
            return Err(WalletError::OutsideValidityWindow);
        }
        if payment.units > self.per_payment_ceiling {
            return Err(WalletError::ExceedsAuthorization);
        }
        Ok(())
    }

    /// The period an instant falls in, counted from the window's start.
    pub open spec fn spec_period_index(&self, at: u64) -> u64 {
        if at < self.valid_from {
            0
        } else {
            ((at - self.valid_from) / (self.period_seconds as int)) as u64
        }
    }

    fn period_index(&self, at: u64) -> (r: u64)
        requires
            self.period_seconds != 0,
        ensures
            r == self.spec_period_index(at),
    {
        if at < self.valid_from {
            0
        } else {
            (at - self.valid_from) / self.period_seconds
        }
    }
}

/// A payment signed by the obligor's key.
#[derive(Clone, Debug, PartialEq, Eq)]
pub struct SignedPayment {
    pub payment: PaymentRequest,
    pub key_id: String,
    pub key_version: u32,
    pub signature: Vec<u8>,
}

/// Whether two signed payments are the same.
pub fn same_signed(a: &SignedPayment, b: &SignedPayment) -> (r: bool)
    ensures
        r == (a.payment == b.payment && a.key_id@ == b.key_id@ && a.key_version == b.key_version
            && a.signature@ == b.signature@),
{
    same_payment(&a.payment, &b.payment) && a.key_id == b.key_id && a.key_version == b.key_version
        && bytes_equal(a.signature.as_slice(), b.signature.as_slice())
}

impl SignedPayment {
    /// Why the payment does not verify under the authorization at `now`, if
    /// it does not. `key_usable` is whether the authorization's key is
    /// usable at `now`, and `signature_valid` whether the signature verifies
    /// under it; both are the identity layer's answers.
    pub open spec fn verify_error(
        &self,
        authorization: PreAuthorization,
        key_usable: bool,
        signature_valid: bool,
        now: u64,
    ) -> Option<WalletError> {
        if !self.payment.well_formed() {
            Some(WalletError::InvalidPayment)
        } else if !authorization.spec_valid() {
            Some(WalletError::InvalidAuthorization)
        } else if authorization.permits_error(self.payment, key_usable, now) is Some {
            authorization.permits_error(self.payment, key_usable, now)
        } else if self.key_id@ != authorization.payment_key.key_id@ || self.key_version
            != authorization.payment_key.key_version || !signature_valid {
            Some(WalletError::InvalidSignature)
        } else {
            None
        }
    }

    /// Checks the payment against its authorization at `now` and returns its
    /// statement.
    pub fn verify(
        &self,
        authorization: &PreAuthorization,
        key_usable: bool,
        signature_valid: bool,
        now: u64,
    ) -> (r: Result<Commitment, WalletError>)
        ensures
            match self.verify_error(*authorization, key_usable, signature_valid, now) {
                Some(e) => r == Err::<Commitment, WalletError>(e),
                None => r matches Ok(d) && d@ == self.payment.spec_statement(),
            },
    {
        let statement = match self.payment.statement() {
            Ok(d) => d,
            Err(e) => return Err(e),
        };
        match authorization.validate() {
            Ok(()) => {},
            Err(e) => return Err(e),
        }
        match authorization.permits(&self.payment, key_usable, now) {
            Ok(()) => {},
            Err(e) => return Err(e),
        }
        if self.key_id != authorization.payment_key.key_id || self.key_version
            != authorization.payment_key.key_version || !signature_valid {
            return Err(WalletError::InvalidSignature);
        }
        Ok(statement)
    }
}

/// What a signer is handed: the payment, the statement to sign, when it
/// was prepared, and the key that must sign it.
#[derive(Clone, Debug, PartialEq, Eq)]
pub struct SigningRequest {
    pub payment: PaymentRequest,
    pub statement: Commitment,
    pub created_at: u64,
    pub payment_key: PaymentKey,
}

/// Two key records with the same fields.
pub open spec fn same_key(a: PaymentKey, b: PaymentKey) -> bool {
    &&& a.participant_id@ == b.participant_id@
    &&& a.key_id@ == b.key_id@
    &&& a.key_version == b.key_version
    &&& a.hybrid_suite == b.hybrid_suite
    &&& a.settlement_purpose == b.settlement_purpose
    &&& a.record_valid == b.record_valid
    &&& a.public_key@ == b.public_key@
    &&& a.not_before == b.not_before
    &&& a.not_after == b.not_after
    &&& a.revoked_at == b.revoked_at
}

fn copy_bytes(v: &Vec<u8>) -> (r: Vec<u8>)
    ensures
        r@ == v@,
{
    let mut out: Vec<u8> = Vec::new();
    let mut i: usize = 0;
    while i < v.len()
        invariant
            i <= v@.len(),
            out@ == v@.subrange(0, i as int),
        decreases v@.len() - i,
    {
        proof {
            assert(v@.subrange(0, i + 1) =~= v@.subrange(0, i as int).push(v@[i as int]));
        }
        out.push(v[i]);
        i = i + 1;
    }
    proof {
        lemma_full_prefix(v@);
    }
    out
}

impl PaymentKey {
    /// A copy of the key record.
    pub fn copy(&self) -> (r: PaymentKey)
        ensures
            same_key(r, *self),
    {
        PaymentKey {
            participant_id: self.participant_id.clone(),
            key_id: self.key_id.clone(),
            key_version: self.key_version,
            hybrid_suite: self.hybrid_suite,
            settlement_purpose: self.settlement_purpose,
            record_valid: self.record_valid,
            public_key: copy_bytes(&self.public_key),
            not_before: self.not_before,
            not_after: self.not_after,
            revoked_at: self.revoked_at,
        }
    }
}

/// Where a queued payment stands.
#[derive(Clone, Copy, Debug, PartialEq, Eq)]
pub enum QueueStatus {
    Pending,
    InFlight { attempt: u32, submitted_at: u64 },
    RetryScheduled { attempts: u32, next_attempt_at: u64, last_failure_digest: Commitment },
    Acknowledged { receipt_digest: Commitment, settled_units: u64, finalized_at: u64 },
    Abandoned { attempts: u32, last_failure_digest: Commitment },
}

/// A signed payment in the outbound queue.
#[derive(Clone, Debug, PartialEq, Eq)]
pub struct QueueEntry {
    pub payment: SignedPayment,
    pub statement: Commitment,
    pub status: QueueStatus,
    pub enqueued_at: u64,
}

/// Every entry but an abandoned one still stands for its installment.
pub open spec fn is_live(e: QueueEntry) -> bool {
    !(e.status is Abandoned)
}

#[derive(Clone, Copy, Debug, PartialEq, Eq, Structural)]
pub enum EnqueueOutcome {
    Accepted,
    /// The same payment was already queued; nothing changed.
    Duplicate,
}

/// What the authoritative side reports for one payment.
#[derive(Clone, Copy, Debug, PartialEq, Eq)]
pub struct SettlementReceipt {
    pub payment_id: Identifier,
    pub receipt_digest: Commitment,
    pub settled_units: u64,
    pub finalized_at: u64,
}

#[derive(Clone, Copy, Debug, PartialEq, Eq, Structural)]
pub enum Reconciliation {
    Matched,
    /// The same receipt was already applied; nothing changed.
    AlreadyReconciled,
    /// The authoritative side settled a different amount. The wallet records
    /// nothing: the discrepancy is for the obligor to resolve upstream.
    UnitsMismatch { expected: u64, settled: u64 },
    UnknownPayment,
}

/// The obligor's wallet for one schedule: the pre-authorizations it holds,
/// its outbound queue, and the receipts it reconciled. Each authorization,
/// queue entry and receipt is found by its identifier.
#[derive(Debug)]
pub struct ObligationWallet {
    pub schedule: PaymentSchedule,
    pub retry: RetryPolicy,
    pub authorizations: Vec<PreAuthorization>,
    pub queue: Vec<QueueEntry>,
    pub receipts: Vec<SettlementReceipt>,
}

/// The mathematical content of an [`ObligationWallet`].
pub struct WalletState {
    pub schedule: PaymentSchedule,
    pub retry: RetryPolicy,
    pub authorizations: Seq<PreAuthorization>,
    pub queue: Seq<QueueEntry>,
    pub receipts: Seq<SettlementReceipt>,
}

impl View for ObligationWallet {
    type V = WalletState;

    open spec fn view(&self) -> WalletState {
        WalletState {
            schedule: self.schedule,
            retry: self.retry,
            authorizations: self.authorizations@,
            queue: self.queue@,
            receipts: self.receipts@,
        }
    }
}

pub open spec fn authorization_has_id(id: Identifier) -> spec_fn(PreAuthorization) -> bool {
    |a: PreAuthorization| a.authorization_id == id
}

pub open spec fn entry_has_id(id: Identifier) -> spec_fn(QueueEntry) -> bool {
    |e: QueueEntry| e.payment.payment.payment_id == id
}

pub open spec fn receipt_has_id(id: Identifier) -> spec_fn(SettlementReceipt) -> bool {
    |r: SettlementReceipt| r.payment_id == id
}

impl WalletState {
    pub open spec fn authorization_index(self, id: Identifier) -> int {
        first_match(self.authorizations, authorization_has_id(id))
    }

    pub open spec fn entry_index(self, id: Identifier) -> int {
        first_match(self.queue, entry_has_id(id))
    }

    pub open spec fn receipt_index(self, id: Identifier) -> int {
        first_match(self.receipts, receipt_has_id(id))
    }

    /// Every stored authorization has a period to count its ceiling over.
    pub open spec fn periods_set(self) -> bool {
        forall|i: int|
            0 <= i < self.authorizations.len() ==> (#[trigger] self.authorizations[i]).period_seconds
                != 0
    }
}

impl ObligationWallet {
    /// A wallet for a valid schedule and retry policy, with nothing in it.
    pub fn new(schedule: PaymentSchedule, retry: RetryPolicy) -> (r: Result<ObligationWallet, WalletError>)
        ensures
            !schedule.spec_valid() ==> r == Err::<ObligationWallet, WalletError>(
                WalletError::InvalidSchedule,
            ),
            schedule.spec_valid() && !retry.spec_valid() ==> r == Err::<ObligationWallet, WalletError>(
                WalletError::InvalidRetryPolicy,
            ),
            schedule.spec_valid() && retry.spec_valid() ==> (r matches Ok(w) && w.schedule
                == schedule && w.retry == retry && w.authorizations@.len() == 0 && w.queue@.len()
                == 0 && w.receipts@.len() == 0),
    {
        match schedule.validate() {
            Ok(()) => {},
            Err(e) => return Err(e),
        }
        match retry.validate() {
            Ok(()) => {},
            Err(e) => return Err(e),
        }
        Ok(ObligationWallet {
            schedule,
            retry,
            authorizations: Vec::new(),
            queue: Vec::new(),
            receipts: Vec::new(),
        })
    }

    fn find_authorization(&self, id: &Identifier) -> (r: Option<usize>)
        ensures
            match r {
                Some(i) => i as int == self@.authorization_index(*id) && i < self.authorizations@.len(),
                None => self@.authorization_index(*id) == -1,
            },
    {
        let ghost q = authorization_has_id(*id);
        let mut i: usize = 0;
        while i < self.authorizations.len()
            invariant
                i <= self.authorizations@.len(),
                q == authorization_has_id(*id),
                first_match(self.authorizations@.subrange(0, i as int), q) == -1,
            decreases self.authorizations@.len() - i,
        {
            proof {
                lemma_first_match_step(self.authorizations@, i as int, q);
            }
            if same_id(&self.authorizations[i].authorization_id, id) {
                proof {
                    crate::provider::lemma_first_match_prefix_stop(self.authorizations@, i as int, q);
                }
                return Some(i);
            }
            i = i + 1;
        }
        proof {
            lemma_full_prefix(self.authorizations@);
        }
        None
    }

    fn find_entry(&self, id: &Identifier) -> (r: Option<usize>)
        ensures
            match r {
                Some(i) => i as int == self@.entry_index(*id) && i < self.queue@.len(),
                None => self@.entry_index(*id) == -1,
            },
    {
        let ghost q = entry_has_id(*id);
        let mut i: usize = 0;
        while i < self.queue.len()
            invariant
                i <= self.queue@.len(),
                q == entry_has_id(*id),
                first_match(self.queue@.subrange(0, i as int), q) == -1,
            decreases self.queue@.len() - i,
        {
            proof {
                lemma_first_match_step(self.queue@, i as int, q);
            }
            if same_id(&self.queue[i].payment.payment.payment_id, id) {
                proof {
                    crate::provider::lemma_first_match_prefix_stop(self.queue@, i as int, q);
                }
                return Some(i);
            }
            i = i + 1;
        }
        proof {
            lemma_full_prefix(self.queue@);
        }
        None
    }

    fn find_receipt(&self, id: &Identifier) -> (r: Option<usize>)
        ensures
            match r {
                Some(i) => i as int == self@.receipt_index(*id) && i < self.receipts@.len(),
                None => self@.receipt_index(*id) == -1,
            },
    {
        let ghost q = receipt_has_id(*id);
        let mut i: usize = 0;
        while i < self.receipts.len()
            invariant
                i <= self.receipts@.len(),
                q == receipt_has_id(*id),
                first_match(self.receipts@.subrange(0, i as int), q) == -1,
            decreases self.receipts@.len() - i,
        {
            proof {
                lemma_first_match_step(self.receipts@, i as int, q);
            }
            if same_id(&self.receipts[i].payment_id, id) {
                proof {
                    crate::provider::lemma_first_match_prefix_stop(self.receipts@, i as int, q);
                }
                return Some(i);
            }
            i = i + 1;
        }
        proof {
            lemma_full_prefix(self.receipts@);
        }
        None
    }

    /// The queue entry of a payment.
    pub fn entry(&self, payment_id: &Identifier) -> (r: Result<&QueueEntry, WalletError>)
        ensures
            match r {
                Ok(e) => self@.entry_index(*payment_id) >= 0 && *e == self@.queue[self@.entry_index(
                    *payment_id,
                )],
                Err(e) => self@.entry_index(*payment_id) == -1 && e == WalletError::UnknownPayment,
            },
    {
        match self.find_entry(payment_id) {
            Some(i) => Ok(&self.queue[i]),
            None => Err(WalletError::UnknownPayment),
        }
    }
}

/// The units an entry counts against the period ceiling of authorization
/// `auth_id` in `period`: a live entry of that authorization enqueued in the
/// period counts its units.
pub open spec fn spent_in(a: PreAuthorization, auth_id: Identifier, period: u64) -> spec_fn(
    QueueEntry,
) -> nat {
    |e: QueueEntry|
        if is_live(e) && e.payment.payment.authorization_id == auth_id && a.spec_period_index(
            e.enqueued_at,
        ) == period {
            e.payment.payment.units as nat
        } else {
            0
        }
}

/// The payment of an installment under an authorization.
pub open spec fn payment_for(
    s: WalletState,
    d: Installment,
    sequence: u64,
    authorization_id: Identifier,
    payment_id: Identifier,
) -> PaymentRequest {
    PaymentRequest {
        payment_id,
        stream_id: s.schedule.stream_id,
        installment_sequence: sequence,
        units: d.units,
        obligor_commitment: s.schedule.obligor_commitment,
        payee_commitment: s.schedule.payee_commitment,
        settlement_asset_id: s.schedule.settlement_asset_id,
        due_at: d.due_at,
        authorization_id,
    }
}

impl WalletState {
    /// The units queued under authorization `a` (named `auth_id`) in `period`.
    pub open spec fn period_spent(self, a: PreAuthorization, auth_id: Identifier, period: u64) -> nat {
        sum_of(self.queue, spent_in(a, auth_id, period))
    }

    /// Whether another live payment already stands for the installment.
    pub open spec fn installment_taken(self, payment: PaymentRequest) -> bool {
        exists|i: int|
            0 <= i < self.queue.len() && is_live(#[trigger] self.queue[i])
                && self.queue[i].payment.payment.installment_sequence
                == payment.installment_sequence && self.queue[i].payment.payment.payment_id
                != payment.payment_id
    }

    /// Why the payment would break its authorization's bounds at `now`, if
    /// it would: an unknown authorization, one that does not permit it, the
    /// period ceiling counted over the live payments of the period, or an
    /// installment another live payment already stands for.
    pub open spec fn bounds_error(self, payment: PaymentRequest, key_usable: bool, now: u64) -> Option<
        WalletError,
    > {
        let ai = self.authorization_index(payment.authorization_id);
        if ai < 0 {
            Some(WalletError::UnknownAuthorization)
        } else {
            let a = self.authorizations[ai];
            let spent = self.period_spent(a, payment.authorization_id, a.spec_period_index(now));
            if a.permits_error(payment, key_usable, now) is Some {
                a.permits_error(payment, key_usable, now)
            } else if spent + payment.units > u64::MAX {
                Some(WalletError::ArithmeticOverflow)
            } else if spent + payment.units > a.period_ceiling {
                Some(WalletError::ExceedsAuthorization)
            } else if self.installment_taken(payment) {
                Some(WalletError::InstallmentAlreadyQueued)
            } else {
                None
            }
        }
    }

    /// Why the wallet would not prepare the payment of installment
    /// `sequence` under `authorization_id`, if it would not.
    pub open spec fn prepare_error(
        self,
        sequence: u64,
        authorization_id: Identifier,
        payment_id: Identifier,
        key_usable: bool,
        now: u64,
    ) -> Option<WalletError> {
        let ii = self.schedule.installment_index(sequence);
        if ii < 0 {
            Some(WalletError::UnknownInstallment)
        } else {
            let p = payment_for(
                self,
                self.schedule.installments@[ii],
                sequence,
                authorization_id,
                payment_id,
            );
            if !p.well_formed() {
                Some(WalletError::InvalidPayment)
            } else {
                self.bounds_error(p, key_usable, now)
            }
        }
    }

    /// Why the wallet refuses an authorization, if it does.
    pub open spec fn add_authorization_error(self, a: PreAuthorization, key_usable: bool) -> Option<
        WalletError,
    > {
        if !a.spec_valid() {
            Some(WalletError::InvalidAuthorization)
        } else if a.stream_id != self.schedule.stream_id || a.obligor_commitment
            != self.schedule.obligor_commitment || a.payee_commitment
            != self.schedule.payee_commitment || a.settlement_asset_id
            != self.schedule.settlement_asset_id {
            Some(WalletError::AuthorizationMismatch)
        } else if !key_usable {
            Some(WalletError::OutsideValidityWindow)
        } else if self.authorization_index(a.authorization_id) >= 0 {
            Some(WalletError::Replay)
        } else {
            None
        }
    }
}

fn entry_is_live(e: &QueueEntry) -> (r: bool)
    ensures
        r == is_live(*e),
{
    match e.status {
        QueueStatus::Abandoned { .. } => false,
        _ => true,
    }
}

impl ObligationWallet {
    /// Adds a pre-authorization for this schedule. `key_usable` is whether
    /// its payment key is usable now.
    pub fn add_authorization(&mut self, authorization: PreAuthorization, key_usable: bool) -> (r:
        Result<(), WalletError>)
        ensures
            match old(self)@.add_authorization_error(authorization, key_usable) {
                Some(e) => r == Err::<(), WalletError>(e) && final(self)@ == old(self)@,
                None => r is Ok && final(self)@ == (WalletState {
                    authorizations: old(self)@.authorizations.push(authorization),
                    ..old(self)@
                }),
            },
    {
        match authorization.validate() {
            Ok(()) => {},
            Err(e) => return Err(e),
        }
        if !same_id(&authorization.stream_id, &self.schedule.stream_id) || !same_id(
            &authorization.obligor_commitment,
            &self.schedule.obligor_commitment,
        ) || !same_id(&authorization.payee_commitment, &self.schedule.payee_commitment)
            || !same_id(&authorization.settlement_asset_id, &self.schedule.settlement_asset_id) {
            return Err(WalletError::AuthorizationMismatch);
        }
        if !key_usable {
            return Err(WalletError::OutsideValidityWindow);
        }
        if self.find_authorization(&authorization.authorization_id).is_some() {
            return Err(WalletError::Replay);
        }
        self.authorizations.push(authorization);
        Ok(())
    }

    /// The units queued under `a` (named `auth_id`) in `period`, unless they
    /// pass the integer range.
    fn spent_in_period(&self, a: &PreAuthorization, auth_id: &Identifier, period: u64) -> (r: Option<u64>)
        requires
            a.period_seconds != 0,
        ensures
            match r {
                Some(t) => t as nat == self@.period_spent(*a, *auth_id, period),
                None => self@.period_spent(*a, *auth_id, period) > u64::MAX,
            },
    {
        let ghost f = spent_in(*a, *auth_id, period);
        let mut spent: u64 = 0;
        let mut i: usize = 0;
        while i < self.queue.len()
            invariant
                i <= self.queue@.len(),
                a.period_seconds != 0,
                f == spent_in(*a, *auth_id, period),
                spent as nat == sum_of(self.queue@.subrange(0, i as int), f),
            decreases self.queue@.len() - i,
        {
            proof {
                crate::seqs::lemma_sum_step(self.queue@, i as int, f);
            }
            let e = &self.queue[i];
            if entry_is_live(e) && same_id(&e.payment.payment.authorization_id, auth_id)
                && a.period_index(e.enqueued_at) == period {
                match spent.checked_add(e.payment.payment.units) {
                    Some(t) => spent = t,
                    None => {
                        proof {
                            crate::seqs::lemma_sum_prefix_le(self.queue@, (i + 1) as int, f);
                        }
                        return None;
                    },
                }
            }
            i = i + 1;
        }
        proof {
            lemma_full_prefix(self.queue@);
        }
        Some(spent)
    }

    /// Whether another live payment already stands for the installment.
    fn installment_taken(&self, payment: &PaymentRequest) -> (r: bool)
        ensures
            r == self@.installment_taken(*payment),
    {
        let mut j: usize = 0;
        while j < self.queue.len()
            invariant
                j <= self.queue@.len(),
                forall|k: int|
                    0 <= k < j ==> !(is_live(#[trigger] self.queue@[k])
                        && self.queue@[k].payment.payment.installment_sequence
                        == payment.installment_sequence
                        && self.queue@[k].payment.payment.payment_id != payment.payment_id),
            decreases self.queue@.len() - j,
        {
            let e = &self.queue[j];
            if entry_is_live(e) && e.payment.payment.installment_sequence
                == payment.installment_sequence && !same_id(
                &e.payment.payment.payment_id,
                &payment.payment_id,
            ) {
                return true;
            }
            j = j + 1;
        }
        false
    }

    /// Checks a payment against its authorization's bounds at `now`.
    /// `key_usable` is whether the authorization's key is usable at `now`.
    fn check_bounds(&self, payment: &PaymentRequest, key_usable: bool, now: u64) -> (r: Result<
        (),
        WalletError,
    >)
        requires
            self@.periods_set(),
        ensures
            match self@.bounds_error(*payment, key_usable, now) {
                Some(e) => r == Err::<(), WalletError>(e),
                None => r is Ok,
            },
    {
        let ai = match self.find_authorization(&payment.authorization_id) {
            Some(i) => i,
            None => return Err(WalletError::UnknownAuthorization),
        };
        let a = &self.authorizations[ai];
        match a.permits(payment, key_usable, now) {
            Ok(()) => {},
            Err(e) => return Err(e),
        }
        let period = a.period_index(now);
        let spent = match self.spent_in_period(a, &payment.authorization_id, period) {
            Some(t) => t,
            None => return Err(WalletError::ArithmeticOverflow),
        };
        let total = match spent.checked_add(payment.units) {
            Some(t) => t,
            None => return Err(WalletError::ArithmeticOverflow),
        };
        if total > a.period_ceiling {
            return Err(WalletError::ExceedsAuthorization);
        }
        if self.installment_taken(payment) {
            return Err(WalletError::InstallmentAlreadyQueued);
        }
        Ok(())
    }

    /// Prepares the payment of one installment under one authorization. The
    /// bounds are checked here so the signer is never asked to sign a payment
    /// the wallet would refuse to queue. `key_usable` is whether the
    /// authorization's key is usable at `now`.
    pub fn prepare(
        &self,
        installment_sequence: u64,
        authorization_id: &Identifier,
        payment_id: Identifier,
        key_usable: bool,
        now: u64,
    ) -> (r: Result<SigningRequest, WalletError>)
        requires
            self@.periods_set(),
        ensures
            match self@.prepare_error(installment_sequence, *authorization_id, payment_id, key_usable, now) {
                Some(e) => r == Err::<SigningRequest, WalletError>(e),
                None => r matches Ok(q) && q.payment == payment_for(
                    self@,
                    self.schedule.installments@[self.schedule.installment_index(installment_sequence)],
                    installment_sequence,
                    *authorization_id,
                    payment_id,
                ) && q.statement@ == q.payment.spec_statement() && q.created_at == now && same_key(
                    q.payment_key,
                    self@.authorizations[self@.authorization_index(*authorization_id)].payment_key,
                ),
            },
    {
        let d = match self.schedule.installment(installment_sequence) {
            Some(d) => *d,
            None => return Err(WalletError::UnknownInstallment),
        };
        let payment = PaymentRequest {
            payment_id,
            stream_id: self.schedule.stream_id,
            installment_sequence,
            units: d.units,
            obligor_commitment: self.schedule.obligor_commitment,
            payee_commitment: self.schedule.payee_commitment,
            settlement_asset_id: self.schedule.settlement_asset_id,
            due_at: d.due_at,
            authorization_id: *authorization_id,
        };
        let statement = match payment.statement() {
            Ok(c) => c,
            Err(e) => return Err(e),
        };
        match self.check_bounds(&payment, key_usable, now) {
            Ok(()) => {},
            Err(e) => return Err(e),
        }
        let ai = match self.find_authorization(authorization_id) {
            Some(i) => i,
            None => return Err(WalletError::UnknownAuthorization),
        };
        Ok(SigningRequest {
            payment,
            statement,
            created_at: now,
            payment_key: self.authorizations[ai].payment_key.copy(),
        })
    }
}

/// Two signed payments with the same payment, key and signature bytes.
pub open spec fn signed_same(a: SignedPayment, b: SignedPayment) -> bool {
    &&& a.payment == b.payment
    &&& a.key_id@ == b.key_id@
    &&& a.key_version == b.key_version
    &&& a.signature@ == b.signature@
}

/// Whether a payment describes the installment `d` of the schedule.
pub open spec fn describes(s: WalletState, p: PaymentRequest, d: Installment) -> bool {
    &&& p.stream_id == s.schedule.stream_id
    &&& p.units == d.units
    &&& p.due_at == d.due_at
    &&& p.obligor_commitment == s.schedule.obligor_commitment
    &&& p.payee_commitment == s.schedule.payee_commitment
    &&& p.settlement_asset_id == s.schedule.settlement_asset_id
}

/// Whether `t` is `s` with the signed payment queued at `now`: a pending
/// entry carrying the payment's statement appended to the queue, all else
/// unchanged.
pub open spec fn enqueued(s: WalletState, t: WalletState, signed: SignedPayment, now: u64) -> bool {
    &&& t.queue.len() == s.queue.len() + 1
    &&& t.queue.drop_last() == s.queue
    &&& t.queue.last().payment == signed
    &&& t.queue.last().statement@ == signed.payment.spec_statement()
    &&& t.queue.last().status == QueueStatus::Pending
    &&& t.queue.last().enqueued_at == now
    &&& t.schedule == s.schedule
    &&& t.retry == s.retry
    &&& t.authorizations == s.authorizations
    &&& t.receipts == s.receipts
}

impl WalletState {
    /// What enqueueing a signed payment at `now` answers. A payment already
    /// queued under its identifier is a duplicate when it is the same signed
    /// payment and a replay otherwise; a new one must verify under its
    /// authorization, describe its installment, and keep the bounds.
    #[verifier::opaque]
    pub open spec fn enqueue_result(
        self,
        signed: SignedPayment,
        key_usable: bool,
        signature_valid: bool,
        now: u64,
    ) -> Result<EnqueueOutcome, WalletError> {
        let p = signed.payment;
        let ei = self.entry_index(p.payment_id);
        let ai = self.authorization_index(p.authorization_id);
        let ii = self.schedule.installment_index(p.installment_sequence);
        if !p.well_formed() {
            Err(WalletError::InvalidPayment)
        } else if ei >= 0 {
            if self.queue[ei].statement@ == p.spec_statement() && signed_same(
                self.queue[ei].payment,
                signed,
            ) {
                Ok(EnqueueOutcome::Duplicate)
            } else {
                Err(WalletError::Replay)
            }
        } else {
            match self.new_payment_error(signed, key_usable, signature_valid, now) {
                Some(e) => Err(e),
                None => Ok(EnqueueOutcome::Accepted),
            }
        }
    }

    /// Why a payment not yet queued cannot be: its authorization is unknown
    /// or it does not verify under it, its installment is unknown or it does
    /// not describe it, or it breaks the bounds.
    #[verifier::opaque]
    pub open spec fn new_payment_error(
        self,
        signed: SignedPayment,
        key_usable: bool,
        signature_valid: bool,
        now: u64,
    ) -> Option<WalletError> {
        let p = signed.payment;
        let ai = self.authorization_index(p.authorization_id);
        let ii = self.schedule.installment_index(p.installment_sequence);
        if ai < 0 {
            Some(WalletError::UnknownAuthorization)
        } else if signed.verify_error(self.authorizations[ai], key_usable, signature_valid, now) is Some {
            signed.verify_error(self.authorizations[ai], key_usable, signature_valid, now)
        } else if ii < 0 {
            Some(WalletError::UnknownInstallment)
        } else if !describes(self, p, self.schedule.installments@[ii]) {
            Some(WalletError::ScheduleMismatch)
        } else {
            self.bounds_error(p, key_usable, now)
        }
    }
}

/// The answer to a payment delivered again under an identifier already
/// queued: a duplicate when it is the same signed payment, a replay
/// otherwise.
fn redelivery(existing: &QueueEntry, signed: &SignedPayment, statement: &Commitment) -> (r: Result<
    EnqueueOutcome,
    WalletError,
>)
    requires
        statement@ == signed.payment.spec_statement(),
    ensures
        r == (if existing.statement@ == signed.payment.spec_statement() && signed_same(
            existing.payment,
            *signed,
        ) {
            Ok::<EnqueueOutcome, WalletError>(EnqueueOutcome::Duplicate)
        } else {
            Err::<EnqueueOutcome, WalletError>(WalletError::Replay)
        }),
{
    proof {
        lemma_id_of(existing.statement);
        lemma_id_of(*statement);
    }
    if same_id(&existing.statement, statement) && same_signed(&existing.payment, signed) {
        Ok(EnqueueOutcome::Duplicate)
    } else {
        Err(WalletError::Replay)
    }
}

impl ObligationWallet {
    fn check_new_payment(
        &self,
        signed: &SignedPayment,
        key_usable: bool,
        signature_valid: bool,
        now: u64,
    ) -> (r: Result<(), WalletError>)
        requires
            self@.periods_set(),
        ensures
            match self@.new_payment_error(*signed, key_usable, signature_valid, now) {
                Some(e) => r == Err::<(), WalletError>(e),
                None => r is Ok,
            },
    {
        reveal(WalletState::new_payment_error);
        let ai = match self.find_authorization(&signed.payment.authorization_id) {
            Some(i) => i,
            None => return Err(WalletError::UnknownAuthorization),
        };
        match signed.verify(&self.authorizations[ai], key_usable, signature_valid, now) {
            Ok(_) => {},
            Err(e) => return Err(e),
        }
        let d = match self.schedule.installment(signed.payment.installment_sequence) {
            Some(d) => *d,
            None => return Err(WalletError::UnknownInstallment),
        };
        let p = &signed.payment;
        if !same_id(&p.stream_id, &self.schedule.stream_id) || p.units != d.units || p.due_at
            != d.due_at || !same_id(&p.obligor_commitment, &self.schedule.obligor_commitment)
            || !same_id(&p.payee_commitment, &self.schedule.payee_commitment) || !same_id(
            &p.settlement_asset_id,
            &self.schedule.settlement_asset_id,
        ) {
            return Err(WalletError::ScheduleMismatch);
        }
        self.check_bounds(&signed.payment, key_usable, now)
    }

    /// Queues a signed payment. Idempotent on `payment_id`: the same payment
    /// delivered twice is accepted once and reported as a duplicate after.
    /// `key_usable` is whether the authorization's key is usable at `now`,
    /// and `signature_valid` whether the signature verifies under it.
    pub fn enqueue(
        &mut self,
        signed: SignedPayment,
        key_usable: bool,
        signature_valid: bool,
        now: u64,
    ) -> (r: Result<EnqueueOutcome, WalletError>)
        requires
            old(self)@.periods_set(),
        ensures
            r == old(self)@.enqueue_result(signed, key_usable, signature_valid, now),
            r == Ok::<EnqueueOutcome, WalletError>(EnqueueOutcome::Accepted) ==> enqueued(
                old(self)@,
                final(self)@,
                signed,
                now,
            ),
            r != Ok::<EnqueueOutcome, WalletError>(EnqueueOutcome::Accepted) ==> final(self)@
                == old(self)@,
    {
        reveal(WalletState::enqueue_result);
        let statement = match signed.payment.statement() {
            Ok(c) => c,
            Err(e) => return Err(e),
        };
        if let Some(ei) = self.find_entry(&signed.payment.payment_id) {
            return redelivery(&self.queue[ei], &signed, &statement);
        }
        match self.check_new_payment(&signed, key_usable, signature_valid, now) {
            Ok(()) => {},
            Err(e) => return Err(e),
        }
        self.queue.push(
            QueueEntry { payment: signed, statement, status: QueueStatus::Pending, enqueued_at: now },
        );
        proof {
            assert(self.queue@.drop_last() =~= old(self).queue@);
        }
        Ok(EnqueueOutcome::Accepted)
    }
}

/// The attempt a payment in this status goes out as at `now`: the first
/// for a pending payment, the next for a retry that is due. Any other status
/// is not ready.
pub open spec fn attempt_at(status: QueueStatus, now: u64) -> Result<u32, WalletError> {
    match status {
        QueueStatus::Pending => Ok(1),
        QueueStatus::RetryScheduled { attempts, next_attempt_at, .. } => if next_attempt_at > now {
            Err(WalletError::NotReady)
        } else {
            Ok((attempts + 1) as u32)
        },
        _ => Err(WalletError::NotReady),
    }
}

/// The status after attempt `attempt` failed at `now`: abandoned once the
/// policy's attempts are spent, else a retry after the backoff delay.
pub open spec fn failed_status(retry: RetryPolicy, attempt: u32, failure_digest: Commitment, now: u64) -> QueueStatus {
    if attempt >= retry.max_attempts {
        QueueStatus::Abandoned { attempts: attempt, last_failure_digest: failure_digest }
    } else {
        QueueStatus::RetryScheduled {
            attempts: attempt,
            next_attempt_at: if now + retry.spec_delay_after(attempt) > u64::MAX {
                u64::MAX
            } else {
                (now + retry.spec_delay_after(attempt)) as u64
            },
            last_failure_digest: failure_digest,
        }
    }
}

/// The entry with another status.
pub open spec fn with_status(e: QueueEntry, status: QueueStatus) -> QueueEntry {
    QueueEntry { status, ..e }
}

impl WalletState {
    /// The wallet with entry `i` in another status.
    pub open spec fn set_status(self, i: int, status: QueueStatus) -> WalletState {
        WalletState { queue: self.queue.update(i, with_status(self.queue[i], status)), ..self }
    }

    /// No retry has counted attempts to the end of the integer range.
    pub open spec fn attempts_bounded(self) -> bool {
        forall|i: int|
            0 <= i < self.queue.len() ==> ((#[trigger] self.queue[i]).status matches QueueStatus::RetryScheduled {
                attempts,
                ..
            } ==> attempts < u32::MAX)
    }
}

impl ObligationWallet {
    fn set_status(&mut self, i: usize, status: QueueStatus)
        requires
            i < old(self).queue@.len(),
        ensures
            final(self)@ == old(self)@.set_status(i as int, status),
    {
        let mut e = self.queue.remove(i);
        e.status = status;
        self.queue.insert(i, e);
        proof {
            assert(self.queue@ =~= old(self).queue@.update(
                i as int,
                with_status(old(self).queue@[i as int], status),
            ));
        }
    }

    /// Marks a payment as sent and returns the attempt it goes out as.
    pub fn mark_in_flight(&mut self, payment_id: &Identifier, now: u64) -> (r: Result<u32, WalletError>)
        requires
            old(self)@.attempts_bounded(),
        ensures
            old(self)@.entry_index(*payment_id) < 0 ==> r == Err::<u32, WalletError>(
                WalletError::UnknownPayment,
            ),
            old(self)@.entry_index(*payment_id) >= 0 ==> r == attempt_at(
                old(self)@.queue[old(self)@.entry_index(*payment_id)].status,
                now,
            ),
            r matches Ok(a) ==> final(self)@ == old(self)@.set_status(
                old(self)@.entry_index(*payment_id),
                QueueStatus::InFlight { attempt: a, submitted_at: now },
            ),
            r is Err ==> final(self)@ == old(self)@,
    {
        let i = match self.find_entry(payment_id) {
            Some(i) => i,
            None => return Err(WalletError::UnknownPayment),
        };
        let attempt: u32 = match self.queue[i].status {
            QueueStatus::Pending => 1,
            QueueStatus::RetryScheduled { attempts, next_attempt_at, .. } => {
                if next_attempt_at > now {
                    return Err(WalletError::NotReady);
                }
                assert(self@.queue[i as int].status is RetryScheduled);
                attempts + 1
            },
            _ => return Err(WalletError::NotReady),
        };
        self.set_status(i, QueueStatus::InFlight { attempt, submitted_at: now });
        Ok(attempt)
    }

    /// Records a delivery failure and schedules the retry, or abandons the
    /// payment once the policy's attempts are exhausted.
    pub fn mark_failed(&mut self, payment_id: &Identifier, failure_digest: Commitment, now: u64) -> (r:
        Result<QueueStatus, WalletError>)
        ensures
            is_zero(failure_digest) ==> r == Err::<QueueStatus, WalletError>(
                WalletError::InvalidPayment,
            ),
            !is_zero(failure_digest) && old(self)@.entry_index(*payment_id) < 0 ==> r == Err::<
                QueueStatus,
                WalletError,
            >(WalletError::UnknownPayment),
            !is_zero(failure_digest) && old(self)@.entry_index(*payment_id) >= 0 ==> r == (match old(
                self,
            )@.queue[old(self)@.entry_index(*payment_id)].status {
                QueueStatus::InFlight { attempt, .. } => Ok::<QueueStatus, WalletError>(
                    failed_status(old(self)@.retry, attempt, failure_digest, now),
                ),
                _ => Err::<QueueStatus, WalletError>(WalletError::NotReady),
            }),
            r matches Ok(st) ==> final(self)@ == old(self)@.set_status(
                old(self)@.entry_index(*payment_id),
                st,
            ),
            r is Err ==> final(self)@ == old(self)@,
    {
        if is_zero_id(&failure_digest) {
            return Err(WalletError::InvalidPayment);
        }
        let i = match self.find_entry(payment_id) {
            Some(i) => i,
            None => return Err(WalletError::UnknownPayment),
        };
        let attempt = match self.queue[i].status {
            QueueStatus::InFlight { attempt, .. } => attempt,
            _ => return Err(WalletError::NotReady),
        };
        let status = if attempt >= self.retry.max_attempts {
            QueueStatus::Abandoned { attempts: attempt, last_failure_digest: failure_digest }
        } else {
            QueueStatus::RetryScheduled {
                attempts: attempt,
                next_attempt_at: now.saturating_add(self.retry.delay_after(attempt)),
                last_failure_digest: failure_digest,
            }
        };
        self.set_status(i, status);
        Ok(status)
    }
}

/// The status of a payment acknowledged by a receipt.
pub open spec fn acknowledged_by(receipt: SettlementReceipt) -> QueueStatus {
    QueueStatus::Acknowledged {
        receipt_digest: receipt.receipt_digest,
        settled_units: receipt.settled_units,
        finalized_at: receipt.finalized_at,
    }
}

/// Units of a receipt.
pub open spec fn receipt_units() -> spec_fn(SettlementReceipt) -> nat {
    |r: SettlementReceipt| r.settled_units as nat
}

/// Whether some queued payment of installment `sequence` is acknowledged.
pub open spec fn acknowledged_for(q: Seq<QueueEntry>, sequence: u64) -> bool {
    exists|i: int|
        0 <= i < q.len() && (#[trigger] q[i]).payment.payment.installment_sequence == sequence
            && q[i].status is Acknowledged
}

/// The installments of `xs` due by `now` that no acknowledged payment in `q`
/// covers, in order.
pub open spec fn unsettled(xs: Seq<Installment>, q: Seq<QueueEntry>, now: u64) -> Seq<Installment>
    decreases xs.len(),
{
    if xs.len() == 0 {
        Seq::empty()
    } else {
        let rest = unsettled(xs.drop_last(), q, now);
        if xs.last().due_at <= now && !acknowledged_for(q, xs.last().sequence) {
            rest.push(xs.last())
        } else {
            rest
        }
    }
}

/// Whether a payment can go out at `now`: pending, or a retry that is due.
pub open spec fn is_ready(e: QueueEntry, now: u64) -> bool {
    match e.status {
        QueueStatus::Pending => true,
        QueueStatus::RetryScheduled { next_attempt_at, .. } => next_attempt_at <= now,
        _ => false,
    }
}

/// Delivery order: earlier due time first, then the earlier installment,
/// then the lower payment identifier.
pub open spec fn ready_before(a: QueueEntry, b: QueueEntry) -> bool {
    let x = a.payment.payment;
    let y = b.payment.payment;
    ||| x.due_at < y.due_at
    ||| x.due_at == y.due_at && x.installment_sequence < y.installment_sequence
    ||| x.due_at == y.due_at && x.installment_sequence == y.installment_sequence && id_lt(
        x.payment_id,
        y.payment_id,
    )
}

/// The byte order of identifiers is transitive.
pub proof fn lemma_id_lt_transitive(a: [u8; 32], b: [u8; 32], c: [u8; 32])
    requires
        id_lt(a, b),
        id_lt(b, c),
    ensures
        id_lt(a, c),
{
    let k1 = choose|k: int|
        0 <= k < 32 && #[trigger] a[k] < b[k] && forall|j: int| 0 <= j < k ==> a[j] == b[j];
    let k2 = choose|k: int|
        0 <= k < 32 && #[trigger] b[k] < c[k] && forall|j: int| 0 <= j < k ==> b[j] == c[j];
    if k1 <= k2 {
        assert(a[k1] < c[k1]);
        assert forall|j: int| 0 <= j < k1 implies a[j] == c[j] by {}
    } else {
        assert(a[k2] < c[k2]);
        assert forall|j: int| 0 <= j < k2 implies a[j] == c[j] by {}
    }
}

impl WalletState {
    /// What reconciling a receipt answers: an invalid receipt is refused; an
    /// unknown payment is reported; an acknowledged payment answers
    /// already-reconciled for the same receipt and refuses another; an
    /// abandoned payment is not ready; a receipt for other units is reported
    /// as a mismatch; a receipt for the queued units matches.
    pub open spec fn reconcile_result(self, receipt: SettlementReceipt) -> Result<
        Reconciliation,
        WalletError,
    > {
        let ei = self.entry_index(receipt.payment_id);
        if is_zero(receipt.receipt_digest) || !spec_valid_time(receipt.finalized_at) {
            Err(WalletError::InvalidReceipt)
        } else if ei < 0 {
            Ok(Reconciliation::UnknownPayment)
        } else {
            let e = self.queue[ei];
            match e.status {
                QueueStatus::Acknowledged { receipt_digest, .. } => if receipt_digest
                    == receipt.receipt_digest {
                    Ok(Reconciliation::AlreadyReconciled)
                } else {
                    Err(WalletError::Replay)
                },
                QueueStatus::Abandoned { .. } => Err(WalletError::NotReady),
                _ => if receipt.settled_units != e.payment.payment.units {
                    Ok(
                        Reconciliation::UnitsMismatch {
                            expected: e.payment.payment.units,
                            settled: receipt.settled_units,
                        },
                    )
                } else {
                    Ok(Reconciliation::Matched)
                },
            }
        }
    }

    /// The wallet after a matching receipt: the payment acknowledged and the
    /// receipt recorded under its payment.
    pub open spec fn after_reconcile(self, receipt: SettlementReceipt) -> WalletState {
        let acknowledged = self.set_status(
            self.entry_index(receipt.payment_id),
            acknowledged_by(receipt),
        );
        let ri = self.receipt_index(receipt.payment_id);
        WalletState {
            receipts: if ri >= 0 {
                self.receipts.update(ri, receipt)
            } else {
                self.receipts.push(receipt)
            },
            ..acknowledged
        }
    }

    /// Units the receipts confirm settled.
    pub open spec fn settled_total(self) -> nat {
        sum_of(self.receipts, receipt_units())
    }
}

impl ObligationWallet {
    /// Reconciles an authoritative receipt against the queue. A receipt for
    /// the queued amount acknowledges the payment; the same receipt again
    /// changes nothing; a different amount is reported and recorded nowhere.
    pub fn reconcile(&mut self, receipt: SettlementReceipt) -> (r: Result<Reconciliation, WalletError>)
        ensures
            r == old(self)@.reconcile_result(receipt),
            r == Ok::<Reconciliation, WalletError>(Reconciliation::Matched) ==> final(self)@ == old(
                self,
            )@.after_reconcile(receipt),
            r != Ok::<Reconciliation, WalletError>(Reconciliation::Matched) ==> final(self)@ == old(
                self,
            )@,
    {
        if is_zero_id(&receipt.receipt_digest) || !valid_time(receipt.finalized_at) {
            return Err(WalletError::InvalidReceipt);
        }
        let i = match self.find_entry(&receipt.payment_id) {
            Some(i) => i,
            None => return Ok(Reconciliation::UnknownPayment),
        };
        match self.queue[i].status {
            QueueStatus::Acknowledged { receipt_digest, .. } => {
                if same_id(&receipt_digest, &receipt.receipt_digest) {
                    return Ok(Reconciliation::AlreadyReconciled);
                } else {
                    return Err(WalletError::Replay);
                }
            },
            QueueStatus::Abandoned { .. } => return Err(WalletError::NotReady),
            _ => {},
        }
        let expected = self.queue[i].payment.payment.units;
        if receipt.settled_units != expected {
            return Ok(Reconciliation::UnitsMismatch { expected, settled: receipt.settled_units });
        }
        let ri = self.find_receipt(&receipt.payment_id);
        self.set_status(
            i,
            QueueStatus::Acknowledged {
                receipt_digest: receipt.receipt_digest,
                settled_units: receipt.settled_units,
                finalized_at: receipt.finalized_at,
            },
        );
        match ri {
            Some(k) => self.receipts.set(k, receipt),
            None => self.receipts.push(receipt),
        }
        Ok(Reconciliation::Matched)
    }

    /// Units the authoritative side has confirmed settled. Derived from
    /// receipts alone.
    pub fn settled_units(&self) -> (r: Result<u64, WalletError>)
        ensures
            r matches Ok(t) ==> t as nat == self@.settled_total(),
            r is Err <==> self@.settled_total() > u64::MAX,
            r matches Err(e) ==> e == WalletError::ArithmeticOverflow,
    {
        let ghost f = receipt_units();
        let mut total: u64 = 0;
        let mut i: usize = 0;
        while i < self.receipts.len()
            invariant
                i <= self.receipts@.len(),
                f == receipt_units(),
                total as nat == sum_of(self.receipts@.subrange(0, i as int), f),
            decreases self.receipts@.len() - i,
        {
            proof {
                crate::seqs::lemma_sum_step(self.receipts@, i as int, f);
            }
            match total.checked_add(self.receipts[i].settled_units) {
                Some(t) => total = t,
                None => {
                    proof {
                        crate::seqs::lemma_sum_prefix_le(self.receipts@, (i + 1) as int, f);
                    }
                    return Err(WalletError::ArithmeticOverflow);
                },
            }
            i = i + 1;
        }
        proof {
            lemma_full_prefix(self.receipts@);
        }
        Ok(total)
    }

    fn acknowledged_for(&self, sequence: u64) -> (r: bool)
        ensures
            r == acknowledged_for(self.queue@, sequence),
    {
        let mut j: usize = 0;
        while j < self.queue.len()
            invariant
                j <= self.queue@.len(),
                forall|k: int|
                    0 <= k < j ==> !((#[trigger] self.queue@[k]).payment.payment.installment_sequence
                        == sequence && self.queue@[k].status is Acknowledged),
            decreases self.queue@.len() - j,
        {
            if self.queue[j].payment.payment.installment_sequence == sequence && matches!(
                self.queue[j].status,
                QueueStatus::Acknowledged { .. }
            ) {
                return true;
            }
            j = j + 1;
        }
        false
    }

    /// Installments due by `now` for which no receipt has been reconciled.
    pub fn unsettled_due(&self, now: u64) -> (r: Vec<Installment>)
        ensures
            r@ == unsettled(self.schedule.installments@, self.queue@, now),
    {
        let s = &self.schedule.installments;
        let mut out: Vec<Installment> = Vec::new();
        let mut i: usize = 0;
        while i < s.len()
            invariant
                i <= s@.len(),
                s@ == self.schedule.installments@,
                out@ == unsettled(s@.subrange(0, i as int), self.queue@, now),
            decreases s@.len() - i,
        {
            proof {
                assert(s@.subrange(0, i + 1).drop_last() =~= s@.subrange(0, i as int));
            }
            let d = s[i];
            if d.due_at <= now && !self.acknowledged_for(d.sequence) {
                out.push(d);
            }
            i = i + 1;
        }
        proof {
            lemma_full_prefix(s@);
        }
        out
    }

    fn ready_index(&self, now: u64) -> (r: Option<usize>)
        ensures
            match r {
                Some(i) => i < self.queue@.len() && is_ready(self.queue@[i as int], now) && forall|j: int|
                    0 <= j < self.queue@.len() && is_ready(#[trigger] self.queue@[j], now)
                        ==> !ready_before(self.queue@[j], self.queue@[i as int]),
                None => forall|j: int| 0 <= j < self.queue@.len() ==> !is_ready(#[trigger] self.queue@[j], now),
            },
    {
        let mut best: Option<usize> = None;
        let mut i: usize = 0;
        while i < self.queue.len()
            invariant
                i <= self.queue@.len(),
                match best {
                    Some(b) => b < i && is_ready(self.queue@[b as int], now) && forall|j: int|
                        0 <= j < i && is_ready(#[trigger] self.queue@[j], now) ==> !ready_before(
                            self.queue@[j],
                            self.queue@[b as int],
                        ),
                    None => forall|j: int| 0 <= j < i ==> !is_ready(#[trigger] self.queue@[j], now),
                },
            decreases self.queue@.len() - i,
        {
            let e = &self.queue[i];
            let ready = match e.status {
                QueueStatus::Pending => true,
                QueueStatus::RetryScheduled { next_attempt_at, .. } => next_attempt_at <= now,
                _ => false,
            };
            if ready {
                match best {
                    None => {
                        best = Some(i);
                    },
                    Some(b) => {
                        let x = &e.payment.payment;
                        let y = &self.queue[b].payment.payment;
                        let before = x.due_at < y.due_at || (x.due_at == y.due_at
                            && x.installment_sequence < y.installment_sequence) || (x.due_at
                            == y.due_at && x.installment_sequence == y.installment_sequence
                            && id_less(&x.payment_id, &y.payment_id));
                        if before {
                            proof {
                                assert forall|j: int|
                                    0 <= j < i + 1 && is_ready(
                                        #[trigger] self.queue@[j],
                                        now,
                                    ) implies !ready_before(
                                    self.queue@[j],
                                    self.queue@[i as int],
                                ) by {
                                    if j < i && ready_before(self.queue@[j], self.queue@[i as int]) {
                                        let p = self.queue@[j].payment.payment;
                                        let q = self.queue@[i as int].payment.payment;
                                        let o = self.queue@[b as int].payment.payment;
                                        if p.due_at == q.due_at && q.due_at == o.due_at
                                            && p.installment_sequence == q.installment_sequence
                                            && q.installment_sequence == o.installment_sequence {
                                            lemma_id_lt_transitive(p.payment_id, q.payment_id, o.payment_id);
                                        }
                                        assert(ready_before(self.queue@[j], self.queue@[b as int]));
                                    }
                                    if j == i {
                                        let q = self.queue@[i as int].payment.payment;
                                        assert(!id_lt(q.payment_id, q.payment_id));
                                    }
                                }
                            }
                            best = Some(i);
                        }
                    },
                }
            }
            i = i + 1;
        }
        best
    }

    /// The next payment to deliver: pending, or scheduled for a retry that is
    /// due, earliest due time first, then earliest installment, then lowest
    /// payment identifier.
    pub fn next_ready(&self, now: u64) -> (r: Option<&QueueEntry>)
        ensures
            match r {
                Some(e) => exists|i: int|
                    0 <= i < self.queue@.len() && *e == #[trigger] self.queue@[i] && is_ready(*e, now)
                        && forall|j: int|
                        0 <= j < self.queue@.len() && is_ready(#[trigger] self.queue@[j], now)
                            ==> !ready_before(self.queue@[j], *e),
                None => forall|j: int| 0 <= j < self.queue@.len() ==> !is_ready(#[trigger] self.queue@[j], now),
            },
    {
        match self.ready_index(now) {
            Some(i) => Some(&self.queue[i]),
            None => None,
        }
    }
}

pub open spec fn authorization_id_of() -> spec_fn(PreAuthorization) -> Identifier {
    |a: PreAuthorization| a.authorization_id
}

pub open spec fn entry_id_of() -> spec_fn(QueueEntry) -> Identifier {
    |e: QueueEntry| e.payment.payment.payment_id
}

pub open spec fn receipt_id_of() -> spec_fn(SettlementReceipt) -> Identifier {
    |r: SettlementReceipt| r.payment_id
}

impl WalletState {
    /// Each authorization, queue entry and receipt is the only one under its
    /// identifier.
    pub open spec fn ids_unique(self) -> bool {
        &&& ids_distinct(self.authorizations.map_values(authorization_id_of()))
        &&& ids_distinct(self.queue.map_values(entry_id_of()))
        &&& ids_distinct(self.receipts.map_values(receipt_id_of()))
    }

    /// A valid authorization for this schedule.
    pub open spec fn authorization_ok(self, a: PreAuthorization) -> bool {
        &&& a.spec_valid()
        &&& a.stream_id == self.schedule.stream_id
        &&& a.obligor_commitment == self.schedule.obligor_commitment
        &&& a.payee_commitment == self.schedule.payee_commitment
        &&& a.settlement_asset_id == self.schedule.settlement_asset_id
    }

    /// An acknowledged entry has its receipt recorded, for its units; any
    /// other entry has none.
    pub open spec fn receipt_agrees(self, e: QueueEntry) -> bool {
        let ri = self.receipt_index(e.payment.payment.payment_id);
        match e.status {
            QueueStatus::Acknowledged { receipt_digest, settled_units, finalized_at } => {
                &&& ri >= 0
                &&& self.receipts[ri].receipt_digest == receipt_digest
                &&& self.receipts[ri].settled_units == settled_units
                &&& self.receipts[ri].finalized_at == finalized_at
                &&& settled_units == e.payment.payment.units
            },
            _ => ri < 0,
        }
    }

    /// Entry `k` verifies under its authorization at the time it was
    /// enqueued, carries its statement, describes its installment, and
    /// agrees with the receipts. `key_usable` is whether the authorization's
    /// key was usable when the entry was enqueued, and `signature_valid`
    /// whether its signature verifies under that key.
    #[verifier::opaque]
    pub open spec fn entry_ok(self, k: int, key_usable: bool, signature_valid: bool) -> bool {
        let e = self.queue[k];
        let p = e.payment.payment;
        let ai = self.authorization_index(p.authorization_id);
        let ii = self.schedule.installment_index(p.installment_sequence);
        &&& ai >= 0
        &&& e.payment.verify_error(self.authorizations[ai], key_usable, signature_valid, e.enqueued_at) is None
        &&& ii >= 0
        &&& e.statement@ == p.spec_statement()
        &&& describes(self, p, self.schedule.installments@[ii])
        &&& self.receipt_agrees(e)
    }

    /// What [`ObligationWallet::validate`] accepts, given for each queue
    /// entry whether its key was usable and its signature verifies.
    #[verifier::opaque]
    pub open spec fn records_valid(self, key_usable: Seq<bool>, signatures_valid: Seq<bool>) -> bool {
        &&& self.schedule.spec_valid()
        &&& self.retry.spec_valid()
        &&& key_usable.len() == self.queue.len()
        &&& signatures_valid.len() == self.queue.len()
        &&& self.ids_unique()
        &&& forall|i: int|
            0 <= i < self.authorizations.len() ==> #[trigger] self.authorization_ok(
                self.authorizations[i],
            )
        &&& forall|k: int|
            0 <= k < self.queue.len() ==> #[trigger] self.entry_ok(
                k,
                key_usable[k],
                signatures_valid[k],
            )
        &&& forall|r: int|
            0 <= r < self.receipts.len() ==> self.entry_index((#[trigger] self.receipts[r]).payment_id)
                >= 0
    }
}

impl ObligationWallet {
    fn ids_unique(&self) -> (r: bool)
        ensures
            r == self@.ids_unique(),
    {
        let mut a: Vec<Identifier> = Vec::new();
        let mut i: usize = 0;
        while i < self.authorizations.len()
            invariant
                i <= self.authorizations@.len(),
                a@ == self.authorizations@.subrange(0, i as int).map_values(authorization_id_of()),
            decreases self.authorizations@.len() - i,
        {
            proof {
                assert(self.authorizations@.subrange(0, i + 1).map_values(authorization_id_of())
                    =~= self.authorizations@.subrange(0, i as int).map_values(
                    authorization_id_of(),
                ).push(self.authorizations@[i as int].authorization_id));
            }
            a.push(self.authorizations[i].authorization_id);
            i = i + 1;
        }
        proof {
            lemma_full_prefix(self.authorizations@);
        }
        let mut q: Vec<Identifier> = Vec::new();
        let mut j: usize = 0;
        while j < self.queue.len()
            invariant
                j <= self.queue@.len(),
                q@ == self.queue@.subrange(0, j as int).map_values(entry_id_of()),
            decreases self.queue@.len() - j,
        {
            proof {
                assert(self.queue@.subrange(0, j + 1).map_values(entry_id_of()) =~= self.queue@.subrange(
                    0,
                    j as int,
                ).map_values(entry_id_of()).push(self.queue@[j as int].payment.payment.payment_id));
            }
            q.push(self.queue[j].payment.payment.payment_id);
            j = j + 1;
        }
        proof {
            lemma_full_prefix(self.queue@);
        }
        let mut c: Vec<Identifier> = Vec::new();
        let mut k: usize = 0;
        while k < self.receipts.len()
            invariant
                k <= self.receipts@.len(),
                c@ == self.receipts@.subrange(0, k as int).map_values(receipt_id_of()),
            decreases self.receipts@.len() - k,
        {
            proof {
                assert(self.receipts@.subrange(0, k + 1).map_values(receipt_id_of())
                    =~= self.receipts@.subrange(0, k as int).map_values(receipt_id_of()).push(
                    self.receipts@[k as int].payment_id,
                ));
            }
            c.push(self.receipts[k].payment_id);
            k = k + 1;
        }
        proof {
            lemma_full_prefix(self.receipts@);
        }
        distinct_ids(&a) && distinct_ids(&q) && distinct_ids(&c)
    }

    fn authorization_ok(&self, a: &PreAuthorization) -> (r: Result<(), WalletError>)
        ensures
            r is Ok <==> self@.authorization_ok(*a),
            r matches Err(e) ==> e == WalletError::InvalidAuthorization || e
                == WalletError::InvalidState,
            r matches Err(e) ==> (e == WalletError::InvalidAuthorization <==> !a.spec_valid()),
    {
        match a.validate() {
            Ok(()) => {},
            Err(e) => return Err(e),
        }
        if !same_id(&a.stream_id, &self.schedule.stream_id) || !same_id(
            &a.obligor_commitment,
            &self.schedule.obligor_commitment,
        ) || !same_id(&a.payee_commitment, &self.schedule.payee_commitment) || !same_id(
            &a.settlement_asset_id,
            &self.schedule.settlement_asset_id,
        ) {
            return Err(WalletError::InvalidState);
        }
        Ok(())
    }

    fn receipt_agrees(&self, e: &QueueEntry) -> (r: bool)
        ensures
            r == self@.receipt_agrees(*e),
    {
        let ri = self.find_receipt(&e.payment.payment.payment_id);
        match e.status {
            QueueStatus::Acknowledged { receipt_digest, settled_units, finalized_at } => {
                match ri {
                    Some(k) => {
                        let c = &self.receipts[k];
                        same_id(&c.receipt_digest, &receipt_digest) && c.settled_units == settled_units
                            && c.finalized_at == finalized_at && settled_units
                            == e.payment.payment.units
                    },
                    None => false,
                }
            },
            _ => ri.is_none(),
        }
    }

    fn entry_ok(&self, k: usize, key_usable: bool, signature_valid: bool) -> (r: bool)
        requires
            k < self.queue@.len(),
        ensures
            r == self@.entry_ok(k as int, key_usable, signature_valid),
    {
        reveal(WalletState::entry_ok);
        let e = &self.queue[k];
        let p = &e.payment.payment;
        let ai = match self.find_authorization(&p.authorization_id) {
            Some(i) => i,
            None => return false,
        };
        let statement = match e.payment.verify(
            &self.authorizations[ai],
            key_usable,
            signature_valid,
            e.enqueued_at,
        ) {
            Ok(c) => c,
            Err(_) => return false,
        };
        let d = match self.schedule.installment(p.installment_sequence) {
            Some(d) => *d,
            None => return false,
        };
        proof {
            lemma_id_of(statement);
            lemma_id_of(e.statement);
        }
        same_id(&statement, &e.statement) && same_id(&p.stream_id, &self.schedule.stream_id)
            && p.units == d.units && p.due_at == d.due_at && same_id(
            &p.obligor_commitment,
            &self.schedule.obligor_commitment,
        ) && same_id(&p.payee_commitment, &self.schedule.payee_commitment) && same_id(
            &p.settlement_asset_id,
            &self.schedule.settlement_asset_id,
        ) && self.receipt_agrees(e)
    }

    /// Checks the wallet's whole state: a valid schedule and retry policy,
    /// each identifier once, valid authorizations for this schedule, every
    /// queued payment verified under its authorization at the time it was
    /// enqueued and describing its installment, and receipts exactly for the
    /// acknowledged payments. `key_usable[k]` and `signatures_valid[k]` are
    /// the identity layer's answers for queue entry `k`.
    ///
    /// The schedule is checked first (`InvalidSchedule`), then the retry
    /// policy (`InvalidRetryPolicy`), then the answers and identifiers, then
    /// each authorization, first as an artifact (`InvalidAuthorization`),
    /// then against the schedule; every other failure is `InvalidState`.
    pub fn validate(&self, key_usable: &[bool], signatures_valid: &[bool]) -> (r: Result<(), WalletError>)
        ensures
            r is Ok <==> self@.records_valid(key_usable@, signatures_valid@),
            !self.schedule.spec_valid() ==> r == Err::<(), WalletError>(WalletError::InvalidSchedule),
            self.schedule.spec_valid() && !self.retry.spec_valid() ==> r == Err::<(), WalletError>(
                WalletError::InvalidRetryPolicy,
            ),
            r matches Err(e) ==> e == WalletError::InvalidSchedule || e
                == WalletError::InvalidRetryPolicy || e == WalletError::InvalidAuthorization || e
                == WalletError::InvalidState,
            ({
                &&& self.schedule.spec_valid()
                &&& self.retry.spec_valid()
                &&& key_usable@.len() == self@.queue.len()
                &&& signatures_valid@.len() == self@.queue.len()
                &&& self@.ids_unique()
                &&& exists|j: int|
                    0 <= j < self@.authorizations.len() && !(#[trigger] self@.authorizations[j]).spec_valid()
                &&& forall|j: int|
                    0 <= j < self@.authorizations.len() && (#[trigger] self@.authorizations[j]).spec_valid()
                        ==> self@.authorization_ok(self@.authorizations[j])
            }) ==> r == Err::<(), WalletError>(WalletError::InvalidAuthorization),
            ({
                &&& self.schedule.spec_valid()
                &&& self.retry.spec_valid()
                &&& (forall|j: int|
                    0 <= j < self@.authorizations.len() ==> (#[trigger] self@.authorizations[j]).spec_valid())
                    || !(key_usable@.len() == self@.queue.len() && signatures_valid@.len() == self@.queue.len()
                    && self@.ids_unique())
                &&& !self@.records_valid(key_usable@, signatures_valid@)
            }) ==> r == Err::<(), WalletError>(WalletError::InvalidState),
    {
        reveal(WalletState::records_valid);
        match self.schedule.validate() {
            Ok(()) => {},
            Err(e) => return Err(e),
        }
        match self.retry.validate() {
            Ok(()) => {},
            Err(e) => return Err(e),
        }
        if key_usable.len() != self.queue.len() || signatures_valid.len() != self.queue.len()
            || !self.ids_unique() {
            return Err(WalletError::InvalidState);
        }
        let mut i: usize = 0;
        while i < self.authorizations.len()
            invariant
                i <= self.authorizations@.len(),
                self.schedule.spec_valid(),
                self.retry.spec_valid(),
                key_usable@.len() == self@.queue.len(),
                signatures_valid@.len() == self@.queue.len(),
                self@.ids_unique(),
                forall|j: int| 0 <= j < i ==> #[trigger] self@.authorization_ok(self.authorizations@[j]),
            decreases self.authorizations@.len() - i,
        {
            proof {
                reveal(WalletState::records_valid);
            }
            match self.authorization_ok(&self.authorizations[i]) {
                Ok(()) => {},
                Err(e) => {
                    assert(self@.authorizations[i as int] == self.authorizations@[i as int]);
                    return Err(e);
                },
            }
            i = i + 1;
        }
        assert forall|j: int| 0 <= j < self@.authorizations.len() implies (
        #[trigger] self@.authorizations[j]).spec_valid() by {
            assert(self@.authorization_ok(self.authorizations@[j]));
        }
        let mut k: usize = 0;
        while k < self.queue.len()
            invariant
                k <= self.queue@.len(),
                self.schedule.spec_valid(),
                self.retry.spec_valid(),
                forall|j: int| 0 <= j < self@.authorizations.len() ==> (#[trigger] self@.authorizations[j]).spec_valid(),
                key_usable@.len() == self.queue@.len(),
                signatures_valid@.len() == self.queue@.len(),
                forall|j: int|
                    0 <= j < k ==> #[trigger] self@.entry_ok(j, key_usable@[j], signatures_valid@[j]),
            decreases self.queue@.len() - k,
        {
            proof {
                reveal(WalletState::records_valid);
            }
            if !self.entry_ok(k, key_usable[k], signatures_valid[k]) {
                return Err(WalletError::InvalidState);
            }
            k = k + 1;
        }
        let mut m: usize = 0;
        while m < self.receipts.len()
            invariant
                m <= self.receipts@.len(),
                self.schedule.spec_valid(),
                self.retry.spec_valid(),
                forall|j: int| 0 <= j < self@.authorizations.len() ==> (#[trigger] self@.authorizations[j]).spec_valid(),
                forall|j: int| 0 <= j < m ==> self@.entry_index((#[trigger] self.receipts@[j]).payment_id) >= 0,
            decreases self.receipts@.len() - m,
        {
            proof {
                reveal(WalletState::records_valid);
            }
            if self.find_entry(&self.receipts[m].payment_id).is_none() {
                return Err(WalletError::InvalidState);
            }
            m = m + 1;
        }
        Ok(())
    }
}

/// A payment delivered again after the wallet accepted it is a duplicate,
/// whatever the identity layer answers and whenever it comes: the queue is
/// idempotent on the payment identifier.
pub proof fn law_redelivery_is_a_duplicate(
    s: WalletState,
    t: WalletState,
    signed: SignedPayment,
    key_usable: bool,
    signature_valid: bool,
    now: u64,
    key_usable_again: bool,
    signature_valid_again: bool,
    later: u64,
)
    requires
        s.enqueue_result(signed, key_usable, signature_valid, now) == Ok::<
            EnqueueOutcome,
            WalletError,
        >(EnqueueOutcome::Accepted),
        enqueued(s, t, signed, now),
    ensures
        t.enqueue_result(signed, key_usable_again, signature_valid_again, later) == Ok::<
            EnqueueOutcome,
            WalletError,
        >(EnqueueOutcome::Duplicate),
{
    reveal(WalletState::enqueue_result);
    let id = signed.payment.payment_id;
    assert(t.queue =~= s.queue.push(t.queue.last()));
    crate::seqs::lemma_first_match_push(s.queue, t.queue.last(), entry_has_id(id));
    assert(t.entry_index(id) == s.queue.len());
}

/// A payment the wallet accepts keeps its authorization's bounds: its units
/// are within the per-payment ceiling, and the live payments of the
/// authorization enqueued in the same period, the new one included, stay
/// within the period ceiling.
pub proof fn law_accepted_payment_keeps_ceilings(
    s: WalletState,
    t: WalletState,
    signed: SignedPayment,
    key_usable: bool,
    signature_valid: bool,
    now: u64,
)
    requires
        s.enqueue_result(signed, key_usable, signature_valid, now) == Ok::<
            EnqueueOutcome,
            WalletError,
        >(EnqueueOutcome::Accepted),
        enqueued(s, t, signed, now),
    ensures
        t.authorization_index(signed.payment.authorization_id) >= 0,
        ({
            let id = signed.payment.authorization_id;
            let a = t.authorizations[t.authorization_index(id)];
            &&& signed.payment.units <= a.per_payment_ceiling
            &&& t.period_spent(a, id, a.spec_period_index(now)) <= a.period_ceiling
        }),
{
    reveal(WalletState::enqueue_result);
    reveal(WalletState::new_payment_error);
    let id = signed.payment.authorization_id;
    let a = s.authorizations[s.authorization_index(id)];
    let f = spent_in(a, id, a.spec_period_index(now));
    assert(t.queue =~= s.queue.push(t.queue.last()));
    crate::seqs::lemma_sum_push(s.queue, t.queue.last(), f);
    assert(f(t.queue.last()) == signed.payment.units);
}

/// Only receipts count as paid: queueing a payment or moving it through
/// delivery, retry and abandonment leaves the settled units as they were.
pub proof fn law_delivery_settles_nothing(
    s: WalletState,
    t: WalletState,
    signed: SignedPayment,
    now: u64,
    i: int,
    status: QueueStatus,
)
    requires
        enqueued(s, t, signed, now),
    ensures
        t.settled_total() == s.settled_total(),
        s.set_status(i, status).settled_total() == s.settled_total(),
{
}

/// The same receipt reconciled again after it matched changes nothing: it
/// is answered as already reconciled.
pub proof fn law_same_receipt_again_is_already_reconciled(s: WalletState, receipt: SettlementReceipt)
    requires
        s.reconcile_result(receipt) == Ok::<Reconciliation, WalletError>(Reconciliation::Matched),
    ensures
        s.after_reconcile(receipt).reconcile_result(receipt) == Ok::<Reconciliation, WalletError>(
            Reconciliation::AlreadyReconciled,
        ),
{
    let id = receipt.payment_id;
    let ei = s.entry_index(id);
    let e = with_status(s.queue[ei], acknowledged_by(receipt));
    crate::seqs::lemma_first_match(s.queue, entry_has_id(id));
    crate::seqs::lemma_first_match_update(s.queue, ei, e, entry_has_id(id));
}

/// A failed attempt is retried no sooner than it failed and no later than
/// the maximum delay after, and once the policy's attempts are spent the
/// payment is abandoned.
pub proof fn law_failure_retries_later_or_abandons(
    retry: RetryPolicy,
    attempt: u32,
    failure_digest: Commitment,
    now: u64,
)
    ensures
        retry.spec_delay_after(attempt) <= retry.max_delay_seconds,
        attempt >= retry.max_attempts ==> failed_status(retry, attempt, failure_digest, now)
            is Abandoned,
        failed_status(retry, attempt, failure_digest, now) matches QueueStatus::RetryScheduled {
            next_attempt_at,
            ..
        } ==> now <= next_attempt_at <= now + retry.max_delay_seconds,
{
    lemma_doubled_nonnegative(retry.base_delay_seconds as int, RetryPolicy::backoff_exponent(attempt));
}

/// Backoff is exponential with a ceiling: under a valid policy the delay
/// before the next attempt is never below the base delay nor above the
/// maximum, and it never shrinks as attempts accumulate.
pub proof fn law_backoff_grows_to_its_ceiling(retry: RetryPolicy, attempts: u32, later: u32)
    requires
        retry.spec_valid(),
        attempts <= later,
    ensures
        retry.base_delay_seconds <= retry.spec_delay_after(attempts) <= retry.max_delay_seconds,
        retry.spec_delay_after(attempts) <= retry.spec_delay_after(later),
{
    let b = retry.base_delay_seconds as int;
    lemma_doubled_monotone(b, 0, RetryPolicy::backoff_exponent(attempts));
    lemma_doubled_monotone(
        b,
        RetryPolicy::backoff_exponent(attempts),
        RetryPolicy::backoff_exponent(later),
    );
}

/// The signer is never asked to sign a payment the wallet would refuse to
/// queue: a payment the wallet prepared, signed by the authorization's key
/// with a signature that verifies, is accepted at the same instant, when its
/// identifier is new and the stored authorization is valid.
pub proof fn law_prepared_payment_is_accepted(
    s: WalletState,
    sequence: u64,
    authorization_id: Identifier,
    payment_id: Identifier,
    key_usable: bool,
    now: u64,
    signed: SignedPayment,
)
    requires
        s.prepare_error(sequence, authorization_id, payment_id, key_usable, now) is None,
        signed.payment == payment_for(
            s,
            s.schedule.installments@[s.schedule.installment_index(sequence)],
            sequence,
            authorization_id,
            payment_id,
        ),
        signed.key_id@ == s.authorizations[s.authorization_index(
            authorization_id,
        )].payment_key.key_id@,
        signed.key_version == s.authorizations[s.authorization_index(
            authorization_id,
        )].payment_key.key_version,
        s.authorizations[s.authorization_index(authorization_id)].spec_valid(),
        s.entry_index(payment_id) < 0,
    ensures
        s.enqueue_result(signed, key_usable, true, now) == Ok::<EnqueueOutcome, WalletError>(
            EnqueueOutcome::Accepted,
        ),
{
    reveal(WalletState::enqueue_result);
    reveal(WalletState::new_payment_error);
}

/// An entry's validity depends on the entry, the schedule, the
/// authorizations, and the receipts alone.
proof fn lemma_entry_ok_frame(
    s: WalletState,
    t: WalletState,
    k: int,
    j: int,
    key_usable: bool,
    signature_valid: bool,
)
    requires
        0 <= k < s.queue.len(),
        0 <= j < t.queue.len(),
        s.queue[k] == t.queue[j],
        s.schedule == t.schedule,
        s.authorizations == t.authorizations,
        s.receipts == t.receipts,
    ensures
        s.entry_ok(k, key_usable, signature_valid) == t.entry_ok(j, key_usable, signature_valid),
{
    reveal(WalletState::entry_ok);
}

/// No receipt names a payment the queue does not hold.
proof fn lemma_no_receipt_for_new_payment(s: WalletState, id: Identifier)
    requires
        forall|r: int|
            0 <= r < s.receipts.len() ==> s.entry_index((#[trigger] s.receipts[r]).payment_id) >= 0,
        s.entry_index(id) < 0,
    ensures
        s.receipt_index(id) < 0,
{
    crate::seqs::lemma_first_match(s.receipts, receipt_has_id(id));
    if s.receipt_index(id) >= 0 {
        let ri = s.receipt_index(id);
        assert(s.receipts[ri].payment_id == id);
        assert(s.entry_index(s.receipts[ri].payment_id) >= 0);
    }
}

proof fn lemma_accepted_is_new(
    s: WalletState,
    signed: SignedPayment,
    key_usable: bool,
    signature_valid: bool,
    now: u64,
)
    requires
        s.enqueue_result(signed, key_usable, signature_valid, now) == Ok::<
            EnqueueOutcome,
            WalletError,
        >(EnqueueOutcome::Accepted),
    ensures
        s.entry_index(signed.payment.payment_id) < 0,
{
    reveal(WalletState::enqueue_result);
}

proof fn lemma_enqueue_ids(s: WalletState, t: WalletState, signed: SignedPayment, now: u64)
    requires
        s.ids_unique(),
        s.entry_index(signed.payment.payment_id) < 0,
        enqueued(s, t, signed, now),
    ensures
        t.ids_unique(),
{
    let n = s.queue.len() as int;
    let id = signed.payment.payment_id;
    assert(t.queue =~= s.queue.push(t.queue.last()));
    let before = s.queue.map_values(entry_id_of());
    let after = t.queue.map_values(entry_id_of());
    assert(after =~= before.push(id));
    crate::seqs::lemma_first_match(s.queue, entry_has_id(id));
    assert forall|i: int, j: int| 0 <= i < j < after.len() implies #[trigger] after[i] != #[trigger] after[j] by {
        if j == n {
            assert(!(entry_has_id(id))(s.queue[i]));
        } else {
            assert(before[i] != before[j]);
        }
    }
}

proof fn lemma_enqueue_new_entry(
    s: WalletState,
    t: WalletState,
    signed: SignedPayment,
    key_usable: bool,
    signature_valid: bool,
    now: u64,
)
    requires
        forall|r: int|
            0 <= r < s.receipts.len() ==> s.entry_index((#[trigger] s.receipts[r]).payment_id) >= 0,
        s.enqueue_result(signed, key_usable, signature_valid, now) == Ok::<
            EnqueueOutcome,
            WalletError,
        >(EnqueueOutcome::Accepted),
        enqueued(s, t, signed, now),
    ensures
        t.entry_ok(s.queue.len() as int, key_usable, signature_valid),
{
    reveal(WalletState::enqueue_result);
    reveal(WalletState::new_payment_error);
    reveal(WalletState::entry_ok);
    lemma_no_receipt_for_new_payment(s, signed.payment.payment_id);
    assert(t.queue[s.queue.len() as int] == t.queue.last());
}

proof fn lemma_enqueue_receipts(s: WalletState, t: WalletState, signed: SignedPayment, now: u64)
    requires
        forall|r: int|
            0 <= r < s.receipts.len() ==> s.entry_index((#[trigger] s.receipts[r]).payment_id) >= 0,
        enqueued(s, t, signed, now),
    ensures
        forall|r: int|
            0 <= r < t.receipts.len() ==> t.entry_index((#[trigger] t.receipts[r]).payment_id) >= 0,
{
    assert(t.queue =~= s.queue.push(t.queue.last()));
    assert forall|r: int| 0 <= r < t.receipts.len() implies t.entry_index(
        (#[trigger] t.receipts[r]).payment_id,
    ) >= 0 by {
        let rid = t.receipts[r].payment_id;
        assert(s.entry_index(rid) >= 0);
        crate::seqs::lemma_first_match_push(s.queue, t.queue.last(), entry_has_id(rid));
    }
}

/// The parts of a valid wallet.
proof fn lemma_records_valid_parts(s: WalletState, keys_usable: Seq<bool>, signatures_valid: Seq<bool>)
    requires
        s.records_valid(keys_usable, signatures_valid),
    ensures
        s.schedule.spec_valid(),
        s.retry.spec_valid(),
        keys_usable.len() == s.queue.len(),
        signatures_valid.len() == s.queue.len(),
        s.ids_unique(),
        forall|i: int| 0 <= i < s.authorizations.len() ==> #[trigger] s.authorization_ok(s.authorizations[i]),
        forall|k: int| 0 <= k < s.queue.len() ==> #[trigger] s.entry_ok(k, keys_usable[k], signatures_valid[k]),
        forall|r: int|
            0 <= r < s.receipts.len() ==> s.entry_index((#[trigger] s.receipts[r]).payment_id) >= 0,
{
    reveal(WalletState::records_valid);
}

/// A wallet with every part valid is valid.
proof fn lemma_records_valid_intro(s: WalletState, keys_usable: Seq<bool>, signatures_valid: Seq<bool>)
    requires
        s.schedule.spec_valid(),
        s.retry.spec_valid(),
        keys_usable.len() == s.queue.len(),
        signatures_valid.len() == s.queue.len(),
        s.ids_unique(),
        forall|i: int| 0 <= i < s.authorizations.len() ==> #[trigger] s.authorization_ok(s.authorizations[i]),
        forall|k: int| 0 <= k < s.queue.len() ==> #[trigger] s.entry_ok(k, keys_usable[k], signatures_valid[k]),
        forall|r: int|
            0 <= r < s.receipts.len() ==> s.entry_index((#[trigger] s.receipts[r]).payment_id) >= 0,
    ensures
        s.records_valid(keys_usable, signatures_valid),
{
    reveal(WalletState::records_valid);
}

/// Accepting a payment keeps a valid wallet valid, with the identity
/// layer's answers for the new entry appended.
pub proof fn law_enqueue_keeps_the_wallet_valid(
    s: WalletState,
    t: WalletState,
    signed: SignedPayment,
    key_usable: bool,
    signature_valid: bool,
    now: u64,
    keys_usable: Seq<bool>,
    signatures_valid: Seq<bool>,
)
    requires
        s.records_valid(keys_usable, signatures_valid),
        s.enqueue_result(signed, key_usable, signature_valid, now) == Ok::<
            EnqueueOutcome,
            WalletError,
        >(EnqueueOutcome::Accepted),
        enqueued(s, t, signed, now),
    ensures
        t.records_valid(keys_usable.push(key_usable), signatures_valid.push(signature_valid)),
{
    let n = s.queue.len() as int;
    let ku = keys_usable.push(key_usable);
    let sv = signatures_valid.push(signature_valid);
    lemma_records_valid_parts(s, keys_usable, signatures_valid);
    lemma_accepted_is_new(s, signed, key_usable, signature_valid, now);
    lemma_enqueue_ids(s, t, signed, now);
    lemma_enqueue_new_entry(s, t, signed, key_usable, signature_valid, now);
    lemma_enqueue_receipts(s, t, signed, now);
    assert(t.queue =~= s.queue.push(t.queue.last()));
    assert forall|k: int| 0 <= k < t.queue.len() implies #[trigger] t.entry_ok(k, ku[k], sv[k]) by {
        if k < n {
            assert(s.entry_ok(k, keys_usable[k], signatures_valid[k]));
            lemma_entry_ok_frame(s, t, k, k, ku[k], sv[k]);
        }
    }
    assert forall|i: int| 0 <= i < t.authorizations.len() implies #[trigger] t.authorization_ok(
        t.authorizations[i],
    ) by {
        assert(s.authorization_ok(s.authorizations[i]));
    }
    lemma_records_valid_intro(t, ku, sv);
}

/// An entry's validity depends on the receipts only through the receipt
/// recorded under its payment.
proof fn lemma_entry_ok_receipt_frame(
    s: WalletState,
    t: WalletState,
    k: int,
    key_usable: bool,
    signature_valid: bool,
)
    requires
        0 <= k < s.queue.len(),
        k < t.queue.len(),
        s.queue[k] == t.queue[k],
        s.schedule == t.schedule,
        s.authorizations == t.authorizations,
        s.receipt_index(s.queue[k].payment.payment.payment_id) == t.receipt_index(
            s.queue[k].payment.payment.payment_id,
        ),
        s.receipt_index(s.queue[k].payment.payment.payment_id) >= 0 ==> s.receipts[s.receipt_index(
            s.queue[k].payment.payment.payment_id,
        )] == t.receipts[s.receipt_index(s.queue[k].payment.payment.payment_id)],
    ensures
        s.entry_ok(k, key_usable, signature_valid) == t.entry_ok(k, key_usable, signature_valid),
{
    reveal(WalletState::entry_ok);
}

/// Moving a payment between delivery states other than acknowledged keeps a
/// valid wallet valid: marking it in flight, scheduling its retry, and
/// abandoning it.
pub proof fn law_delivery_keeps_the_wallet_valid(
    s: WalletState,
    i: int,
    status: QueueStatus,
    keys_usable: Seq<bool>,
    signatures_valid: Seq<bool>,
)
    requires
        s.records_valid(keys_usable, signatures_valid),
        0 <= i < s.queue.len(),
        !(s.queue[i].status is Acknowledged),
        !(status is Acknowledged),
    ensures
        s.set_status(i, status).records_valid(keys_usable, signatures_valid),
{
    let t = s.set_status(i, status);
    lemma_records_valid_parts(s, keys_usable, signatures_valid);
    assert(t.queue.map_values(entry_id_of()) =~= s.queue.map_values(entry_id_of()));
    assert forall|k: int| 0 <= k < t.queue.len() implies #[trigger] t.entry_ok(
        k,
        keys_usable[k],
        signatures_valid[k],
    ) by {
        assert(s.entry_ok(k, keys_usable[k], signatures_valid[k]));
        if k != i {
            lemma_entry_ok_frame(s, t, k, k, keys_usable[k], signatures_valid[k]);
        } else {
            reveal(WalletState::entry_ok);
        }
    }
    assert forall|r: int| 0 <= r < t.receipts.len() implies t.entry_index(
        (#[trigger] t.receipts[r]).payment_id,
    ) >= 0 by {
        let rid = t.receipts[r].payment_id;
        assert(s.entry_index(rid) >= 0);
        crate::seqs::lemma_first_match_update(
            s.queue,
            i,
            with_status(s.queue[i], status),
            entry_has_id(rid),
        );
    }
    assert forall|j: int| 0 <= j < t.authorizations.len() implies #[trigger] t.authorization_ok(
        t.authorizations[j],
    ) by {
        assert(s.authorization_ok(s.authorizations[j]));
    }
    lemma_records_valid_intro(t, keys_usable, signatures_valid);
}

/// Reconciling a matching receipt keeps a valid wallet valid: the payment
/// is acknowledged and the receipt recorded under it.
pub proof fn law_reconcile_keeps_the_wallet_valid(
    s: WalletState,
    receipt: SettlementReceipt,
    keys_usable: Seq<bool>,
    signatures_valid: Seq<bool>,
)
    requires
        s.records_valid(keys_usable, signatures_valid),
        s.reconcile_result(receipt) == Ok::<Reconciliation, WalletError>(Reconciliation::Matched),
    ensures
        s.after_reconcile(receipt).records_valid(keys_usable, signatures_valid),
{
    let id = receipt.payment_id;
    let ei = s.entry_index(id);
    let t = s.after_reconcile(receipt);
    lemma_records_valid_parts(s, keys_usable, signatures_valid);
    crate::seqs::lemma_first_match(s.queue, entry_has_id(id));
    crate::seqs::lemma_first_match(s.receipts, receipt_has_id(id));
    // The payment was not acknowledged, so no receipt names it yet.
    assert(s.entry_ok(ei, keys_usable[ei], signatures_valid[ei]));
    assert(s.receipt_index(id) < 0) by {
        reveal(WalletState::entry_ok);
    }
    let n = s.receipts.len() as int;
    assert(t.receipts == s.receipts.push(receipt));
    crate::seqs::lemma_first_match_push(s.receipts, receipt, receipt_has_id(id));
    // Identifiers stay unique.
    assert(t.queue.map_values(entry_id_of()) =~= s.queue.map_values(entry_id_of()));
    let before = s.receipts.map_values(receipt_id_of());
    let after = t.receipts.map_values(receipt_id_of());
    assert(after =~= before.push(id));
    assert forall|a: int, b: int| 0 <= a < b < after.len() implies #[trigger] after[a] != #[trigger] after[b] by {
        if b == n {
            assert(!(receipt_has_id(id))(s.receipts[a]));
        } else {
            assert(before[a] != before[b]);
        }
    }
    // Other entries see the same receipt under their payment.
    assert forall|k: int| 0 <= k < t.queue.len() implies #[trigger] t.entry_ok(
        k,
        keys_usable[k],
        signatures_valid[k],
    ) by {
        assert(s.entry_ok(k, keys_usable[k], signatures_valid[k]));
        if k != ei {
            let kid = s.queue[k].payment.payment.payment_id;
            assert(s.queue.map_values(entry_id_of())[k] != s.queue.map_values(entry_id_of())[ei]);
            assert(kid != id);
            crate::seqs::lemma_first_match_push(s.receipts, receipt, receipt_has_id(kid));
            crate::seqs::lemma_first_match(s.receipts, receipt_has_id(kid));
            lemma_entry_ok_receipt_frame(s, t, k, keys_usable[k], signatures_valid[k]);
        } else {
            reveal(WalletState::entry_ok);
            assert(t.receipts[n] == receipt);
        }
    }
    assert forall|r: int| 0 <= r < t.receipts.len() implies t.entry_index(
        (#[trigger] t.receipts[r]).payment_id,
    ) >= 0 by {
        let rid = t.receipts[r].payment_id;
        crate::seqs::lemma_first_match_update(
            s.queue,
            ei,
            with_status(s.queue[ei], acknowledged_by(receipt)),
            entry_has_id(rid),
        );
        if r < n {
            assert(s.entry_index(rid) >= 0);
        }
    }
    assert forall|j: int| 0 <= j < t.authorizations.len() implies #[trigger] t.authorization_ok(
        t.authorizations[j],
    ) by {
        assert(s.authorization_ok(s.authorizations[j]));
    }
    lemma_records_valid_intro(t, keys_usable, signatures_valid);
}

/// Adding an authorization keeps a valid wallet valid.
pub proof fn law_add_authorization_keeps_the_wallet_valid(
    s: WalletState,
    authorization: PreAuthorization,
    key_usable: bool,
    keys_usable: Seq<bool>,
    signatures_valid: Seq<bool>,
)
    requires
        s.records_valid(keys_usable, signatures_valid),
        s.add_authorization_error(authorization, key_usable) is None,
    ensures
        (WalletState {
            authorizations: s.authorizations.push(authorization),
            ..s
        }).records_valid(keys_usable, signatures_valid),
{
    let t = WalletState { authorizations: s.authorizations.push(authorization), ..s };
    let id = authorization.authorization_id;
    let n = s.authorizations.len() as int;
    lemma_records_valid_parts(s, keys_usable, signatures_valid);
    crate::seqs::lemma_first_match(s.authorizations, authorization_has_id(id));
    let before = s.authorizations.map_values(authorization_id_of());
    let after = t.authorizations.map_values(authorization_id_of());
    assert(after =~= before.push(id));
    assert forall|a: int, b: int| 0 <= a < b < after.len() implies #[trigger] after[a] != #[trigger] after[b] by {
        if b == n {
            assert(!(authorization_has_id(id))(s.authorizations[a]));
        } else {
            assert(before[a] != before[b]);
        }
    }
    assert forall|k: int| 0 <= k < t.queue.len() implies #[trigger] t.entry_ok(
        k,
        keys_usable[k],
        signatures_valid[k],
    ) by {
        assert(s.entry_ok(k, keys_usable[k], signatures_valid[k]));
        reveal(WalletState::entry_ok);
        let aid = s.queue[k].payment.payment.authorization_id;
        crate::seqs::lemma_first_match_push(s.authorizations, authorization, authorization_has_id(aid));
        crate::seqs::lemma_first_match(s.authorizations, authorization_has_id(aid));
    }
    assert forall|j: int| 0 <= j < t.authorizations.len() implies #[trigger] t.authorization_ok(
        t.authorizations[j],
    ) by {
        if j < n {
            assert(s.authorization_ok(s.authorizations[j]));
        }
    }
    lemma_records_valid_intro(t, keys_usable, signatures_valid);
}

/// An installment due by `now` is unsettled exactly when it is scheduled,
/// due, and no queued payment of it has been acknowledged by the
/// authoritative side: a pending, in-flight, retrying or abandoned payment
/// settles nothing.
pub proof fn law_only_an_acknowledged_payment_settles_an_installment(
    installments: Seq<Installment>,
    queue: Seq<QueueEntry>,
    now: u64,
    d: Installment,
)
    ensures
        unsettled(installments, queue, now).contains(d) <==> ({
            &&& installments.contains(d)
            &&& d.due_at <= now
            &&& forall|i: int|
                0 <= i < queue.len() && (#[trigger] queue[i]).payment.payment.installment_sequence
                    == d.sequence ==> !(queue[i].status is Acknowledged)
        }),
    decreases installments.len(),
{
    let xs = installments;
    if xs.len() > 0 {
        let rest = xs.drop_last();
        law_only_an_acknowledged_payment_settles_an_installment(rest, queue, now, d);
        let m = unsettled(rest, queue, now);
        assert(xs =~= rest.push(xs.last()));
        if xs.contains(d) {
            let k = choose|k: int| 0 <= k < xs.len() && xs[k] == d;
            if k < rest.len() {
                assert(rest[k] == d);
            }
        }
        if rest.contains(d) {
            let k = choose|k: int| 0 <= k < rest.len() && rest[k] == d;
            assert(xs[k] == d);
        }
        if xs.last().due_at <= now && !acknowledged_for(queue, xs.last().sequence) {
            assert(m.push(xs.last())[m.len() as int] == xs.last());
            if m.contains(d) {
                let k = choose|k: int| 0 <= k < m.len() && m[k] == d;
                assert(m.push(xs.last())[k] == d);
            }
            if m.push(xs.last()).contains(d) {
                let k = choose|k: int| 0 <= k < m.len() + 1 && m.push(xs.last())[k] == d;
                if k < m.len() {
                    assert(m[k] == d);
                }
            }
        }
    }
}

} // verus!
