//! Receivable tokenization: what a token of an Aethel receivable is, how much
//! of it may exist, and what an external asset ledger is asked to do.
//!
//! A [`TokenSeries`] binds one receivable series to one DeFMI asset and fixes
//! the unit, the optional tranches, the issuance cap, the transfer
//! restriction, and the redemption conditions. An [`IssuanceAuthorization`]
//! opens the unit count a host proved for one `ReceivableIssuance`; every
//! [`SupplyIntent`] names that issuance and its series, and supply accounting
//! refuses a mint beyond the authorization or a burn beyond what was minted.
//!
//! The book holds no balances and nothing keyed by a holder.

use vstd::prelude::*;

use crate::artifacts::LossLayer;
use crate::canon::{
    dec, items, json_id, json_list, lemma_items_step, lit, opt_id_field, push_id, push_lit,
    push_opt_id_field, push_u64,
};
use crate::order::{
    json_key_set, json_object, lemma_map_full, lemma_map_prefix_push, lemma_views_push, views,
    write_key_set, write_object,
};
use crate::receivable::{ReceivableIssuance, ReceivableSeries};
use crate::seqs::{
    first_match, lemma_first_match, lemma_first_match_step, lemma_full_prefix, sum_of,
};
use crate::types::{
    digest, is_some_zero, is_zero, is_zero_id, push_all, same_id, some_zero, spec_digest,
    spec_valid_time, spec_valid_window, valid_time, valid_window, Commitment, Identifier,
};

verus! {

/// Why the tokenization book refused an operation.
#[derive(Clone, Copy, Debug, PartialEq, Eq, Structural)]
pub enum TokenizationError {
    Encoding,
    InvalidState,
    InvalidTokenSeries,
    UnknownTokenSeries,
    DuplicateTokenSeries,
    TokenSeriesUnavailable,
    SeriesMismatch,
    InvalidAuthorization,
    IssuanceMismatch,
    UnknownAuthorization,
    DuplicateAuthorization,
    SupplyExceedsAuthorization,
    BurnExceedsSupply,
    RedemptionNotPermitted,
    UnknownTranche,
    InvalidIntent,
    UnknownIntent,
    IntentRejected,
    InvalidReceipt,
    OutsideValidityWindow,
    Replay,
    ArithmeticOverflow,
}

pub open spec fn token_series_domain() -> Seq<u8> {
    lit("AETHEL:TOKEN-SERIES:v1")
}

pub open spec fn issuance_authorization_domain() -> Seq<u8> {
    lit("AETHEL:ISSUANCE-AUTHORIZATION:v1")
}

pub open spec fn supply_intent_domain() -> Seq<u8> {
    lit("AETHEL:SUPPLY-INTENT:v1")
}

#[derive(Clone, Copy, Debug, PartialEq, Eq, Structural)]
pub enum TokenSeriesStatus {
    /// Authorizations, mints, and burns are accepted.
    Open,
    /// No new authorization or mint; burns still settle outstanding units.
    Frozen,
    /// Every unit has been burned; terminal.
    Redeemed,
}

impl TokenSeriesStatus {
    pub open spec fn json(self) -> Seq<u8> {
        match self {
            TokenSeriesStatus::Open => lit("\"open\""),
            TokenSeriesStatus::Frozen => lit("\"frozen\""),
            TokenSeriesStatus::Redeemed => lit("\"redeemed\""),
        }
    }

    pub fn push_json(&self, out: &mut Vec<u8>)
        ensures
            final(out)@ == old(out)@ + self.json(),
    {
        match self {
            TokenSeriesStatus::Open => push_lit(out, "\"open\""),
            TokenSeriesStatus::Frozen => push_lit(out, "\"frozen\""),
            TokenSeriesStatus::Redeemed => push_lit(out, "\"redeemed\""),
        }
    }
}

/// Who may take a unit from its current holder. The restriction is evaluated
/// by the distribution boundary; the ledger enforces the resulting lock.
#[derive(Clone, Copy, Debug, PartialEq, Eq)]
pub enum TransferRestriction {
    NonTransferable,
    IssuerRepurchaseOnly { issuer_commitment: Commitment },
    QualifiedHolders { eligibility_policy_digest: Commitment },
    Unrestricted,
}

impl TransferRestriction {
    pub open spec fn spec_valid(self) -> bool {
        match self {
            TransferRestriction::IssuerRepurchaseOnly { issuer_commitment } => !is_zero(
                issuer_commitment,
            ),
            TransferRestriction::QualifiedHolders { eligibility_policy_digest } => !is_zero(
                eligibility_policy_digest,
            ),
            _ => true,
        }
    }

    fn validate(&self) -> (r: Result<(), TokenizationError>)
        ensures
            r is Ok <==> self.spec_valid(),
            r matches Err(e) ==> e == TokenizationError::InvalidTokenSeries,
    {
        match self {
            TransferRestriction::IssuerRepurchaseOnly { issuer_commitment } => {
                if is_zero_id(issuer_commitment) {
                    return Err(TokenizationError::InvalidTokenSeries);
                }
            },
            TransferRestriction::QualifiedHolders { eligibility_policy_digest } => {
                if is_zero_id(eligibility_policy_digest) {
                    return Err(TokenizationError::InvalidTokenSeries);
                }
            },
            _ => {},
        }
        Ok(())
    }

    /// Whether a holder other than the issuer may ever receive a unit.
    pub open spec fn spec_permits_secondary_transfer(self) -> bool {
        self is QualifiedHolders || self is Unrestricted
    }

    /// Whether a holder other than the issuer may ever receive a unit.
    pub fn permits_secondary_transfer(&self) -> (r: bool)
        ensures
            r == self.spec_permits_secondary_transfer(),
    {
        match self {
            TransferRestriction::QualifiedHolders { .. } | TransferRestriction::Unrestricted => true,
            _ => false,
        }
    }

    pub open spec fn json(self) -> Seq<u8> {
        match self {
            TransferRestriction::NonTransferable => lit("{\"kind\":\"non_transferable\"}"),
            TransferRestriction::IssuerRepurchaseOnly { issuer_commitment } => lit(
                "{\"kind\":\"issuer_repurchase_only\",\"issuer_commitment\":",
            ) + json_id(issuer_commitment) + lit("}"),
            TransferRestriction::QualifiedHolders { eligibility_policy_digest } => lit(
                "{\"kind\":\"qualified_holders\",\"eligibility_policy_digest\":",
            ) + json_id(eligibility_policy_digest) + lit("}"),
            TransferRestriction::Unrestricted => lit("{\"kind\":\"unrestricted\"}"),
        }
    }

    pub fn push_json(&self, out: &mut Vec<u8>)
        ensures
            final(out)@ == old(out)@ + self.json(),
    {
        let mut part: Vec<u8> = Vec::new();
        match self {
            TransferRestriction::NonTransferable => {
                push_lit(&mut part, "{\"kind\":\"non_transferable\"}");
            },
            TransferRestriction::IssuerRepurchaseOnly { issuer_commitment } => {
                push_lit(&mut part, "{\"kind\":\"issuer_repurchase_only\",\"issuer_commitment\":");
                push_id(&mut part, issuer_commitment);
                push_lit(&mut part, "}");
            },
            TransferRestriction::QualifiedHolders { eligibility_policy_digest } => {
                push_lit(&mut part, "{\"kind\":\"qualified_holders\",\"eligibility_policy_digest\":");
                push_id(&mut part, eligibility_policy_digest);
                push_lit(&mut part, "}");
            },
            TransferRestriction::Unrestricted => {
                push_lit(&mut part, "{\"kind\":\"unrestricted\"}");
            },
        }
        assert(part@ =~= self.json());
        push_all(out, part.as_slice());
    }
}

#[derive(Clone, Copy, Debug, PartialEq, Eq, Structural)]
pub enum RedemptionCondition {
    /// The stream closed with the receivable paid: units redeem for cash.
    StreamClosed,
    /// A guarantee claim settled: units redeem against the recovery.
    GuaranteeClaimSettled,
    /// The series reached maturity.
    Maturity,
}

impl RedemptionCondition {
    pub open spec fn json(self) -> Seq<u8> {
        match self {
            RedemptionCondition::StreamClosed => lit("\"stream_closed\""),
            RedemptionCondition::GuaranteeClaimSettled => lit("\"guarantee_claim_settled\""),
            RedemptionCondition::Maturity => lit("\"maturity\""),
        }
    }

    pub fn push_json(&self, out: &mut Vec<u8>)
        ensures
            final(out)@ == old(out)@ + self.json(),
    {
        match self {
            RedemptionCondition::StreamClosed => push_lit(out, "\"stream_closed\""),
            RedemptionCondition::GuaranteeClaimSettled => push_lit(
                out,
                "\"guarantee_claim_settled\"",
            ),
            RedemptionCondition::Maturity => push_lit(out, "\"maturity\""),
        }
    }
}

#[derive(Clone, Copy, Debug, PartialEq, Eq, Structural)]
pub enum BurnReason {
    Redemption,
    GuaranteeClaim,
    /// The issuer withdraws units it still holds before any transfer.
    Cancellation,
}

impl BurnReason {
    pub open spec fn json(self) -> Seq<u8> {
        match self {
            BurnReason::Redemption => lit("\"redemption\""),
            BurnReason::GuaranteeClaim => lit("\"guarantee_claim\""),
            BurnReason::Cancellation => lit("\"cancellation\""),
        }
    }

    pub fn push_json(&self, out: &mut Vec<u8>)
        ensures
            final(out)@ == old(out)@ + self.json(),
    {
        match self {
            BurnReason::Redemption => push_lit(out, "\"redemption\""),
            BurnReason::GuaranteeClaim => push_lit(out, "\"guarantee_claim\""),
            BurnReason::Cancellation => push_lit(out, "\"cancellation\""),
        }
    }
}

/// One loss-layer class of a series. Tranche caps partition the issuance cap.
#[derive(Clone, Copy, Debug, PartialEq, Eq)]
pub struct Tranche {
    pub tranche_id: Identifier,
    pub loss_layer: LossLayer,
    pub unit_cap: u64,
}

impl Tranche {
    pub open spec fn json(self) -> Seq<u8> {
        lit("{\"trancheId\":") + json_id(self.tranche_id) + lit(",\"lossLayer\":")
            + self.loss_layer.json() + lit(",\"unitCap\":") + dec(self.unit_cap as nat) + lit("}")
    }
}

/// The token definition of one Aethel receivable series.
#[derive(Clone, Debug, PartialEq, Eq)]
pub struct TokenSeries {
    pub token_series_id: Identifier,
    /// The Aethel `ReceivableSeries` this tokenizes.
    pub series_id: Identifier,
    /// The DeFMI asset the series' notes and these units live under.
    pub receivable_asset_id: Identifier,
    pub aethel_domain_id: Identifier,
    pub issuer_participant_id: Identifier,
    /// Units per whole receivable: 1 for an indivisible token.
    pub units_per_receivable: u64,
    /// Total units that may ever be authorized across the series' issuances.
    pub issuance_cap_units: u64,
    /// Empty for a single class; otherwise the caps sum to the issuance cap.
    pub tranches: Vec<Tranche>,
    pub transfer_restriction: TransferRestriction,
    pub redemption: Vec<RedemptionCondition>,
    pub valid_from: u64,
    pub maturity: u64,
    pub status: TokenSeriesStatus,
}

/// Units of a tranche cap, as a natural number.
pub open spec fn tranche_cap(t: Tranche) -> nat {
    t.unit_cap as nat
}

impl TokenSeries {
    /// The checks before the tranche checks.
    pub open spec fn head_ok(&self) -> bool {
        &&& !is_zero(self.token_series_id)
        &&& !is_zero(self.series_id)
        &&& !is_zero(self.receivable_asset_id)
        &&& !is_zero(self.aethel_domain_id)
        &&& !is_zero(self.issuer_participant_id)
        &&& self.units_per_receivable != 0
        &&& self.issuance_cap_units != 0
        &&& self.redemption@.len() != 0
        &&& spec_valid_window(self.valid_from, self.maturity)
    }

    /// No redemption condition is listed twice.
    pub open spec fn redemption_distinct(&self) -> bool {
        forall|i: int, j: int|
            0 <= i < j < self.redemption@.len() ==> #[trigger] self.redemption@[i]
                != #[trigger] self.redemption@[j]
    }

    /// Whether tranche `k` fails, and with which error.
    pub open spec fn tranche_failure(&self, k: int) -> Option<TokenizationError> {
        let t = self.tranches@[k];
        if is_zero(t.tranche_id) || t.unit_cap == 0 || (exists|j: int|
            0 <= j < k && #[trigger] self.tranches@[j].tranche_id == t.tranche_id) {
            Some(TokenizationError::InvalidTokenSeries)
        } else if sum_of(self.tranches@.subrange(0, k + 1), |x: Tranche| tranche_cap(x))
            > u64::MAX {
            Some(TokenizationError::ArithmeticOverflow)
        } else {
            None
        }
    }

    pub open spec fn tranche_positions(&self) -> Seq<int> {
        Seq::new(self.tranches@.len(), |k: int| k)
    }

    pub open spec fn tranche_fails(&self) -> spec_fn(int) -> bool {
        |k: int| self.tranche_failure(k) is Some
    }

    pub open spec fn first_tranche_failure(&self) -> int {
        first_match(self.tranche_positions(), self.tranche_fails())
    }

    /// Sum of the tranche caps.
    pub open spec fn tranche_total(&self) -> nat {
        sum_of(self.tranches@, |x: Tranche| tranche_cap(x))
    }

    /// What [`TokenSeries::validate_initial`] returns.
    pub open spec fn validate_initial_result(&self) -> Result<(), TokenizationError> {
        if self.status != TokenSeriesStatus::Open {
            Err(TokenizationError::InvalidTokenSeries)
        } else {
            self.fields_result()
        }
    }

    /// The registration checks apart from the status.
    pub open spec fn fields_result(&self) -> Result<(), TokenizationError> {
        if !self.head_ok() || !self.transfer_restriction.spec_valid()
            || !self.redemption_distinct() {
            Err(TokenizationError::InvalidTokenSeries)
        } else if self.first_tranche_failure() >= 0 {
            Err(self.tranche_failure(self.first_tranche_failure()).unwrap())
        } else if self.tranches@.len() != 0 && self.tranche_total() != self.issuance_cap_units {
            Err(TokenizationError::InvalidTokenSeries)
        } else {
            Ok(())
        }
    }

    fn redemption_is_set(&self) -> (r: bool)
        ensures
            r == self.redemption_distinct(),
    {
        let s = &self.redemption;
        let mut j: usize = 0;
        while j < s.len()
            invariant
                j <= s@.len(),
                s@ == self.redemption@,
                forall|a: int, b: int| 0 <= a < b < j ==> #[trigger] s@[a] != #[trigger] s@[b],
            decreases s@.len() - j,
        {
            let mut i: usize = 0;
            while i < j
                invariant
                    i <= j < s@.len(),
                    s@ == self.redemption@,
                    forall|a: int| 0 <= a < i ==> #[trigger] s@[a] != s@[j as int],
                decreases j - i,
            {
                if s[i] == s[j] {
                    assert(!self.redemption_distinct()) by {
                        assert(s@[i as int] == s@[j as int]);
                    }
                    return false;
                }
                i = i + 1;
            }
            j = j + 1;
        }
        true
    }

    /// The registration form of a token series.
    pub fn validate_initial(&self) -> (r: Result<(), TokenizationError>)
        ensures
            r == self.validate_initial_result(),
    {
        if !matches!(self.status, TokenSeriesStatus::Open) {
            return Err(TokenizationError::InvalidTokenSeries);
        }
        self.validate_fields()
    }

    /// The registration checks apart from the status, which a stored series
    /// may have changed.
    pub fn validate_fields(&self) -> (r: Result<(), TokenizationError>)
        ensures
            r == self.fields_result(),
    {
        if is_zero_id(&self.token_series_id) || is_zero_id(&self.series_id) || is_zero_id(
            &self.receivable_asset_id,
        ) || is_zero_id(&self.aethel_domain_id) || is_zero_id(&self.issuer_participant_id)
            || self.units_per_receivable == 0 || self.issuance_cap_units == 0
            || self.redemption.len() == 0 || !valid_window(self.valid_from, self.maturity) {
            return Err(TokenizationError::InvalidTokenSeries);
        }
        match self.transfer_restriction.validate() {
            Ok(()) => {},
            Err(e) => return Err(e),
        }
        if !self.redemption_is_set() {
            return Err(TokenizationError::InvalidTokenSeries);
        }
        let ghost idx = self.tranche_positions();
        let ghost fails = self.tranche_fails();
        let ghost cap = |x: Tranche| tranche_cap(x);
        let t = &self.tranches;
        let mut total: u64 = 0;
        let mut i: usize = 0;
        while i < t.len()
            invariant
                i <= t@.len(),
                t@ == self.tranches@,
                idx == self.tranche_positions(),
                fails == self.tranche_fails(),
                cap == (|x: Tranche| tranche_cap(x)),
                self.head_ok(),
                self.transfer_restriction.spec_valid(),
                self.redemption_distinct(),
                first_match(idx.subrange(0, i as int), fails) == -1,
                total as nat == sum_of(t@.subrange(0, i as int), cap),
            decreases t@.len() - i,
        {
            proof {
                lemma_first_match_step(idx, i as int, fails);
                crate::seqs::lemma_sum_step(t@, i as int, cap);
            }
            assert(idx[i as int] == i as int);
            let mut duplicate = false;
            let mut j: usize = 0;
            while j < i
                invariant
                    j <= i < t@.len(),
                    t@ == self.tranches@,
                    duplicate == (exists|m: int|
                        0 <= m < j && #[trigger] self.tranches@[m].tranche_id
                            == self.tranches@[i as int].tranche_id),
                decreases i - j,
            {
                if same_id(&t[j].tranche_id, &t[i].tranche_id) {
                    duplicate = true;
                }
                j = j + 1;
            }
            if is_zero_id(&t[i].tranche_id) || t[i].unit_cap == 0 || duplicate {
                assert(fails(idx[i as int]));
                proof {
                    crate::provider::lemma_first_match_prefix_stop(idx, i as int, fails);
                }
                return Err(TokenizationError::InvalidTokenSeries);
            }
            match total.checked_add(t[i].unit_cap) {
                Some(next) => {
                    total = next;
                },
                None => {
                    assert(fails(idx[i as int]));
                    proof {
                        crate::provider::lemma_first_match_prefix_stop(idx, i as int, fails);
                    }
                    return Err(TokenizationError::ArithmeticOverflow);
                },
            }
            i = i + 1;
        }
        proof {
            lemma_full_prefix(idx);
            lemma_full_prefix(t@);
        }
        if t.len() != 0 && total != self.issuance_cap_units {
            return Err(TokenizationError::InvalidTokenSeries);
        }
        Ok(())
    }

    /// The token series describes exactly the Aethel series it names and
    /// promises no more transferability than the series policy allows.
    pub open spec fn spec_bound_to(&self, series: ReceivableSeries) -> bool {
        &&& series.series_id == self.series_id
        &&& series.receivable_asset_id == self.receivable_asset_id
        &&& series.aethel_domain_id == self.aethel_domain_id
        &&& series.issuer_participant_id == self.issuer_participant_id
        &&& series.maturity == self.maturity
        &&& !(!series.policy.allow_secondary_transfer
            && self.transfer_restriction.spec_permits_secondary_transfer())
    }

    /// The token series must describe exactly the Aethel series it names, and
    /// must not promise more transferability than the series policy allows.
    pub fn bound_to(&self, series: &ReceivableSeries) -> (r: Result<(), TokenizationError>)
        ensures
            r is Ok <==> self.spec_bound_to(*series),
            r matches Err(e) ==> e == TokenizationError::SeriesMismatch,
    {
        if !same_id(&series.series_id, &self.series_id) || !same_id(
            &series.receivable_asset_id,
            &self.receivable_asset_id,
        ) || !same_id(&series.aethel_domain_id, &self.aethel_domain_id) || !same_id(
            &series.issuer_participant_id,
            &self.issuer_participant_id,
        ) || series.maturity != self.maturity || (!series.policy.allow_secondary_transfer
            && self.transfer_restriction.permits_secondary_transfer()) {
            return Err(TokenizationError::SeriesMismatch);
        }
        Ok(())
    }

    /// Index of the first tranche with the id, or -1.
    pub open spec fn tranche_index(&self, tranche_id: Identifier) -> int {
        first_match(self.tranches@, |t: Tranche| t.tranche_id == tranche_id)
    }

    /// The tranche with the id, if the series has one.
    pub fn tranche(&self, tranche_id: &Identifier) -> (r: Option<&Tranche>)
        ensures
            r matches Some(t) ==> self.tranche_index(*tranche_id) >= 0 && *t
                == self.tranches@[self.tranche_index(*tranche_id)],
            r is None ==> self.tranche_index(*tranche_id) == -1,
    {
        let ghost p = |t: Tranche| t.tranche_id == *tranche_id;
        let mut i: usize = 0;
        while i < self.tranches.len()
            invariant
                i <= self.tranches@.len(),
                p == (|t: Tranche| t.tranche_id == *tranche_id),
                first_match(self.tranches@.subrange(0, i as int), p) == -1,
            decreases self.tranches@.len() - i,
        {
            proof {
                lemma_first_match_step(self.tranches@, i as int, p);
            }
            if same_id(&self.tranches[i].tranche_id, tranche_id) {
                proof {
                    crate::provider::lemma_first_match_prefix_stop(self.tranches@, i as int, p);
                }
                return Some(&self.tranches[i]);
            }
            i = i + 1;
        }
        proof {
            lemma_full_prefix(self.tranches@);
        }
        None
    }

    /// Whether the redemption conditions allow a burn for `reason`.
    pub open spec fn spec_permits_burn(&self, reason: BurnReason) -> bool {
        match reason {
            BurnReason::Cancellation => true,
            BurnReason::Redemption => self.redemption@.contains(RedemptionCondition::StreamClosed)
                || self.redemption@.contains(RedemptionCondition::Maturity),
            BurnReason::GuaranteeClaim => self.redemption@.contains(
                RedemptionCondition::GuaranteeClaimSettled,
            ),
        }
    }

    fn has_condition(&self, condition: RedemptionCondition) -> (r: bool)
        ensures
            r == self.redemption@.contains(condition),
    {
        let mut i: usize = 0;
        while i < self.redemption.len()
            invariant
                i <= self.redemption@.len(),
                forall|j: int| 0 <= j < i ==> self.redemption@[j] != condition,
            decreases self.redemption@.len() - i,
        {
            if self.redemption[i] == condition {
                assert(self.redemption@[i as int] == condition);
                return true;
            }
            i = i + 1;
        }
        false
    }

    fn permits_burn(&self, reason: BurnReason) -> (r: bool)
        ensures
            r == self.spec_permits_burn(reason),
    {
        match reason {
            BurnReason::Cancellation => true,
            BurnReason::Redemption => self.has_condition(RedemptionCondition::StreamClosed)
                || self.has_condition(RedemptionCondition::Maturity),
            BurnReason::GuaranteeClaim => self.has_condition(
                RedemptionCondition::GuaranteeClaimSettled,
            ),
        }
    }

    pub open spec fn json(&self) -> Seq<u8> {
        lit("{\"tokenSeriesId\":") + json_id(self.token_series_id) + lit(",\"seriesId\":")
            + json_id(self.series_id) + lit(",\"receivableAssetId\":") + json_id(
            self.receivable_asset_id,
        ) + lit(",\"aethelDomainId\":") + json_id(self.aethel_domain_id) + lit(
            ",\"issuerParticipantId\":",
        ) + json_id(self.issuer_participant_id) + lit(",\"unitsPerReceivable\":") + dec(
            self.units_per_receivable as nat,
        ) + lit(",\"issuanceCapUnits\":") + dec(self.issuance_cap_units as nat) + (
        if self.tranches@.len() == 0 {
            Seq::empty()
        } else {
            lit(",\"tranches\":") + json_list(self.tranches@, |t: Tranche| t.json())
        }) + lit(",\"transferRestriction\":") + self.transfer_restriction.json() + lit(
            ",\"redemption\":",
        ) + json_list(self.redemption@, |c: RedemptionCondition| c.json()) + lit(
            ",\"validFrom\":",
        ) + dec(self.valid_from as nat) + lit(",\"maturity\":") + dec(self.maturity as nat) + lit(
            ",\"status\":",
        ) + self.status.json() + lit("}")
    }

    pub fn json_bytes(&self) -> (r: Vec<u8>)
        ensures
            r@ == self.json(),
    {
        let mut out: Vec<u8> = Vec::new();
        push_lit(&mut out, "{\"tokenSeriesId\":");
        assert(out@ =~= lit("{\"tokenSeriesId\":"));
        push_id(&mut out, &self.token_series_id);
        push_lit(&mut out, ",\"seriesId\":");
        push_id(&mut out, &self.series_id);
        push_lit(&mut out, ",\"receivableAssetId\":");
        push_id(&mut out, &self.receivable_asset_id);
        push_lit(&mut out, ",\"aethelDomainId\":");
        push_id(&mut out, &self.aethel_domain_id);
        push_lit(&mut out, ",\"issuerParticipantId\":");
        push_id(&mut out, &self.issuer_participant_id);
        push_lit(&mut out, ",\"unitsPerReceivable\":");
        push_u64(&mut out, self.units_per_receivable);
        push_lit(&mut out, ",\"issuanceCapUnits\":");
        push_u64(&mut out, self.issuance_cap_units);
        let mut part: Vec<u8> = Vec::new();
        if self.tranches.len() != 0 {
            push_lit(&mut part, ",\"tranches\":");
            let list = tranches_json(&self.tranches);
            push_all(&mut part, list.as_slice());
        }
        assert(part@ =~= (if self.tranches@.len() == 0 {
            Seq::<u8>::empty()
        } else {
            lit(",\"tranches\":") + json_list(self.tranches@, |t: Tranche| t.json())
        }));
        push_all(&mut out, part.as_slice());
        push_lit(&mut out, ",\"transferRestriction\":");
        self.transfer_restriction.push_json(&mut out);
        push_lit(&mut out, ",\"redemption\":");
        let conditions = conditions_json(&self.redemption);
        push_all(&mut out, conditions.as_slice());
        push_lit(&mut out, ",\"validFrom\":");
        push_u64(&mut out, self.valid_from);
        push_lit(&mut out, ",\"maturity\":");
        push_u64(&mut out, self.maturity);
        push_lit(&mut out, ",\"status\":");
        self.status.push_json(&mut out);
        push_lit(&mut out, "}");
        out
    }
}

fn tranches_json(t: &Vec<Tranche>) -> (r: Vec<u8>)
    ensures
        r@ == json_list(t@, |x: Tranche| x.json()),
{
    let ghost enc = |x: Tranche| x.json();
    let mut out: Vec<u8> = Vec::new();
    out.push(91u8);
    let mut i: usize = 0;
    while i < t.len()
        invariant
            i <= t@.len(),
            enc == (|x: Tranche| x.json()),
            out@ == seq![91u8] + items(t@.subrange(0, i as int), enc),
        decreases t@.len() - i,
    {
        proof {
            lemma_items_step(t@, i as int, enc);
        }
        if i > 0 {
            out.push(44u8);
        }
        let mut one: Vec<u8> = Vec::new();
        push_lit(&mut one, "{\"trancheId\":");
        assert(one@ =~= lit("{\"trancheId\":"));
        push_id(&mut one, &t[i].tranche_id);
        push_lit(&mut one, ",\"lossLayer\":");
        t[i].loss_layer.push_json(&mut one);
        push_lit(&mut one, ",\"unitCap\":");
        push_u64(&mut one, t[i].unit_cap);
        push_lit(&mut one, "}");
        push_all(&mut out, one.as_slice());
        assert(out@ =~= seq![91u8] + items(t@.subrange(0, (i + 1) as int), enc));
        i = i + 1;
    }
    assert(t@.subrange(0, t@.len() as int) =~= t@);
    out.push(93u8);
    assert(out@ =~= json_list(t@, enc));
    out
}

fn conditions_json(c: &Vec<RedemptionCondition>) -> (r: Vec<u8>)
    ensures
        r@ == json_list(c@, |x: RedemptionCondition| x.json()),
{
    let ghost enc = |x: RedemptionCondition| x.json();
    let mut out: Vec<u8> = Vec::new();
    out.push(91u8);
    let mut i: usize = 0;
    while i < c.len()
        invariant
            i <= c@.len(),
            enc == (|x: RedemptionCondition| x.json()),
            out@ == seq![91u8] + items(c@.subrange(0, i as int), enc),
        decreases c@.len() - i,
    {
        proof {
            lemma_items_step(c@, i as int, enc);
        }
        if i > 0 {
            out.push(44u8);
        }
        c[i].push_json(&mut out);
        assert(out@ =~= seq![91u8] + items(c@.subrange(0, (i + 1) as int), enc));
        i = i + 1;
    }
    assert(c@.subrange(0, c@.len() as int) =~= c@);
    out.push(93u8);
    assert(out@ =~= json_list(c@, enc));
    out
}

#[derive(Clone, Debug, PartialEq, Eq)]
pub struct RegisterTokenSeries {
    pub operation_id: Identifier,
    pub token_series: TokenSeries,
}

impl RegisterTokenSeries {
    pub open spec fn encoding(&self) -> Seq<u8> {
        lit("{\"operationId\":") + json_id(self.operation_id) + lit(",\"tokenSeries\":")
            + self.token_series.json() + lit("}")
    }

    pub open spec fn statement_result(&self) -> Result<Seq<u8>, TokenizationError> {
        if is_zero(self.operation_id) {
            Err(TokenizationError::InvalidTokenSeries)
        } else {
            match self.token_series.validate_initial_result() {
                Err(e) => Err(e),
                Ok(()) => Ok(spec_digest(token_series_domain(), self.encoding())),
            }
        }
    }

    pub fn statement(&self) -> (r: Result<Commitment, TokenizationError>)
        ensures
            match r {
                Ok(d) => self.statement_result() == Ok::<Seq<u8>, TokenizationError>(d@),
                Err(e) => self.statement_result() == Err::<Seq<u8>, TokenizationError>(e),
            },
    {
        if is_zero_id(&self.operation_id) {
            return Err(TokenizationError::InvalidTokenSeries);
        }
        match self.token_series.validate_initial() {
            Ok(()) => {},
            Err(e) => return Err(e),
        }
        let mut out: Vec<u8> = Vec::new();
        push_lit(&mut out, "{\"operationId\":");
        assert(out@ =~= lit("{\"operationId\":"));
        push_id(&mut out, &self.operation_id);
        push_lit(&mut out, ",\"tokenSeries\":");
        let series = self.token_series.json_bytes();
        push_all(&mut out, series.as_slice());
        push_lit(&mut out, "}");
        Ok(digest("AETHEL:TOKEN-SERIES:v1".as_bytes(), out.as_slice()))
    }
}

/// The unit count a host opened for one Aethel issuance. The host verified
/// the issuance zkPI, which relates the committed face value to these units;
/// `authorization_digest` is that zkPI digest.
#[derive(Clone, Copy, Debug, PartialEq, Eq)]
pub struct IssuanceAuthorization {
    pub operation_id: Identifier,
    pub issuance_id: Identifier,
    pub token_series_id: Identifier,
    pub series_id: Identifier,
    pub note_id: Identifier,
    pub face_value_commitment: Commitment,
    pub authorized_units: u64,
    pub authorization_digest: Commitment,
    pub authorized_at: u64,
}

impl IssuanceAuthorization {
    pub open spec fn well_formed(self) -> bool {
        &&& !is_zero(self.operation_id)
        &&& !is_zero(self.issuance_id)
        &&& !is_zero(self.token_series_id)
        &&& !is_zero(self.series_id)
        &&& !is_zero(self.note_id)
        &&& !is_zero(self.face_value_commitment)
        &&& !is_zero(self.authorization_digest)
        &&& self.authorized_units != 0
        &&& spec_valid_time(self.authorized_at)
    }

    pub open spec fn encoding(self) -> Seq<u8> {
        lit("{\"operationId\":") + json_id(self.operation_id) + lit(",\"issuanceId\":") + json_id(
            self.issuance_id,
        ) + lit(",\"tokenSeriesId\":") + json_id(self.token_series_id) + lit(",\"seriesId\":")
            + json_id(self.series_id) + lit(",\"noteId\":") + json_id(self.note_id) + lit(
            ",\"faceValueCommitment\":",
        ) + json_id(self.face_value_commitment) + lit(",\"authorizedUnits\":") + dec(
            self.authorized_units as nat,
        ) + lit(",\"authorizationDigest\":") + json_id(self.authorization_digest) + lit(
            ",\"authorizedAt\":",
        ) + dec(self.authorized_at as nat) + lit("}")
    }

    pub open spec fn spec_statement(self) -> Seq<u8> {
        spec_digest(issuance_authorization_domain(), self.encoding())
    }

    pub fn encoding_bytes(&self) -> (r: Vec<u8>)
        ensures
            r@ == self.encoding(),
    {
        let mut out: Vec<u8> = Vec::new();
        push_lit(&mut out, "{\"operationId\":");
        assert(out@ =~= lit("{\"operationId\":"));
        push_id(&mut out, &self.operation_id);
        push_lit(&mut out, ",\"issuanceId\":");
        push_id(&mut out, &self.issuance_id);
        push_lit(&mut out, ",\"tokenSeriesId\":");
        push_id(&mut out, &self.token_series_id);
        push_lit(&mut out, ",\"seriesId\":");
        push_id(&mut out, &self.series_id);
        push_lit(&mut out, ",\"noteId\":");
        push_id(&mut out, &self.note_id);
        push_lit(&mut out, ",\"faceValueCommitment\":");
        push_id(&mut out, &self.face_value_commitment);
        push_lit(&mut out, ",\"authorizedUnits\":");
        push_u64(&mut out, self.authorized_units);
        push_lit(&mut out, ",\"authorizationDigest\":");
        push_id(&mut out, &self.authorization_digest);
        push_lit(&mut out, ",\"authorizedAt\":");
        push_u64(&mut out, self.authorized_at);
        push_lit(&mut out, "}");
        out
    }

    pub fn statement(&self) -> (r: Result<Commitment, TokenizationError>)
        ensures
            r matches Ok(d) ==> self.well_formed() && d@ == self.spec_statement(),
            r matches Err(e) ==> !self.well_formed() && e == TokenizationError::InvalidAuthorization,
    {
        if is_zero_id(&self.operation_id) || is_zero_id(&self.issuance_id) || is_zero_id(
            &self.token_series_id,
        ) || is_zero_id(&self.series_id) || is_zero_id(&self.note_id) || is_zero_id(
            &self.face_value_commitment,
        ) || is_zero_id(&self.authorization_digest) || self.authorized_units == 0 || !valid_time(
            self.authorized_at,
        ) {
            return Err(TokenizationError::InvalidAuthorization);
        }
        let out = self.encoding_bytes();
        Ok(digest("AETHEL:ISSUANCE-AUTHORIZATION:v1".as_bytes(), out.as_slice()))
    }

    /// The authorization names exactly the Aethel issuance it opens.
    pub open spec fn spec_bound_to(self, issuance: ReceivableIssuance) -> bool {
        &&& issuance.issuance_id == self.issuance_id
        &&& issuance.series_id == self.series_id
        &&& issuance.note_id == self.note_id
        &&& issuance.face_value_commitment == self.face_value_commitment
        &&& issuance.zkpi_digest == self.authorization_digest
    }

    /// The authorization must name exactly the Aethel issuance it opens.
    pub fn bound_to(&self, issuance: &ReceivableIssuance) -> (r: Result<(), TokenizationError>)
        ensures
            r is Ok <==> self.spec_bound_to(*issuance),
            r matches Err(e) ==> e == TokenizationError::IssuanceMismatch,
    {
        if !same_id(&issuance.issuance_id, &self.issuance_id) || !same_id(
            &issuance.series_id,
            &self.series_id,
        ) || !same_id(&issuance.note_id, &self.note_id) || !same_id(
            &issuance.face_value_commitment,
            &self.face_value_commitment,
        ) || !same_id(&issuance.zkpi_digest, &self.authorization_digest) {
            return Err(TokenizationError::IssuanceMismatch);
        }
        Ok(())
    }
}

/// What a supply intent asks the ledger to do.
#[derive(Clone, Copy, Debug, PartialEq, Eq)]
pub enum SupplyChange {
    Mint { units: u64, recipient_commitment: Commitment, tranche_id: Option<Identifier> },
    Burn {
        units: u64,
        holder_commitment: Commitment,
        tranche_id: Option<Identifier>,
        reason: BurnReason,
    },
}

impl SupplyChange {
    pub open spec fn spec_units(self) -> u64 {
        match self {
            SupplyChange::Mint { units, .. } => units,
            SupplyChange::Burn { units, .. } => units,
        }
    }

    pub open spec fn spec_tranche_id(self) -> Option<Identifier> {
        match self {
            SupplyChange::Mint { tranche_id, .. } => tranche_id,
            SupplyChange::Burn { tranche_id, .. } => tranche_id,
        }
    }

    pub open spec fn spec_subject(self) -> Commitment {
        match self {
            SupplyChange::Mint { recipient_commitment, .. } => recipient_commitment,
            SupplyChange::Burn { holder_commitment, .. } => holder_commitment,
        }
    }

    pub fn units(&self) -> (r: u64)
        ensures
            r == self.spec_units(),
    {
        match self {
            SupplyChange::Mint { units, .. } => *units,
            SupplyChange::Burn { units, .. } => *units,
        }
    }

    fn tranche_id(&self) -> (r: Option<Identifier>)
        ensures
            r == self.spec_tranche_id(),
    {
        match self {
            SupplyChange::Mint { tranche_id, .. } => *tranche_id,
            SupplyChange::Burn { tranche_id, .. } => *tranche_id,
        }
    }

    fn subject(&self) -> (r: Commitment)
        ensures
            r == self.spec_subject(),
    {
        match self {
            SupplyChange::Mint { recipient_commitment, .. } => *recipient_commitment,
            SupplyChange::Burn { holder_commitment, .. } => *holder_commitment,
        }
    }

    pub open spec fn json(self) -> Seq<u8> {
        match self {
            SupplyChange::Mint { units, recipient_commitment, tranche_id } => lit(
                "{\"kind\":\"mint\",\"units\":",
            ) + dec(units as nat) + lit(",\"recipient_commitment\":") + json_id(
                recipient_commitment,
            ) + opt_id_field(",\"tranche_id\":", tranche_id) + lit("}"),
            SupplyChange::Burn { units, holder_commitment, tranche_id, reason } => lit(
                "{\"kind\":\"burn\",\"units\":",
            ) + dec(units as nat) + lit(",\"holder_commitment\":") + json_id(holder_commitment)
                + opt_id_field(",\"tranche_id\":", tranche_id) + lit(",\"reason\":") + reason.json()
                + lit("}"),
        }
    }

    pub fn push_json(&self, out: &mut Vec<u8>)
        ensures
            final(out)@ == old(out)@ + self.json(),
    {
        let mut part: Vec<u8> = Vec::new();
        match self {
            SupplyChange::Mint { units, recipient_commitment, tranche_id } => {
                push_lit(&mut part, "{\"kind\":\"mint\",\"units\":");
                assert(part@ =~= lit("{\"kind\":\"mint\",\"units\":"));
                push_u64(&mut part, *units);
                push_lit(&mut part, ",\"recipient_commitment\":");
                push_id(&mut part, recipient_commitment);
                push_opt_id_field(&mut part, ",\"tranche_id\":", tranche_id);
                push_lit(&mut part, "}");
            },
            SupplyChange::Burn { units, holder_commitment, tranche_id, reason } => {
                push_lit(&mut part, "{\"kind\":\"burn\",\"units\":");
                assert(part@ =~= lit("{\"kind\":\"burn\",\"units\":"));
                push_u64(&mut part, *units);
                push_lit(&mut part, ",\"holder_commitment\":");
                push_id(&mut part, holder_commitment);
                push_opt_id_field(&mut part, ",\"tranche_id\":", tranche_id);
                push_lit(&mut part, ",\"reason\":");
                reason.push_json(&mut part);
                push_lit(&mut part, "}");
            },
        }
        push_all(out, part.as_slice());
    }
}

/// A validated command to the external asset ledger. Every intent names the
/// series and the issuance whose authorization it draws on.
#[derive(Clone, Copy, Debug, PartialEq, Eq)]
pub struct SupplyIntent {
    pub intent_id: Identifier,
    pub operation_id: Identifier,
    pub token_series_id: Identifier,
    pub series_id: Identifier,
    pub issuance_id: Identifier,
    pub receivable_asset_id: Identifier,
    pub change: SupplyChange,
    pub authorization_digest: Commitment,
    pub created_at: u64,
}

impl SupplyIntent {
    pub open spec fn well_formed(self) -> bool {
        &&& !is_zero(self.intent_id)
        &&& !is_zero(self.operation_id)
        &&& !is_zero(self.token_series_id)
        &&& !is_zero(self.series_id)
        &&& !is_zero(self.issuance_id)
        &&& !is_zero(self.receivable_asset_id)
        &&& !is_zero(self.authorization_digest)
        &&& !is_zero(self.change.spec_subject())
        &&& !some_zero(self.change.spec_tranche_id())
        &&& self.change.spec_units() != 0
        &&& spec_valid_time(self.created_at)
    }

    pub open spec fn encoding(self) -> Seq<u8> {
        lit("{\"intentId\":") + json_id(self.intent_id) + lit(",\"operationId\":") + json_id(
            self.operation_id,
        ) + lit(",\"tokenSeriesId\":") + json_id(self.token_series_id) + lit(",\"seriesId\":")
            + json_id(self.series_id) + lit(",\"issuanceId\":") + json_id(self.issuance_id) + lit(
            ",\"receivableAssetId\":",
        ) + json_id(self.receivable_asset_id) + lit(",\"change\":") + self.change.json() + lit(
            ",\"authorizationDigest\":",
        ) + json_id(self.authorization_digest) + lit(",\"createdAt\":") + dec(
            self.created_at as nat,
        ) + lit("}")
    }

    pub open spec fn spec_statement(self) -> Seq<u8> {
        spec_digest(supply_intent_domain(), self.encoding())
    }

    pub fn check(&self) -> (r: bool)
        ensures
            r == self.well_formed(),
    {
        !(is_zero_id(&self.intent_id) || is_zero_id(&self.operation_id) || is_zero_id(
            &self.token_series_id,
        ) || is_zero_id(&self.series_id) || is_zero_id(&self.issuance_id) || is_zero_id(
            &self.receivable_asset_id,
        ) || is_zero_id(&self.authorization_digest) || is_zero_id(&self.change.subject())
            || is_some_zero(&self.change.tranche_id()) || self.change.units() == 0 || !valid_time(
            self.created_at,
        ))
    }

    pub fn encoding_bytes(&self) -> (r: Vec<u8>)
        ensures
            r@ == self.encoding(),
    {
        let mut out: Vec<u8> = Vec::new();
        push_lit(&mut out, "{\"intentId\":");
        assert(out@ =~= lit("{\"intentId\":"));
        push_id(&mut out, &self.intent_id);
        push_lit(&mut out, ",\"operationId\":");
        push_id(&mut out, &self.operation_id);
        push_lit(&mut out, ",\"tokenSeriesId\":");
        push_id(&mut out, &self.token_series_id);
        push_lit(&mut out, ",\"seriesId\":");
        push_id(&mut out, &self.series_id);
        push_lit(&mut out, ",\"issuanceId\":");
        push_id(&mut out, &self.issuance_id);
        push_lit(&mut out, ",\"receivableAssetId\":");
        push_id(&mut out, &self.receivable_asset_id);
        push_lit(&mut out, ",\"change\":");
        self.change.push_json(&mut out);
        push_lit(&mut out, ",\"authorizationDigest\":");
        push_id(&mut out, &self.authorization_digest);
        push_lit(&mut out, ",\"createdAt\":");
        push_u64(&mut out, self.created_at);
        push_lit(&mut out, "}");
        out
    }

    pub fn statement(&self) -> (r: Result<Commitment, TokenizationError>)
        ensures
            r matches Ok(d) ==> self.well_formed() && d@ == self.spec_statement(),
            r matches Err(e) ==> !self.well_formed() && e == TokenizationError::InvalidIntent,
    {
        if !self.check() {
            return Err(TokenizationError::InvalidIntent);
        }
        let out = self.encoding_bytes();
        Ok(digest("AETHEL:SUPPLY-INTENT:v1".as_bytes(), out.as_slice()))
    }
}

/// What the ledger returns for an applied intent.
#[derive(Clone, Copy, Debug, PartialEq, Eq)]
pub struct SupplyReceipt {
    pub intent_id: Identifier,
    pub receipt_digest: Commitment,
    pub ledger_sequence: u64,
    pub finalized_at: u64,
}

/// The ledger refused an intent. The reason is the ledger's; the book only
/// records that the units were not created or destroyed.
#[derive(Clone, Copy, Debug, PartialEq, Eq)]
pub struct LedgerRejection {
    pub reason_digest: Commitment,
    pub rejected_at: u64,
}

/// The boundary to the authoritative asset ledger (DeFMI). The implementation
/// owns balances and ownership; the book never reads them back, and nothing
/// is assumed of what it returns.
/// The intents a ledger was handed, each with its answer, oldest first.
pub type LedgerExchanges = Seq<(SupplyIntent, Result<SupplyReceipt, LedgerRejection>)>;

pub trait AssetLedgerPort {
    /// Every intent handed to the ledger so far, each with the ledger's
    /// answer, oldest first.
    spec fn exchanges(&self) -> LedgerExchanges;

    /// Applies a supply intent; the ledger's answer is recorded beside the
    /// intent it was given.
    fn apply_supply_intent(&mut self, intent: &SupplyIntent) -> (r: Result<SupplyReceipt, LedgerRejection>)
        ensures
            final(self).exchanges() == old(self).exchanges().push((*intent, r)),
    ;
}

#[derive(Clone, Copy, Debug, PartialEq, Eq)]
pub enum IntentStatus {
    Pending,
    Applied { receipt: SupplyReceipt },
    Rejected { rejection: LedgerRejection },
}

#[derive(Clone, Copy, Debug, PartialEq, Eq)]
pub struct RecordedIntent {
    pub intent: SupplyIntent,
    pub status: IntentStatus,
}

/// Supply accounting for one issuance: the cap and the units that have been
/// or are being created against it. No holder appears here.
#[derive(Clone, Copy, Debug, PartialEq, Eq)]
pub struct SupplyAccount {
    pub authorized_units: u64,
    pub pending_mint: u64,
    pub minted: u64,
    pub pending_burn: u64,
    pub burned: u64,
}

impl SupplyAccount {
    /// Units that exist on the ledger.
    pub fn outstanding(&self) -> (r: u64)
        requires
            self.burned <= self.minted,
        ensures
            r == self.minted - self.burned,
    {
        self.minted - self.burned
    }

    fn committed_mint(&self) -> (r: u64)
        requires
            self.pending_mint + self.minted <= u64::MAX,
        ensures
            r == self.pending_mint + self.minted,
    {
        self.pending_mint + self.minted
    }
}

impl SupplyReceipt {
    pub open spec fn json(self) -> Seq<u8> {
        lit("{\"intentId\":") + json_id(self.intent_id) + lit(",\"receiptDigest\":") + json_id(
            self.receipt_digest,
        ) + lit(",\"ledgerSequence\":") + dec(self.ledger_sequence as nat) + lit(
            ",\"finalizedAt\":",
        ) + dec(self.finalized_at as nat) + lit("}")
    }

    pub fn push_json(&self, out: &mut Vec<u8>)
        ensures
            final(out)@ == old(out)@ + self.json(),
    {
        let mut part: Vec<u8> = Vec::new();
        push_lit(&mut part, "{\"intentId\":");
        assert(part@ =~= lit("{\"intentId\":"));
        push_id(&mut part, &self.intent_id);
        push_lit(&mut part, ",\"receiptDigest\":");
        push_id(&mut part, &self.receipt_digest);
        push_lit(&mut part, ",\"ledgerSequence\":");
        push_u64(&mut part, self.ledger_sequence);
        push_lit(&mut part, ",\"finalizedAt\":");
        push_u64(&mut part, self.finalized_at);
        push_lit(&mut part, "}");
        push_all(out, part.as_slice());
    }
}

impl LedgerRejection {
    pub open spec fn json(self) -> Seq<u8> {
        lit("{\"reasonDigest\":") + json_id(self.reason_digest) + lit(",\"rejectedAt\":") + dec(
            self.rejected_at as nat,
        ) + lit("}")
    }

    pub fn push_json(&self, out: &mut Vec<u8>)
        ensures
            final(out)@ == old(out)@ + self.json(),
    {
        let mut part: Vec<u8> = Vec::new();
        push_lit(&mut part, "{\"reasonDigest\":");
        assert(part@ =~= lit("{\"reasonDigest\":"));
        push_id(&mut part, &self.reason_digest);
        push_lit(&mut part, ",\"rejectedAt\":");
        push_u64(&mut part, self.rejected_at);
        push_lit(&mut part, "}");
        push_all(out, part.as_slice());
    }
}

impl IntentStatus {
    pub open spec fn json(self) -> Seq<u8> {
        match self {
            IntentStatus::Pending => lit("{\"status\":\"pending\"}"),
            IntentStatus::Applied { receipt } => lit("{\"status\":\"applied\",\"receipt\":")
                + receipt.json() + lit("}"),
            IntentStatus::Rejected { rejection } => lit(
                "{\"status\":\"rejected\",\"rejection\":",
            ) + rejection.json() + lit("}"),
        }
    }

    pub fn push_json(&self, out: &mut Vec<u8>)
        ensures
            final(out)@ == old(out)@ + self.json(),
    {
        let mut part: Vec<u8> = Vec::new();
        match self {
            IntentStatus::Pending => push_lit(&mut part, "{\"status\":\"pending\"}"),
            IntentStatus::Applied { receipt } => {
                push_lit(&mut part, "{\"status\":\"applied\",\"receipt\":");
                receipt.push_json(&mut part);
                push_lit(&mut part, "}");
            },
            IntentStatus::Rejected { rejection } => {
                push_lit(&mut part, "{\"status\":\"rejected\",\"rejection\":");
                rejection.push_json(&mut part);
                push_lit(&mut part, "}");
            },
        }
        assert(part@ =~= self.json());
        push_all(out, part.as_slice());
    }
}

impl RecordedIntent {
    pub open spec fn json(self) -> Seq<u8> {
        lit("{\"intent\":") + self.intent.encoding() + lit(",\"status\":") + self.status.json()
            + lit("}")
    }

    pub fn json_bytes(&self) -> (r: Vec<u8>)
        ensures
            r@ == self.json(),
    {
        let mut out: Vec<u8> = Vec::new();
        push_lit(&mut out, "{\"intent\":");
        assert(out@ =~= lit("{\"intent\":"));
        let intent = self.intent.encoding_bytes();
        push_all(&mut out, intent.as_slice());
        push_lit(&mut out, ",\"status\":");
        self.status.push_json(&mut out);
        push_lit(&mut out, "}");
        out
    }
}

impl SupplyAccount {
    pub open spec fn json(self) -> Seq<u8> {
        lit("{\"authorizedUnits\":") + dec(self.authorized_units as nat) + lit(
            ",\"pendingMint\":",
        ) + dec(self.pending_mint as nat) + lit(",\"minted\":") + dec(self.minted as nat) + lit(
            ",\"pendingBurn\":",
        ) + dec(self.pending_burn as nat) + lit(",\"burned\":") + dec(self.burned as nat) + lit(
            "}",
        )
    }

    pub fn json_bytes(&self) -> (r: Vec<u8>)
        ensures
            r@ == self.json(),
    {
        let mut out: Vec<u8> = Vec::new();
        push_lit(&mut out, "{\"authorizedUnits\":");
        assert(out@ =~= lit("{\"authorizedUnits\":"));
        push_u64(&mut out, self.authorized_units);
        push_lit(&mut out, ",\"pendingMint\":");
        push_u64(&mut out, self.pending_mint);
        push_lit(&mut out, ",\"minted\":");
        push_u64(&mut out, self.minted);
        push_lit(&mut out, ",\"pendingBurn\":");
        push_u64(&mut out, self.pending_burn);
        push_lit(&mut out, ",\"burned\":");
        push_u64(&mut out, self.burned);
        push_lit(&mut out, "}");
        out
    }
}

/// A request to create units against one issuance authorization.
#[derive(Clone, Copy, Debug, PartialEq, Eq)]
pub struct MintRequest {
    pub operation_id: Identifier,
    pub intent_id: Identifier,
    pub issuance_id: Identifier,
    pub units: u64,
    pub recipient_commitment: Commitment,
    pub tranche_id: Option<Identifier>,
}

/// A request to destroy units of one issuance.
#[derive(Clone, Copy, Debug, PartialEq, Eq)]
pub struct BurnRequest {
    pub operation_id: Identifier,
    pub intent_id: Identifier,
    pub issuance_id: Identifier,
    pub units: u64,
    pub holder_commitment: Commitment,
    pub tranche_id: Option<Identifier>,
    pub reason: BurnReason,
}

/// The tokenization book: token series, issuance authorizations with their
/// supply accounts, supply intents, and consumed operation ids.
///
/// `accounts[i]` is the supply account of the issuance `authorizations[i]`
/// opened; every identifier that keys a record occurs once.
#[derive(Debug)]
pub struct TokenizationBook {
    pub token_series: Vec<TokenSeries>,
    pub authorizations: Vec<IssuanceAuthorization>,
    pub accounts: Vec<SupplyAccount>,
    pub intents: Vec<RecordedIntent>,
    pub used_operations: Vec<Identifier>,
}

/// The mathematical content of a [`TokenizationBook`].
pub struct TokenizationState {
    pub token_series: Seq<TokenSeries>,
    pub authorizations: Seq<IssuanceAuthorization>,
    pub accounts: Seq<SupplyAccount>,
    pub intents: Seq<RecordedIntent>,
    pub used_operations: Seq<Identifier>,
}

impl View for TokenizationBook {
    type V = TokenizationState;

    open spec fn view(&self) -> TokenizationState {
        TokenizationState {
            token_series: self.token_series@,
            authorizations: self.authorizations@,
            accounts: self.accounts@,
            intents: self.intents@,
            used_operations: self.used_operations@,
        }
    }
}

pub open spec fn series_has_id(id: Identifier) -> spec_fn(TokenSeries) -> bool {
    |s: TokenSeries| s.token_series_id == id
}

pub open spec fn series_for(series_id: Identifier) -> spec_fn(TokenSeries) -> bool {
    |s: TokenSeries| s.series_id == series_id
}

pub open spec fn auth_has_id(id: Identifier) -> spec_fn(IssuanceAuthorization) -> bool {
    |a: IssuanceAuthorization| a.issuance_id == id
}

pub open spec fn auth_has_note(note_id: Identifier) -> spec_fn(IssuanceAuthorization) -> bool {
    |a: IssuanceAuthorization| a.note_id == note_id
}

pub open spec fn intent_has_id(id: Identifier) -> spec_fn(RecordedIntent) -> bool {
    |r: RecordedIntent| r.intent.intent_id == id
}

/// Units of pending mints of one issuance.
pub open spec fn pending_mint_of(issuance_id: Identifier) -> spec_fn(RecordedIntent) -> nat {
    |r: RecordedIntent|
        if r.intent.issuance_id == issuance_id && r.status is Pending && r.intent.change is Mint {
            r.intent.change.spec_units() as nat
        } else {
            0
        }
}

/// Units of applied mints of one issuance.
pub open spec fn minted_of(issuance_id: Identifier) -> spec_fn(RecordedIntent) -> nat {
    |r: RecordedIntent|
        if r.intent.issuance_id == issuance_id && r.status is Applied && r.intent.change is Mint {
            r.intent.change.spec_units() as nat
        } else {
            0
        }
}

/// Units of pending burns of one issuance.
pub open spec fn pending_burn_of(issuance_id: Identifier) -> spec_fn(RecordedIntent) -> nat {
    |r: RecordedIntent|
        if r.intent.issuance_id == issuance_id && r.status is Pending && r.intent.change is Burn {
            r.intent.change.spec_units() as nat
        } else {
            0
        }
}

/// Units of applied burns of one issuance.
pub open spec fn burned_of(issuance_id: Identifier) -> spec_fn(RecordedIntent) -> nat {
    |r: RecordedIntent|
        if r.intent.issuance_id == issuance_id && r.status is Applied && r.intent.change is Burn {
            r.intent.change.spec_units() as nat
        } else {
            0
        }
}

/// Units of mints into one tranche of one series that the ledger has not
/// rejected.
pub open spec fn tranche_mint_of(token_series_id: Identifier, tranche_id: Identifier) -> spec_fn(
    RecordedIntent,
) -> nat {
    |r: RecordedIntent|
        if r.intent.token_series_id == token_series_id && !(r.status is Rejected) && (
        r.intent.change matches SupplyChange::Mint { tranche_id: Some(t), .. } && t == tranche_id) {
            r.intent.change.spec_units() as nat
        } else {
            0
        }
}

/// Units authorized for one token series.
pub open spec fn authorized_in(token_series_id: Identifier) -> spec_fn(IssuanceAuthorization) -> nat {
    |a: IssuanceAuthorization|
        if a.token_series_id == token_series_id {
            a.authorized_units as nat
        } else {
            0
        }
}

/// A mint names a tranche exactly when the series has tranches, and then one
/// of them.
pub open spec fn tranche_choice_ok(series: TokenSeries, tranche_id: Option<Identifier>) -> bool {
    match tranche_id {
        None => series.tranches@.len() == 0,
        Some(id) => series.tranches@.len() != 0 && series.tranche_index(id) >= 0,
    }
}

impl TokenizationState {
    pub open spec fn series_index(self, id: Identifier) -> int {
        first_match(self.token_series, series_has_id(id))
    }

    pub open spec fn auth_index(self, issuance_id: Identifier) -> int {
        first_match(self.authorizations, auth_has_id(issuance_id))
    }

    pub open spec fn intent_index(self, intent_id: Identifier) -> int {
        first_match(self.intents, intent_has_id(intent_id))
    }

    pub open spec fn op_used(self, operation_id: Identifier) -> bool {
        self.used_operations.contains(operation_id)
    }

    /// Units of a series' tranche that are minted or pending.
    pub open spec fn tranche_committed(self, token_series_id: Identifier, tranche_id: Identifier) -> nat {
        sum_of(self.intents, tranche_mint_of(token_series_id, tranche_id))
    }

    /// Units authorized across the issuances of a series.
    pub open spec fn authorized_total(self, token_series_id: Identifier) -> nat {
        sum_of(self.authorizations, authorized_in(token_series_id))
    }

    /// Identifiers occur once, and accounts pair with authorizations.
    pub open spec fn shape(self) -> bool {
        &&& self.accounts.len() == self.authorizations.len()
        &&& forall|i: int, j: int|
            0 <= i < j < self.token_series.len() ==> (#[trigger] self.token_series[i]).token_series_id
                != (#[trigger] self.token_series[j]).token_series_id
        &&& forall|i: int, j: int|
            0 <= i < j < self.authorizations.len() ==> (#[trigger] self.authorizations[i]).issuance_id
                != (#[trigger] self.authorizations[j]).issuance_id
        &&& forall|i: int, j: int|
            0 <= i < j < self.intents.len() ==> (#[trigger] self.intents[i]).intent.intent_id != (
            #[trigger] self.intents[j]).intent.intent_id
    }

    /// Every series passes its registration checks, whatever its status.
    pub open spec fn series_ok(self) -> bool {
        forall|i: int| 0 <= i < self.token_series.len() ==> (#[trigger] self.token_series[i]).fields_result() is Ok
    }

    /// The account of issuance `i` is exactly what its intents say, and it
    /// never exceeds its authorization.
    pub open spec fn account_ok(self, i: int) -> bool {
        let a = self.authorizations[i];
        let acct = self.accounts[i];
        &&& acct.authorized_units == a.authorized_units
        &&& acct.pending_mint == sum_of(self.intents, pending_mint_of(a.issuance_id))
        &&& acct.minted == sum_of(self.intents, minted_of(a.issuance_id))
        &&& acct.pending_burn == sum_of(self.intents, pending_burn_of(a.issuance_id))
        &&& acct.burned == sum_of(self.intents, burned_of(a.issuance_id))
        &&& acct.pending_mint + acct.minted <= acct.authorized_units
        &&& acct.pending_burn + acct.burned <= acct.minted
    }

    /// Every authorization is well formed, names a registered series, and
    /// has a consistent account.
    pub open spec fn auths_ok(self) -> bool {
        forall|i: int|
            0 <= i < self.authorizations.len() ==> {
                let a = #[trigger] self.authorizations[i];
                let si = self.series_index(a.token_series_id);
                &&& a.well_formed()
                &&& si >= 0
                &&& self.token_series[si].series_id == a.series_id
                &&& self.account_ok(i)
            }
    }

    /// What the check of authorization `i` against the book gives: the
    /// artifact first, then whether its series is registered, then whether
    /// that series is the one the authorization names.
    pub open spec fn auth_result(self, i: int) -> Result<(), TokenizationError> {
        let a = self.authorizations[i];
        let si = self.series_index(a.token_series_id);
        if !a.well_formed() {
            Err(TokenizationError::InvalidAuthorization)
        } else if si < 0 {
            Err(TokenizationError::UnknownTokenSeries)
        } else if self.token_series[si].series_id != a.series_id {
            Err(TokenizationError::InvalidState)
        } else {
            Ok(())
        }
    }

    /// What the check of intent `k` against the book gives: the artifact
    /// first, then whether its authorization and its series are on record,
    /// then whether they describe it under a consumed operation id.
    pub open spec fn intent_result(self, k: int) -> Result<(), TokenizationError> {
        let intent = self.intents[k].intent;
        let ai = self.auth_index(intent.issuance_id);
        let si = self.series_index(intent.token_series_id);
        if !intent.well_formed() {
            Err(TokenizationError::InvalidIntent)
        } else if ai < 0 {
            Err(TokenizationError::UnknownAuthorization)
        } else if si < 0 {
            Err(TokenizationError::UnknownTokenSeries)
        } else if self.authorizations[ai].token_series_id != intent.token_series_id
            || self.authorizations[ai].authorization_digest != intent.authorization_digest
            || self.token_series[si].series_id != intent.series_id
            || self.token_series[si].receivable_asset_id != intent.receivable_asset_id
            || !self.op_used(intent.operation_id) {
            Err(TokenizationError::InvalidState)
        } else {
            Ok(())
        }
    }

    /// Authorizations of a series never exceed its issuance cap.
    pub open spec fn caps_ok(self) -> bool {
        forall|s: int|
            0 <= s < self.token_series.len() ==> self.authorized_total(
                (#[trigger] self.token_series[s]).token_series_id,
            ) <= self.token_series[s].issuance_cap_units
    }

    /// Every intent is well formed and names an authorization and a series
    /// that describe it, under a consumed operation id.
    pub open spec fn intents_ok(self) -> bool {
        forall|k: int|
            0 <= k < self.intents.len() ==> {
                let intent = (#[trigger] self.intents[k]).intent;
                let ai = self.auth_index(intent.issuance_id);
                let si = self.series_index(intent.token_series_id);
                &&& intent.well_formed()
                &&& ai >= 0
                &&& self.authorizations[ai].token_series_id == intent.token_series_id
                &&& self.authorizations[ai].authorization_digest == intent.authorization_digest
                &&& si >= 0
                &&& self.token_series[si].series_id == intent.series_id
                &&& self.token_series[si].receivable_asset_id == intent.receivable_asset_id
                &&& self.op_used(intent.operation_id)
            }
    }

    /// Minted and pending units of a tranche never exceed its cap.
    pub open spec fn tranches_ok(self) -> bool {
        forall|s: int, t: int|
            0 <= s < self.token_series.len() && 0 <= t < self.token_series[s].tranches@.len()
                ==> self.tranche_committed(
                (#[trigger] self.token_series[s]).token_series_id,
                (#[trigger] self.token_series[s].tranches@[t]).tranche_id,
            ) <= self.token_series[s].tranches@[t].unit_cap
    }

    /// What [`TokenizationBook::validate`] accepts.
    pub open spec fn records_valid(self) -> bool {
        &&& self.shape()
        &&& self.series_ok()
        &&& self.auths_ok()
        &&& self.caps_ok()
        &&& self.intents_ok()
    }

    /// The invariant every operation keeps.
    pub open spec fn inv(self) -> bool {
        &&& self.records_valid()
        &&& self.tranches_ok()
    }
}

/// Outstanding units of issuance `i` when it belongs to the series.
pub open spec fn outstanding_term(s: TokenizationState, token_series_id: Identifier) -> spec_fn(int) -> nat {
    |i: int|
        if s.authorizations[i].token_series_id == token_series_id {
            (s.accounts[i].minted - s.accounts[i].burned) as nat
        } else {
            0
        }
}

/// Pending units of issuance `i` when it belongs to the series.
pub open spec fn pending_term(s: TokenizationState, token_series_id: Identifier) -> spec_fn(int) -> nat {
    |i: int|
        if s.authorizations[i].token_series_id == token_series_id {
            (s.accounts[i].pending_mint + s.accounts[i].pending_burn) as nat
        } else {
            0
        }
}

/// Authorized units of issuance `i` when it belongs to the series.
pub open spec fn authorized_term(s: TokenizationState, token_series_id: Identifier) -> spec_fn(int) -> nat {
    |i: int| authorized_in(token_series_id)(s.authorizations[i])
}

impl TokenizationState {
    pub open spec fn positions(self) -> Seq<int> {
        Seq::new(self.authorizations.len(), |i: int| i)
    }

    /// Units of a series that exist on the ledger, summed over issuances.
    pub open spec fn outstanding_total(self, token_series_id: Identifier) -> nat {
        sum_of(self.positions(), outstanding_term(self, token_series_id))
    }

    /// Units of a series held by pending intents.
    pub open spec fn pending_total(self, token_series_id: Identifier) -> nat {
        sum_of(self.positions(), pending_term(self, token_series_id))
    }
}

/// Outstanding and pending units of a series are bounded by its
/// authorized units.
pub proof fn lemma_series_totals_bounded(s: TokenizationState, token_series_id: Identifier)
    requires
        s.shape(),
        s.auths_ok(),
    ensures
        s.outstanding_total(token_series_id) <= s.authorized_total(token_series_id),
        s.pending_total(token_series_id) <= s.authorized_total(token_series_id),
{
    let pos = s.positions();
    let g = authorized_term(s, token_series_id);
    assert forall|i: int| 0 <= i < pos.len() implies outstanding_term(s, token_series_id)(
        #[trigger] pos[i],
    ) <= g(pos[i]) by {
        assert(s.account_ok(i));
    }
    assert forall|i: int| 0 <= i < pos.len() implies pending_term(s, token_series_id)(
        #[trigger] pos[i],
    ) <= g(pos[i]) by {
        assert(s.account_ok(i));
    }
    crate::seqs::lemma_sum_le(pos, outstanding_term(s, token_series_id), g);
    crate::seqs::lemma_sum_le(pos, pending_term(s, token_series_id), g);
    crate::seqs::lemma_sum_positions(s.authorizations, authorized_in(token_series_id), g);
}

/// The authorized units of a series registered in the book fit its cap.
pub proof fn lemma_authorized_total_fits(s: TokenizationState, token_series_id: Identifier)
    requires
        s.caps_ok(),
        s.series_index(token_series_id) >= 0,
    ensures
        s.authorized_total(token_series_id) <= u64::MAX,
{
    crate::seqs::lemma_first_match(s.token_series, series_has_id(token_series_id));
    let si = s.series_index(token_series_id);
    assert(s.token_series[si].token_series_id == token_series_id);
}

impl Default for TokenizationBook {
    /// An empty book.
    fn default() -> (r: Self)
        ensures
            r@.inv(),
            r@.token_series.len() == 0,
            r@.authorizations.len() == 0,
            r@.accounts.len() == 0,
            r@.intents.len() == 0,
            r@.used_operations.len() == 0,
    {
        TokenizationBook::new()
    }
}

impl TokenizationBook {
    /// An empty book.
    pub fn new() -> (r: Self)
        ensures
            r@.inv(),
            r@.token_series.len() == 0,
            r@.authorizations.len() == 0,
            r@.accounts.len() == 0,
            r@.intents.len() == 0,
            r@.used_operations.len() == 0,
    {
        TokenizationBook {
            token_series: Vec::new(),
            authorizations: Vec::new(),
            accounts: Vec::new(),
            intents: Vec::new(),
            used_operations: Vec::new(),
        }
    }

    fn find_series(&self, id: &Identifier) -> (r: Option<usize>)
        ensures
            match r {
                Some(i) => i as int == self@.series_index(*id) && i < self.token_series@.len(),
                None => self@.series_index(*id) == -1,
            },
    {
        let ghost p = series_has_id(*id);
        let mut i: usize = 0;
        while i < self.token_series.len()
            invariant
                i <= self.token_series@.len(),
                p == series_has_id(*id),
                first_match(self.token_series@.subrange(0, i as int), p) == -1,
            decreases self.token_series@.len() - i,
        {
            proof {
                lemma_first_match_step(self.token_series@, i as int, p);
            }
            if same_id(&self.token_series[i].token_series_id, id) {
                proof {
                    crate::provider::lemma_first_match_prefix_stop(self.token_series@, i as int, p);
                }
                return Some(i);
            }
            i = i + 1;
        }
        proof {
            lemma_full_prefix(self.token_series@);
        }
        None
    }

    fn find_series_for(&self, series_id: &Identifier) -> (r: bool)
        ensures
            r == (first_match(self.token_series@, series_for(*series_id)) >= 0),
    {
        let ghost p = series_for(*series_id);
        let mut i: usize = 0;
        while i < self.token_series.len()
            invariant
                i <= self.token_series@.len(),
                p == series_for(*series_id),
                first_match(self.token_series@.subrange(0, i as int), p) == -1,
            decreases self.token_series@.len() - i,
        {
            proof {
                lemma_first_match_step(self.token_series@, i as int, p);
            }
            if same_id(&self.token_series[i].series_id, series_id) {
                proof {
                    crate::provider::lemma_first_match_prefix_stop(self.token_series@, i as int, p);
                }
                return true;
            }
            i = i + 1;
        }
        proof {
            lemma_full_prefix(self.token_series@);
        }
        false
    }

    fn find_auth(&self, id: &Identifier) -> (r: Option<usize>)
        ensures
            match r {
                Some(i) => i as int == self@.auth_index(*id) && i < self.authorizations@.len(),
                None => self@.auth_index(*id) == -1,
            },
    {
        let ghost p = auth_has_id(*id);
        let mut i: usize = 0;
        while i < self.authorizations.len()
            invariant
                i <= self.authorizations@.len(),
                p == auth_has_id(*id),
                first_match(self.authorizations@.subrange(0, i as int), p) == -1,
            decreases self.authorizations@.len() - i,
        {
            proof {
                lemma_first_match_step(self.authorizations@, i as int, p);
            }
            if same_id(&self.authorizations[i].issuance_id, id) {
                proof {
                    crate::provider::lemma_first_match_prefix_stop(
                        self.authorizations@,
                        i as int,
                        p,
                    );
                }
                return Some(i);
            }
            i = i + 1;
        }
        proof {
            lemma_full_prefix(self.authorizations@);
        }
        None
    }

    fn find_note(&self, note_id: &Identifier) -> (r: bool)
        ensures
            r == (first_match(self.authorizations@, auth_has_note(*note_id)) >= 0),
    {
        let ghost p = auth_has_note(*note_id);
        let mut i: usize = 0;
        while i < self.authorizations.len()
            invariant
                i <= self.authorizations@.len(),
                p == auth_has_note(*note_id),
                first_match(self.authorizations@.subrange(0, i as int), p) == -1,
            decreases self.authorizations@.len() - i,
        {
            proof {
                lemma_first_match_step(self.authorizations@, i as int, p);
            }
            if same_id(&self.authorizations[i].note_id, note_id) {
                proof {
                    crate::provider::lemma_first_match_prefix_stop(
                        self.authorizations@,
                        i as int,
                        p,
                    );
                }
                return true;
            }
            i = i + 1;
        }
        proof {
            lemma_full_prefix(self.authorizations@);
        }
        false
    }

    fn find_intent(&self, id: &Identifier) -> (r: Option<usize>)
        ensures
            match r {
                Some(i) => i as int == self@.intent_index(*id) && i < self.intents@.len(),
                None => self@.intent_index(*id) == -1,
            },
    {
        let ghost p = intent_has_id(*id);
        let mut i: usize = 0;
        while i < self.intents.len()
            invariant
                i <= self.intents@.len(),
                p == intent_has_id(*id),
                first_match(self.intents@.subrange(0, i as int), p) == -1,
            decreases self.intents@.len() - i,
        {
            proof {
                lemma_first_match_step(self.intents@, i as int, p);
            }
            if same_id(&self.intents[i].intent.intent_id, id) {
                proof {
                    crate::provider::lemma_first_match_prefix_stop(self.intents@, i as int, p);
                }
                return Some(i);
            }
            i = i + 1;
        }
        proof {
            lemma_full_prefix(self.intents@);
        }
        None
    }

    fn operation_used(&self, operation_id: &Identifier) -> (r: bool)
        ensures
            r == self@.op_used(*operation_id),
    {
        let mut i: usize = 0;
        while i < self.used_operations.len()
            invariant
                i <= self.used_operations@.len(),
                forall|j: int| 0 <= j < i ==> self.used_operations@[j] != *operation_id,
            decreases self.used_operations@.len() - i,
        {
            if same_id(&self.used_operations[i], operation_id) {
                assert(self.used_operations@[i as int] == *operation_id);
                return true;
            }
            i = i + 1;
        }
        false
    }

    /// The token series with the id.
    pub fn token_series(&self, token_series_id: &Identifier) -> (r: Result<
        &TokenSeries,
        TokenizationError,
    >)
        ensures
            match r {
                Ok(s) => self@.series_index(*token_series_id) >= 0 && *s
                    == self@.token_series[self@.series_index(*token_series_id)],
                Err(e) => self@.series_index(*token_series_id) == -1 && e
                    == TokenizationError::UnknownTokenSeries,
            },
    {
        match self.find_series(token_series_id) {
            Some(i) => Ok(&self.token_series[i]),
            None => Err(TokenizationError::UnknownTokenSeries),
        }
    }

    /// The authorization of the issuance.
    pub fn authorization(&self, issuance_id: &Identifier) -> (r: Result<
        &IssuanceAuthorization,
        TokenizationError,
    >)
        ensures
            match r {
                Ok(a) => self@.auth_index(*issuance_id) >= 0 && *a
                    == self@.authorizations[self@.auth_index(*issuance_id)],
                Err(e) => self@.auth_index(*issuance_id) == -1 && e
                    == TokenizationError::UnknownAuthorization,
            },
    {
        match self.find_auth(issuance_id) {
            Some(i) => Ok(&self.authorizations[i]),
            None => Err(TokenizationError::UnknownAuthorization),
        }
    }

    /// The supply account of the issuance.
    pub fn account(&self, issuance_id: &Identifier) -> (r: Result<&SupplyAccount, TokenizationError>)
        requires
            self@.shape(),
        ensures
            match r {
                Ok(a) => self@.auth_index(*issuance_id) >= 0 && *a
                    == self@.accounts[self@.auth_index(*issuance_id)],
                Err(e) => self@.auth_index(*issuance_id) == -1 && e
                    == TokenizationError::UnknownAuthorization,
            },
    {
        match self.find_auth(issuance_id) {
            Some(i) => Ok(&self.accounts[i]),
            None => Err(TokenizationError::UnknownAuthorization),
        }
    }

    /// The recorded intent with the id.
    pub fn intent(&self, intent_id: &Identifier) -> (r: Result<&RecordedIntent, TokenizationError>)
        ensures
            match r {
                Ok(x) => self@.intent_index(*intent_id) >= 0 && *x
                    == self@.intents[self@.intent_index(*intent_id)],
                Err(e) => self@.intent_index(*intent_id) == -1 && e
                    == TokenizationError::UnknownIntent,
            },
    {
        match self.find_intent(intent_id) {
            Some(i) => Ok(&self.intents[i]),
            None => Err(TokenizationError::UnknownIntent),
        }
    }

    /// Units of one series that exist on the ledger, summed over issuances.
    pub fn outstanding_units(&self, token_series_id: &Identifier) -> (r: u64)
        requires
            self@.inv(),
        ensures
            r == self@.outstanding_total(*token_series_id),
    {
        let ghost s = self@;
        let ghost f = outstanding_term(s, *token_series_id);
        proof {
            lemma_series_totals_bounded(s, *token_series_id);
            if s.series_index(*token_series_id) >= 0 {
                lemma_authorized_total_fits(s, *token_series_id);
            } else {
                // No authorization names an unregistered series.
                assert forall|i: int| 0 <= i < s.authorizations.len() implies authorized_in(
                    *token_series_id,
                )(#[trigger] s.authorizations[i]) == 0 by {
                    if s.authorizations[i].token_series_id == *token_series_id {
                        crate::seqs::lemma_first_match(
                            s.token_series,
                            series_has_id(*token_series_id),
                        );
                        crate::seqs::lemma_first_match(
                            s.token_series,
                            series_has_id(s.authorizations[i].token_series_id),
                        );
                    }
                }
                crate::seqs::lemma_sum_zero(s.authorizations, authorized_in(*token_series_id));
            }
        }
        let mut total: u64 = 0;
        let mut i: usize = 0;
        while i < self.authorizations.len()
            invariant
                i <= self.authorizations@.len(),
                self@ == s,
                s.inv(),
                f == outstanding_term(s, *token_series_id),
                total as nat == sum_of(s.positions().subrange(0, i as int), f),
                s.outstanding_total(*token_series_id) <= u64::MAX,
            decreases self.authorizations@.len() - i,
        {
            proof {
                crate::seqs::lemma_sum_step(s.positions(), i as int, f);
                crate::seqs::lemma_sum_prefix_le(s.positions(), (i + 1) as int, f);
                assert(s.account_ok(i as int));
            }
            if same_id(&self.authorizations[i].token_series_id, token_series_id) {
                total = total + (self.accounts[i].minted - self.accounts[i].burned);
            }
            i = i + 1;
        }
        proof {
            lemma_full_prefix(s.positions());
        }
        total
    }

    fn pending_units(&self, token_series_id: &Identifier) -> (r: u64)
        requires
            self@.inv(),
        ensures
            r == self@.pending_total(*token_series_id),
    {
        let ghost s = self@;
        let ghost f = pending_term(s, *token_series_id);
        proof {
            lemma_series_totals_bounded(s, *token_series_id);
            if s.series_index(*token_series_id) >= 0 {
                lemma_authorized_total_fits(s, *token_series_id);
            } else {
                assert forall|i: int| 0 <= i < s.authorizations.len() implies authorized_in(
                    *token_series_id,
                )(#[trigger] s.authorizations[i]) == 0 by {
                    if s.authorizations[i].token_series_id == *token_series_id {
                        crate::seqs::lemma_first_match(
                            s.token_series,
                            series_has_id(*token_series_id),
                        );
                        crate::seqs::lemma_first_match(
                            s.token_series,
                            series_has_id(s.authorizations[i].token_series_id),
                        );
                    }
                }
                crate::seqs::lemma_sum_zero(s.authorizations, authorized_in(*token_series_id));
            }
        }
        let mut total: u64 = 0;
        let mut i: usize = 0;
        while i < self.authorizations.len()
            invariant
                i <= self.authorizations@.len(),
                self@ == s,
                s.inv(),
                f == pending_term(s, *token_series_id),
                total as nat == sum_of(s.positions().subrange(0, i as int), f),
                s.pending_total(*token_series_id) <= u64::MAX,
            decreases self.authorizations@.len() - i,
        {
            proof {
                crate::seqs::lemma_sum_step(s.positions(), i as int, f);
                crate::seqs::lemma_sum_prefix_le(s.positions(), (i + 1) as int, f);
                assert(s.account_ok(i as int));
            }
            if same_id(&self.authorizations[i].token_series_id, token_series_id) {
                total = total + (self.accounts[i].pending_mint + self.accounts[i].pending_burn);
            }
            i = i + 1;
        }
        proof {
            lemma_full_prefix(s.positions());
        }
        total
    }
}

/// The refusal of recording `intent`, if any: a malformed intent, a reused
/// intent id, or a zero or reused operation id.
pub open spec fn record_error(s: TokenizationState, intent: SupplyIntent) -> Option<TokenizationError> {
    if !intent.well_formed() {
        Some(TokenizationError::InvalidIntent)
    } else if s.intent_index(intent.intent_id) >= 0 {
        Some(TokenizationError::Replay)
    } else if is_zero(intent.operation_id) || s.op_used(intent.operation_id) {
        Some(TokenizationError::Replay)
    } else {
        None
    }
}

/// The intent a mint request produces against the book.
pub open spec fn mint_intent(s: TokenizationState, request: MintRequest, now: u64) -> SupplyIntent {
    let auth = s.authorizations[s.auth_index(request.issuance_id)];
    let series = s.token_series[s.series_index(auth.token_series_id)];
    SupplyIntent {
        intent_id: request.intent_id,
        operation_id: request.operation_id,
        token_series_id: series.token_series_id,
        series_id: series.series_id,
        issuance_id: request.issuance_id,
        receivable_asset_id: series.receivable_asset_id,
        change: SupplyChange::Mint {
            units: request.units,
            recipient_commitment: request.recipient_commitment,
            tranche_id: request.tranche_id,
        },
        authorization_digest: auth.authorization_digest,
        created_at: now,
    }
}

/// Why the book refuses a mint, if it does. The checks run in this order:
/// the authorization, its series, the series' state and maturity, the
/// tranche named, the issuance authorization, the tranche cap, and the
/// intent itself.
pub open spec fn mint_error(s: TokenizationState, request: MintRequest, now: u64) -> Option<
    TokenizationError,
> {
    let ai = s.auth_index(request.issuance_id);
    if ai < 0 {
        Some(TokenizationError::UnknownAuthorization)
    } else {
        let auth = s.authorizations[ai];
        let si = s.series_index(auth.token_series_id);
        if si < 0 {
            Some(TokenizationError::UnknownTokenSeries)
        } else {
            let series = s.token_series[si];
            let acct = s.accounts[ai];
            let committed = acct.pending_mint + acct.minted + request.units;
            if series.status != TokenSeriesStatus::Open || now > series.maturity {
                Some(TokenizationError::TokenSeriesUnavailable)
            } else if !tranche_choice_ok(series, request.tranche_id) {
                Some(TokenizationError::UnknownTranche)
            } else if committed > u64::MAX {
                Some(TokenizationError::ArithmeticOverflow)
            } else if committed > acct.authorized_units {
                Some(TokenizationError::SupplyExceedsAuthorization)
            } else {
                match request.tranche_id {
                    Some(tid) => {
                        let in_tranche = s.tranche_committed(series.token_series_id, tid)
                            + request.units;
                        if in_tranche > u64::MAX {
                            Some(TokenizationError::ArithmeticOverflow)
                        } else if in_tranche > series.tranches@[series.tranche_index(
                            tid,
                        )].unit_cap {
                            Some(TokenizationError::SupplyExceedsAuthorization)
                        } else {
                            record_error(s, mint_intent(s, request, now))
                        }
                    },
                    None => record_error(s, mint_intent(s, request, now)),
                }
            }
        }
    }
}

/// The book after recording a pending intent against issuance `ai`, whose
/// account becomes `acct`.
pub open spec fn with_pending(
    s: TokenizationState,
    intent: SupplyIntent,
    ai: int,
    acct: SupplyAccount,
) -> TokenizationState {
    TokenizationState {
        intents: s.intents.push(RecordedIntent { intent, status: IntentStatus::Pending }),
        used_operations: s.used_operations.push(intent.operation_id),
        accounts: s.accounts.update(ai, acct),
        ..s
    }
}

/// The book after an accepted mint: the intent is pending and its units are
/// held against the issuance.
pub open spec fn after_mint(s: TokenizationState, request: MintRequest, now: u64) -> TokenizationState {
    let ai = s.auth_index(request.issuance_id);
    let acct = s.accounts[ai];
    with_pending(
        s,
        mint_intent(s, request, now),
        ai,
        SupplyAccount { pending_mint: (acct.pending_mint + request.units) as u64, ..acct },
    )
}

/// Facts about the four account sums after one more record.
pub proof fn lemma_account_sums_push(intents: Seq<RecordedIntent>, r: RecordedIntent, id: Identifier)
    ensures
        sum_of(intents.push(r), pending_mint_of(id)) == sum_of(intents, pending_mint_of(id))
            + pending_mint_of(id)(r),
        sum_of(intents.push(r), minted_of(id)) == sum_of(intents, minted_of(id)) + minted_of(id)(r),
        sum_of(intents.push(r), pending_burn_of(id)) == sum_of(intents, pending_burn_of(id))
            + pending_burn_of(id)(r),
        sum_of(intents.push(r), burned_of(id)) == sum_of(intents, burned_of(id)) + burned_of(id)(r),
{
    crate::seqs::lemma_sum_push(intents, r, pending_mint_of(id));
    crate::seqs::lemma_sum_push(intents, r, minted_of(id));
    crate::seqs::lemma_sum_push(intents, r, pending_burn_of(id));
    crate::seqs::lemma_sum_push(intents, r, burned_of(id));
}

/// Recording a pending intent keeps the invariant when the new account is
/// what the intents say and stays within its bounds, and the tranche caps
/// still hold.
pub proof fn lemma_record_pending_keeps_inv(
    s: TokenizationState,
    intent: SupplyIntent,
    ai: int,
    acct: SupplyAccount,
)
    requires
        s.inv(),
        record_error(s, intent) is None,
        0 <= ai < s.authorizations.len(),
        s.authorizations[ai].issuance_id == intent.issuance_id,
        s.authorizations[ai].token_series_id == intent.token_series_id,
        s.authorizations[ai].authorization_digest == intent.authorization_digest,
        s.series_index(intent.token_series_id) >= 0,
        s.token_series[s.series_index(intent.token_series_id)].series_id == intent.series_id,
        s.token_series[s.series_index(intent.token_series_id)].receivable_asset_id
            == intent.receivable_asset_id,
        acct.authorized_units == s.accounts[ai].authorized_units,
        acct.pending_mint == s.accounts[ai].pending_mint + pending_mint_of(intent.issuance_id)(
            RecordedIntent { intent, status: IntentStatus::Pending },
        ),
        acct.minted == s.accounts[ai].minted,
        acct.pending_burn == s.accounts[ai].pending_burn + pending_burn_of(intent.issuance_id)(
            RecordedIntent { intent, status: IntentStatus::Pending },
        ),
        acct.burned == s.accounts[ai].burned,
        acct.pending_mint + acct.minted <= acct.authorized_units,
        acct.pending_burn + acct.burned <= acct.minted,
        with_pending(s, intent, ai, acct).tranches_ok(),
    ensures
        with_pending(s, intent, ai, acct).inv(),
{
    let r = RecordedIntent { intent, status: IntentStatus::Pending };
    let s2 = with_pending(s, intent, ai, acct);
    crate::seqs::lemma_first_match(s.intents, intent_has_id(intent.intent_id));
    // Identifiers stay unique.
    assert forall|i: int, j: int| 0 <= i < j < s2.intents.len() implies (
    #[trigger] s2.intents[i]).intent.intent_id != (#[trigger] s2.intents[j]).intent.intent_id by {
        if j == s.intents.len() {
            assert(!intent_has_id(intent.intent_id)(s.intents[i]));
        }
    }
    assert(s2.shape());
    // Accounts.
    assert forall|i: int| 0 <= i < s2.authorizations.len() implies {
        let a = #[trigger] s2.authorizations[i];
        let si = s2.series_index(a.token_series_id);
        &&& a.well_formed()
        &&& si >= 0
        &&& s2.token_series[si].series_id == a.series_id
        &&& s2.account_ok(i)
    } by {
        assert(s.account_ok(i));
        let id = s.authorizations[i].issuance_id;
        lemma_account_sums_push(s.intents, r, id);
        if i != ai {
            assert(id != intent.issuance_id);
        }
    }
    assert(s2.auths_ok());
    assert(s2.caps_ok());
    // Intents.
    assert forall|k: int| 0 <= k < s2.intents.len() implies {
        let x = (#[trigger] s2.intents[k]).intent;
        let xa = s2.auth_index(x.issuance_id);
        let xs = s2.series_index(x.token_series_id);
        &&& x.well_formed()
        &&& xa >= 0
        &&& s2.authorizations[xa].token_series_id == x.token_series_id
        &&& s2.authorizations[xa].authorization_digest == x.authorization_digest
        &&& xs >= 0
        &&& s2.token_series[xs].series_id == x.series_id
        &&& s2.token_series[xs].receivable_asset_id == x.receivable_asset_id
        &&& s2.op_used(x.operation_id)
    } by {
        if k < s.intents.len() {
            assert(s2.intents[k] == s.intents[k]);
            assert(s.used_operations.contains(s.intents[k].intent.operation_id));
            let w = choose|w: int|
                0 <= w < s.used_operations.len() && s.used_operations[w]
                    == s.intents[k].intent.operation_id;
            assert(s2.used_operations[w] == s.used_operations[w]);
        } else {
            crate::seqs::lemma_first_match(s.authorizations, auth_has_id(intent.issuance_id));
            crate::seqs::lemma_first_match_unique(
                s.authorizations,
                auth_has_id(intent.issuance_id),
                ai,
            );
            assert(s2.used_operations[s.used_operations.len() as int] == intent.operation_id);
        }
    }
    assert(s2.intents_ok());
}

/// Every series with this id is the one at `si`.
pub proof fn lemma_series_index_unique(s: TokenizationState, si: int)
    requires
        s.shape(),
        0 <= si < s.token_series.len(),
    ensures
        s.series_index(s.token_series[si].token_series_id) == si,
{
    crate::seqs::lemma_first_match_unique(
        s.token_series,
        series_has_id(s.token_series[si].token_series_id),
        si,
    );
}

/// A series that passes its checks lists each tranche id once.
pub proof fn lemma_tranche_ids_distinct(ts: TokenSeries)
    requires
        ts.fields_result() is Ok,
    ensures
        forall|i: int, j: int|
            0 <= i < j < ts.tranches@.len() ==> (#[trigger] ts.tranches@[i]).tranche_id != (
            #[trigger] ts.tranches@[j]).tranche_id,
{
    crate::seqs::lemma_first_match(ts.tranche_positions(), ts.tranche_fails());
    assert forall|i: int, j: int| 0 <= i < j < ts.tranches@.len() implies (
    #[trigger] ts.tranches@[i]).tranche_id != (#[trigger] ts.tranches@[j]).tranche_id by {
        assert(ts.tranche_positions()[j] == j);
        assert(!ts.tranche_fails()(ts.tranche_positions()[j]));
    }
}

/// After an accepted mint every tranche stays within its cap.
pub proof fn lemma_mint_tranches(s: TokenizationState, request: MintRequest, now: u64)
    requires
        s.inv(),
        mint_error(s, request, now) is None,
    ensures
        after_mint(s, request, now).tranches_ok(),
{
    let s2 = after_mint(s, request, now);
    let ai = s.auth_index(request.issuance_id);
    let si = s.series_index(s.authorizations[ai].token_series_id);
    let series = s.token_series[si];
    let intent = mint_intent(s, request, now);
    let r = RecordedIntent { intent, status: IntentStatus::Pending };
    crate::seqs::lemma_first_match(s.authorizations, auth_has_id(request.issuance_id));
    crate::seqs::lemma_first_match(s.token_series, series_has_id(s.authorizations[ai].token_series_id));
    assert forall|x: int, t: int|
        0 <= x < s2.token_series.len() && 0 <= t < s2.token_series[x].tranches@.len() implies s2.tranche_committed(
        (#[trigger] s2.token_series[x]).token_series_id,
        (#[trigger] s2.token_series[x].tranches@[t]).tranche_id,
    ) <= s2.token_series[x].tranches@[t].unit_cap by {
        let xs = s.token_series[x];
        let tr = xs.tranches@[t];
        crate::seqs::lemma_sum_push(s.intents, r, tranche_mint_of(xs.token_series_id, tr.tranche_id));
        if tranche_mint_of(xs.token_series_id, tr.tranche_id)(r) > 0 {
            assert(xs.token_series_id == series.token_series_id);
            lemma_series_index_unique(s, x);
            assert(x == si);
            let tid = request.tranche_id.unwrap();
            assert(tr.tranche_id == tid);
            assert(s.series_ok());
            assert(series.fields_result() is Ok);
            lemma_tranche_ids_distinct(series);
            crate::seqs::lemma_first_match_unique(series.tranches@, |q: Tranche| q.tranche_id == tid, t);
        }
    }
}

/// The intent a burn request produces against the book.
pub open spec fn burn_intent(s: TokenizationState, request: BurnRequest, now: u64) -> SupplyIntent {
    let auth = s.authorizations[s.auth_index(request.issuance_id)];
    let series = s.token_series[s.series_index(auth.token_series_id)];
    SupplyIntent {
        intent_id: request.intent_id,
        operation_id: request.operation_id,
        token_series_id: series.token_series_id,
        series_id: series.series_id,
        issuance_id: request.issuance_id,
        receivable_asset_id: series.receivable_asset_id,
        change: SupplyChange::Burn {
            units: request.units,
            holder_commitment: request.holder_commitment,
            tranche_id: request.tranche_id,
            reason: request.reason,
        },
        authorization_digest: auth.authorization_digest,
        created_at: now,
    }
}

/// Why the book refuses a burn, if it does. The checks run in this order:
/// the authorization, its series, a redeemed series, the redemption
/// conditions, the tranche named, the units minted and not yet burned or
/// held by a pending burn, and the intent itself.
pub open spec fn burn_error(s: TokenizationState, request: BurnRequest, now: u64) -> Option<
    TokenizationError,
> {
    let ai = s.auth_index(request.issuance_id);
    if ai < 0 {
        Some(TokenizationError::UnknownAuthorization)
    } else {
        let auth = s.authorizations[ai];
        let si = s.series_index(auth.token_series_id);
        if si < 0 {
            Some(TokenizationError::UnknownTokenSeries)
        } else {
            let series = s.token_series[si];
            let acct = s.accounts[ai];
            if series.status == TokenSeriesStatus::Redeemed {
                Some(TokenizationError::TokenSeriesUnavailable)
            } else if !series.spec_permits_burn(request.reason) {
                Some(TokenizationError::RedemptionNotPermitted)
            } else if !tranche_choice_ok(series, request.tranche_id) {
                Some(TokenizationError::UnknownTranche)
            } else if acct.pending_burn + request.units > acct.minted - acct.burned {
                Some(TokenizationError::BurnExceedsSupply)
            } else {
                record_error(s, burn_intent(s, request, now))
            }
        }
    }
}

/// The book after an accepted burn: the intent is pending and its units are
/// held against the issuance.
pub open spec fn after_burn(s: TokenizationState, request: BurnRequest, now: u64) -> TokenizationState {
    let ai = s.auth_index(request.issuance_id);
    let acct = s.accounts[ai];
    with_pending(
        s,
        burn_intent(s, request, now),
        ai,
        SupplyAccount { pending_burn: (acct.pending_burn + request.units) as u64, ..acct },
    )
}

/// Recording an intent that mints nothing leaves every tranche total as it
/// was.
pub proof fn lemma_non_mint_keeps_tranches(
    s: TokenizationState,
    intent: SupplyIntent,
    ai: int,
    acct: SupplyAccount,
)
    requires
        s.tranches_ok(),
        !(intent.change is Mint),
    ensures
        with_pending(s, intent, ai, acct).tranches_ok(),
{
    let s2 = with_pending(s, intent, ai, acct);
    let r = RecordedIntent { intent, status: IntentStatus::Pending };
    assert forall|x: int, t: int|
        0 <= x < s2.token_series.len() && 0 <= t < s2.token_series[x].tranches@.len() implies s2.tranche_committed(
        (#[trigger] s2.token_series[x]).token_series_id,
        (#[trigger] s2.token_series[x].tranches@[t]).tranche_id,
    ) <= s2.token_series[x].tranches@[t].unit_cap by {
        let xs = s.token_series[x];
        let tr = xs.tranches@[t];
        crate::seqs::lemma_sum_push(s.intents, r, tranche_mint_of(xs.token_series_id, tr.tranche_id));
    }
}

/// Why the book refuses to register a token series, if it does: the
/// request itself, a series it does not describe, a time outside the token
/// series' window, a token series id or receivable series already
/// registered, or a reused operation id.
pub open spec fn register_error(
    s: TokenizationState,
    request: RegisterTokenSeries,
    series: ReceivableSeries,
    now: u64,
) -> Option<TokenizationError> {
    let ts = request.token_series;
    match request.statement_result() {
        Err(e) => Some(e),
        Ok(_) => if !ts.spec_bound_to(series) {
            Some(TokenizationError::SeriesMismatch)
        } else if now < ts.valid_from || now > ts.maturity {
            Some(TokenizationError::OutsideValidityWindow)
        } else if s.series_index(ts.token_series_id) >= 0 || first_match(
            s.token_series,
            series_for(ts.series_id),
        ) >= 0 {
            Some(TokenizationError::DuplicateTokenSeries)
        } else if s.op_used(request.operation_id) {
            Some(TokenizationError::Replay)
        } else {
            None
        },
    }
}

/// The book after registering a token series.
pub open spec fn after_register(s: TokenizationState, request: RegisterTokenSeries) -> TokenizationState {
    TokenizationState {
        token_series: s.token_series.push(request.token_series),
        used_operations: s.used_operations.push(request.operation_id),
        ..s
    }
}

/// Registering a valid token series under a new id keeps the invariant.
pub proof fn lemma_register_keeps_inv(s: TokenizationState, request: RegisterTokenSeries)
    requires
        s.inv(),
        request.token_series.fields_result() is Ok,
        s.series_index(request.token_series.token_series_id) < 0,
    ensures
        after_register(s, request).inv(),
{
    let ts = request.token_series;
    let s2 = after_register(s, request);
    let n = s.token_series.len() as int;
    lemma_first_match(s.token_series, series_has_id(ts.token_series_id));
    assert forall|id: Identifier| s.series_index(id) >= 0 implies #[trigger] s2.series_index(id)
        == s.series_index(id) by {
        crate::seqs::lemma_first_match_push(s.token_series, ts, series_has_id(id));
    }
    assert forall|i: int, j: int| 0 <= i < j < s2.token_series.len() implies (
    #[trigger] s2.token_series[i]).token_series_id != (#[trigger] s2.token_series[j]).token_series_id by {
        if j == n {
            assert(!series_has_id(ts.token_series_id)(s.token_series[i]));
        }
    }
    assert(s2.shape());
    assert forall|i: int| 0 <= i < s2.token_series.len() implies (
    #[trigger] s2.token_series[i]).fields_result() is Ok by {
        if i < n {
            assert(s.token_series[i] == s2.token_series[i]);
        }
    }
    assert forall|i: int| 0 <= i < s2.authorizations.len() implies {
        let a = #[trigger] s2.authorizations[i];
        let si = s2.series_index(a.token_series_id);
        &&& a.well_formed()
        &&& si >= 0
        &&& s2.token_series[si].series_id == a.series_id
        &&& s2.account_ok(i)
    } by {
        let a = s.authorizations[i];
        assert(s.account_ok(i));
        assert(s.series_index(a.token_series_id) >= 0);
        crate::seqs::lemma_first_match_push(s.token_series, ts, series_has_id(a.token_series_id));
        lemma_first_match(s.token_series, series_has_id(a.token_series_id));
        assert(s2.series_index(a.token_series_id) == s.series_index(a.token_series_id));
        assert(s2.account_ok(i));
    }
    assert forall|i: int| 0 <= i < s.authorizations.len() implies authorized_in(ts.token_series_id)(
        #[trigger] s.authorizations[i],
    ) == 0 by {
        let a = s.authorizations[i];
        if a.token_series_id == ts.token_series_id {
            assert(s.series_index(a.token_series_id) >= 0);
        }
    }
    crate::seqs::lemma_sum_zero(s.authorizations, authorized_in(ts.token_series_id));
    assert forall|x: int| 0 <= x < s2.token_series.len() implies s2.authorized_total(
        (#[trigger] s2.token_series[x]).token_series_id,
    ) <= s2.token_series[x].issuance_cap_units by {
        if x < n {
            assert(s.token_series[x] == s2.token_series[x]);
        }
    }
    assert forall|k: int| 0 <= k < s2.intents.len() implies {
        let x = (#[trigger] s2.intents[k]).intent;
        let xa = s2.auth_index(x.issuance_id);
        let xs = s2.series_index(x.token_series_id);
        &&& x.well_formed()
        &&& xa >= 0
        &&& s2.authorizations[xa].token_series_id == x.token_series_id
        &&& s2.authorizations[xa].authorization_digest == x.authorization_digest
        &&& xs >= 0
        &&& s2.token_series[xs].series_id == x.series_id
        &&& s2.token_series[xs].receivable_asset_id == x.receivable_asset_id
        &&& s2.op_used(x.operation_id)
    } by {
        let x = s.intents[k].intent;
        assert(s.series_index(x.token_series_id) >= 0);
        crate::seqs::lemma_first_match_push(s.token_series, ts, series_has_id(x.token_series_id));
        lemma_first_match(s.token_series, series_has_id(x.token_series_id));
        assert(s2.series_index(x.token_series_id) == s.series_index(x.token_series_id));
        assert(s.used_operations.contains(x.operation_id));
        let w = choose|w: int| 0 <= w < s.used_operations.len() && s.used_operations[w] == x.operation_id;
        assert(s2.used_operations[w] == s.used_operations[w]);
    }
    assert forall|x: int, t: int|
        0 <= x < s2.token_series.len() && 0 <= t < s2.token_series[x].tranches@.len() implies s2.tranche_committed(
        (#[trigger] s2.token_series[x]).token_series_id,
        (#[trigger] s2.token_series[x].tranches@[t]).tranche_id,
    ) <= s2.token_series[x].tranches@[t].unit_cap by {
        if x < n {
            assert(s.token_series[x] == s2.token_series[x]);
        } else {
            let tid = ts.tranches@[t].tranche_id;
            assert forall|k: int| 0 <= k < s.intents.len() implies tranche_mint_of(
                ts.token_series_id,
                tid,
            )(#[trigger] s.intents[k]) == 0 by {
                let x = s.intents[k].intent;
                if x.token_series_id == ts.token_series_id {
                    assert(s.series_index(x.token_series_id) >= 0);
                }
            }
            crate::seqs::lemma_sum_zero(s.intents, tranche_mint_of(ts.token_series_id, tid));
        }
    }
}

/// Why the book refuses an issuance authorization, if it does: a malformed
/// authorization, one that does not describe the issuance, a time other
/// than `now`, an unknown or mismatched or unavailable series, an issuance
/// or note already authorized, a series total past the integer range or the
/// issuance cap, or a reused operation id.
pub open spec fn authorize_error(
    s: TokenizationState,
    a: IssuanceAuthorization,
    issuance: ReceivableIssuance,
    now: u64,
) -> Option<TokenizationError> {
    let si = s.series_index(a.token_series_id);
    let total = s.authorized_total(a.token_series_id) + a.authorized_units;
    if !a.well_formed() {
        Some(TokenizationError::InvalidAuthorization)
    } else if !a.spec_bound_to(issuance) {
        Some(TokenizationError::IssuanceMismatch)
    } else if a.authorized_at != now {
        Some(TokenizationError::OutsideValidityWindow)
    } else if si < 0 {
        Some(TokenizationError::UnknownTokenSeries)
    } else if s.token_series[si].series_id != a.series_id {
        Some(TokenizationError::SeriesMismatch)
    } else if s.token_series[si].status != TokenSeriesStatus::Open || now
        > s.token_series[si].maturity {
        Some(TokenizationError::TokenSeriesUnavailable)
    } else if s.auth_index(a.issuance_id) >= 0 || first_match(
        s.authorizations,
        auth_has_note(a.note_id),
    ) >= 0 {
        Some(TokenizationError::DuplicateAuthorization)
    } else if total > u64::MAX {
        Some(TokenizationError::ArithmeticOverflow)
    } else if total > s.token_series[si].issuance_cap_units {
        Some(TokenizationError::SupplyExceedsAuthorization)
    } else if s.op_used(a.operation_id) {
        Some(TokenizationError::Replay)
    } else {
        None
    }
}

/// The account a new authorization opens: its units, nothing yet used.
pub open spec fn fresh_account(units: u64) -> SupplyAccount {
    SupplyAccount { authorized_units: units, pending_mint: 0, minted: 0, pending_burn: 0, burned: 0 }
}

/// The book after an accepted authorization.
pub open spec fn after_authorize(s: TokenizationState, a: IssuanceAuthorization) -> TokenizationState {
    TokenizationState {
        authorizations: s.authorizations.push(a),
        accounts: s.accounts.push(fresh_account(a.authorized_units)),
        used_operations: s.used_operations.push(a.operation_id),
        ..s
    }
}

/// An accepted authorization keeps the invariant.
pub proof fn lemma_authorize_keeps_inv(
    s: TokenizationState,
    a: IssuanceAuthorization,
    issuance: ReceivableIssuance,
    now: u64,
)
    requires
        s.inv(),
        authorize_error(s, a, issuance, now) is None,
    ensures
        after_authorize(s, a).inv(),
{
    let s2 = after_authorize(s, a);
    let n = s.authorizations.len() as int;
    let si = s.series_index(a.token_series_id);
    lemma_first_match(s.authorizations, auth_has_id(a.issuance_id));
    lemma_first_match(s.token_series, series_has_id(a.token_series_id));
    assert forall|i: int, j: int| 0 <= i < j < s2.authorizations.len() implies (
    #[trigger] s2.authorizations[i]).issuance_id != (#[trigger] s2.authorizations[j]).issuance_id by {
        if j == n {
            assert(!auth_has_id(a.issuance_id)(s.authorizations[i]));
        }
    }
    assert(s2.shape());
    // No intent draws on the new issuance yet.
    assert forall|k: int| 0 <= k < s.intents.len() implies (#[trigger] s.intents[k]).intent.issuance_id
        != a.issuance_id by {
        let x = s.intents[k].intent;
        if x.issuance_id == a.issuance_id {
            assert(s.auth_index(x.issuance_id) >= 0);
        }
    }
    assert forall|k: int| 0 <= k < s.intents.len() implies pending_mint_of(a.issuance_id)(
        #[trigger] s.intents[k],
    ) == 0 && minted_of(a.issuance_id)(s.intents[k]) == 0 && pending_burn_of(a.issuance_id)(
        s.intents[k],
    ) == 0 && burned_of(a.issuance_id)(s.intents[k]) == 0 by {}
    crate::seqs::lemma_sum_zero(s.intents, pending_mint_of(a.issuance_id));
    crate::seqs::lemma_sum_zero(s.intents, minted_of(a.issuance_id));
    crate::seqs::lemma_sum_zero(s.intents, pending_burn_of(a.issuance_id));
    crate::seqs::lemma_sum_zero(s.intents, burned_of(a.issuance_id));
    assert(s2.account_ok(n));
    assert forall|i: int| 0 <= i < s2.authorizations.len() implies {
        let x = #[trigger] s2.authorizations[i];
        let xs = s2.series_index(x.token_series_id);
        &&& x.well_formed()
        &&& xs >= 0
        &&& s2.token_series[xs].series_id == x.series_id
        &&& s2.account_ok(i)
    } by {
        if i < n {
            assert(s.account_ok(i));
            assert(s2.authorizations[i] == s.authorizations[i]);
            assert(s2.accounts[i] == s.accounts[i]);
        }
    }
    assert forall|x: int| 0 <= x < s2.token_series.len() implies s2.authorized_total(
        (#[trigger] s2.token_series[x]).token_series_id,
    ) <= s2.token_series[x].issuance_cap_units by {
        let id = s.token_series[x].token_series_id;
        crate::seqs::lemma_sum_push(s.authorizations, a, authorized_in(id));
        if id == a.token_series_id {
            lemma_series_index_unique(s, x);
        }
    }
    assert forall|k: int| 0 <= k < s2.intents.len() implies {
        let x = (#[trigger] s2.intents[k]).intent;
        let xa = s2.auth_index(x.issuance_id);
        let xs = s2.series_index(x.token_series_id);
        &&& x.well_formed()
        &&& xa >= 0
        &&& s2.authorizations[xa].token_series_id == x.token_series_id
        &&& s2.authorizations[xa].authorization_digest == x.authorization_digest
        &&& xs >= 0
        &&& s2.token_series[xs].series_id == x.series_id
        &&& s2.token_series[xs].receivable_asset_id == x.receivable_asset_id
        &&& s2.op_used(x.operation_id)
    } by {
        let x = s.intents[k].intent;
        assert(s.auth_index(x.issuance_id) >= 0);
        lemma_first_match(s.authorizations, auth_has_id(x.issuance_id));
        crate::seqs::lemma_first_match_push(s.authorizations, a, auth_has_id(x.issuance_id));
        assert(s.used_operations.contains(x.operation_id));
        let w = choose|w: int| 0 <= w < s.used_operations.len() && s.used_operations[w] == x.operation_id;
        assert(s2.used_operations[w] == s.used_operations[w]);
    }
    assert(s2.tranches_ok());
}

/// A receipt describes the intent it answers: its id, a digest, and a
/// valid finalization time.
pub open spec fn receipt_ok(receipt: SupplyReceipt, intent_id: Identifier) -> bool {
    &&& receipt.intent_id == intent_id
    &&& !is_zero(receipt.receipt_digest)
    &&& spec_valid_time(receipt.finalized_at)
}

/// The account of an issuance once its pending intent `r` settles with
/// `status`: an applied intent moves its units from pending to done, a
/// rejected one releases them.
pub open spec fn settled_account(acct: SupplyAccount, r: RecordedIntent, status: IntentStatus) -> SupplyAccount {
    let u = r.intent.change.spec_units();
    match (r.intent.change, status) {
        (SupplyChange::Mint { .. }, IntentStatus::Applied { .. }) => SupplyAccount {
            pending_mint: (acct.pending_mint - u) as u64,
            minted: (acct.minted + u) as u64,
            ..acct
        },
        (SupplyChange::Burn { .. }, IntentStatus::Applied { .. }) => SupplyAccount {
            pending_burn: (acct.pending_burn - u) as u64,
            burned: (acct.burned + u) as u64,
            ..acct
        },
        (SupplyChange::Mint { .. }, _) => SupplyAccount {
            pending_mint: (acct.pending_mint - u) as u64,
            ..acct
        },
        (SupplyChange::Burn { .. }, _) => SupplyAccount {
            pending_burn: (acct.pending_burn - u) as u64,
            ..acct
        },
    }
}

/// The book after the pending intent at `k` settles with `status`.
pub open spec fn settle(s: TokenizationState, k: int, status: IntentStatus) -> TokenizationState {
    let r = s.intents[k];
    let ai = s.auth_index(r.intent.issuance_id);
    TokenizationState {
        intents: s.intents.update(k, RecordedIntent { intent: r.intent, status }),
        accounts: s.accounts.update(ai, settled_account(s.accounts[ai], r, status)),
        ..s
    }
}

/// What the book answers when the ledger's `outcome` for an intent is
/// recorded: an unknown intent, the stored receipt of an applied one, the
/// refusal of a rejected one; for a pending one, the receipt if it
/// describes the intent, or the ledger's refusal.
pub open spec fn outcome_result(
    s: TokenizationState,
    intent_id: Identifier,
    outcome: Result<SupplyReceipt, LedgerRejection>,
) -> Result<SupplyReceipt, TokenizationError> {
    let k = s.intent_index(intent_id);
    if k < 0 {
        Err(TokenizationError::UnknownIntent)
    } else {
        match s.intents[k].status {
            IntentStatus::Applied { receipt } => Ok(receipt),
            IntentStatus::Rejected { .. } => Err(TokenizationError::IntentRejected),
            IntentStatus::Pending => match outcome {
                Ok(receipt) => if receipt_ok(receipt, intent_id) {
                    Ok(receipt)
                } else {
                    Err(TokenizationError::InvalidReceipt)
                },
                Err(_) => Err(TokenizationError::IntentRejected),
            },
        }
    }
}

/// The answer for an intent that is not pending: unknown, its receipt, or
/// rejected.
pub open spec fn standing_result(s: TokenizationState, intent_id: Identifier) -> Result<
    SupplyReceipt,
    TokenizationError,
> {
    let k = s.intent_index(intent_id);
    if k < 0 {
        Err(TokenizationError::UnknownIntent)
    } else {
        match s.intents[k].status {
            IntentStatus::Applied { receipt } => Ok(receipt),
            _ => Err(TokenizationError::IntentRejected),
        }
    }
}

/// The book after the ledger's `outcome` for an intent is recorded. Only a
/// pending intent changes: to applied with a receipt that describes it, or
/// to rejected.
pub open spec fn after_outcome(
    s: TokenizationState,
    intent_id: Identifier,
    outcome: Result<SupplyReceipt, LedgerRejection>,
) -> TokenizationState {
    let k = s.intent_index(intent_id);
    if k < 0 || !(s.intents[k].status is Pending) {
        s
    } else {
        match outcome {
            Ok(receipt) => if receipt_ok(receipt, intent_id) {
                settle(s, k, IntentStatus::Applied { receipt })
            } else {
                s
            },
            Err(rejection) => settle(s, k, IntentStatus::Rejected { rejection }),
        }
    }
}

/// Settling a pending intent keeps the invariant.
pub proof fn lemma_settle_keeps_inv(s: TokenizationState, k: int, status: IntentStatus)
    requires
        s.inv(),
        0 <= k < s.intents.len(),
        s.intents[k].status is Pending,
        !(status is Pending),
    ensures
        settle(s, k, status).inv(),
{
    let r = s.intents[k];
    let r2 = RecordedIntent { intent: r.intent, status };
    let s2 = settle(s, k, status);
    let id = r.intent.issuance_id;
    let ai = s.auth_index(id);
    assert(s.intents_ok());
    lemma_first_match(s.authorizations, auth_has_id(id));
    assert(0 <= ai < s.authorizations.len());
    assert(s.account_ok(ai));
    assert forall|i: int, j: int| 0 <= i < j < s2.intents.len() implies (
    #[trigger] s2.intents[i]).intent.intent_id != (#[trigger] s2.intents[j]).intent.intent_id by {
        assert(s.intents[i].intent.intent_id != s.intents[j].intent.intent_id);
    }
    assert(s2.shape());
    assert forall|i: int| 0 <= i < s2.authorizations.len() implies {
        let a = #[trigger] s2.authorizations[i];
        let si = s2.series_index(a.token_series_id);
        &&& a.well_formed()
        &&& si >= 0
        &&& s2.token_series[si].series_id == a.series_id
        &&& s2.account_ok(i)
    } by {
        assert(s.account_ok(i));
        let x = s.authorizations[i].issuance_id;
        crate::seqs::lemma_sum_update(s.intents, k, r2, pending_mint_of(x));
        crate::seqs::lemma_sum_update(s.intents, k, r2, minted_of(x));
        crate::seqs::lemma_sum_update(s.intents, k, r2, pending_burn_of(x));
        crate::seqs::lemma_sum_update(s.intents, k, r2, burned_of(x));
        if i != ai {
            assert(x != id);
        }
    }
    assert forall|q: int| 0 <= q < s2.intents.len() implies {
        let x = (#[trigger] s2.intents[q]).intent;
        let xa = s2.auth_index(x.issuance_id);
        let xs = s2.series_index(x.token_series_id);
        &&& x.well_formed()
        &&& xa >= 0
        &&& s2.authorizations[xa].token_series_id == x.token_series_id
        &&& s2.authorizations[xa].authorization_digest == x.authorization_digest
        &&& xs >= 0
        &&& s2.token_series[xs].series_id == x.series_id
        &&& s2.token_series[xs].receivable_asset_id == x.receivable_asset_id
        &&& s2.op_used(x.operation_id)
    } by {
        assert(s2.intents[q].intent == s.intents[q].intent);
    }
    assert forall|x: int, t: int|
        0 <= x < s2.token_series.len() && 0 <= t < s2.token_series[x].tranches@.len() implies s2.tranche_committed(
        (#[trigger] s2.token_series[x]).token_series_id,
        (#[trigger] s2.token_series[x].tranches@[t]).tranche_id,
    ) <= s2.token_series[x].tranches@[t].unit_cap by {
        let xs = s.token_series[x];
        let tr = xs.tranches@[t];
        crate::seqs::lemma_sum_update(s.intents, k, r2, tranche_mint_of(xs.token_series_id, tr.tranche_id));
    }
}

/// Which status changes the book allows: open and frozen trade places, and
/// either closes as redeemed once no unit is outstanding or pending.
pub open spec fn status_change_allowed(
    s: TokenizationState,
    from: TokenSeriesStatus,
    to: TokenSeriesStatus,
    token_series_id: Identifier,
) -> bool {
    match (from, to) {
        (TokenSeriesStatus::Open, TokenSeriesStatus::Frozen) => true,
        (TokenSeriesStatus::Frozen, TokenSeriesStatus::Open) => true,
        (TokenSeriesStatus::Open, TokenSeriesStatus::Redeemed) => s.outstanding_total(token_series_id)
            == 0 && s.pending_total(token_series_id) == 0,
        (TokenSeriesStatus::Frozen, TokenSeriesStatus::Redeemed) => s.outstanding_total(
            token_series_id,
        ) == 0 && s.pending_total(token_series_id) == 0,
        _ => false,
    }
}

/// Why the book refuses a status change, if it does.
pub open spec fn status_error(
    s: TokenizationState,
    operation_id: Identifier,
    token_series_id: Identifier,
    status: TokenSeriesStatus,
) -> Option<TokenizationError> {
    let si = s.series_index(token_series_id);
    if is_zero(operation_id) || s.op_used(operation_id) {
        Some(TokenizationError::Replay)
    } else if si < 0 {
        Some(TokenizationError::UnknownTokenSeries)
    } else if !status_change_allowed(s, s.token_series[si].status, status, token_series_id) {
        Some(TokenizationError::TokenSeriesUnavailable)
    } else {
        None
    }
}

/// The book after a status change.
pub open spec fn after_status(
    s: TokenizationState,
    operation_id: Identifier,
    token_series_id: Identifier,
    status: TokenSeriesStatus,
) -> TokenizationState {
    let si = s.series_index(token_series_id);
    TokenizationState {
        token_series: s.token_series.update(si, TokenSeries { status, ..s.token_series[si] }),
        used_operations: s.used_operations.push(operation_id),
        ..s
    }
}

/// The registration checks do not read the status.
pub proof fn lemma_fields_ignore_status(ts: TokenSeries, status: TokenSeriesStatus)
    ensures
        (TokenSeries { status, ..ts }).fields_result() == ts.fields_result(),
{
    let t2 = TokenSeries { status, ..ts };
    assert(t2.tranche_positions() =~= ts.tranche_positions());
    assert forall|k: int| #[trigger] t2.tranche_failure(k) == ts.tranche_failure(k) by {}
    assert(t2.tranche_fails() =~= ts.tranche_fails());
}

/// A status change keeps the invariant: nothing the invariant reads
/// depends on the status.
pub proof fn lemma_status_keeps_inv(
    s: TokenizationState,
    operation_id: Identifier,
    token_series_id: Identifier,
    status: TokenSeriesStatus,
)
    requires
        s.inv(),
        s.series_index(token_series_id) >= 0,
    ensures
        after_status(s, operation_id, token_series_id, status).inv(),
{
    let s2 = after_status(s, operation_id, token_series_id, status);
    let si = s.series_index(token_series_id);
    let old_ts = s.token_series[si];
    let new_ts = TokenSeries { status, ..old_ts };
    lemma_first_match(s.token_series, series_has_id(token_series_id));
    assert forall|id: Identifier| #[trigger] s2.series_index(id) == s.series_index(id) by {
        crate::seqs::lemma_first_match_update(s.token_series, si, new_ts, series_has_id(id));
    }
    assert forall|i: int, j: int| 0 <= i < j < s2.token_series.len() implies (
    #[trigger] s2.token_series[i]).token_series_id != (#[trigger] s2.token_series[j]).token_series_id by {
        assert(s.token_series[i].token_series_id != s.token_series[j].token_series_id);
    }
    assert(s2.shape());
    lemma_fields_ignore_status(old_ts, status);
    assert forall|i: int| 0 <= i < s2.token_series.len() implies (
    #[trigger] s2.token_series[i]).fields_result() is Ok by {
        assert(s.token_series[i].fields_result() is Ok);
    }
    assert forall|i: int| 0 <= i < s2.authorizations.len() implies {
        let a = #[trigger] s2.authorizations[i];
        let xs = s2.series_index(a.token_series_id);
        &&& a.well_formed()
        &&& xs >= 0
        &&& s2.token_series[xs].series_id == a.series_id
        &&& s2.account_ok(i)
    } by {
        assert(s.account_ok(i));
        lemma_first_match(s.token_series, series_has_id(s.authorizations[i].token_series_id));
        assert(s2.series_index(s.authorizations[i].token_series_id) == s.series_index(
            s.authorizations[i].token_series_id,
        ));
    }
    assert forall|x: int| 0 <= x < s2.token_series.len() implies s2.authorized_total(
        (#[trigger] s2.token_series[x]).token_series_id,
    ) <= s2.token_series[x].issuance_cap_units by {
        assert(s.authorized_total(s.token_series[x].token_series_id)
            <= s.token_series[x].issuance_cap_units);
    }
    assert forall|k: int| 0 <= k < s2.intents.len() implies {
        let x = (#[trigger] s2.intents[k]).intent;
        let xa = s2.auth_index(x.issuance_id);
        let xs = s2.series_index(x.token_series_id);
        &&& x.well_formed()
        &&& xa >= 0
        &&& s2.authorizations[xa].token_series_id == x.token_series_id
        &&& s2.authorizations[xa].authorization_digest == x.authorization_digest
        &&& xs >= 0
        &&& s2.token_series[xs].series_id == x.series_id
        &&& s2.token_series[xs].receivable_asset_id == x.receivable_asset_id
        &&& s2.op_used(x.operation_id)
    } by {
        let x = s.intents[k].intent;
        lemma_first_match(s.token_series, series_has_id(x.token_series_id));
        assert(s2.series_index(x.token_series_id) == s.series_index(x.token_series_id));
        assert(s.used_operations.contains(x.operation_id));
        let w = choose|w: int| 0 <= w < s.used_operations.len() && s.used_operations[w] == x.operation_id;
        assert(s2.used_operations[w] == s.used_operations[w]);
    }
    assert forall|x: int, t: int|
        0 <= x < s2.token_series.len() && 0 <= t < s2.token_series[x].tranches@.len() implies s2.tranche_committed(
        (#[trigger] s2.token_series[x]).token_series_id,
        (#[trigger] s2.token_series[x].tranches@[t]).tranche_id,
    ) <= s2.token_series[x].tranches@[t].unit_cap by {
        assert(s.tranche_committed(
            s.token_series[x].token_series_id,
            s.token_series[x].tranches@[t].tranche_id,
        ) <= s.token_series[x].tranches@[t].unit_cap);
    }
}

/// Sets the status of the series at `i`.
fn set_series_status(v: &mut Vec<TokenSeries>, i: usize, status: TokenSeriesStatus)
    requires
        i < old(v)@.len(),
    ensures
        final(v)@ == old(v)@.update(i as int, TokenSeries { status, ..old(v)@[i as int] }),
{
    let mut series = v.remove(i);
    series.status = status;
    v.insert(i, series);
    assert(v@ =~= old(v)@.update(i as int, TokenSeries { status, ..old(v)@[i as int] }));
}

/// One of the four per-issuance tallies an account keeps.
enum Tally {
    PendingMint,
    Minted,
    PendingBurn,
    Burned,
}

spec fn tally_of(kind: Tally, id: Identifier) -> spec_fn(RecordedIntent) -> nat {
    match kind {
        Tally::PendingMint => pending_mint_of(id),
        Tally::Minted => minted_of(id),
        Tally::PendingBurn => pending_burn_of(id),
        Tally::Burned => burned_of(id),
    }
}

/// What one recorded intent adds to a tally of issuance `id`.
fn contribution(kind: &Tally, r: &RecordedIntent, id: &Identifier) -> (v: u64)
    ensures
        v as nat == tally_of(*kind, *id)(*r),
{
    let applies = same_id(&r.intent.issuance_id, id) && match kind {
        Tally::PendingMint => matches!(r.status, IntentStatus::Pending) && matches!(
            r.intent.change,
            SupplyChange::Mint { .. },
        ),
        Tally::Minted => matches!(r.status, IntentStatus::Applied { .. }) && matches!(
            r.intent.change,
            SupplyChange::Mint { .. },
        ),
        Tally::PendingBurn => matches!(r.status, IntentStatus::Pending) && matches!(
            r.intent.change,
            SupplyChange::Burn { .. },
        ),
        Tally::Burned => matches!(r.status, IntentStatus::Applied { .. }) && matches!(
            r.intent.change,
            SupplyChange::Burn { .. },
        ),
    };
    if applies {
        r.intent.change.units()
    } else {
        0
    }
}

/// A record's id does not occur among the records before it exactly when
/// its first occurrence is its own position.
proof fn lemma_first_is_self<T>(s: Seq<T>, p: spec_fn(T) -> bool, i: int)
    requires
        0 <= i < s.len(),
        p(s[i]),
    ensures
        first_match(s, p) == i <==> forall|j: int| 0 <= j < i ==> !p(#[trigger] s[j]),
{
    lemma_first_match(s, p);
}

impl TokenizationBook {
    fn check_tranche(series: &TokenSeries, tranche_id: &Option<Identifier>) -> (r: Result<
        (),
        TokenizationError,
    >)
        ensures
            r is Ok <==> tranche_choice_ok(*series, *tranche_id),
            r matches Err(e) ==> e == TokenizationError::UnknownTranche,
    {
        match tranche_id {
            None => if series.tranches.len() == 0 {
                Ok(())
            } else {
                Err(TokenizationError::UnknownTranche)
            },
            Some(id) => if series.tranches.len() == 0 {
                Err(TokenizationError::UnknownTranche)
            } else {
                match series.tranche(id) {
                    Some(_) => Ok(()),
                    None => Err(TokenizationError::UnknownTranche),
                }
            },
        }
    }

    fn tranche_committed_mint(&self, token_series_id: &Identifier, tranche_id: &Identifier) -> (r:
        u64)
        requires
            self@.tranche_committed(*token_series_id, *tranche_id) <= u64::MAX,
        ensures
            r == self@.tranche_committed(*token_series_id, *tranche_id),
    {
        let ghost f = tranche_mint_of(*token_series_id, *tranche_id);
        let mut total: u64 = 0;
        let mut i: usize = 0;
        while i < self.intents.len()
            invariant
                i <= self.intents@.len(),
                f == tranche_mint_of(*token_series_id, *tranche_id),
                total as nat == sum_of(self.intents@.subrange(0, i as int), f),
                sum_of(self.intents@, f) <= u64::MAX,
            decreases self.intents@.len() - i,
        {
            proof {
                crate::seqs::lemma_sum_step(self.intents@, i as int, f);
                crate::seqs::lemma_sum_prefix_le(self.intents@, (i + 1) as int, f);
            }
            let recorded = &self.intents[i];
            let counts = same_id(&recorded.intent.token_series_id, token_series_id) && !matches!(
                recorded.status,
                IntentStatus::Rejected { .. },
            ) && match recorded.intent.change {
                SupplyChange::Mint { tranche_id: Some(id), .. } => same_id(&id, tranche_id),
                _ => false,
            };
            if counts {
                total = total + recorded.intent.change.units();
            }
            i = i + 1;
        }
        proof {
            lemma_full_prefix(self.intents@);
        }
        total
    }

    fn ensure_operation_unused(&self, operation_id: &Identifier) -> (r: Result<
        (),
        TokenizationError,
    >)
        ensures
            r is Ok <==> !is_zero(*operation_id) && !self@.op_used(*operation_id),
            r matches Err(e) ==> e == TokenizationError::Replay,
    {
        if is_zero_id(operation_id) || self.operation_used(operation_id) {
            return Err(TokenizationError::Replay);
        }
        Ok(())
    }

    /// Records a pending intent and holds its units on issuance `ai`.
    fn record_intent(&mut self, intent: SupplyIntent, ai: usize, account: SupplyAccount) -> (r:
        Result<(), TokenizationError>)
        requires
            ai < old(self).accounts@.len(),
        ensures
            match record_error(old(self)@, intent) {
                Some(e) => r == Err::<(), TokenizationError>(e) && final(self)@ == old(self)@,
                None => r is Ok && final(self)@ == with_pending(old(self)@, intent, ai as int, account),
            },
    {
        if !intent.check() {
            return Err(TokenizationError::InvalidIntent);
        }
        if self.find_intent(&intent.intent_id).is_some() {
            return Err(TokenizationError::Replay);
        }
        match self.ensure_operation_unused(&intent.operation_id) {
            Ok(()) => {},
            Err(e) => return Err(e),
        }
        self.used_operations.push(intent.operation_id);
        self.intents.push(RecordedIntent { intent, status: IntentStatus::Pending });
        self.accounts.set(ai, account);
        Ok(())
    }

    /// Prepares a mint intent. Pending and applied mints together never
    /// exceed the issuance authorization or the tranche cap.
    pub fn mint(&mut self, request: MintRequest, now: u64) -> (r: Result<
        SupplyIntent,
        TokenizationError,
    >)
        requires
            old(self)@.inv(),
        ensures
            final(self)@.inv(),
            match mint_error(old(self)@, request, now) {
                Some(e) => r == Err::<SupplyIntent, TokenizationError>(e) && final(self)@ == old(
                    self,
                )@,
                None => r == Ok::<SupplyIntent, TokenizationError>(
                    mint_intent(old(self)@, request, now),
                ) && final(self)@ == after_mint(old(self)@, request, now),
            },
    {
        let ghost s = self@;
        let ai = match self.find_auth(&request.issuance_id) {
            Some(i) => i,
            None => return Err(TokenizationError::UnknownAuthorization),
        };
        let authorization = self.authorizations[ai];
        let si = match self.find_series(&authorization.token_series_id) {
            Some(i) => i,
            None => return Err(TokenizationError::UnknownTokenSeries),
        };
        let series = &self.token_series[si];
        if !matches!(series.status, TokenSeriesStatus::Open) || now > series.maturity {
            return Err(TokenizationError::TokenSeriesUnavailable);
        }
        match Self::check_tranche(series, &request.tranche_id) {
            Ok(()) => {},
            Err(e) => return Err(e),
        }
        let account = self.accounts[ai];
        proof {
            assert(s.account_ok(ai as int));
        }
        let committed = account.committed_mint();
        match committed.checked_add(request.units) {
            None => return Err(TokenizationError::ArithmeticOverflow),
            Some(total) => if total > account.authorized_units {
                return Err(TokenizationError::SupplyExceedsAuthorization);
            },
        }
        match request.tranche_id {
            Some(tranche_id) => {
                let cap = match series.tranche(&tranche_id) {
                    Some(t) => t.unit_cap,
                    None => return Err(TokenizationError::UnknownTranche),
                };
                proof {
                    let t = series.tranche_index(tranche_id);
                    crate::seqs::lemma_first_match(
                        series.tranches@,
                        |q: Tranche| q.tranche_id == tranche_id,
                    );
                    crate::seqs::lemma_first_match(
                        s.token_series,
                        series_has_id(authorization.token_series_id),
                    );
                    assert(s.tranche_committed(
                        s.token_series[si as int].token_series_id,
                        s.token_series[si as int].tranches@[t].tranche_id,
                    ) <= s.token_series[si as int].tranches@[t].unit_cap);
                }
                let in_tranche = self.tranche_committed_mint(&series.token_series_id, &tranche_id);
                match in_tranche.checked_add(request.units) {
                    None => return Err(TokenizationError::ArithmeticOverflow),
                    Some(total) => if total > cap {
                        return Err(TokenizationError::SupplyExceedsAuthorization);
                    },
                }
            },
            None => {},
        }
        let intent = SupplyIntent {
            intent_id: request.intent_id,
            operation_id: request.operation_id,
            token_series_id: series.token_series_id,
            series_id: series.series_id,
            issuance_id: request.issuance_id,
            receivable_asset_id: series.receivable_asset_id,
            change: SupplyChange::Mint {
                units: request.units,
                recipient_commitment: request.recipient_commitment,
                tranche_id: request.tranche_id,
            },
            authorization_digest: authorization.authorization_digest,
            created_at: now,
        };
        let next = SupplyAccount { pending_mint: account.pending_mint + request.units, ..account };
        proof {
            crate::seqs::lemma_first_match(s.authorizations, auth_has_id(request.issuance_id));
            crate::seqs::lemma_first_match(
                s.token_series,
                series_has_id(authorization.token_series_id),
            );
            assert(intent == mint_intent(s, request, now));
            if record_error(s, intent) is None {
                lemma_mint_tranches(s, request, now);
                lemma_record_pending_keeps_inv(s, intent, ai as int, next);
            }
        }
        match self.record_intent(intent, ai, next) {
            Ok(()) => Ok(intent),
            Err(e) => Err(e),
        }
    }

    /// Prepares a burn intent. Units burned never exceed units minted, and the
    /// reason must be one the series' redemption conditions allow.
    pub fn burn(&mut self, request: BurnRequest, now: u64) -> (r: Result<
        SupplyIntent,
        TokenizationError,
    >)
        requires
            old(self)@.inv(),
        ensures
            final(self)@.inv(),
            match burn_error(old(self)@, request, now) {
                Some(e) => r == Err::<SupplyIntent, TokenizationError>(e) && final(self)@ == old(
                    self,
                )@,
                None => r == Ok::<SupplyIntent, TokenizationError>(
                    burn_intent(old(self)@, request, now),
                ) && final(self)@ == after_burn(old(self)@, request, now),
            },
    {
        let ghost s = self@;
        let ai = match self.find_auth(&request.issuance_id) {
            Some(i) => i,
            None => return Err(TokenizationError::UnknownAuthorization),
        };
        let authorization = self.authorizations[ai];
        let si = match self.find_series(&authorization.token_series_id) {
            Some(i) => i,
            None => return Err(TokenizationError::UnknownTokenSeries),
        };
        let series = &self.token_series[si];
        if matches!(series.status, TokenSeriesStatus::Redeemed) {
            return Err(TokenizationError::TokenSeriesUnavailable);
        }
        if !series.permits_burn(request.reason) {
            return Err(TokenizationError::RedemptionNotPermitted);
        }
        match Self::check_tranche(series, &request.tranche_id) {
            Ok(()) => {},
            Err(e) => return Err(e),
        }
        let account = self.accounts[ai];
        proof {
            assert(s.account_ok(ai as int));
        }
        let free = account.minted - account.burned - account.pending_burn;
        if request.units > free {
            return Err(TokenizationError::BurnExceedsSupply);
        }
        let intent = SupplyIntent {
            intent_id: request.intent_id,
            operation_id: request.operation_id,
            token_series_id: series.token_series_id,
            series_id: series.series_id,
            issuance_id: request.issuance_id,
            receivable_asset_id: series.receivable_asset_id,
            change: SupplyChange::Burn {
                units: request.units,
                holder_commitment: request.holder_commitment,
                tranche_id: request.tranche_id,
                reason: request.reason,
            },
            authorization_digest: authorization.authorization_digest,
            created_at: now,
        };
        let next = SupplyAccount { pending_burn: account.pending_burn + request.units, ..account };
        proof {
            crate::seqs::lemma_first_match(s.authorizations, auth_has_id(request.issuance_id));
            crate::seqs::lemma_first_match(
                s.token_series,
                series_has_id(authorization.token_series_id),
            );
            assert(intent == burn_intent(s, request, now));
            if record_error(s, intent) is None {
                lemma_non_mint_keeps_tranches(s, intent, ai as int, next);
                lemma_record_pending_keeps_inv(s, intent, ai as int, next);
            }
        }
        match self.record_intent(intent, ai, next) {
            Ok(()) => Ok(intent),
            Err(e) => Err(e),
        }
    }

    /// Registers the token definition of `series`, which the caller took from
    /// the authoritative Aethel book.
    pub fn register_token_series(
        &mut self,
        request: RegisterTokenSeries,
        series: &ReceivableSeries,
        now: u64,
    ) -> (r: Result<Commitment, TokenizationError>)
        requires
            old(self)@.inv(),
        ensures
            final(self)@.inv(),
            match register_error(old(self)@, request, *series, now) {
                Some(e) => r == Err::<Commitment, TokenizationError>(e) && final(self)@ == old(
                    self,
                )@,
                None => r matches Ok(d) && request.statement_result() == Ok::<
                    Seq<u8>,
                    TokenizationError,
                >(d@) && final(self)@ == after_register(old(self)@, request),
            },
    {
        let statement = match request.statement() {
            Ok(d) => d,
            Err(e) => return Err(e),
        };
        match request.token_series.bound_to(series) {
            Ok(()) => {},
            Err(e) => return Err(e),
        }
        if now < request.token_series.valid_from || now > request.token_series.maturity {
            return Err(TokenizationError::OutsideValidityWindow);
        }
        if self.find_series(&request.token_series.token_series_id).is_some()
            || self.find_series_for(&request.token_series.series_id) {
            return Err(TokenizationError::DuplicateTokenSeries);
        }
        match self.ensure_operation_unused(&request.operation_id) {
            Ok(()) => {},
            Err(e) => return Err(e),
        }
        proof {
            lemma_register_keeps_inv(self@, request);
        }
        let operation_id = request.operation_id;
        self.used_operations.push(operation_id);
        self.token_series.push(request.token_series);
        Ok(statement)
    }

    /// Units authorized across the issuances of a series.
    fn authorized_units_of(&self, token_series_id: &Identifier) -> (r: u64)
        requires
            self@.authorized_total(*token_series_id) <= u64::MAX,
        ensures
            r == self@.authorized_total(*token_series_id),
    {
        let ghost f = authorized_in(*token_series_id);
        let mut total: u64 = 0;
        let mut i: usize = 0;
        while i < self.authorizations.len()
            invariant
                i <= self.authorizations@.len(),
                f == authorized_in(*token_series_id),
                total as nat == sum_of(self.authorizations@.subrange(0, i as int), f),
                sum_of(self.authorizations@, f) <= u64::MAX,
            decreases self.authorizations@.len() - i,
        {
            proof {
                crate::seqs::lemma_sum_step(self.authorizations@, i as int, f);
                crate::seqs::lemma_sum_prefix_le(self.authorizations@, (i + 1) as int, f);
            }
            if same_id(&self.authorizations[i].token_series_id, token_series_id) {
                total = total + self.authorizations[i].authorized_units;
            }
            i = i + 1;
        }
        proof {
            lemma_full_prefix(self.authorizations@);
        }
        total
    }

    /// Opens the unit count of one Aethel issuance. `issuance` is the record
    /// the authoritative Aethel book accepted; the authorization must describe
    /// it exactly and must fit under the series cap.
    pub fn authorize_issuance(
        &mut self,
        authorization: IssuanceAuthorization,
        issuance: &ReceivableIssuance,
        now: u64,
    ) -> (r: Result<Commitment, TokenizationError>)
        requires
            old(self)@.inv(),
        ensures
            final(self)@.inv(),
            match authorize_error(old(self)@, authorization, *issuance, now) {
                Some(e) => r == Err::<Commitment, TokenizationError>(e) && final(self)@ == old(
                    self,
                )@,
                None => r matches Ok(d) && d@ == authorization.spec_statement() && final(self)@
                    == after_authorize(old(self)@, authorization),
            },
    {
        let ghost s = self@;
        let statement = match authorization.statement() {
            Ok(d) => d,
            Err(e) => return Err(e),
        };
        match authorization.bound_to(issuance) {
            Ok(()) => {},
            Err(e) => return Err(e),
        }
        if authorization.authorized_at != now {
            return Err(TokenizationError::OutsideValidityWindow);
        }
        let si = match self.find_series(&authorization.token_series_id) {
            Some(i) => i,
            None => return Err(TokenizationError::UnknownTokenSeries),
        };
        let series = &self.token_series[si];
        if !same_id(&series.series_id, &authorization.series_id) {
            return Err(TokenizationError::SeriesMismatch);
        }
        if !matches!(series.status, TokenSeriesStatus::Open) || now > series.maturity {
            return Err(TokenizationError::TokenSeriesUnavailable);
        }
        if self.find_auth(&authorization.issuance_id).is_some() || self.find_note(
            &authorization.note_id,
        ) {
            return Err(TokenizationError::DuplicateAuthorization);
        }
        proof {
            lemma_authorized_total_fits(s, authorization.token_series_id);
        }
        let already = self.authorized_units_of(&authorization.token_series_id);
        match already.checked_add(authorization.authorized_units) {
            None => return Err(TokenizationError::ArithmeticOverflow),
            Some(total) => if total > series.issuance_cap_units {
                return Err(TokenizationError::SupplyExceedsAuthorization);
            },
        }
        match self.ensure_operation_unused(&authorization.operation_id) {
            Ok(()) => {},
            Err(e) => return Err(e),
        }
        proof {
            lemma_authorize_keeps_inv(s, authorization, *issuance, now);
        }
        self.used_operations.push(authorization.operation_id);
        self.accounts.push(
            SupplyAccount {
                authorized_units: authorization.authorized_units,
                pending_mint: 0,
                minted: 0,
                pending_burn: 0,
                burned: 0,
            },
        );
        self.authorizations.push(authorization);
        Ok(statement)
    }

    /// Records what the ledger returned for an intent. A pending intent
    /// becomes applied when the receipt describes it, and rejected when the
    /// ledger refused it, which releases the units it held; an applied or
    /// rejected intent is answered from the book and `outcome` is not used.
    pub fn record_outcome(
        &mut self,
        intent_id: &Identifier,
        outcome: Result<SupplyReceipt, LedgerRejection>,
    ) -> (r: Result<SupplyReceipt, TokenizationError>)
        requires
            old(self)@.inv(),
        ensures
            final(self)@.inv(),
            r == outcome_result(old(self)@, *intent_id, outcome),
            final(self)@ == after_outcome(old(self)@, *intent_id, outcome),
    {
        let ghost s = self@;
        let k = match self.find_intent(intent_id) {
            Some(k) => k,
            None => return Err(TokenizationError::UnknownIntent),
        };
        let recorded = self.intents[k];
        match recorded.status {
            IntentStatus::Applied { receipt } => return Ok(receipt),
            IntentStatus::Rejected { .. } => return Err(TokenizationError::IntentRejected),
            IntentStatus::Pending => {},
        }
        let status = match outcome {
            Ok(receipt) => {
                if !same_id(&receipt.intent_id, intent_id) || is_zero_id(&receipt.receipt_digest)
                    || !valid_time(receipt.finalized_at) {
                    return Err(TokenizationError::InvalidReceipt);
                }
                IntentStatus::Applied { receipt }
            },
            Err(rejection) => IntentStatus::Rejected { rejection },
        };
        proof {
            assert(s.intents_ok());
            lemma_first_match(s.intents, intent_has_id(*intent_id));
            lemma_first_match(s.authorizations, auth_has_id(recorded.intent.issuance_id));
            assert(s.account_ok(s.auth_index(recorded.intent.issuance_id)));
            lemma_settle_keeps_inv(s, k as int, status);
        }
        let ai = match self.find_auth(&recorded.intent.issuance_id) {
            Some(i) => i,
            None => {
                proof {
                    assert(false);
                }
                return Err(TokenizationError::InvalidState);
            },
        };
        let account = self.accounts[ai];
        let units = recorded.intent.change.units();
        proof {
            crate::seqs::lemma_sum_ge_term(s.intents, k as int, pending_mint_of(recorded.intent.issuance_id));
            crate::seqs::lemma_sum_ge_term(s.intents, k as int, pending_burn_of(recorded.intent.issuance_id));
        }
        let next = match (recorded.intent.change, status) {
            (SupplyChange::Mint { .. }, IntentStatus::Applied { .. }) => SupplyAccount {
                pending_mint: account.pending_mint - units,
                minted: account.minted + units,
                ..account
            },
            (SupplyChange::Burn { .. }, IntentStatus::Applied { .. }) => SupplyAccount {
                pending_burn: account.pending_burn - units,
                burned: account.burned + units,
                ..account
            },
            (SupplyChange::Mint { .. }, _) => SupplyAccount {
                pending_mint: account.pending_mint - units,
                ..account
            },
            (SupplyChange::Burn { .. }, _) => SupplyAccount {
                pending_burn: account.pending_burn - units,
                ..account
            },
        };
        self.accounts.set(ai, next);
        self.intents.set(k, RecordedIntent { intent: recorded.intent, status });
        match status {
            IntentStatus::Applied { receipt } => Ok(receipt),
            _ => Err(TokenizationError::IntentRejected),
        }
    }

    /// Hands a pending intent to the ledger and records what it returned.
    /// Re-submitting an applied intent returns its receipt without touching
    /// the ledger again; a rejected intent releases the units it held.
    ///
    /// Nothing is assumed of what the ledger answers: a pending intent is
    /// handed to it exactly as recorded, and the book ends as
    /// [`TokenizationBook::record_outcome`] leaves it for that answer. Any
    /// other intent leaves the ledger untouched.
    pub fn submit<P: AssetLedgerPort>(&mut self, intent_id: &Identifier, ledger: &mut P) -> (r:
        Result<SupplyReceipt, TokenizationError>)
        requires
            old(self)@.inv(),
        ensures
            final(self)@.inv(),
            ({
                let s = old(self)@;
                let k = s.intent_index(*intent_id);
                if k >= 0 && s.intents[k].status is Pending {
                    let answer = final(ledger).exchanges().last().1;
                    &&& final(ledger).exchanges().len() == old(ledger).exchanges().len() + 1
                    &&& final(ledger).exchanges().drop_last() == old(ledger).exchanges()
                    &&& final(ledger).exchanges().last().0 == s.intents[k].intent
                    &&& r == outcome_result(s, *intent_id, answer)
                    &&& final(self)@ == after_outcome(s, *intent_id, answer)
                } else {
                    &&& *final(ledger) == *old(ledger)
                    &&& final(self)@ == s
                    &&& r == standing_result(s, *intent_id)
                }
            }),
    {
        let ghost s = self@;
        let k = match self.find_intent(intent_id) {
            Some(k) => k,
            None => {
                return Err(TokenizationError::UnknownIntent);
            },
        };
        let recorded = self.intents[k];
        match recorded.status {
            IntentStatus::Applied { receipt } => {
                return Ok(receipt);
            },
            IntentStatus::Rejected { .. } => {
                return Err(TokenizationError::IntentRejected);
            },
            IntentStatus::Pending => {},
        }
        let ghost before = ledger.exchanges();
        let outcome = ledger.apply_supply_intent(&recorded.intent);
        proof {
            assert(ledger.exchanges().drop_last() =~= before);
        }
        self.record_outcome(intent_id, outcome)
    }

    /// Freezes an open series, reopens a frozen one, or closes a series whose
    /// units are all burned.
    pub fn set_status(
        &mut self,
        operation_id: Identifier,
        token_series_id: &Identifier,
        status: TokenSeriesStatus,
    ) -> (r: Result<(), TokenizationError>)
        requires
            old(self)@.inv(),
        ensures
            final(self)@.inv(),
            match status_error(old(self)@, operation_id, *token_series_id, status) {
                Some(e) => r == Err::<(), TokenizationError>(e) && final(self)@ == old(self)@,
                None => r is Ok && final(self)@ == after_status(
                    old(self)@,
                    operation_id,
                    *token_series_id,
                    status,
                ),
            },
    {
        let ghost s = self@;
        match self.ensure_operation_unused(&operation_id) {
            Ok(()) => {},
            Err(e) => return Err(e),
        }
        let outstanding = self.outstanding_units(token_series_id);
        let si = match self.find_series(token_series_id) {
            Some(i) => i,
            None => return Err(TokenizationError::UnknownTokenSeries),
        };
        let current = self.token_series[si].status;
        let allowed = match (current, status) {
            (TokenSeriesStatus::Open, TokenSeriesStatus::Frozen) => true,
            (TokenSeriesStatus::Frozen, TokenSeriesStatus::Open) => true,
            (TokenSeriesStatus::Open, TokenSeriesStatus::Redeemed) => outstanding == 0
                && self.pending_units(token_series_id) == 0,
            (TokenSeriesStatus::Frozen, TokenSeriesStatus::Redeemed) => outstanding == 0
                && self.pending_units(token_series_id) == 0,
            _ => false,
        };
        if !allowed {
            return Err(TokenizationError::TokenSeriesUnavailable);
        }
        proof {
            lemma_status_keeps_inv(s, operation_id, *token_series_id, status);
        }
        self.used_operations.push(operation_id);
        set_series_status(&mut self.token_series, si, status);
        Ok(())
    }

    /// The tally `kind` of issuance `id`, or `None` past the integer range.
    fn tally(&self, kind: &Tally, id: &Identifier) -> (r: Option<u64>)
        ensures
            match r {
                Some(v) => v as nat == sum_of(self.intents@, tally_of(*kind, *id)),
                None => sum_of(self.intents@, tally_of(*kind, *id)) > u64::MAX,
            },
    {
        let ghost f = tally_of(*kind, *id);
        let mut total: u64 = 0;
        let mut i: usize = 0;
        while i < self.intents.len()
            invariant
                i <= self.intents@.len(),
                f == tally_of(*kind, *id),
                total as nat == sum_of(self.intents@.subrange(0, i as int), f),
            decreases self.intents@.len() - i,
        {
            proof {
                crate::seqs::lemma_sum_step(self.intents@, i as int, f);
            }
            let c = contribution(kind, &self.intents[i], id);
            match total.checked_add(c) {
                Some(t) => total = t,
                None => {
                    proof {
                        crate::seqs::lemma_sum_prefix_le(self.intents@, (i + 1) as int, f);
                    }
                    return None;
                },
            }
            i = i + 1;
        }
        proof {
            lemma_full_prefix(self.intents@);
        }
        Some(total)
    }

    /// Whether the account of issuance `i` is what its intents say and
    /// within its bounds.
    fn account_matches(&self, i: usize) -> (r: bool)
        requires
            i < self.authorizations@.len(),
            i < self.accounts@.len(),
        ensures
            r == self@.account_ok(i as int),
    {
        let id = &self.authorizations[i].issuance_id;
        let acct = self.accounts[i];
        if acct.authorized_units != self.authorizations[i].authorized_units {
            return false;
        }
        let pm = self.tally(&Tally::PendingMint, id);
        let mi = self.tally(&Tally::Minted, id);
        let pb = self.tally(&Tally::PendingBurn, id);
        let bu = self.tally(&Tally::Burned, id);
        match (pm, mi, pb, bu) {
            (Some(pm), Some(mi), Some(pb), Some(bu)) => {
                pm == acct.pending_mint && mi == acct.minted && pb == acct.pending_burn && bu
                    == acct.burned && (acct.pending_mint as u128) + (acct.minted as u128) <= (
                acct.authorized_units as u128) && (acct.pending_burn as u128) + (
                acct.burned as u128) <= (acct.minted as u128)
            },
            _ => false,
        }
    }

    /// The units authorized for a series, or `None` past the integer range.
    fn authorized_checked(&self, token_series_id: &Identifier) -> (r: Option<u64>)
        ensures
            match r {
                Some(v) => v as nat == self@.authorized_total(*token_series_id),
                None => self@.authorized_total(*token_series_id) > u64::MAX,
            },
    {
        let ghost f = authorized_in(*token_series_id);
        let mut total: u64 = 0;
        let mut i: usize = 0;
        while i < self.authorizations.len()
            invariant
                i <= self.authorizations@.len(),
                f == authorized_in(*token_series_id),
                total as nat == sum_of(self.authorizations@.subrange(0, i as int), f),
            decreases self.authorizations@.len() - i,
        {
            proof {
                crate::seqs::lemma_sum_step(self.authorizations@, i as int, f);
            }
            if same_id(&self.authorizations[i].token_series_id, token_series_id) {
                match total.checked_add(self.authorizations[i].authorized_units) {
                    Some(t) => total = t,
                    None => {
                        proof {
                            crate::seqs::lemma_sum_prefix_le(self.authorizations@, (i + 1) as int, f);
                        }
                        return None;
                    },
                }
            }
            i = i + 1;
        }
        proof {
            lemma_full_prefix(self.authorizations@);
        }
        Some(total)
    }

    /// Identifiers occur once and accounts pair with authorizations.
    fn shape_holds(&self) -> (r: bool)
        ensures
            r == self@.shape(),
    {
        let ghost s = self@;
        if self.accounts.len() != self.authorizations.len() {
            return false;
        }
        let mut i: usize = 0;
        while i < self.token_series.len()
            invariant
                s == self@,
                i <= s.token_series.len(),
                forall|a: int, b: int|
                    0 <= a < b < i ==> (#[trigger] s.token_series[a]).token_series_id != (
                    #[trigger] s.token_series[b]).token_series_id,
            decreases s.token_series.len() - i,
        {
            let id = self.token_series[i].token_series_id;
            proof {
                lemma_first_is_self(s.token_series, series_has_id(id), i as int);
            }
            match self.find_series(&id) {
                Some(j) => if j != i {
                    proof {
                        lemma_first_match(s.token_series, series_has_id(id));
                        assert(s.token_series[j as int].token_series_id == s.token_series[i as int].token_series_id);
                    }
                    return false;
                },
                None => {
                    proof {
                        lemma_first_match(s.token_series, series_has_id(id));
                    }
                },
            }
            proof {
                assert forall|a: int| 0 <= a < i implies (s.token_series[a]).token_series_id != id by {
                    assert(!series_has_id(id)(s.token_series[a]));
                }
            }
            i = i + 1;
        }
        let mut i: usize = 0;
        while i < self.authorizations.len()
            invariant
                s == self@,
                i <= s.authorizations.len(),
                forall|a: int, b: int|
                    0 <= a < b < i ==> (#[trigger] s.authorizations[a]).issuance_id != (
                    #[trigger] s.authorizations[b]).issuance_id,
            decreases s.authorizations.len() - i,
        {
            let id = self.authorizations[i].issuance_id;
            proof {
                lemma_first_is_self(s.authorizations, auth_has_id(id), i as int);
            }
            match self.find_auth(&id) {
                Some(j) => if j != i {
                    proof {
                        lemma_first_match(s.authorizations, auth_has_id(id));
                        assert(s.authorizations[j as int].issuance_id == s.authorizations[i as int].issuance_id);
                    }
                    return false;
                },
                None => {
                    proof {
                        lemma_first_match(s.authorizations, auth_has_id(id));
                    }
                },
            }
            proof {
                assert forall|a: int| 0 <= a < i implies (s.authorizations[a]).issuance_id != id by {
                    assert(!auth_has_id(id)(s.authorizations[a]));
                }
            }
            i = i + 1;
        }
        let mut i: usize = 0;
        while i < self.intents.len()
            invariant
                s == self@,
                i <= s.intents.len(),
                s.accounts.len() == s.authorizations.len(),
                forall|a: int, b: int|
                    0 <= a < b < s.token_series.len() ==> (#[trigger] s.token_series[a]).token_series_id != (
                    #[trigger] s.token_series[b]).token_series_id,
                forall|a: int, b: int|
                    0 <= a < b < s.authorizations.len() ==> (#[trigger] s.authorizations[a]).issuance_id != (
                    #[trigger] s.authorizations[b]).issuance_id,
                forall|a: int, b: int|
                    0 <= a < b < i ==> (#[trigger] s.intents[a]).intent.intent_id != (
                    #[trigger] s.intents[b]).intent.intent_id,
            decreases s.intents.len() - i,
        {
            let id = self.intents[i].intent.intent_id;
            proof {
                lemma_first_is_self(s.intents, intent_has_id(id), i as int);
            }
            match self.find_intent(&id) {
                Some(j) => if j != i {
                    proof {
                        lemma_first_match(s.intents, intent_has_id(id));
                        assert(s.intents[j as int].intent.intent_id == s.intents[i as int].intent.intent_id);
                    }
                    return false;
                },
                None => {
                    proof {
                        lemma_first_match(s.intents, intent_has_id(id));
                    }
                },
            }
            proof {
                assert forall|a: int| 0 <= a < i implies (s.intents[a]).intent.intent_id != id by {
                    assert(!intent_has_id(id)(s.intents[a]));
                }
            }
            i = i + 1;
        }
        true
    }

    /// Checks the book's records: identifiers occur once, every series passes
    /// its registration checks, every authorization is well formed, names a
    /// registered series and has the account its intents say, authorizations
    /// fit each series cap, and every intent is well formed and matches its
    /// authorization and series under a consumed operation id.
    ///
    /// Once identifiers occur once, the checks run in this order, and the
    /// error is that of a record that fails the first check some record
    /// fails: the series; the authorizations; the series caps (exceeded, or
    /// past what a `u64` holds); the intents; and last the accounts.
    pub fn validate(&self) -> (r: Result<(), TokenizationError>)
        ensures
            r is Ok <==> self@.records_valid(),
            !self@.shape() ==> r == Err::<(), TokenizationError>(TokenizationError::InvalidState),
            self@.shape() && !self@.series_ok() ==> exists|j: int|
                0 <= j < self@.token_series.len() && (#[trigger] self@.token_series[j]).fields_result()
                    is Err && r == self@.token_series[j].fields_result(),
            ({
                &&& self@.shape()
                &&& self@.series_ok()
                &&& self@.caps_ok()
                &&& exists|i: int| 0 <= i < self@.authorizations.len() && #[trigger] self@.auth_result(i) is Err
            }) ==> exists|i: int|
                0 <= i < self@.authorizations.len() && #[trigger] self@.auth_result(i) is Err && r
                    == self@.auth_result(i),
            ({
                &&& self@.shape()
                &&& self@.series_ok()
                &&& forall|i: int| 0 <= i < self@.authorizations.len() ==> #[trigger] self@.auth_result(i) is Ok
                &&& !self@.caps_ok()
            }) ==> r == Err::<(), TokenizationError>(TokenizationError::InvalidState) || r == Err::<
                (),
                TokenizationError,
            >(TokenizationError::ArithmeticOverflow),
            ({
                &&& self@.shape()
                &&& self@.series_ok()
                &&& forall|i: int| 0 <= i < self@.authorizations.len() ==> #[trigger] self@.auth_result(i) is Ok
                &&& self@.caps_ok()
                &&& exists|k: int| 0 <= k < self@.intents.len() && #[trigger] self@.intent_result(k) is Err
            }) ==> exists|k: int|
                0 <= k < self@.intents.len() && #[trigger] self@.intent_result(k) is Err && r
                    == self@.intent_result(k),
            ({
                &&& self@.shape()
                &&& self@.series_ok()
                &&& forall|i: int| 0 <= i < self@.authorizations.len() ==> #[trigger] self@.auth_result(i) is Ok
                &&& self@.caps_ok()
                &&& forall|k: int| 0 <= k < self@.intents.len() ==> #[trigger] self@.intent_result(k) is Ok
                &&& !self@.records_valid()
            }) ==> r == Err::<(), TokenizationError>(TokenizationError::InvalidState),
    {
        let ghost s = self@;
        if !self.shape_holds() {
            return Err(TokenizationError::InvalidState);
        }
        let mut i: usize = 0;
        while i < self.token_series.len()
            invariant
                s == self@,
                s.shape(),
                i <= s.token_series.len(),
                forall|j: int| 0 <= j < i ==> (#[trigger] s.token_series[j]).fields_result() is Ok,
            decreases s.token_series.len() - i,
        {
            match self.token_series[i].validate_fields() {
                Ok(()) => {},
                Err(e) => {
                    assert(s.token_series[i as int].fields_result() is Err);
                    return Err(e);
                },
            }
            i = i + 1;
        }
        assert(s.series_ok());
        let mut i: usize = 0;
        while i < self.authorizations.len()
            invariant
                s == self@,
                s.shape(),
                s.series_ok(),
                i <= s.authorizations.len(),
                forall|j: int| 0 <= j < i ==> #[trigger] s.auth_result(j) is Ok,
            decreases s.authorizations.len() - i,
        {
            let a = &self.authorizations[i];
            if a.statement().is_err() {
                assert(s.auth_result(i as int) is Err);
                return Err(TokenizationError::InvalidAuthorization);
            }
            let si = match self.find_series(&a.token_series_id) {
                Some(si) => si,
                None => {
                    assert(s.auth_result(i as int) is Err);
                    return Err(TokenizationError::UnknownTokenSeries);
                },
            };
            if !same_id(&self.token_series[si].series_id, &a.series_id) {
                assert(s.auth_result(i as int) is Err);
                return Err(TokenizationError::InvalidState);
            }
            i = i + 1;
        }
        let mut x: usize = 0;
        while x < self.token_series.len()
            invariant
                s == self@,
                s.shape(),
                s.series_ok(),
                forall|j: int| 0 <= j < s.authorizations.len() ==> #[trigger] s.auth_result(j) is Ok,
                x <= s.token_series.len(),
                forall|j: int|
                    0 <= j < x ==> s.authorized_total((#[trigger] s.token_series[j]).token_series_id)
                        <= s.token_series[j].issuance_cap_units,
            decreases s.token_series.len() - x,
        {
            match self.authorized_checked(&self.token_series[x].token_series_id) {
                Some(total) => if total > self.token_series[x].issuance_cap_units {
                    assert(!s.caps_ok());
                    return Err(TokenizationError::InvalidState);
                },
                None => {
                    assert(!s.caps_ok());
                    return Err(TokenizationError::ArithmeticOverflow);
                },
            }
            x = x + 1;
        }
        assert(s.caps_ok());
        let mut k: usize = 0;
        while k < self.intents.len()
            invariant
                s == self@,
                s.shape(),
                s.series_ok(),
                s.caps_ok(),
                forall|j: int| 0 <= j < s.authorizations.len() ==> #[trigger] s.auth_result(j) is Ok,
                k <= s.intents.len(),
                forall|q: int| 0 <= q < k ==> #[trigger] s.intent_result(q) is Ok,
            decreases s.intents.len() - k,
        {
            let intent = &self.intents[k].intent;
            if !intent.check() {
                assert(s.intent_result(k as int) is Err);
                return Err(TokenizationError::InvalidIntent);
            }
            let ai = match self.find_auth(&intent.issuance_id) {
                Some(ai) => ai,
                None => {
                    assert(s.intent_result(k as int) is Err);
                    return Err(TokenizationError::UnknownAuthorization);
                },
            };
            let si = match self.find_series(&intent.token_series_id) {
                Some(si) => si,
                None => {
                    assert(s.intent_result(k as int) is Err);
                    return Err(TokenizationError::UnknownTokenSeries);
                },
            };
            let a = &self.authorizations[ai];
            let series = &self.token_series[si];
            if !same_id(&a.token_series_id, &intent.token_series_id) || !same_id(
                &a.authorization_digest,
                &intent.authorization_digest,
            ) || !same_id(&series.series_id, &intent.series_id) || !same_id(
                &series.receivable_asset_id,
                &intent.receivable_asset_id,
            ) || !self.operation_used(&intent.operation_id) {
                assert(s.intent_result(k as int) is Err);
                return Err(TokenizationError::InvalidState);
            }
            k = k + 1;
        }
        assert(s.intents_ok()) by {
            assert forall|q: int| 0 <= q < s.intents.len() implies {
                let intent = (#[trigger] s.intents[q]).intent;
                let ai = s.auth_index(intent.issuance_id);
                let si = s.series_index(intent.token_series_id);
                &&& intent.well_formed()
                &&& ai >= 0
                &&& s.authorizations[ai].token_series_id == intent.token_series_id
                &&& s.authorizations[ai].authorization_digest == intent.authorization_digest
                &&& si >= 0
                &&& s.token_series[si].series_id == intent.series_id
                &&& s.token_series[si].receivable_asset_id == intent.receivable_asset_id
                &&& s.op_used(intent.operation_id)
            } by {
                assert(s.intent_result(q) is Ok);
            }
        }
        let mut i: usize = 0;
        while i < self.authorizations.len()
            invariant
                s == self@,
                s.shape(),
                s.series_ok(),
                s.caps_ok(),
                s.intents_ok(),
                forall|j: int| 0 <= j < s.authorizations.len() ==> #[trigger] s.auth_result(j) is Ok,
                i <= s.authorizations.len(),
                forall|j: int| 0 <= j < i ==> #[trigger] s.account_ok(j),
            decreases s.authorizations.len() - i,
        {
            if !self.account_matches(i) {
                assert(!s.auths_ok());
                return Err(TokenizationError::InvalidState);
            }
            i = i + 1;
        }
        assert(s.auths_ok()) by {
            assert forall|j: int| 0 <= j < s.authorizations.len() implies {
                let a = #[trigger] s.authorizations[j];
                let si = s.series_index(a.token_series_id);
                &&& a.well_formed()
                &&& si >= 0
                &&& s.token_series[si].series_id == a.series_id
                &&& s.account_ok(j)
            } by {
                assert(s.auth_result(j) is Ok);
                assert(s.account_ok(j));
            }
        }
        Ok(())
    }
}

pub open spec fn tokenization_book_domain() -> Seq<u8> {
    lit("AETHEL:TOKENIZATION-BOOK:v1")
}

/// No identifier is listed twice.
pub open spec fn ids_distinct(s: Seq<Identifier>) -> bool {
    forall|i: int, j: int| 0 <= i < j < s.len() ==> #[trigger] s[i] != #[trigger] s[j]
}

/// The canonical JSON form of the book: each keyed collection as an object
/// in ascending key order, and the consumed operation ids as a sorted list.
pub open spec fn book_json(s: TokenizationState) -> Seq<u8> {
    let auth_ids = s.authorizations.map_values(|a: IssuanceAuthorization| a.issuance_id);
    lit("{\"tokenSeries\":") + json_object(
        s.token_series.map_values(|t: TokenSeries| t.token_series_id),
        s.token_series.map_values(|t: TokenSeries| t.json()),
    ) + lit(",\"authorizations\":") + json_object(
        auth_ids,
        s.authorizations.map_values(|a: IssuanceAuthorization| a.encoding()),
    ) + lit(",\"accounts\":") + json_object(
        auth_ids,
        s.accounts.map_values(|a: SupplyAccount| a.json()),
    ) + lit(",\"intents\":") + json_object(
        s.intents.map_values(|r: RecordedIntent| r.intent.intent_id),
        s.intents.map_values(|r: RecordedIntent| r.json()),
    ) + lit(",\"usedOperations\":") + json_key_set(s.used_operations) + lit("}")
}

/// Whether no identifier is listed twice.
pub fn distinct_ids(v: &Vec<Identifier>) -> (r: bool)
    ensures
        r == ids_distinct(v@),
{
    let mut i: usize = 0;
    while i < v.len()
        invariant
            i <= v@.len(),
            forall|a: int, b: int| 0 <= a < b < i ==> #[trigger] v@[a] != #[trigger] v@[b],
        decreases v@.len() - i,
    {
        let mut j: usize = 0;
        while j < i
            invariant
                j <= i < v@.len(),
                forall|a: int| 0 <= a < j ==> v@[a] != v@[i as int],
            decreases i - j,
        {
            if same_id(&v[j], &v[i]) {
                return false;
            }
            j = j + 1;
        }
        i = i + 1;
    }
    true
}

impl TokenizationBook {
    /// The JSON form of the book.
    #[verifier::spinoff_prover]
    #[verifier::rlimit(30)]
    fn json_bytes(&self) -> (r: Vec<u8>)
        requires
            self@.shape(),
        ensures
            r@ == book_json(self@),
    {
        let ghost s = self@;
        let ghost series_key = |t: TokenSeries| t.token_series_id;
        let ghost series_enc = |t: TokenSeries| t.json();
        let mut series_ids: Vec<Identifier> = Vec::new();
        let mut series_values: Vec<Vec<u8>> = Vec::new();
        let mut i: usize = 0;
        while i < self.token_series.len()
            invariant
                s == self@,
                i <= s.token_series.len(),
                series_key == (|t: TokenSeries| t.token_series_id),
                series_enc == (|t: TokenSeries| t.json()),
                series_ids@ == s.token_series.subrange(0, i as int).map_values(series_key),
                views(series_values@) == s.token_series.subrange(0, i as int).map_values(series_enc),
            decreases s.token_series.len() - i,
        {
            let v = self.token_series[i].json_bytes();
            proof {
                lemma_map_prefix_push(series_ids@, self.token_series[i as int].token_series_id, s.token_series, i as int, series_key);
                lemma_views_push(series_values@, v);
                lemma_map_prefix_push(views(series_values@), v@, s.token_series, i as int, series_enc);
            }
            series_ids.push(self.token_series[i].token_series_id);
            series_values.push(v);
            i = i + 1;
        }
        proof {
            lemma_map_full(s.token_series, series_key);
            lemma_map_full(s.token_series, series_enc);
        }
        let ghost auth_key = |a: IssuanceAuthorization| a.issuance_id;
        let ghost auth_enc = |a: IssuanceAuthorization| a.encoding();
        let mut auth_ids: Vec<Identifier> = Vec::new();
        let mut auth_values: Vec<Vec<u8>> = Vec::new();
        let mut i: usize = 0;
        while i < self.authorizations.len()
            invariant
                s == self@,
                i <= s.authorizations.len(),
                auth_key == (|a: IssuanceAuthorization| a.issuance_id),
                auth_enc == (|a: IssuanceAuthorization| a.encoding()),
                auth_ids@ == s.authorizations.subrange(0, i as int).map_values(auth_key),
                views(auth_values@) == s.authorizations.subrange(0, i as int).map_values(auth_enc),
            decreases s.authorizations.len() - i,
        {
            let v = self.authorizations[i].encoding_bytes();
            proof {
                lemma_map_prefix_push(auth_ids@, self.authorizations[i as int].issuance_id, s.authorizations, i as int, auth_key);
                lemma_views_push(auth_values@, v);
                lemma_map_prefix_push(views(auth_values@), v@, s.authorizations, i as int, auth_enc);
            }
            auth_ids.push(self.authorizations[i].issuance_id);
            auth_values.push(v);
            i = i + 1;
        }
        proof {
            lemma_map_full(s.authorizations, auth_key);
            lemma_map_full(s.authorizations, auth_enc);
        }
        let ghost account_enc = |a: SupplyAccount| a.json();
        let mut account_values: Vec<Vec<u8>> = Vec::new();
        let mut i: usize = 0;
        while i < self.accounts.len()
            invariant
                s == self@,
                i <= s.accounts.len(),
                account_enc == (|a: SupplyAccount| a.json()),
                views(account_values@) == s.accounts.subrange(0, i as int).map_values(account_enc),
            decreases s.accounts.len() - i,
        {
            let v = self.accounts[i].json_bytes();
            proof {
                lemma_views_push(account_values@, v);
                lemma_map_prefix_push(views(account_values@), v@, s.accounts, i as int, account_enc);
            }
            account_values.push(v);
            i = i + 1;
        }
        proof {
            lemma_map_full(s.accounts, account_enc);
        }
        let ghost intent_key = |r: RecordedIntent| r.intent.intent_id;
        let ghost intent_enc = |r: RecordedIntent| r.json();
        let mut intent_ids: Vec<Identifier> = Vec::new();
        let mut intent_values: Vec<Vec<u8>> = Vec::new();
        let mut i: usize = 0;
        while i < self.intents.len()
            invariant
                s == self@,
                i <= s.intents.len(),
                intent_key == (|r: RecordedIntent| r.intent.intent_id),
                intent_enc == (|r: RecordedIntent| r.json()),
                intent_ids@ == s.intents.subrange(0, i as int).map_values(intent_key),
                views(intent_values@) == s.intents.subrange(0, i as int).map_values(intent_enc),
            decreases s.intents.len() - i,
        {
            let v = self.intents[i].json_bytes();
            proof {
                lemma_map_prefix_push(intent_ids@, self.intents[i as int].intent.intent_id, s.intents, i as int, intent_key);
                lemma_views_push(intent_values@, v);
                lemma_map_prefix_push(views(intent_values@), v@, s.intents, i as int, intent_enc);
            }
            intent_ids.push(self.intents[i].intent.intent_id);
            intent_values.push(v);
            i = i + 1;
        }
        proof {
            lemma_map_full(s.intents, intent_key);
            lemma_map_full(s.intents, intent_enc);
        }
        let mut out: Vec<u8> = Vec::new();
        push_lit(&mut out, "{\"tokenSeries\":");
        assert(out@ =~= lit("{\"tokenSeries\":"));
        write_object(&mut out, &series_ids, &series_values);
        push_lit(&mut out, ",\"authorizations\":");
        write_object(&mut out, &auth_ids, &auth_values);
        push_lit(&mut out, ",\"accounts\":");
        write_object(&mut out, &auth_ids, &account_values);
        push_lit(&mut out, ",\"intents\":");
        write_object(&mut out, &intent_ids, &intent_values);
        push_lit(&mut out, ",\"usedOperations\":");
        write_key_set(&mut out, &self.used_operations);
        push_lit(&mut out, "}");
        assert(out@ =~= book_json(s));
        out
    }

    /// The book's canonical JSON form, once the book validates.
    pub fn canonical_json(&self) -> (r: Result<Vec<u8>, TokenizationError>)
        ensures
            match r {
                Ok(b) => self@.records_valid() && b@ == book_json(self@),
                Err(_) => !self@.records_valid(),
            },
    {
        match self.validate() {
            Ok(()) => Ok(self.json_bytes()),
            Err(e) => Err(e),
        }
    }

    /// The digest of the book's canonical form, once the book validates and
    /// lists each consumed operation id once.
    pub fn root(&self) -> (r: Result<Commitment, TokenizationError>)
        ensures
            match r {
                Ok(d) => self@.records_valid() && ids_distinct(self@.used_operations) && d@
                    == spec_digest(tokenization_book_domain(), book_json(self@)),
                Err(_) => !(self@.records_valid() && ids_distinct(self@.used_operations)),
            },
    {
        match self.validate() {
            Ok(()) => {},
            Err(e) => return Err(e),
        }
        if !distinct_ids(&self.used_operations) {
            return Err(TokenizationError::InvalidState);
        }
        let out = self.json_bytes();
        Ok(digest("AETHEL:TOKENIZATION-BOOK:v1".as_bytes(), out.as_slice()))
    }
}

/// Supply accounting never exceeds what was authorized, even while intents
/// are pending: for every issuance, pending and applied mints stay within its
/// authorization and pending and applied burns within what was minted; for
/// every registered series, authorized units stay within the issuance cap
/// and the units on the ledger within the units authorized. Every operation
/// of the book keeps the invariant this law starts from.
pub proof fn law_supply_within_authorization(s: TokenizationState)
    requires
        s.inv(),
    ensures
        forall|i: int|
            0 <= i < s.authorizations.len() ==> {
                let acct = #[trigger] s.accounts[i];
                &&& acct.authorized_units == s.authorizations[i].authorized_units
                &&& acct.pending_mint + acct.minted <= acct.authorized_units
                &&& acct.pending_burn + acct.burned <= acct.minted
            },
        forall|x: int|
            0 <= x < s.token_series.len() ==> {
                let id = (#[trigger] s.token_series[x]).token_series_id;
                &&& s.authorized_total(id) <= s.token_series[x].issuance_cap_units
                &&& s.outstanding_total(id) <= s.authorized_total(id)
                &&& s.pending_total(id) <= s.authorized_total(id)
            },
        forall|x: int, t: int|
            0 <= x < s.token_series.len() && 0 <= t < s.token_series[x].tranches@.len()
                ==> s.tranche_committed(
                (#[trigger] s.token_series[x]).token_series_id,
                (#[trigger] s.token_series[x].tranches@[t]).tranche_id,
            ) <= s.token_series[x].tranches@[t].unit_cap,
{
    assert forall|i: int| 0 <= i < s.authorizations.len() implies {
        let acct = #[trigger] s.accounts[i];
        &&& acct.authorized_units == s.authorizations[i].authorized_units
        &&& acct.pending_mint + acct.minted <= acct.authorized_units
        &&& acct.pending_burn + acct.burned <= acct.minted
    } by {
        assert(s.account_ok(i));
    }
    assert forall|x: int| 0 <= x < s.token_series.len() implies {
        let id = (#[trigger] s.token_series[x]).token_series_id;
        &&& s.authorized_total(id) <= s.token_series[x].issuance_cap_units
        &&& s.outstanding_total(id) <= s.authorized_total(id)
        &&& s.pending_total(id) <= s.authorized_total(id)
    } by {
        lemma_series_totals_bounded(s, s.token_series[x].token_series_id);
    }
}

/// A rejected intent releases the units it held: the ledger's refusal of a
/// pending intent is answered with `IntentRejected`, the intent is recorded
/// as rejected, and its issuance's pending units drop by the intent's units
/// while minted and burned units stay as they were.
pub proof fn law_rejection_releases_units(
    s: TokenizationState,
    intent_id: Identifier,
    rejection: LedgerRejection,
)
    requires
        s.inv(),
        s.intent_index(intent_id) >= 0,
        s.intents[s.intent_index(intent_id)].status is Pending,
    ensures
        ({
            let k = s.intent_index(intent_id);
            let r = s.intents[k];
            let ai = s.auth_index(r.intent.issuance_id);
            let s2 = after_outcome(s, intent_id, Err(rejection));
            let before = s.accounts[ai];
            let after = s2.accounts[ai];
            &&& outcome_result(s, intent_id, Err(rejection)) == Err::<
                SupplyReceipt,
                TokenizationError,
            >(TokenizationError::IntentRejected)
            &&& 0 <= ai < s.accounts.len()
            &&& s2.intents[k] == RecordedIntent {
                intent: r.intent,
                status: IntentStatus::Rejected { rejection },
            }
            &&& after.pending_mint + after.pending_burn + r.intent.change.spec_units()
                == before.pending_mint + before.pending_burn
            &&& after.minted == before.minted
            &&& after.burned == before.burned
        }),
{
    let k = s.intent_index(intent_id);
    let r = s.intents[k];
    let ai = s.auth_index(r.intent.issuance_id);
    assert(s.intents_ok());
    lemma_first_match(s.intents, intent_has_id(intent_id));
    lemma_first_match(s.authorizations, auth_has_id(r.intent.issuance_id));
    assert(s.account_ok(ai));
    crate::seqs::lemma_sum_ge_term(s.intents, k, pending_mint_of(r.intent.issuance_id));
    crate::seqs::lemma_sum_ge_term(s.intents, k, pending_burn_of(r.intent.issuance_id));
}

/// Once an intent is applied, recording any further ledger outcome for it
/// returns the stored receipt and leaves the book unchanged, so submitting
/// it again never reaches the ledger's accounting twice.
pub proof fn law_applied_intent_is_final(
    s: TokenizationState,
    intent_id: Identifier,
    receipt: SupplyReceipt,
    later: Result<SupplyReceipt, LedgerRejection>,
)
    requires
        s.inv(),
        s.intent_index(intent_id) >= 0,
        s.intents[s.intent_index(intent_id)].status is Pending,
        receipt_ok(receipt, intent_id),
    ensures
        ({
            let s2 = after_outcome(s, intent_id, Ok(receipt));
            &&& outcome_result(s, intent_id, Ok(receipt)) == Ok::<
                SupplyReceipt,
                TokenizationError,
            >(receipt)
            &&& outcome_result(s2, intent_id, later) == Ok::<SupplyReceipt, TokenizationError>(
                receipt,
            )
            &&& after_outcome(s2, intent_id, later) == s2
        }),
{
    let k = s.intent_index(intent_id);
    let s2 = after_outcome(s, intent_id, Ok(receipt));
    lemma_first_match(s.intents, intent_has_id(intent_id));
    let p = intent_has_id(intent_id);
    crate::seqs::lemma_first_match_update(
        s.intents,
        k,
        RecordedIntent { intent: s.intents[k].intent, status: IntentStatus::Applied { receipt } },
        p,
    );
    assert(s2.intent_index(intent_id) == k);
}

/// An operation id is used once: after an accepted mint or burn, no intent
/// under the same operation id can be recorded.
pub proof fn law_operation_ids_are_single_use(
    s: TokenizationState,
    mint: MintRequest,
    burn: BurnRequest,
    now: u64,
    other: SupplyIntent,
)
    requires
        s.inv(),
    ensures
        mint_error(s, mint, now) is None && other.operation_id == mint.operation_id ==> record_error(
            after_mint(s, mint, now),
            other,
        ) is Some,
        burn_error(s, burn, now) is None && other.operation_id == burn.operation_id ==> record_error(
            after_burn(s, burn, now),
            other,
        ) is Some,
{
    if mint_error(s, mint, now) is None && other.operation_id == mint.operation_id {
        let s2 = after_mint(s, mint, now);
        assert(s2.used_operations[s.used_operations.len() as int] == mint.operation_id);
    }
    if burn_error(s, burn, now) is None && other.operation_id == burn.operation_id {
        let s2 = after_burn(s, burn, now);
        assert(s2.used_operations[s.used_operations.len() as int] == burn.operation_id);
    }
}

/// A series is closed as redeemed only when nothing of it is outstanding
/// or pending: every issuance of the series has burned all it minted and
/// holds no pending mint or burn.
pub proof fn law_a_series_is_redeemed_only_when_all_its_units_are_burned(
    s: TokenizationState,
    operation_id: Identifier,
    token_series_id: Identifier,
)
    requires
        s.inv(),
        status_error(s, operation_id, token_series_id, TokenSeriesStatus::Redeemed) is None,
    ensures
        forall|i: int|
            0 <= i < s.authorizations.len() && (#[trigger] s.authorizations[i]).token_series_id
                == token_series_id ==> {
                &&& s.accounts[i].minted == s.accounts[i].burned
                &&& s.accounts[i].pending_mint == 0
                &&& s.accounts[i].pending_burn == 0
            },
{
    assert(s.outstanding_total(token_series_id) == 0 && s.pending_total(token_series_id) == 0);
    assert forall|i: int|
        0 <= i < s.authorizations.len() && (#[trigger] s.authorizations[i]).token_series_id
            == token_series_id implies {
        &&& s.accounts[i].minted == s.accounts[i].burned
        &&& s.accounts[i].pending_mint == 0
        &&& s.accounts[i].pending_burn == 0
    } by {
        assert(s.account_ok(i));
        assert(s.positions()[i] == i);
        crate::seqs::lemma_sum_ge_term(s.positions(), i, outstanding_term(s, token_series_id));
        crate::seqs::lemma_sum_ge_term(s.positions(), i, pending_term(s, token_series_id));
    }
}

/// Redemption is terminal: no status change of a redeemed series is
/// accepted.
pub proof fn law_a_redeemed_series_changes_status_no_more(
    s: TokenizationState,
    operation_id: Identifier,
    token_series_id: Identifier,
    status: TokenSeriesStatus,
)
    requires
        s.series_index(token_series_id) >= 0,
        s.token_series[s.series_index(token_series_id)].status == TokenSeriesStatus::Redeemed,
    ensures
        status_error(s, operation_id, token_series_id, status) is Some,
{
}

} // verus!
