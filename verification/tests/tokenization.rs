use aethel::artifacts::LossLayer;
use aethel::types::id_key;
use aethel::receivable::{
    ReceivableIssuance, ReceivableSeries, ReceivableStatus, SeriesPolicy, SubjectKind,
};
use aethel::tokenization::{
    AssetLedgerPort, BurnReason, LedgerExchanges, BurnRequest, IssuanceAuthorization, LedgerRejection, MintRequest,
    RedemptionCondition, RegisterTokenSeries, SupplyIntent, SupplyReceipt, TokenSeries,
    TokenSeriesStatus, TokenizationBook, TokenizationError, Tranche, TransferRestriction,
};

fn id(byte: u8) -> [u8; 32] {
    [byte; 32]
}

fn series(allow_secondary_transfer: bool) -> ReceivableSeries {
    ReceivableSeries {
        series_id: id(34),
        aethel_domain_id: id(39),
        stream_id: id(20),
        receivable_asset_id: id(35),
        issuer_participant_id: id(36),
        policy: SeriesPolicy {
            requires_credit_decision: false,
            requires_guarantee: false,
            requires_funding_reservation: false,
            requires_confidential_subject: false,
            subject_kind: SubjectKind::LegalEntity,
            required_qualifications: Vec::new(),
            accepted_issuer_namespace_digest: None,
            allow_secondary_transfer,
            eligibility_policy_digest: id(37),
            claim_policy_digest: id(38),
        },
        valid_from: 1,
        maturity: 1_000,
        sequence: 0,
        status: ReceivableStatus::Active,
    }
}

fn token_series(restriction: TransferRestriction, tranches: Vec<Tranche>) -> TokenSeries {
    TokenSeries {
        token_series_id: id(60),
        series_id: id(34),
        receivable_asset_id: id(35),
        aethel_domain_id: id(39),
        issuer_participant_id: id(36),
        units_per_receivable: 100,
        issuance_cap_units: 1_000,
        tranches,
        transfer_restriction: restriction,
        redemption: vec![RedemptionCondition::StreamClosed],
        valid_from: 1,
        maturity: 1_000,
        status: TokenSeriesStatus::Open,
    }
}

fn issuance() -> ReceivableIssuance {
    ReceivableIssuance {
        operation_id: id(90),
        issuance_id: id(91),
        request_id: id(50),
        series_id: id(34),
        note_id: id(92),
        owner_commitment: id(93),
        face_value_commitment: id(94),
        before_stream_state_version: 1,
        before_stream_state_root: id(95),
        after_pledged_commitment: id(96),
        allocation_nullifier: id(97),
        credit_decision_id: None,
        guarantee_id: None,
        funding_quote_id: None,
        relation_proof_digest: id(98),
        zkpi_digest: id(99),
        issued_at: 50,
    }
}

fn authorization(units: u64) -> IssuanceAuthorization {
    IssuanceAuthorization {
        operation_id: id(70),
        issuance_id: id(91),
        token_series_id: id(60),
        series_id: id(34),
        note_id: id(92),
        face_value_commitment: id(94),
        authorized_units: units,
        authorization_digest: id(99),
        authorized_at: 50,
    }
}

struct Ledger {
    sequence: u64,
    reject: bool,
}

impl AssetLedgerPort for Ledger {
    fn exchanges(&self) -> LedgerExchanges {
        unreachable!()
    }

    fn apply_supply_intent(
        &mut self,
        intent: &SupplyIntent,
    ) -> Result<SupplyReceipt, LedgerRejection> {
        if self.reject {
            return Err(LedgerRejection {
                reason_digest: id(1),
                rejected_at: 60,
            });
        }
        self.sequence += 1;
        Ok(SupplyReceipt {
            intent_id: intent.intent_id,
            receipt_digest: intent.statement().unwrap(),
            ledger_sequence: self.sequence,
            finalized_at: 60,
        })
    }
}

fn book_with_authorization(units: u64) -> TokenizationBook {
    let mut book = TokenizationBook::new();
    book.register_token_series(
        RegisterTokenSeries {
            operation_id: id(61),
            token_series: token_series(TransferRestriction::Unrestricted, Vec::new()),
        },
        &series(true),
        40,
    )
    .unwrap();
    book.authorize_issuance(authorization(units), &issuance(), 50)
        .unwrap();
    book
}

fn mint(intent: u8, units: u64) -> MintRequest {
    MintRequest {
        operation_id: id(intent),
        intent_id: id(intent + 100),
        issuance_id: id(91),
        units,
        recipient_commitment: id(200),
        tranche_id: None,
    }
}

#[test]
fn token_series_cannot_promise_more_transferability_than_the_series_policy() {
    let mut book = TokenizationBook::new();
    assert_eq!(
        book.register_token_series(
            RegisterTokenSeries {
                operation_id: id(61),
                token_series: token_series(TransferRestriction::Unrestricted, Vec::new()),
            },
            &series(false),
            40,
        ),
        Err(TokenizationError::SeriesMismatch)
    );
    book.register_token_series(
        RegisterTokenSeries {
            operation_id: id(61),
            token_series: token_series(TransferRestriction::NonTransferable, Vec::new()),
        },
        &series(false),
        40,
    )
    .unwrap();
    assert!(book.validate().is_ok());
}

#[test]
fn authorization_must_describe_the_aethel_issuance_and_fit_the_cap() {
    let mut book = book_with_authorization(600);
    let mut second = authorization(500);
    second.operation_id = id(71);
    second.issuance_id = id(81);
    second.note_id = id(82);
    let mut other = issuance();
    other.issuance_id = id(81);
    other.note_id = id(82);
    assert_eq!(
        book.authorize_issuance(second.clone(), &other, 50),
        Err(TokenizationError::SupplyExceedsAuthorization)
    );
    second.authorized_units = 400;
    let mut detached = other.clone();
    detached.zkpi_digest = id(3);
    assert_eq!(
        book.authorize_issuance(second.clone(), &detached, 50),
        Err(TokenizationError::IssuanceMismatch)
    );
    book.authorize_issuance(second, &other, 50).unwrap();
    assert!(book.validate().is_ok());
}

#[test]
fn supply_never_exceeds_the_bound_authorization_even_while_pending() {
    let mut book = book_with_authorization(100);
    let mut ledger = Ledger {
        sequence: 0,
        reject: false,
    };
    let first = book.mint(mint(1, 60), 55).unwrap();
    assert_eq!(
        book.mint(mint(2, 41), 55),
        Err(TokenizationError::SupplyExceedsAuthorization)
    );
    let second = book.mint(mint(2, 40), 55).unwrap();
    let receipt = book.submit(&first.intent_id, &mut ledger).unwrap();
    assert_eq!(book.submit(&first.intent_id, &mut ledger).unwrap(), receipt);
    assert_eq!(ledger.sequence, 1);
    book.submit(&second.intent_id, &mut ledger).unwrap();
    assert_eq!(book.outstanding_units(&id(60)), 100);
    assert_eq!(
        book.mint(mint(3, 1), 56),
        Err(TokenizationError::SupplyExceedsAuthorization)
    );
    assert!(book.validate().is_ok());
    assert!(book.root().is_ok());
}

#[test]
fn a_rejected_intent_releases_its_units() {
    let mut book = book_with_authorization(100);
    let intent = book.mint(mint(1, 100), 55).unwrap();
    let mut ledger = Ledger {
        sequence: 0,
        reject: true,
    };
    assert_eq!(
        book.submit(&intent.intent_id, &mut ledger),
        Err(TokenizationError::IntentRejected)
    );
    assert_eq!(book.account(&id(91)).unwrap().pending_mint, 0);
    assert!(book.mint(mint(2, 100), 56).is_ok());
    assert!(book.validate().is_ok());
}

#[test]
fn burns_follow_the_redemption_conditions_and_the_minted_supply() {
    let mut book = book_with_authorization(100);
    let mut ledger = Ledger {
        sequence: 0,
        reject: false,
    };
    let minted = book.mint(mint(1, 100), 55).unwrap();
    book.submit(&minted.intent_id, &mut ledger).unwrap();
    let burn = |intent: u8, units: u64, reason: BurnReason| BurnRequest {
        operation_id: id(intent),
        intent_id: id(intent + 100),
        issuance_id: id(91),
        units,
        holder_commitment: id(200),
        tranche_id: None,
        reason,
    };
    assert_eq!(
        book.burn(burn(2, 10, BurnReason::GuaranteeClaim), 70),
        Err(TokenizationError::RedemptionNotPermitted)
    );
    assert_eq!(
        book.burn(burn(2, 101, BurnReason::Redemption), 70),
        Err(TokenizationError::BurnExceedsSupply)
    );
    let redeemed = book.burn(burn(2, 100, BurnReason::Redemption), 70).unwrap();
    assert_eq!(
        book.set_status(id(5), &id(60), TokenSeriesStatus::Redeemed),
        Err(TokenizationError::TokenSeriesUnavailable)
    );
    book.submit(&redeemed.intent_id, &mut ledger).unwrap();
    assert_eq!(book.outstanding_units(&id(60)), 0);
    book.set_status(id(5), &id(60), TokenSeriesStatus::Redeemed)
        .unwrap();
    assert!(book.validate().is_ok());
}

#[test]
fn tranche_caps_partition_the_issuance_cap() {
    let tranches = vec![
        Tranche {
            tranche_id: id(41),
            loss_layer: LossLayer::FirstLoss,
            unit_cap: 200,
        },
        Tranche {
            tranche_id: id(42),
            loss_layer: LossLayer::Excess,
            unit_cap: 800,
        },
    ];
    let mut book = TokenizationBook::new();
    book.register_token_series(
        RegisterTokenSeries {
            operation_id: id(61),
            token_series: token_series(TransferRestriction::Unrestricted, tranches),
        },
        &series(true),
        40,
    )
    .unwrap();
    book.authorize_issuance(authorization(1_000), &issuance(), 50)
        .unwrap();
    let mut request = mint(1, 201);
    request.tranche_id = Some(id(41));
    assert_eq!(
        book.mint(request.clone(), 55),
        Err(TokenizationError::SupplyExceedsAuthorization)
    );
    request.units = 200;
    book.mint(request, 55).unwrap();
    assert_eq!(
        book.mint(mint(2, 1), 55),
        Err(TokenizationError::UnknownTranche)
    );
    let mut bad = token_series(TransferRestriction::Unrestricted, Vec::new());
    bad.tranches = vec![Tranche {
        tranche_id: id(41),
        loss_layer: LossLayer::FirstLoss,
        unit_cap: 1,
    }];
    assert_eq!(
        bad.validate_initial(),
        Err(TokenizationError::InvalidTokenSeries)
    );
}

fn json_keys(value: &serde_json::Value, out: &mut Vec<String>) {
    match value {
        serde_json::Value::Object(map) => {
            for (key, inner) in map {
                out.push(key.clone());
                json_keys(inner, out);
            }
        }
        serde_json::Value::Array(items) => items.iter().for_each(|item| json_keys(item, out)),
        _ => {}
    }
}

#[test]
fn the_book_keeps_no_record_keyed_by_a_holder() {
    let mut book = book_with_authorization(100);
    let mut ledger = Ledger {
        sequence: 0,
        reject: false,
    };
    let mut to_b = mint(2, 40);
    to_b.recipient_commitment = id(201);
    for request in [mint(1, 60), to_b] {
        let intent = book.mint(request, 55).unwrap();
        book.submit(&intent.intent_id, &mut ledger).unwrap();
    }
    let holders = [id_key(&id(200)), id_key(&id(201))];
    let encoded = book.canonical_json().unwrap();
    let value: serde_json::Value = serde_json::from_slice(&encoded).unwrap();
    let mut all = Vec::new();
    json_keys(&value, &mut all);
    assert!(holders.iter().all(|holder| !all.contains(holder)));
    assert!(all.iter().all(|key| !key.contains("balance")));
}

fn pending_book() -> TokenizationBook {
    let mut book = book_with_authorization(100);
    book.mint(mint(1, 60), 55).unwrap();
    book
}

#[test]
fn validate_checks_series_then_authorizations_then_caps_then_intents_then_accounts() {
    assert!(pending_book().validate().is_ok());

    let mut broken_series = pending_book();
    broken_series.token_series[0].units_per_receivable = 0;
    broken_series.authorizations[0].operation_id = [0u8; 32];
    assert_eq!(
        broken_series.validate(),
        Err(TokenizationError::InvalidTokenSeries)
    );

    let mut malformed = pending_book();
    malformed.authorizations[0].operation_id = [0u8; 32];
    assert_eq!(
        malformed.validate(),
        Err(TokenizationError::InvalidAuthorization)
    );

    let mut unregistered = pending_book();
    unregistered.authorizations[0].token_series_id = id(61);
    assert_eq!(
        unregistered.validate(),
        Err(TokenizationError::UnknownTokenSeries)
    );

    let mut other_series = pending_book();
    other_series.authorizations[0].series_id = id(33);
    assert_eq!(other_series.validate(), Err(TokenizationError::InvalidState));

    let mut over_cap = pending_book();
    over_cap.authorizations[0].authorized_units = 1_001;
    over_cap.intents[0].intent.issuance_id = id(95);
    assert_eq!(over_cap.validate(), Err(TokenizationError::InvalidState));

    let mut orphaned = pending_book();
    orphaned.intents[0].intent.issuance_id = id(95);
    assert_eq!(
        orphaned.validate(),
        Err(TokenizationError::UnknownAuthorization)
    );

    let mut miscounted = pending_book();
    miscounted.accounts[0].pending_mint = 59;
    assert_eq!(miscounted.validate(), Err(TokenizationError::InvalidState));
}
