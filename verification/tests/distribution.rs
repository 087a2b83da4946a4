use aethel::distribution::{
    transfer_restriction_digest, CirculationRequest, DistributionBook, DistributionError,
    SettlementOutcome, Side, Venue, VenueFill,
};
use aethel::tokenization::{
    RedemptionCondition, TokenSeries, TokenSeriesStatus, TransferRestriction,
};

fn id(byte: u8) -> [u8; 32] {
    [byte; 32]
}

fn series(restriction: TransferRestriction) -> TokenSeries {
    TokenSeries {
        token_series_id: id(60),
        series_id: id(34),
        receivable_asset_id: id(35),
        aethel_domain_id: id(39),
        issuer_participant_id: id(36),
        units_per_receivable: 100,
        issuance_cap_units: 1_000,
        tranches: Vec::new(),
        transfer_restriction: restriction,
        redemption: vec![RedemptionCondition::StreamClosed],
        valid_from: 1,
        maturity: 1_000,
        status: TokenSeriesStatus::Open,
    }
}

fn request(venue: Venue, counterparty: Option<[u8; 32]>) -> CirculationRequest {
    CirculationRequest {
        request_id: id(70),
        operation_id: id(71),
        token_series_id: id(60),
        series_id: id(34),
        issuance_id: id(91),
        receivable_asset_id: id(35),
        cash_asset_id: id(23),
        units: 50,
        side: Side::Sell,
        initiator_commitment: id(200),
        counterparty_commitment: counterparty,
        limit_price_commitment: None,
        venue,
        eligibility_attestation_digest: None,
        valid_until: 500,
    }
}

fn fill(fill_id: u8, units: u64, counterparty: u8) -> VenueFill {
    VenueFill {
        fill_id: id(fill_id),
        request_id: id(70),
        venue: Venue::Qomm,
        units,
        counterparty_commitment: id(counterparty),
        price_commitment: id(150),
        venue_evidence_digest: id(151),
        filled_at: 100,
    }
}

#[test]
fn a_non_transferable_series_admits_nothing() {
    let mut book = DistributionBook::new();
    assert_eq!(
        book.admit_request(
            request(Venue::Qomm, None),
            &series(TransferRestriction::NonTransferable),
            60
        ),
        Err(DistributionError::NotTransferable)
    );
}

#[test]
fn issuer_repurchase_only_allows_the_issuer_to_buy_bilaterally() {
    let restriction = TransferRestriction::IssuerRepurchaseOnly {
        issuer_commitment: id(36),
    };
    let mut book = DistributionBook::new();
    assert_eq!(
        book.admit_request(request(Venue::Qomm, None), &series(restriction.clone()), 60),
        Err(DistributionError::NotTransferable)
    );
    assert_eq!(
        book.admit_request(
            request(Venue::Bilateral, Some(id(201))),
            &series(restriction.clone()),
            60
        ),
        Err(DistributionError::NotTransferable)
    );
    book.admit_request(
        request(Venue::Bilateral, Some(id(36))),
        &series(restriction),
        60,
    )
    .unwrap();
}

#[test]
fn qualified_holder_series_need_eligibility_evidence() {
    let restriction = TransferRestriction::QualifiedHolders {
        eligibility_policy_digest: id(37),
    };
    let mut book = DistributionBook::new();
    assert_eq!(
        book.admit_request(
            request(Venue::Oclob, None),
            &series(restriction.clone()),
            60
        ),
        Err(DistributionError::EligibilityRequired)
    );
    let mut qualified = request(Venue::Oclob, None);
    qualified.eligibility_attestation_digest = Some(id(77));
    book.admit_request(qualified, &series(restriction), 60).unwrap();
}

#[test]
fn fills_are_bounded_by_the_request_and_each_gets_its_own_nullifier() {
    let mut book = DistributionBook::new();
    let handoff = book
        .admit_request(
            request(Venue::Qomm, None),
            &series(TransferRestriction::Unrestricted),
            60,
        )
        .unwrap();
    assert_eq!(handoff.venue, Venue::Qomm);
    let first = book.accept_fill(fill(1, 30, 201), 100).unwrap();
    assert_eq!(
        book.accept_fill(fill(2, 21, 202), 100),
        Err(DistributionError::OverFilled)
    );
    let second = book.accept_fill(fill(2, 20, 202), 100).unwrap();
    assert_ne!(first.nullifier, second.nullifier);
    assert_eq!(first.seller_commitment, id(200));
    assert_eq!(first.buyer_commitment, id(201));
    assert_eq!(first.deadline, 500);
    assert_eq!(
        book.accept_fill(fill(1, 1, 201), 100),
        Err(DistributionError::OverFilled)
    );
    let mut self_dealing = fill(3, 1, 200);
    self_dealing.units = 0;
    assert_eq!(
        book.accept_fill(self_dealing, 100),
        Err(DistributionError::InvalidFill)
    );
    assert!(book.validate().is_ok());
    assert!(book.root().is_ok());
}

#[test]
fn a_bilateral_fill_must_name_the_agreed_counterparty() {
    let mut book = DistributionBook::new();
    book.admit_request(
        request(Venue::Bilateral, Some(id(201))),
        &series(TransferRestriction::Unrestricted),
        60,
    )
    .unwrap();
    let mut wrong = fill(1, 50, 202);
    wrong.venue = Venue::Bilateral;
    assert_eq!(
        book.accept_fill(wrong, 100),
        Err(DistributionError::FillMismatch)
    );
    let mut wrong_venue = fill(1, 50, 201);
    wrong_venue.venue = Venue::Qomm;
    assert_eq!(
        book.accept_fill(wrong_venue, 100),
        Err(DistributionError::FillMismatch)
    );
}

#[test]
fn outcomes_respect_the_deadline_and_release_unsettled_units() {
    let mut book = DistributionBook::new();
    book.admit_request(
        request(Venue::Qomm, None),
        &series(TransferRestriction::Unrestricted),
        60,
    )
    .unwrap();
    let context = book.accept_fill(fill(1, 50, 201), 100).unwrap();
    assert_eq!(
        book.record_outcome(
            &context.context_id,
            SettlementOutcome::Settled {
                receipt_digest: id(9),
                finalized_at: 501,
            }
        ),
        Err(DistributionError::InvalidOutcome)
    );
    assert_eq!(
        book.record_outcome(&context.context_id, SettlementOutcome::Expired { at: 400 }),
        Err(DistributionError::InvalidOutcome)
    );
    book.record_outcome(
        &context.context_id,
        SettlementOutcome::Rejected {
            reason_digest: id(8),
            at: 120,
        },
    )
    .unwrap();
    assert_eq!(book.request(&id(70)).unwrap().filled_units, 0);
    let again = book.accept_fill(fill(2, 50, 203), 130).unwrap();
    book.record_outcome(
        &again.context_id,
        SettlementOutcome::Settled {
            receipt_digest: id(9),
            finalized_at: 140,
        },
    )
    .unwrap();
    assert_eq!(
        book.record_outcome(&again.context_id, SettlementOutcome::Expired { at: 600 }),
        Err(DistributionError::Replay)
    );
    assert!(book.validate().is_ok());
}

#[test]
fn requests_expire_and_a_frozen_series_admits_nothing() {
    let mut book = DistributionBook::new();
    assert_eq!(
        book.admit_request(
            request(Venue::Qomm, None),
            &series(TransferRestriction::Unrestricted),
            501
        ),
        Err(DistributionError::OutsideValidityWindow)
    );
    let mut frozen = series(TransferRestriction::Unrestricted);
    frozen.status = TokenSeriesStatus::Frozen;
    assert_eq!(
        book.admit_request(request(Venue::Qomm, None), &frozen, 60),
        Err(DistributionError::SeriesUnavailable)
    );
    book.admit_request(
        request(Venue::Qomm, None),
        &series(TransferRestriction::Unrestricted),
        60,
    )
    .unwrap();
    assert_eq!(
        book.accept_fill(fill(1, 10, 201), 501),
        Err(DistributionError::OutsideValidityWindow)
    );
}

#[test]
fn a_fill_binds_the_admitted_restriction_and_a_replayed_fill_is_refused() {
    let mut book = DistributionBook::new();
    book.admit_request(
        request(Venue::Qomm, None),
        &series(TransferRestriction::Unrestricted),
        60,
    )
    .unwrap();
    let context = book.accept_fill(fill(1, 10, 201), 100).unwrap();
    assert_eq!(
        context.transfer_restriction_digest,
        transfer_restriction_digest(&TransferRestriction::Unrestricted).unwrap()
    );
    assert_eq!(book.context(&context.context_id).unwrap(), &context);
    assert!(book.outcome(&context.context_id).is_none());
    assert_eq!(
        book.accept_fill(fill(1, 10, 201), 100),
        Err(DistributionError::Replay)
    );
    assert_eq!(
        book.admit_request(
            request(Venue::Qomm, None),
            &series(TransferRestriction::Unrestricted),
            60
        ),
        Err(DistributionError::Replay)
    );
    assert_eq!(book.request(&id(70)).unwrap().filled_units, 10);
}

fn filled_book() -> DistributionBook {
    let mut book = DistributionBook::new();
    book.admit_request(
        request(Venue::Qomm, None),
        &series(TransferRestriction::Unrestricted),
        60,
    )
    .unwrap();
    book.accept_fill(fill(1, 10, 201), 100).unwrap();
    book
}

#[test]
fn validate_names_the_first_kind_of_damage_it_finds() {
    assert!(filled_book().validate().is_ok());

    let mut malformed_request = filled_book();
    malformed_request.requests[0].request.units = 0;
    assert_eq!(
        malformed_request.validate(),
        Err(DistributionError::InvalidRequest)
    );

    let mut overfilled = filled_book();
    overfilled.requests[0].filled_units = 11;
    assert_eq!(overfilled.validate(), Err(DistributionError::InvalidState));

    let mut malformed_context = filled_book();
    malformed_context.contexts[0].units = 0;
    assert_eq!(
        malformed_context.validate(),
        Err(DistributionError::InvalidContext)
    );

    let mut orphaned = filled_book();
    orphaned.contexts[0].request_id = id(99);
    assert_eq!(orphaned.validate(), Err(DistributionError::UnknownRequest));

    let mut unconsumed = filled_book();
    unconsumed.used_nullifiers.clear();
    assert_eq!(unconsumed.validate(), Err(DistributionError::InvalidState));

    let mut zero_digest = filled_book();
    zero_digest.requests[0].transfer_restriction_digest = [0u8; 32];
    assert_eq!(zero_digest.validate(), Err(DistributionError::InvalidState));
}
