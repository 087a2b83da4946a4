use aethel::receivable::AethelError;
use aethel::stream::{
    valid_status_transition, RegisterStream, StreamState, StreamStatus, StreamTransition,
};

fn id(byte: u8) -> [u8; 32] {
    [byte; 32]
}

fn state() -> StreamState {
    StreamState {
        stream_id: id(20),
        payer_commitment: id(21),
        payee_commitment: id(22),
        settlement_asset_id: id(23),
        source_domain_digest: id(24),
        terms_digest: id(25),
        event_root: id(26),
        accrued_commitment: id(27),
        paid_commitment: [0; 32],
        eligible_commitment: id(28),
        pledged_commitment: [0; 32],
        as_of: 40,
        version: 1,
        status: StreamStatus::Active,
    }
}

#[test]
fn a_stream_state_is_valid_only_between_distinct_parties() {
    assert_eq!(state().validate(), Ok(()));
    let mut same_parties = state();
    same_parties.payee_commitment = same_parties.payer_commitment;
    assert_eq!(same_parties.validate(), Err(AethelError::InvalidStream));
    assert_eq!(same_parties.root(), Err(AethelError::InvalidStream));
    let mut unversioned = state();
    unversioned.version = 0;
    assert_eq!(unversioned.validate(), Err(AethelError::InvalidStream));
}

#[test]
fn the_root_commits_to_every_field() {
    let root = state().root().unwrap();
    assert_eq!(state().root().unwrap(), root);
    let mut accrued = state();
    accrued.accrued_commitment = id(29);
    assert_ne!(accrued.root().unwrap(), root);
    let mut paused = state();
    paused.status = StreamStatus::Paused;
    assert_ne!(paused.root().unwrap(), root);
}

#[test]
fn a_source_successor_keeps_the_parties_and_the_pledge() {
    let current = state();
    let mut next = state();
    next.version = 2;
    next.as_of = 41;
    next.accrued_commitment = id(30);
    assert!(current.valid_source_successor(&next));
    let mut skipped = next;
    skipped.version = 3;
    assert!(!current.valid_source_successor(&skipped));
    let mut backdated = next;
    backdated.as_of = 40;
    assert!(!current.valid_source_successor(&backdated));
    let mut repledged = next;
    repledged.pledged_commitment = id(31);
    assert!(!current.valid_source_successor(&repledged));
    let mut closed = current;
    closed.status = StreamStatus::Closed;
    let mut reopened = next;
    reopened.status = StreamStatus::Active;
    assert!(!closed.valid_source_successor(&reopened));
}

#[test]
fn status_changes_follow_the_lifecycle() {
    assert!(valid_status_transition(StreamStatus::Active, StreamStatus::Paused));
    assert!(valid_status_transition(StreamStatus::Paused, StreamStatus::Defaulted));
    assert!(valid_status_transition(StreamStatus::Defaulted, StreamStatus::Closed));
    assert!(!valid_status_transition(StreamStatus::Defaulted, StreamStatus::Active));
    assert!(!valid_status_transition(StreamStatus::Cancelled, StreamStatus::Active));
    assert!(!valid_status_transition(StreamStatus::Closed, StreamStatus::Defaulted));
}

#[test]
fn an_issuance_pledges_the_next_version() {
    let next = state().valid_issuance_successor(id(40)).unwrap();
    assert_eq!(next.version, 2);
    assert_eq!(next.pledged_commitment, id(40));
    assert_eq!(next.accrued_commitment, state().accrued_commitment);
    let mut defaulted = state();
    defaulted.status = StreamStatus::Defaulted;
    assert_eq!(
        defaulted.valid_issuance_successor(id(40)),
        Err(AethelError::StreamUnavailable)
    );
    let mut exhausted = state();
    exhausted.version = u64::MAX;
    assert_eq!(
        exhausted.valid_issuance_successor(id(40)),
        Err(AethelError::ArithmeticOverflow)
    );
}

#[test]
fn registrations_and_transitions_are_checked_before_signing() {
    let register = RegisterStream {
        operation_id: id(30),
        attestor_provider_id: id(1),
        state: state(),
        source_evidence_digest: id(31),
        relation_proof_digest: id(32),
        signature: vec![9; 64],
    };
    let statement = register.statement().unwrap();
    let mut unsigned = register.clone();
    unsigned.signature = Vec::new();
    assert_eq!(unsigned.statement().unwrap(), statement);
    let mut second_version = register.clone();
    second_version.state.version = 2;
    assert_eq!(second_version.statement(), Err(AethelError::InvalidStream));

    let mut next = state();
    next.version = 2;
    next.as_of = 41;
    let transition = StreamTransition {
        operation_id: id(33),
        attestor_provider_id: id(1),
        before_state_root: state().root().unwrap(),
        after_state: next,
        source_evidence_digest: id(34),
        relation_proof_digest: id(35),
        signature: Vec::new(),
    };
    assert!(transition.statement().is_ok());
    let mut unidentified = transition.clone();
    unidentified.operation_id = [0; 32];
    assert_eq!(
        unidentified.statement(),
        Err(AethelError::InvalidStreamTransition)
    );
    let mut invalid = transition;
    invalid.after_state.payee_commitment = invalid.after_state.payer_commitment;
    assert_eq!(invalid.statement(), Err(AethelError::InvalidStream));
}
