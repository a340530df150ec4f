use nordigen::bank::BankAuthState;
use nordigen::config::NordigenConfig;
use nordigen::flow::{
    complete_bank_authorization, ensure_token_action, find_index_by_iban, refresh_token_action,
    EnsureAction, HandshakeError, PendingHandshake, RefreshAction, StateError,
};
use nordigen::http_cb::ProtocolError;
use nordigen::state::NordigenState;

fn record(now: u64) -> NordigenState {
    NordigenState::new(String::from("acc"), 3600, String::from("ref"), 7776000, now)
}

#[test]
fn ensure_uses_a_valid_record_unchanged() {
    let loaded: Result<NordigenState, StateError> = Ok(record(1000));
    assert_eq!(ensure_token_action(&loaded, 1000 + 60), EnsureAction::Authorized);
}

#[test]
fn ensure_reports_refreshable_record() {
    let loaded: Result<NordigenState, StateError> = Ok(record(1000));
    assert_eq!(ensure_token_action(&loaded, 1000 + 3600), EnsureAction::RefreshRequired);
}

#[test]
fn ensure_reauthorizes_after_refresh_expiry() {
    let loaded: Result<NordigenState, StateError> = Ok(record(1000));
    assert_eq!(
        ensure_token_action(&loaded, 1000 + 7776000),
        EnsureAction::AuthorizationRequired
    );
}

#[test]
fn ensure_authorizes_when_no_record_exists() {
    let loaded: Result<NordigenState, StateError> = Err(StateError::NotFound);
    assert_eq!(ensure_token_action(&loaded, 5), EnsureAction::AuthorizationRequired);
}

#[test]
fn ensure_never_overwrites_a_corrupt_record() {
    let loaded: Result<NordigenState, StateError> = Err(StateError::Corrupt);
    assert_eq!(ensure_token_action(&loaded, 5), EnsureAction::InvalidState);
}

#[test]
fn refresh_of_valid_token_is_a_noop() {
    let loaded: Result<NordigenState, StateError> = Ok(record(1000));
    assert_eq!(refresh_token_action(&loaded, 1000 + 3599), RefreshAction::StillValid);
}

#[test]
fn refresh_applies_when_access_expired_only() {
    let loaded: Result<NordigenState, StateError> = Ok(record(1000));
    assert_eq!(refresh_token_action(&loaded, 1000 + 3601), RefreshAction::Refresh);
}

#[test]
fn refresh_fails_once_refresh_token_expired() {
    let loaded: Result<NordigenState, StateError> = Ok(record(1000));
    assert_eq!(refresh_token_action(&loaded, 1000 + 7776000), RefreshAction::Expired);
}

#[test]
fn refresh_needs_a_readable_record() {
    let missing: Result<NordigenState, StateError> = Err(StateError::NotFound);
    let corrupt: Result<NordigenState, StateError> = Err(StateError::Corrupt);
    assert_eq!(refresh_token_action(&missing, 5), RefreshAction::NoState);
    assert_eq!(refresh_token_action(&corrupt, 5), RefreshAction::NoState);
}

fn pending() -> PendingHandshake {
    PendingHandshake {
        bank_id: String::from("MY_BANK"),
        requisition_id: String::from("req-1"),
        consent_link: String::from("https://example.invalid/consent"),
        expected_ref: String::from("issued-ref"),
    }
}

#[test]
fn matching_reference_completes_the_consent() {
    let r = complete_bank_authorization(&pending(), Ok(String::from("issued-ref")))
        .expect("matching reference");
    assert_eq!(r.bank_id, "MY_BANK");
    assert_eq!(r.requisition_id, "req-1");
    assert_eq!(r.requisition_ref, "issued-ref");
    // the record can be persisted and read back
    let back = BankAuthState::parse(r.encode().as_str()).expect("parses");
    assert_eq!(back.requisition_ref, "issued-ref");
}

#[test]
fn mismatched_reference_yields_no_consent() {
    let r = complete_bank_authorization(&pending(), Ok(String::from("someone-elses-ref")));
    assert_eq!(r.err(), Some(HandshakeError::RefMismatch));
}

#[test]
fn listener_failure_yields_no_consent() {
    let r = complete_bank_authorization(&pending(), Err(ProtocolError::MissingRef));
    assert_eq!(r.err(), Some(HandshakeError::ListenerFailed(ProtocolError::MissingRef)));
}

#[test]
fn account_selection_takes_the_first_match() {
    let ibans = vec![
        String::from("DE00"),
        String::from("DE11"),
        String::from("DE11"),
        String::from("DE22"),
    ];
    assert_eq!(find_index_by_iban(&ibans, "DE11"), Some(1));
    assert_eq!(find_index_by_iban(&ibans, "DE33"), None);
    assert_eq!(find_index_by_iban(&Vec::<String>::new(), "DE00"), None);
}

#[test]
fn config_description() {
    let c = NordigenConfig {
        secret_id: String::from("id-1"),
        secret_key: String::from("key-2"),
    };
    assert_eq!(c.describe(), " secret(id: id-1, key: key-2)");
}
