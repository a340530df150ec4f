use nordigen::authorize::{state_from_authorization, AuthorizeReply};
use nordigen::state::{is_token_str_ok, NordigenState};

#[test]
fn access_expiry_boundary_is_inclusive() {
    let s = NordigenState::new(String::from("a-token"), 3600, String::from("r-token"), 7776000, 1000);
    assert!(!s.is_token_expired(1000 + 3600 - 1));
    assert!(s.is_token_expired(1000 + 3600));
}

#[test]
fn refresh_expiry_boundary_is_inclusive() {
    let s = NordigenState::new(String::from("a"), 60, String::from("r"), 120, 50);
    assert!(!s.is_refresh_expired(50 + 120 - 1));
    assert!(s.is_refresh_expired(50 + 120));
}

#[test]
fn expiry_instants_count_from_write_instant() {
    let s = NordigenState::new(String::from("a"), 3600, String::from("r"), 7776000, 1_650_000_000);
    assert_eq!(s.token_expires_on(), 1_650_000_000 + 3600);
    assert_eq!(s.refresh_expires_on(), 1_650_000_000 + 7776000);
}

#[test]
fn issue_then_refresh_keeps_refresh_deadline() {
    let t0: u64 = 1_650_000_000;
    let s = NordigenState::new(String::from("first"), 3600, String::from("keep-me"), 7776000, t0);
    let t1 = t0 + 3601;
    assert!(s.is_token_expired(t1));
    assert!(!s.is_refresh_expired(t1));
    let r = s.refreshed(String::from("second"), 3600, t1).expect("refresh applies");
    assert_eq!(r.token, "second");
    assert_eq!(r.refresh_token, "keep-me");
    assert_eq!(r.written_at, t1);
    assert_eq!(r.token_expires_on(), t1 + 3600);
    assert_eq!(r.refresh_expires_on(), t0 + 7776000);
}

#[test]
fn refreshed_fails_once_refresh_deadline_passed() {
    let t0: u64 = 1000;
    let s = NordigenState::new(String::from("a"), 60, String::from("r"), 120, t0);
    assert!(s.refreshed(String::from("b"), 60, t0 + 120).is_none());
}

#[test]
fn refreshed_rejects_unstorable_token() {
    let s = NordigenState::new(String::from("a"), 60, String::from("r"), 120, 1000);
    assert!(s.refreshed(String::from("bad\"quote"), 60, 1050).is_none());
    assert!(s.refreshed(String::from("bad\\slash"), 60, 1050).is_none());
    assert!(s.refreshed(String::from("bad\nnewline"), 60, 1050).is_none());
}

#[test]
fn refreshed_rejects_clock_running_backwards() {
    let s = NordigenState::new(String::from("a"), 60, String::from("r"), 120, 1000);
    assert!(s.refreshed(String::from("b"), 60, 999).is_none());
}

#[test]
fn state_from_authorization_stores_the_reply() {
    let reply = AuthorizeReply {
        access: String::from("acc"),
        access_expires: 3600,
        refresh: String::from("ref"),
        refresh_expires: 7776000,
    };
    let s = state_from_authorization(reply, 42).expect("storable");
    assert_eq!(s.token, "acc");
    assert_eq!(s.token_expires, 3600);
    assert_eq!(s.refresh_token, "ref");
    assert_eq!(s.refresh_expires, 7776000);
    assert_eq!(s.written_at, 42);
}

#[test]
fn state_from_authorization_rejects_unstorable_tokens() {
    let reply = AuthorizeReply {
        access: String::from("a\"b"),
        access_expires: 3600,
        refresh: String::from("ref"),
        refresh_expires: 7776000,
    };
    assert!(state_from_authorization(reply, 42).is_none());
}

#[test]
fn state_from_authorization_rejects_unrepresentable_expiry() {
    let reply = AuthorizeReply {
        access: String::from("acc"),
        access_expires: 2,
        refresh: String::from("ref"),
        refresh_expires: 2,
    };
    assert!(state_from_authorization(reply, u64::MAX - 1).is_none());
}

#[test]
fn token_character_set() {
    assert!(is_token_str_ok("plain.token-123_~"));
    assert!(is_token_str_ok(""));
    assert!(!is_token_str_ok("with\"quote"));
    assert!(!is_token_str_ok("with\\backslash"));
    assert!(!is_token_str_ok("with\ttab"));
    assert!(!is_token_str_ok("with\u{e9}accent"));
}
