use nordigen::bank::BankAuthState;
use nordigen::state::NordigenState;
use nordigen::text::u64_to_string;

#[test]
fn save_then_load_gives_back_the_record() {
    let s = NordigenState::new(
        String::from("acc.token-1"),
        86400,
        String::from("ref.token-2"),
        2592000,
        1_650_000_000,
    );
    let text = s.encode();
    let back = NordigenState::parse(text.as_str()).expect("own encoding parses");
    assert_eq!(back.token, s.token);
    assert_eq!(back.token_expires, s.token_expires);
    assert_eq!(back.refresh_token, s.refresh_token);
    assert_eq!(back.refresh_expires, s.refresh_expires);
    assert_eq!(back.written_at, s.written_at);
}

#[test]
fn encode_writes_the_exact_text() {
    let s = NordigenState::new(String::from("tok"), 3600, String::from("ref"), 7776000, 1000);
    let expected = "{\n  \"token\": \"tok\",\n  \"token_expires\": 3600,\n  \"refresh_token\": \"ref\",\n  \"refresh_expires\": 7776000,\n  \"written_at\": 1000\n}";
    assert_eq!(s.encode(), expected);
}

#[test]
fn parse_reads_a_stored_text() {
    let text = "{\n  \"token\": \"tok\",\n  \"token_expires\": 3600,\n  \"refresh_token\": \"ref\",\n  \"refresh_expires\": 7776000,\n  \"written_at\": 1000\n}";
    let s = NordigenState::parse(text).expect("well-formed text parses");
    assert_eq!(s.token, "tok");
    assert_eq!(s.token_expires, 3600);
    assert_eq!(s.refresh_token, "ref");
    assert_eq!(s.refresh_expires, 7776000);
    assert_eq!(s.written_at, 1000);
}

#[test]
fn round_trip_with_edge_values() {
    let s = NordigenState::new(String::from(""), u32::MAX, String::from(""), u32::MAX, 0);
    let back = NordigenState::parse(s.encode().as_str()).expect("parses");
    assert_eq!(back.token, "");
    assert_eq!(back.token_expires, u32::MAX);
    assert_eq!(back.refresh_expires, u32::MAX);
    assert_eq!(back.written_at, 0);

    let top = u64::MAX - u64::from(u32::MAX);
    let s2 = NordigenState::new(String::from("t"), u32::MAX, String::from("r"), 0, top);
    let back2 = NordigenState::parse(s2.encode().as_str()).expect("parses");
    assert_eq!(back2.written_at, top);
}

#[test]
fn parse_rejects_corrupt_texts() {
    assert!(NordigenState::parse("").is_none());
    assert!(NordigenState::parse("{}").is_none());
    assert!(NordigenState::parse("not a record at all").is_none());
    // wrong field order
    assert!(NordigenState::parse(
        "{\n  \"token_expires\": 3600,\n  \"token\": \"tok\",\n  \"refresh_token\": \"ref\",\n  \"refresh_expires\": 7776000,\n  \"written_at\": 1000\n}"
    ).is_none());
    // a number with a leading zero is not canonical
    assert!(NordigenState::parse(
        "{\n  \"token\": \"tok\",\n  \"token_expires\": 03600,\n  \"refresh_token\": \"ref\",\n  \"refresh_expires\": 7776000,\n  \"written_at\": 1000\n}"
    ).is_none());
    // trailing garbage
    assert!(NordigenState::parse(
        "{\n  \"token\": \"tok\",\n  \"token_expires\": 3600,\n  \"refresh_token\": \"ref\",\n  \"refresh_expires\": 7776000,\n  \"written_at\": 1000\n} "
    ).is_none());
    // time-to-live too large for its field
    assert!(NordigenState::parse(
        "{\n  \"token\": \"tok\",\n  \"token_expires\": 4294967296,\n  \"refresh_token\": \"ref\",\n  \"refresh_expires\": 7776000,\n  \"written_at\": 1000\n}"
    ).is_none());
    // expiry instant not representable in 64 bits
    assert!(NordigenState::parse(
        "{\n  \"token\": \"tok\",\n  \"token_expires\": 3600,\n  \"refresh_token\": \"ref\",\n  \"refresh_expires\": 7776000,\n  \"written_at\": 18446744073709551615\n}"
    ).is_none());
}

#[test]
fn decimal_notation_is_canonical() {
    assert_eq!(u64_to_string(0), "0");
    assert_eq!(u64_to_string(10), "10");
    assert_eq!(u64_to_string(3600), "3600");
    assert_eq!(u64_to_string(u64::MAX), "18446744073709551615");
}

#[test]
fn bank_record_round_trip() {
    let b = BankAuthState::new(
        String::from("MY_BANK_XX"),
        String::from("req-0001"),
        String::from("ref-abc"),
    );
    let text = b.encode();
    let expected = "{\n  \"bank_id\": \"MY_BANK_XX\",\n  \"requisition_id\": \"req-0001\",\n  \"requisition_ref\": \"ref-abc\"\n}";
    assert_eq!(text, expected);
    let back = BankAuthState::parse(text.as_str()).expect("own encoding parses");
    assert_eq!(back.bank_id, "MY_BANK_XX");
    assert_eq!(back.requisition_id, "req-0001");
    assert_eq!(back.requisition_ref, "ref-abc");
}

#[test]
fn bank_parse_rejects_corrupt_texts() {
    assert!(BankAuthState::parse("").is_none());
    assert!(BankAuthState::parse("{\n  \"bank_id\": \"b\"\n}").is_none());
    assert!(BankAuthState::parse(
        "{\n  \"bank_id\": \"b\",\n  \"requisition_id\": \"r\",\n  \"requisition_ref\": \"x\"\n}}"
    ).is_none());
}
