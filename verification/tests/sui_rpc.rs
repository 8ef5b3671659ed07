use base64::Engine;
use nft_gate_gateway::sui_rpc::consume_events_step;
use nft_gate_gateway::sui_rpc::consumed_event_type;
use nft_gate_gateway::sui_rpc::event_matches;
use nft_gate_gateway::sui_rpc::is_consumed_event;
use nft_gate_gateway::sui_rpc::nonce_matches;
use nft_gate_gateway::sui_rpc::owned_objects_grant_access;
use nft_gate_gateway::sui_rpc::transaction_confirms_consume;
use nft_gate_gateway::sui_rpc::ChainEvent;
use nft_gate_gateway::sui_rpc::ConsumeStep;
use nft_gate_gateway::sui_rpc::EventNonce;
use nft_gate_gateway::sui_rpc::OwnershipStep;
use nft_gate_gateway::sui_rpc::SuiRpc;
use nft_gate_gateway::sui_rpc::TransactionReport;

fn numbers(v: &[u64]) -> EventNonce {
    EventNonce::Numbers(v.iter().map(|x| Some(*x)).collect())
}

fn owner_event() -> ChainEvent {
    ChainEvent {
        event_type: Some("0xabc::access_gate::AccessConsumedEvent".to_string()),
        sender: Some("0xowner".to_string()),
        nonce: Some(numbers(&[110, 111, 110, 99, 101])),
        gate_id: Some("0xgate".to_string()),
    }
}

#[test]
fn nonce_matches_byte_array() {
    assert!(nonce_matches(&numbers(&[110, 111, 110, 99, 101]), "nonce"));
    assert!(!nonce_matches(&numbers(&[1, 2, 3]), "nonce"));
}

#[test]
fn nonce_matches_base64() {
    let b64 = base64::engine::general_purpose::STANDARD.encode("nonce");
    assert!(nonce_matches(&EventNonce::Text(b64), "nonce"));
}

#[test]
fn nonce_mismatches() {
    assert!(!nonce_matches(&EventNonce::Text("bm9uY2U".to_string()), "nonce")); // unpadded
    assert!(!nonce_matches(&EventNonce::Text("bm9uY2Ux".to_string()), "nonce"));
    assert!(!nonce_matches(&EventNonce::Numbers(vec![Some(110), None, Some(110), Some(99), Some(101)]), "nonce"));
    assert!(!nonce_matches(&EventNonce::Other, "nonce"));
    assert!(nonce_matches(&numbers(&[]), ""));
}

#[test]
fn package_of_extracts_prefix() {
    assert_eq!(SuiRpc::package_of("0xabc::access_gate::AccessNFT"), Some("0xabc"));
}

#[test]
fn package_of_without_separator_is_whole() {
    assert_eq!(SuiRpc::package_of("0xabc"), Some("0xabc"));
    assert_eq!(SuiRpc::package_of("a:b::c"), Some("a:b"));
    assert_eq!(SuiRpc::package_of("::x"), Some(""));
    assert_eq!(SuiRpc::package_of(""), Some(""));
}

#[test]
fn event_matches_checks_sender_nonce_gate() {
    let ev = owner_event();
    assert!(is_consumed_event(&ev));
    assert!(event_matches(&ev, "nonce", "0xowner", Some("0xgate")));
    assert!(!event_matches(&ev, "nonce", "0xattacker", Some("0xgate"))); // wrong sender
    assert!(!event_matches(&ev, "other", "0xowner", Some("0xgate"))); // wrong nonce
    assert!(!event_matches(&ev, "nonce", "0xowner", Some("0xwrong"))); // wrong gate
    assert!(event_matches(&ev, "nonce", "0xowner", None)); // gate not constrained
}

#[test]
fn event_type_must_be_consumed_event() {
    let mut ev = owner_event();
    ev.event_type = Some("0xabc::access_gate::AccessGrantedEvent".to_string());
    assert!(!is_consumed_event(&ev));
    ev.event_type = None;
    assert!(!is_consumed_event(&ev));
}

#[test]
fn cache_key_is_stable() {
    assert_eq!(SuiRpc::cache_key("0xa", "0xt", Some("0xg")), "0xa|0xt|0xg");
    assert_eq!(SuiRpc::cache_key("0xa", "0xt", None), "0xa|0xt|-");
}

#[test]
fn consumed_event_type_uses_package() {
    assert_eq!(
        consumed_event_type("0xabc::access_gate::AccessNFT"),
        "0xabc::access_gate::AccessConsumedEvent"
    );
}

#[test]
fn owned_objects_decision() {
    let page = vec![Some("0xg1".to_string()), None];
    assert!(owned_objects_grant_access(&page, None));
    assert!(owned_objects_grant_access(&page, Some("0xg1")));
    assert!(!owned_objects_grant_access(&page, Some("0xg2")));
    assert!(!owned_objects_grant_access(&vec![], None));
}

#[test]
fn consume_step_decisions() {
    let events = vec![owner_event()];
    assert_eq!(consume_events_step(&events, "nonce", "0xowner", Some("0xgate"), None), ConsumeStep::Decided(true));
    assert_eq!(
        consume_events_step(&events, "nonce", "0xowner", None, Some("DIG")),
        ConsumeStep::VerifyTransaction("DIG".to_string())
    );
    assert_eq!(consume_events_step(&events, "nonce", "0xother", None, Some("DIG")), ConsumeStep::Decided(false));
    assert_eq!(consume_events_step(&vec![], "nonce", "0xowner", None, None), ConsumeStep::Decided(false));
}

#[test]
fn transaction_confirmation() {
    let tx = TransactionReport { status: Some("success".to_string()), events: vec![owner_event()] };
    assert!(transaction_confirms_consume(&tx, "nonce", "0xowner", Some("0xgate")));
    assert!(!transaction_confirms_consume(&tx, "nonce", "0xowner", Some("0xwrong")));
    let failed = TransactionReport { status: Some("failure".to_string()), events: vec![owner_event()] };
    assert!(!transaction_confirms_consume(&failed, "nonce", "0xowner", None));
    let mut other = owner_event();
    other.event_type = Some("0xabc::other::Event".to_string());
    let wrong_type = TransactionReport { status: Some("success".to_string()), events: vec![other] };
    assert!(!transaction_confirms_consume(&wrong_type, "nonce", "0xowner", None));
}

#[test]
fn ownership_cache_steps() {
    let mut off = SuiRpc::new("http://rpc".to_string(), 0);
    assert_eq!(off.rpc_url(), "http://rpc");
    assert_eq!(off.begin_ownership_check_at("0xa", "0xt", None, 0), OwnershipStep::Query(None));
    off.finish_ownership_check_at(None, true, 0);
    assert_eq!(off.begin_ownership_check_at("0xa", "0xt", None, 1), OwnershipStep::Query(None));

    let mut on = SuiRpc::new("http://rpc".to_string(), 2); // 2 ms = 2_000_000 ns
    let step = on.begin_ownership_check_at("0xa", "0xt", Some("0xg"), 10);
    assert_eq!(step, OwnershipStep::Query(Some("0xa|0xt|0xg".to_string())));
    on.finish_ownership_check_at(Some("0xa|0xt|0xg".to_string()), true, 10);
    assert_eq!(on.begin_ownership_check_at("0xa", "0xt", Some("0xg"), 2_000_009), OwnershipStep::Known(true));
    assert_eq!(
        on.begin_ownership_check_at("0xa", "0xt", Some("0xg"), 2_000_010),
        OwnershipStep::Query(Some("0xa|0xt|0xg".to_string()))
    );
    assert_eq!(
        on.begin_ownership_check_at("0xa", "0xt", None, 20),
        OwnershipStep::Query(Some("0xa|0xt|-".to_string()))
    );
}
