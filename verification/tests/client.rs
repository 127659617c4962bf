use risex_latency::book::OrderbookLevel;
use risex_latency::client::{
    closing_order, find_market, position_to_close, reference_price, registration_needed,
    resolve_account, target_text, AccountError, MarketEntry, NonceState, PermitError, PerpV2,
    Position, RegisterError, Session, SetupError, Submission, SystemAddresses, Verdict,
};
use risex_latency::crypto::{signing_key_from_hex, Address, SigningKey};
use risex_latency::order::Order;

const ACCOUNT: &str = "0x7E5F4552091A69125d5DfCb7b8C2659029395Bdf";
const SIGNER: &str = "0x2B5AD5c4795c026514f8317c7a215E218DcCD6cF";
const CONTRACT: &str = "0x0102030405060708090a0b0c0d0e0f1011121314";
const TARGET: &str = "0x1111111111111111111111111111111111111111";

fn private_key(n: u8) -> SigningKey {
    match signing_key_from_hex(&format!("{:064x}", n)) {
        Ok(k) => k,
        Err(e) => panic!("no key: {:?}", e),
    }
}

fn account() -> Address {
    match Address::parse(ACCOUNT) {
        Some(a) => a,
        None => panic!("no address"),
    }
}

fn router(text: &str) -> SystemAddresses {
    SystemAddresses { router: Some(text.to_string()), perp_v2: None }
}

fn session() -> Session {
    let mut s = Session::new(account(), Some(private_key(1)), private_key(2));
    assert_eq!(s.init("RISEx", "1", 11155931, CONTRACT, router(TARGET)), Ok(()));
    s
}

fn nonce(anchor: &str) -> NonceState {
    NonceState { nonce_anchor: anchor.to_string(), current_bitmap_index: 7 }
}

#[test]
fn account_is_given_or_derived() {
    let key = Some(private_key(2));
    let given = resolve_account(Some(ACCOUNT), &key).map(|a| a.to_text());
    assert_eq!(given, Ok(ACCOUNT.to_string()));
    let derived = resolve_account(None, &key).map(|a| a.to_text());
    assert_eq!(derived, Ok(SIGNER.to_string()));
}

#[test]
fn account_errors() {
    let key = Some(private_key(2));
    assert_eq!(resolve_account(Some("0x12"), &key).err(), Some(AccountError::InvalidAddress));
    assert_eq!(resolve_account(None, &None).err(), Some(AccountError::Missing));
}

#[test]
fn target_prefers_the_router() {
    let manager = || Some(PerpV2 { orders_manager: Some("m".to_string()) });
    let both = SystemAddresses { router: Some("r".to_string()), perp_v2: manager() };
    assert_eq!(target_text(both), Some("r".to_string()));
    let one = SystemAddresses { router: None, perp_v2: manager() };
    assert_eq!(target_text(one), Some("m".to_string()));
    let none = SystemAddresses { router: None, perp_v2: Some(PerpV2 { orders_manager: None }) };
    assert_eq!(target_text(none), None);
}

#[test]
fn first_visible_market_is_found() {
    let entry =
        |visible: bool, name: &str| MarketEntry { visible, display_name: name.to_string() };
    let markets = vec![
        entry(true, "BTC/USDC"),
        entry(false, "ETH/USDC"),
        entry(true, "ETH/USDC"),
        entry(true, "ETH/USDC"),
    ];
    assert_eq!(find_market(&markets), Some(2));
    assert_eq!(find_market(&vec![entry(false, "ETH/USDC")]), None);
}

#[test]
fn price_of_the_best_bid() {
    let bids =
        vec![OrderbookLevel { price: "3000.5".to_string(), quantity: "1".to_string() }];
    assert_eq!(reference_price(&bids, "2999"), "3000.5");
    assert_eq!(reference_price(&vec![], "2999"), "2999");
}

#[test]
fn new_session_has_no_domain() {
    let s = Session::new(account(), None, private_key(2));
    assert_eq!(s.domain_separator, [0u8; 32]);
    assert_eq!(s.target.bytes, [0u8; 20]);
    assert_eq!(s.signer_addr.to_text(), SIGNER);
}

#[test]
fn setup_errors() {
    let mut s = Session::new(account(), None, private_key(2));
    assert_eq!(s.init("R", "1", 1, "0x1", router(TARGET)), Err(SetupError::InvalidContract));
    let nothing = SystemAddresses { router: None, perp_v2: None };
    assert_eq!(s.init("R", "1", 1, CONTRACT, nothing), Err(SetupError::NoTarget));
    assert_eq!(s.init("R", "1", 1, CONTRACT, router("r")), Err(SetupError::InvalidTarget));
    assert_eq!(s.domain_separator, [0u8; 32]);
}

#[test]
fn permit_for_an_order() {
    let order = Order::market_buy(2, 100);
    match session().order_request(&order, &nonce("41"), 1700000000) {
        Ok(q) => {
            assert_eq!(q.permit.account, ACCOUNT);
            assert_eq!(q.permit.signer, SIGNER);
            assert_eq!((q.permit.nonce_anchor, q.permit.nonce_bitmap_index), (41, 7));
            assert_eq!(q.permit.deadline, 1700604800);
            assert_eq!(
                q.permit.signature,
                "oD90bx34RGxxZpDyuxT09n0Kl7HmPtVWyr/P7zCthJRIZhqGP4+d/909GjX2Bte+Tm/DQytmyBRTamYAOSnY2xs="
            );
            assert_eq!((q.market_id, q.side, q.order_type, q.time_in_force), (2, 0, 0, 3));
            assert_eq!((q.price_ticks, q.size_steps, q.stp_mode), (0, 100, 0));
            assert_eq!((q.post_only, q.reduce_only), (false, false));
            assert_eq!((q.ttl_units, q.builder_id), (0, 0));
            assert_eq!(q.client_order_id, "0");
        }
        Err(e) => panic!("no permit: {:?}", e),
    }
}

#[test]
fn permit_for_cancelling() {
    match session().cancel_request(2, &nonce("41"), 1700000000) {
        Ok(q) => {
            assert_eq!(q.market_id, 2);
            assert_eq!(
                q.permit.signature,
                "QFcsQqS5GIvk0XExTAMJ4E7heljfQWOcPn9gXSKfsbBufHVLtnKEUjldYqCo25EtiCX2D2f7BTxaTJB4Y7zBoRs="
            );
        }
        Err(e) => panic!("no permit: {:?}", e),
    }
}

#[test]
fn permit_errors() {
    let s = session();
    let attempt = |anchor: &str| s.sign_permit([5u8; 32], &nonce(anchor), 1700000000);
    assert_eq!(attempt("soon").err(), Some(PermitError::InvalidNonce));
    assert_eq!(attempt("18446744073709551616").err(), Some(PermitError::InvalidNonce));
    assert_eq!(attempt("281474976710656").err(), Some(PermitError::NonceTooLarge));
    assert_eq!(attempt("281474976710655").ok().map(|p| p.nonce_anchor), Some(281474976710655));
}

#[test]
fn registration_of_the_signer() {
    match session().register_signer(&nonce("41"), 1700000000) {
        Ok(q) => {
            assert_eq!(q.account, ACCOUNT);
            assert_eq!(q.signer, SIGNER);
            assert_eq!(q.message, "Registering signer for RISEx");
            assert_eq!((q.nonce_anchor.as_str(), q.nonce_bitmap_index), ("42", 0));
            assert_eq!(q.expiration, "1702592000");
            assert_eq!(
                q.account_signature,
                "0xdc4c4e4816da3357997fd1ec4c1b8fa9cc1bdacb5cc43ec25d54c1669d41cec5\
                 65dd106be1579eb0a9974b88e853aadb5ffec705e647206a877163be40e340c51b"
            );
            assert_eq!(
                q.signer_signature,
                "0x3fab3662c90068ee8fe0022306f89b86013a046210c413a2c4d311c30ff18ced\
                 1a2fcdb9be7d634c4074edce2ff9cf92eb28ff986dc9724c9cb5d9e9cd6322661c"
            );
            assert_eq!(q.label, "rust-latency");
        }
        Err(e) => panic!("no registration: {:?}", e),
    }
}

#[test]
fn registration_errors() {
    let without = Session::new(account(), None, private_key(2));
    let refused = without.register_signer(&nonce("x"), 1700000000);
    assert_eq!(refused.err(), Some(RegisterError::NoAccountKey));
    let s = session();
    let attempt = |anchor: &str| s.register_signer(&nonce(anchor), 1700000000).err();
    assert_eq!(attempt(""), Some(RegisterError::InvalidNonce));
    assert_eq!(attempt("281474976710655"), Some(RegisterError::NonceTooLarge));
    assert_eq!(attempt("281474976710654"), None);
}

#[test]
fn registration_is_needed_unless_reported() {
    assert!(registration_needed(None));
    assert!(registration_needed(Some(0)));
    assert!(!registration_needed(Some(1)));
    assert!(registration_needed(Some(2)));
}

#[test]
fn refused_nonces_are_tried_again() {
    let mut s = Submission::new();
    let text = "execution reverted: InvalidNonceIndex";
    assert_eq!(s.on_response(false, text), Verdict::Retry);
    assert_eq!(s.on_response(false, text), Verdict::Retry);
    assert_eq!(s.attempt, 2);
    assert_eq!(s.on_response(false, text), Verdict::Fail);
}

#[test]
fn other_answers_end_a_request() {
    assert_eq!(Submission::new().on_response(true, "InvalidNonceIndex"), Verdict::Accept);
    assert_eq!(Submission::new().on_response(false, "busy"), Verdict::Fail);
}

#[test]
fn positions_are_closed_against_their_side() {
    let position = |size: &str| Some(Position { size: size.to_string(), side: 0 });
    assert!(position_to_close(None).is_none());
    assert!(position_to_close(position("0")).is_none());
    assert_eq!(position_to_close(position("0.0")).map(|p| p.size), Some("0.0".to_string()));
    let long = closing_order(4, 9, 0);
    assert_eq!((long.side, long.reduce_only, long.size_steps), (1, true, 9));
    let short = closing_order(4, 9, 1);
    assert_eq!((short.side, short.reduce_only, short.market_id), (0, false, 4));
}

#[test]
fn one_attempt_more_than_refusals() {
    for refusals in 0..5usize {
        let mut s = Submission::new();
        let mut attempts = 0;
        loop {
            let refused = attempts < refusals;
            attempts += 1;
            let text = if refused { "InvalidNonceIndex" } else { "ok" };
            if s.on_response(!refused, text) != Verdict::Retry {
                break;
            }
        }
        assert_eq!(attempts, (refusals + 1).min(3));
    }
}
