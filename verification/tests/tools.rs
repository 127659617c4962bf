use risex_latency::checker::{document_market_id, CheckOutcome, Checker};
use risex_latency::json::{
    de_chain_id, digest_of, order_market_id, parse_levels, parse_market_id, parse_value,
    read_digest, ChainIdError, Json, JsonError,
};
use risex_latency::message::WsMessage;
use risex_latency::tracker::{Event, Tracker};

fn json(text: &str) -> Json {
    match Json::parse(text) {
        Ok(j) => j,
        Err(e) => panic!("{:?}: {}", e, text),
    }
}

#[test]
fn documents_are_read() {
    let j = json(r#"{"a": 7, "b": [true, null, "x"], "c": -1, "d": 1.5}"#);
    assert_eq!(j.get("a").and_then(|v| v.as_u64()), Some(7));
    assert_eq!(j.get("c").and_then(|v| v.as_u64()), None);
    assert!(matches!(j.get("d"), Some(Json::Number(None, text)) if text == "1.5"));
    match j.get("b") {
        Some(Json::Array(items)) => {
            assert!(matches!(items[0], Json::Bool(true)));
            assert!(matches!(items[1], Json::Null));
            assert_eq!(items[2].as_str(), Some("x"));
        }
        _ => panic!("no list"),
    }
    assert!(j.get("e").is_none());
    assert!(json("[1]").get("a").is_none());
}

#[test]
fn malformed_documents() {
    assert_eq!(Json::parse("{").err(), Some(JsonError::Malformed));
    assert_eq!(Json::parse("").err(), Some(JsonError::Malformed));
    assert_eq!(parse_value("nul").err(), Some(JsonError::Malformed));
}

#[test]
fn market_ids() {
    assert_eq!(parse_market_id(&json("12")), Some(12));
    assert_eq!(parse_market_id(&json("\"12\"")), Some(12));
    assert_eq!(parse_market_id(&json("-1")), None);
    assert_eq!(parse_market_id(&json("1.0")), None);
    assert_eq!(parse_market_id(&json("\"x\"")), None);
    assert_eq!(parse_market_id(&json("true")), None);
}

#[test]
fn chain_ids() {
    assert_eq!(de_chain_id(&json("11155931")), Ok(11155931));
    assert_eq!(de_chain_id(&json("\"11155931\"")), Ok(11155931));
    assert_eq!(de_chain_id(&json("-1")), Err(ChainIdError::BadChainId));
    assert_eq!(de_chain_id(&json("null")), Err(ChainIdError::BadChainId));
    assert_eq!(de_chain_id(&json("\"0x1\"")), Err(ChainIdError::NotANumber));
}

#[test]
fn market_ids_of_orders() {
    assert_eq!(order_market_id(&json("2")), Some(2));
    assert_eq!(order_market_id(&json("4294967298")), Some(2));
    assert_eq!(order_market_id(&json("\"2\"")), Some(2));
    assert_eq!(order_market_id(&json("\"4294967298\"")), None);
    assert_eq!(order_market_id(&json("-2")), None);
    assert_eq!(order_market_id(&json("[]")), None);
}

#[test]
fn levels_are_read() {
    let data = json(
        r#"{"bids": [{"price": "1", "quantity": "2", "more": 0}, ["3", "4"]],
            "asks": [{"price": "1", "quantity": "2"}, {"price": 1, "quantity": "2"}],
            "other": {"price": "1", "quantity": "2"}}"#,
    );
    let bids = parse_levels(&data, "bids");
    assert_eq!(bids.len(), 2);
    assert_eq!((bids[0].price.as_str(), bids[0].quantity.as_str()), ("1", "2"));
    assert_eq!((bids[1].price.as_str(), bids[1].quantity.as_str()), ("3", "4"));
    assert_eq!(parse_levels(&data, "asks").len(), 0);
    assert_eq!(parse_levels(&data, "other").len(), 0);
    assert_eq!(parse_levels(&data, "none").len(), 0);
    assert_eq!(parse_levels(&json(r#"{"bids": [["1", "2", "3"]]}"#), "bids").len(), 0);
}

#[test]
fn digests_of_messages() {
    let text = r#"{"channel": "orderbook", "block_number": 12, "log_index": "3", "checksum": 1.5}"#;
    match read_digest(text) {
        Some(d) => {
            assert_eq!(d.channel, "orderbook");
            assert_eq!(d.block_number, "12");
            assert_eq!(d.log_index, "\"3\"");
            assert_eq!(d.checksum, "1.5");
        }
        None => panic!("no digest"),
    }
    assert!(read_digest("hello").is_none());
}

#[test]
fn digests_of_other_documents() {
    for text in ["[1]", "{}", r#"{"channel": 5, "block_number": null}"#] {
        match parse_value(text) {
            Ok(v) => {
                let d = digest_of(v);
                assert_eq!(d.channel, "?");
                assert_eq!(d.block_number, "null");
                assert_eq!(d.log_index, "null");
            }
            Err(e) => panic!("{:?}", e),
        }
    }
    let nested = r#"{"checksum": {"b": [1, 2], "a": "x"}}"#;
    assert_eq!(read_digest(nested).map(|d| d.checksum), Some(r#"{"a":"x","b":[1,2]}"#.to_string()));
}

fn placed(method: Option<&str>, market: u64, block: u64, index: u64) -> WsMessage {
    WsMessage {
        method: method.map(|m| m.to_string()),
        msg_type: Some("snapshot".to_string()),
        market_id: Some(Json::Number(Some(market), market.to_string())),
        block_number: Some(block),
        log_index: Some(index),
        checksum: None,
        data: None,
    }
}

#[test]
fn tracker_follows_markets() {
    let mut t = Tracker::new();
    let first = placed(Some("snapshot"), 3, 10, 4);
    assert!(matches!(
        t.on_message("one", Some(&first)),
        Event::Snapshot { market_id: 3, block_number: 10, log_index: 4 }
    ));
    let second = placed(None, 3, 10, 4);
    assert!(matches!(t.on_message("two", Some(&second)), Event::Update { market_id: 3, .. }));
    let third = placed(Some("update"), 3, 10, 3);
    assert!(matches!(
        t.on_message("three", Some(&third)),
        Event::Rollback {
            market_id: 3,
            block_number: 10,
            log_index: 3,
            prev_block: 10,
            prev_log_index: 4
        }
    ));
    match t.states.get(3) {
        Some(s) => {
            assert_eq!((s.block_number, s.log_index, s.msg_count), (10, 4, 2));
            assert_eq!((s.last_method.as_str(), s.last_raw.as_str()), ("unknown", "two"));
        }
        None => panic!("no state"),
    }
    assert_eq!((t.msg_seq, t.snapshot_count, t.update_count), (3, 1, 2));
}

#[test]
fn snapshots_may_go_back() {
    let mut t = Tracker::new();
    t.on_message("one", Some(&placed(Some("update"), 3, 10, 4)));
    let back = placed(Some("snapshot"), 3, 9, 9);
    assert!(matches!(t.on_message("two", Some(&back)), Event::Snapshot { .. }));
    let next = placed(Some("update"), 3, 10, 0);
    assert!(matches!(t.on_message("three", Some(&next)), Event::Update { .. }));
    let other = placed(Some("update"), 4, 1, 0);
    assert!(matches!(t.on_message("four", Some(&other)), Event::Update { .. }));
    let old = placed(Some("update"), 3, 9, 9);
    assert!(matches!(t.on_message("five", Some(&old)), Event::Rollback { .. }));
}

#[test]
fn tracker_passes_over() {
    let mut t = Tracker::new();
    assert!(matches!(t.on_message("x", None), Event::Unreadable));
    let confirmation = placed(Some("subscribe"), 1, 1, 1);
    assert!(matches!(t.on_message("x", Some(&confirmation)), Event::Confirmation));
    let mut unnamed = placed(Some("update"), 1, 1, 1);
    unnamed.market_id = None;
    assert!(matches!(t.on_message("x", Some(&unnamed)), Event::NoMarket));
    let mut nowhere = placed(Some("update"), 1, 1, 1);
    nowhere.log_index = None;
    assert!(matches!(t.on_message("x", Some(&nowhere)), Event::NoPlace { market_id: 1 }));
    assert_eq!((t.msg_seq, t.snapshot_count, t.update_count), (4, 0, 0));
    assert!(t.states.entries.is_empty());
}

#[test]
fn checker_checks_updates() {
    let mut c = Checker::new();
    let snapshot = r#"{"type": "snapshot", "method": "x", "market_id": 1, "data": {
        "bids": [{"price": "69332.4", "quantity": "0.000722"}],
        "asks": [{"price": "69333", "quantity": "1.5"}]}}"#;
    assert!(matches!(
        c.on_text(snapshot),
        Some(CheckOutcome::Snapshot { market_id: 1, bids: 1, asks: 1 })
    ));
    let update = r#"{"method": "update", "checksum": 4816240075, "data": {
        "market_id": "1", "bids": [], "asks": []}}"#;
    match c.on_text(update) {
        Some(CheckOutcome::Checked { market_id, check, count, report, done }) => {
            assert_eq!((market_id, count, report, done), (1, 1, false, false));
            assert_eq!((check.matched, check.expected), (true, 521272779));
        }
        _ => panic!("not checked"),
    }
    let wrong = r#"{"type": "update", "market_id": 1, "data": {
        "bids": [{"price": "69330", "quantity": "2"}]}}"#;
    match c.on_text(wrong) {
        Some(CheckOutcome::Checked { check, count, .. }) => {
            assert_eq!((check.matched, check.expected, check.computed), (false, 0, 3113277466));
            assert_eq!((check.bids, check.asks, count), (2, 1, 2));
        }
        _ => panic!("not checked"),
    }
    assert_eq!((c.count, c.ok_count, c.fail_count), (2, 1, 1));
}

#[test]
fn checker_passes_over() {
    let mut c = Checker::new();
    assert!(c.on_text("{").is_none());
    for text in [
        r#"{"method": "subscribe", "market_id": 1, "data": {}}"#,
        r#"{"market_id": 1, "data": {}}"#,
        r#"{"type": 5, "method": "update", "market_id": 1, "data": {}}"#,
        r#"{"type": "update", "data": {}}"#,
        r#"{"type": "update", "market_id": 1}"#,
    ] {
        assert!(matches!(c.on_text(text), Some(CheckOutcome::Skipped)), "{}", text);
    }
    assert_eq!(c.count, 0);
}

#[test]
fn checker_refuses_unreadable_books() {
    let mut c = Checker::new();
    let unpriced = r#"{"type": "update", "market_id": 1, "data": {
        "bids": [{"price": "x", "quantity": "2"}]}}"#;
    assert!(matches!(c.on_text(unpriced), Some(CheckOutcome::Unpriced)));
    let unreadable = r#"{"type": "update", "market_id": 1, "data": {
        "bids": [{"price": "1", "quantity": "x"}]}}"#;
    assert!(matches!(c.on_text(unreadable), Some(CheckOutcome::Unsummable)));
    assert_eq!(c.count, 0);
}

#[test]
fn checker_stops_at_its_limit() {
    let mut c = Checker::new();
    let update = r#"{"type": "update", "market_id": 1, "data": {}}"#;
    for i in 1..=200u32 {
        match c.on_text(update) {
            Some(CheckOutcome::Checked { count, report, done, check, .. }) => {
                assert_eq!((count, report, done), (i, i % 50 == 0, i == 200));
                assert!(check.matched);
            }
            _ => panic!("not checked"),
        }
    }
    assert_eq!((c.ok_count, c.fail_count), (200, 0));
}

#[test]
fn snapshot_forgets_the_book() {
    let mut c = Checker::new();
    c.on_text(r#"{"type": "snapshot", "market_id": 1, "data": {"bids": [["1", "1"]]}}"#);
    let again = r#"{"type": "snapshot", "market_id": 1, "data": {"asks": [["2", "1"]]}}"#;
    assert!(matches!(
        c.on_text(again),
        Some(CheckOutcome::Snapshot { market_id: 1, bids: 0, asks: 1 })
    ));
}

#[test]
fn market_of_a_document() {
    assert_eq!(document_market_id(&json(r#"{"market_id": 1, "data": {"market_id": 2}}"#)), Some(1));
    assert_eq!(document_market_id(&json(r#"{"data": {"market_id": 2}}"#)), Some(2));
    assert_eq!(document_market_id(&json(r#"{"market_id": null, "data": {"market_id": 2}}"#)), None);
}
