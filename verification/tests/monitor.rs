use risex_latency::json::Json;
use risex_latency::message::{excerpt, read_feed, WsMessage};
use risex_latency::monitor::{Monitor, Outcome, UpdateReport};
use risex_latency::stream::{concat_block_and_log_index, MarketStream};

fn number(n: u64) -> Json {
    Json::Number(Some(n), n.to_string())
}

fn book_data(bids: &[(&str, &str)], asks: &[(&str, &str)]) -> Json {
    let side = |levels: &[(&str, &str)]| {
        Json::Array(
            levels
                .iter()
                .map(|(p, q)| {
                    Json::Object(vec![
                        ("price".to_string(), Json::Text(p.to_string())),
                        ("quantity".to_string(), Json::Text(q.to_string())),
                    ])
                })
                .collect(),
        )
    };
    Json::Object(vec![("asks".to_string(), side(asks)), ("bids".to_string(), side(bids))])
}

fn message(method: &str, market: u64, block: u64, index: u64) -> WsMessage {
    WsMessage {
        method: Some(method.to_string()),
        msg_type: None,
        market_id: Some(number(market)),
        block_number: Some(block),
        log_index: Some(index),
        checksum: None,
        data: None,
    }
}

fn update(m: &mut Monitor, conn: usize, msg: &WsMessage) -> UpdateReport {
    match m.on_message(conn, Some(msg)) {
        Outcome::Update(u) => u,
        _ => panic!("not an update"),
    }
}

#[test]
fn sequence_numbers_join_block_and_index() {
    assert_eq!(concat_block_and_log_index(1, 2), (1u128 << 64) | 2);
    assert_eq!(concat_block_and_log_index(u64::MAX, u64::MAX), u128::MAX);
    assert!(concat_block_and_log_index(1, u64::MAX) < concat_block_and_log_index(2, 0));
}

#[test]
fn stream_drops_repeats_and_notices_rollbacks() {
    let mut s = MarketStream::new();
    assert_eq!(s.process(5), (true, false));
    assert_eq!(s.process(5), (false, false));
    assert_eq!(s.process(9), (true, false));
    assert_eq!(s.process(5), (false, false));
    assert_eq!(s.process(7), (true, true));
    assert_eq!((s.total_received, s.total_deduped, s.total_duplicates), (5, 3, 2));
    assert_eq!(s.last_seq, 7);
}

#[test]
fn stream_forgets_after_the_limit() {
    let mut s = MarketStream::new();
    for seq in 1..=10000u128 {
        assert_eq!(s.process(seq), (true, false));
    }
    assert_eq!(s.process(1), (false, false));
    assert_eq!(s.process(10001), (true, false));
    assert_eq!(s.seen_queue.len(), 10000);
    assert_eq!(s.process(2), (false, false));
    assert_eq!(s.process(1), (true, true));
}

#[test]
fn sequence_zero_is_no_last_number() {
    let mut s = MarketStream::new();
    assert_eq!(s.process(0), (true, false));
    assert_eq!(s.process(0), (false, false));
    assert_eq!(s.process(3), (true, false));
}

#[test]
fn second_delivery_is_a_repeat() {
    let mut m = Monitor::new();
    let msg = message("update", 3, 10, 1);
    let first = update(&mut m, 4, &msg);
    assert!(first.is_new && first.rollback.is_none() && first.check.is_none());
    assert_eq!(first.seq, (10u128 << 64) | 1);
    let second = update(&mut m, 7, &msg);
    assert!(!second.is_new && second.rollback.is_none());
    let p = m.progress();
    assert_eq!((p.raw, p.deduped, p.dupes), (2, 1, 1));
    assert_eq!(m.recent.len(), 2);
    assert!(m.recent[0].deduped && !m.recent[1].deduped);
    assert_eq!(m.recent[0].seq, "184467440737095516161");
    assert_eq!(m.recent[1].conn_id, 7);
}

#[test]
fn rollback_halts_for_good() {
    let mut m = Monitor::new();
    update(&mut m, 1, &message("update", 3, 10, 1));
    update(&mut m, 2, &message("update", 3, 10, 5));
    update(&mut m, 2, &message("update", 8, 2, 2));
    update(&mut m, 1, &message("update", 3, 10, 5));
    let report = update(&mut m, 5, &message("update", 3, 10, 3));
    assert!(m.halted);
    match report.rollback {
        Some(b) => {
            assert_eq!(
                b.prev.map(|p| (p.conn_id, p.block_number, p.log_index)),
                Some((2, 10, 5))
            );
            assert_eq!((b.stats.raw, b.stats.deduped, b.stats.dupes), (5, 4, 1));
        }
        None => panic!("no rollback"),
    }
    assert!(matches!(
        m.on_message(1, Some(&message("update", 3, 11, 0))),
        Outcome::Stopped
    ));
    assert_eq!((m.msg_seq, m.update_count), (5, 5));
}

#[test]
fn markets_do_not_touch_each_other() {
    let mut m = Monitor::new();
    update(&mut m, 1, &message("update", 1, 10, 0));
    let other = update(&mut m, 1, &message("update", 2, 9, 0));
    assert!(other.is_new && other.rollback.is_none());
    assert!(!m.halted);
}

#[test]
fn messages_that_say_nothing() {
    let mut m = Monitor::new();
    assert!(matches!(m.on_message(0, None), Outcome::Ignored));
    let confirmation = message("subscribe", 1, 1, 1);
    assert!(matches!(m.on_message(0, Some(&confirmation)), Outcome::Ignored));
    let mut nowhere = message("update", 1, 1, 1);
    nowhere.block_number = None;
    assert!(matches!(m.on_message(0, Some(&nowhere)), Outcome::Ignored));
    let mut unnamed = message("update", 1, 1, 1);
    unnamed.market_id = Some(Json::Text("one".to_string()));
    assert!(matches!(m.on_message(0, Some(&unnamed)), Outcome::Ignored));
    assert_eq!((m.msg_seq, m.update_count, m.snapshot_count), (4, 0, 0));
}

#[test]
fn market_id_of_the_data_is_used_last() {
    let data = || Some(Json::Object(vec![("market_id".to_string(), number(6))]));
    let mut msg = message("update", 1, 1, 1);
    msg.data = data();
    assert_eq!(msg.read_market(), Some(1));
    msg.market_id = None;
    assert_eq!(msg.read_market(), Some(6));
    msg.market_id = Some(Json::Null);
    assert_eq!(msg.read_market(), None);
    msg.market_id = Some(Json::Text("12".to_string()));
    assert_eq!(msg.read_market(), Some(12));
}

#[test]
fn type_stands_in_for_a_missing_method() {
    let mut msg = message("update", 1, 1, 1);
    assert_eq!(read_feed(&msg).map(|f| f.is_snapshot), Some(false));
    msg.msg_type = Some("snapshot".to_string());
    assert_eq!(read_feed(&msg).map(|f| f.is_snapshot), Some(false));
    msg.method = None;
    assert_eq!(read_feed(&msg).map(|f| f.is_snapshot), Some(true));
    assert_eq!(msg.method_name(), "unknown");
    msg.msg_type = None;
    assert_eq!(msg.method_or_type_name(), "unknown");
}

#[test]
fn checksums_are_held_against_the_book() {
    let mut m = Monitor::new();
    let mut first = message("snapshot", 3, 1, 0);
    first.data = Some(book_data(&[("69332.4", "0.000722")], &[("69333", "1.5"), ("69334", "1")]));
    assert!(matches!(m.on_message(0, Some(&first)), Outcome::Snapshot));
    let mut second = message("update", 3, 2, 0);
    second.data = Some(book_data(&[], &[("69334.0", "0")]));
    second.checksum = Some(521272779);
    let check = update(&mut m, 0, &second).check;
    assert_eq!(
        check.map(|c| (c.matched, c.computed, c.bids, c.asks)),
        Some((true, 521272779, 1, 1))
    );
    let mut third = message("update", 3, 3, 0);
    third.data = Some(book_data(&[("69330", "2")], &[]));
    third.checksum = Some(7);
    let check = update(&mut m, 0, &third).check;
    assert_eq!(
        check.map(|c| (c.matched, c.expected, c.computed, c.bids)),
        Some((false, 7, 3113277466, 2))
    );
    assert_eq!((m.checksum_ok, m.checksum_fail, m.snapshot_count), (1, 1, 1));
}

#[test]
fn only_the_first_connection_keeps_books() {
    let mut m = Monitor::new();
    let mut msg = message("update", 3, 2, 0);
    msg.data = Some(book_data(&[("1", "1")], &[]));
    msg.checksum = Some(7);
    assert!(update(&mut m, 1, &msg).check.is_none());
    assert!(m.books.get(3).is_none());
    assert!(update(&mut m, 0, &msg).check.is_some());
    assert!(m.books.get(3).is_some());
}

#[test]
fn book_that_cannot_be_summed() {
    let mut m = Monitor::new();
    let mut msg = message("update", 3, 2, 0);
    msg.data = Some(book_data(&[("1", "79228162515")], &[]));
    msg.checksum = Some(7);
    assert!(matches!(m.on_message(0, Some(&msg)), Outcome::Unsummable));
    assert_eq!((m.msg_seq, m.update_count), (1, 0));
}

#[test]
fn snapshots_keep_out_of_the_streams() {
    let mut m = Monitor::new();
    update(&mut m, 1, &message("update", 3, 10, 1));
    assert!(matches!(
        m.on_message(1, Some(&message("snapshot", 3, 1, 1))),
        Outcome::Snapshot
    ));
    assert!(!m.halted);
    assert_eq!(m.recent.len(), 1);
}

#[test]
fn progress_and_ring() {
    let mut m = Monitor::new();
    for i in 1..=250u64 {
        let report = update(&mut m, 1, &message("update", i % 3, i, 0));
        assert_eq!(report.progress.is_some(), i % 100 == 0);
        if let Some(p) = report.progress {
            assert_eq!((p.raw, p.deduped, p.dupes), (i, i, 0));
        }
    }
    assert_eq!(m.recent.len(), 200);
    assert_eq!(m.recent[0].block_number, 51);
    assert_eq!(m.recent[199].block_number, 250);
    let again = update(&mut m, 2, &message("update", 2, 200, 0));
    assert!(!again.is_new && again.progress.is_none());
}

#[test]
fn excerpts_end_between_characters() {
    assert_eq!(excerpt("short"), Some("short"));
    assert_eq!(excerpt(""), Some(""));
    let long = "a".repeat(300);
    assert_eq!(excerpt(&long), Some(&long[..200]));
    assert_eq!(excerpt(&format!("{}é", "a".repeat(199))), None);
    assert_eq!(excerpt(&format!("{}é", "a".repeat(198))).map(|s| s.len()), Some(200));
}

#[test]
fn window_holds_the_newest_accepted_numbers() {
    let mut s = MarketStream::new();
    for seq in 1..=10005u128 {
        s.process(seq);
        s.process(seq);
    }
    assert_eq!(s.seen_queue.len(), 10000);
    assert_eq!((s.seen_queue[0], s.seen_queue[9999]), (6, 10005));
    assert_eq!((s.total_deduped, s.total_duplicates), (10005, 10005));
}
