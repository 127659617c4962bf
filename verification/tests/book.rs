use risex_latency::book::{prices_readable, Book, MarketBook, OrderbookLevel};
use risex_latency::checksum::{compute_checksum, strict_checksum, try_checksum};

fn level(price: &str, quantity: &str) -> OrderbookLevel {
    OrderbookLevel { price: price.to_string(), quantity: quantity.to_string() }
}

fn prices(book: &Book) -> Vec<String> {
    book.entries.iter().map(|e| e.level.price.clone()).collect()
}

#[test]
fn levels_come_in_order_of_price() {
    let mut book = MarketBook::new();
    book.snapshot(
        &vec![level("9", "1"), level("10.5", "2"), level("-3", "3"), level("10", "4")],
        &vec![],
    );
    assert_eq!(prices(&book.bids), vec!["-3", "9", "10", "10.5"]);
    assert_eq!(book.asks.len(), 0);
}

#[test]
fn equal_prices_share_a_level() {
    let mut book = MarketBook::new();
    book.snapshot(&vec![level("1.5", "1"), level("1.50", "2")], &vec![]);
    assert_eq!(book.bids.len(), 1);
    assert_eq!(book.bids.entries[0].level.price, "1.50");
    assert_eq!(book.bids.entries[0].level.quantity, "2");
}

#[test]
fn update_replaces_and_removes() {
    let mut book = MarketBook::new();
    book.snapshot(&vec![level("1", "1"), level("2", "2")], &vec![level("3", "3")]);
    book.update(&vec![level("1.0", "0"), level("2", "5")], &vec![level("4", "4")]);
    assert_eq!(prices(&book.bids), vec!["2"]);
    assert_eq!(book.bids.entries[0].level.quantity, "5");
    assert_eq!(prices(&book.asks), vec!["3", "4"]);
    book.update(&vec![level("7", "0")], &vec![]);
    assert_eq!(prices(&book.bids), vec!["2"]);
}

#[test]
fn only_the_text_zero_removes() {
    let mut book = MarketBook::new();
    book.update(&vec![level("1", "0.0")], &vec![]);
    assert_eq!(prices(&book.bids), vec!["1"]);
    book.update(&vec![level("1", "0")], &vec![]);
    assert_eq!(book.bids.len(), 0);
}

#[test]
fn snapshot_keeps_a_zero_quantity() {
    let mut book = MarketBook::new();
    book.snapshot(&vec![level("1", "0")], &vec![]);
    assert_eq!(book.bids.len(), 1);
}

#[test]
fn snapshot_replaces_what_was_there() {
    let mut book = MarketBook::new();
    book.snapshot(&vec![level("1", "1")], &vec![level("2", "1")]);
    book.snapshot(&vec![], &vec![level("3", "1")]);
    assert_eq!(book.bids.len(), 0);
    assert_eq!(prices(&book.asks), vec!["3"]);
}

#[test]
fn unreadable_prices_are_passed_over() {
    let mut book = MarketBook::new();
    let levels = vec![level("x", "1"), level("5", "1")];
    assert!(!prices_readable(&levels));
    assert!(prices_readable(&vec![level("5", "x")]));
    book.snapshot(&levels, &vec![]);
    book.update(&vec![level("y", "0")], &vec![]);
    assert_eq!(prices(&book.bids), vec!["5"]);
}

#[test]
fn updates_at_different_prices_commute() {
    let mut one = MarketBook::new();
    one.update(&vec![level("1", "1"), level("2", "2")], &vec![]);
    let mut other = MarketBook::new();
    other.update(&vec![level("2", "2"), level("1", "1")], &vec![]);
    assert_eq!(prices(&one.bids), prices(&other.bids));
    other.update(&vec![level("1", "1")], &vec![]);
    assert_eq!(prices(&one.bids), prices(&other.bids));
}

#[test]
fn checksum_of_an_empty_book() {
    let book = MarketBook::new();
    assert_eq!(compute_checksum(&book.bids, &book.asks), 0);
    assert_eq!(strict_checksum(&book.bids, &book.asks), Some(0));
}

#[test]
fn checksum_takes_best_prices_first() {
    let mut book = MarketBook::new();
    book.snapshot(&vec![level("69332.4", "0.000722")], &vec![level("69333", "1.5")]);
    assert_eq!(compute_checksum(&book.bids, &book.asks), 521272779);
    book.update(&vec![level("69330", "2")], &vec![]);
    assert_eq!(compute_checksum(&book.bids, &book.asks), 3113277466);
    assert_eq!(try_checksum(&book.bids, &book.asks), Some(3113277466));
    assert_eq!(strict_checksum(&book.bids, &book.asks), Some(3113277466));
}

#[test]
fn checksum_with_an_unreadable_quantity() {
    let mut book = MarketBook::new();
    book.snapshot(&vec![level("69332.4", "many")], &vec![]);
    assert_eq!(try_checksum(&book.bids, &book.asks), Some(2455828826));
    assert_eq!(strict_checksum(&book.bids, &book.asks), None);
}

#[test]
fn checksum_with_an_amount_that_does_not_fit() {
    let mut book = MarketBook::new();
    book.snapshot(&vec![level("1", "79228162515")], &vec![]);
    assert_eq!(try_checksum(&book.bids, &book.asks), None);
    assert_eq!(strict_checksum(&book.bids, &book.asks), None);
}

#[test]
fn checksum_does_not_depend_on_how_numbers_are_written() {
    let mut one = MarketBook::new();
    one.snapshot(&vec![level("1.5", "2")], &vec![level("3", "0.10")]);
    let mut other = MarketBook::new();
    other.snapshot(&vec![level("1.50", "2.000")], &vec![level("03.0", "0.1")]);
    assert_eq!(
        compute_checksum(&one.bids, &one.asks),
        compute_checksum(&other.bids, &other.asks)
    );
    other.update(&vec![level("1.500", "2.1")], &vec![]);
    assert_ne!(
        compute_checksum(&one.bids, &one.asks),
        compute_checksum(&other.bids, &other.asks)
    );
}
