use risex_latency::decimal::{has_wei, to_wei_string, try_to_wei_string, wei_of_text, WeiError};

#[test]
fn wei_of_a_price() {
    assert_eq!(to_wei_string("69332.4"), "69332400000000000000000");
}

#[test]
fn wei_of_a_quantity() {
    assert_eq!(to_wei_string("0.000722"), "722000000000000");
}

#[test]
fn wei_of_zero() {
    assert_eq!(to_wei_string("0"), "0");
    assert_eq!(to_wei_string("0.0"), "0");
}

#[test]
fn wei_is_cut_off_below_one() {
    assert_eq!(to_wei_string("0.0000000000000000019"), "1");
    assert_eq!(to_wei_string("1.0000000000000000009"), "1000000000000000000");
    assert_eq!(to_wei_string("-2.5"), "-2500000000000000000");
}

#[test]
fn wei_of_no_number_is_zero() {
    assert_eq!(to_wei_string("abc"), "0");
    assert_eq!(to_wei_string(""), "0");
    assert_eq!(try_to_wei_string("1.2.3"), Some("0".to_string()));
}

#[test]
fn wei_that_does_not_fit() {
    let large = "79228162514264337593543950335";
    assert!(!has_wei(large));
    assert_eq!(try_to_wei_string(large), None);
    assert_eq!(wei_of_text(large), Err(WeiError::TooLarge));
    assert!(has_wei("79228162514"));
    assert_eq!(
        try_to_wei_string("79228162514"),
        Some("79228162514000000000000000000".to_string())
    );
    assert_eq!(try_to_wei_string("79228162515"), None);
}

#[test]
fn wei_errors() {
    assert_eq!(wei_of_text("12x"), Err(WeiError::NotANumber));
    assert_eq!(wei_of_text("12"), Ok("12000000000000000000".to_string()));
}

#[test]
fn numerals_are_read_as_they_stand() {
    assert_eq!(wei_of_text("5."), Ok("5000000000000000000".to_string()));
    assert_eq!(wei_of_text("-0"), Ok("0".to_string()));
    assert_eq!(wei_of_text("-0.00"), Ok("0".to_string()));
    assert_eq!(wei_of_text("007.10"), Ok("7100000000000000000".to_string()));
    assert_eq!(
        wei_of_text("0.123456789012345678901234567"),
        Ok("123456789012345678".to_string())
    );
    assert_eq!(wei_of_text("1234567890123456789012345678"), Err(WeiError::TooLarge));
    assert_eq!(wei_of_text("-0.0000000000000000001"), Ok("-0".to_string()));
}

#[test]
fn wide_products_are_exact() {
    assert_eq!(
        wei_of_text("12345678901.23456789012345678"),
        Ok("12345678901234567890123456780".to_string())
    );
    assert_eq!(
        wei_of_text("79228162514.26433759354395033"),
        Ok("79228162514264337593543950330".to_string())
    );
    assert_eq!(wei_of_text("79228162514.26433759354395034"), Err(WeiError::TooLarge));
}

#[test]
fn eighteen_places_lose_nothing() {
    assert_eq!(to_wei_string("0.000000000000000001"), "1");
    assert_eq!(to_wei_string("1.234567890123456789"), "1234567890123456789");
}
