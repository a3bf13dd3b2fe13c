use platypus::error::DomainErrorKind;
use platypus::financial::{
    card_last_four, card_masked, iban_masked, mask_card, mask_iban,
    ValidCreditCard, ValidIban,
};

fn iban(s: &str) -> Result<(), platypus::DomainError> {
    ValidIban::check(&s.to_string())
}

fn card(s: &str) -> Result<(), platypus::DomainError> {
    ValidCreditCard::check(&s.to_string())
}

#[test]
fn valid_iban_germany() {
    assert!(iban("DE89370400440532013000").is_ok());
}

#[test]
fn valid_iban_uk() {
    assert!(iban("GB82WEST12345698765432").is_ok());
}

#[test]
fn valid_iban_france() {
    assert!(iban("FR7630006000011234567890189").is_ok());
}

#[test]
fn valid_iban_lowercase() {
    assert!(iban("de89370400440532013000").is_ok());
}

#[test]
fn invalid_iban_empty() {
    let err = iban("").unwrap_err();
    assert!(matches!(err.reason, DomainErrorKind::Empty));
    assert_eq!(err.value, "****");
}

#[test]
fn invalid_iban_checksum() {
    let err = iban("DE00370400440532013000").unwrap_err();
    assert!(matches!(err.reason, DomainErrorKind::InvalidChecksum));
    assert_eq!(err.value, "DE00****3000");
}

#[test]
fn invalid_iban_too_short() {
    let err = iban("DE89").unwrap_err();
    assert_eq!(err.value, "****");
}

#[test]
fn invalid_iban_wrong_country() {
    assert!(iban("XX89370400440532013000").is_err());
}

#[test]
fn valid_visa_test_card() {
    assert!(card("4111111111111111").is_ok());
}

#[test]
fn valid_mastercard_test() {
    assert!(card("5500000000000004").is_ok());
}

#[test]
fn valid_amex_test() {
    assert!(card("340000000000009").is_ok());
}

#[test]
fn valid_with_spaces() {
    assert!(card("4111 1111 1111 1111").is_ok());
}

#[test]
fn valid_with_dashes() {
    assert!(card("4111-1111-1111-1111").is_ok());
}

#[test]
fn invalid_card_empty() {
    let err = card("").unwrap_err();
    assert!(matches!(err.reason, DomainErrorKind::Empty));
}

#[test]
fn invalid_card_luhn() {
    let err = card("4111111111111112").unwrap_err();
    assert!(matches!(err.reason, DomainErrorKind::InvalidChecksum));
}

#[test]
fn invalid_card_too_short() {
    assert!(card("411111").is_err());
}

#[test]
fn invalid_card_letters() {
    assert!(card("4111111111111abc").is_err());
}

#[test]
fn mask_card_shows_last_four() {
    assert!(card("4111111111111111").is_ok());
    assert_eq!(card_masked("4111111111111111"), "****1111");
}

#[test]
fn mask_iban_shows_prefix_and_suffix() {
    assert!(iban("DE89370400440532013000").is_ok());
    assert_eq!(iban_masked("DE89370400440532013000"), "DE89****3000");
}

#[test]
fn error_contains_masked_value() {
    let err = card("4111111111111112").unwrap_err();
    assert!(err.value.starts_with("****"));
    assert!(!err.value.contains("4111"));
}

#[test]
fn iban_country_code() {
    assert!(iban("DE89370400440532013000").is_ok());
    assert_eq!(platypus::financial::iban_country_code("DE89370400440532013000"), "DE");
}

#[test]
fn credit_card_last_four() {
    assert_eq!(card_last_four("4111111111111111"), "1111");
}

#[test]
fn description_returns_expected_iban() {
    assert_eq!(ValidIban::description(), "IBAN");
}

#[test]
fn description_returns_expected_credit_card() {
    assert_eq!(ValidCreditCard::description(), "credit card number");
}

#[test]
fn mask_card_short_input() {
    assert_eq!(mask_card("123"), "****");
}

#[test]
fn mask_card_with_separators() {
    assert_eq!(mask_card("4111-1111-1111-1111"), "****1111");
}

#[test]
fn mask_iban_short_input() {
    assert_eq!(mask_iban("SHORT"), "****");
}

#[test]
fn mask_iban_counts_characters() {
    // 10 characters (12 bytes): the first 4 and last 4 characters are shown.
    assert_eq!(mask_iban("abé1234éxy"), "abé1****4éxy");
    // 5 characters, 10 bytes: nothing is shown.
    assert_eq!(mask_iban("ééééé"), "****");
    assert_eq!(mask_iban("12345678"), "****");
    assert_eq!(mask_iban("123456789"), "1234****6789");
}

#[test]
fn last_four_of_short_card_is_all_digits() {
    assert_eq!(card_last_four("1-2-3"), "123");
}

#[test]
fn iban_errors_never_split_characters() {
    let err = iban("aéééé").unwrap_err();
    assert!(matches!(err.reason, DomainErrorKind::InvalidChecksum));
    assert_eq!(err.value, "****");
    let err = iban("abcé12345").unwrap_err();
    assert_eq!(err.value, "abcé****2345");
    assert_eq!(platypus::financial::iban_country_code("éé12"), "éé");
}

#[test]
fn card_letters_make_it_invalid() {
    assert!(card("4111111111111111abc").is_err());
    assert!(card("4111111111111abc").is_err());
    assert!(card("4111x1111-1111-1111").is_err());
    assert_eq!(card("4111111111111111abc").unwrap_err().value, "****1111");
    assert!(card("4111 1111\t1111 1111").is_err());
    assert!(card("   ").is_err());
}

#[test]
fn decisions_on_given_verdict() {
    let v = "4111111111111112".to_string();
    assert!(ValidCreditCard::decide(&v, true).is_ok());
    let err = ValidCreditCard::decide(&v, false).unwrap_err();
    assert_eq!(err.value, "****1112");
    let v = "DE00370400440532013000".to_string();
    assert!(ValidIban::decide(&v, true).is_ok());
    assert_eq!(ValidIban::decide(&v, false).unwrap_err().value, "DE00****3000");
}

#[test]
fn masking_a_card_twice_changes_nothing() {
    let once = mask_card("4111-1111-1111-1234");
    assert_eq!(once, "****1234");
    assert_eq!(mask_card(&once), once);
    let short = mask_card("12");
    assert_eq!(mask_card(&short), "****");
}

#[test]
fn card_error_keeps_only_last_four_digits() {
    let err = card("4111 1111 1111 1112").unwrap_err();
    let digits: String = err.value.chars().filter(|c| c.is_ascii_digit()).collect();
    assert_eq!(digits, "1112");
    assert!(!err.value.contains("4111"));
}

#[test]
fn iban_check_ignores_letter_case() {
    for s in ["DE89370400440532013000", "de89370400440532013000", "gb82WEST12345698765432", "DE00370400440532013000"] {
        assert_eq!(iban(s).is_ok(), iban(&s.to_uppercase()).is_ok());
    }
    assert!(iban("de89370400440532013000").is_ok());
    assert!(matches!(iban("DE00370400440532013000").unwrap_err().reason, DomainErrorKind::InvalidChecksum));
}

#[test]
fn card_check_ignores_separators() {
    for s in ["4111111111111111", "4111 1111 1111 1111", "4111-1111-1111-1111", " 4111-1111 1111-1111 "] {
        assert!(card(s).is_ok());
    }
    assert!(card("4111-1111-1111-1112").is_err());
}
