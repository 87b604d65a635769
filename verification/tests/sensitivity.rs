use rsnowboy::sensitivity::{parse_sensitivity, SensitivityVector};
use rsnowboy::EngineError;

#[test]
fn a_sensitivity_is_read_in_millionths() {
    assert_eq!(parse_sensitivity("0"), Some(0));
    assert_eq!(parse_sensitivity("1"), Some(1_000_000));
    assert_eq!(parse_sensitivity("0.5"), Some(500_000));
    assert_eq!(parse_sensitivity("0.05"), Some(50_000));
    assert_eq!(parse_sensitivity("0.4"), Some(400_000));
    assert_eq!(parse_sensitivity("0.123456"), Some(123_456));
    assert_eq!(parse_sensitivity("0.999999"), Some(999_999));
    assert_eq!(parse_sensitivity("0.000001"), Some(1));
    assert_eq!(parse_sensitivity("0.0"), Some(0));
}

#[test]
fn decimals_beyond_the_sixth_are_cut_off() {
    assert_eq!(parse_sensitivity("0.123456789"), Some(123_456));
    assert_eq!(parse_sensitivity("0.9999999"), Some(999_999));
    assert_eq!(parse_sensitivity("0.0000009"), Some(0));
}

#[test]
fn one_may_be_followed_by_zeros_only() {
    assert_eq!(parse_sensitivity("1.0"), Some(1_000_000));
    assert_eq!(parse_sensitivity("1.000000000"), Some(1_000_000));
    assert_eq!(parse_sensitivity("1.001"), None);
    assert_eq!(parse_sensitivity("1.5"), None);
    assert_eq!(parse_sensitivity("1.0000001"), None);
}

#[test]
fn what_is_no_decimal_between_0_and_1_is_refused() {
    for text in ["", ".", "0.", ".5", "2", "9", "00.5", "0.5a", "a", " 0.5", "0.5 ", "+0.5", "-0.5", "0,5", "0..5", "0.5.1", "1e0", "10", "01", "０.５"] {
        assert_eq!(parse_sensitivity(text), None, "{:?}", text);
    }
}

#[test]
fn a_list_is_read_entry_by_entry() {
    let list = SensitivityVector::parse("0.4,0.5,0.8", 3).unwrap();
    assert_eq!(list.len(), 3);
    assert_eq!(list.threshold(0), 600_000);
    assert_eq!(list.threshold(1), 500_000);
    assert_eq!(list.threshold(2), 200_000);
    assert_eq!(list.entry(0), "0.4");
    assert_eq!(list.entry(2), "0.8");
}

#[test]
fn the_threshold_falls_as_the_sensitivity_rises() {
    let list = SensitivityVector::parse("0,1,0.000001,0.999999", 4).unwrap();
    assert_eq!(list.threshold(0), 1_000_000);
    assert_eq!(list.threshold(1), 0);
    assert_eq!(list.threshold(2), 999_999);
    assert_eq!(list.threshold(3), 1);
}

#[test]
fn a_list_is_written_as_it_was_read() {
    for text in ["0.5", "0.50", "0.4,0.5,0.8", "1,0,1.0,0.0", "0.123456789,0.1"] {
        let count = text.split(',').count();
        assert_eq!(SensitivityVector::parse(text, count).unwrap().format(), text);
    }
}

#[test]
fn another_number_of_entries_is_a_count_mismatch() {
    assert_eq!(SensitivityVector::parse("0.5", 2).err(), Some(EngineError::SensitivityCountMismatch));
    assert_eq!(SensitivityVector::parse("0.5,0.5,0.5", 2).err(), Some(EngineError::SensitivityCountMismatch));
    assert_eq!(SensitivityVector::parse("", 0).err(), Some(EngineError::SensitivityCountMismatch));
    assert_eq!(SensitivityVector::parse("0.5,", 1).err(), Some(EngineError::SensitivityCountMismatch));
}

#[test]
fn the_count_is_checked_before_the_entries() {
    assert_eq!(SensitivityVector::parse("x,y,z", 2).err(), Some(EngineError::SensitivityCountMismatch));
}

#[test]
fn a_malformed_entry_makes_the_list_invalid() {
    assert_eq!(SensitivityVector::parse("0.5,x", 2).err(), Some(EngineError::InvalidSensitivity));
    assert_eq!(SensitivityVector::parse("1.5", 1).err(), Some(EngineError::InvalidSensitivity));
    assert_eq!(SensitivityVector::parse("", 1).err(), Some(EngineError::InvalidSensitivity));
    assert_eq!(SensitivityVector::parse("0.5,", 2).err(), Some(EngineError::InvalidSensitivity));
    assert_eq!(SensitivityVector::parse("0.5, 0.5", 2).err(), Some(EngineError::InvalidSensitivity));
}

#[test]
fn entries_are_added_one_by_one() {
    let mut list = SensitivityVector::new();
    assert_eq!(list.len(), 0);
    assert_eq!(list.format(), "");
    assert!(list.push("0.25"));
    assert!(!list.push("nope"));
    assert!(list.push("1"));
    assert_eq!(list.len(), 2);
    assert_eq!(list.format(), "0.25,1");
    assert_eq!(list.threshold(0), 750_000);
    assert_eq!(list.threshold(1), 0);
}
