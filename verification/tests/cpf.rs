use document_validator::cpf::{format_cpf, next, Cpf};
use document_validator::Document;

#[test]
fn cpf_constructor() {
    let Some(cpf) = Cpf::new("434") else {
        panic!("Faild to construct cpf")
    };

    assert_eq!(cpf.as_str(), "00000000434");
}

#[test]
fn formatted_cpf() {
    assert_eq!(
        format_cpf("4-34"),
        "00000000434",
        "Failed to remove mask and left pad"
    );
}

#[test]
fn valid_cpf() {
    assert!(
        Cpf::validate("00000000434"),
        "Failed to validate a valid cpf without mask"
    );
    assert!(
        Cpf::validate("000.000.004-34"),
        "Failed to validate a valid cpf with mask"
    );

    assert!(
        Cpf::validate("434"),
        "Failed to validate a cpf without leading zeroes"
    );
}

#[test]
fn invalid_cpf() {
    assert!(!Cpf::validate("00000000433"), "This is not a valid cpf");
    assert!(!Cpf::validate("00000001434"), "This is not a valid cpf");

    assert!(
        !Cpf::validate("00000000000"),
        "Though mathematically valid, a cpf cannot be 11 equal digits"
    );
}

#[test]
fn cpf_rejects_too_many_digits() {
    // 12 extractable digits: rejected without truncation.
    assert!(!Cpf::validate("000000004340"));
    assert!(!Cpf::validate("0.0000.0004.340"));
}

#[test]
fn cpf_rejects_all_equal_digits() {
    assert!(!Cpf::validate("11111111111"));
    assert!(!Cpf::validate("999.999.999-99"));
}

#[test]
fn cpf_format_is_idempotent() {
    let once = format_cpf("434");
    let twice = format_cpf(&once);
    assert_eq!(once, twice);
    // An already-canonical digit string comes back unchanged.
    assert_eq!(format_cpf("00000000434"), "00000000434");
}

#[test]
fn cpf_masking_invariance() {
    // The mask characters carry no meaning: validation sees the digits only.
    assert_eq!(Cpf::validate("000.000.004-34"), Cpf::validate("00000000434"));
    assert_eq!(Cpf::validate("0-0-0-0-0-0-0-4-3-3"), Cpf::validate("0000000433"));
}

#[test]
fn cpf_left_pad_equivalence() {
    assert_eq!(Cpf::validate("434"), Cpf::validate("00000000434"));
    assert_eq!(Cpf::validate("433"), Cpf::validate("00000000433"));
}

#[test]
fn cpf_construct_round_trip() {
    let cpf = Cpf::new("000.000.004-34").expect("a valid cpf must construct");
    let stored = cpf.as_str();
    assert_eq!(stored.len(), 11);
    assert!(stored.chars().all(|c| c.is_ascii_digit()));
    assert!(Cpf::validate(stored));
}

#[test]
fn cpf_construct_rejects_invalid() {
    assert!(Cpf::new("00000000433").is_none());
    assert!(Cpf::new("00000000000").is_none());
    assert!(Cpf::new("000000004340").is_none());
}

#[test]
fn cpf_empty_input() {
    // No digits: padded to eleven zeros, which the all-equal rule rejects.
    assert!(!Cpf::validate(""));
    assert!(!Cpf::validate("..-"));
    assert_eq!(format_cpf(""), "00000000000");
}

#[test]
fn cpf_check_digit_formula() {
    // Weighted sum of the first nine digits of 00000000434: only the digit 4
    // at position 8 counts, with weight 9 - 8 + 1 = 2, so the sum is 8;
    // 11 - (8 % 11) = 3, the first check digit.
    assert_eq!(next(&[0, 0, 0, 0, 0, 0, 0, 0, 4], 9), 3);
    // Over the first ten digits: 4 * 3 + 3 * 2 = 18; 11 - (18 % 11) = 4.
    assert_eq!(next(&[0, 0, 0, 0, 0, 0, 0, 0, 4, 3], 10), 4);
    // A sum of zero maps 11 - 0 = 11 to 0.
    assert_eq!(next(&[0, 0, 0, 0, 0, 0, 0, 0, 0], 9), 0);
}
