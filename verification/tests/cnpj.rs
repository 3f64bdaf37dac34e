use document_validator::cnpj::{format_cnpj, next, Cnpj};
use document_validator::Document;

#[test]
fn cnpj_constructor() {
    let Some(cnpj) = Cnpj::new("08.254.798/0001-00") else {
        panic!("Faild to construct cnpj")
    };

    assert_eq!(cnpj.as_str(), "08254798000100");
}

#[test]
fn formatted_cnpj() {
    assert_eq!(
        format_cnpj("8.254.798/0001-00"),
        "08254798000100",
        "Failed to remove mask and left pad"
    );
}

#[test]
fn valid_cnpj() {
    assert!(
        Cnpj::validate("08254798000100"),
        "Failed to validate a valid cnpj without mask"
    );
    assert!(
        Cnpj::validate("08.254.798/0001-00"),
        "Failed to validate a valid cnpj with mask"
    );

    assert!(
        Cnpj::validate("08254798000100"),
        "Failed to validate a cnpj without leading zeroes"
    );
}

#[test]
fn invalid_cnpj() {
    assert!(!Cnpj::validate("08254798000101"), "This is not a valid cnpj");
    assert!(!Cnpj::validate("08254788000100"), "This is not a valid cnpj");

    assert!(
        !Cnpj::validate("00000000000000"),
        "Though mathematically valid, a cnpj cannot be 11 equal digits"
    );
}

#[test]
fn cnpj_rejects_too_many_digits() {
    // 15 extractable digits: rejected without truncation.
    assert!(!Cnpj::validate("082547980001000"));
    assert!(!Cnpj::validate("08.254.798/0001-000"));
}

#[test]
fn cnpj_rejects_all_equal_digits() {
    assert!(!Cnpj::validate("11111111111111"));
    assert!(!Cnpj::validate("99.999.999/9999-99"));
}

#[test]
fn cnpj_format_is_idempotent() {
    let once = format_cnpj("8.254.798/0001-00");
    let twice = format_cnpj(&once);
    assert_eq!(once, twice);
    // An already-canonical digit string comes back unchanged.
    assert_eq!(format_cnpj("08254798000100"), "08254798000100");
}

#[test]
fn cnpj_masking_invariance() {
    // The mask characters carry no meaning: validation sees the digits only.
    assert_eq!(
        Cnpj::validate("08.254.798/0001-00"),
        Cnpj::validate("08254798000100")
    );
    assert_eq!(
        Cnpj::validate("08.254.798/0001-01"),
        Cnpj::validate("08254798000101")
    );
}

#[test]
fn cnpj_left_pad_equivalence() {
    assert_eq!(
        Cnpj::validate("8254798000100"),
        Cnpj::validate("08254798000100")
    );
    assert_eq!(
        Cnpj::validate("8254798000101"),
        Cnpj::validate("08254798000101")
    );
}

#[test]
fn cnpj_construct_round_trip() {
    let cnpj = Cnpj::new("8254798000100").expect("a valid cnpj must construct");
    let stored = cnpj.as_str();
    assert_eq!(stored.len(), 14);
    assert!(stored.chars().all(|c| c.is_ascii_digit()));
    assert!(Cnpj::validate(stored));
}

#[test]
fn cnpj_construct_rejects_invalid() {
    assert!(Cnpj::new("08254798000101").is_none());
    assert!(Cnpj::new("00000000000000").is_none());
    assert!(Cnpj::new("082547980001000").is_none());
}

#[test]
fn cnpj_empty_input() {
    // No digits: padded to fourteen zeros, which the all-equal rule rejects.
    assert!(!Cnpj::validate(""));
    assert!(!Cnpj::validate("./-"));
    assert_eq!(format_cnpj(""), "00000000000000");
}

#[test]
fn cnpj_check_digit_formula() {
    // First check digit of 08254798000100: the weights over the twelve
    // leading digits cycle 5,4,3,2,9,8,7,6,5,4,3,2; the weighted sum is 253,
    // a multiple of 11, and 11 - 0 = 11 maps to 0.
    assert_eq!(next(&[0, 8, 2, 5, 4, 7, 9, 8, 0, 0, 0, 1], 12), 0);
    // A single 4 in the last position carries weight 2: 11 - (8 % 11) = 3.
    assert_eq!(next(&[0, 0, 0, 0, 0, 0, 0, 0, 0, 0, 0, 4], 12), 3);
    // A sum of zero maps 11 - 0 = 11 to 0.
    assert_eq!(next(&[0, 0, 0, 0, 0, 0, 0, 0, 0, 0, 0, 0], 12), 0);
}
