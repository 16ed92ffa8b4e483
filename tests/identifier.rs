use nft_minter::error::MintError;
use nft_minter::identifier::{is_valid_esdt_identifier, PayableFeatures, TokenIssuer};

#[test]
fn issue_is_deterministic_in_the_counter() {
    let mut p = TokenIssuer::with_issued_count(5);
    let id = p.issue_fungible(&b"ABC".to_vec()).unwrap();
    let mut expected = b"ABC-".to_vec();
    expected.extend([53u8, 53, 53, 53, 53, 53]);
    assert_eq!(id, expected);
    assert_eq!(p.nr_issued_tokens, 6);
    let id = p.issue_fungible(&b"XYZ".to_vec()).unwrap();
    assert_eq!(id, b"XYZ-666666".to_vec());
    assert_eq!(p.nr_issued_tokens, 7);
}

#[test]
fn fresh_issuer_starts_at_zero() {
    let mut p = TokenIssuer::init();
    assert_eq!(p.create_new_token_id(&b"TKN".to_vec()), b"TKN-000000".to_vec());
    assert_eq!(p.nr_issued_tokens, 1);
}

#[test]
fn invalid_identifier_leaves_counter() {
    // '0' + 10 is ':', not alphanumeric
    let mut p = TokenIssuer::with_issued_count(10);
    assert_eq!(p.issue_fungible(&b"ABC".to_vec()), Err(MintError::InvalidIdentifier));
    assert_eq!(p.nr_issued_tokens, 10);
    let mut p = TokenIssuer::with_issued_count(1);
    assert_eq!(p.issue_fungible(&b"abc".to_vec()), Err(MintError::InvalidIdentifier));
    assert_eq!(p.issue_fungible(&b"AB".to_vec()), Err(MintError::InvalidIdentifier));
    assert_eq!(p.nr_issued_tokens, 1);
}

#[test]
fn lower_case_suffix_is_valid() {
    // '0' + 49 is 'a'
    let mut p = TokenIssuer::with_issued_count(49);
    assert_eq!(p.issue_fungible(&b"ABC".to_vec()), Ok(b"ABC-aaaaaa".to_vec()));
}

#[test]
fn counter_wraps_without_validation() {
    let mut p = TokenIssuer::with_issued_count(255);
    // '0' + 255 wraps to '/'
    assert_eq!(p.register_and_set_all_roles(&b"ABC".to_vec()), b"ABC-//////".to_vec());
    assert_eq!(p.nr_issued_tokens, 0);
}

#[test]
fn identifier_validity_rules() {
    assert!(is_valid_esdt_identifier(&b"ABC-123abc".to_vec()));
    assert!(is_valid_esdt_identifier(&b"ABCDEFGHIJ-123abc".to_vec()));
    assert!(!is_valid_esdt_identifier(&b"ABCDEFGHIJK-123abc".to_vec()));
    assert!(!is_valid_esdt_identifier(&b"AB-123abc".to_vec()));
    assert!(!is_valid_esdt_identifier(&b"ABC_123abc".to_vec()));
    assert!(!is_valid_esdt_identifier(&b"ABC-123ABC".to_vec()));
    assert!(!is_valid_esdt_identifier(&b"aBC-123abc".to_vec()));
}
