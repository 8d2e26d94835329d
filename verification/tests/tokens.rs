use zero2prod::encoding::{copy_bytes, hex_bytes, hex_string};
use zero2prod::errors::{Error, StoreError};
use zero2prod::token::{token_from, TokenService};

#[test]
fn hex_string_writes_thirty_two_lower_case_digits() {
    assert_eq!(hex_string(0), "00000000000000000000000000000000");
    assert_eq!(hex_string(0xa1a2a3a4b1b2c1c2d1d2d3d4d5d6d7d8), "a1a2a3a4b1b2c1c2d1d2d3d4d5d6d7d8");
    assert_eq!(hex_string(u128::MAX), "ffffffffffffffffffffffffffffffff");
    assert_eq!(hex_string(0x1f), "0000000000000000000000000000001f");
}

#[test]
fn hex_bytes_are_the_ascii_of_the_hex_string() {
    for v in [0u128, 9, 10, 0xdead_beef, u128::MAX, 0x0123_4567_89ab_cdef_0123_4567_89ab_cdef] {
        assert_eq!(hex_bytes(v), hex_string(v).into_bytes());
    }
    assert_eq!(copy_bytes(&vec![1, 2, 3]), vec![1, 2, 3]);
    assert_eq!(copy_bytes(&Vec::new()), Vec::<u8>::new());
}

#[test]
fn token_from_joins_two_numbers() {
    assert_eq!(
        token_from(1, 2),
        "0000000000000000000000000000000100000000000000000000000000000002"
    );
}

#[test]
fn redeem_consumes_the_token() {
    let mut t = TokenService::new();
    assert_eq!(t.issue_with(5, "abc".to_string()), Ok(()));
    assert_eq!(t.find("abc"), Some(5));
    assert_eq!(t.redeem("abc"), Ok(5));
    assert_eq!(t.find("abc"), None);
    assert_eq!(t.redeem("abc"), Err(Error::TokenNotFound));
    assert_eq!(t.len(), 0);
}

#[test]
fn issuing_again_replaces_the_subscribers_earlier_token() {
    let mut t = TokenService::new();
    t.issue_with(5, "first".to_string()).unwrap();
    t.issue_with(6, "other".to_string()).unwrap();
    t.issue_with(5, "second".to_string()).unwrap();
    assert_eq!(t.len(), 2);
    assert_eq!(t.find("first"), None);
    assert_eq!(t.find("second"), Some(5));
    assert_eq!(t.find("other"), Some(6));
    assert_eq!(t.redeem("first"), Err(Error::TokenNotFound));
}

#[test]
fn a_bound_token_is_not_issued_twice() {
    let mut t = TokenService::new();
    t.issue_with(5, "abc".to_string()).unwrap();
    assert_eq!(t.issue_with(6, "abc".to_string()), Err(StoreError::DuplicateToken));
    assert_eq!(t.issue_with(5, "abc".to_string()), Err(StoreError::DuplicateToken));
    assert_eq!(t.len(), 1);
    assert_eq!(t.find("abc"), Some(5));
}

#[test]
fn issue_draws_a_token_of_sixty_four_hex_digits() {
    let mut t = TokenService::new();
    let a = t.issue(1).unwrap();
    let b = t.issue(2).unwrap();
    assert_eq!(a.len(), 64);
    assert_ne!(a, b);
    assert_eq!(t.find(&a), Some(1));
    assert_eq!(t.find(&b), Some(2));
    // version nibble 4 and variant bits 10 in each half
    for half in [&a[..32], &a[32..], &b[..32], &b[32..]] {
        assert_eq!(&half[12..13], "4");
        assert!(matches!(&half[16..17], "8" | "9" | "a" | "b"));
    }
}
