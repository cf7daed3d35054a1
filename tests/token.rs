use shift::token::{Token, TokenError, TOKEN_LEN};

#[test]
fn generated_token_round_trips_through_base64url() {
    let t = Token::generate().expect("random source available");
    assert_eq!(t.as_bytes().len(), TOKEN_LEN);
    let text = t.to_base64url();
    assert_eq!(text.len(), 27);
    let back = Token::from_base64url(&text).unwrap();
    assert!(back.ct_eq(&t));
    assert_eq!(back.as_bytes(), t.as_bytes());
}

#[test]
fn known_bytes_encode_to_known_text() {
    let zeros = Token::from_decoded(vec![0u8; TOKEN_LEN]).unwrap();
    assert_eq!(zeros.to_base64url(), "AAAAAAAAAAAAAAAAAAAAAAAAAAA");
    let mut bytes = vec![0u8; TOKEN_LEN];
    bytes[0] = 0xfb;
    bytes[1] = 0xff;
    let t = Token::from_decoded(bytes).unwrap();
    assert!(t.to_base64url().starts_with("-_8"));
}

#[test]
fn known_text_decodes_to_known_bytes() {
    let t = Token::from_base64url("AQIDBAUGBwgJCgsMDQ4PEBESExQ").unwrap();
    let expected: Vec<u8> = (1..=20).collect();
    assert_eq!(t.as_bytes(), expected.as_slice());
}

#[test]
fn wrong_length_is_rejected() {
    match Token::from_base64url("AAAA") {
        Err(TokenError::InvalidLength { expected, got }) => {
            assert_eq!(expected, TOKEN_LEN);
            assert_eq!(got, 3);
        }
        other => panic!("unexpected {other:?}"),
    }
    assert!(matches!(Token::from_decoded(vec![1, 2]), Err(TokenError::InvalidLength { expected: 20, got: 2 })));
}

#[test]
fn malformed_text_is_rejected() {
    assert!(matches!(Token::from_base64url("!!!!"), Err(TokenError::Base64(_))));
    assert!(matches!(Token::from_base64url("AAAAAAAAAAAAAAAAAAAAAAAAAAA="), Err(TokenError::Base64(_))));
}

#[test]
fn constant_time_comparison_tells_tokens_apart() {
    let a = Token::from_decoded(vec![7u8; TOKEN_LEN]).unwrap();
    let b = Token::from_decoded(vec![8u8; TOKEN_LEN]).unwrap();
    assert!(a.ct_eq(&a.duplicate()));
    assert!(!a.ct_eq(&b));
}
