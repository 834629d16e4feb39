use rollcall::error::CoreError;
use rollcall::random::{hex_string, token_for, token_from_seed, token_text};

#[test]
fn validate_hex_str() {
    let hs = hex_string().unwrap();
    assert_eq!(hs.len(), 20);
}

#[test]
fn token_text_writes_two_digits_per_byte() {
    assert_eq!(token_text(&[1, 2, 3, 15, 16]), "0102030f10");
    assert_eq!(token_text(&[0xf9, 0xb4, 0xca]), "f9b4ca");
    assert_eq!(token_text(&[]), "");
}

#[test]
fn token_from_seed_is_shake128_of_the_seed() {
    assert_eq!(token_from_seed(b"abc"), "5881092dd818bf5cf8a3");
}

#[test]
fn thousand_tokens_are_distinct_hex_strings() {
    let mut seen = std::collections::HashSet::new();
    for _ in 0..1000 {
        let token = hex_string().unwrap();
        assert_eq!(token.len(), 20);
        assert!(token.chars().all(|c| matches!(c, '0'..='9' | 'a'..='f')));
        assert!(seen.insert(token));
    }
    assert_eq!(seen.len(), 1000);
}

#[test]
fn token_from_seed_depends_on_the_seed_alone() {
    let a = token_from_seed(&[7u8; 32]);
    let b = token_from_seed(&[7u8; 32]);
    let c = token_from_seed(&[8u8; 32]);
    assert_eq!(a, b);
    assert_ne!(a, c);
    assert_eq!(a.len(), 20);
}

#[test]
fn token_for_fails_without_a_seed() {
    assert_eq!(token_for(None), Err(CoreError::EntropyUnavailable));
    assert_eq!(token_for(Some(vec![7u8; 32])), Ok(token_from_seed(&[7u8; 32])));
}
