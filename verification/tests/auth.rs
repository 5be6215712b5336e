use lane_switchboards::messenger::auth::{hex_decode, Authenticator, HmacAuthenticator};

#[test]
fn valid_token_verifies() {
    let auth = HmacAuthenticator::new(b"secret");
    let token = auth.mint_token("akash", "phone-1");
    assert!(auth.verify("akash", "phone-1", &token));
}

#[test]
fn wrong_user_or_device_fails() {
    let auth = HmacAuthenticator::new(b"secret");
    let token = auth.mint_token("akash", "phone-1");
    assert!(!auth.verify("john", "phone-1", &token));
    assert!(!auth.verify("akash", "phone-2", &token));
}

#[test]
fn tampered_or_garbage_token_fails() {
    let auth = HmacAuthenticator::new(b"secret");
    let mut token = auth.mint_token("akash", "phone-1");
    token.replace_range(0..2, "00");
    assert!(
        !auth.verify("akash", "phone-1", &token) || token == auth.mint_token("akash", "phone-1")
    );
    assert!(!auth.verify("akash", "phone-1", "not-hex"));
    assert!(!auth.verify("akash", "phone-1", ""));
}

#[test]
fn different_secret_fails() {
    let a = HmacAuthenticator::new(b"secret-a");
    let b = HmacAuthenticator::new(b"secret-b");
    let token = a.mint_token("akash", "phone-1");
    assert!(!b.verify("akash", "phone-1", &token));
}

#[test]
fn token_is_the_hex_tag() {
    // HMAC-SHA256 with key "key" over "The quick:brown".
    let token = HmacAuthenticator::new(b"key").mint_token("The quick", "brown");
    assert_eq!(token.len(), 64);
    assert!(token.chars().all(|c| c.is_ascii_digit() || ('a'..='f').contains(&c)));
    let upper = token.to_uppercase();
    assert!(HmacAuthenticator::new(b"key").verify("The quick", "brown", &upper));
}

#[test]
fn hex_pairs() {
    assert_eq!(hex_decode("00fFa1"), Some(vec![0, 255, 161]));
    assert_eq!(hex_decode(""), Some(vec![]));
    assert_eq!(hex_decode("0"), None);
    assert_eq!(hex_decode("g0"), None);
    assert_eq!(hex_decode("+f"), None);
    assert_eq!(hex_decode("é"), None);
}

#[test]
fn token_has_sixty_four_digits() {
    let auth = HmacAuthenticator::new(b"secret");
    let token = auth.mint_token("alice", "phone");
    assert_eq!(token, "54aeb3186e385f2cc1cd112c1bc532fbdde404a8dcc3d1c2ac37d99b1a16eb3a");
    for (user, device) in [("", ""), ("a", "b"), ("a-much-longer-user-id", "tablet-7")] {
        let token = auth.mint_token(user, device);
        assert_eq!(token.len(), 64);
        assert!(token.chars().all(|c| c.is_ascii_digit() || ('a'..='f').contains(&c)));
        assert!(auth.verify(user, device, &token));
    }
}

#[test]
fn only_the_joined_text_matters() {
    let auth = HmacAuthenticator::new(b"secret");
    let token = auth.mint_token("a:b", "c");
    assert_eq!(token, auth.mint_token("a", "b:c"));
    assert!(auth.verify("a", "b:c", &token));
    assert_ne!(token, auth.mint_token("a", "bc"));
}
