use sweet_bananza::account::{
    bearer_token, registered, strip_prefix, resolve_account, user_data_response, AccountLookup, AuthError, User,
};
use sweet_bananza::amount::Amount;

fn user(id: Option<&str>, token: &str) -> User {
    User {
        id: id.map(|s| s.to_string()),
        external_id: token.to_string(),
        balance: Amount { mantissa: 12345, scale: 2 },
        free_spins_left: 3,
        is_bonus_active: true,
        bonus_game: true,
    }
}

#[test]
fn missing_header_is_rejected() {
    assert_eq!(bearer_token(None), Err(AuthError::MissingHeader));
    assert_eq!(AuthError::MissingHeader.message(), "Missing Authorization header");
}

#[test]
fn wrong_scheme_is_rejected() {
    assert_eq!(bearer_token(Some("Basic abc")), Err(AuthError::InvalidFormat));
    assert_eq!(bearer_token(Some("bearer abc")), Err(AuthError::InvalidFormat));
    assert_eq!(bearer_token(Some("Bearer")), Err(AuthError::InvalidFormat));
    assert_eq!(
        AuthError::InvalidFormat.message(),
        "Invalid Authorization format, expected: Bearer <token>"
    );
}

#[test]
fn bearer_token_is_extracted() {
    assert_eq!(bearer_token(Some("Bearer 1")), Ok("1".to_string()));
    assert_eq!(bearer_token(Some("Bearer abc def")), Ok("abc def".to_string()));
    assert_eq!(bearer_token(Some("Bearer ")), Ok(String::new()));
    assert_eq!(bearer_token(Some("Bearer Bearer x")), Ok("Bearer x".to_string()));
}

#[test]
fn unknown_player_gets_a_new_account() {
    match resolve_account("42".to_string(), None) {
        AccountLookup::Register(u) => {
            assert!(u.id.is_none());
            assert_eq!(u.external_id, "42");
            assert_eq!(u.balance, Amount { mantissa: 1000, scale: 0 });
            assert_eq!(u.free_spins_left, 0);
            assert!(!u.is_bonus_active);
            assert!(!u.bonus_game);
        }
        AccountLookup::Existing(_) => panic!("expected a registration"),
    }
}

#[test]
fn known_player_keeps_the_account() {
    match resolve_account("7".to_string(), Some(user(Some("abc"), "7"))) {
        AccountLookup::Existing(u) => {
            assert_eq!(u.id.as_deref(), Some("abc"));
            assert_eq!(u.balance, Amount { mantissa: 12345, scale: 2 });
        }
        AccountLookup::Register(_) => panic!("expected the stored account"),
    }
}

#[test]
fn registration_sets_the_id() {
    let u = registered(user(None, "9"), "65f0c0ffee".to_string());
    assert_eq!(u.id.as_deref(), Some("65f0c0ffee"));
    assert_eq!(u.external_id, "9");
    assert_eq!(u.free_spins_left, 3);
}

#[test]
fn data_response_reports_the_account() {
    let r = user_data_response(&user(Some("abc"), "1"), "fallback".to_string());
    assert_eq!(r.id, "abc");
    assert_eq!(r.balance, Amount { mantissa: 12345, scale: 2 });
    assert!(r.bonus_game);
    let r = user_data_response(&user(None, "1"), "fallback".to_string());
    assert_eq!(r.id, "fallback");
}

#[test]
fn strip_prefix_matches_std() {
    for (s, p) in [("Bearer x", "Bearer "), ("Bearer", "Bearer "), ("", ""), ("abc", ""), ("héllo", "hé"), ("héllo", "he"), ("ab", "abc")] {
        assert_eq!(strip_prefix(s, p), s.strip_prefix(p));
    }
    assert_eq!(bearer_token(Some("Bearer jéton")), Ok("jéton".to_string()));
}
