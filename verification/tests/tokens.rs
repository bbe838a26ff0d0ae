use like_and_subscribe::token::{
    Authentication, ExchangeError, TokenManager, TokenPoll, TokenStatus,
};

fn credential(expires_at: i64) -> Authentication {
    Authentication {
        access_token: "access-token-a".to_string(),
        refresh_token: "refresh-token-a".to_string(),
        expires_at,
    }
}

#[test]
fn init_from_stored_credential_is_ready_until_expiry() {
    let manager = TokenManager::init(Some(credential(1_000)));
    match manager.poll(999) {
        TokenPoll::Ready(token) => assert_eq!(token, "access-token-a"),
        other => panic!("expected a ready token, got {other:?}"),
    }
    // a credential valid exactly until now is treated as expired
    match manager.poll(1_000) {
        TokenPoll::RefreshNeeded(token) => assert_eq!(token, "refresh-token-a"),
        other => panic!("expected a refresh, got {other:?}"),
    }
}

#[test]
fn missing_credential_alerts_exactly_once() {
    let mut manager = TokenManager::init(None);
    // first waiter: must alert, then records having done so
    assert!(matches!(manager.poll(0), TokenPoll::AlertNeeded));
    manager.record_alert();
    assert!(matches!(manager.status, TokenStatus::Missing { alerted: true }));
    // a second concurrent waiter before resolution blocks without alerting
    assert!(matches!(manager.poll(0), TokenPoll::Blocked));
    assert!(matches!(manager.poll(i64::MAX), TokenPoll::Blocked));
}

#[test]
fn failed_refresh_demotes_and_persists_the_demotion() {
    let mut manager = TokenManager::init(Some(credential(10)));
    assert!(matches!(manager.poll(10), TokenPoll::RefreshNeeded(_)));
    let token = manager.apply_refresh(None);
    assert!(token.is_none());
    assert!(matches!(manager.status, TokenStatus::Missing { alerted: false }));
    assert!(manager.stored.is_none());
}

#[test]
fn successful_refresh_installs_and_returns_the_new_token() {
    let mut manager = TokenManager::init(Some(credential(10)));
    let renewed = Authentication {
        access_token: "new-access-token".to_string(),
        refresh_token: "new-refresh-token".to_string(),
        expires_at: 5_000,
    };
    let token = manager.apply_refresh(Some(renewed));
    assert_eq!(token.as_deref(), Some("new-access-token"));
    match manager.poll(4_999) {
        TokenPoll::Ready(t) => assert_eq!(t, "new-access-token"),
        other => panic!("expected a ready token, got {other:?}"),
    }
    assert_eq!(manager.stored.as_ref().unwrap().expires_at, 5_000);
}

#[test]
fn load_new_token_resolves_a_missing_credential() {
    let mut manager = TokenManager::init(None);
    manager.record_alert();
    manager.load_new_token(credential(9_000));
    match manager.poll(0) {
        TokenPoll::Ready(t) => assert_eq!(t, "access-token-a"),
        other => panic!("expected a ready token, got {other:?}"),
    }
    assert!(manager.stored.is_some());
}

#[test]
fn token_response_without_refresh_token_is_rejected() {
    let r = Authentication::from_token_response("a".to_string(), None, Some(1_000), 0);
    assert_eq!(r.unwrap_err(), ExchangeError::NoRefreshToken);
}

#[test]
fn token_response_without_expiry_is_rejected() {
    let r = Authentication::from_token_response("a".to_string(), Some("r".to_string()), None, 0);
    assert_eq!(r.unwrap_err(), ExchangeError::NoExpiration);
}

#[test]
fn token_response_expiry_counts_from_now() {
    let r = Authentication::from_token_response(
        "a".to_string(),
        Some("r".to_string()),
        Some(3_600_000),
        1_000,
    )
    .unwrap();
    assert_eq!(r.access_token, "a");
    assert_eq!(r.refresh_token, "r");
    assert_eq!(r.expires_at, 3_601_000);
}

#[test]
fn token_response_expiry_saturates_at_the_instant_range() {
    let r = Authentication::from_token_response(
        "a".to_string(),
        Some("r".to_string()),
        Some(i64::MAX),
        i64::MAX,
    )
    .unwrap();
    assert_eq!(r.expires_at, i64::MAX);
}
