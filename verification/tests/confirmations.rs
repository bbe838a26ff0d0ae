use like_and_subscribe::confirm::{
    parse_i64, pubsub_subscription_validation, ChallengeError, HubChallenge,
    HubSubscribeChallenge, HubUnsubscribeChallenge,
};
use like_and_subscribe::redirect::{check_redirect, CheckRedirectError, HeadResponse};
use like_and_subscribe::registry::ActiveSubscriptions;
use like_and_subscribe::topic::topic;

#[test]
fn parse_i64_accepts_what_from_str_accepts() {
    assert_eq!(parse_i64("0"), Some(0));
    assert_eq!(parse_i64("3600"), Some(3600));
    assert_eq!(parse_i64("+42"), Some(42));
    assert_eq!(parse_i64("-42"), Some(-42));
    assert_eq!(parse_i64("007"), Some(7));
    assert_eq!(parse_i64("9223372036854775807"), Some(i64::MAX));
    assert_eq!(parse_i64("-9223372036854775808"), Some(i64::MIN));
}

#[test]
fn parse_i64_rejects_what_from_str_rejects() {
    assert_eq!(parse_i64(""), None);
    assert_eq!(parse_i64("+"), None);
    assert_eq!(parse_i64("-"), None);
    assert_eq!(parse_i64("12a"), None);
    assert_eq!(parse_i64("a12"), None);
    assert_eq!(parse_i64(" 12"), None);
    assert_eq!(parse_i64("1 2"), None);
    assert_eq!(parse_i64("--5"), None);
    assert_eq!(parse_i64("9223372036854775808"), None);
    assert_eq!(parse_i64("-9223372036854775809"), None);
    assert_eq!(parse_i64("99999999999999999999999"), None);
}

#[test]
fn subscribe_confirmation_upserts_and_echoes_the_challenge() {
    let mut subs = ActiveSubscriptions::new();
    let reply = pubsub_subscription_validation(
        &mut subs,
        HubChallenge::Subscribe(HubSubscribeChallenge {
            topic: topic("UCa"),
            challenge: "challenge-token".to_string(),
            lease_seconds: "432000".to_string(),
        }),
        1_000_000,
    );
    assert_eq!(reply.unwrap(), "challenge-token");
    let row = subs.get(&"UCa".to_string()).unwrap();
    assert_eq!(row.expiration, 1_000_000 + 432_000_000);
}

#[test]
fn unsubscribe_confirmation_removes_and_echoes_the_challenge() {
    let mut subs = ActiveSubscriptions::new();
    subs.add_subscription("UCa".to_string(), 5);
    subs.add_subscription("UCb".to_string(), 6);
    let reply = pubsub_subscription_validation(
        &mut subs,
        HubChallenge::Unsubscribe(HubUnsubscribeChallenge {
            topic: topic("UCa"),
            challenge: "bye".to_string(),
        }),
        1_000,
    );
    assert_eq!(reply.unwrap(), "bye");
    assert!(subs.get(&"UCa".to_string()).is_none());
    assert!(subs.get(&"UCb".to_string()).is_some());
}

#[test]
fn malformed_lease_is_rejected_and_touches_nothing() {
    let mut subs = ActiveSubscriptions::new();
    let reply = pubsub_subscription_validation(
        &mut subs,
        HubChallenge::Subscribe(HubSubscribeChallenge {
            topic: topic("UCa"),
            challenge: "nope".to_string(),
            lease_seconds: "soon".to_string(),
        }),
        1_000,
    );
    assert_eq!(reply.unwrap_err(), ChallengeError::MalformedLeaseSeconds);
    assert!(subs.get(&"UCa".to_string()).is_none());
    assert!(subs.get_all_channel_ids().is_empty());
}

#[test]
fn successful_head_probe_means_short() {
    let resp = HeadResponse { status: 200, location: None };
    assert_eq!(check_redirect(Some(&resp)), Ok(true));
}

#[test]
fn watch_redirect_means_not_a_short() {
    let resp = HeadResponse {
        status: 303,
        location: Some(b"https://www.youtube.com/watch?v=xyz".to_vec()),
    };
    assert_eq!(check_redirect(Some(&resp)), Ok(false));
}

#[test]
fn non_watch_redirect_is_no_verdict() {
    let resp = HeadResponse {
        status: 303,
        location: Some(b"https://www.youtube.com/results".to_vec()),
    };
    assert_eq!(check_redirect(Some(&resp)), Err(CheckRedirectError::NonWatchRedirect));
}

#[test]
fn ambiguous_probes_are_errors_never_verdicts() {
    assert_eq!(check_redirect(None), Err(CheckRedirectError::BadRequest));
    let no_location = HeadResponse { status: 302, location: None };
    assert_eq!(check_redirect(Some(&no_location)), Err(CheckRedirectError::BadResponse));
    let server_error = HeadResponse { status: 500, location: None };
    assert_eq!(check_redirect(Some(&server_error)), Err(CheckRedirectError::BadResponse));
    let teapot = HeadResponse { status: 418, location: Some(b"watch".to_vec()) };
    assert_eq!(check_redirect(Some(&teapot)), Err(CheckRedirectError::BadResponse));
}
