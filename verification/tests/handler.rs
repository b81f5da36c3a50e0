use challenge_echo::handler::handle;
use challenge_echo::handler::BODY_LIMIT;
use challenge_echo::handler::response_body;
use challenge_echo::handler::SlackEvent;

#[test]
fn test_index_challenge() {
    let event = SlackEvent { challenge: Some("challengetoken".to_owned()) };
    let resp = handle(&event);
    assert_eq!(resp.status, 200);
    assert_eq!(resp.body, r##"{"challenge":"challengetoken"}"##);
}

#[test]
fn test_ok_when_challenge_absent() {
    let event = SlackEvent { challenge: None };
    let resp = handle(&event);
    assert_eq!(resp.status, 200);
    assert_eq!(resp.body, "\"ok\"");
}

#[test]
fn test_echo_embedded_quote() {
    let event = SlackEvent { challenge: Some("a\"b".to_owned()) };
    let resp = handle(&event);
    assert_eq!(resp.status, 200);
    assert_eq!(resp.body, "{\"challenge\":\"a\\\"b\"}");
}

#[test]
fn test_echo_backslash() {
    let event = SlackEvent { challenge: Some("a\\b".to_owned()) };
    let resp = handle(&event);
    assert_eq!(resp.body, "{\"challenge\":\"a\\\\b\"}");
}

#[test]
fn test_echo_empty_string() {
    let event = SlackEvent { challenge: Some(String::new()) };
    let resp = handle(&event);
    assert_eq!(resp.status, 200);
    assert_eq!(resp.body, "{\"challenge\":\"\"}");
}

#[test]
fn test_echo_unicode() {
    let event = SlackEvent { challenge: Some("héllo → ✓".to_owned()) };
    let resp = handle(&event);
    assert_eq!(resp.body, "{\"challenge\":\"héllo → ✓\"}");
}

#[test]
fn test_response_body_matches_handle() {
    let event = SlackEvent { challenge: Some("token".to_owned()) };
    assert_eq!(response_body(&event), handle(&event).body);
}

#[test]
fn test_body_limit_value() {
    assert_eq!(BODY_LIMIT, 4096);
}

#[test]
fn test_distinct_challenges_distinct_bodies() {
    let a = SlackEvent { challenge: Some("one".to_owned()) };
    let b = SlackEvent { challenge: Some("two".to_owned()) };
    let none = SlackEvent { challenge: None };
    assert_ne!(handle(&a).body, handle(&b).body);
    assert_ne!(handle(&a).body, handle(&none).body);
}
