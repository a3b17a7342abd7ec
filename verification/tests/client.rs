use mailgun_rs::address::EmailAddress;
use mailgun_rs::client::{interpret_response, Mailgun, SendError};
use mailgun_rs::message::Message;

fn get<'a>(params: &'a [(String, String)], key: &str) -> Option<&'a str> {
    params.iter().find(|p| p.0 == key).map(|p| p.1.as_str())
}

#[test]
fn new_holds_credentials() {
    let client = Mailgun::new("mailgun.hackerth.com", "key-SECRET-REDACTED");
    assert_eq!(client.domain, "mailgun.hackerth.com");
    assert_eq!(client.api_key, "key-SECRET-REDACTED");
    assert!(client.zone.is_none());
}

#[test]
fn default_url_composition() {
    let client = Mailgun::new("mailgun.hackerth.com", "key");
    assert_eq!(
        client.message_url(),
        "https://api.mailgun.net/v3/mailgun.hackerth.com/messages"
    );
}

#[test]
fn zone_changes_only_base() {
    let mut client = Mailgun::new("mailgun.hackerth.com", "key");
    let before = client.message_url();
    client.set_zone("https://api.eu.mailgun.net/v3");
    let after = client.message_url();
    assert_eq!(after, "https://api.eu.mailgun.net/v3/mailgun.hackerth.com/messages");
    let suffix = "/mailgun.hackerth.com/messages";
    assert!(before.ends_with(suffix));
    assert!(after.ends_with(suffix));
    assert_eq!(before.strip_suffix(suffix).unwrap(), "https://api.mailgun.net/v3");
    assert_eq!(after.strip_suffix(suffix).unwrap(), "https://api.eu.mailgun.net/v3");
}

#[test]
fn zone_can_be_set_again() {
    let mut client = Mailgun::new("d.example", "key");
    client.set_zone("https://api.eu.mailgun.net/v3");
    client.set_zone("https://api.other.example/v3");
    assert_eq!(client.message_url(), "https://api.other.example/v3/d.example/messages");
}

#[test]
fn status_range_boundaries() {
    let body = "{\"message\":\"Queued\",\"id\":\"abc123\"}";
    assert!(interpret_response(299, body).is_ok());
    match interpret_response(300, body) {
        Err(SendError::Rejected(t)) => assert_eq!(t, body),
        other => panic!("expected a rejection, got {:?}", other),
    }
    match interpret_response(199, body) {
        Err(SendError::Rejected(t)) => assert_eq!(t, body),
        other => panic!("expected a rejection, got {:?}", other),
    }
}

#[test]
fn request_sets_from_and_credentials() {
    let client = Mailgun::new("mailgun.hackerth.com", "key-1");
    let sender = EmailAddress::name_address("no-reply", "no-reply@hackerth.com");
    let msg = Message {
        to: vec![EmailAddress::address("x@y.com")],
        subject: String::from("hello"),
        ..Default::default()
    };
    let n_before = msg.params().len();
    let req = client.request(&sender, &msg);
    assert_eq!(req.username, "api");
    assert_eq!(req.password, "key-1");
    assert_eq!(req.url, "https://api.mailgun.net/v3/mailgun.hackerth.com/messages");
    assert_eq!(get(&req.params, "from"), Some("no-reply <no-reply@hackerth.com>"));
    assert_eq!(req.params.len(), n_before + 1);
    assert_eq!(req.params.last().unwrap().0, "from");
    assert_eq!(get(&req.params, "to"), Some("x@y.com"));
    assert_eq!(get(&req.params, "subject"), Some("hello"));
}

#[test]
fn success_response_parsed() {
    let r = interpret_response(200, "{\"message\":\"Queued\",\"id\":\"abc123\"}");
    let resp = r.unwrap();
    assert_eq!(resp.message, "Queued");
    assert_eq!(resp.id, "abc123");
}

#[test]
fn success_response_with_whitespace_and_other_order() {
    let r = interpret_response(201, " {\n  \"id\": \"abc123\",\n  \"message\": \"Queued. Thank you.\"\n} ");
    let resp = r.unwrap();
    assert_eq!(resp.message, "Queued. Thank you.");
    assert_eq!(resp.id, "abc123");
}

#[test]
fn rejected_response_body_verbatim() {
    let r = interpret_response(400, "Invalid domain");
    match r {
        Err(SendError::Rejected(t)) => assert_eq!(t, "Invalid domain"),
        other => panic!("expected a rejection, got {:?}", other),
    }
}

#[test]
fn rejected_even_when_body_is_json() {
    let r = interpret_response(401, "{\"message\":\"Forbidden\",\"id\":\"x\"}");
    match r {
        Err(SendError::Rejected(t)) => assert_eq!(t, "{\"message\":\"Forbidden\",\"id\":\"x\"}"),
        other => panic!("expected a rejection, got {:?}", other),
    }
}

#[test]
fn malformed_success_body() {
    let r = interpret_response(200, "not json at all");
    match r {
        Err(SendError::Malformed(t)) => assert_eq!(t, "not json at all"),
        other => panic!("expected a malformed error, got {:?}", other),
    }
}

#[test]
fn success_body_with_unicode_escape() {
    let r = interpret_response(200, "{\"message\":\"OK \\u2713\",\"id\":\"\\u00E9tape\"}");
    let resp = r.unwrap();
    assert_eq!(resp.message, "OK \u{2713}");
    assert_eq!(resp.id, "\u{e9}tape");
}

#[test]
fn malformed_success_duplicate_member() {
    let body = "{\"message\":\"a\",\"message\":\"b\",\"id\":\"c\"}";
    match interpret_response(200, body) {
        Err(SendError::Malformed(t)) => assert_eq!(t, body),
        other => panic!("expected a malformed error, got {:?}", other),
    }
}

#[test]
fn malformed_success_missing_id() {
    let r = interpret_response(200, "{\"message\":\"Queued\"}");
    match r {
        Err(SendError::Malformed(t)) => assert_eq!(t, "{\"message\":\"Queued\"}"),
        other => panic!("expected a malformed error, got {:?}", other),
    }
}
