use mailgun_rs::address::EmailAddress;
use mailgun_rs::message::Message;

fn get<'a>(params: &'a [(String, String)], key: &str) -> Option<&'a str> {
    params.iter().find(|p| p.0 == key).map(|p| p.1.as_str())
}

fn count(params: &[(String, String)], key: &str) -> usize {
    params.iter().filter(|p| p.0 == key).count()
}

#[test]
fn render_with_name() {
    let a = EmailAddress::name_address("no-reply", "no-reply@hackerth.com");
    assert_eq!(a.render(), "no-reply <no-reply@hackerth.com>");
}

#[test]
fn render_bare() {
    let a = EmailAddress::address("dongrify@gmail.com");
    assert_eq!(a.render(), "dongrify@gmail.com");
}

#[test]
fn empty_roles_emit_no_keys() {
    let msg = Message::default();
    let params = msg.params();
    assert_eq!(get(&params, "to"), None);
    assert_eq!(get(&params, "cc"), None);
    assert_eq!(get(&params, "bcc"), None);
}

#[test]
fn always_present_keys() {
    let msg = Message::default();
    let params = msg.params();
    assert_eq!(get(&params, "subject"), Some(""));
    assert_eq!(get(&params, "text"), Some(""));
    assert_eq!(get(&params, "html"), Some(""));
}

#[test]
fn two_recipients_join_with_comma() {
    let msg = Message {
        to: vec![EmailAddress::address("x@y.com"), EmailAddress::address("z@y.com")],
        ..Default::default()
    };
    let params = msg.params();
    assert_eq!(get(&params, "to"), Some("x@y.com,z@y.com"));
}

#[test]
fn named_recipient_joins_rendered_form() {
    let msg = Message {
        cc: vec![
            EmailAddress::name_address("Ann", "ann@y.com"),
            EmailAddress::address("z@y.com"),
        ],
        ..Default::default()
    };
    let params = msg.params();
    assert_eq!(get(&params, "cc"), Some("Ann <ann@y.com>,z@y.com"));
}

#[test]
fn empty_template_suppresses_variables() {
    let msg = Message {
        template_vars: vec![(String::from("firstname"), String::from("Dongri"))],
        recipient_vars: vec![(
            String::from("x@y.com"),
            vec![(String::from("firstname"), String::from("Dongri"))],
        )],
        ..Default::default()
    };
    let params = msg.params();
    assert_eq!(get(&params, "template"), None);
    assert_eq!(get(&params, "h:X-Mailgun-Variables"), None);
    assert_eq!(get(&params, "h:X-Mailgun-Recipient-Variables"), None);
}

#[test]
fn template_key_emitted() {
    let msg = Message {
        template: String::from("template-1"),
        ..Default::default()
    };
    let params = msg.params();
    assert_eq!(get(&params, "template"), Some("template-1"));
    assert_eq!(get(&params, "h:X-Mailgun-Variables"), None);
    assert_eq!(get(&params, "h:X-Mailgun-Recipient-Variables"), None);
}

#[test]
fn template_vars_round_trip_through_json() {
    let msg = Message {
        template: String::from("template-1"),
        template_vars: vec![(String::from("firstname"), String::from("Dongri"))],
        ..Default::default()
    };
    let params = msg.params();
    let header = get(&params, "h:X-Mailgun-Variables").unwrap();
    assert_eq!(header, "{\"firstname\":\"Dongri\"}");
    let parsed = mailgun_rs::json::parse_flat_json(header).unwrap();
    assert_eq!(parsed, vec![(String::from("firstname"), String::from("Dongri"))]);
    let independent: std::collections::HashMap<String, String> =
        serde_json::from_str(header).unwrap();
    assert_eq!(independent.len(), 1);
    assert_eq!(independent.get("firstname").map(String::as_str), Some("Dongri"));
}

#[test]
fn recipient_vars_serialized_under_their_header() {
    let msg = Message {
        template: String::from("template-1"),
        recipient_vars: vec![(
            String::from("x@y.com"),
            vec![(String::from("firstname"), String::from("Dongri"))],
        )],
        ..Default::default()
    };
    let params = msg.params();
    let header = get(&params, "h:X-Mailgun-Recipient-Variables").unwrap();
    assert_eq!(header, "{\"x@y.com\":{\"firstname\":\"Dongri\"}}");
    let independent: std::collections::HashMap<String, std::collections::HashMap<String, String>> =
        serde_json::from_str(header).unwrap();
    assert_eq!(independent["x@y.com"]["firstname"], "Dongri");
}

#[test]
fn full_message_params_in_order_without_duplicates() {
    let msg = Message {
        to: vec![EmailAddress::address("x@y.com")],
        cc: vec![EmailAddress::address("c@y.com")],
        bcc: vec![EmailAddress::address("b@y.com")],
        subject: String::from("s"),
        text: String::from("t"),
        html: String::from("<p>h</p>"),
        template: String::from("template-1"),
        template_vars: vec![(String::from("firstname"), String::from("Dongri"))],
        recipient_vars: vec![(
            String::from("x@y.com"),
            vec![(String::from("firstname"), String::from("Dongri"))],
        )],
    };
    let params = msg.params();
    let keys: Vec<&str> = params.iter().map(|p| p.0.as_str()).collect();
    assert_eq!(
        keys,
        vec![
            "to",
            "cc",
            "bcc",
            "subject",
            "text",
            "html",
            "template",
            "h:X-Mailgun-Variables",
            "h:X-Mailgun-Recipient-Variables",
        ]
    );
    for (i, k) in keys.iter().enumerate() {
        assert_eq!(keys.iter().position(|other| other == k), Some(i));
    }
}

#[test]
fn add_recipients_replaces_existing_binding() {
    let mut params = vec![
        (String::from("subject"), String::from("s")),
        (String::from("to"), String::from("old@y.com")),
        (String::from("text"), String::from("t")),
    ];
    let addrs = vec![EmailAddress::address("x@y.com"), EmailAddress::address("z@y.com")];
    Message::add_recipients("to", &addrs, &mut params);
    assert_eq!(
        params,
        vec![
            (String::from("subject"), String::from("s")),
            (String::from("to"), String::from("x@y.com,z@y.com")),
            (String::from("text"), String::from("t")),
        ]
    );
}

#[test]
fn add_recipients_appends_fresh_binding() {
    let mut params = vec![(String::from("subject"), String::from("s"))];
    let addrs = vec![EmailAddress::address("x@y.com")];
    Message::add_recipients("to", &addrs, &mut params);
    assert_eq!(
        params,
        vec![
            (String::from("subject"), String::from("s")),
            (String::from("to"), String::from("x@y.com")),
        ]
    );
}

#[test]
fn add_recipients_empty_role_changes_nothing() {
    let mut params = vec![(String::from("to"), String::from("kept@y.com"))];
    let addrs: Vec<EmailAddress> = Vec::new();
    Message::add_recipients("to", &addrs, &mut params);
    assert_eq!(params, vec![(String::from("to"), String::from("kept@y.com"))]);
}

#[test]
fn well_formedness_of_variable_maps() {
    let msg = Message {
        template_vars: vec![(String::from("a"), String::from("1"))],
        recipient_vars: vec![(
            String::from("x@y.com"),
            vec![(String::from("a"), String::from("1"))],
        )],
        ..Default::default()
    };
    assert!(msg.is_wf());
    let dup_flat = Message {
        template_vars: vec![
            (String::from("a"), String::from("1")),
            (String::from("a"), String::from("2")),
        ],
        ..Default::default()
    };
    assert!(!dup_flat.is_wf());
    let dup_inner = Message {
        recipient_vars: vec![(
            String::from("x@y.com"),
            vec![
                (String::from("a"), String::from("1")),
                (String::from("a"), String::from("2")),
            ],
        )],
        ..Default::default()
    };
    assert!(!dup_inner.is_wf());
}

#[test]
fn no_from_key_before_request() {
    let msg = Message {
        to: vec![EmailAddress::address("x@y.com")],
        subject: String::from("from"),
        ..Default::default()
    };
    let params = msg.params();
    assert_eq!(count(&params, "from"), 0);
}
