use lsmtp::message::Email;

fn sample() -> Email {
    Email::new(
        vec!["b@x.com".to_string(), "c@y.org".to_string()],
        "Subject: \"hi\"\n\tbody\\end\n".to_string(),
        "a@x.com".to_string(),
    )
}

#[test]
fn new_message_has_its_parts_and_a_fresh_id() {
    let e = sample();
    assert_eq!(e.sender(), "a@x.com");
    assert_eq!(e.recipients(), &vec!["b@x.com".to_string(), "c@y.org".to_string()]);
    assert_eq!(e.content(), "Subject: \"hi\"\n\tbody\\end\n");
    let id: Vec<char> = e.get_id().chars().collect();
    assert_eq!(id.len(), 36);
    for (k, c) in id.iter().enumerate() {
        if [8, 13, 18, 23].contains(&k) {
            assert_eq!(*c, '-');
        } else {
            assert!(c.is_ascii_digit() || ('a'..='f').contains(c));
        }
    }
    assert_eq!(id[14], '4');
    assert!(['8', '9', 'a', 'b'].contains(&id[19]));
    assert!(!e.timestamp().is_empty());
    assert_ne!(Email::empty().get_id(), e.get_id());
}

#[test]
fn empty_message_is_invalid() {
    let e = Email::empty();
    assert_eq!(e.validate(), Err("Sender is empty".to_string()));
}

#[test]
fn validation_names_the_first_missing_part() {
    let mut e = Email::empty();
    e.set_sender("a@x.com".to_string());
    assert_eq!(e.validate(), Err("Recipients are empty".to_string()));
    e.add_recipient("b@x.com".to_string());
    assert_eq!(e.validate(), Err("Email content is empty".to_string()));
    e.add_content("Hello\n".to_string());
    assert_eq!(e.validate(), Ok(()));
}

#[test]
fn recipients_keep_order_and_duplicates() {
    let mut e = Email::empty();
    e.add_recipient("b@x.com".to_string());
    e.add_recipient("a@x.com".to_string());
    e.add_recipient("b@x.com".to_string());
    assert_eq!(
        e.recipients(),
        &vec!["b@x.com".to_string(), "a@x.com".to_string(), "b@x.com".to_string()]
    );
}

#[test]
fn reset_keeps_id_and_time() {
    let mut e = sample();
    let id = e.get_id().to_string();
    let ts = e.timestamp().to_string();
    e.reset();
    assert_eq!(e.get_id(), id);
    assert_eq!(e.timestamp(), ts);
    assert_eq!(e.sender(), "");
    assert_eq!(e.content(), "");
    assert!(e.recipients().is_empty());
}

#[test]
fn serialized_message_parses_back_field_for_field() {
    let e = sample();
    let bytes = e.serialize();
    let v: serde_json::Value = serde_json::from_slice(&bytes).expect("valid JSON");
    let obj = v.as_object().expect("an object");
    assert_eq!(obj.len(), 5);
    assert_eq!(obj["timestamp"].as_str(), Some(e.timestamp()));
    assert_eq!(obj["message_id"].as_str(), Some(e.get_id()));
    assert_eq!(obj["email_content"].as_str(), Some(e.content()));
    assert_eq!(obj["sender"].as_str(), Some(e.sender()));
    let rs: Vec<String> = obj["recipients"]
        .as_array()
        .expect("a list")
        .iter()
        .map(|r| r.as_str().expect("a string").to_string())
        .collect();
    assert_eq!(&rs, e.recipients());
}

#[test]
fn serialized_form_is_compact_json_in_field_order() {
    let mut e = Email::empty();
    e.set_sender("a\"b@x".to_string());
    let text = String::from_utf8(e.serialize()).expect("UTF-8");
    let expected = format!(
        "{{\"timestamp\":\"{}\",\"message_id\":\"{}\",\"recipients\":[],\"email_content\":\"\",\"sender\":\"a\\\"b@x\"}}",
        e.timestamp(),
        e.get_id()
    );
    assert_eq!(text, expected);
    assert_eq!(e.payload(), expected);
}

#[test]
fn single_and_many_recipients_serialize_as_a_list() {
    let e = Email::new(vec!["x@y".to_string()], "c".to_string(), "s@t".to_string());
    let text = e.payload();
    assert!(text.contains(",\"recipients\":[\"x@y\"],"));
    let e = Email::new(
        vec!["x@y".to_string(), "z@w".to_string(), "q@r".to_string()],
        "c".to_string(),
        "s@t".to_string(),
    );
    assert!(e.payload().contains(",\"recipients\":[\"x@y\",\"z@w\",\"q@r\"],"));
}

#[test]
fn overflow_file_is_named_after_the_id() {
    let e = sample();
    assert_eq!(e.overflow_path("/tmp/lsmtp"), format!("/tmp/lsmtp/{}.json", e.get_id()));
}

#[test]
fn strings_are_escaped_as_json() {
    let e = Email::new(
        vec!["q\"x@y".to_string()],
        "a\\b\u{8}\t\n\u{c}\r\u{1}\u{1f}\u{7f}\u{e9}".to_string(),
        "s@t".to_string(),
    );
    let text = e.payload();
    assert!(text.contains("\"recipients\":[\"q\\\"x@y\"]"));
    assert!(text.contains("\"email_content\":\"a\\\\b\\b\\t\\n\\f\\r\\u0001\\u001f\u{7f}\u{e9}\""));
    let v: serde_json::Value = serde_json::from_str(&text).expect("valid JSON");
    assert_eq!(v["email_content"].as_str(), Some(e.content()));
}
