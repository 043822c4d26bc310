use daily_recap::notify::{is_success_status, notification_content, notification_payload};

#[test]
fn plain_text_payload() {
    assert_eq!(notification_content("d1"), "Daily Digest: d1");
    assert_eq!(
        notification_payload("d1"),
        "{\"content\":\"Daily Digest: d1\"}"
    );
}

#[test]
fn empty_digest_text_payload() {
    assert_eq!(notification_payload(""), "{\"content\":\"Daily Digest: \"}");
}

#[test]
fn payload_escapes_quotes_backslashes_and_controls() {
    // Quote, backslash, newline, tab and a bare control character must all
    // be escaped exactly as the JSON serializer writes them.
    let digest = "a\"b\\c\nd\tf\u{1}g";
    assert_eq!(
        notification_payload(digest),
        "{\"content\":\"Daily Digest: a\\\"b\\\\c\\nd\\tf\\u0001g\"}"
    );
}

#[test]
fn payload_escapes_named_controls() {
    let digest = "x\u{8}\u{c}\ry";
    assert_eq!(
        notification_payload(digest),
        "{\"content\":\"Daily Digest: x\\b\\f\\ry\"}"
    );
}

#[test]
fn payload_keeps_unicode_verbatim() {
    assert_eq!(
        notification_payload("caf\u{e9} \u{2603}"),
        "{\"content\":\"Daily Digest: caf\u{e9} \u{2603}\"}"
    );
}

#[test]
fn success_status_is_exactly_2xx() {
    assert!(!is_success_status(199));
    assert!(is_success_status(200));
    assert!(is_success_status(204));
    assert!(is_success_status(299));
    assert!(!is_success_status(300));
    assert!(!is_success_status(404));
    assert!(!is_success_status(500));
}
