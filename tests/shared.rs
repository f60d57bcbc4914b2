use vzdv::shared::{strip_some_tags, CacheEntry};

#[test]
fn test_strip_some_tags() {
    assert_eq!(
        strip_some_tags(r#"foo <script src="https://example.com"></script> bar"#),
        r#"foo  src="https://example.com"></script> bar"#
    );
    assert_eq!(
        strip_some_tags(r#"foo <SCRIPT src="https://example.com"></SCRIPT> bar"#),
        r#"foo  src="https://example.com"></SCRIPT> bar"#
    );
    assert_eq!(
        strip_some_tags(r#"foo <fORm method="POST" action="https://example.com"></SCRIPT> bar"#),
        r#"foo  method="POST" action="https://example.com"></SCRIPT> bar"#
    );
    assert_eq!(
        strip_some_tags(r#"something <button type="submit"></button>"#),
        r#"something  type="submit"></button>"#
    );
    assert_eq!(
        strip_some_tags(r#"click <a href="https://example.com">here</a> to win"#),
        r#"click  href="https://example.com">here</a> to win"#
    );
}

#[test]
fn strip_leaves_plain_text() {
    assert_eq!(strip_some_tags("plain <b>bold</b>"), "plain <b>bold</b>");
    assert_eq!(strip_some_tags(""), "");
}

#[test]
fn cache_entry_keeps_data() {
    let e = CacheEntry::new(String::from("payload"));
    assert_eq!(e.data, "payload");
}
