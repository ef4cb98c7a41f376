use pdft::model::comments::{comment_text, is_comment_subtype};

#[test]
fn comment_subtypes_are_those_that_carry_a_readers_text() {
    for s in ["Text", "FreeText", "Highlight", "StrikeOut", "Underline", "Squiggly"] {
        assert!(is_comment_subtype(s.as_bytes()), "{s}");
    }
    for s in ["Link", "Widget", "", "text", "Texts"] {
        assert!(!is_comment_subtype(s.as_bytes()), "{s}");
    }
}

#[test]
fn a_comment_shows_its_contents_when_they_are_utf8_and_not_empty() {
    assert_eq!(comment_text(b"Text", Some("Looks good ✓".as_bytes().to_vec())), Some("Looks good ✓".to_string()));
    assert_eq!(comment_text(b"Highlight", Some(Vec::new())), None);
    assert_eq!(comment_text(b"Highlight", None), None);
    assert_eq!(comment_text(b"Text", Some(vec![0xff, 0xfe])), None);
    assert_eq!(comment_text(b"Link", Some(b"hidden".to_vec())), None);
}
