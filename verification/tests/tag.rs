use quiz_arena::registry::{
    QuizAuthoringServiceHandler, QuizCatalogServiceHandler, Tag, TagError, UserId,
};

#[test]
fn accepts_text_within_bounds() {
    assert!(Tag::new("x".repeat(32)).is_ok());
}

#[test]
fn rejects_text_over_the_limit() {
    assert_eq!(
        Tag::new("x".repeat(33)),
        Err(TagError::TooLong { length: 33 })
    );
}

#[test]
fn tag_counts_length_in_characters_not_bytes() {
    assert!(Tag::new("あ".repeat(32)).is_ok());
    assert_eq!(
        Tag::new("あ".repeat(33)),
        Err(TagError::TooLong { length: 33 })
    );
}

#[test]
fn rejects_blank_text() {
    for text in ["", " ", "\t\n", "\u{3000}"] {
        assert_eq!(Tag::new(text.to_string()), Err(TagError::Blank), "{text:?}");
    }
}

#[test]
fn rejects_text_containing_nul() {
    for text in ["\0", "a\0", "\0a", "a\0b"] {
        assert_eq!(
            Tag::new(text.to_string()),
            Err(TagError::InvalidCharacter),
            "{text:?}"
        );
    }
}

#[test]
fn preserves_accepted_text_exactly() {
    for text in [" padded ", "Tokyo", "東京", "a\u{301}"] {
        assert_eq!(Tag::new(text.to_string()).unwrap().as_str(), text);
    }
}

#[test]
fn blank_is_checked_before_length() {
    assert_eq!(Tag::new(" ".repeat(40)), Err(TagError::Blank));
}

#[test]
fn length_is_checked_before_nul() {
    assert_eq!(
        Tag::new("\0".repeat(40)),
        Err(TagError::TooLong { length: 40 })
    );
}

#[test]
fn tag_error_messages() {
    assert_eq!(
        TagError::Blank.message(),
        "tag must not be empty or only whitespace"
    );
    assert_eq!(
        TagError::TooLong { length: 40 }.message(),
        "tag must be at most 32 characters, got 40"
    );
    assert_eq!(TagError::InvalidCharacter.message(), "tag must not contain NUL");
}

#[test]
fn user_id_round_trips_its_uuid() {
    let uuid = uuid::Uuid::from_u128(0x1234_5678_9abc_def0_1234_5678_9abc_def0);
    assert_eq!(UserId::from_uuid(uuid).as_uuid(), uuid);
}

#[test]
fn registry_handlers_are_constructed() {
    let _ = QuizAuthoringServiceHandler::new();
    let _ = QuizCatalogServiceHandler::new();
}
