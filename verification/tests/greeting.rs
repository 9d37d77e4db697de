use quiz_arena::greet::domain::{Greeting, SenderName, SenderNameError};

#[test]
fn accepts_names_within_bounds() {
    let name = SenderName::new("alice".to_string()).unwrap();
    assert_eq!(name.as_str(), "alice");

    assert!(SenderName::new("a".to_string()).is_ok());
    assert!(SenderName::new("x".repeat(32)).is_ok());
}

#[test]
fn rejects_empty_name() {
    assert_eq!(SenderName::new(String::new()), Err(SenderNameError::Empty));
}

#[test]
fn rejects_name_longer_than_32_characters() {
    assert_eq!(
        SenderName::new("x".repeat(33)),
        Err(SenderNameError::TooLong { length: 33 })
    );
}

#[test]
fn greeting_counts_length_in_characters_not_bytes() {
    // 32 characters but 96 bytes in UTF-8.
    assert!(SenderName::new("あ".repeat(32)).is_ok());
}

#[test]
fn first_greeting_is_not_returning() {
    let greeting = Greeting::first(SenderName::new("alice".to_string()).unwrap());

    assert_eq!(greeting.times_greeted(), 1);
    assert!(!greeting.is_returning());
}

#[test]
fn repeated_greeting_is_returning() {
    let mut greeting = Greeting::first(SenderName::new("alice".to_string()).unwrap());
    greeting.record_another();

    assert_eq!(greeting.times_greeted(), 2);
    assert!(greeting.is_returning());
}

#[test]
fn rejects_names_with_other_than_letters_and_numbers() {
    assert_eq!(
        SenderName::new("alice bob".to_string()),
        Err(SenderNameError::InvalidCharacter)
    );
    assert_eq!(
        SenderName::new("alice!".to_string()),
        Err(SenderNameError::InvalidCharacter)
    );
    assert!(SenderName::new("東京2024".to_string()).is_ok());
}

#[test]
fn length_is_checked_before_characters() {
    assert_eq!(
        SenderName::new(" ".repeat(40)),
        Err(SenderNameError::TooLong { length: 40 })
    );
}

#[test]
fn greeting_count_saturates() {
    let mut greeting =
        Greeting::from_persistence(SenderName::new("alice".to_string()).unwrap(), u32::MAX);
    greeting.record_another();
    assert_eq!(greeting.times_greeted(), u32::MAX);
    assert!(greeting.is_returning());
}

#[test]
fn rehydrated_greeting_keeps_its_count() {
    let greeting = Greeting::from_persistence(SenderName::new("bob".to_string()).unwrap(), 7);
    assert_eq!(greeting.times_greeted(), 7);
    assert_eq!(greeting.sender().as_str(), "bob");
}

#[test]
fn sender_name_error_messages() {
    assert_eq!(SenderNameError::Empty.message(), "sender name must not be empty");
    assert_eq!(
        SenderNameError::TooLong { length: 33 }.message(),
        "sender name must be at most 32 characters, got 33"
    );
    assert_eq!(
        SenderNameError::InvalidCharacter.message(),
        "sender name must contain only letters and numbers"
    );
}
