use rust_course::fundamentals::find_longest_word;
use rust_course::ownership::{
    add_greeting, add_punctuation, analyze_text, analyze_text_detailed, calculate_product,
    calculate_sum, create_message, get_greeting, longest_common_prefix, BookExcerpt, StringOrRef,
};
use rust_course::structs_enums::{Book, BookStatus, LightState, TrafficLight};

// ── fundamentals ────────────────────────────────────────

#[test]
fn test_longest_word() {
    // "world" is 5 chars, "Hello" is 5 chars, "rust" is 4 chars
    // max_by_key returns the last one when lengths are equal
    assert_eq!(find_longest_word("Hello world rust"), Some("world"));
    assert_eq!(find_longest_word(""), None);
    assert_eq!(find_longest_word("a bb ccc"), Some("ccc"));
    assert_eq!(find_longest_word("equal same size"), Some("equal"));
}

#[test]
fn longest_word_counts_bytes() {
    // "é" is two bytes, so "éé" (4 bytes) beats "abc" (3 bytes)
    assert_eq!(find_longest_word("abc éé"), Some("éé"));
    assert_eq!(find_longest_word("   \t\n "), None);
}

// ── structs and enums ───────────────────────────────────

#[test]
fn test_book_lifecycle() {
    let mut book = Book::new(
        "Test Book".to_string(),
        "Test Author".to_string(),
        "123456".to_string(),
    );

    assert!(book.is_available());

    // Checkout
    assert!(book.checkout("Alice".to_string(), "2025-12-01".to_string()).is_ok());
    assert!(!book.is_available());

    // Can't checkout when already checked out
    assert!(book.checkout("Bob".to_string(), "2025-12-01".to_string()).is_err());

    // Return
    assert!(book.return_book().is_ok());
    assert!(book.is_available());

    // Can't return when not checked out
    assert!(book.return_book().is_err());

    // Reserve
    assert!(book.reserve("Charlie".to_string()).is_ok());
    assert!(!book.is_available());
}

#[test]
fn test_traffic_light() {
    let mut light = TrafficLight::new();

    assert_eq!(light.current_color(), "Red");
    assert_eq!(light.time_remaining(), 30);

    // Tick down to transition
    for _ in 0..30 {
        light.tick();
    }

    assert_eq!(light.current_color(), "Green");
    assert_eq!(light.time_remaining(), 25);

    // Next transition
    for _ in 0..25 {
        light.tick();
    }

    assert_eq!(light.current_color(), "Yellow");
    assert_eq!(light.time_remaining(), 5);

    // Back to red
    for _ in 0..5 {
        light.tick();
    }

    assert_eq!(light.current_color(), "Red");
    assert_eq!(light.time_remaining(), 30);
}

#[test]
fn book_messages_and_reservations() {
    let mut book = Book::new("T".to_string(), "A".to_string(), "1".to_string());
    assert_eq!(book.reserve("Charlie".to_string()), Ok(()));
    assert_eq!(
        book.checkout("Dave".to_string(), "2025-12-20".to_string()),
        Err("Book is reserved by Charlie".to_string())
    );
    assert_eq!(
        book.reserve("Eve".to_string()),
        Err("Book is not available for reservation".to_string())
    );
    assert_eq!(book.checkout("Charlie".to_string(), "2025-12-20".to_string()), Ok(()));
    assert_eq!(
        book.checkout("Bob".to_string(), "2026-01-01".to_string()),
        Err("Book is already checked out by Charlie".to_string())
    );
    match &book.status {
        BookStatus::CheckedOut { borrower, due_date } => {
            assert_eq!(borrower, "Charlie");
            assert_eq!(due_date, "2025-12-20");
        }
        _ => panic!("expected a checked-out book"),
    }
    assert_eq!(book.return_book(), Ok(()));
    assert_eq!(book.return_book(), Err("Book is not checked out".to_string()));
}

#[test]
fn light_full_cycle_and_states() {
    let mut light = TrafficLight::new();
    for _ in 0..60 {
        light.tick();
    }
    assert_eq!(light.current_state, LightState::Red { duration: 30 });
    assert_eq!(light.time_remaining(), 30);
    light.tick();
    assert_eq!(light.time_remaining(), 29);
}

// ── ownership ───────────────────────────────────────────

#[test]
fn test_ownership_chain() {
    let msg = create_message();
    let msg = add_greeting(msg);
    let msg = add_punctuation(msg);
    assert_eq!(msg, "Hello, World!");
}

#[test]
fn test_analyze_text() {
    let text = "Hello world rust";
    let (count, upper) = analyze_text(text);
    assert_eq!(count, 3);
    assert_eq!(upper, "HELLO WORLD RUST");

    // Test that text is still usable
    assert_eq!(text.len(), 16);
}

#[test]
fn test_common_prefix() {
    assert_eq!(longest_common_prefix("hello", "help"), "hel");
    assert_eq!(longest_common_prefix("rust", "ruby"), "ru");
    assert_eq!(longest_common_prefix("abc", "xyz"), "");
    assert_eq!(longest_common_prefix("test", "test"), "test");
}

#[test]
fn test_book_excerpt() {
    let text = String::from("This is a test. Another sentence.");
    let excerpt = BookExcerpt::new(&text, 5);

    assert_eq!(excerpt.first_sentence(), "This is a test");
    assert_eq!(excerpt.word_count(), 6);
    assert_eq!(excerpt.page, 5);
}

#[test]
fn common_prefix_more_cases() {
    assert_eq!(longest_common_prefix("", "anything"), "");
    assert_eq!(longest_common_prefix("prefix", "pre"), "pre");
    assert_eq!(longest_common_prefix("héllo", "hélp"), "hél");
}

#[test]
fn detailed_analysis_and_sums() {
    let a = analyze_text_detailed("Rust is fun");
    assert_eq!(a.original, "Rust is fun");
    assert_eq!(a.word_count, 3);
    assert_eq!(a.char_count, 11);
    assert_eq!(a.uppercase, "RUST IS FUN");
    assert_eq!(a.lowercase, "rust is fun");
    assert_eq!(a.reversed, "nuf si tsuR");
    assert_eq!(calculate_sum(&vec![1, 2, 3, 4, 5]), 15);
    assert_eq!(calculate_product(vec![1, 2, 3, 4, 5]), 120);
    assert_eq!(calculate_sum(&vec![]), 0);
    assert_eq!(calculate_product(vec![]), 1);
}

#[test]
fn excerpt_without_period_and_greetings() {
    let excerpt = BookExcerpt::new("no period here", 1);
    assert_eq!(excerpt.first_sentence(), "no period here");
    match get_greeting(None) {
        StringOrRef::Owned(s) => assert_eq!(s, "Hello, World!"),
        StringOrRef::Borrowed(_) => panic!("expected an owned greeting"),
    }
    match get_greeting(Some("Hi")) {
        StringOrRef::Borrowed(s) => assert_eq!(s, "Hi"),
        StringOrRef::Owned(_) => panic!("expected a borrowed greeting"),
    }
}
