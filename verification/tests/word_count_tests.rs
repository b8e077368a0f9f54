use rust_course::word_count::WordCounter;

// ── Helper ──────────────────────────────────────────────

fn make_counter(texts: &[&str]) -> WordCounter {
    let mut wc = WordCounter::new();
    for text in texts {
        wc.count(text);
    }
    wc
}

// ── Single-threaded counting ────────────────────────────

#[test]
fn count_single_text() {
    let wc = make_counter(&["hello world hello"]);
    assert_eq!(wc.get("hello"), 2);
    assert_eq!(wc.get("world"), 1);
}

#[test]
fn count_ignores_case_and_punctuation() {
    let wc = make_counter(&["Hello, HELLO! hello."]);
    assert_eq!(wc.get("hello"), 3);
}

#[test]
fn count_empty_input() {
    let wc = make_counter(&[""]);
    assert_eq!(wc.get("anything"), 0);
}

// ── top_n ───────────────────────────────────────────────

#[test]
fn top_n_returns_most_frequent() {
    let wc = make_counter(&["a b a c a b"]);
    let top = wc.top_n(2);
    assert_eq!(top[0], ("a".to_string(), 3));
    assert_eq!(top[1], ("b".to_string(), 2));
}

#[test]
fn top_n_alphabetical_on_tie() {
    let wc = make_counter(&["x y z"]);
    let top = wc.top_n(3);
    // All have count 1, so sorted alphabetically
    assert_eq!(top[0].0, "x");
    assert_eq!(top[1].0, "y");
    assert_eq!(top[2].0, "z");
}

// ── merge ───────────────────────────────────────────────

#[test]
fn merge_combines_counts() {
    let mut a = make_counter(&["hello world"]);
    let b = make_counter(&["hello rust"]);
    a.merge(&b);
    assert_eq!(a.get("hello"), 2);
    assert_eq!(a.get("world"), 1);
    assert_eq!(a.get("rust"), 1);
}

// ── reset ───────────────────────────────────────────────

#[test]
fn reset_clears_all_counts() {
    let mut wc = make_counter(&["some words here"]);
    assert!(wc.get("some") > 0);
    wc.reset();
    assert_eq!(wc.get("some"), 0);
}

// ── further cases ───────────────────────────────────────

#[test]
fn punctuation_only_words_are_not_counted() {
    let wc = make_counter(&["... !!! --- word"]);
    assert_eq!(wc.top_n(10), vec![("word".to_string(), 1)]);
}

#[test]
fn inner_punctuation_is_kept() {
    let wc = make_counter(&["don't \"stop\" e-mail"]);
    assert_eq!(wc.get("don't"), 1);
    assert_eq!(wc.get("stop"), 1);
    assert_eq!(wc.get("e-mail"), 1);
}

#[test]
fn get_lowercases_but_does_not_strip() {
    let wc = make_counter(&["Rust"]);
    assert_eq!(wc.get("RUST"), 1);
    assert_eq!(wc.get("rust!"), 0);
}

#[test]
fn top_n_more_than_available_and_zero() {
    let wc = make_counter(&["b a b c c c"]);
    assert_eq!(
        wc.top_n(10),
        vec![
            ("c".to_string(), 3),
            ("b".to_string(), 2),
            ("a".to_string(), 1)
        ]
    );
    assert!(wc.top_n(0).is_empty());
}

#[test]
fn merge_then_sequential_agree() {
    let seq = make_counter(&["the quick fox", "the lazy dog"]);
    let mut par = make_counter(&["the quick fox"]);
    par.merge(&make_counter(&["the lazy dog"]));
    assert_eq!(seq.top_n(10), par.top_n(10));
}

#[test]
fn counting_order_does_not_matter() {
    let texts = ["the quick brown fox", "the slow brown dog", "the quick red cat"];
    let forward = make_counter(&texts);
    let backward = make_counter(&[texts[2], texts[0], texts[1]]);
    assert_eq!(forward.top_n(100), backward.top_n(100));
    // Merged in the order threads might finish.
    let mut merged = WordCounter::new();
    for t in [texts[1], texts[2], texts[0]] {
        merged.merge(&make_counter(&[t]));
    }
    assert_eq!(merged.top_n(100), forward.top_n(100));
    assert_eq!(merged.get("the"), 3);
    assert_eq!(merged.get("brown"), 2);
}
