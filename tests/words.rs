use hex_tool::words::{add_word_if_valid, count_word_frequencies, format_number, WordCounts};

#[test]
fn counts_words_in_order() {
    let c = count_word_frequencies("the cat, the hat; the end", 1, false);
    assert_eq!(c.len(), 4);
    assert_eq!(c.entry(0), ("the".to_string(), 3));
    assert_eq!(c.entry(1), ("cat".to_string(), 1));
    assert_eq!(c.entry(2), ("hat".to_string(), 1));
    assert_eq!(c.entry(3), ("end".to_string(), 1));
    assert_eq!(c.count_of("the"), 3);
    assert_eq!(c.count_of("dog"), 0);
}

#[test]
fn counts_respect_case() {
    let c = count_word_frequencies("Hello hello HELLO", 1, false);
    assert_eq!(c.len(), 3);
    assert_eq!(c.count_of("Hello"), 1);
    let c = count_word_frequencies("Hello hello HELLO", 1, true);
    assert_eq!(c.len(), 1);
    assert_eq!(c.count_of("hello"), 3);
}

#[test]
fn ignore_case_lowercases_beyond_ascii() {
    let c = count_word_frequencies("ÉCOLE école", 1, true);
    assert_eq!(c.len(), 1);
    assert_eq!(c.entry(0), ("école".to_string(), 2));
}

#[test]
fn min_length_drops_short_words() {
    let c = count_word_frequencies("a bb ccc bb a", 2, false);
    assert_eq!(c.len(), 2);
    assert_eq!(c.count_of("bb"), 2);
    assert_eq!(c.count_of("ccc"), 1);
    assert_eq!(c.count_of("a"), 0);
}

#[test]
fn separators_and_empty_text() {
    assert_eq!(count_word_frequencies("", 1, false).len(), 0);
    assert_eq!(count_word_frequencies(" ,;. ", 0, false).len(), 0);
    let c = count_word_frequencies("x1-y2 naïve", 1, false);
    assert_eq!(c.len(), 3);
    assert_eq!(c.count_of("naïve"), 1);
    assert_eq!(c.count_of("x1"), 1);
}

#[test]
fn add_word_directly() {
    let mut m = WordCounts::new();
    add_word_if_valid(&mut m, "Word", 1, true);
    add_word_if_valid(&mut m, "word", 1, true);
    add_word_if_valid(&mut m, "", 0, true);
    add_word_if_valid(&mut m, "ab", 3, true);
    assert_eq!(m.len(), 1);
    assert_eq!(m.count_of("word"), 2);
}

#[test]
fn number_grouping() {
    assert_eq!(format_number(0), "0");
    assert_eq!(format_number(7), "7");
    assert_eq!(format_number(999), "999");
    assert_eq!(format_number(1000), "1,000");
    assert_eq!(format_number(12345), "12,345");
    assert_eq!(format_number(1234567), "1,234,567");
    assert_eq!(format_number(100000), "100,000");
}

#[test]
fn keys_are_never_empty() {
    let c = count_word_frequencies("İ ß Ǆ x", 1, true);
    for i in 0..c.len() {
        let (w, n) = c.entry(i);
        assert!(!w.is_empty());
        assert!(n >= 1);
    }
    assert_eq!(c.count_of("ß"), 1);
}
