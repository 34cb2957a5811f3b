use ccdemo::text::{is_whitespace, split_words};

fn owned(words: &[&str]) -> Vec<String> {
    words.iter().map(|w| w.to_string()).collect()
}

#[test]
fn splits_at_every_kind_of_white_space() {
    assert_eq!(split_words("never gonna\tgive\n\nyou  up "), owned(&["never", "gonna", "give", "you", "up"]));
    assert_eq!(split_words("a\u{00A0}b\u{2003}c\u{3000}d"), owned(&["a", "b", "c", "d"]));
}

#[test]
fn empty_and_blank_texts_have_no_words() {
    assert!(split_words("").is_empty());
    assert!(split_words(" \t\r\n\u{0085}").is_empty());
}

#[test]
fn a_single_word_is_its_own_split() {
    assert_eq!(split_words("word"), owned(&["word"]));
    assert_eq!(split_words("  word"), owned(&["word"]));
    assert_eq!(split_words("word  "), owned(&["word"]));
}

#[test]
fn words_keep_their_order_and_hold_no_white_space() {
    let words = split_words(" z y  x\nw ");
    assert_eq!(words, owned(&["z", "y", "x", "w"]));
    for w in &words {
        assert!(!w.is_empty());
        assert!(!w.chars().any(is_whitespace));
    }
}

#[test]
fn splitting_the_joined_words_gives_the_same_words() {
    for text in ["one", " two  words ", "a\tb\nc", "\u{2028}x\u{2029}y", "", "   "] {
        let words = split_words(text);
        let joined = words.join(" ");
        assert_eq!(split_words(&joined), words);
    }
}

#[test]
fn splitting_agrees_with_the_standard_library() {
    for text in ["We're no strangers to love", "  You know\tthe rules\r\nand so do I ", "x", "\u{1680}a\u{205F}b"] {
        let expected: Vec<String> = text.split_whitespace().map(|s| s.to_string()).collect();
        assert_eq!(split_words(text), expected);
    }
}

#[test]
fn white_space_is_what_the_standard_library_calls_white_space() {
    let mut code: u32 = 0;
    while code <= 0x10FFFF {
        if let Some(c) = char::from_u32(code) {
            assert_eq!(is_whitespace(c), c.is_whitespace(), "code point {:#x}", code);
        }
        code += 1;
    }
}
