//! Concrete instances of the library's laws, and exact expected values for
//! the passes: punctuation, symbol blocks, the first-run collapse, and the
//! scan.

use count_words::{count_words, detect_words, split_words, Config};

fn default() -> Config {
    Config::default()
}

const DEFAULT_MARKS: &[char] = &[
    ',', '\u{FF0C}', '.', '\u{3002}', ':', '\u{FF1A}', ';', '\u{FF1B}', '[', ']', '\u{3010}',
    '\u{3011}', '{', '\u{FF5B}', '}', '\u{FF5D}', '(', '\u{FF08}', ')', '\u{FF09}', '<',
    '\u{300A}', '>', '\u{300B}', '$', '\u{FFE5}', '!', '\u{FF01}', '?', '\u{FF1F}', '~',
    '\u{FF5E}', '\'', '\u{2019}', '"', '\u{201C}', '\u{201D}', '*', '/', '\\', '&', '%', '@',
    '#', '^', '\u{3001}',
];

#[test]
fn blank_inputs_have_no_words() {
    assert_eq!(count_words("\u{FEFF}", &default()), 0);
    assert_eq!(count_words("\u{2003}\u{3000}\r\n", &default()), 0);
    let breaker = Config {
        punctuation_as_breaker: true,
        ..Default::default()
    };
    assert_eq!(count_words(" \t ", &breaker), 0);
}

#[test]
fn next_line_alone_is_one_word() {
    assert_eq!(split_words("\u{0085}", &default()), vec!["\u{0085}"]);
}

#[test]
fn trailing_default_mark_changes_no_word() {
    let texts = ["", "   ", "abc", "a b", "你好 world", "100,000", "x\ty z"];
    for text in texts {
        for mark in DEFAULT_MARKS {
            let longer = format!("{text}{mark}");
            assert_eq!(
                split_words(&longer, &default()),
                split_words(text, &default()),
                "appending {mark:?} to {text:?}"
            );
        }
    }
}

#[test]
fn words_hold_no_symbol_block_characters() {
    assert_eq!(split_words("a\u{2014}b", &default()), vec!["ab"]);
    let breaker = Config {
        punctuation_as_breaker: true,
        ..Default::default()
    };
    assert_eq!(split_words("x\u{FF0C}y", &breaker), vec!["x", "y"]);
    for w in split_words("\u{201C}\u{0627}\u{2026}\u{FF21}", &breaker) {
        assert!(!w.is_empty());
        assert!(w
            .chars()
            .all(|c| !('\u{2000}'..='\u{206F}').contains(&c) && !('\u{FF00}'..='\u{FFEF}').contains(&c)));
    }
}

#[test]
fn empty_custom_mark_is_ignored() {
    let with_empty = Config {
        punctuation: vec!["".into(), "-".into(), "".into()],
        ..Default::default()
    };
    let without = Config {
        punctuation: vec!["-".into()],
        ..Default::default()
    };
    for text in ["a-b c", "", "x--y", "中-文"] {
        assert_eq!(split_words(text, &with_empty), split_words(text, &without));
    }
    assert_eq!(split_words("a-b c", &with_empty), vec!["ab", "c"]);
}

#[test]
fn each_cjk_kana_hangul_char_is_a_word() {
    assert_eq!(split_words("中文世界", &default()), vec!["中", "文", "世", "界"]);
    assert_eq!(count_words("カタカナ", &default()), 4);
    assert_eq!(count_words("한국어", &default()), 3);
}

#[test]
fn letter_runs_joined_by_spaces_are_the_words() {
    assert_eq!(split_words("ab cd ef", &default()), vec!["ab", "cd", "ef"]);
    assert_eq!(split_words("Q", &default()), vec!["Q"]);
}

#[test]
fn astral_characters_are_never_classified() {
    assert_eq!(split_words("\u{20000}", &default()), vec!["\u{20000}"]);
    assert_eq!(split_words("中\u{20000}", &default()), vec!["中"]);
}

#[test]
fn unmatched_token_survives_whole() {
    assert_eq!(
        split_words("\u{0645}\u{0631}\u{062D}\u{0628}\u{0627}", &default()),
        vec!["\u{0645}\u{0631}\u{062D}\u{0628}\u{0627}"]
    );
    assert_eq!(count_words("\u{0E2A}\u{0E27}\u{0E31}\u{0E2A}\u{0E14}\u{0E35}", &default()), 1);
}

#[test]
fn count_and_split_agree_with_detect() {
    for text in ["", "a,b c", "100\u{4E16}", "\u{0662}\u{0660}"] {
        let d = detect_words(text, &default());
        assert_eq!(count_words(text, &default()), d.count());
        assert_eq!(split_words(text, &default()), d.words);
        assert_eq!(d.count(), d.words.len());
    }
}

#[test]
fn fullwidth_comma_deleted_or_broken() {
    assert_eq!(split_words("a\u{FF0C}b", &default()), vec!["ab"]);
    let breaker = Config {
        punctuation_as_breaker: true,
        ..Default::default()
    };
    assert_eq!(split_words("a\u{FF0C}b", &breaker), vec!["a", "b"]);
    let bare = Config {
        disable_default_punctuation: true,
        ..Default::default()
    };
    // Not handled as punctuation, but the fullwidth block is always stripped.
    assert_eq!(split_words("a\u{FF0C}b", &bare), vec!["ab"]);
}

#[test]
fn custom_marks_replace_non_overlapping_from_the_left() {
    let cfg = Config {
        punctuation: vec!["aa".into()],
        punctuation_as_breaker: true,
        ..Default::default()
    };
    assert_eq!(split_words("baaab", &cfg), vec!["b", "ab"]);
    let deleting = Config {
        punctuation: vec!["ab".into()],
        ..Default::default()
    };
    assert_eq!(split_words("xaby", &deleting), vec!["xy"]);
}

#[test]
fn leading_ideographic_space_is_the_first_run() {
    assert_eq!(split_words("\u{3000}\u{4E2D}", &default()), vec!["\u{4E2D}"]);
    assert_eq!(split_words("\u{0627}\u{3000}\u{0628}", &default()), vec!["\u{0627}", "\u{0628}"]);
}

#[test]
fn digit_runs_and_letter_runs() {
    assert_eq!(split_words("a1b22c333", &default()), vec!["a", "1", "b", "22", "c", "333"]);
    assert_eq!(split_words("\u{00E9}t\u{00E9} \u{0434}\u{0430}", &default()), vec!["\u{00E9}t\u{00E9}", "\u{0434}\u{0430}"]);
}
