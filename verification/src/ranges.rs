//! Unicode block ranges for character classification.
//!
//! These ranges are ad-hoc block slices, not formal Unicode categories. The CJK
//! class is over-broad on purpose: it includes CJK symbols, enclosed forms and
//! radicals. A character that lands in these ranges counts as one word on its
//! own.
//!
//! All ranges lie in the Basic Multilingual Plane, so a character at or above
//! U+10000 (an astral ideograph or an emoji) is never classified.

use vstd::prelude::*;

verus! {

/// True when `c` is a Latin, Cyrillic, or Malayalam letter that joins a run.
/// A maximal run of these is one word.
#[verifier::allow_in_spec]
pub fn is_latin_class(c: char) -> bool
    returns
        ('a' <= c && c <= 'z')
        || ('A' <= c && c <= 'Z')
        || ('\u{00C0}' <= c && c <= '\u{00FF}')
        || ('\u{0100}' <= c && c <= '\u{017F}')
        || ('\u{0180}' <= c && c <= '\u{024F}')
        || ('\u{0250}' <= c && c <= '\u{02AF}')
        || ('\u{1E00}' <= c && c <= '\u{1EFF}')
        || ('\u{0400}' <= c && c <= '\u{04FF}')
        || ('\u{0500}' <= c && c <= '\u{052F}')
        || ('\u{0D00}' <= c && c <= '\u{0D7F}'),
{
    ('a' <= c && c <= 'z')  // basic Latin, lower case
    || ('A' <= c && c <= 'Z')  // basic Latin, upper case
    || ('\u{00C0}' <= c && c <= '\u{00FF}')  // Latin-1 Supplement letters
    || ('\u{0100}' <= c && c <= '\u{017F}')  // Latin Extended-A
    || ('\u{0180}' <= c && c <= '\u{024F}')  // Latin Extended-B
    || ('\u{0250}' <= c && c <= '\u{02AF}')  // IPA Extensions
    || ('\u{1E00}' <= c && c <= '\u{1EFF}')  // Latin Extended Additional
    || ('\u{0400}' <= c && c <= '\u{04FF}')  // Cyrillic
    || ('\u{0500}' <= c && c <= '\u{052F}')  // Cyrillic Supplement
    || ('\u{0D00}' <= c && c <= '\u{0D7F}')  // Malayalam
}

/// True when `c` is a CJK ideograph, Japanese kana, or Korean Hangul character.
/// Each such character is one word on its own.
#[verifier::allow_in_spec]
pub fn is_cjk_class(c: char) -> bool
    returns
        is_cjk(c) || is_jp(c) || is_kr(c),
{
    is_cjk(c) || is_jp(c) || is_kr(c)
}

/// Chinese Hanzi, Japanese Kanji, Korean Hanja, plus CJK symbols and radicals.
#[verifier::allow_in_spec]
pub fn is_cjk(c: char) -> bool
    returns
        ('\u{2E80}' <= c && c <= '\u{2EFF}')
        || ('\u{2F00}' <= c && c <= '\u{2FDF}')
        || ('\u{3001}' <= c && c <= '\u{303F}')
        || ('\u{31C0}' <= c && c <= '\u{31EF}')
        || ('\u{3200}' <= c && c <= '\u{32FF}')
        || ('\u{3300}' <= c && c <= '\u{33FF}')
        || ('\u{3400}' <= c && c <= '\u{9FFF}')
        || ('\u{F900}' <= c && c <= '\u{FAFF}'),
{
    ('\u{2E80}' <= c && c <= '\u{2EFF}')  // CJK Radicals Supplement
    || ('\u{2F00}' <= c && c <= '\u{2FDF}')  // Kangxi Radicals
    || ('\u{3001}' <= c && c <= '\u{303F}')  // CJK Symbols and Punctuation (U+3000 is whitespace)
    || ('\u{31C0}' <= c && c <= '\u{31EF}')  // CJK Strokes
    || ('\u{3200}' <= c && c <= '\u{32FF}')  // Enclosed CJK Letters and Months
    || ('\u{3300}' <= c && c <= '\u{33FF}')  // CJK Compatibility
    || ('\u{3400}' <= c && c <= '\u{9FFF}')  // CJK Ext-A through Unified Ideographs
    || ('\u{F900}' <= c && c <= '\u{FAFF}')  // CJK Compatibility Ideographs
}

/// Japanese Hiragana, Katakana, and kana extensions.
#[verifier::allow_in_spec]
pub fn is_jp(c: char) -> bool
    returns
        ('\u{3040}' <= c && c <= '\u{309F}')
        || ('\u{30A0}' <= c && c <= '\u{30FF}')
        || ('\u{31F0}' <= c && c <= '\u{31FF}')
        || ('\u{3190}' <= c && c <= '\u{319F}'),
{
    ('\u{3040}' <= c && c <= '\u{309F}')  // Hiragana
    || ('\u{30A0}' <= c && c <= '\u{30FF}')  // Katakana
    || ('\u{31F0}' <= c && c <= '\u{31FF}')  // Katakana Phonetic Extensions
    || ('\u{3190}' <= c && c <= '\u{319F}')  // Kanbun
}

/// Korean Hangul jamo and syllables.
#[verifier::allow_in_spec]
pub fn is_kr(c: char) -> bool
    returns
        ('\u{1100}' <= c && c <= '\u{11FF}')
        || ('\u{3130}' <= c && c <= '\u{318F}')
        || ('\u{A960}' <= c && c <= '\u{A97F}')
        || ('\u{AC00}' <= c && c <= '\u{D7FF}'),
{
    ('\u{1100}' <= c && c <= '\u{11FF}')  // Hangul Jamo
    || ('\u{3130}' <= c && c <= '\u{318F}')  // Hangul Compatibility Jamo
    || ('\u{A960}' <= c && c <= '\u{A97F}')  // Hangul Jamo Extended-A
    || ('\u{AC00}' <= c && c <= '\u{D7FF}')  // Hangul Syllables and Jamo Extended-B
}

} // verus!
