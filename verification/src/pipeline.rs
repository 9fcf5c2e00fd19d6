//! The whole word detector as one spec function, `detect`, composed from the
//! text passes of `text`; and the built-in punctuation list.

use vstd::prelude::*;

use crate::chars::blank;
use crate::text::{collapse_first_run, replace_all, scan_from, strip_symbols, tokens_of};

verus! {

/// Built-in punctuation, stripped unless the configuration disables it, in the
/// order in which the replacements are made. Each mark is one character.
pub open spec fn default_punctuation_chars() -> Seq<char> {
    seq![
        ',', '\u{FF0C}', '.', '\u{3002}', ':', '\u{FF1A}', ';', '\u{FF1B}', '[', ']',
        '\u{3010}', '\u{3011}', '{', '\u{FF5B}', '}', '\u{FF5D}', '(', '\u{FF08}', ')',
        '\u{FF09}', '<', '\u{300A}', '>', '\u{300B}', '$', '\u{FFE5}', '!', '\u{FF01}', '?',
        '\u{FF1F}', '~', '\u{FF5E}', '\'', '\u{2019}', '"', '\u{201C}', '\u{201D}', '*', '/',
        '\\', '&', '%', '@', '#', '^', '\u{3001}',
    ]
}

/// The built-in punctuation list, each character as a one-character mark.
pub open spec fn default_marks() -> Seq<Seq<char>> {
    Seq::new(default_punctuation_chars().len(), |i: int| seq![default_punctuation_chars()[i]])
}

/// The built-in punctuation characters, in order.
pub fn default_punctuation() -> (marks: Vec<char>)
    ensures
        marks@ == default_punctuation_chars(),
{
    let marks = vec![
        ',', '\u{FF0C}', '.', '\u{3002}', ':', '\u{FF1A}', ';', '\u{FF1B}', '[', ']',
        '\u{3010}', '\u{3011}', '{', '\u{FF5B}', '}', '\u{FF5D}', '(', '\u{FF08}', ')',
        '\u{FF09}', '<', '\u{300A}', '>', '\u{300B}', '$', '\u{FFE5}', '!', '\u{FF01}', '?',
        '\u{FF1F}', '~', '\u{FF5E}', '\'', '\u{2019}', '"', '\u{201C}', '\u{201D}', '*', '/',
        '\\', '&', '%', '@', '#', '^', '\u{3001}',
    ];
    assert(marks@ =~= default_punctuation_chars());
    marks
}

/// What a punctuation mark is replaced by: one ASCII space when it breaks
/// tokens, nothing when it is deleted.
pub open spec fn replacer(breaker: bool) -> Seq<char> {
    if breaker {
        seq![' ']
    } else {
        Seq::empty()
    }
}

/// `s` with one mark replaced everywhere by `rep`; an empty mark is ignored.
pub open spec fn strip_mark(s: Seq<char>, mark: Seq<char>, rep: Seq<char>) -> Seq<char> {
    if mark.len() == 0 {
        s
    } else {
        replace_all(s, mark, rep)
    }
}

/// `s` with each of `marks` replaced everywhere by `rep`, one mark after the
/// other, in order.
pub open spec fn strip_marks(s: Seq<char>, marks: Seq<Seq<char>>, rep: Seq<char>) -> Seq<char>
    decreases marks.len(),
{
    if marks.len() == 0 {
        s
    } else {
        strip_marks(strip_mark(s, marks[0], rep), marks.drop_first(), rep)
    }
}

/// The text after the punctuation passes: the built-in marks first (unless
/// disabled), then the custom marks, each replaced by the replacer.
pub open spec fn punctuated(
    text: Seq<char>,
    breaker: bool,
    disable_defaults: bool,
    marks: Seq<Seq<char>>,
) -> Seq<char> {
    let rep = replacer(breaker);
    let s = if disable_defaults {
        text
    } else {
        strip_marks(text, default_marks(), rep)
    };
    strip_marks(s, marks, rep)
}

/// The words that one token contributes: its scanned words, or the token
/// itself, whole, when the scan finds nothing.
pub open spec fn token_words(t: Seq<char>) -> Seq<Seq<char>> {
    if scan_from(t, 0).len() == 0 {
        seq![t]
    } else {
        scan_from(t, 0)
    }
}

/// The words of a list of tokens, token by token, in order.
pub open spec fn words_of(tokens: Seq<Seq<char>>) -> Seq<Seq<char>>
    decreases tokens.len(),
{
    if tokens.len() == 0 {
        Seq::empty()
    } else {
        words_of(tokens.drop_last()) + token_words(tokens.last())
    }
}

/// The words detected in `text` under a configuration given by its three
/// settings: whether punctuation breaks tokens, whether the built-in list is
/// skipped, and the custom marks. Blank text has no words; otherwise the text
/// goes through the punctuation passes, the symbol-block strip, the first-run
/// collapse, the split into tokens, and the scan of each token.
pub open spec fn detect(
    text: Seq<char>,
    breaker: bool,
    disable_defaults: bool,
    marks: Seq<Seq<char>>,
) -> Seq<Seq<char>> {
    if blank(text) {
        Seq::empty()
    } else {
        words_of(
            tokens_of(
                collapse_first_run(strip_symbols(punctuated(text, breaker, disable_defaults, marks))),
            ),
        )
    }
}

} // verus!
