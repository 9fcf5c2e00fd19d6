//! Count words in mixed multilingual text.
//!
//! One heuristic counts words across scripts. Each run of Latin, Cyrillic, or
//! Malayalam letters between separators is one word. Each run of ASCII digits is
//! one word. Each CJK ideograph, Japanese kana, and Korean Hangul character is
//! its own word. A token made only of characters outside the known ranges
//! survives whole. A token that mixes a known script with an unknown one keeps
//! only the known runs and drops the unknown remainder. Scripts written without
//! spaces between words scan to one token and count as one word.
//!
//! Three entry points share one core. [`detect_words`] returns the word list,
//! and its [`WordsResult::count`] method reports how many there are.
//! [`count_words`] returns just the count. [`split_words`] returns just the
//! list. What each returns is stated over the spec function
//! [`pipeline::detect`].

use vstd::prelude::*;

pub mod chars;
mod facts;
pub mod laws;
pub mod pipeline;
pub mod ranges;
pub mod strings;
pub mod text;

use crate::chars::{blank, is_blank};
use crate::pipeline::{
    default_marks, default_punctuation, default_punctuation_chars, detect, punctuated, replacer,
    strip_marks, token_words, words_of,
};
use crate::strings::{chars_to_string, str_chars, string_views};
use crate::text::{
    char_views, collapse_first_whitespace_run, replace_chars, retain_visible, scan_token,
    split_tokens,
};

verus! {

/// Options that change how punctuation is handled. All fields default to off.
#[derive(Debug, Clone, PartialEq, Eq)]
pub struct Config {
    /// Replace punctuation with a space instead of deleting it.
    pub punctuation_as_breaker: bool,
    /// Skip the built-in punctuation list.
    pub disable_default_punctuation: bool,
    /// Extra punctuation marks to strip or break on, each a literal substring,
    /// applied after the built-in list, in order. Empty entries are ignored.
    pub punctuation: Vec<String>,
}

impl Config {
    /// The custom marks, as character sequences.
    pub open spec fn marks(&self) -> Seq<Seq<char>> {
        string_views(self.punctuation@)
    }

    /// The words that this configuration detects in `text`.
    pub open spec fn words_in(&self, text: Seq<char>) -> Seq<Seq<char>> {
        detect(text, self.punctuation_as_breaker, self.disable_default_punctuation, self.marks())
    }
}

impl Default for Config {
    /// All options off: built-in punctuation deleted, no custom marks.
    fn default() -> (config: Self)
        ensures
            !config.punctuation_as_breaker,
            !config.disable_default_punctuation,
            config.punctuation@.len() == 0,
    {
        Config {
            punctuation_as_breaker: false,
            disable_default_punctuation: false,
            punctuation: Vec::new(),
        }
    }
}

/// The result of [`detect_words`]: the detected words in input order.
#[derive(Debug, Clone, PartialEq, Eq)]
pub struct WordsResult {
    /// The detected words, in input order.
    pub words: Vec<String>,
}

impl View for WordsResult {
    type V = Seq<Seq<char>>;

    open spec fn view(&self) -> Seq<Seq<char>> {
        string_views(self.words@)
    }
}

impl Default for WordsResult {
    /// No words.
    fn default() -> (result: Self)
        ensures
            result.words@.len() == 0,
    {
        WordsResult { words: Vec::new() }
    }
}

impl WordsResult {
    /// The number of detected words: `self.words.len()`.
    #[must_use]
    pub fn count(&self) -> (n: usize)
        ensures
            n == self.words@.len(),
            n == self@.len(),
    {
        self.words.len()
    }
}

/// Detect the words in `text`. Empty input and whitespace-only input return an
/// empty result.
#[must_use]
pub fn detect_words(text: &str, config: &Config) -> (result: WordsResult)
    ensures
        result@ == config.words_in(text@),
        blank(text@) ==> result.words@.len() == 0,
{
    let chars = str_chars(text);
    if is_blank(chars.as_slice()) {
        let empty = WordsResult::default();
        assert(empty@ =~= Seq::<Seq<char>>::empty());
        return empty;
    }
    let replacer_chars: Vec<char> = if config.punctuation_as_breaker {
        vec![' ']
    } else {
        Vec::new()
    };
    let ghost rep = replacer(config.punctuation_as_breaker);
    assert(replacer_chars@ =~= rep);

    // Strip or break on punctuation. Defaults first, then custom entries, each
    // as a literal substring replaced everywhere.
    let mut words = chars;
    if !config.disable_default_punctuation {
        let defaults = default_punctuation();
        let ghost marks = default_marks();
        let n = defaults.len();
        let mut i: usize = 0;
        assert(marks.skip(0) =~= marks);
        while i < n
            invariant
                n == defaults@.len(),
                defaults@ == default_punctuation_chars(),
                marks == default_marks(),
                i <= n,
                replacer_chars@ == rep,
                strip_marks(text@, marks, rep) == strip_marks(words@, marks.skip(i as int), rep),
            decreases n - i,
        {
            let pat = vec![defaults[i]];
            assert(pat@ =~= marks[i as int]);
            assert(marks.skip(i as int).drop_first() =~= marks.skip(i + 1));
            words = replace_chars(words.as_slice(), pat.as_slice(), replacer_chars.as_slice());
            i = i + 1;
        }
        assert(marks.skip(n as int) =~= Seq::<Seq<char>>::empty());
    } else {
        assert(words@ == text@);
    }
    let ghost after_defaults = words@;
    let m = config.punctuation.len();
    let mut j: usize = 0;
    assert(config.marks().skip(0) =~= config.marks());
    while j < m
        invariant
            m == config.punctuation@.len(),
            j <= m,
            replacer_chars@ == rep,
            strip_marks(after_defaults, config.marks(), rep) == strip_marks(
                words@,
                config.marks().skip(j as int),
                rep,
            ),
        decreases m - j,
    {
        let p = str_chars(config.punctuation[j].as_str());
        assert(p@ == config.marks()[j as int]);
        assert(config.marks().skip(j as int).drop_first() =~= config.marks().skip(j + 1));
        // Skip empty entries: replacing "" would splice the replacer between
        // every character, which is never what a caller means.
        if p.len() > 0 {
            words = replace_chars(words.as_slice(), p.as_slice(), replacer_chars.as_slice());
        }
        j = j + 1;
    }
    assert(config.marks().skip(m as int) =~= Seq::<Seq<char>>::empty());
    assert(words@ == punctuated(
        text@,
        config.punctuation_as_breaker,
        config.disable_default_punctuation,
        config.marks(),
    ));

    // Drop General Punctuation and Halfwidth/Fullwidth Forms, collapse only the
    // first whitespace run, then split on the single ASCII space.
    let visible = retain_visible(words.as_slice());
    let collapsed = collapse_first_whitespace_run(visible.as_slice());
    let tokens = split_tokens(collapsed.as_slice());

    let mut detected: Vec<String> = Vec::new();
    let t = tokens.len();
    let mut k: usize = 0;
    while k < t
        invariant
            t == tokens@.len(),
            k <= t,
            string_views(detected@) == words_of(char_views(tokens@).take(k as int)),
        decreases t - k,
    {
        let token = tokens[k].as_slice();
        let carry = scan_token(token);
        let ghost before = detected@;
        assert(char_views(tokens@).take(k + 1).drop_last() =~= char_views(tokens@).take(k as int));
        if carry.len() == 0 {
            detected.push(chars_to_string(token));
            assert(string_views(detected@) =~= string_views(before) + token_words(token@));
        } else {
            let c = carry.len();
            let mut q: usize = 0;
            while q < c
                invariant
                    c == carry@.len(),
                    q <= c,
                    string_views(detected@) == string_views(before) + char_views(carry@).take(q as int),
                decreases c - q,
            {
                let ghost mid = detected@;
                detected.push(chars_to_string(carry[q].as_slice()));
                assert(char_views(carry@).take(q + 1) =~= char_views(carry@).take(q as int).push(carry@[q as int]@));
                assert(string_views(detected@) =~= string_views(mid).push(carry@[q as int]@));
                q = q + 1;
            }
            assert(char_views(carry@).take(c as int) =~= char_views(carry@));
        }
        k = k + 1;
    }
    assert(char_views(tokens@).take(t as int) =~= char_views(tokens@));
    WordsResult { words: detected }
}

/// Count the words in `text`: the number of words that [`detect_words`] finds.
#[must_use]
pub fn count_words(text: &str, config: &Config) -> (n: usize)
    ensures
        n == config.words_in(text@).len(),
{
    detect_words(text, config).count()
}

/// Split `text` into the words that [`detect_words`] finds.
#[must_use]
pub fn split_words(text: &str, config: &Config) -> (words: Vec<String>)
    ensures
        string_views(words@) == config.words_in(text@),
{
    detect_words(text, config).words
}

} // verus!
