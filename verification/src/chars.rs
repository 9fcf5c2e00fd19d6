//! Character predicates and the run searches built on them.
//!
//! Text is handled as a sequence of `char`s. The searches here find, from a
//! start position, the first character of a class, or the end of a run of a
//! class; their results are given by recursive spec functions over `Seq<char>`.

use vstd::prelude::*;

use crate::ranges::is_latin_class;

verus! {

/// True when `c` lives in a block that is always stripped: General Punctuation
/// (U+2000-U+206F) or Halfwidth and Fullwidth Forms (U+FF00-U+FFEF).
#[verifier::allow_in_spec]
pub fn is_symbol_block(c: char) -> bool
    returns
        ('\u{2000}' <= c && c <= '\u{206F}') || ('\u{FF00}' <= c && c <= '\u{FFEF}'),
{
    ('\u{2000}' <= c && c <= '\u{206F}') || ('\u{FF00}' <= c && c <= '\u{FFEF}')
}

/// True when `c` is whitespace for the empty guard, the token filter, and the
/// first-run collapse.
///
/// This is a fixed set, not the Unicode White_Space property. It includes
/// U+FEFF (byte order mark) and excludes U+0085 (next line): a BOM-only string
/// counts as zero words, and a NEL-only string survives as one token.
#[verifier::allow_in_spec]
pub fn is_break_space(c: char) -> bool
    returns
        ('\u{0009}' <= c && c <= '\u{000D}')
        || c == '\u{0020}'
        || c == '\u{00A0}'
        || c == '\u{1680}'
        || ('\u{2000}' <= c && c <= '\u{200A}')
        || c == '\u{2028}'
        || c == '\u{2029}'
        || c == '\u{202F}'
        || c == '\u{205F}'
        || c == '\u{3000}'
        || c == '\u{FEFF}',
{
    ('\u{0009}' <= c && c <= '\u{000D}')  // tab, LF, VT, FF, CR
    || c == '\u{0020}'  // space
    || c == '\u{00A0}'  // no-break space
    || c == '\u{1680}'  // ogham space mark
    || ('\u{2000}' <= c && c <= '\u{200A}')  // en quad through hair space
    || c == '\u{2028}'  // line separator
    || c == '\u{2029}'  // paragraph separator
    || c == '\u{202F}'  // narrow no-break space
    || c == '\u{205F}'  // medium mathematical space
    || c == '\u{3000}'  // ideographic space
    || c == '\u{FEFF}'  // zero width no-break space (BOM)
}

/// True when `c` is an ASCII decimal digit.
#[verifier::allow_in_spec]
pub fn is_ascii_digit(c: char) -> bool
    returns
        '0' <= c && c <= '9',
{
    '0' <= c && c <= '9'
}

/// `s` is empty or made only of break-space characters.
pub open spec fn blank(s: Seq<char>) -> bool {
    forall|i: int| 0 <= i < s.len() ==> #[trigger] is_break_space(s[i])
}

/// True when `s` is empty or made only of `is_break_space` characters.
pub fn is_blank(s: &[char]) -> (r: bool)
    ensures
        r == blank(s@),
{
    let n = s.len();
    let mut i: usize = 0;
    while i < n
        invariant
            n == s@.len(),
            i <= n,
            forall|j: int| 0 <= j < i ==> #[trigger] is_break_space(s@[j]),
        decreases n - i,
    {
        if !is_break_space(s[i]) {
            assert(!is_break_space(s@[i as int]));
            return false;
        }
        i = i + 1;
    }
    true
}

/// The classes of characters that form runs or are searched for.
#[derive(Clone, Copy, Debug, PartialEq, Eq)]
pub enum CharClass {
    /// ASCII decimal digits.
    AsciiDigit,
    /// Latin, Cyrillic, or Malayalam letters (see `ranges::is_latin_class`).
    Latin,
    /// The break-space set (see `is_break_space`).
    BreakSpace,
    /// The ASCII space alone.
    Space,
}

/// Whether `c` belongs to `class`.
pub open spec fn in_class(class: CharClass, c: char) -> bool {
    match class {
        CharClass::AsciiDigit => is_ascii_digit(c),
        CharClass::Latin => is_latin_class(c),
        CharClass::BreakSpace => is_break_space(c),
        CharClass::Space => c == ' ',
    }
}

fn class_member(class: CharClass, c: char) -> (r: bool)
    ensures
        r == in_class(class, c),
{
    match class {
        CharClass::AsciiDigit => is_ascii_digit(c),
        CharClass::Latin => is_latin_class(c),
        CharClass::BreakSpace => is_break_space(c),
        CharClass::Space => c == ' ',
    }
}

/// The end of the maximal run of `class` characters that starts at `i`: the
/// first index at or after `i` whose character is not in `class`, or the
/// length of `s`.
pub open spec fn run_end_from(s: Seq<char>, i: int, class: CharClass) -> int
    decreases s.len() - i,
{
    if i < 0 || i >= s.len() {
        i
    } else if in_class(class, s[i]) {
        run_end_from(s, i + 1, class)
    } else {
        i
    }
}

/// The first index at or after `i` whose character is in `class`, or the
/// length of `s`.
pub open spec fn find_from(s: Seq<char>, i: int, class: CharClass) -> int
    decreases s.len() - i,
{
    if i < 0 || i >= s.len() {
        s.len() as int
    } else if in_class(class, s[i]) {
        i
    } else {
        find_from(s, i + 1, class)
    }
}

/// What a run end is: it lies between `i` and the end, every character before
/// it from `i` on is in the class, and the character at it is not.
pub proof fn lemma_run_end_from(s: Seq<char>, i: int, class: CharClass)
    requires
        0 <= i <= s.len(),
    ensures
        i <= run_end_from(s, i, class) <= s.len(),
        forall|j: int| i <= j < run_end_from(s, i, class) ==> in_class(class, #[trigger] s[j]),
        run_end_from(s, i, class) < s.len() ==> !in_class(class, s[run_end_from(s, i, class)]),
        i < s.len() && in_class(class, s[i]) ==> run_end_from(s, i, class) > i,
    decreases s.len() - i,
{
    if i < s.len() && in_class(class, s[i]) {
        lemma_run_end_from(s, i + 1, class);
    }
}

/// What a found index is: it lies between `i` and the end, no character from
/// `i` up to it is in the class, and the character at it is.
pub proof fn lemma_find_from(s: Seq<char>, i: int, class: CharClass)
    requires
        0 <= i <= s.len(),
    ensures
        i <= find_from(s, i, class) <= s.len(),
        forall|j: int| i <= j < find_from(s, i, class) ==> !in_class(class, #[trigger] s[j]),
        find_from(s, i, class) < s.len() ==> in_class(class, s[find_from(s, i, class)]),
    decreases s.len() - i,
{
    if i < s.len() && !in_class(class, s[i]) {
        lemma_find_from(s, i + 1, class);
    }
}

/// Consume the maximal run of `class` characters that starts at `start` and
/// return the index one past the run.
pub fn run_end(s: &[char], start: usize, class: CharClass) -> (end: usize)
    requires
        start <= s@.len(),
    ensures
        end == run_end_from(s@, start as int, class),
{
    let n = s.len();
    let mut i = start;
    while i < n && class_member(class, s[i])
        invariant
            n == s@.len(),
            start <= i <= n,
            run_end_from(s@, start as int, class) == run_end_from(s@, i as int, class),
        decreases n - i,
    {
        i = i + 1;
    }
    i
}

/// The first index at or after `start` whose character is in `class`, or the
/// length of `s`.
pub fn find(s: &[char], start: usize, class: CharClass) -> (idx: usize)
    requires
        start <= s@.len(),
    ensures
        idx == find_from(s@, start as int, class),
{
    let n = s.len();
    let mut i = start;
    while i < n && !class_member(class, s[i])
        invariant
            n == s@.len(),
            start <= i <= n,
            find_from(s@, start as int, class) == find_from(s@, i as int, class),
        decreases n - i,
    {
        i = i + 1;
    }
    i
}

} // verus!
