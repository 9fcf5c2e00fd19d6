//! Laws of the word detector: what holds of every input, and what relates
//! calls. Each is stated over `pipeline::detect`, the spec function that
//! `detect_words`, `count_words` and `split_words` are proved to compute.

use vstd::prelude::*;

use crate::chars::{
    blank, find_from, is_ascii_digit, is_symbol_block, lemma_find_from, lemma_run_end_from,
    run_end_from, CharClass,
};
use crate::facts::{
    all_chars, lemma_collapse_chars, lemma_collapse_no_break, lemma_filter_all_pass,
    lemma_split_no_space, lemma_strip_absent, lemma_strip_marks_empty_mark, lemma_words_of_one, lemma_default_marks_single,
    lemma_keep_nonblank_words, lemma_pipeline_of_blank, lemma_punctuated_chars,
    lemma_split_chars, lemma_strip_lone_mark, lemma_strip_single_concat,
    lemma_strip_symbols_chars, lemma_words_of_chars,
};
use crate::pipeline::{
    default_marks, default_punctuation_chars, detect, punctuated, replacer, strip_mark, strip_marks,
    token_words,
    words_of,
};
use crate::ranges::{is_cjk_class, is_latin_class};
use crate::strings::string_views;
use crate::text::{collapse_first_run, replace_all, scan_from, split_from, strip_symbols, tokens_of};

verus! {

broadcast use vstd::seq_lib::group_seq_properties;

/// Blank text (empty, or only break space) has no words, whatever the
/// configuration.
pub proof fn law_blank_text_has_no_words(
    text: Seq<char>,
    breaker: bool,
    disable_defaults: bool,
    marks: Seq<Seq<char>>,
)
    requires
        blank(text),
    ensures
        detect(text, breaker, disable_defaults, marks).len() == 0,
{
}

/// The three entry points agree: a count that `count_words` returns and a list
/// that `split_words` returns for the same text and configuration are the
/// number of words and the words that `detect_words` finds, so the count is the
/// length of the list.
pub proof fn law_count_is_number_of_words(
    text: Seq<char>,
    breaker: bool,
    disable_defaults: bool,
    marks: Seq<Seq<char>>,
    count: usize,
    words: Seq<String>,
)
    requires
        count == detect(text, breaker, disable_defaults, marks).len(),
        string_views(words) == detect(text, breaker, disable_defaults, marks),
    ensures
        count == words.len(),
{
}

/// General Punctuation and Halfwidth/Fullwidth Forms are always stripped, and
/// no word is empty: under every configuration, every detected word is
/// non-empty and holds no character of those blocks.
#[verifier::spinoff_prover]
pub proof fn law_words_are_stripped_and_nonempty(
    text: Seq<char>,
    breaker: bool,
    disable_defaults: bool,
    marks: Seq<Seq<char>>,
)
    ensures
        forall|k: int|
            0 <= k < detect(text, breaker, disable_defaults, marks).len() ==> {
                let w = #[trigger] detect(text, breaker, disable_defaults, marks)[k];
                &&& w.len() > 0
                &&& forall|i: int| 0 <= i < w.len() ==> !is_symbol_block(#[trigger] w[i])
            },
{
    if !blank(text) {
        let any = |c: char| true;
        let visible = |c: char| !is_symbol_block(c);
        let s = punctuated(text, breaker, disable_defaults, marks);
        assert(all_chars(text, any));
        assert(all_chars(replacer(breaker), any));
        lemma_punctuated_chars(text, breaker, disable_defaults, marks, any);
        lemma_strip_symbols_chars(s, any);
        let v = strip_symbols(s);
        lemma_collapse_chars(v, visible);
        let c = collapse_first_run(v);
        lemma_split_chars(c, 0, visible);
        lemma_keep_nonblank_words(crate::text::split_from(c, 0), visible);
        lemma_words_of_chars(tokens_of(c), visible);
        let ws = detect(text, breaker, disable_defaults, marks);
        assert forall|k: int| 0 <= k < ws.len() implies {
            let w = #[trigger] ws[k];
            &&& w.len() > 0
            &&& forall|i: int| 0 <= i < w.len() ==> !is_symbol_block(#[trigger] w[i])
        } by {
            assert(all_chars(ws[k], visible));
            assert forall|i: int| 0 <= i < ws[k].len() implies !is_symbol_block(
                #[trigger] ws[k][i],
            ) by {
                assert(visible(ws[k][i]));
            }
        }
    }
}

/// Under the default configuration, built-in punctuation is deleted, so
/// appending a built-in mark to any text changes none of its words; in
/// particular it never raises the count.
#[verifier::spinoff_prover]
pub proof fn law_trailing_default_mark_changes_nothing(text: Seq<char>, mark: char)
    requires
        default_punctuation_chars().contains(mark),
    ensures
        detect(text + seq![mark], false, false, Seq::empty()) == detect(
            text,
            false,
            false,
            Seq::empty(),
        ),
        detect(text + seq![mark], false, false, Seq::empty()).len() <= detect(
            text,
            false,
            false,
            Seq::empty(),
        ).len(),
{
    let rep = Seq::<char>::empty();
    let marks = default_marks();
    let none = Seq::<Seq<char>>::empty();
    let longer = text + seq![mark];
    lemma_default_marks_single();
    let k = choose|k: int| 0 <= k < default_punctuation_chars().len() && default_punctuation_chars()[k] == mark;
    assert(marks[k] =~= seq![mark]);
    lemma_strip_single_concat(text, seq![mark], marks, rep);
    lemma_strip_lone_mark(mark, marks, k);
    assert(strip_marks(longer, marks, rep) =~= strip_marks(text, marks, rep));
    assert(punctuated(longer, false, false, none) == punctuated(text, false, false, none));
    if blank(longer) {
        assert(blank(text)) by {
            assert forall|i: int| 0 <= i < text.len() implies #[trigger] crate::chars::is_break_space(
                text[i],
            ) by {
                assert(longer[i] == text[i]);
            }
        }
    } else if blank(text) {
        let p = |c: char| crate::chars::is_break_space(c);
        assert(all_chars(text, p));
        assert(all_chars(replacer(false), p));
        lemma_punctuated_chars(text, false, false, none, p);
        let s = punctuated(text, false, false, none);
        assert(blank(s)) by {
            assert forall|i: int| 0 <= i < s.len() implies #[trigger] crate::chars::is_break_space(
                s[i],
            ) by {
                assert(p(s[i]));
            }
        }
        lemma_pipeline_of_blank(s);
    }
}

/// Every character that the scan classifies lies in the Basic Multilingual
/// Plane: an astral ideograph or emoji is never a digit, a letter of a run, or
/// a CJK word.
pub proof fn law_classified_chars_are_in_bmp(c: char)
    requires
        is_ascii_digit(c) || is_latin_class(c) || is_cjk_class(c),
    ensures
        c < '\u{10000}',
{
}

/// The scan finds nothing in a token whose characters are none of ASCII
/// digits, run letters, or CJK/kana/Hangul characters, from any position.
proof fn lemma_scan_of_unmatched(t: Seq<char>, i: int)
    requires
        forall|j: int|
            0 <= j < t.len() ==> !is_ascii_digit(#[trigger] t[j]) && !is_latin_class(t[j])
                && !is_cjk_class(t[j]),
    ensures
        scan_from(t, i).len() == 0,
    decreases t.len() - i,
{
    if 0 <= i < t.len() {
        lemma_scan_of_unmatched(t, i + 1);
    }
}

/// A token made only of characters outside the known blocks survives whole:
/// it is its own one word.
pub proof fn law_unmatched_token_survives_whole(t: Seq<char>)
    requires
        forall|j: int|
            0 <= j < t.len() ==> !is_ascii_digit(#[trigger] t[j]) && !is_latin_class(t[j])
                && !is_cjk_class(t[j]),
    ensures
        token_words(t) == seq![t],
{
    lemma_scan_of_unmatched(t, 0);
}

/// Empty custom marks are ignored: inserting one anywhere among the custom
/// marks changes no word, whatever the text and the other settings.
pub proof fn law_empty_custom_mark_is_ignored(
    text: Seq<char>,
    breaker: bool,
    disable_defaults: bool,
    marks: Seq<Seq<char>>,
    k: int,
)
    requires
        0 <= k <= marks.len(),
    ensures
        detect(text, breaker, disable_defaults, marks.insert(k, Seq::empty())) == detect(
            text,
            breaker,
            disable_defaults,
            marks,
        ),
{
    let rep = replacer(breaker);
    let s = if disable_defaults {
        text
    } else {
        strip_marks(text, default_marks(), rep)
    };
    lemma_strip_marks_empty_mark(s, marks, k, rep);
}

/// The scan of a token made only of CJK/kana/Hangul characters yields each
/// character, from `i` on, as a word of its own.
proof fn lemma_scan_of_cjk(t: Seq<char>, i: int)
    requires
        forall|j: int| i <= j < t.len() ==> is_cjk_class(#[trigger] t[j]),
        0 <= i <= t.len(),
    ensures
        scan_from(t, i) == Seq::new((t.len() - i) as nat, |j: int| seq![t[i + j]]),
    decreases t.len() - i,
{
    if i < t.len() {
        assert(is_cjk_class(t[i]));
        assert(!is_ascii_digit(t[i]) && !is_latin_class(t[i]));
        lemma_scan_of_cjk(t, i + 1);
        assert(scan_from(t, i) =~= Seq::new((t.len() - i) as nat, |j: int| seq![t[i + j]]));
    } else {
        assert(scan_from(t, i) =~= Seq::new((t.len() - i) as nat, |j: int| seq![t[i + j]]));
    }
}

/// Under the default configuration, each CJK ideograph, kana, and Hangul
/// character is its own word: a text made only of such characters, none of
/// them built-in punctuation, has one word per character, in order.
#[verifier::spinoff_prover]
pub proof fn law_each_cjk_char_is_a_word(text: Seq<char>)
    requires
        forall|i: int|
            0 <= i < text.len() ==> is_cjk_class(#[trigger] text[i])
                && !default_punctuation_chars().contains(text[i]),
    ensures
        detect(text, false, false, Seq::empty()) == Seq::new(text.len(), |i: int| seq![text[i]]),
{
    let none = Seq::<Seq<char>>::empty();
    let rep = Seq::<char>::empty();
    if text.len() == 0 {
        assert(blank(text));
        assert(Seq::new(text.len(), |i: int| seq![text[i]]) =~= Seq::<Seq<char>>::empty());
    } else {
        assert(is_cjk_class(text[0]));
        assert(!crate::chars::is_break_space(text[0]));
        assert(!blank(text));
        let marks = default_marks();
        lemma_default_marks_single();
        assert forall|k: int, i: int| 0 <= k < marks.len() && 0 <= i < text.len() implies #[trigger] text[i]
            != (#[trigger] marks[k])[0] by {
            assert(marks[k][0] == default_punctuation_chars()[k]);
            if text[i] == marks[k][0] {
                assert(default_punctuation_chars().contains(text[i]));
            }
        }
        lemma_strip_absent(text, marks, rep);
        assert(punctuated(text, false, false, none) == text);
        let visible = |c: char| !is_symbol_block(c);
        assert forall|i: int| 0 <= i < text.len() implies visible(#[trigger] text[i]) by {
            assert(is_cjk_class(text[i]));
        }
        lemma_filter_all_pass(text, visible);
        assert(strip_symbols(text) == text);
        assert forall|i: int| 0 <= i < text.len() implies !crate::chars::is_break_space(
            #[trigger] text[i],
        ) && text[i] != ' ' by {
            assert(is_cjk_class(text[i]));
        }
        lemma_collapse_no_break(text);
        lemma_split_no_space(text);
        let nonblank = |t: Seq<char>| !blank(t);
        assert(nonblank(seq![text][0]));
        lemma_filter_all_pass(seq![text], nonblank);
        assert(tokens_of(text) == seq![text]);
        lemma_words_of_one(text);
        lemma_scan_of_cjk(text, 0);
        assert(Seq::new((text.len() - 0) as nat, |j: int| seq![text[0 + j]]) =~= Seq::new(
            text.len(),
            |i: int| seq![text[i]],
        ));
    }
}

/// An ASCII letter.
pub open spec fn ascii_letter(c: char) -> bool {
    ('a' <= c && c <= 'z') || ('A' <= c && c <= 'Z')
}

/// The runs joined by single ASCII spaces.
pub open spec fn join_with_spaces(runs: Seq<Seq<char>>) -> Seq<char>
    decreases runs.len(),
{
    if runs.len() == 0 {
        Seq::empty()
    } else if runs.len() == 1 {
        runs[0]
    } else {
        runs[0] + seq![' '] + join_with_spaces(runs.drop_first())
    }
}

/// Nonempty runs of ASCII letters.
pub open spec fn letter_runs(runs: Seq<Seq<char>>) -> bool {
    forall|k: int|
        0 <= k < runs.len() ==> (#[trigger] runs[k]).len() > 0 && forall|i: int|
            0 <= i < runs[k].len() ==> ascii_letter(#[trigger] runs[k][i])
}

/// No built-in punctuation mark is an ASCII letter or the ASCII space.
proof fn lemma_defaults_are_not_letters_or_space()
    ensures
        forall|k: int|
            0 <= k < default_punctuation_chars().len() ==> !ascii_letter(
                #[trigger] default_punctuation_chars()[k],
            ) && default_punctuation_chars()[k] != ' ',
{
}

/// The runs that remain after dropping the first are runs too.
proof fn lemma_letter_runs_rest(runs: Seq<Seq<char>>)
    requires
        letter_runs(runs),
        runs.len() > 0,
    ensures
        letter_runs(runs.drop_first()),
{
    assert forall|k: int| 0 <= k < runs.drop_first().len() implies (
    #[trigger] runs.drop_first()[k]).len() > 0 && forall|i: int|
        0 <= i < runs.drop_first()[k].len() ==> ascii_letter(
            #[trigger] runs.drop_first()[k][i],
        ) by {
        assert(runs.drop_first()[k] == runs[k + 1]);
    }
}

/// A join of letter runs is made of letters and spaces, and begins with the
/// first letter of the first run.
proof fn lemma_join_chars(runs: Seq<Seq<char>>)
    requires
        letter_runs(runs),
        runs.len() > 0,
    ensures
        forall|i: int|
            0 <= i < join_with_spaces(runs).len() ==> ascii_letter(
                #[trigger] join_with_spaces(runs)[i],
            ) || join_with_spaces(runs)[i] == ' ',
        join_with_spaces(runs).len() > 0,
        join_with_spaces(runs)[0] == runs[0][0],
    decreases runs.len(),
{
    let r0 = runs[0];
    assert(r0.len() > 0);
    if runs.len() > 1 {
        let rest = runs.drop_first();
        lemma_letter_runs_rest(runs);
        lemma_join_chars(rest);
        let j = join_with_spaces(runs);
        let jr = join_with_spaces(rest);
        assert(j == r0 + seq![' '] + jr);
        assert forall|i: int| 0 <= i < j.len() implies ascii_letter(#[trigger] j[i]) || j[i] == ' ' by {
            if i < r0.len() {
                assert(j[i] == r0[i]);
            } else if i == r0.len() {
                assert(j[i] == ' ');
            } else {
                assert(j[i] == jr[i - r0.len() - 1]);
            }
        }
    } else {
        assert(join_with_spaces(runs) == r0);
    }
}

/// Finding in a text with a prefix, from past the prefix, is finding in the
/// text, shifted by the prefix.
proof fn lemma_find_shift(p: Seq<char>, s: Seq<char>, i: int, class: CharClass)
    requires
        0 <= i <= s.len(),
    ensures
        find_from(p + s, p.len() + i, class) == p.len() + find_from(s, i, class),
    decreases s.len() - i,
{
    if i < s.len() {
        assert((p + s)[p.len() + i] == s[i]);
        lemma_find_shift(p, s, i + 1, class);
    }
}

/// Splitting a text with a prefix, from past the prefix, is splitting the
/// text.
proof fn lemma_split_shift(p: Seq<char>, s: Seq<char>, i: int)
    requires
        0 <= i <= s.len(),
    ensures
        split_from(p + s, p.len() + i) == split_from(s, i),
    decreases s.len() - i,
{
    let ps = p + s;
    lemma_find_shift(p, s, i, CharClass::Space);
    lemma_find_from(s, i, CharClass::Space);
    let k = find_from(s, i, CharClass::Space);
    if k >= s.len() {
        assert(ps.subrange(p.len() + i, ps.len() as int) =~= s.subrange(i, s.len() as int));
    } else {
        assert(ps.subrange(p.len() + i, p.len() + k) =~= s.subrange(i, k));
        lemma_split_shift(p, s, k + 1);
    }
}

/// Runs joined by single spaces split back into the runs.
proof fn lemma_split_join(runs: Seq<Seq<char>>)
    requires
        letter_runs(runs),
        runs.len() > 0,
    ensures
        split_from(join_with_spaces(runs), 0) == runs,
    decreases runs.len(),
{
    let r0 = runs[0];
    lemma_join_chars(runs);
    if runs.len() == 1 {
        assert(join_with_spaces(runs) == r0);
        assert forall|i: int| 0 <= i < r0.len() implies #[trigger] r0[i] != ' ' by {
            assert(ascii_letter(runs[0][i]));
        }
        crate::facts::lemma_split_no_space(r0);
        assert(runs =~= seq![r0]);
    } else {
        let rest = runs.drop_first();
        lemma_letter_runs_rest(runs);
        lemma_split_join(rest);
        let head = r0 + seq![' '];
        let jr = join_with_spaces(rest);
        let j = join_with_spaces(runs);
        assert(j == head + jr);
        lemma_find_from(j, 0, CharClass::Space);
        let f = find_from(j, 0, CharClass::Space);
        assert(j[r0.len() as int] == ' ');
        assert forall|i: int| 0 <= i < r0.len() implies #[trigger] j[i] != ' ' by {
            assert(j[i] == r0[i]);
            assert(ascii_letter(runs[0][i]));
        }
        assert(f == r0.len());
        assert(j.subrange(0, f) =~= r0);
        lemma_split_shift(head, jr, 0);
        assert(split_from(j, 0) =~= seq![r0] + rest);
        assert(seq![r0] + rest =~= runs);
    }
}

/// Runs joined by single spaces are not changed by the first-run collapse: the
/// first run of break space is the single space after the first run.
proof fn lemma_collapse_join(runs: Seq<Seq<char>>)
    requires
        letter_runs(runs),
        runs.len() > 0,
    ensures
        collapse_first_run(join_with_spaces(runs)) == join_with_spaces(runs),
{
    lemma_join_chars(runs);
    let j = join_with_spaces(runs);
    let r0 = runs[0];
    if runs.len() == 1 {
        assert forall|i: int| 0 <= i < j.len() implies !crate::chars::is_break_space(#[trigger] j[i]) by {
            assert(j[i] == runs[0][i]);
            assert(ascii_letter(runs[0][i]));
        }
        crate::facts::lemma_collapse_no_break(j);
    } else {
        let rest = runs.drop_first();
        lemma_letter_runs_rest(runs);
        lemma_join_chars(rest);
        let jr = join_with_spaces(rest);
        assert(j == r0 + seq![' '] + jr);
        lemma_find_from(j, 0, CharClass::BreakSpace);
        let f = find_from(j, 0, CharClass::BreakSpace);
        assert(j[r0.len() as int] == ' ');
        assert forall|i: int| 0 <= i < r0.len() implies !crate::chars::is_break_space(#[trigger] j[i]) by {
            assert(j[i] == r0[i]);
            assert(ascii_letter(runs[0][i]));
        }
        assert(f == r0.len());
        lemma_run_end_from(j, f, CharClass::BreakSpace);
        assert(j[f + 1] == jr[0]);
        assert(jr[0] == rest[0][0]);
        assert(ascii_letter(rest[0][0]));
        assert(run_end_from(j, f, CharClass::BreakSpace) == f + 1);
        assert(j.take(f) + seq![' '] + j.skip(f + 1) =~= j);
    }
}

/// A nonempty run of ASCII letters is one word.
proof fn lemma_letter_run_is_one_word(run: Seq<char>)
    requires
        run.len() > 0,
        forall|i: int| 0 <= i < run.len() ==> ascii_letter(#[trigger] run[i]),
    ensures
        token_words(run) == seq![run],
{
    assert(ascii_letter(run[0]));
    lemma_run_end_from(run, 0, CharClass::Latin);
    let e = run_end_from(run, 0, CharClass::Latin);
    if e < run.len() {
        assert(ascii_letter(run[e]));
    }
    assert(e == run.len());
    assert(run.subrange(0, e) =~= run);
    assert(!is_ascii_digit(run[0]) && is_latin_class(run[0]));
    assert(scan_from(run, e) == Seq::<Seq<char>>::empty());
    assert(scan_from(run, 0) == seq![run.subrange(0, e)] + scan_from(run, e));
    assert(scan_from(run, 0) =~= seq![run]);
}

/// The words of letter runs taken as tokens are the runs.
proof fn lemma_words_of_letter_runs(runs: Seq<Seq<char>>)
    requires
        letter_runs(runs),
    ensures
        words_of(runs) == runs,
    decreases runs.len(),
{
    if runs.len() > 0 {
        let init = runs.drop_last();
        assert(letter_runs(init)) by {
            assert forall|k: int| 0 <= k < init.len() implies (#[trigger] init[k]).len() > 0
                && forall|i: int| 0 <= i < init[k].len() ==> ascii_letter(#[trigger] init[k][i]) by {
                assert(init[k] == runs[k]);
            }
        }
        lemma_words_of_letter_runs(init);
        let last = runs[runs.len() - 1];
        assert(last.len() > 0);
        lemma_letter_run_is_one_word(last);
        assert(init + seq![last] =~= runs);
    }
}

/// Under the default configuration, nonempty runs of ASCII letters joined by
/// single spaces split into exactly those runs: one word per run.
#[verifier::spinoff_prover]
pub proof fn law_letter_runs_split_at_spaces(runs: Seq<Seq<char>>)
    requires
        runs.len() > 0,
        letter_runs(runs),
    ensures
        detect(join_with_spaces(runs), false, false, Seq::empty()) == runs,
{
    let j = join_with_spaces(runs);
    let none = Seq::<Seq<char>>::empty();
    let rep = Seq::<char>::empty();
    lemma_join_chars(runs);
    assert(ascii_letter(runs[0][0]));
    assert(!crate::chars::is_break_space(j[0]));
    assert(!blank(j));
    let marks = default_marks();
    lemma_default_marks_single();
    lemma_defaults_are_not_letters_or_space();
    assert forall|k: int, i: int| 0 <= k < marks.len() && 0 <= i < j.len() implies #[trigger] j[i]
        != (#[trigger] marks[k])[0] by {
        assert(marks[k][0] == default_punctuation_chars()[k]);
    }
    lemma_strip_absent(j, marks, rep);
    assert(punctuated(j, false, false, none) == j);
    let visible = |c: char| !is_symbol_block(c);
    assert forall|i: int| 0 <= i < j.len() implies visible(#[trigger] j[i]) by {
        assert(ascii_letter(j[i]) || j[i] == ' ');
    }
    lemma_filter_all_pass(j, visible);
    lemma_collapse_join(runs);
    lemma_split_join(runs);
    let nonblank = |t: Seq<char>| !blank(t);
    assert forall|k: int| 0 <= k < runs.len() implies nonblank(#[trigger] runs[k]) by {
        assert(runs[k].len() > 0);
        assert(ascii_letter(runs[k][0]));
        assert(!crate::chars::is_break_space(runs[k][0]));
    }
    lemma_filter_all_pass(runs, nonblank);
    assert(tokens_of(j) == runs);
    lemma_words_of_letter_runs(runs);
}

// ---------------------------------------------------------------------------
// Plain text through the passes
// ---------------------------------------------------------------------------

/// No built-in punctuation mark is a digit, a run letter, or break space.
proof fn lemma_defaults_are_plain()
    ensures
        forall|k: int|
            0 <= k < default_punctuation_chars().len() ==> !is_latin_class(
                #[trigger] default_punctuation_chars()[k],
            ) && !is_ascii_digit(default_punctuation_chars()[k])
                && !crate::chars::is_break_space(default_punctuation_chars()[k]),
{
}

/// A character that is not a built-in mark.
pub open spec fn not_default_mark(c: char) -> bool {
    !default_punctuation_chars().contains(c)
}

/// Digits and run letters are never built-in marks.
proof fn lemma_classified_not_default(c: char)
    requires
        is_latin_class(c) || is_ascii_digit(c),
    ensures
        not_default_mark(c),
{
    lemma_defaults_are_plain();
    if default_punctuation_chars().contains(c) {
        let k = choose|k: int|
            0 <= k < default_punctuation_chars().len() && default_punctuation_chars()[k] == c;
        assert(!is_latin_class(default_punctuation_chars()[k]));
    }
}

/// Under the default configuration, a text with no built-in mark and no
/// symbol-block character comes out of the punctuation and symbol passes as it
/// went in.
proof fn lemma_plain_passes(t: Seq<char>)
    requires
        forall|i: int| 0 <= i < t.len() ==> not_default_mark(#[trigger] t[i]) && !is_symbol_block(t[i]),
    ensures
        strip_symbols(punctuated(t, false, false, Seq::empty())) == t,
{
    let marks = default_marks();
    let rep = Seq::<char>::empty();
    lemma_default_marks_single();
    assert forall|k: int, i: int| 0 <= k < marks.len() && 0 <= i < t.len() implies #[trigger] t[i]
        != (#[trigger] marks[k])[0] by {
        assert(marks[k][0] == default_punctuation_chars()[k]);
        if t[i] == marks[k][0] {
            assert(default_punctuation_chars().contains(t[i]));
            assert(not_default_mark(t[i]));
        }
    }
    lemma_strip_absent(t, marks, rep);
    let visible = |c: char| !is_symbol_block(c);
    assert forall|i: int| 0 <= i < t.len() implies visible(#[trigger] t[i]) by {
        assert(!is_symbol_block(t[i]));
    }
    lemma_filter_all_pass(t, visible);
}

/// Under the default configuration, a nonempty text with no built-in mark, no
/// symbol-block character and no break space is one token.
proof fn lemma_detect_one_token(t: Seq<char>)
    requires
        t.len() > 0,
        forall|i: int|
            0 <= i < t.len() ==> not_default_mark(#[trigger] t[i]) && !is_symbol_block(t[i])
                && !crate::chars::is_break_space(t[i]),
    ensures
        detect(t, false, false, Seq::empty()) == token_words(t),
{
    lemma_plain_passes(t);
    assert(!crate::chars::is_break_space(t[0]));
    assert(!blank(t));
    assert forall|i: int| 0 <= i < t.len() implies !crate::chars::is_break_space(#[trigger] t[i])
        && t[i] != ' ' by {
        assert(!crate::chars::is_break_space(t[i]));
    }
    lemma_collapse_no_break(t);
    lemma_split_no_space(t);
    let nonblank = |x: Seq<char>| !blank(x);
    assert(nonblank(seq![t][0]));
    lemma_filter_all_pass(seq![t], nonblank);
    assert(tokens_of(t) == seq![t]);
    lemma_words_of_one(t);
}

// ---------------------------------------------------------------------------
// Runs and single characters in a token
// ---------------------------------------------------------------------------

/// A nonempty token made only of characters of one run class is one word: a
/// maximal run is never cut.
proof fn lemma_run_token(t: Seq<char>, class: CharClass)
    requires
        t.len() > 0,
        class == CharClass::Latin || class == CharClass::AsciiDigit,
        forall|i: int| 0 <= i < t.len() ==> crate::chars::in_class(class, #[trigger] t[i]),
    ensures
        token_words(t) == seq![t],
{
    assert(crate::chars::in_class(class, t[0]));
    lemma_run_end_from(t, 0, class);
    let e = run_end_from(t, 0, class);
    if e < t.len() {
        assert(crate::chars::in_class(class, t[e]));
    }
    assert(e == t.len());
    assert(t.subrange(0, e) =~= t);
    assert(scan_from(t, e) == Seq::<Seq<char>>::empty());
    assert(scan_from(t, 0) =~= seq![t]);
}

/// A nonempty token made only of Latin, Cyrillic, or Malayalam letters is one
/// word, and so is such a text under the default configuration.
pub proof fn law_letter_token_is_one_word(t: Seq<char>)
    requires
        t.len() > 0,
        forall|i: int| 0 <= i < t.len() ==> is_latin_class(#[trigger] t[i]),
    ensures
        token_words(t) == seq![t],
        detect(t, false, false, Seq::empty()) == seq![t],
{
    lemma_run_token(t, CharClass::Latin);
    assert forall|i: int| 0 <= i < t.len() implies not_default_mark(#[trigger] t[i])
        && !is_symbol_block(t[i]) && !crate::chars::is_break_space(t[i]) by {
        assert(is_latin_class(t[i]));
        lemma_classified_not_default(t[i]);
    }
    lemma_detect_one_token(t);
}

/// A nonempty token made only of ASCII digits is one word, and so is such a
/// text under the default configuration.
pub proof fn law_digit_token_is_one_word(t: Seq<char>)
    requires
        t.len() > 0,
        forall|i: int| 0 <= i < t.len() ==> is_ascii_digit(#[trigger] t[i]),
    ensures
        token_words(t) == seq![t],
        detect(t, false, false, Seq::empty()) == seq![t],
{
    lemma_run_token(t, CharClass::AsciiDigit);
    assert forall|i: int| 0 <= i < t.len() implies not_default_mark(#[trigger] t[i])
        && !is_symbol_block(t[i]) && !crate::chars::is_break_space(t[i]) by {
        assert(is_ascii_digit(t[i]));
        lemma_classified_not_default(t[i]);
    }
    lemma_detect_one_token(t);
}

/// A run of letters or of digits followed, in the same token, by CJK/kana/Hangul
/// characters: the run is one word and each following character is a word of
/// its own; the run never takes them in. Under the default configuration the
/// same holds of such a text when none of the following characters is
/// built-in punctuation.
#[verifier::spinoff_prover]
pub proof fn law_run_then_cjk_chars(r: Seq<char>, cs: Seq<char>)
    requires
        r.len() > 0,
        (forall|i: int| 0 <= i < r.len() ==> is_latin_class(#[trigger] r[i])) || (forall|i: int|
            0 <= i < r.len() ==> is_ascii_digit(#[trigger] r[i])),
        forall|i: int| 0 <= i < cs.len() ==> is_cjk_class(#[trigger] cs[i]),
    ensures
        token_words(r + cs) == seq![r] + Seq::new(cs.len(), |i: int| seq![cs[i]]),
        (forall|i: int| 0 <= i < cs.len() ==> not_default_mark(#[trigger] cs[i])) ==> detect(
            r + cs,
            false,
            false,
            Seq::empty(),
        ) == seq![r] + Seq::new(cs.len(), |i: int| seq![cs[i]]),
{
    let t = r + cs;
    let class = if is_latin_class(r[0]) {
        CharClass::Latin
    } else {
        CharClass::AsciiDigit
    };
    assert forall|i: int| 0 <= i < r.len() implies crate::chars::in_class(class, #[trigger] r[i]) by {
        assert(is_latin_class(r[i]) || is_ascii_digit(r[i]));
        if is_latin_class(r[0]) {
            assert(!is_ascii_digit(r[0]));
            assert(is_latin_class(r[i]));
        } else {
            assert(is_ascii_digit(r[0]));
            assert(is_ascii_digit(r[i]));
        }
    }
    assert(t[0] == r[0]);
    lemma_run_end_from(t, 0, class);
    let e = run_end_from(t, 0, class);
    assert forall|j: int| 0 <= j < r.len() implies crate::chars::in_class(class, #[trigger] t[j]) by {
        assert(t[j] == r[j]);
    }
    assert(e >= r.len()) by {
        if e < r.len() {
            assert(t[e] == r[e]);
        }
    }
    if r.len() < t.len() {
        assert(t[r.len() as int] == cs[0]);
        assert(is_cjk_class(cs[0]));
    }
    assert(e == r.len());
    assert(forall|j: int| r.len() <= j < t.len() ==> is_cjk_class(#[trigger] t[j])) by {
        assert forall|j: int| r.len() <= j < t.len() implies is_cjk_class(#[trigger] t[j]) by {
            assert(t[j] == cs[j - r.len()]);
        }
    }
    lemma_scan_of_cjk(t, r.len() as int);
    assert(is_latin_class(t[0]) || is_ascii_digit(t[0]));
    assert(t.subrange(0, e) =~= r);
    assert(scan_from(t, 0) == seq![t.subrange(0, e)] + scan_from(t, e));
    let singles = Seq::new(cs.len(), |i: int| seq![cs[i]]);
    assert(scan_from(t, e) =~= singles);
    assert(scan_from(t, 0) =~= seq![r] + singles);
    assert(token_words(t) == seq![r] + singles);
    if forall|i: int| 0 <= i < cs.len() ==> not_default_mark(#[trigger] cs[i]) {
        assert forall|i: int| 0 <= i < t.len() implies not_default_mark(#[trigger] t[i])
            && !is_symbol_block(t[i]) && !crate::chars::is_break_space(t[i]) by {
            if i < r.len() {
                assert(t[i] == r[i]);
                assert(is_latin_class(r[i]) || is_ascii_digit(r[i]));
                lemma_classified_not_default(t[i]);
            } else {
                assert(t[i] == cs[i - r.len()]);
                assert(is_cjk_class(cs[i - r.len()]));
            }
        }
        lemma_detect_one_token(t);
    }
}

/// The shape of a word: a run of ASCII digits, a run of Latin/Cyrillic/
/// Malayalam letters, a single CJK/kana/Hangul character, or a token kept whole
/// that holds none of these.
pub open spec fn word_shape(w: Seq<char>) -> bool {
    ||| w.len() > 0 && forall|i: int| 0 <= i < w.len() ==> is_ascii_digit(#[trigger] w[i])
    ||| w.len() > 0 && forall|i: int| 0 <= i < w.len() ==> is_latin_class(#[trigger] w[i])
    ||| w.len() == 1 && is_cjk_class(w[0])
    ||| forall|i: int|
        0 <= i < w.len() ==> !is_ascii_digit(#[trigger] w[i]) && !is_latin_class(w[i])
            && !is_cjk_class(w[i])
}

/// When the scan of `t` from `i` finds nothing, no character from `i` on is
/// classified.
proof fn lemma_empty_scan_unmatched(t: Seq<char>, i: int)
    requires
        0 <= i <= t.len(),
        scan_from(t, i).len() == 0,
    ensures
        forall|j: int|
            i <= j < t.len() ==> !is_ascii_digit(#[trigger] t[j]) && !is_latin_class(t[j])
                && !is_cjk_class(t[j]),
    decreases t.len() - i,
{
    if i < t.len() {
        if is_ascii_digit(t[i]) || is_latin_class(t[i]) || is_cjk_class(t[i]) {
            if is_ascii_digit(t[i]) {
                lemma_run_end_from(t, i, CharClass::AsciiDigit);
            } else if is_latin_class(t[i]) {
                lemma_run_end_from(t, i, CharClass::Latin);
            }
            assert(scan_from(t, i).len() > 0);
        } else {
            lemma_empty_scan_unmatched(t, i + 1);
        }
    }
}

/// Every word the scan yields has a word shape.
#[verifier::spinoff_prover]
proof fn lemma_scan_shape(t: Seq<char>, i: int)
    requires
        0 <= i <= t.len(),
    ensures
        forall|k: int| 0 <= k < scan_from(t, i).len() ==> word_shape(#[trigger] scan_from(t, i)[k]),
    decreases t.len() - i,
{
    if i < t.len() {
        let head: Seq<Seq<char>>;
        let next: int;
        if is_ascii_digit(t[i]) {
            lemma_run_end_from(t, i, CharClass::AsciiDigit);
            next = run_end_from(t, i, CharClass::AsciiDigit);
            head = seq![t.subrange(i, next)];
            assert(word_shape(t.subrange(i, next))) by {
                assert forall|j: int| 0 <= j < next - i implies is_ascii_digit(
                    #[trigger] t.subrange(i, next)[j],
                ) by {
                    assert(t.subrange(i, next)[j] == t[i + j]);
                    assert(crate::chars::in_class(CharClass::AsciiDigit, t[i + j]));
                }
            }
        } else if is_latin_class(t[i]) {
            lemma_run_end_from(t, i, CharClass::Latin);
            next = run_end_from(t, i, CharClass::Latin);
            head = seq![t.subrange(i, next)];
            assert(word_shape(t.subrange(i, next))) by {
                assert forall|j: int| 0 <= j < next - i implies is_latin_class(
                    #[trigger] t.subrange(i, next)[j],
                ) by {
                    assert(t.subrange(i, next)[j] == t[i + j]);
                    assert(crate::chars::in_class(CharClass::Latin, t[i + j]));
                }
            }
        } else if is_cjk_class(t[i]) {
            next = i + 1;
            head = seq![seq![t[i]]];
            assert(word_shape(seq![t[i]])) by {
                assert(seq![t[i]][0] == t[i]);
            }
        } else {
            next = i + 1;
            head = Seq::empty();
        }
        lemma_scan_shape(t, next);
        let rest = scan_from(t, next);
        assert(scan_from(t, i) =~= head + rest);
        assert forall|k: int| 0 <= k < head.len() + rest.len() implies word_shape(
            #[trigger] (head + rest)[k],
        ) by {
            if k >= head.len() {
                assert((head + rest)[k] == rest[k - head.len()]);
            }
        }
    }
}

/// Every word of a token has a word shape.
proof fn lemma_token_words_shape(t: Seq<char>)
    ensures
        forall|k: int| 0 <= k < token_words(t).len() ==> word_shape(#[trigger] token_words(t)[k]),
{
    lemma_scan_shape(t, 0);
    if scan_from(t, 0).len() == 0 {
        lemma_empty_scan_unmatched(t, 0);
        assert(token_words(t) =~= seq![t]);
        assert(word_shape(t));
    }
}

proof fn lemma_words_of_shape(tokens: Seq<Seq<char>>)
    ensures
        forall|k: int| 0 <= k < words_of(tokens).len() ==> word_shape(#[trigger] words_of(tokens)[k]),
    decreases tokens.len(),
{
    if tokens.len() > 0 {
        lemma_words_of_shape(tokens.drop_last());
        lemma_token_words_shape(tokens.last());
        let w = words_of(tokens.drop_last());
        let tw = token_words(tokens.last());
        assert(words_of(tokens) == w + tw);
        assert forall|k: int| 0 <= k < w.len() + tw.len() implies word_shape(#[trigger] (w + tw)[k]) by {
            if k >= w.len() {
                assert((w + tw)[k] == tw[k - w.len()]);
            } else {
                assert((w + tw)[k] == w[k]);
            }
        }
    }
}

/// Under every configuration, each detected word is a run of ASCII digits, a
/// run of Latin/Cyrillic/Malayalam letters, a single CJK/kana/Hangul character,
/// or a token kept whole that holds no digit, run letter or CJK character. In
/// particular a word longer than one character never holds a CJK/kana/Hangul
/// character, and digits never share a word with letters.
#[verifier::spinoff_prover]
pub proof fn law_word_shapes(
    text: Seq<char>,
    breaker: bool,
    disable_defaults: bool,
    marks: Seq<Seq<char>>,
)
    ensures
        forall|k: int|
            0 <= k < detect(text, breaker, disable_defaults, marks).len() ==> word_shape(
                #[trigger] detect(text, breaker, disable_defaults, marks)[k],
            ),
        forall|k: int, i: int|
            0 <= k < detect(text, breaker, disable_defaults, marks).len()
                && detect(text, breaker, disable_defaults, marks)[k].len() > 1
                && 0 <= i < detect(text, breaker, disable_defaults, marks)[k].len() ==> !is_cjk_class(
                #[trigger] detect(text, breaker, disable_defaults, marks)[k][i],
            ),
{
    let ws = detect(text, breaker, disable_defaults, marks);
    if !blank(text) {
        lemma_words_of_shape(
            tokens_of(
                collapse_first_run(strip_symbols(punctuated(text, breaker, disable_defaults, marks))),
            ),
        );
    }
    assert forall|k: int, i: int| 0 <= k < ws.len() && ws[k].len() > 1 && 0 <= i < ws[k].len() implies !is_cjk_class(
        #[trigger] ws[k][i],
    ) by {
        assert(word_shape(ws[k]));
        if is_cjk_class(ws[k][i]) {
            assert(!is_ascii_digit(ws[k][i]) && !is_latin_class(ws[k][i]));
        }
    }
}

// ---------------------------------------------------------------------------
// The first whitespace run
// ---------------------------------------------------------------------------

/// The collapse finds its run with the break-space set: when the first break
/// space of a text is a single one (any member of the set: space, tab, line
/// feed, ...), it becomes one ASCII space and nothing else changes.
pub proof fn law_collapse_single_break(a: Seq<char>, w: char, b: Seq<char>)
    requires
        forall|i: int| 0 <= i < a.len() ==> !crate::chars::is_break_space(#[trigger] a[i]),
        crate::chars::is_break_space(w),
        b.len() > 0 ==> !crate::chars::is_break_space(b[0]),
    ensures
        collapse_first_run(a + seq![w] + b) == a + seq![' '] + b,
{
    let s = a + seq![w] + b;
    let n = a.len() as int;
    lemma_find_from(s, 0, CharClass::BreakSpace);
    let f = find_from(s, 0, CharClass::BreakSpace);
    assert(s[n] == w);
    assert forall|i: int| 0 <= i < n implies !crate::chars::is_break_space(#[trigger] s[i]) by {
        assert(s[i] == a[i]);
    }
    assert(f == n);
    lemma_run_end_from(s, n, CharClass::BreakSpace);
    let e = run_end_from(s, n, CharClass::BreakSpace);
    if n + 1 < s.len() {
        assert(s[n + 1] == b[0]);
    }
    assert(e == n + 1);
    assert(s.take(n) =~= a);
    assert(s.skip(n + 1) =~= b);
}

/// Characters of a script the scan does not know, that are not built-in
/// punctuation, symbol-block characters, or break space.
pub open spec fn unknown_script(u: Seq<char>) -> bool {
    forall|i: int|
        0 <= i < u.len() ==> !is_ascii_digit(#[trigger] u[i]) && !is_latin_class(u[i])
            && !is_cjk_class(u[i]) && not_default_mark(u[i]) && !is_symbol_block(u[i])
            && !crate::chars::is_break_space(u[i])
}

/// Under the default configuration, two words of an unknown script separated
/// by one break-space character (a line feed, a tab, a space, ...) that is not
/// itself stripped as a symbol are two words, each kept whole.
#[verifier::spinoff_prover]
pub proof fn law_unknown_words_split_at_break(u1: Seq<char>, w: char, u2: Seq<char>)
    requires
        u1.len() > 0,
        u2.len() > 0,
        unknown_script(u1),
        unknown_script(u2),
        crate::chars::is_break_space(w),
        !is_symbol_block(w),
    ensures
        detect(u1 + seq![w] + u2, false, false, Seq::empty()) == seq![u1, u2],
{
    let t = u1 + seq![w] + u2;
    lemma_defaults_are_plain();
    assert(not_default_mark(w)) by {
        if default_punctuation_chars().contains(w) {
            let k = choose|k: int|
                0 <= k < default_punctuation_chars().len() && default_punctuation_chars()[k] == w;
            assert(!crate::chars::is_break_space(default_punctuation_chars()[k]));
        }
    }
    assert forall|i: int| 0 <= i < t.len() implies not_default_mark(#[trigger] t[i]) && !is_symbol_block(
        t[i],
    ) by {
        if i < u1.len() {
            assert(t[i] == u1[i]);
        } else if i == u1.len() {
            assert(t[i] == w);
        } else {
            assert(t[i] == u2[i - u1.len() - 1]);
        }
    }
    lemma_plain_passes(t);
    assert(t[0] == u1[0]);
    assert(!blank(t));
    law_collapse_single_break(u1, w, u2);
    let c = u1 + seq![' '] + u2;
    assert forall|i: int| 0 <= i < u2.len() implies #[trigger] u2[i] != ' ' by {
        assert(!crate::chars::is_break_space(u2[i]));
    }
    assert forall|i: int| 0 <= i < u1.len() implies #[trigger] u1[i] != ' ' by {
        assert(!crate::chars::is_break_space(u1[i]));
    }
    lemma_split_no_space(u2);
    lemma_split_shift(u1 + seq![' '], u2, 0);
    lemma_find_from(c, 0, CharClass::Space);
    let f = find_from(c, 0, CharClass::Space);
    assert(c[u1.len() as int] == ' ');
    assert forall|i: int| 0 <= i < u1.len() implies #[trigger] c[i] != ' ' by {
        assert(c[i] == u1[i]);
    }
    assert(f == u1.len());
    assert(c.subrange(0, f) =~= u1);
    assert(split_from(c, 0) =~= seq![u1, u2]);
    let nonblank = |x: Seq<char>| !blank(x);
    assert(!crate::chars::is_break_space(u1[0]) && !crate::chars::is_break_space(u2[0]));
    let pair = seq![u1, u2];
    assert forall|k: int| 0 <= k < 2 implies nonblank(#[trigger] pair[k]) by {
        if k == 0 {
            assert(pair[k] == u1);
        } else {
            assert(pair[k] == u2);
        }
    }
    lemma_filter_all_pass(pair, nonblank);
    assert(tokens_of(c) == seq![u1, u2]);
    law_unmatched_token_survives_whole(u1);
    law_unmatched_token_survives_whole(u2);
    assert(seq![u1, u2].drop_last() =~= seq![u1]);
    lemma_words_of_one(u1);
    assert(words_of(seq![u1, u2]) == words_of(seq![u1]) + token_words(u2));
    assert(words_of(seq![u1, u2]) =~= seq![u1, u2]);
}

// ---------------------------------------------------------------------------
// Custom marks
// ---------------------------------------------------------------------------

/// Replacement is global: a text that begins with the mark has that occurrence
/// replaced and the rest replaced in the same way, for a mark of any length.
pub proof fn law_replace_leading_occurrence(pat: Seq<char>, s: Seq<char>, rep: Seq<char>)
    requires
        pat.len() > 0,
    ensures
        replace_all(pat + s, pat, rep) == rep + replace_all(s, pat, rep),
{
    let t = pat + s;
    assert(t.take(pat.len() as int) =~= pat);
    assert(t.skip(pat.len() as int) =~= s);
}

/// Replacement leaves a text in which the mark does not begin anywhere as it
/// is.
pub proof fn law_replace_without_occurrence(s: Seq<char>, pat: Seq<char>, rep: Seq<char>)
    requires
        pat.len() > 0,
        forall|i: int| 0 <= i && i + pat.len() <= s.len() ==> #[trigger] s.subrange(i, i + pat.len()) != pat,
    ensures
        replace_all(s, pat, rep) == s,
    decreases s.len(),
{
    if s.len() >= pat.len() {
        assert(s.take(pat.len() as int) == s.subrange(0, pat.len() as int));
        let z: int = 0;
        assert(s.subrange(z, z + pat.len()) != pat);
        assert(s.subrange(0, pat.len() as int) != pat);
        let r = s.skip(1);
        assert forall|i: int| 0 <= i && i + pat.len() <= r.len() implies #[trigger] r.subrange(i, i + pat.len())
            != pat by {
            assert(r.subrange(i, i + pat.len()) =~= s.subrange(i + 1, i + 1 + pat.len()));
        }
        law_replace_without_occurrence(r, pat, rep);
        assert(seq![s[0]] + r =~= s);
    }
}

/// Replacing a one-character mark leaves no occurrence of it, when the
/// replacer does not hold it.
proof fn lemma_replace_single_removes(s: Seq<char>, c: char, rep: Seq<char>)
    requires
        all_chars(rep, |x: char| x != c),
    ensures
        all_chars(replace_all(s, seq![c], rep), |x: char| x != c),
    decreases s.len(),
{
    let p = |x: char| x != c;
    if s.len() >= 1 {
        assert(s.take(1) =~= seq![s[0]]);
        lemma_replace_single_removes(s.skip(1), c, rep);
        let r = replace_all(s.skip(1), seq![c], rep);
        if s[0] == c {
            crate::facts::lemma_all_chars_concat(rep, r, p);
        } else {
            assert(seq![s[0]] != seq![c]) by {
                assert(seq![s[0]][0] != seq![c][0]);
            }
            assert(all_chars(seq![s[0]], p)) by {
                assert(seq![s[0]][0] == s[0]);
            }
            crate::facts::lemma_all_chars_concat(seq![s[0]], r, p);
        }
    }
}

/// After the marks are applied, a one-character mark among them is gone.
proof fn lemma_strip_removes_mark(s: Seq<char>, marks: Seq<Seq<char>>, rep: Seq<char>, c: char, k: int)
    requires
        0 <= k < marks.len(),
        marks[k] == seq![c],
        all_chars(rep, |x: char| x != c),
    ensures
        all_chars(strip_marks(s, marks, rep), |x: char| x != c),
    decreases marks.len(),
{
    let p = |x: char| x != c;
    let m = marks[0];
    if k == 0 {
        lemma_replace_single_removes(s, c, rep);
        crate::facts::lemma_strip_marks_chars(strip_mark(s, m, rep), marks.drop_first(), rep, p);
    } else {
        assert(marks.drop_first()[k - 1] == marks[k]);
        lemma_strip_removes_mark(strip_mark(s, m, rep), marks.drop_first(), rep, c, k - 1);
    }
}

/// A one-character custom mark other than the space never occurs in a
/// detected word, whether it is deleted or breaks tokens, and whether the
/// built-in list is used or not: custom marks always apply.
#[verifier::spinoff_prover]
pub proof fn law_custom_mark_never_in_a_word(
    text: Seq<char>,
    breaker: bool,
    disable_defaults: bool,
    marks: Seq<Seq<char>>,
    k: int,
    c: char,
)
    requires
        0 <= k < marks.len(),
        marks[k] == seq![c],
        c != ' ',
    ensures
        forall|j: int, i: int|
            0 <= j < detect(text, breaker, disable_defaults, marks).len() && 0 <= i < detect(
                text,
                breaker,
                disable_defaults,
                marks,
            )[j].len() ==> #[trigger] detect(text, breaker, disable_defaults, marks)[j][i] != c,
{
    if !blank(text) {
        let p = |x: char| x != c;
        let rep = replacer(breaker);
        assert(all_chars(rep, p)) by {
            if breaker {
                assert(rep[0] == ' ');
            }
        }
        let s0 = if disable_defaults {
            text
        } else {
            strip_marks(text, default_marks(), rep)
        };
        lemma_strip_removes_mark(s0, marks, rep, c, k);
        let s = punctuated(text, breaker, disable_defaults, marks);
        lemma_strip_symbols_chars(s, p);
        let v = strip_symbols(s);
        lemma_collapse_chars(v, p);
        let col = collapse_first_run(v);
        lemma_split_chars(col, 0, p);
        lemma_keep_nonblank_words(split_from(col, 0), p);
        lemma_words_of_chars(tokens_of(col), p);
        let ws = detect(text, breaker, disable_defaults, marks);
        assert forall|j: int, i: int| 0 <= j < ws.len() && 0 <= i < ws[j].len() implies #[trigger] ws[j][i]
            != c by {
            assert(all_chars(ws[j], p));
            assert(p(ws[j][i]));
        }
    }
}

/// Replacement keeps, unchanged, the part of a text before the first place
/// where the mark occurs.
pub proof fn law_replace_before_first_occurrence(
    a: Seq<char>,
    b: Seq<char>,
    pat: Seq<char>,
    rep: Seq<char>,
)
    requires
        pat.len() > 0,
        forall|i: int|
            0 <= i < a.len() && i + pat.len() <= a.len() + b.len() ==> #[trigger] (a + b).subrange(
                i,
                i + pat.len(),
            ) != pat,
    ensures
        replace_all(a + b, pat, rep) == a + replace_all(b, pat, rep),
    decreases a.len(),
{
    let s = a + b;
    let m = pat.len() as int;
    if a.len() == 0 {
        assert(s =~= b);
        assert(a + replace_all(b, pat, rep) =~= replace_all(b, pat, rep));
    } else if s.len() < m {
        assert(replace_all(b, pat, rep) == b);
        assert(a + b =~= s);
    } else {
        let z: int = 0;
        assert(s.subrange(z, z + pat.len()) != pat);
        assert(s.take(m) =~= s.subrange(z, z + pat.len()));
        let a1 = a.skip(1);
        assert(s.skip(1) =~= a1 + b);
        assert forall|i: int| 0 <= i < a1.len() && i + pat.len() <= a1.len() + b.len() implies #[trigger] (
        a1 + b).subrange(i, i + pat.len()) != pat by {
            assert((a1 + b).subrange(i, i + pat.len()) =~= s.subrange(i + 1, i + 1 + pat.len()));
        }
        law_replace_before_first_occurrence(a1, b, pat, rep);
        assert(s[0] == a[0]);
        assert(seq![a[0]] + (a1 + replace_all(b, pat, rep)) =~= a + replace_all(b, pat, rep));
    }
}

/// A character the scan classifies: an ASCII digit, a run letter, or a
/// CJK/kana/Hangul character.
pub open spec fn classified(c: char) -> bool {
    is_ascii_digit(c) || is_latin_class(c) || is_cjk_class(c)
}

/// A lone unclassified character is filtered out.
proof fn lemma_filter_unclassified(c: char)
    requires
        !classified(c),
    ensures
        seq![c].filter(|x: char| classified(x)) == Seq::<char>::empty(),
{
    let pred = |x: char| classified(x);
    assert(seq![c] =~= Seq::<char>::empty().push(c));
    Seq::<char>::empty().lemma_filter_push(c, pred);
    assert(Seq::<char>::empty().filter(pred) =~= Seq::<char>::empty()) by {
        reveal(Seq::filter);
    }
}

/// The scan of `t` from `i` yields exactly the classified characters from `i`
/// on, in order: none is lost, repeated, or reordered.
#[verifier::spinoff_prover]
#[verifier::rlimit(40)]
proof fn lemma_scan_flatten(t: Seq<char>, i: int)
    requires
        0 <= i <= t.len(),
    ensures
        scan_from(t, i).flatten() == t.skip(i).filter(|c: char| classified(c)),
    decreases t.len() - i,
{
    let pred = |c: char| classified(c);
    if i == t.len() {
        assert(t.skip(i) =~= Seq::<char>::empty());
        assert(Seq::<char>::empty().filter(pred) =~= Seq::<char>::empty()) by {
            reveal(Seq::filter);
        }
    } else {
        let head: Seq<Seq<char>>;
        let next: int;
        if is_ascii_digit(t[i]) || is_latin_class(t[i]) {
            let class = if is_ascii_digit(t[i]) {
                CharClass::AsciiDigit
            } else {
                CharClass::Latin
            };
            lemma_run_end_from(t, i, class);
            next = run_end_from(t, i, class);
            head = seq![t.subrange(i, next)];
            assert forall|j: int| 0 <= j < next - i implies pred(#[trigger] t.subrange(i, next)[j]) by {
                assert(t.subrange(i, next)[j] == t[i + j]);
                assert(crate::chars::in_class(class, t[i + j]));
            }
            lemma_filter_all_pass(t.subrange(i, next), pred);
            head.lemma_flatten_singleton();
        } else if is_cjk_class(t[i]) {
            next = i + 1;
            head = seq![seq![t[i]]];
            assert(t.subrange(i, next) =~= seq![t[i]]);
            assert(pred(t.subrange(i, next)[0]));
            lemma_filter_all_pass(t.subrange(i, next), pred);
            head.lemma_flatten_singleton();
        } else {
            next = i + 1;
            head = Seq::empty();
            assert(t.subrange(i, next) =~= seq![t[i]]);
            lemma_filter_unclassified(t[i]);
            assert(head.flatten() =~= Seq::<char>::empty());
        }
        lemma_scan_flatten(t, next);
        assert(scan_from(t, i) =~= head + scan_from(t, next));
        vstd::seq_lib::lemma_flatten_concat(head, scan_from(t, next));
        assert(t.skip(i) =~= t.subrange(i, next) + t.skip(next));
        Seq::filter_distributes_over_add(t.subrange(i, next), t.skip(next), pred);
        assert(t.subrange(i, next).filter(pred) == head.flatten());
    }
}

/// A token with at least one classified character yields, over all its words
/// in order, exactly its classified characters: the unknown remainder is
/// dropped and nothing else is lost, repeated, or reordered.
pub proof fn law_token_words_are_its_classified_chars(t: Seq<char>)
    requires
        exists|i: int| 0 <= i < t.len() && classified(#[trigger] t[i]),
    ensures
        token_words(t).flatten() == t.filter(|c: char| classified(c)),
{
    lemma_scan_flatten(t, 0);
    assert(t.skip(0) =~= t);
    if scan_from(t, 0).len() == 0 {
        lemma_empty_scan_unmatched(t, 0);
        let i = choose|i: int| 0 <= i < t.len() && classified(#[trigger] t[i]);
        assert(classified(t[i]));
    }
}

/// Under `detect`, what matters of the text is what the punctuation and
/// symbol passes leave.
proof fn lemma_detect_by_passes(
    t1: Seq<char>,
    b1: bool,
    d1: bool,
    m1: Seq<Seq<char>>,
    t2: Seq<char>,
    b2: bool,
    d2: bool,
    m2: Seq<Seq<char>>,
)
    requires
        !blank(t1),
        !blank(t2),
        strip_symbols(punctuated(t1, b1, d1, m1)) == strip_symbols(punctuated(t2, b2, d2, m2)),
    ensures
        detect(t1, b1, d1, m1) == detect(t2, b2, d2, m2),
{
}

/// The shared facts about a custom mark between two letter runs.
proof fn lemma_mark_between_runs(r1: Seq<char>, c: char, r2: Seq<char>)
    requires
        r1.len() > 0,
        r2.len() > 0,
        forall|i: int| 0 <= i < r1.len() ==> ascii_letter(#[trigger] r1[i]),
        forall|i: int| 0 <= i < r2.len() ==> ascii_letter(#[trigger] r2[i]),
        !ascii_letter(c),
    ensures
        !blank(r1 + seq![c] + r2),
        forall|i: int| 0 <= i < r1.len() ==> #[trigger] r1[i] != c,
        forall|i: int| 0 <= i < r2.len() ==> #[trigger] r2[i] != c,
{
    let t = r1 + seq![c] + r2;
    assert(t[0] == r1[0]);
    assert(ascii_letter(t[0]));
    assert(!crate::chars::is_break_space(t[0]));
    assert(!blank(t));
    assert forall|i: int| 0 <= i < r1.len() implies #[trigger] r1[i] != c by {
        assert(ascii_letter(r1[i]));
    }
    assert forall|i: int| 0 <= i < r2.len() implies #[trigger] r2[i] != c by {
        assert(ascii_letter(r2[i]));
    }
}

#[verifier::spinoff_prover]
proof fn lemma_mark_deleted(r1: Seq<char>, c: char, r2: Seq<char>)
    requires
        r1.len() > 0,
        r2.len() > 0,
        forall|i: int| 0 <= i < r1.len() ==> ascii_letter(#[trigger] r1[i]),
        forall|i: int| 0 <= i < r2.len() ==> ascii_letter(#[trigger] r2[i]),
        !ascii_letter(c),
    ensures
        detect(r1 + seq![c] + r2, false, true, seq![seq![c]]) == seq![r1 + r2],
{
    let t = r1 + seq![c] + r2;
    let marks = seq![seq![c]];
    lemma_mark_between_runs(r1, c, r2);
    assert(marks.drop_first() =~= Seq::<Seq<char>>::empty());
    assert(seq![c].take(1) =~= seq![c]);
    assert(seq![c].skip(1) =~= Seq::<char>::empty());
    let rep = replacer(false);
    crate::facts::lemma_replace_single_concat(r1 + seq![c], r2, c, rep);
    crate::facts::lemma_replace_single_concat(r1, seq![c], c, rep);
    crate::facts::lemma_replace_absent(r1, c, rep);
    crate::facts::lemma_replace_absent(r2, c, rep);
    assert(replace_all(seq![c], seq![c], rep) == rep + replace_all(Seq::<char>::empty(), seq![c], rep));
    assert(replace_all(t, seq![c], rep) =~= r1 + r2);
    assert(strip_marks(t, marks, rep) == strip_marks(strip_mark(t, marks[0], rep), marks.drop_first(), rep));
    assert(punctuated(t, false, true, marks) =~= r1 + r2);
    let j = r1 + r2;
    assert forall|i: int| 0 <= i < j.len() implies is_latin_class(#[trigger] j[i]) by {
        if i < r1.len() {
            assert(j[i] == r1[i]);
            assert(ascii_letter(r1[i]));
        } else {
            assert(j[i] == r2[i - r1.len()]);
            assert(ascii_letter(r2[i - r1.len()]));
        }
    }
    law_letter_token_is_one_word(j);
    assert(j[0] == r1[0]);
    assert(!blank(j));
    assert forall|i: int| 0 <= i < j.len() implies not_default_mark(#[trigger] j[i])
        && !is_symbol_block(j[i]) by {
        lemma_classified_not_default(j[i]);
    }
    lemma_plain_passes(j);
    let visible = |x: char| !is_symbol_block(x);
    assert forall|i: int| 0 <= i < j.len() implies visible(#[trigger] j[i]) by {}
    lemma_filter_all_pass(j, visible);
    lemma_detect_by_passes(t, false, true, marks, j, false, false, Seq::empty());
}

#[verifier::spinoff_prover]
proof fn lemma_mark_breaks(r1: Seq<char>, c: char, r2: Seq<char>)
    requires
        r1.len() > 0,
        r2.len() > 0,
        forall|i: int| 0 <= i < r1.len() ==> ascii_letter(#[trigger] r1[i]),
        forall|i: int| 0 <= i < r2.len() ==> ascii_letter(#[trigger] r2[i]),
        !ascii_letter(c),
    ensures
        detect(r1 + seq![c] + r2, true, true, seq![seq![c]]) == seq![r1, r2],
{
    let t = r1 + seq![c] + r2;
    let marks = seq![seq![c]];
    lemma_mark_between_runs(r1, c, r2);
    assert(marks.drop_first() =~= Seq::<Seq<char>>::empty());
    assert(seq![c].take(1) =~= seq![c]);
    assert(seq![c].skip(1) =~= Seq::<char>::empty());
    let rep = replacer(true);
    crate::facts::lemma_replace_single_concat(r1 + seq![c], r2, c, rep);
    crate::facts::lemma_replace_single_concat(r1, seq![c], c, rep);
    crate::facts::lemma_replace_absent(r1, c, rep);
    crate::facts::lemma_replace_absent(r2, c, rep);
    assert(replace_all(seq![c], seq![c], rep) == rep + replace_all(Seq::<char>::empty(), seq![c], rep));
    assert(replace_all(t, seq![c], rep) =~= r1 + seq![' '] + r2);
    assert(strip_marks(t, marks, rep) == strip_marks(strip_mark(t, marks[0], rep), marks.drop_first(), rep));
    let runs = seq![r1, r2];
    assert(runs.drop_first() =~= seq![r2]);
    assert(join_with_spaces(seq![r2]) == r2);
    assert(join_with_spaces(runs) == r1 + seq![' '] + r2);
    assert(punctuated(t, true, true, marks) =~= join_with_spaces(runs));
    assert(letter_runs(runs)) by {
        assert forall|k: int| 0 <= k < runs.len() implies (#[trigger] runs[k]).len() > 0 && forall|i: int|
            0 <= i < runs[k].len() ==> ascii_letter(#[trigger] runs[k][i]) by {
            if k == 0 {
                assert(runs[k] == r1);
            } else {
                assert(runs[k] == r2);
            }
        }
    }
    law_letter_runs_split_at_spaces(runs);
    let j = join_with_spaces(runs);
    lemma_join_chars(runs);
    assert(ascii_letter(j[0]));
    assert(!blank(j));
    assert forall|i: int| 0 <= i < j.len() implies not_default_mark(#[trigger] j[i])
        && !is_symbol_block(j[i]) by {
        lemma_defaults_are_not_letters_or_space();
        if default_punctuation_chars().contains(j[i]) {
            let k = choose|k: int|
                0 <= k < default_punctuation_chars().len() && default_punctuation_chars()[k] == j[i];
            assert(!ascii_letter(default_punctuation_chars()[k]) && default_punctuation_chars()[k] != ' ');
        }
    }
    lemma_plain_passes(j);
    let visible = |x: char| !is_symbol_block(x);
    assert forall|i: int| 0 <= i < j.len() implies visible(#[trigger] j[i]) by {}
    lemma_filter_all_pass(j, visible);
    lemma_detect_by_passes(t, true, true, marks, j, false, false, Seq::empty());
}

/// With the built-in list disabled, a one-character custom mark between two
/// runs of ASCII letters joins them into one word when punctuation is deleted,
/// and separates them into two words when punctuation breaks tokens.
#[verifier::spinoff_prover]
pub proof fn law_custom_mark_deletes_or_breaks(r1: Seq<char>, c: char, r2: Seq<char>)
    requires
        r1.len() > 0,
        r2.len() > 0,
        forall|i: int| 0 <= i < r1.len() ==> ascii_letter(#[trigger] r1[i]),
        forall|i: int| 0 <= i < r2.len() ==> ascii_letter(#[trigger] r2[i]),
        !ascii_letter(c),
    ensures
        detect(r1 + seq![c] + r2, false, true, seq![seq![c]]) == seq![r1 + r2],
        detect(r1 + seq![c] + r2, true, true, seq![seq![c]]) == seq![r1, r2],
{
    lemma_mark_deleted(r1, c, r2);
    lemma_mark_breaks(r1, c, r2);
}

/// The first-run collapse, for a run of any length: when a text has no break
/// space before a run of break-space characters (of any kinds) that is
/// followed by a character that is not break space, or by the end, the run
/// becomes one ASCII space and nothing else changes.
pub proof fn law_collapse_first_break_run(a: Seq<char>, ws: Seq<char>, b: Seq<char>)
    requires
        forall|i: int| 0 <= i < a.len() ==> !crate::chars::is_break_space(#[trigger] a[i]),
        ws.len() > 0,
        forall|i: int| 0 <= i < ws.len() ==> crate::chars::is_break_space(#[trigger] ws[i]),
        b.len() > 0 ==> !crate::chars::is_break_space(b[0]),
    ensures
        collapse_first_run(a + ws + b) == a + seq![' '] + b,
{
    let s = a + ws + b;
    let n = a.len() as int;
    let e0 = n + ws.len();
    lemma_find_from(s, 0, CharClass::BreakSpace);
    let f = find_from(s, 0, CharClass::BreakSpace);
    assert(s[n] == ws[0]);
    assert forall|i: int| 0 <= i < n implies !crate::chars::is_break_space(#[trigger] s[i]) by {
        assert(s[i] == a[i]);
    }
    assert(f == n);
    lemma_run_end_from(s, n, CharClass::BreakSpace);
    let e = run_end_from(s, n, CharClass::BreakSpace);
    assert forall|i: int| n <= i < e0 implies crate::chars::is_break_space(#[trigger] s[i]) by {
        assert(s[i] == ws[i - n]);
    }
    assert(e >= e0) by {
        if e < e0 {
            assert(crate::chars::is_break_space(s[e]));
        }
    }
    if e0 < s.len() {
        assert(s[e0] == b[0]);
    }
    assert(e == e0);
    assert(s.take(n) =~= a);
    assert(s.skip(e0) =~= b);
}

/// A character of a script the scan does not know, or a break-space character
/// other than the ASCII space; neither a symbol-block character nor built-in
/// punctuation.
pub open spec fn unknown_or_inner_break(c: char) -> bool {
    &&& !is_ascii_digit(c)
    &&& !is_latin_class(c)
    &&& !is_cjk_class(c)
    &&& not_default_mark(c)
    &&& !is_symbol_block(c)
    &&& c != ' '
}

/// Splitting `u + [' '] + v` at spaces, where `u` and `v` hold no space.
proof fn lemma_split_two(u: Seq<char>, v: Seq<char>)
    requires
        forall|i: int| 0 <= i < u.len() ==> #[trigger] u[i] != ' ',
        forall|i: int| 0 <= i < v.len() ==> #[trigger] v[i] != ' ',
    ensures
        split_from(u + seq![' '] + v, 0) == seq![u, v],
{
    let c = u + seq![' '] + v;
    lemma_split_no_space(v);
    lemma_split_shift(u + seq![' '], v, 0);
    lemma_find_from(c, 0, CharClass::Space);
    let f = find_from(c, 0, CharClass::Space);
    assert(c[u.len() as int] == ' ');
    assert forall|i: int| 0 <= i < u.len() implies #[trigger] c[i] != ' ' by {
        assert(c[i] == u[i]);
    }
    assert(f == u.len());
    assert(c.subrange(0, f) =~= u);
    assert(split_from(c, 0) =~= seq![u, v]);
}

/// Two tokens, each made of characters the scan does not know, are two words,
/// each kept whole, when neither is blank.
proof fn lemma_two_unknown_tokens(u: Seq<char>, v: Seq<char>)
    requires
        u.len() > 0 && !crate::chars::is_break_space(u[0]),
        v.len() > 0 && !crate::chars::is_break_space(v[0]),
        forall|i: int| 0 <= i < u.len() ==> unknown_or_inner_break(#[trigger] u[i]),
        forall|i: int| 0 <= i < v.len() ==> unknown_or_inner_break(#[trigger] v[i]),
    ensures
        words_of(crate::text::keep_nonblank(seq![u, v])) == seq![u, v],
{
    let nonblank = |x: Seq<char>| !blank(x);
    let pair = seq![u, v];
    assert forall|k: int| 0 <= k < 2 implies nonblank(#[trigger] pair[k]) by {
        if k == 0 {
            assert(pair[k] == u);
        } else {
            assert(pair[k] == v);
        }
    }
    lemma_filter_all_pass(pair, nonblank);
    law_unmatched_token_survives_whole(u);
    law_unmatched_token_survives_whole(v);
    assert(pair.drop_last() =~= seq![u]);
    lemma_words_of_one(u);
    assert(words_of(pair) == words_of(seq![u]) + token_words(v));
    assert(words_of(pair) =~= pair);
}

/// Under the default configuration, only the first whitespace run splits: a
/// word of an unknown script, one break-space character that is not stripped
/// as a symbol, then a text of unknown-script characters in which later
/// break-space characters other than the ASCII space (tabs, line feeds, ...)
/// appear, give two words; the later break spaces stay inside the second.
#[verifier::spinoff_prover]
pub proof fn law_later_break_runs_stay_in_token(u: Seq<char>, w: char, v: Seq<char>)
    requires
        u.len() > 0,
        unknown_script(u),
        crate::chars::is_break_space(w),
        !is_symbol_block(w),
        v.len() > 0,
        !crate::chars::is_break_space(v[0]),
        forall|i: int| 0 <= i < v.len() ==> unknown_or_inner_break(#[trigger] v[i]),
    ensures
        detect(u + seq![w] + v, false, false, Seq::empty()) == seq![u, v],
{
    let t = u + seq![w] + v;
    lemma_defaults_are_plain();
    assert(not_default_mark(w)) by {
        if default_punctuation_chars().contains(w) {
            let k = choose|k: int|
                0 <= k < default_punctuation_chars().len() && default_punctuation_chars()[k] == w;
            assert(!crate::chars::is_break_space(default_punctuation_chars()[k]));
        }
    }
    assert forall|i: int| 0 <= i < t.len() implies not_default_mark(#[trigger] t[i]) && !is_symbol_block(
        t[i],
    ) by {
        if i < u.len() {
            assert(t[i] == u[i]);
        } else if i == u.len() {
            assert(t[i] == w);
        } else {
            assert(t[i] == v[i - u.len() - 1]);
        }
    }
    lemma_plain_passes(t);
    assert(t[0] == u[0]);
    assert(!blank(t));
    law_collapse_first_break_run(u, seq![w], v);
    assert(u + seq![w] + v == t);
    assert forall|i: int| 0 <= i < u.len() implies #[trigger] u[i] != ' ' && unknown_or_inner_break(u[i]) by {
        assert(!crate::chars::is_break_space(u[i]));
    }
    lemma_split_two(u, v);
    lemma_two_unknown_tokens(u, v);
}

/// With the built-in list disabled and a one-character custom mark that occurs
/// in none of three words of an unknown script: the mark joins the three into
/// one word when punctuation is deleted, and separates them into three words,
/// in order, when punctuation breaks tokens.
pub proof fn law_custom_mark_between_unknown_words(
    u1: Seq<char>,
    c: char,
    u2: Seq<char>,
    u3: Seq<char>,
)
    requires
        u1.len() > 0 && u2.len() > 0 && u3.len() > 0,
        unknown_script(u1) && unknown_script(u2) && unknown_script(u3),
        forall|i: int| 0 <= i < u1.len() ==> #[trigger] u1[i] != c,
        forall|i: int| 0 <= i < u2.len() ==> #[trigger] u2[i] != c,
        forall|i: int| 0 <= i < u3.len() ==> #[trigger] u3[i] != c,
    ensures
        detect(u1 + seq![c] + u2 + seq![c] + u3, false, true, seq![seq![c]]) == seq![u1 + u2 + u3],
        detect(u1 + seq![c] + u2 + seq![c] + u3, true, true, seq![seq![c]]) == seq![u1, u2, u3],
{
    lemma_mark_between_unknown_deleted(u1, c, u2, u3);
    lemma_mark_between_unknown_breaks(u1, c, u2, u3);
}

/// Replacing a one-character mark in `u1 c u2 c u3`, where the u's do not hold
/// it.
proof fn lemma_replace_in_three(u1: Seq<char>, c: char, u2: Seq<char>, u3: Seq<char>, rep: Seq<char>)
    requires
        forall|i: int| 0 <= i < u1.len() ==> #[trigger] u1[i] != c,
        forall|i: int| 0 <= i < u2.len() ==> #[trigger] u2[i] != c,
        forall|i: int| 0 <= i < u3.len() ==> #[trigger] u3[i] != c,
    ensures
        strip_marks(u1 + seq![c] + u2 + seq![c] + u3, seq![seq![c]], rep) == u1 + rep + u2 + rep + u3,
{
    let t = u1 + seq![c] + u2 + seq![c] + u3;
    let pat = seq![c];
    let marks = seq![pat];
    assert(marks.drop_first() =~= Seq::<Seq<char>>::empty());
    assert(pat.take(1) =~= pat);
    assert(pat.skip(1) =~= Seq::<char>::empty());
    crate::facts::lemma_replace_absent(u1, c, rep);
    crate::facts::lemma_replace_absent(u2, c, rep);
    crate::facts::lemma_replace_absent(u3, c, rep);
    assert(replace_all(pat, pat, rep) == rep + replace_all(Seq::<char>::empty(), pat, rep));
    assert(replace_all(pat, pat, rep) =~= rep);
    crate::facts::lemma_replace_single_concat(u1 + pat + u2 + pat, u3, c, rep);
    crate::facts::lemma_replace_single_concat(u1 + pat + u2, pat, c, rep);
    crate::facts::lemma_replace_single_concat(u1 + pat, u2, c, rep);
    crate::facts::lemma_replace_single_concat(u1, pat, c, rep);
    assert(replace_all(t, pat, rep) =~= u1 + rep + u2 + rep + u3);
    assert(strip_marks(t, marks, rep) == strip_marks(strip_mark(t, marks[0], rep), marks.drop_first(), rep));
}

#[verifier::spinoff_prover]
proof fn lemma_mark_between_unknown_deleted(u1: Seq<char>, c: char, u2: Seq<char>, u3: Seq<char>)
    requires
        u1.len() > 0 && u2.len() > 0 && u3.len() > 0,
        unknown_script(u1) && unknown_script(u2) && unknown_script(u3),
        forall|i: int| 0 <= i < u1.len() ==> #[trigger] u1[i] != c,
        forall|i: int| 0 <= i < u2.len() ==> #[trigger] u2[i] != c,
        forall|i: int| 0 <= i < u3.len() ==> #[trigger] u3[i] != c,
    ensures
        detect(u1 + seq![c] + u2 + seq![c] + u3, false, true, seq![seq![c]]) == seq![u1 + u2 + u3],
{
    let t = u1 + seq![c] + u2 + seq![c] + u3;
    let rep = Seq::<char>::empty();
    lemma_replace_in_three(u1, c, u2, u3, rep);
    let j = u1 + u2 + u3;
    assert(u1 + rep + u2 + rep + u3 =~= j);
    assert(punctuated(t, false, true, seq![seq![c]]) == j);
    assert forall|i: int| 0 <= i < j.len() implies !is_ascii_digit(#[trigger] j[i]) && !is_latin_class(j[i])
        && !is_cjk_class(j[i]) && not_default_mark(j[i]) && !is_symbol_block(j[i])
        && !crate::chars::is_break_space(j[i]) by {
        if i < u1.len() {
            assert(j[i] == u1[i]);
        } else if i < u1.len() + u2.len() {
            assert(j[i] == u2[i - u1.len()]);
        } else {
            assert(j[i] == u3[i - u1.len() - u2.len()]);
        }
    }
    assert(t[0] == u1[0]);
    assert(!blank(t));
    let visible = |x: char| !is_symbol_block(x);
    assert forall|i: int| 0 <= i < j.len() implies visible(#[trigger] j[i]) by {}
    lemma_filter_all_pass(j, visible);
    lemma_detect_one_token(j);
    law_unmatched_token_survives_whole(j);
    lemma_plain_passes(j);
    assert(j[0] == u1[0]);
    lemma_detect_by_passes(t, false, true, seq![seq![c]], j, false, false, Seq::empty());
}

#[verifier::spinoff_prover]
proof fn lemma_mark_between_unknown_breaks(u1: Seq<char>, c: char, u2: Seq<char>, u3: Seq<char>)
    requires
        u1.len() > 0 && u2.len() > 0 && u3.len() > 0,
        unknown_script(u1) && unknown_script(u2) && unknown_script(u3),
        forall|i: int| 0 <= i < u1.len() ==> #[trigger] u1[i] != c,
        forall|i: int| 0 <= i < u2.len() ==> #[trigger] u2[i] != c,
        forall|i: int| 0 <= i < u3.len() ==> #[trigger] u3[i] != c,
    ensures
        detect(u1 + seq![c] + u2 + seq![c] + u3, true, true, seq![seq![c]]) == seq![u1, u2, u3],
{
    let t = u1 + seq![c] + u2 + seq![c] + u3;
    let sp = seq![' '];
    lemma_replace_in_three(u1, c, u2, u3, sp);
    let j = u1 + sp + (u2 + sp + u3);
    assert(u1 + sp + u2 + sp + u3 =~= j);
    assert(punctuated(t, true, true, seq![seq![c]]) == j);
    assert(t[0] == u1[0]);
    assert(!crate::chars::is_break_space(u1[0]));
    assert(!blank(t));
    lemma_three_spaced(u1, u2, u3);
    lemma_split_three(u1, u2, u3);
    lemma_three_unknown_tokens(u1, u2, u3);
}

/// Three texts with no symbol-block character, separated by single spaces,
/// pass the symbol strip unchanged.
proof fn lemma_three_visible(u1: Seq<char>, u2: Seq<char>, u3: Seq<char>)
    requires
        forall|i: int| 0 <= i < u1.len() ==> !is_symbol_block(#[trigger] u1[i]),
        forall|i: int| 0 <= i < u2.len() ==> !is_symbol_block(#[trigger] u2[i]),
        forall|i: int| 0 <= i < u3.len() ==> !is_symbol_block(#[trigger] u3[i]),
    ensures
        strip_symbols(u1 + seq![' '] + (u2 + seq![' '] + u3)) == u1 + seq![' '] + (u2 + seq![' '] + u3),
{
    let sp = seq![' '];
    let v = u2 + sp + u3;
    let j = u1 + sp + v;
    let visible = |x: char| !is_symbol_block(x);
    assert(all_chars(u1, visible));
    assert(all_chars(u2, visible));
    assert(all_chars(u3, visible));
    assert(all_chars(sp, visible)) by {
        assert(sp[0] == ' ');
    }
    crate::facts::lemma_all_chars_concat(u2, sp, visible);
    crate::facts::lemma_all_chars_concat(u2 + sp, u3, visible);
    crate::facts::lemma_all_chars_concat(u1, sp, visible);
    crate::facts::lemma_all_chars_concat(u1 + sp, v, visible);
    lemma_filter_all_pass(j, visible);
}

/// Three texts with no break space and no symbol-block character, separated
/// by single spaces, pass the symbol strip and the collapse unchanged.
proof fn lemma_three_spaced(u1: Seq<char>, u2: Seq<char>, u3: Seq<char>)
    requires
        u2.len() > 0,
        forall|i: int| 0 <= i < u1.len() ==> !crate::chars::is_break_space(#[trigger] u1[i]) && !is_symbol_block(u1[i]),
        forall|i: int| 0 <= i < u2.len() ==> !crate::chars::is_break_space(#[trigger] u2[i]) && !is_symbol_block(u2[i]),
        forall|i: int| 0 <= i < u3.len() ==> !crate::chars::is_break_space(#[trigger] u3[i]) && !is_symbol_block(u3[i]),
    ensures
        collapse_first_run(strip_symbols(u1 + seq![' '] + (u2 + seq![' '] + u3))) == u1 + seq![' '] + (u2 + seq![' '] + u3),
{
    let sp = seq![' '];
    let v = u2 + sp + u3;
    lemma_three_visible(u1, u2, u3);
    assert(v[0] == u2[0]);
    law_collapse_first_break_run(u1, sp, v);
}

/// Splitting `u1 + [' '] + u2 + [' '] + u3` at spaces, where the u's hold no
/// space.
proof fn lemma_split_three(u1: Seq<char>, u2: Seq<char>, u3: Seq<char>)
    requires
        forall|i: int| 0 <= i < u1.len() ==> !crate::chars::is_break_space(#[trigger] u1[i]),
        forall|i: int| 0 <= i < u2.len() ==> !crate::chars::is_break_space(#[trigger] u2[i]),
        forall|i: int| 0 <= i < u3.len() ==> !crate::chars::is_break_space(#[trigger] u3[i]),
    ensures
        split_from(u1 + seq![' '] + (u2 + seq![' '] + u3), 0) == seq![u1, u2, u3],
{
    let sp = seq![' '];
    let v = u2 + sp + u3;
    let j = u1 + sp + v;
    assert forall|i: int| 0 <= i < u1.len() implies #[trigger] u1[i] != ' ' by {
        assert(!crate::chars::is_break_space(u1[i]));
    }
    assert forall|i: int| 0 <= i < u2.len() implies #[trigger] u2[i] != ' ' by {
        assert(!crate::chars::is_break_space(u2[i]));
    }
    assert forall|i: int| 0 <= i < u3.len() implies #[trigger] u3[i] != ' ' by {
        assert(!crate::chars::is_break_space(u3[i]));
    }
    lemma_split_two(u2, u3);
    lemma_split_shift(u1 + sp, v, 0);
    lemma_find_from(j, 0, CharClass::Space);
    let f = find_from(j, 0, CharClass::Space);
    assert(j[u1.len() as int] == ' ');
    assert forall|i: int| 0 <= i < u1.len() implies #[trigger] j[i] != ' ' by {
        assert(j[i] == u1[i]);
    }
    assert(f == u1.len());
    assert(j.subrange(0, f) =~= u1);
    assert(split_from(j, 0) =~= seq![u1, u2, u3]);
}

/// Three nonblank tokens of unknown-script characters are three words, each
/// kept whole.
proof fn lemma_three_unknown_tokens(u1: Seq<char>, u2: Seq<char>, u3: Seq<char>)
    requires
        u1.len() > 0 && u2.len() > 0 && u3.len() > 0,
        unknown_script(u1) && unknown_script(u2) && unknown_script(u3),
    ensures
        words_of(crate::text::keep_nonblank(seq![u1, u2, u3])) == seq![u1, u2, u3],
{
    let triple = seq![u1, u2, u3];
    let nonblank = |x: Seq<char>| !blank(x);
    assert forall|k: int| 0 <= k < 3 implies nonblank(#[trigger] triple[k]) by {
        if k == 0 {
            assert(triple[k] == u1);
            assert(!crate::chars::is_break_space(u1[0]));
        } else if k == 1 {
            assert(triple[k] == u2);
            assert(!crate::chars::is_break_space(u2[0]));
        } else {
            assert(triple[k] == u3);
            assert(!crate::chars::is_break_space(u3[0]));
        }
    }
    lemma_filter_all_pass(triple, nonblank);
    law_unmatched_token_survives_whole(u1);
    law_unmatched_token_survives_whole(u2);
    law_unmatched_token_survives_whole(u3);
    assert(triple.drop_last() =~= seq![u1, u2]);
    assert(seq![u1, u2].drop_last() =~= seq![u1]);
    lemma_words_of_one(u1);
    assert(words_of(seq![u1, u2]) == words_of(seq![u1]) + token_words(u2));
    assert(words_of(triple) == words_of(seq![u1, u2]) + token_words(u3));
    assert(words_of(triple) =~= triple);
}

/// The built-in marks, deleted or replaced by a space, leave no built-in mark
/// behind.
#[verifier::spinoff_prover]
proof fn lemma_defaults_removed(text: Seq<char>, breaker: bool)
    ensures
        all_chars(
            strip_marks(text, default_marks(), replacer(breaker)),
            |x: char| !default_punctuation_chars().contains(x),
        ),
{
    let rep = replacer(breaker);
    let s = strip_marks(text, default_marks(), rep);
    let d = default_punctuation_chars();
    let p = |x: char| !d.contains(x);
    lemma_defaults_are_not_letters_or_space();
    assert forall|i: int| 0 <= i < s.len() implies p(#[trigger] s[i]) by {
        if d.contains(s[i]) {
            let k = choose|k: int| 0 <= k < d.len() && d[k] == s[i];
            let c = d[k];
            assert(c != ' ');
            assert(all_chars(rep, |x: char| x != c)) by {
                if breaker {
                    assert(rep[0] == ' ');
                }
            }
            assert(default_marks()[k] =~= seq![c]);
            lemma_strip_removes_mark(text, default_marks(), rep, c, k);
            assert((|x: char| x != c)(s[i]));
        }
    }
}

/// A mark holding a character that the text does not hold never matches, and
/// taking it out of the marks changes nothing, as long as the replacer does
/// not hold that kind of character either.
proof fn lemma_strip_without_unmatchable(
    s: Seq<char>,
    marks: Seq<Seq<char>>,
    rep: Seq<char>,
    p: spec_fn(char) -> bool,
    k: int,
)
    requires
        0 <= k < marks.len(),
        all_chars(s, p),
        all_chars(rep, p),
        exists|i: int| 0 <= i < marks[k].len() && !p(#[trigger] marks[k][i]),
    ensures
        strip_marks(s, marks, rep) == strip_marks(s, marks.remove(k), rep),
    decreases k,
{
    let m = marks[0];
    if k == 0 {
        let i = choose|i: int| 0 <= i < m.len() && !p(#[trigger] m[i]);
        assert forall|a: int| 0 <= a && a + m.len() <= s.len() implies #[trigger] s.subrange(a, a + m.len())
            != m by {
            if s.subrange(a, a + m.len()) == m {
                assert(s.subrange(a, a + m.len())[i] == s[a + i]);
                assert(p(s[a + i]));
            }
        }
        law_replace_without_occurrence(s, m, rep);
        assert(marks.remove(0) =~= marks.drop_first());
    } else {
        let s1 = strip_mark(s, m, rep);
        if m.len() > 0 {
            crate::facts::lemma_replace_all_chars(s, m, rep, p);
        }
        let rest = marks.drop_first();
        assert(rest[k - 1] == marks[k]);
        lemma_strip_without_unmatchable(s1, rest, rep, p, k - 1);
        assert(marks.remove(k)[0] == marks[0]);
        assert(marks.remove(k).drop_first() =~= rest.remove(k - 1));
    }
}

/// Custom marks are applied after the built-in list: with the built-in list
/// in use, a custom mark that holds a built-in punctuation character can never
/// match, so taking it out of the custom marks changes no word.
#[verifier::spinoff_prover]
pub proof fn law_custom_marks_apply_after_defaults(
    text: Seq<char>,
    breaker: bool,
    marks: Seq<Seq<char>>,
    k: int,
)
    requires
        0 <= k < marks.len(),
        exists|i: int| 0 <= i < marks[k].len() && default_punctuation_chars().contains(#[trigger] marks[k][i]),
    ensures
        detect(text, breaker, false, marks) == detect(text, breaker, false, marks.remove(k)),
{
    let rep = replacer(breaker);
    let d = default_punctuation_chars();
    let p = |x: char| !d.contains(x);
    lemma_defaults_removed(text, breaker);
    lemma_defaults_are_not_letters_or_space();
    assert(all_chars(rep, p)) by {
        if breaker {
            assert(rep[0] == ' ');
            if d.contains(' ') {
                let j = choose|j: int| 0 <= j < d.len() && d[j] == ' ';
                assert(d[j] != ' ');
            }
        }
    }
    let i = choose|i: int| 0 <= i < marks[k].len() && d.contains(#[trigger] marks[k][i]);
    assert(!p(marks[k][i]));
    lemma_strip_without_unmatchable(strip_marks(text, default_marks(), rep), marks, rep, p, k);
}

} // verus!
