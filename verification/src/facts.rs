//! Facts about the text passes that the laws rest on.

use vstd::prelude::*;

use crate::chars::{
    blank, find_from, is_break_space, lemma_find_from, lemma_run_end_from, run_end_from, CharClass,
};
use crate::pipeline::{
    default_marks, punctuated, replacer, strip_mark, strip_marks, token_words, words_of,
};
use crate::ranges::{is_cjk_class, is_latin_class};
use crate::chars::is_ascii_digit;
use crate::text::{
    collapse_first_run, keep_nonblank, replace_all, scan_from, split_from, strip_symbols, tokens_of,
};

verus! {

broadcast use vstd::seq_lib::group_seq_properties;

/// Every character of `s` satisfies `p`.
pub open spec fn all_chars(s: Seq<char>, p: spec_fn(char) -> bool) -> bool {
    forall|i: int| 0 <= i < s.len() ==> p(#[trigger] s[i])
}

/// Every word of `ws` has all its characters satisfy `p`.
pub open spec fn all_words(ws: Seq<Seq<char>>, p: spec_fn(char) -> bool) -> bool {
    forall|k: int| 0 <= k < ws.len() ==> all_chars(#[trigger] ws[k], p)
}

pub proof fn lemma_all_chars_subrange(s: Seq<char>, p: spec_fn(char) -> bool, a: int, b: int)
    requires
        all_chars(s, p),
        0 <= a <= b <= s.len(),
    ensures
        all_chars(s.subrange(a, b), p),
{
    assert forall|i: int| 0 <= i < b - a implies p(#[trigger] s.subrange(a, b)[i]) by {
        assert(s.subrange(a, b)[i] == s[a + i]);
    }
}

pub proof fn lemma_all_chars_concat(a: Seq<char>, b: Seq<char>, p: spec_fn(char) -> bool)
    requires
        all_chars(a, p),
        all_chars(b, p),
    ensures
        all_chars(a + b, p),
{
    assert forall|i: int| 0 <= i < a.len() + b.len() implies p(#[trigger] (a + b)[i]) by {
        if i < a.len() {
            assert((a + b)[i] == a[i]);
        } else {
            assert((a + b)[i] == b[i - a.len()]);
        }
    }
}

/// The characters of a replacement come from the text or from the replacer.
pub proof fn lemma_replace_all_chars(
    s: Seq<char>,
    pat: Seq<char>,
    rep: Seq<char>,
    p: spec_fn(char) -> bool,
)
    requires
        all_chars(s, p),
        all_chars(rep, p),
    ensures
        all_chars(replace_all(s, pat, rep), p),
    decreases s.len(),
{
    if pat.len() == 0 || s.len() < pat.len() {
    } else if s.take(pat.len() as int) == pat {
        lemma_all_chars_subrange(s, p, pat.len() as int, s.len() as int);
        assert(s.skip(pat.len() as int) =~= s.subrange(pat.len() as int, s.len() as int));
        lemma_replace_all_chars(s.skip(pat.len() as int), pat, rep, p);
        lemma_all_chars_concat(rep, replace_all(s.skip(pat.len() as int), pat, rep), p);
    } else {
        lemma_all_chars_subrange(s, p, 1, s.len() as int);
        assert(s.skip(1) =~= s.subrange(1, s.len() as int));
        lemma_replace_all_chars(s.skip(1), pat, rep, p);
        assert(all_chars(seq![s[0]], p)) by {
            assert(seq![s[0]][0] == s[0]);
        }
        lemma_all_chars_concat(seq![s[0]], replace_all(s.skip(1), pat, rep), p);
    }
}

pub proof fn lemma_strip_marks_chars(
    s: Seq<char>,
    marks: Seq<Seq<char>>,
    rep: Seq<char>,
    p: spec_fn(char) -> bool,
)
    requires
        all_chars(s, p),
        all_chars(rep, p),
    ensures
        all_chars(strip_marks(s, marks, rep), p),
    decreases marks.len(),
{
    if marks.len() > 0 {
        if marks[0].len() > 0 {
            lemma_replace_all_chars(s, marks[0], rep, p);
        }
        lemma_strip_marks_chars(strip_mark(s, marks[0], rep), marks.drop_first(), rep, p);
    }
}

/// The punctuation passes keep any property that both the text and the
/// replacer have.
pub proof fn lemma_punctuated_chars(
    text: Seq<char>,
    breaker: bool,
    disable_defaults: bool,
    marks: Seq<Seq<char>>,
    p: spec_fn(char) -> bool,
)
    requires
        all_chars(text, p),
        all_chars(replacer(breaker), p),
    ensures
        all_chars(punctuated(text, breaker, disable_defaults, marks), p),
{
    let rep = replacer(breaker);
    if !disable_defaults {
        lemma_strip_marks_chars(text, default_marks(), rep, p);
    }
    let s = if disable_defaults {
        text
    } else {
        strip_marks(text, default_marks(), rep)
    };
    lemma_strip_marks_chars(s, marks, rep, p);
}

pub proof fn lemma_strip_symbols_chars(s: Seq<char>, p: spec_fn(char) -> bool)
    requires
        all_chars(s, p),
    ensures
        all_chars(strip_symbols(s), p),
        all_chars(strip_symbols(s), |c: char| !crate::chars::is_symbol_block(c)),
    decreases s.len(),
{
    reveal(Seq::filter);
    let pred = |c: char| !crate::chars::is_symbol_block(c);
    if s.len() > 0 {
        lemma_all_chars_subrange(s, p, 0, s.len() - 1);
        assert(s.drop_last() =~= s.subrange(0, s.len() - 1));
        lemma_strip_symbols_chars(s.drop_last(), p);
        assert(s.filter(pred) == if pred(s.last()) {
            s.drop_last().filter(pred).push(s.last())
        } else {
            s.drop_last().filter(pred)
        });
    }
}

pub proof fn lemma_collapse_chars(s: Seq<char>, p: spec_fn(char) -> bool)
    requires
        all_chars(s, p),
        p(' '),
    ensures
        all_chars(collapse_first_run(s), p),
{
    let i = find_from(s, 0, CharClass::BreakSpace);
    lemma_find_from(s, 0, CharClass::BreakSpace);
    if i < s.len() {
        lemma_run_end_from(s, i, CharClass::BreakSpace);
        let e = run_end_from(s, i, CharClass::BreakSpace);
        lemma_all_chars_subrange(s, p, 0, i);
        lemma_all_chars_subrange(s, p, e, s.len() as int);
        assert(s.take(i) =~= s.subrange(0, i));
        assert(s.skip(e) =~= s.subrange(e, s.len() as int));
        assert(all_chars(seq![' '], p)) by {
            assert(seq![' '][0] == ' ');
        }
        lemma_all_chars_concat(s.take(i), seq![' '], p);
        lemma_all_chars_concat(s.take(i) + seq![' '], s.skip(e), p);
    }
}

/// Every piece of a split keeps the properties of the text.
pub proof fn lemma_split_chars(s: Seq<char>, start: int, p: spec_fn(char) -> bool)
    requires
        all_chars(s, p),
        0 <= start <= s.len(),
    ensures
        all_words(split_from(s, start), p),
    decreases s.len() - start,
{
    let k = find_from(s, start, CharClass::Space);
    lemma_find_from(s, start, CharClass::Space);
    if k >= s.len() {
        lemma_all_chars_subrange(s, p, start, s.len() as int);
        assert(split_from(s, start) =~= seq![s.subrange(start, s.len() as int)]);
    } else {
        lemma_all_chars_subrange(s, p, start, k);
        lemma_split_chars(s, k + 1, p);
        let head = seq![s.subrange(start, k)];
        let rest = split_from(s, k + 1);
        assert(split_from(s, start) =~= head + rest);
        assert forall|j: int| 0 <= j < head.len() + rest.len() implies all_chars(
            #[trigger] (head + rest)[j],
            p,
        ) by {
            if j > 0 {
                assert((head + rest)[j] == rest[j - 1]);
            }
        }
    }
}

/// The kept tokens are among the pieces.
pub proof fn lemma_keep_nonblank_words(pieces: Seq<Seq<char>>, p: spec_fn(char) -> bool)
    requires
        all_words(pieces, p),
    ensures
        all_words(keep_nonblank(pieces), p),
        forall|k: int|
            0 <= k < keep_nonblank(pieces).len() ==> !blank(#[trigger] keep_nonblank(pieces)[k]),
{
    let pred = |t: Seq<char>| !blank(t);
    broadcast use Seq::lemma_filter_pred;

    assert forall|k: int| 0 <= k < keep_nonblank(pieces).len() implies all_chars(
        #[trigger] keep_nonblank(pieces)[k],
        p,
    ) by {
        assert(pieces.filter(pred).contains(pieces.filter(pred)[k]));
        lemma_filter_member(pieces, pred, pieces.filter(pred)[k]);
    }
    assert forall|k: int| 0 <= k < keep_nonblank(pieces).len() implies !blank(
        #[trigger] keep_nonblank(pieces)[k],
    ) by {
        assert(pred(pieces.filter(pred)[k]));
    }
}

/// What a filter keeps was in the sequence it filtered.
pub proof fn lemma_filter_member(s: Seq<Seq<char>>, pred: spec_fn(Seq<char>) -> bool, x: Seq<char>)
    requires
        s.filter(pred).contains(x),
    ensures
        s.contains(x),
    decreases s.len(),
{
    reveal(Seq::filter);
    if s.len() > 0 {
        if x == s.last() {
            assert(s[s.len() - 1] == x);
        } else {
            let sub = s.drop_last().filter(pred);
            assert(sub.contains(x)) by {
                let j = choose|j: int| 0 <= j < s.filter(pred).len() && s.filter(pred)[j] == x;
                if pred(s.last()) {
                    assert(s.filter(pred) == sub.push(s.last()));
                    assert(j < sub.len());
                    assert(sub[j] == x);
                } else {
                    assert(sub[j] == x);
                }
            }
            lemma_filter_member(s.drop_last(), pred, x);
            let i = choose|i: int| 0 <= i < s.drop_last().len() && s.drop_last()[i] == x;
            assert(s[i] == x);
        }
    }
}

/// A blank text has no tokens.
pub proof fn lemma_tokens_of_blank(s: Seq<char>)
    requires
        blank(s),
    ensures
        tokens_of(s) == Seq::<Seq<char>>::empty(),
{
    let p = |c: char| is_break_space(c);
    assert(all_chars(s, p));
    lemma_split_chars(s, 0, p);
    let pieces = split_from(s, 0);
    let pred = |t: Seq<char>| !blank(t);
    assert forall|k: int| 0 <= k < pieces.len() implies !pred(#[trigger] pieces[k]) by {
        assert(all_chars(pieces[k], p));
    }
    assert(pieces.all(|x: Seq<char>| !pred(x)));
    pieces.lemma_all_neg_filter_empty(pred);
    assert(keep_nonblank(pieces).len() == 0);
}

/// Every word the scan of `t` yields keeps the properties of `t`, and is not
/// empty.
pub proof fn lemma_scan_chars(t: Seq<char>, i: int, p: spec_fn(char) -> bool)
    requires
        all_chars(t, p),
        0 <= i <= t.len(),
    ensures
        all_words(scan_from(t, i), p),
        forall|k: int| 0 <= k < scan_from(t, i).len() ==> (#[trigger] scan_from(t, i)[k]).len() > 0,
    decreases t.len() - i,
{
    if i < t.len() {
        let head: Seq<Seq<char>>;
        let next: int;
        if is_ascii_digit(t[i]) {
            lemma_run_end_from(t, i, CharClass::AsciiDigit);
            next = run_end_from(t, i, CharClass::AsciiDigit);
            head = seq![t.subrange(i, next)];
            lemma_all_chars_subrange(t, p, i, next);
        } else if is_latin_class(t[i]) {
            lemma_run_end_from(t, i, CharClass::Latin);
            next = run_end_from(t, i, CharClass::Latin);
            head = seq![t.subrange(i, next)];
            lemma_all_chars_subrange(t, p, i, next);
        } else if is_cjk_class(t[i]) {
            next = i + 1;
            head = seq![seq![t[i]]];
            assert(all_chars(seq![t[i]], p)) by {
                assert(seq![t[i]][0] == t[i]);
            }
        } else {
            next = i + 1;
            head = Seq::empty();
        }
        lemma_scan_chars(t, next, p);
        let rest = scan_from(t, next);
        assert(scan_from(t, i) =~= head + rest);
        assert forall|k: int| 0 <= k < head.len() + rest.len() implies all_chars(
            #[trigger] (head + rest)[k],
            p,
        ) && (head + rest)[k].len() > 0 by {
            if k >= head.len() {
                assert((head + rest)[k] == rest[k - head.len()]);
            }
        }
    }
}

/// The words of tokens keep the properties of the tokens; none of them is
/// empty when no token is blank.
pub proof fn lemma_words_of_chars(tokens: Seq<Seq<char>>, p: spec_fn(char) -> bool)
    requires
        all_words(tokens, p),
        forall|k: int| 0 <= k < tokens.len() ==> !blank(#[trigger] tokens[k]),
    ensures
        all_words(words_of(tokens), p),
        forall|k: int| 0 <= k < words_of(tokens).len() ==> (#[trigger] words_of(tokens)[k]).len() > 0,
    decreases tokens.len(),
{
    if tokens.len() > 0 {
        let init = tokens.drop_last();
        let t = tokens.last();
        assert(all_chars(t, p));
        assert(!blank(t));
        lemma_words_of_chars(init, p);
        lemma_scan_chars(t, 0, p);
        let tw = token_words(t);
        assert(all_words(tw, p) && forall|k: int| 0 <= k < tw.len() ==> (#[trigger] tw[k]).len() > 0)
            by {
            if scan_from(t, 0).len() == 0 {
                assert(tw =~= seq![t]);
                assert(t.len() > 0) by {
                    if t.len() == 0 {
                        assert(blank(t));
                    }
                }
            }
        }
        let w = words_of(init);
        assert(words_of(tokens) == w + tw);
        assert forall|k: int| 0 <= k < w.len() + tw.len() implies all_chars(
            #[trigger] (w + tw)[k],
            p,
        ) && (w + tw)[k].len() > 0 by {
            if k >= w.len() {
                assert((w + tw)[k] == tw[k - w.len()]);
            } else {
                assert((w + tw)[k] == w[k]);
            }
        }
    }
}

/// Replacing a one-character mark distributes over concatenation: no match
/// can straddle the seam.
pub proof fn lemma_replace_single_concat(a: Seq<char>, b: Seq<char>, x: char, rep: Seq<char>)
    ensures
        replace_all(a + b, seq![x], rep) == replace_all(a, seq![x], rep) + replace_all(
            b,
            seq![x],
            rep,
        ),
    decreases a.len(),
{
    let pat = seq![x];
    if a.len() == 0 {
        assert(a + b =~= b);
        assert(replace_all(a, pat, rep) =~= Seq::<char>::empty());
        assert(Seq::<char>::empty() + replace_all(b, pat, rep) =~= replace_all(b, pat, rep));
    } else {
        let s = a + b;
        assert(s.take(1) =~= seq![a[0]]);
        assert(a.take(1) =~= seq![a[0]]);
        assert(s.skip(1) =~= a.skip(1) + b);
        assert(s[0] == a[0]);
        lemma_replace_single_concat(a.skip(1), b, x, rep);
        if a[0] == x {
            assert(replace_all(s, pat, rep) == rep + replace_all(s.skip(1), pat, rep));
            assert(replace_all(a, pat, rep) == rep + replace_all(a.skip(1), pat, rep));
        } else {
            assert(seq![a[0]] != pat) by {
                assert(seq![a[0]][0] != pat[0]);
            }
            assert(replace_all(s, pat, rep) == seq![a[0]] + replace_all(s.skip(1), pat, rep));
            assert(replace_all(a, pat, rep) == seq![a[0]] + replace_all(a.skip(1), pat, rep));
        }
        assert(replace_all(s, pat, rep) =~= replace_all(a, pat, rep) + replace_all(b, pat, rep));
    }
}

/// Marks of one character each.
pub open spec fn single_char_marks(marks: Seq<Seq<char>>) -> bool {
    forall|k: int| 0 <= k < marks.len() ==> (#[trigger] marks[k]).len() == 1
}

pub proof fn lemma_default_marks_single()
    ensures
        single_char_marks(default_marks()),
{
}

/// Stripping one-character marks distributes over concatenation.
pub proof fn lemma_strip_single_concat(
    a: Seq<char>,
    b: Seq<char>,
    marks: Seq<Seq<char>>,
    rep: Seq<char>,
)
    requires
        single_char_marks(marks),
    ensures
        strip_marks(a + b, marks, rep) == strip_marks(a, marks, rep) + strip_marks(b, marks, rep),
    decreases marks.len(),
{
    if marks.len() > 0 {
        let m = marks[0];
        assert(m.len() == 1);
        assert(m =~= seq![m[0]]);
        lemma_replace_single_concat(a, b, m[0], rep);
        assert(single_char_marks(marks.drop_first())) by {
            assert forall|k: int| 0 <= k < marks.drop_first().len() implies (
            #[trigger] marks.drop_first()[k]).len() == 1 by {
                assert(marks.drop_first()[k] == marks[k + 1]);
            }
        }
        lemma_strip_single_concat(
            strip_mark(a, m, rep),
            strip_mark(b, m, rep),
            marks.drop_first(),
            rep,
        );
    }
}

/// Nothing is left of nothing.
pub proof fn lemma_strip_empty(marks: Seq<Seq<char>>, rep: Seq<char>)
    ensures
        strip_marks(Seq::empty(), marks, rep) == Seq::<char>::empty(),
    decreases marks.len(),
{
    if marks.len() > 0 {
        lemma_strip_empty(marks.drop_first(), rep);
    }
}

/// A lone character that is one of the marks is deleted when the replacer is
/// empty.
pub proof fn lemma_strip_lone_mark(c: char, marks: Seq<Seq<char>>, k: int)
    requires
        single_char_marks(marks),
        0 <= k < marks.len(),
        marks[k] == seq![c],
    ensures
        strip_marks(seq![c], marks, Seq::empty()) == Seq::<char>::empty(),
    decreases marks.len(),
{
    let rep = Seq::<char>::empty();
    let m = marks[0];
    assert(m.len() == 1);
    assert(seq![c].skip(1) =~= Seq::<char>::empty());
    assert(seq![c].take(1) =~= seq![c]);
    if m == seq![c] {
        assert(replace_all(seq![c], m, rep) == rep + replace_all(seq![c].skip(1), m, rep));
        assert(strip_mark(seq![c], m, rep) =~= Seq::<char>::empty());
        lemma_strip_empty(marks.drop_first(), rep);
    } else {
        assert(replace_all(seq![c], m, rep) == seq![c] + replace_all(seq![c].skip(1), m, rep));
        assert(strip_mark(seq![c], m, rep) =~= seq![c]);
        assert(k > 0);
        assert(marks.drop_first()[k - 1] == marks[k]);
        assert(single_char_marks(marks.drop_first())) by {
            assert forall|j: int| 0 <= j < marks.drop_first().len() implies (
            #[trigger] marks.drop_first()[j]).len() == 1 by {
                assert(marks.drop_first()[j] == marks[j + 1]);
            }
        }
        lemma_strip_lone_mark(c, marks.drop_first(), k - 1);
    }
}

/// The words found after the passes in a text made of break space only: none.
pub proof fn lemma_pipeline_of_blank(s: Seq<char>)
    requires
        blank(s),
    ensures
        words_of(tokens_of(collapse_first_run(strip_symbols(s)))) == Seq::<Seq<char>>::empty(),
{
    let p = |c: char| is_break_space(c);
    assert(all_chars(s, p));
    lemma_strip_symbols_chars(s, p);
    lemma_collapse_chars(strip_symbols(s), p);
    let c = collapse_first_run(strip_symbols(s));
    assert(blank(c)) by {
        assert forall|i: int| 0 <= i < c.len() implies #[trigger] is_break_space(c[i]) by {
            assert(p(c[i]));
        }
    }
    lemma_tokens_of_blank(c);
}

/// Inserting an empty mark anywhere among the marks changes nothing.
pub proof fn lemma_strip_marks_empty_mark(
    s: Seq<char>,
    marks: Seq<Seq<char>>,
    k: int,
    rep: Seq<char>,
)
    requires
        0 <= k <= marks.len(),
    ensures
        strip_marks(s, marks.insert(k, Seq::empty()), rep) == strip_marks(s, marks, rep),
    decreases k,
{
    let ins = marks.insert(k, Seq::<char>::empty());
    if k == 0 {
        assert(ins.drop_first() =~= marks);
        assert(ins[0] == Seq::<char>::empty());
    } else {
        assert(ins[0] == marks[0]);
        assert(ins.drop_first() =~= marks.drop_first().insert(k - 1, Seq::<char>::empty()));
        lemma_strip_marks_empty_mark(strip_mark(s, marks[0], rep), marks.drop_first(), k - 1, rep);
    }
}

/// A filter that every element passes keeps the sequence.
pub proof fn lemma_filter_all_pass<A>(s: Seq<A>, pred: spec_fn(A) -> bool)
    requires
        forall|i: int| 0 <= i < s.len() ==> pred(#[trigger] s[i]),
    ensures
        s.filter(pred) == s,
    decreases s.len(),
{
    reveal(Seq::filter);
    if s.len() > 0 {
        lemma_filter_all_pass(s.drop_last(), pred);
        assert(pred(s[s.len() - 1]));
        assert(s.drop_last().push(s.last()) =~= s);
    }
}

/// A one-character mark that does not occur is not replaced.
pub proof fn lemma_replace_absent(s: Seq<char>, x: char, rep: Seq<char>)
    requires
        forall|i: int| 0 <= i < s.len() ==> #[trigger] s[i] != x,
    ensures
        replace_all(s, seq![x], rep) == s,
    decreases s.len(),
{
    if s.len() > 0 {
        assert(s.take(1) =~= seq![s[0]]);
        assert(seq![s[0]] != seq![x]) by {
            assert(seq![s[0]][0] != seq![x][0]);
        }
        lemma_replace_absent(s.skip(1), x, rep);
        assert(seq![s[0]] + s.skip(1) =~= s);
    }
}

/// One-character marks none of which occurs leave the text as it is.
pub proof fn lemma_strip_absent(s: Seq<char>, marks: Seq<Seq<char>>, rep: Seq<char>)
    requires
        single_char_marks(marks),
        forall|k: int, i: int|
            0 <= k < marks.len() && 0 <= i < s.len() ==> #[trigger] s[i] != (#[trigger] marks[k])[0],
    ensures
        strip_marks(s, marks, rep) == s,
    decreases marks.len(),
{
    if marks.len() > 0 {
        let m = marks[0];
        assert(m =~= seq![m[0]]);
        assert forall|i: int| 0 <= i < s.len() implies #[trigger] s[i] != m[0] by {
            assert(s[i] != marks[0][0]);
        }
        lemma_replace_absent(s, m[0], rep);
        let rest = marks.drop_first();
        assert(single_char_marks(rest)) by {
            assert forall|j: int| 0 <= j < rest.len() implies (#[trigger] rest[j]).len() == 1 by {
                assert(rest[j] == marks[j + 1]);
            }
        }
        assert forall|k: int, i: int| 0 <= k < rest.len() && 0 <= i < s.len() implies #[trigger] s[i]
            != (#[trigger] rest[k])[0] by {
            assert(rest[k] == marks[k + 1]);
        }
        lemma_strip_absent(s, rest, rep);
    }
}

/// A text with no break space is not changed by the collapse.
pub proof fn lemma_collapse_no_break(s: Seq<char>)
    requires
        forall|i: int| 0 <= i < s.len() ==> !is_break_space(#[trigger] s[i]),
    ensures
        collapse_first_run(s) == s,
{
    lemma_find_from(s, 0, CharClass::BreakSpace);
}

/// A text with no ASCII space splits into itself alone.
pub proof fn lemma_split_no_space(s: Seq<char>)
    requires
        forall|i: int| 0 <= i < s.len() ==> #[trigger] s[i] != ' ',
    ensures
        split_from(s, 0) == seq![s],
{
    lemma_find_from(s, 0, CharClass::Space);
    assert(s.subrange(0, s.len() as int) =~= s);
}

/// The words of a single token are the token's words.
pub proof fn lemma_words_of_one(t: Seq<char>)
    ensures
        words_of(seq![t]) == token_words(t),
{
    assert(seq![t].drop_last() =~= Seq::<Seq<char>>::empty());
    assert(seq![t].last() == t);
    assert(words_of(Seq::<Seq<char>>::empty()) == Seq::<Seq<char>>::empty());
    assert(Seq::<Seq<char>>::empty() + token_words(t) =~= token_words(t));
}

} // verus!
