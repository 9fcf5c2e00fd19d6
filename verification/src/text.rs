//! The text passes of the word detector, each as a spec function over
//! `Seq<char>` and an executable function proved to compute it: literal
//! substring replacement, symbol-block stripping, the first-run whitespace
//! collapse, the split into tokens, and the scan of one token into words.

use vstd::prelude::*;
use vstd::slice::slice_subrange;
use vstd::slice::slice_to_vec;

use crate::chars::{
    find, find_from, is_ascii_digit, is_blank, is_symbol_block, lemma_find_from, lemma_run_end_from,
    run_end, run_end_from, blank, CharClass,
};
use crate::ranges::{is_cjk_class, is_latin_class};

verus! {

broadcast use vstd::seq_lib::group_seq_properties;

/// The character sequences held by a list of character vectors.
pub open spec fn char_views(ws: Seq<Vec<char>>) -> Seq<Seq<char>> {
    ws.map_values(|w: Vec<char>| w@)
}

// ---------------------------------------------------------------------------
// Literal substring replacement
// ---------------------------------------------------------------------------

/// Every non-overlapping occurrence of `pat` in `s`, found left to right,
/// replaced by `rep`. A `pat` that is empty leaves `s` unchanged.
pub open spec fn replace_all(s: Seq<char>, pat: Seq<char>, rep: Seq<char>) -> Seq<char>
    decreases s.len(),
{
    if pat.len() == 0 || s.len() < pat.len() {
        s
    } else if s.take(pat.len() as int) == pat {
        rep + replace_all(s.skip(pat.len() as int), pat, rep)
    } else {
        seq![s[0]] + replace_all(s.skip(1), pat, rep)
    }
}

/// Whether `pat` occurs in `s` at position `i`.
fn matches_at(s: &[char], i: usize, pat: &[char]) -> (r: bool)
    requires
        i + pat@.len() <= s@.len(),
    ensures
        r == (s@.subrange(i as int, i + pat@.len()) == pat@),
{
    let n = s.len();
    let m = pat.len();
    let mut j: usize = 0;
    while j < m
        invariant
            n == s@.len(),
            m == pat@.len(),
            i + m <= s@.len(),
            j <= m,
            forall|k: int| 0 <= k < j ==> s@[i + k] == pat@[k],
        decreases m - j,
    {
        if s[i + j] != pat[j] {
            assert(s@.subrange(i as int, i + m)[j as int] != pat@[j as int]);
            return false;
        }
        j = j + 1;
    }
    assert(s@.subrange(i as int, i + m) =~= pat@);
    true
}

/// Append the characters of `src` to `out`.
fn push_all(out: &mut Vec<char>, src: &[char])
    ensures
        final(out)@ == old(out)@ + src@,
{
    let n = src.len();
    let mut j: usize = 0;
    while j < n
        invariant
            n == src@.len(),
            j <= n,
            out@ == old(out)@ + src@.take(j as int),
        decreases n - j,
    {
        out.push(src[j]);
        assert(src@.take(j + 1) =~= src@.take(j as int).push(src@[j as int]));
        j = j + 1;
    }
    assert(src@.take(n as int) =~= src@);
}

/// Replace every non-overlapping occurrence of `pat` in `s`, left to right, by
/// `rep`.
pub fn replace_chars(s: &[char], pat: &[char], rep: &[char]) -> (out: Vec<char>)
    requires
        pat@.len() > 0,
    ensures
        out@ == replace_all(s@, pat@, rep@),
{
    let n = s.len();
    let m = pat.len();
    let mut out: Vec<char> = Vec::new();
    let mut i: usize = 0;
    assert(s@.skip(0) =~= s@);
    while i < n
        invariant
            n == s@.len(),
            m == pat@.len(),
            m > 0,
            i <= n,
            replace_all(s@, pat@, rep@) == out@ + replace_all(s@.skip(i as int), pat@, rep@),
        decreases n - i,
    {
        let ghost rest = s@.skip(i as int);
        if n - i >= m && matches_at(s, i, pat) {
            assert(rest.take(m as int) =~= s@.subrange(i as int, i + m));
            assert(rest.skip(m as int) =~= s@.skip(i + m));
            push_all(&mut out, rep);
            assert(replace_all(s@, pat@, rep@) =~= out@ + replace_all(s@.skip(i + m), pat@, rep@));
            i = i + m;
        } else {
            if n - i >= m {
                assert(rest.take(m as int) =~= s@.subrange(i as int, i + m));
            } else {
                assert(s@.skip(i + 1).len() < m);
            }
            assert(rest.skip(1) =~= s@.skip(i + 1));
            assert(rest =~= seq![s@[i as int]] + rest.skip(1));
            out.push(s[i]);
            assert(replace_all(s@, pat@, rep@) =~= out@ + replace_all(s@.skip(i + 1), pat@, rep@));
            i = i + 1;
        }
    }
    assert(s@.skip(n as int) =~= Seq::<char>::empty());
    assert(out@ + Seq::<char>::empty() =~= out@);
    out
}

// ---------------------------------------------------------------------------
// Symbol blocks
// ---------------------------------------------------------------------------

/// `s` without the characters of the always-stripped symbol blocks.
pub open spec fn strip_symbols(s: Seq<char>) -> Seq<char> {
    s.filter(|c: char| !is_symbol_block(c))
}

/// Drop the General Punctuation and Halfwidth/Fullwidth Forms characters.
pub fn retain_visible(s: &[char]) -> (out: Vec<char>)
    ensures
        out@ == strip_symbols(s@),
{
    let n = s.len();
    let mut out: Vec<char> = Vec::new();
    let mut i: usize = 0;
    while i < n
        invariant
            n == s@.len(),
            i <= n,
            out@ == strip_symbols(s@.take(i as int)),
        decreases n - i,
    {
        let c = s[i];
        assert(s@.take(i + 1) =~= s@.take(i as int).push(c));
        proof {
            s@.take(i as int).lemma_filter_push(c, |c: char| !is_symbol_block(c));
        }
        if !is_symbol_block(c) {
            out.push(c);
        }
        i = i + 1;
    }
    assert(s@.take(n as int) =~= s@);
    out
}

// ---------------------------------------------------------------------------
// First whitespace run
// ---------------------------------------------------------------------------

/// `s` with its first maximal run of break-space characters replaced by one
/// ASCII space; later runs stay as written. A string without break space is
/// unchanged.
pub open spec fn collapse_first_run(s: Seq<char>) -> Seq<char> {
    let i = find_from(s, 0, CharClass::BreakSpace);
    if i >= s.len() {
        s
    } else {
        s.take(i) + seq![' '] + s.skip(run_end_from(s, i, CharClass::BreakSpace))
    }
}

/// Replace the first maximal run of whitespace with a single ASCII space.
pub fn collapse_first_whitespace_run(s: &[char]) -> (out: Vec<char>)
    ensures
        out@ == collapse_first_run(s@),
{
    let n = s.len();
    let start = find(s, 0, CharClass::BreakSpace);
    if start == n {
        return slice_to_vec(s);
    }
    proof {
        lemma_find_from(s@, 0, CharClass::BreakSpace);
    }
    let end = run_end(s, start, CharClass::BreakSpace);
    proof {
        lemma_run_end_from(s@, start as int, CharClass::BreakSpace);
    }
    let mut out = slice_to_vec(slice_subrange(s, 0, start));
    out.push(' ');
    push_all(&mut out, slice_subrange(s, end, n));
    assert(s@.subrange(0, start as int) =~= s@.take(start as int));
    assert(s@.subrange(end as int, n as int) =~= s@.skip(end as int));
    out
}

// ---------------------------------------------------------------------------
// Tokens
// ---------------------------------------------------------------------------

/// The pieces of `s` from `start` on, split at each ASCII space, as
/// `str::split(' ')` gives them: empty pieces included, and one piece more than
/// there are spaces.
pub open spec fn split_from(s: Seq<char>, start: int) -> Seq<Seq<char>>
    decreases s.len() - start,
{
    let k = find_from(s, start, CharClass::Space);
    if start < 0 || start > s.len() || k >= s.len() {
        seq![s.subrange(start, s.len() as int)]
    } else {
        proof {
            lemma_find_from(s, start, CharClass::Space);
        }
        seq![s.subrange(start, k)] + split_from(s, k + 1)
    }
}

/// The pieces that are not blank.
pub open spec fn keep_nonblank(pieces: Seq<Seq<char>>) -> Seq<Seq<char>> {
    pieces.filter(|t: Seq<char>| !blank(t))
}

/// The tokens of `s`: its pieces split at each ASCII space, without those that
/// are blank.
pub open spec fn tokens_of(s: Seq<char>) -> Seq<Seq<char>> {
    keep_nonblank(split_from(s, 0))
}

/// Split `s` at each ASCII space and drop the pieces that are blank.
pub fn split_tokens(s: &[char]) -> (out: Vec<Vec<char>>)
    ensures
        char_views(out@) == tokens_of(s@),
{
    let n = s.len();
    let mut out: Vec<Vec<char>> = Vec::new();
    let mut start: usize = 0;
    loop
        invariant
            n == s@.len(),
            start <= n,
            tokens_of(s@) == char_views(out@) + keep_nonblank(split_from(s@, start as int)),
        decreases n - start,
    {
        let k = find(s, start, CharClass::Space);
        proof {
            lemma_find_from(s@, start as int, CharClass::Space);
        }
        let piece = slice_subrange(s, start, k);
        let ghost head = seq![s@.subrange(start as int, k as int)];
        let ghost rest = if k == n { Seq::<Seq<char>>::empty() } else { split_from(s@, k + 1) };
        assert(split_from(s@, start as int) =~= head + rest);
        proof {
            Seq::filter_distributes_over_add(head, rest, |t: Seq<char>| !blank(t));
        }
        let ghost prev = out@;
        if !is_blank(piece) {
            out.push(slice_to_vec(piece));
            assert(keep_nonblank(head) =~= head) by {
                reveal_with_fuel(Seq::filter, 2);
            }
        } else {
            assert(keep_nonblank(head) =~= Seq::<Seq<char>>::empty()) by {
                reveal_with_fuel(Seq::filter, 2);
            }
        }
        assert(char_views(out@) =~= char_views(prev) + keep_nonblank(head));
        if k == n {
            assert(keep_nonblank(rest) =~= Seq::<Seq<char>>::empty());
            assert(tokens_of(s@) =~= char_views(out@));
            return out;
        }
        start = k + 1;
    }
}

// ---------------------------------------------------------------------------
// Scanning one token
// ---------------------------------------------------------------------------

/// The words that the scan of `t` from position `i` yields. At each position it
/// tries, in order: a run of ASCII digits, a run of Latin/Cyrillic/Malayalam
/// letters, then a single CJK/kana/Hangul character. A character that matches
/// nothing is skipped.
pub open spec fn scan_from(t: Seq<char>, i: int) -> Seq<Seq<char>>
    decreases t.len() - i,
{
    if i < 0 || i >= t.len() {
        Seq::empty()
    } else if is_ascii_digit(t[i]) {
        let e = run_end_from(t, i, CharClass::AsciiDigit);
        proof {
            lemma_run_end_from(t, i, CharClass::AsciiDigit);
        }
        seq![t.subrange(i, e)] + scan_from(t, e)
    } else if is_latin_class(t[i]) {
        let e = run_end_from(t, i, CharClass::Latin);
        proof {
            lemma_run_end_from(t, i, CharClass::Latin);
        }
        seq![t.subrange(i, e)] + scan_from(t, e)
    } else if is_cjk_class(t[i]) {
        seq![seq![t[i]]] + scan_from(t, i + 1)
    } else {
        scan_from(t, i + 1)
    }
}

/// Scan one whitespace token into words, left to right. The result is empty
/// when the token has no matchable character, which tells the caller to keep
/// the token whole.
pub fn scan_token(t: &[char]) -> (carry: Vec<Vec<char>>)
    ensures
        char_views(carry@) == scan_from(t@, 0),
{
    let n = t.len();
    let mut carry: Vec<Vec<char>> = Vec::new();
    let mut i: usize = 0;
    while i < n
        invariant
            n == t@.len(),
            i <= n,
            scan_from(t@, 0) == char_views(carry@) + scan_from(t@, i as int),
        decreases n - i,
    {
        let c = t[i];
        let ghost prev = carry@;
        if is_ascii_digit(c) {
            let end = run_end(t, i, CharClass::AsciiDigit);
            proof {
                lemma_run_end_from(t@, i as int, CharClass::AsciiDigit);
            }
            carry.push(slice_to_vec(slice_subrange(t, i, end)));
            assert(char_views(carry@) =~= char_views(prev) + seq![t@.subrange(i as int, end as int)]);
            i = end;
        } else if is_latin_class(c) {
            let end = run_end(t, i, CharClass::Latin);
            proof {
                lemma_run_end_from(t@, i as int, CharClass::Latin);
            }
            carry.push(slice_to_vec(slice_subrange(t, i, end)));
            assert(char_views(carry@) =~= char_views(prev) + seq![t@.subrange(i as int, end as int)]);
            i = end;
        } else if is_cjk_class(c) {
            let mut w: Vec<char> = Vec::new();
            w.push(c);
            carry.push(w);
            assert(char_views(carry@) =~= char_views(prev) + seq![seq![c]]);
            i = i + 1;
        } else {
            i = i + 1;
        }
    }
    assert(char_views(carry@) + Seq::<Seq<char>>::empty() =~= char_views(carry@));
    carry
}

} // verus!
