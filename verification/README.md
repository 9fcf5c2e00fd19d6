# count_words

Count words in text that mixes scripts: Chinese, Japanese, Korean, Latin,
Cyrillic, Malayalam, numbers, and punctuation. The library is written in Verus;
what each entry point returns is proved against a spec function of the whole
heuristic.

## Layout

- `src/lib.rs`: `Config`, `WordsResult`, and the entry points `detect_words`,
  `count_words`, `split_words`.
- `src/pipeline.rs`: the spec function `detect` that composes the passes, and
  the built-in punctuation list.
- `src/text.rs`: the passes (literal replacement, symbol-block strip, first-run
  whitespace collapse, split into tokens, scan of a token), each a spec function
  with an executable function proved to compute it.
- `src/chars.rs`, `src/ranges.rs`: character classes and run searches.
- `src/strings.rs`: conversions between strings and character vectors.
- `src/laws.rs`: proved laws (blank text, always-stripped symbol blocks,
  trailing built-in marks, empty custom marks, one word per CJK character,
  letter runs split at spaces, unmatched tokens kept whole).
- `src/facts.rs`: lemmas the laws rest on.
