# norm

Distance metrics on strings ("fuzzy matching"), verified with Verus.

Given a query and a candidate string, a metric decides whether the
candidate matches the query and, if it does, how good the match is. Two
metrics implement fzf's algorithms:

- `FzfV1`: the first fuzzy match, shortened from its end (`fzf --algo=v1`);
- `FzfV2`: the best alignment of the query in the candidate, found by
  dynamic programming (`fzf --algo=v2`, fzf's default).

Queries are parsed by `FzfParser` in fzf's extended-search mode: words
separated by spaces must all match, words separated by `|` are
alternatives, and `'`, `^`, `$` and `!` make a word exact, anchored or
inverse.

## Layout

- `src/metric.rs`: the `Metric` trait.
- `src/fzf/`: the fzf metrics. Each module holds its code and the
  mathematical statement of what the code computes:
  - `query.rs`, `parser.rs`: queries and their parsing;
  - `engine.rs`: the meaning of a query (AND of conditions, OR of patterns,
    inverse patterns) and the search that follows it;
  - `common.rs`, `greedy.rs`, `v1.rs`: exact patterns and the v1 algorithm;
  - `v2_spec.rs`, `v2.rs`: the dynamic program of the v2 algorithm, as a
    recurrence and as code;
  - `laws.rs`, `ranges_law.rs`: what holds of every query and candidate;
  - `slab.rs`, `matrix_text.rs`: buffers and score matrices, and their
    printable picture.
- `src/matched_ranges.rs`: sorted, merged byte ranges of the matches.
- `src/candidate.rs`, `src/chars.rs`, `src/normalize.rs`: candidates,
  character comparison and normalization of latin characters.
- `src/tiny_vec.rs`: a vector that moves from a small buffer to a growable
  one when it fills up.
- `src/text.rs`: decimal writing and padding for the printable pictures.
- `tests/`: the test suite.

Run `verus` on `src/lib.rs` to check the proofs.
