# quant_lab_engine

A small quantitative research engine whose decision logic is verified with
Verus.

- `src/` is the verified library. Every public function states in its
  contract what it returns; laws that relate several functions are public
  proof functions (for example `parallel::partition_ranges_cover_input`,
  `parallel::parallel_collect_matches_sequential`,
  `scheduler::completion_is_idempotent`, `study_log::best_score_is_maximal`).
  Floating-point values are held as IEEE-754 bit patterns (`Float64`) and
  are only compared, negated, made absolute and classified.
- `app/` holds the programs (`study-log`, `bench`, `demo`) and everything
  that computes with `f64`, reads files, the clock or the command line, or
  starts threads. It calls the library for every check, lookup, ordering and
  decision.
- `tests/` exercises the library on concrete values.

Two standard-library calls are trusted rather than verified:
`text::string_from_chars` collects characters into a `String`, and
`benchmark::sort_ascending` sorts timings with `slice::sort_unstable`.
