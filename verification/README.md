# fork_join

Gathers kill records from the lines of a set of CSV data files and ranks
them: the ten killers with the most kills (each with the shares of its
three leading weapons) and the ten weapons with the largest share of all
kills (with the average distance of their kills).

- `src/` is the verified library. Records are gathered line by line
  (`utils::process_line`), merged (`utils::merge`), summarised
  (`utils::process_weapon_stats`) and ranked (`utils::get_top_killers`,
  `utils::get_top_weapons`, `output::Output::from_records`). Shares and
  distances are kept as integers in hundredths, rounded half up; a figure
  that is undefined (no kills, no known distance) is `None`.
  `src/laws.rs` proves that merging is associative and commutative with the
  empty records as identity, so that the rankings do not depend on how the
  lines are shared among workers or in which order they are gathered.
- `app/` is the program: argument handling, reading the directory with a
  thread pool, the floating-point distance between the two positions of a
  line, and writing the output as JSON.
- `tests/` runs the library on concrete records.

Run: `fork_join <input-path> <num-threads> <output-file-name>`.
