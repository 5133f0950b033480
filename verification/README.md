# mwtest

A test runner for applications configured in an `apps.json`: it selects apps,
builds and test presets, finds their tests (by glob or from a gtest executable),
runs them locally or through a remote XGE launcher with repeats and retries,
reports progress, a summary and an XML results file, and keeps a sparse svn
checkout of the test cases in step with the dev working copy.

Layout:

- `src/` — the library, verified with Verus:
  - `text.rs` — operations on text (search, replace, split, trim, numbers);
  - `config.rs` — command templates, input paths, selection of builds and presets;
  - `inputs.rs` — test ids from test case paths and gtest lists;
  - `runnable.rs` — the runs of each group and their commands;
  - `scheduler.rs` — the remote queue, retries, local schedule, gtest output;
  - `report.rs` — progress lines, run counts, summary and XML results;
  - `commands.rs` — id filters, checkout and update paths, build plans;
  - `svn.rs` — svn path arithmetic and the reading of svn's answers;
  - `xge.rs` — the launcher's messages and commands.
- `tests/` — tests of the library.
- `app/` — the command line program: file system, processes, sockets and svn.
