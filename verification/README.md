# debsource

Reads Debian package index files ("Packages" lists) into package records,
compares versions and priorities, keeps one record per package name, and
finds cached records by a glob pattern on their names.

- `src/` is the library, verified with Verus: each public function states
  what it returns over a model of its inputs (`Seq<char>` for text, a
  `PackageView` for a record), and the proof functions state the laws that
  hold between the functions.
  - `row.rs`: reading an index file (`SourcePackage::from_row`).
  - `depends.rs`: one entry of a dependency field (`parse_depends`).
  - `version.rs`: version comparison (`comp_version`, `split_in_upstream`).
  - `priority.rs`, `package.rs`, `table.rs`: the record and its parts.
  - `select.rs`: `choose_package`, `resolve_duplication`.
  - `search.rs`: glob search over cached records, and taking a cache file
    into the list of cached records.
  - `report.rs`: the amount and rate that `update` reports.
  - `text.rs`: splitting, joining and trimming text.
- `app/` holds what touches files, threads, the network and the terminal:
  the cache directory, the progress bar and the `update` command.
- `tests/` runs the library on concrete inputs.
