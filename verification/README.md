# ustam

A simplified `ls`: lists a directory with optional long format, sorting by
name, size or modification time, hidden-file filtering and `.gitignore`-aware
exclusion. Directories show the tagline of their `README.md`, PDF files their
title.

Layout:

- `src/` — the verified library (Verus):
  - `text.rs`: character-level string operations (search, trim, lines, split,
    replace, decimal numbers) with their specifications;
  - `gitignore.rs`: glob semantics, wildcard matching, `.gitignore` parsing and
    matching;
  - `details.rs`: README taglines, PDF titles and the extension info of entries;
  - `cli.rs`: command-line parsing (short and long options, help, version,
    completion scripts) and path validation;
  - `entry.rs`: entries, filtering, sizes, times and output lines;
  - `order.rs`: the orders on entries and a verified stable sort;
  - `laws.rs`: properties of the library stated and proved across functions.
- `app/main.rs` — the program: reads arguments and the file system, calls the
  library, prints.
- `tests/` — tests of the library.
