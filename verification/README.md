# archelon

A Markdown-based task and note journal: every entry is a plain `.md` file
named `{year}/{id}_{slug}.md`, with optional YAML frontmatter (title, tags,
task and event fields). The library under `src/` holds the journal's logic,
verified with Verus; `app/` is the command-line program around it.

## Library (`src/`)

- `slug`, `path`, `text`: slugs of titles, `/`-separated path handling, and
  character-level string helpers.
- `id`, `calendar`, `clock`: identifiers, calendar arithmetic and the local
  clock, obtained from the `caretta-id` and `chrono` crates.
- `time`: dates and date-times as plain integers, with their ordering and
  durations.
- `entry`, `entry_ref`, `error`: the data model, references to entries (path,
  identifier or title) and error values.
- `parser`, `yaml_text`, `show`, `editor`: splitting a file into
  frontmatter and body, writing every frontmatter field back as YAML with
  double-quoted, escaped values, the `show` text, and the editor template
  round trip.
- `labels`, `listing`, `filter`: status flags (overdue, new, stale, hidden,
  ...), match labels for date ranges, table layout and date-option parsing.
- `edit`: building and updating frontmatter from command-line fields.
- `journal`: locating the journal root, year directories, entry file names
  and lookup by identifier prefix.
- `cache`: which files a cache sync re-reads or drops, identifier lookup in
  the cache, and the row stored for an entry.

Laws about the library (for example that a slug is idempotent, that a
rendered entry splits back into exactly its frontmatter text and body, that
a sync leaves the cache matching the disk, or that a new entry's file name
is found by its identifier) are
stated as public proof functions next to the functions they speak of, or in
those functions' postconditions.

## Program (`app/`)

Argument parsing (`clap`), file and process I/O, YAML and TOML decoding
(`serde_yaml`, `toml`), JSON output (`serde_json`) and the SQLite cache
(`rusqlite`).
