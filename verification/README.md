# dock

`dock` archives project folders into `.tar.gz` files kept in one storage
folder, lists them, mounts (extracts) them back, and deletes them.

- `src/` is the verified library:
  - `config` — the archive records and the settings (`Archive`, `Config`),
    name validation, archive ids, and the operations on the record list
    (lookup by id or name, removal, replacement by name, total size);
  - `commands` — the decisions the command line makes between prompts;
  - `size` — the human-readable size text, with the rounding of the `f64`
    division reproduced in integer arithmetic;
  - `dates` — dates of Unix timestamps as `YYYY-MM-DD hh:mm`;
  - `style` — colored terminal text;
  - `archiver` — entry naming and the extraction plan for archive entries;
  - `text` — trimming, padding and number formatting on characters.
- `app/` is the program: argument parsing, prompts, the settings file on disk
  and the compression itself.
- `tests/` runs the library on concrete values.
