# freshstart

A verified library for a per-user Windows start-up manager: it lists the programs that
start with the user's session (values of the per-user `Run` keys and shortcuts in the
Startup folder), names them, flags risky ones, and switches them off and back on without
losing or overwriting anything.

`src/` holds the library, verified with Verus:

- `text`: character sequences, trimming, searching, decimal numbers.
- `model`: the entry, record and error types.
- `command`: `%NAME%` expansion and finding the program a command line runs.
- `naming`: Windows path pieces, known applications and friendly names.
- `risk`: command interpreters and vendor components.
- `order`: code-point text order and a stable sort.
- `records`, `store`: remembered entries and the history store.
- `listing`: merging present and remembered entries into the displayed list.
- `entries`: entry ids, `Run` key paths and the items found on the system.
- `toggle`: switching an entry off or on, as a state machine whose actions the host
  performs.
- `version`: which version-resource strings name a program, and which answer is taken.

`app/` is the host side: registry, file system, clock, environment, version resources
and the SQLite history file. `tests/` exercises the library.
