# labworks

A Verus-verified library behind a handful of command-line tools, and the
tools themselves.

- `src/` is the verified library:
  - `text`: character-level string functions (`trim`, `lines`, `u32`
    parsing, decimal notation, code-point order) with exact specifications;
  - `index`: a file index that maps paths to tags, kept as JSON, with the
    laws of adding and searching;
  - `backend`: choice of the index storage from a `TYPE:PATH` setting, and
    the SQLite search query;
  - `image_cli`: arguments and output names of the batch image resizer;
  - `uploader`, `downloader`, `pipeline`, `timing`, `macros_demo`,
    `sync_primitives`, `arith`: the computing parts of the other tools.
- `app/` is the command-line program: file, network and database I/O,
  threads, async runtimes, image resampling, and the demonstrations that
  rest on features the library does not hold.
- `tests/` exercises the library on concrete values.
