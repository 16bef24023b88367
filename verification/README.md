# http_streams_core

Framework-neutral building blocks for streaming HTTP bodies as sequences of items: JSON arrays,
JSON lines, CSV, length-prefixed Protobuf, Arrow IPC and raw text, in both directions wherever
that is possible, plus coalescing of chunks and progress accounting.

- `src/` is the library. Every function in it carries a contract that Verus proves; the few that
  call into another crate say what they rely on. Functions named `law_..` state what holds of
  several functions together. For JSON arrays, JSON lines and length-prefixed Protobuf they say
  that a body reads back as what it was written from however it is cut into chunks. For CSV and
  Arrow IPC, whose values are written and read by the `csv` and `arrow` crates, `law_csv` and
  `law_arrow` say only that the cuts make no difference.
- `tests/` runs the library, with the outside crates linked.
- `app/` is the asynchronous side: it waits for bytes and items, serialises values, calls handlers
  and writes log events, and leaves every decision to the library.
