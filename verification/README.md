# MiniKV

A key-value store of strings. Writes are appended to a log (`.minikv.log`),
a `snapshot` command writes the whole store to `.minikv.data` and empties
the log, and at start the store is rebuilt from both files. Clients talk to
the server over TCP, one request per line:

    set "clave" "valor"
    get "clave"
    set "clave"
    length
    snapshot

In both files a line is normally written as it always was: `set "key"
"value"` in the log and `"key" "value"` in the snapshot, with each `"` of
key and value written `\"`, and any line is read the same way: trimmed of
quotes, split at `" "`, `\"` read as `"`. Where such a line would not read
back as the pair written (an empty key or value, a value ending with a
quote, a key ending with a quote and a space, a line break), the exact form
is written instead: `set! "key" "value"` in the log, `!"key" "value"!` in
the snapshot, with `"`, `\` and line breaks written `\"`, `\\` and `\n`.
So every key and value reads back as it was written.

## Layout

- `src/` — the library, verified with Verus:
  - `texto.rs`: trimming, escaping, reading quoted text back and line
    breaking over `Seq<char>`;
  - `diccionario.rs`: the dictionary, a list of pairs with distinct keys
    seen as a `Map`;
  - `comando.rs`: commands;
  - `minikv.rs`: the store, the formats of its log and snapshot lines, and
    how it is rebuilt from them;
  - `protocolo.rs`: splitting a request line into words, and what the
    server does about an error;
  - `minikv_errors.rs`: the errors and their messages;
  - `leyes.rs`: properties across operations: reads after writes, counts,
    and that the log and snapshot files give the store back, for any keys
    and values.
- `app/` — the server and client programs: sockets, threads, locks and
  files.
- `tests/` — tests of the library.
