# arboretum

An OpenTelemetry log and trace cache: it takes OTLP exports over HTTP, keeps
logs, spans and span events in SQLite for a short while, answers queries over
them, serves a small web interface, and comes with a terminal viewer.

## Layout

- `src/` is the library, verified with Verus:
  - `level.rs`: severity levels, their names, ranks and the OTLP severity table;
  - `text.rs`: character-level text operations (trimming, splitting, integer
    parsing and printing, text order);
  - `otlp.rs`: conversion of export requests into stored records;
  - `json.rs`: the `serde_json` values, maps and texts that records carry;
  - `db.rs`: stored records and the SQL statements that store, select, walk
    span trees and expire them;
  - `handlers.rs`: the query API's records, their order, deduplication and
    paging, and how query parameters become filters;
  - `config.rs`: defaults and environment overrides;
  - `tui.rs`: the viewer's filters, line rendering, record store, keys and
    polling cursor;
  - `web.rs`: which embedded file a request asks for and the answer to it.
- `app/` is the program around it: the HTTP server (axum), the SQLite store
  (tokio-rusqlite), protobuf decoding, the terminal drawing and input, and
  command-line handling.
- `tests/` exercises the library.
