# entry

The logic of a budget-entry service, verified with Verus: request checks,
role decisions, the SQL of entry listings and updates (with every placeholder
matched by a bind value), the storage of tags, bulk imports, split entries and
the stepping of recurring entries by a minimal RRULE.

Layout:

- `src/` — the verified library.
  - `text.rs` — strings as character sequences: trimming, splitting, joining,
    decimals, placeholder lists.
  - `dates.rs` — calendar dates and the trusted calls into `chrono`.
  - `error.rs` — status codes and messages.
  - `converters.rs` — stored rows, their mapping to messages, kinds and tags.
  - `handler.rs` — the checks of incoming requests.
  - `manager/` — `validate` (request validators), `biz` (roles, splits, bulk
    imports), `repository` (query building, paging, insert and update plans),
    `scheduler` (RRULE reading and next occurrences).
  - `pb/` — the messages of the service.
- `app/` — the service around the library: the MySQL store (sqlx), the budget
  service client, the request handlers and the hourly scheduler (tokio).
- `tests/` — tests of the library.
