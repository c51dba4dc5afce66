# poem_api

A REST API for classical Chinese poetry (Actix Web + SQLite), whose core
rules are written in Verus and proved against their contracts.

Layout:

- `src/` — the verified library:
  - `daily.rs` — FNV-1a and the date-based choice of the daily poem;
  - `middleware/auth.rs` — API-key check (`X-API-Key` or `Authorization: Bearer`),
    length-independent key comparison;
  - `middleware/rate_limit.rs` — per-client sliding-window rate limiter, with the
    proof that no client gets more than `limit` requests admitted in a window;
  - `repository.rs` — list filters, paging and distributions as SQL text plus
    bound values (no request value ever reaches the SQL text; the conditions
    open with one ` WHERE ` and join with ` AND `, one placeholder per bound
    value; a page whose offset does not fit is refused as a bad request);
  - `config.rs` — configuration from environment values, with defaults;
  - `error.rs`, `models.rs`, `handlers/` — error codes and messages, response
    envelopes, paging rules;
  - `import.rs`, `json.rs`, `db.rs` — rules of the data-set import (Traditional →
    Simplified conversion with OpenCC, line cleaning, de-duplication key) and of
    the seed data;
  - `text.rs` — white space, trimming, prefixes, ASCII lower case.
- `app/` — the program around it: HTTP server, middleware adapters, database
  access, cache, OpenAPI document, and the `import` command
  (`poem_api import <chinese-poetry json dir>`).
- `tests/` — tests of the library.

At run time the server reads `migrations/`, `data/poems.json` and
`static/index.html` from its working directory.
