# Asteria

The verified core of a small browser engine, written in Verus. Every
function under `src/` carries a contract that Verus proves; the few calls
into the standard library and rustls that Verus cannot read stand behind
small trusted wrappers, each documented where it is declared.

## Layout

- `src/` — the library.
  - `text` — character-level helpers and their specifications.
  - `css_tokens`, `css_tokenizer`, `css_parser`, `style`, `properties`,
    `interner` — CSS from bytes to rules, selectors and specificity;
    selector matching against the DOM, the rule index, and the cascade
    (`style::matching`, `style::cascade`).
  - `tokens`, `dom`, `parser`, `loader`, `image` — the DOM arena, the tree
    builder, stylesheet discovery, resource cache and image decoding
    decisions.
  - `paint`, `scene`, `segment`, `batching`, `buffer_pool`, `font` — the
    rendering bookkeeping: link safety, dirty propagation, viewport tiles,
    batch planning, buffer reuse and the fallback glyphs.
  - `shell`, `shell_ui`, `chrome`, `commands` — tabs and history, the
    address bar, chrome links and the command line.
  - `cache`, `pool`, `arena`, `scheduler`, `devtools` — LRU cache, object
    pool, frame arena, task queue, observability switches and traces.
  - `net` — URLs and HTTP messages, response reading decisions, the DNS
    cache with rebinding protection, the connection pool's reuse, idle
    expiry and eviction, TLS server names, network errors and streaming
    fetch events.
- `tests/` — tests run against the compiled library.
- `app/` — the command-line front end: files, sockets, the system
  resolver, clocks, channels, and the floating-point reports and frame
  budgets.

Laws that span several operations (history navigation, cache and pool
round trips, dirty-flag propagation, resolver answers after a lookup, and
others) are stated as public proof functions next to the code they are
about.
