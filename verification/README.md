# rserver

The decision-making core of an HTTPS server that audits legal documents,
written in Verus and verified.

- `src/tracker.rs` — per-peer rate limiting: a one-minute window of request
  times, limits, five-minute blocks, and the laws that tie them together.
- `src/http.rs` — routing of request lines, the `Content-Length` header scan,
  and byte-exact framing of responses.
- `src/audit.rs` — audit requests and risk reports: the built-in report and the
  report made from the AI service's answer.
- `src/grok.rs` — the content of requests to the AI service and the reading of
  its answer.
- `src/tls.rs` — TLS set-up from PEM texts through `rustls-pemfile` and `rustls`.
- `src/text.rs` — character helpers: trimming, prefixes, decimal numbers.

`app/` holds the program around the library: sockets, TLS streams, files, the
thread pool, the clock, the HTTP client and JSON (serde copies of the library's
types).
