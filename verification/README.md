# open_sentry

A self-hosted, Sentry-compatible error monitoring service. The decisions the
service makes are a library verified with Verus; the server around it (HTTP,
PostgreSQL, SMTP, Telegram, Twilio) is ordinary Rust under `app/`.

## Layout

- `src/` — the verified library.
  - `envelope` — `Content-Encoding` decoding with size limits and the
    Envelope framing (header line, length-delimited or line items, item and
    event size limits).
  - `grouping` — the fingerprint that groups events into issues, and the laws
    that whitespace, an SDK fingerprint, or in-app stack frames decide it.
  - `scrub`, `ingest` — sensitive-field scrubbing of event payloads and the
    checks an event passes before it is stored.
  - `auth` — password hashing (Argon2), session cookies and token digests
    (SHA-256), roles, and the credentials SDKs present.
  - `operations` — the per-credential fixed-window rate limiter, the runtime
    counters and their Prometheus text, retention scheduling.
  - `notification`, `alert` — channel checks, retry backoff, alert texts and
    the Telegram/Twilio/SMTP requests, escalation of alert rules.
  - `symbols` — debug-file validation and symbolication of stack frames with
    source maps and native symbol tables.
  - `management`, `telemetry`, `config` — the rules of the management API,
    services and structured logs, production configuration checks.
  - `json`, `json_text`, `text`, `digest`, `model`, `error` — the JSON
    documents and how JSON text is read into them, text helpers and types the
    rest is stated over.
- `tests/` — tests of the library.
- `app/` — the server: configuration loading, the axum router and handlers,
  SQL, and the notification, retention and symbolication workers.

Calls into `flate2`, `serde_json`, `sha2`, `argon2`, `uuid`, `sourcemap` and
`object` stand behind small trusted wrappers whose contracts are written next
to them.
