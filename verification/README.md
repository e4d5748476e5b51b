# uptime_api

Uptime and content-integrity monitoring for hosted sites. A check traces a
site through DNS resolution, TCP connect, TLS handshake and an HTTP
exchange, and verifies that an expected string is present in the body.
A check fails only when a stage fails; wrong content does not fail it but
opens an incident, which is resolved when the content matches again.

## Layout

- `src/` — the library, verified with Verus:
  - `engine/handler/dns.rs`: DNS names in wire form, query packets, and the
    reader of responses (`parse_dns_response`), with proofs that a name the
    encoder writes is read back whole and that a well-formed A response reads
    back its address.
  - `engine/handler/http.rs`: the probe request and the reader of raw HTTP
    responses (status code, BLAKE3 content hash, content match).
  - `engine/handler/check.rs`: the check pipeline's result and its
    transitions; `engine/handler/tls.rs`: certificate expiry.
  - `engine/worker.rs`, `engine/scheduler.rs`, `engine/health.rs`: what a job
    is, how a check becomes a row, when a content snapshot is stored, when an
    incident opens or resolves, how a due URL fans out into one job per
    region, and the health report.
  - `http/url.rs`: URL payload validation; `config.rs`, `secrets.rs`:
    configuration from raw environment values; `error.rs`: how errors are
    answered; `text.rs`: whitespace, trimming, words, lines and numbers as
    std reads them.
- `tests/` — tests of the library.
- `app/` — the service around it: environment, Postgres, the HTTP server,
  the scheduler and the region worker's network I/O.
