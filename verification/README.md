# Class Capacity Truth

A seat ledger for small language schools: sample (demo) classes per browser,
school workspaces with staff roles, published classes that guardians book,
waitlists with timed released-seat offers, reconciliation against an
iCalendar feed, encrypted contacts that are scrubbed after 90 days, and
operational metrics that never carry user values.

`src/` is the library, verified with Verus:

- `demo` and `school` hold the two ledgers and every operation on them;
  `feeds` and `jobs` the staff listings, exports, calendar checks and the
  email outbox; `laws` properties that span operations.
- `api` decides how each request is checked and how each refusal is
  answered; `auth` which bearer tokens and claims are accepted, with the
  signature and lifetime checked through `jsonwebtoken`.
- `cookies`, `crypto`, `codec`, `ids` and `clock` call `hmac`, `sha2`,
  `base64`, `chacha20poly1305`, `uuid` and `std::time` behind small trusted
  wrappers whose contracts say what the libraries promise.
- `ical` counts calendar events by summary; `metrics` groups routes and
  renders the Prometheus text; `text`, `seqs` and `records` are shared.

`app/` is the server around it: axum routes, rate limits, JSON shapes,
key files, the JSON snapshot that stores the ledgers, the calendar fetches
and the SMTP relay.
