# useproxy

A proxy for local development: it forwards API requests by path prefix,
serves static files, speaks HTTPS with a self-signed certificate, and keeps
a bounded log of proxied requests. This crate is its verified core; the
program around it lives in `app/`.

- `src/text.rs` — character-level string helpers, specified over `Seq<char>`.
- `src/config.rs` — the configuration, its defaults, the rule edits and the
  `PATH -> TARGET` rule syntax.
- `src/proxy.rs` — rule matching, address rewriting, forwarded headers and
  log entries of forwarded requests.
- `src/cors.rs` — the CORS rules derived from the configuration.
- `src/logger.rs` — the bounded request log and its filter.
- `src/cli.rs` — the commands and what each does to the configuration.
- `app/` — argument parsing, configuration files, the HTTP server and client.
