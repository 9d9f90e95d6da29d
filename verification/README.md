# anetd

A DNS proxy and ad-blocking domain filter daemon for Android, written as a
verified library with a thin executable around it.

The daemon intercepts netd's `dnsproxyd` socket (or serves DNS itself over
UDP/TCP), matches every looked-up hostname against Adblock-style domain rules
(`||domain^` blocks a domain and its sub-domains, `@@||domain^` allows it),
answers blocked lookups itself and passes everything else on.

## Layout

- `src/` — the library, verified with Verus: rule parsing and matching
  (`rules`), the dnsproxyd command parsers and handlers (`handlers`,
  `session`), the DNS and dnsproxyd wire formats (`dns`), the TTL-aware
  response cache (`dns::cache`), the DNS server's per-query decisions
  (`dns_server`), the command line and settings (`cli`, `config`), netlink
  route messages (`network`) and the WebUI socket's JSON replies (`webui`).
  Every public function states its result in its contract, except where
  the result is the clock's or the machine's (the uptime, the byte order);
  the `law_*`
  proof functions state properties that span functions (what a read gives
  back of a write, allow rules winning over block rules, and so on).
- `app/` — the executable: sockets, files, signals, daemonization, logging
  and the async runtime, calling the library for every decision.
- `tests/` — tests of the library on concrete values.
