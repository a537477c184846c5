# route_doctor

The verified core of a network path and latency monitor (continuous mtr-style
path tracing, ping monitoring, DNS queries, network information).

- `src/` is the library, verified with Verus: packet building and reply
  attribution, the bookkeeping of parallel traceroute rounds, the decisions of
  continuous traces, the parsers of system tool output, DNS query plans,
  GeoIP caching, session registries, the sample writer and history queries.
  Each public function states its result in `ensures`; the laws that relate
  several calls are public proof functions.
- `app/` is ordinary Rust around it: sockets and packet capture, system
  commands, DNS and HTTP clients, SQLite, floating-point statistics and the
  event stream to a user interface.
- `tests/` runs the library on concrete values.
