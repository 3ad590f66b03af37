# yxorp

An edge reverse proxy for Linux whose decisions are proved with Verus.

`src/` is the verified library. Every function states what it returns or changes, and Verus
proves it:

- `config`: the configuration, its rules, the route table, weighted pools of upstreams
- `proxy`: message heads and bodies of HTTP/1.1, the courses of the fast engine and of the ring
  engine, the general engine's gateway, HTTP/3 requests, idle connections, rate limits, packet
  routes for eBPF, splicing
- `runtime`: the completion runtime for io_uring: operation slab, ring, timers, tasks, buffers,
  shards
- `l4`: plans for IPVS services
- `admin`, `control`, `acme`: the admin API, reload, shutdown and health checks, certificates
- `addr`, `fault`, `octets`, `text`, `time`, `uri`: the values that the rest speaks of

Calls into other crates (`http`, `httparse`, `memchr`, `subtle`) stand in small functions marked
`external_body`; the comment above each says what is claimed of the call.

`app/` is the program around the library: sockets, TLS, signals, files and processes.
`tests/` runs the library on concrete values.
