# cfnat

The control side of a Cloudflare IP service, with its decisions verified in
Verus. The program gathers the address pool, serves the control API and keeps
a DNS record pointed at the pool's addresses; it does not forward traffic
itself (no balancer, probe or forwarder is part of it).

- `src/` is the verified library: command-line parsing and the help screen
  (`args`), text handling (`text`), addresses as plain values (`net`), the
  service configuration and its start/stop state (`service`, `types`), the
  resolver's decisions (`dns_resolver`), the DNS updater's settings, status
  and round-by-round decisions (`dns_updater`) and the control API's replies
  (`api`).
- `app/` is the program around it: reading the command line and files, name
  lookups, the Cloudflare HTTP calls, the timer and task of the updater, the
  HTTP control API, and the floating-point loss-rate setting.
- `tests/` runs the library on concrete inputs.
