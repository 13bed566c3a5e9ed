# netsand

A per-process network sandbox manager. A daemon runs one filtering HTTP
proxy per profile; `netsand run PROFILE -- CMD` starts a command whose
outbound traffic the platform firewall (iptables owner rules, a pf anchor,
or Windows Firewall rules) limits to TCP to `127.0.0.1` on that profile's
proxy port, and the proxy lets through only the profile's domains and
addresses. Without a sandbox user (Linux, macOS) only the proxy variables
are set and nothing is enforced by the operating system.

- `src/` is the verified library (Verus): domain/IP policies (`config`,
  `sets`, `ip`), request-line and routing decisions (`proxy`), the upstream
  proxy handshake as a state machine (`upstream`), profile construction
  (`profile`), the daemon's record (`state`), and the commands and
  environment each platform's sandbox uses (`sandbox`). `text` holds the
  string helpers the rest is stated over.
- `app/` is the command-line program around it: sockets, files, processes,
  TOML and JSON.
- `tests/` runs the library on concrete inputs.
