# pch_easy_ipv6

Keeps a downstream interface in step with the IPv6 prefix that an upstream
router delegates through Router Advertisements: it picks a subnet of the
delegated prefix, gives its first address to the downstream interface, routes
the subnet there when asked to, and has radvd advertise it.

- `src/` is the verified library: prefix arithmetic (`ipv6`), Router
  Advertisement decoding over pnet's packet views (`ra`), the host-side decisions and texts (`host`),
  the settings (`config`) and the per-advertisement state machine (`handler`).
- `app/` is the program around it: packet capture, interface lookup, running
  `ip` and `systemctl`, writing `/etc/radvd.conf`, reading `config.json`.
- `tests/` runs the library on concrete values.
