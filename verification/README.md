# otdm

The services that give a customer a WireGuard tunnel and a subdomain: an API
server that registers customers, a VPN server that adds WireGuard peers, and a
proxy server that routes a fresh subdomain to the customer through HAProxy.

- `src/` is the verified library (Verus): text handling with the meaning that
  `str` gives it, decimal numbers, the CQL statements and the reading of
  `cqlsh` tables, the subdomain counter, tunnel-address allocation, the HAProxy
  configuration edit, and, as step functions from state and event to next
  state and action, how the API, proxy and VPN servers handle a request.
- `app/` runs the servers: WebSockets, `cqlsh`, `wg`, HAProxy and files; it
  performs each action and reports the outcome back as the next event. Its
  first argument picks the server role.
- `tests/` runs the library on concrete values.
