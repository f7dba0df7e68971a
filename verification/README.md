# tunproxy

The verified core of a transparent proxy that reads packets from a wintun
device, hands them to smoltcp, and forwards the connections over TLS.

- `src/domain.rs`: the list of proxied domain names and the suffix test on
  queried names, with the laws that the test obeys (monotone in the list,
  blind to a final dot, closed under sub-labels, finds a listed name under any
  top-level label).
- `src/packet.rs`: reading the destination of an IPv4/IPv6 TCP or UDP packet
  with smoltcp's packet views, and deciding whether a socket is needed.
- `src/registry.rs`: the endpoints that have a socket, so that each gets one.
- `src/waker.rs`: which wakers a borrowed socket gets.
- `src/keepalive.rs`: the once-a-second schedule that refreshes an ipset entry.
- `src/tls.rs`: which certificate verifier the TLS client uses.
- `src/startup.rs`: whether the proxy starts (the server host name must be a
  valid TLS server name) and which routines it runs.
- `src/server_name.rs`: a parsed TLS server name kept with the text it came
  from.
- `app/`: start-up (`run`), the wintun device, the TLS client configuration
  and the keep-alive task, which do the I/O around the library.
