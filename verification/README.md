# qeli

The transport core of the qeli tunnel as a verified library: what a client and a server decide,
stated as contracts and proved with Verus.

- `src/` is the library. Addresses and routes: `cidr`, `ip_text`, `routes`, `network`,
  `network_plan`, `plan_messages`, `journal`. Authentication: `session`, `response_messages`,
  `auth_flow`. Client runtime: `carrier`, `runtime`, `path`, `diagnostic`, `probe_registry`,
  `event_frame`, `buffer_pool`, `packet_tun`, `linux_tun`. TCP roaming: `orphan_limiter`,
  `tcp_roaming`, `shared_limiter`, `roaming_metrics`. TLS front: `reality`. UDP server: the `udp_` modules.
- `tests/` runs the library.
- `app/` is ordinary Rust around it: sockets, descriptors, threads and JSON.

State machines take what happened and say what to do next; times are nanoseconds unless a name says
otherwise. Sizes of wire formats are arguments (`UdpWire`, `FragmentLimits`, `AuthLimits`).

What is trusted: `ipnet` and the address parser of the standard library (`ip_text`), `serde_json`
(`json_text`), `rand` (`randomness`), the quoted form of a text (`response_messages`) and
`String::push` (`text`). Each trusted item says in its comment what it claims.
