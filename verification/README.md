# p2p_tunnel

A peer-to-peer tunnel: TCP and UDP forwards, standard streams and a chat between
the nodes of a room, with a terminal UI, a web UI and an authorization of inbound
connections.

The decisions of the program stand in a library that is verified with Verus. What
each function returns, and how it changes the state, is said in its contract over
plain mathematical models. The public proof functions whose names begin with
`law_` state what holds across functions.

- `src/` — the library.
  - `forward_args`, `forward_store`, `controller`, `forward_runtime`, `startup`:
    forwards, their arguments, their storage and their counters.
  - `auth`: policies, remembered decisions, waiting requests, the audit log.
  - `negotiation`, `session`: proposals between nodes, and the state of a session.
  - `rtc`: the peers of a room, messages and their routing.
  - `tcp`, `udp`, `stdio`, `proxy`: what travels through a tunnel.
  - `signal`: the connection to a signaling server.
  - `tui`, `chat`, `control_shell`, `web`: the front ends, without their I/O.
  - `text`, `text_map`, `text_set`, `number`, `calendar`, `model`: helpers.
- `tests/` — tests of the library.
- `app/` — the program: arguments, files, sockets, the terminal, HTTP and the
  network. It hands the library what happened and does what the library says.
