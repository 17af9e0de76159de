# rcmd_suit

A remote command suite: clients talk to a server over TCP or UDP, exchange RSA
keys, cut long messages into parts, send files, and set up peer-to-peer links.

`src/` is the library, verified with Verus:

- `bytes`, `agreement`, `subpackage`, `stream_parser`: the package format, reading
  packages out of a byte stream, and big-endian fields.
- `msg_split`, `udp_msg_split`: cutting messages into parts and merging them back.
- `udp_sender`, `def_udp_sender`, `attched_udp_sender`: reliable, ordered delivery
  over datagrams, with sessions, acknowledgements, resends and closing.
- `udp_client`: what the UDP client does with each datagram from the server and how
  its loop reads packages out of delivered messages.
- `asy_cry`: the key exchange and which messages are encrypted.
- `client_loop`, `console`, `save_file`, `client_handlers`: the decisions of the
  client: what a received message leads to, what a typed line means, how files are
  framed and saved.
- `p2p_plugs`: link requests and the hello handshake between two clients.
- `cycle_count`, `data_current_limiter`, `data_transform`: wrapping counters, a
  send-rate limit, and zlib compression.

`app/` is the command-line client around the library, over TCP or (with `-u`) UDP:
sockets, standard input, files, and JSON bodies. `tests/` runs the library on concrete values.
