# bantam

A peer-to-peer messaging library. A peer joins a network through one of its
members, learns of the others from it, and connects to each of them. From then on
peers exchange packets of bytes directly.

- `src/` decides and computes, and is verified with Verus.
  - `endian`: little-endian integers
  - `binary_stream`: byte streams that are written or read
  - `net`, `util`: addresses, and the form in which they are exchanged
  - `packet`: what streams carry, and the packets
  - `framing`: packets on a connection, whole or in segments
  - `peer`: the peers that one of them knows
  - `session`: how a peer opens, serves and closes its connections
  - `plain`: addresses over the streams of `plain_binary_stream`
  - `laws`: what holds of all of these together
- `app/` runs it on tokio: sockets, tasks and timers.

On a connection a packet is its size in four bytes, one byte for its kind, and its
content. All integers are little-endian.
