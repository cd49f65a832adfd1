# easytier

The parts of a mesh VPN that disguise its traffic and shape its packets, written in
Verus: executable Rust whose behaviour is stated in contracts and proved.

- `src/` is the library. `wire`, `text`, `display` and `net` are its vocabulary: integers
  as bytes, text, numbers and addresses as text. `tunnel` holds the disguises (TLS records,
  WebSocket frames, HTTP upgrades), padding and packets; `socket` the user-space TCP that
  continues connections of the kernel; `peers` encryption, route costs and the choice of
  exit nodes; `common` the replay window and the reading of interfaces; `instance` the
  default route and the life of the network interface.
- `tests/` runs the library on concrete values.
- `app/` runs it against the operating system. It performs what the library's state
  machines ask for and hands back what came of it. Packet devices, the lists of routes and
  what the mesh knows of its nodes are traits there, for an instance to implement; requests
  over netlink and WinDivert are not in it.

Randomness, the clock, digests, ciphers, URLs and the concurrent map come from other
crates, behind small functions whose contracts say what is taken for granted of them.
