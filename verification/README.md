# brb_node_qp2p

A node of a Byzantine reliable broadcast (BRB) group, driven from a console and
talking to its peers over QUIC.

`src/` is the verified library:

- `text.rs`: character buffers, hex digits, prefixes and the decimal reading of
  `u64` values.
- `actor.rs`: member identities (32-byte public keys), their `i:xxxxxx` labels and
  their byte-wise order.
- `message.rs`: peer addresses, BRB packets, network messages and router commands.
- `node.rs`: the node's BRB instance (membership and an ORSWOT set of `u64`), reached
  through the `brb` crates.
- `router.rs`: the peer table, the packets awaiting acknowledgement, and the step the
  router takes on each command, returning what is to be sent and shown.
- `repl.rs`: what each console command comes to.
- `laws.rs`: properties of the router across commands.

`app/` is the program around it: the QUIC endpoint, the network encoding of
messages, the console loop, logging, and the tasks that connect them.
