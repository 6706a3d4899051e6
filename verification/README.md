# cairn-net

The networking half of a node: framing, introductions, syncing, being handed a
ledger, whom to talk to, what to keep on the disk, and what to tell the person
running it. Every rule is stated as a contract and proved with Verus.

- `src/` is the library. It opens no socket, reads no file and asks no clock.
- `tests/` runs it on concrete values.
- `app/` is the node around it: sockets, threads, the resolver and the clock.
  The chain, the files, the address book, the choice of whom to follow and the
  encoding of a message are given to it as traits.
