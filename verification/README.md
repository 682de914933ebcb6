# dogel

The core of a peer-to-peer messenger for the terminal, verified with Verus, and the program around
it.

`src/` is the library. It decides everything that the messenger does, and every function in it is
proved against its contract:

- `text`, `table`, `codec`: texts, ordered sets and maps of texts, and the byte records that
  signatures cover.
- `primitives`: the calls into other crates (cryptography, base64, peer ids and addresses, shell
  words). Their contracts are believed, not proved.
- `peer`, `protocol`, `ids`, `crypto`, `membership`: what peers exchange, and how it is named,
  encrypted and signed.
- `storage`, `trust`, `pins`, `login`: identities, pinned keys and encrypted histories.
- `room`, `invite`, `message`, `replay`, `inbound`, `history`: rooms, invites and messages, sent and
  received, and what holds over a whole session.
- `discovery`, `network`, `swarm`, `route`: the directory of a bootstrap node, what a node does on
  each event of its swarm, and how a peer is found and reached.
- `command`, `dispatch`, `session`, `shell`, `reply`, `report`, `policy`, `startup`: commands and
  what they answer.
- `tui`, `keys`, `screen`: the full-screen front end.

Functions named `law_...` state what holds across several functions.

`app/` is the program: files, serialisation, the libp2p swarm, the line editor and the screen. It
carries out what the library asks for and hands back what happened.

`tests/` runs the library with the crates that it is linked to.
