# murmure

Peer-to-peer messaging in a terminal, over Tor onion services. Nobody runs a server: each side
publishes an onion service under a key of its own, and the other side dials it.

## Layout

- `src/` is the library: everything murmure decides, with contracts that Verus proves.
- `tests/` runs the library on concrete values.
- `app/` is the program around it: sockets, files, the terminal, and nothing to decide.

| module | what it holds |
|---|---|
| `message`, `codec`, `proto` | what travels on the wire, its limits, and framing |
| `handshake`, `identity`, `onion`, `crypto` | who is on the line, and how that is proved |
| `store`, `contacts`, `outbox`, `history`, `names` | what is kept on disk, and under which key |
| `presence`, `pool`, `peers`, `link` | connections held open, and who agreed to them |
| `typed`, `chat`, `files` | a conversation, and the files that cross it |
| `command`, `session` | the program between calls |
| `transport` | direct links, and the effort of dialling |
| `ui`, `screen`, `text` | the scrollback, the input line, the selection |

A conversation and the program between calls are state machines: each event is a method that
changes the state and gives back what is to be done, in order. What an event does is a spec
function over a view of the state; the laws at the end of a module are stated over those.

What the library has from elsewhere stands behind contracts that are believed, not proved. They
are in `crypto` (signatures, addresses, key derivation, sealing, randomness), in `codec` (postcard
on plain values), in `text` (quoting a string) and in `ui` (base64).

## Conventions

- Times come in as arguments: seconds since the epoch for messages, milliseconds for the screen.
- Nothing here touches a disk. `save` gives the sealed bytes to write, `open` takes what was read.
- A file in a transfer is named by the digest it was offered under until that digest is verified.
