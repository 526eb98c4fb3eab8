# canton

The core of a multi-user dungeon played on hexagonal maps, written in Verus
with its behaviour stated in contracts and proved.

- `src/` is the verified library: hex coordinates and map indexes,
  command matching and argument parsing, the login conversation, telnet
  line framing, movement, the bookkeeping of persisted entities, and the
  helpers behind the map widget and scripts. Calls into `radix_trie`,
  `bcrypt`, `hexx`, `zstd` and `base64` go through small trusted wrappers
  whose contracts say what those crates document.
- `tests/` runs the library against concrete scenarios, with the real
  outside crates linked.
- `app/` is a console front end: it reads a player's input from standard
  input, drives the login and the commands through the library, and draws
  the map around the player.
