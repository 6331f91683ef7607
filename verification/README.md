# hydroxyl

A terminal editor for the files of a Minecraft server: player `.dat` files,
any NBT file, and the stats and advancements JSON files of a world.

The library under `src/` is written in Verus and verified: every public
function states what it returns or changes, and the laws that tie the
operations together are proved as proof functions next to them.

- `domain/nbt`, `domain/json`: the value trees of NBT and JSON documents,
  paths into them, flattening into display rows, reading and replacing the
  value at a path, and editing a scalar from text.
- `domain/minecraft`: what the player view reads from a player tree
  (inventory layout and cursor, attributes, position, abilities, identity),
  and the model of a server workspace.
- `domain/files`: file kinds, player UUIDs in file names, server and world
  roots.
- `persistence`: unsaved-change tracking, gzip framing of NBT payloads and
  backup names.
- `services`: loading workspaces, opening, refreshing, editing and saving
  documents, and the bookkeeping of player face lookups.
- `session`: documents, tabs, messages, key bindings and the editor state.
- `cli`: the command line and the launch settings it gives.

`app/` is the program around the library: argument parsing, file and
network I/O, the NBT and JSON parsers, image decoding and the terminal.
