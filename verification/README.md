# qwasm2

The engine core of a Quake 2 engine for the browser, written in Verus: each
public function states its behaviour in `requires` / `ensures` over
mathematical models (`Seq`, `Map`, `int`) and is proved against it.

## Layout

- `src/` — the verified library
  - `binary`, `net_msg`, `usercmd`, `netchan` — little-endian readers, the
    network message buffer, delta-compressed user commands and the
    sequenced/reliable network channel, with write-then-read laws
  - `delta`, `player_delta` — entity and player-state delta compression:
    flag bytes, field widths and wire order, over the integers that
    coordinates and angles travel as, and applying a delta read onto the
    previous state
  - `packet_entities`, `frame` — the entity list of a frame (removals,
    deltas against the old frame or a baseline, terminator) and the frame
    message itself, read into a ring of recent frames
  - `cmd`, `cvar` — console tokenizer, command buffer and registry; console
    variables with their flag rules (no-set, latch, userinfo)
  - `zone` — tagged memory accounting
  - `filesystem` — PAK directory parsing and the search path
  - `collision` — BSP header and integer lumps, MD4 checksum, area
    connectivity
  - `spawn`, `items`, `player`, `hud`, `spawn_table`, `constants` — entity
    strings, the item table and pickup rules, userinfo lookup, HUD stats,
    the classname spawn table
  - `bundler`, `content` — the single-file HTML page and the development
    server's decisions
  - `text`, `error` — string helpers and the engine error type
- `tests/` — executable tests of the library
- `app/` — the command-line program: file and network I/O, the async
  development server, and the floating-point parsing of spawn origins
