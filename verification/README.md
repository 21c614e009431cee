# betterrgb

Lighting logic for ARGB fan panels driven through an OpenRGB SDK server,
written in Verus so that its rules are proved rather than only tested.

## Layout

- `src/` — the verified library.
  - `openrgb` — the OpenRGB wire format: packet framing, request payloads and
    the parser for the controller description a server sends back.
  - `engine` — panel geometry (serpentine lanes, slot and strip indices),
    frame construction, diagnostic patterns, the marquee, and the decisions
    of the connection loop.
  - `font` — the three-pixel-wide bitmap font the marquee draws with.
  - `shapes`, `stack`, `score`, `floodfill`, `rng` — the pieces the games are
    built from: tetromino shapes and rotations, the settled stack, the
    placement heuristic, free-space counting and the random source.
  - `snake`, `tetris`, `games` — the two self-playing games and the palette
    that shows them on the panel.
  - `appcolor` — brand colours for the foreground application and the window
    and sensor classifiers.
  - `settings` — the names under which modes, patterns and styles are saved,
    and the checks applied to user-supplied values.
- `tests/` — executable tests of the library.
- `app/` — the desktop shell: the Tauri commands, the engine thread, sockets,
  audio capture, sensors and everything that works with floating-point colour.
