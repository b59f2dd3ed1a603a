# gpt-hp-bar (verified core)

The Codex quota bar for Windows: an overlay, a taskbar widget and a tray
icon showing the remaining Codex quota (5 h window, weekly window, credits).

- `src/` is the library, verified with Verus:
  - `status`: failure attribution (`ok`, `no_login`, `no_relay`, `network`,
    `none`) and the network-failure heuristic;
  - `base64url`, `account`: JWT payload decoding, auth.json credentials,
    the active provider of config.toml, the identity in the ID token;
  - `doc`, `parse`: JSON/TOML documents as plain values, parsed through
    `serde_json` and `toml`;
  - `usage`, `fetch`: structure of a usage response, the fallback chain
    (direct REST, local app-server, relay) and its decisions;
  - `geometry`, `taskbar`: occupied taskbar space and the placement of the
    taskbar widget, with its clearance laws;
  - `poll`: the polling schedule (fetch once per interval, follow the
    taskbar every 2 s in between);
  - `settings`, `tray`, `text`: settings validation, tray texts and image,
    string helpers.
- `app/` is the program around it: reading files, HTTP, the app-server process,
  the registry, Win32/UI Automation, the Tauri windows, and the floating-point
  parts (usage numbers, scaling, animation, tray thresholds).
- `tests/` runs the library on concrete values.
