# FrenchTV

A desktop viewer for the television of French operators.

- `src/` is the library, verified with Verus: formats, rewriting rules, state machines, and
  what is done next. It reads and writes nothing outside itself.
  - `fmp4/`, `mpd`, `numbers`, `xml`, `license`, `cdm`, `widevine`: what a protected stream is
    made of, and how it is put into clear form.
  - `proxy`, `proxy_state`, `segment_flow`, `drm_startup`: the local proxy that serves such a
    stream to a player.
  - `app`, `auth`, `screens/`, `guide`, `channel`: which screen is shown, and what it does.
  - `preview`, `preview_capture`, `capture_flow`, `player_control`: preview frames, and what the
    players are told.
  - `bytes`, `text`, `text_map`: byte strings and texts.
  - `text_laws`, `proxy_laws`, `number_laws`, `manifest_laws`, `fetch_laws`, `fmp4/laws` and
    `fmp4/rebuild_laws`: what is proved across functions.
- `tests/` runs the library on examples.
- `app/` is the program around it: windows and drawing, threads, network, disk, the players'
  processes, and the decryption module.
