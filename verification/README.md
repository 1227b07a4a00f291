# zz_client

The client of ZombieZap, a co-op zombie survival game, as a verified library
with a thin Bevy program around it.

`src/` decides: what a message from the server does to the session, which
inputs are replayed after an acknowledgement, which remote entity takes which
row of a snapshot, what the HUD shows, which sounds get a voice, in which order
voice frames are played, how meshes are put together. Every function there
states what it returns or changes, and Verus proves it. Properties that span
functions stand beside them as `law_…` proof functions.

`app/` does: the window, the socket, the microphone, the page, the scene, and
everything that computes with floating point.

Numbers that are only compared cross the border as bit patterns
(`scalar::F32`, `scalar::F64`), whose order is that of the floats.

| module | what it decides |
|---|---|
| `game`, `intents` | the session: connecting, lobby, match, statistics |
| `net`, `wire`, `seams` | what arrives, what is sent, what waits in between |
| `predict`, `remotes` | numbered inputs and their replay; samples of the others |
| `lod`, `models`, `rigs` | how figures are built, and which of them move |
| `hud` | labels, rows, overlays, markers |
| `voice`, `audio` | mute, framing, jitter, voices and clips |
| `touch`, `egui_click_latch`, `boot` | pointers, clicks, the first frames |
| `map_render`, `mountain_dressing`, `retro` | walls, windows, textures, props |
| `platform`, `text`, `scalar` | the page and its fields; text; float order |
