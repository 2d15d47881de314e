# cover_compositor

Cover images on a terminal, and volume changes on a remote device, both protected against bursts
of input.

- `src/` is the library, verified with Verus. `compositor` owns the slots, `slot` and `surface`
  decide when an image is encoded and transmitted again, `graphics` states what is relied on of
  `ratatui`, `ratatui-image` and `image`, `iterm2` and `base64_text` make escape sequences, and
  `volume` coalesces volume updates. `laws`, `escape_laws` and `volume_laws` prove what holds
  over several requests or updates.
- `tests/` runs the library against the real crates.
- `app/` writes to the terminal and the log, and runs the volume worker on tokio.
