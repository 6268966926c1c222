# leddy_lib

Shared logic for LED-matrix controllers, verified with Verus:

- `src/render.rs`: the monochrome frame buffer, its mapping onto the physical
  LED chain for every starting corner and for serpentine wiring, text
  rendering with the 5x7 font of `src/font.rs`, and the playback and scroll
  rules of messages.
- `src/firmware.rs`: the firmware update controller, which verifies signed
  manifests and artifacts before staging an image, activates staged images,
  and rolls back an image whose boots keep failing.
- `src/safety.rs`: the safety controller, which latches a fail-safe output
  when a limit is crossed, records fault history, and releases the latch only
  on a fresh, single-use authorization.
- `src/interfaces.rs`: the data types that the controllers exchange.
- `src/crypto.rs`: SHA-256, base64 and Ed25519, called through the `sha2`,
  `base64` and `ed25519-dalek` crates.

`app/lib.rs` holds what the verified library cannot: the floating-point scroll
timing, displayable errors, and the JSON form of manifests over which
publishers sign.
