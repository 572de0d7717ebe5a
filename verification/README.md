# usbcan

Frames, identifiers and wire codecs for a USB–CAN adapter, verified with Verus.

- `src/id.rs`: standard (11-bit) and extended (29-bit) identifiers.
- `src/frame.rs`: data and remote frames; a frame's view is `FrameView`.
- `src/config.rs`: the adapter's configuration command.
- `src/parse/`: frame sizes, the fixed-length and variable-length encoders,
  the byte-at-a-time decoder (`decode.rs`) and the round-trip laws
  (`roundtrip.rs`). `proto.rs` holds the protocol's constants and byte order.
- `src/mode.rs`, `src/interface.rs`: the marker types of formats and I/O kinds.
- `app/`: the `Interface` over an `embedded-io` byte stream, which reads and
  writes and leaves encoding and decoding to the library.
