# cosmic_comp (verified core)

The verified part of a Wayland compositor's session socket and of its
corner-radius and image-copy bookkeeping, written in Verus.

- `src/framing.rs`: the length-prefixed framing of the session socket. Frames
  are built by `encode_frame`; `FrameReader` is the decoder that the socket's
  non-blocking read loop drives (`wanted`, `on_read`). The lemmas state that the
  messages delivered do not depend on how reads cut the byte stream, and that a
  frame written for a payload is read back as that payload.
- `src/session.rs`: the environment announced to the session (`get_env`), the
  parsing of the socket's file descriptor number (`parse_raw_fd`), and the
  session message type.
- `src/corner_radius.rs`: the corner-radius protocol's rules: the state of each
  object, what each request does, when objects are created (with the surface's
  hook slot, `HookSlot`, and a model of a surface that proves at most one live
  object and one hook per surface), and when a radius is too large for a window.
- `src/image_copy.rs`: capture sessions and pending frames, with one pending
  frame per session.
- `app/`: the I/O and Wayland glue: the socket's read loop, JSON, the event
  loop source, and the protocol dispatch.
- `tests/`: tests of the library through its public API.
