# omspbase

Video-frame plumbing for a remote-operation media stack, verified with
Verus: I420/I422/I444/NV12/I010 buffers and their conversion to I420, the
native transform backend (scale, mirror, crop, rotate, ARGB and NV12
conversions), the sink/source broadcaster, test-pattern generators with a
bitmap font and timestamp overlay, fragment broadcasters and their
registry, signed control frames, the signaling server's rooms, and the
signaling handshake and relay of both ends as state machines.

Layout:

- `src/` — the library, verified by Verus: functions state what they
  return and change in contracts, except where the result comes from a
  sink, a channel or another party that the library only calls (frame
  delivery, fragment fan-out); there the contract states what the library
  itself decides. `paint.rs` and `pipeline/generator/canvas.rs` model planes as
  sequences and give the closed forms the transforms and patterns are
  stated in; `backends/laws.rs` and the `law_*` proof functions elsewhere
  state what holds across calls (mirroring twice restores a frame, a peer
  that joins and leaves a room restores the rooms, ...).
- `tests/` — tests run against the compiled library.
- `app/` — what Verus does not see: the frame-generator thread and its
  clock, YAML configuration loading, JSON control and signaling messages,
  the WebSocket loops that drive the signaling state machines, error
  messages and plugin registration entries.
