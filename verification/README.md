# streamd

A low-latency remote desktop for trusted networks, written in Rust and verified
with Verus. A server captures a display, encodes it and sends the video as QUIC
datagrams; a client puts the frames together again, decodes and presents them,
and sends keyboard and mouse input back.

Everything that decides or computes is in the library under `src/`, and every item
of it is verified: what a function returns and changes is stated in its contract,
and what holds of the functions together is stated in public proof functions. What
only moves data (sockets, threads, windows, decoders) is in `app/`.

## The library

| Module | What it holds |
| --- | --- |
| `wire`, `framing` | The binary encoding of messages, length-prefixed frames, tagged datagrams |
| `streamd_proto`, `yin_yang_proto` | The messages and packet headers of the two protocols, key tables |
| `fragments`, `delivery` | Frames cut into datagrams, and that they arrive as they were sent |
| `displays`, `text`, `clock` | The choice of a display, texts and numbers, the wall clock |
| `streamd_server` | Sessions, the capture and encode pipeline, video sending, Wayland and Windows capture |
| `streamd_client` | The handshake, frame reassembly, NAL units and decoding, the remote cursor |
| `yang` | The second client: parity recovery, input capture, reconnecting, rendering, frame interpolation |

A protocol is written as a state machine: a type such as `ServerSession`,
`Pipeline`, `CaptureSession`, `Handshake` or `Supervisor` is told what happened and
says what to do next, and a spec function gives both for every state and event.

Calls into other crates (`bincode`, `bytes`) and into parts of the standard library
without a specification go through small functions marked
`#[verifier::external_body]`. Their contracts are the assumptions that the proofs
rest on.

## The rest

- `tests/` runs the library from outside.
- `app/` is one program, `streamd <server|client|yang>`, around the library. It runs
  the loops that the state machines call for, on Linux, Windows and macOS.
- `extras/shaders/` holds the shaders that the program compiles at run time.
