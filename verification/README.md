# actus

A web framework whose decisions are verified with Verus.

- `src/` is the library. It routes, reads parameters and bodies, builds replies
  and error documents, negotiates and applies compression, answers cross-origin
  requests and WebSocket handshakes, frames server-sent events, writes OpenAPI
  documents and reads the declarations of controllers. Each function states what
  it returns, and the proof functions named `law_...` state what holds of
  several of them together.
- `tests/` runs it.
- `app/` is what stands around it: sockets, tasks, the traits that handlers and
  middleware implement, and the writing of generated code. It runs two machines
  of the library: `server::Step`, the way of one request, and
  `serving::Serving`, the life of a server. A machine names the next action;
  `app/` performs it and hands back what came of it.

The library rests on `http`, `serde_json`, `serde_urlencoded`, `flate2`,
`brotli` and `tungstenite`. What it takes for granted of them is written at the
functions marked `external_body`, each with the outside function that it calls.
