# wshttp

A small static-file HTTP server with a WebSocket echo endpoint, written as a
Verus library (`src/`) and a thin program around it (`app/main.rs`).

- `src/text.rs`: decimal numbers, `u16` parsing, UTF-8 facts, character search.
- `src/buffer.rs`: the `bytes::BytesMut` buffer, through trusted wrappers.
- `src/config/config.rs`: the port and served directory from the arguments.
- `src/http/headers.rs`: a header map in which each name occurs once.
- `src/http/request.rs`: request heads (via `httparse`), the receive step, path checks.
- `src/http/response.rs`: response bytes, file names, extensions, content types.
- `src/http/serv.rs`: routing, percent-decoded static paths, the pool size check.
- `src/http/websocket.rs`: frame reading, unmasking, reply frames, the handshake.

The program does the socket and file I/O, the thread pool and the printing,
and hands each read to the library's receive steps.
