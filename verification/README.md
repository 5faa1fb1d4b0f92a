# chat_server

A multi-room chat server. Clients open an input connection (port 2016),
send a one-line JSON handshake naming themselves, and get back an id; they
then open an output connection (port 2017), send that id, and are placed in
the `lounge`. Lines of JSON on the input connection carry chat text and
requests; the server forwards chat text to the members of a room and tells
the members when someone enters, leaves or disconnects.

Layout:

- `src/` — the verified library (Verus):
  - `manager.rs`: the server state, kept consistent as a type invariant, and
    every decision the event loop makes, with each event's effect stated as
    a function on the state's model;
  - `room.rs`, `user.rs`: rooms (members kept in ascending byte order) and users;
  - `message.rs`, `notify.rs`: what users send and what rooms are told, read
    and written as JSON through the `json` crate;
  - `stream.rs`: line framing, the handshake, and the message reader;
  - `order.rs`, `strings.rs`: the member order and list helpers;
  - `json.rs`, `clock.rs`: the calls into `json` and `chrono`.
- `app/main.rs` — sockets, threads and the thread pool around the library.
- `tests/` — tests of the library on concrete values.
