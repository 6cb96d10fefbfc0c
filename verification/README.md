# lmc

A lightweight MQTT (v3.1.1) client. Its core is a library whose behaviour is stated in
contracts and proved with Verus; a thin crate around it does the input and output.

## Layout

- `src/` is the library.
  - `transceiver/packets/` encodes and decodes packets, `transceiver/byte_io.rs` the data types
    that they are made of. What is written is proved to be read back, on the client's and on the
    broker's side.
  - `transceiver/packet_reader.rs` cuts packets out of a stream of bytes, in whatever chunks it
    comes.
  - `transceiver/subscription.rs` is the tree of subscriptions. `*` stands for one component of a
    topic, `#` at the end for one or more.
  - `transceiver/tx_queue.rs` is the queue of outgoing packets.
  - `transceiver/mod.rs` is the protocol state machine. `transceiver/state.rs` says what comes of
    every packet, command and alarm; `transceiver/laws.rs` and `transceiver/protocol_laws.rs` hold
    what follows: messages are delivered exactly once where asked for, what is not answered is sent
    again, and so on.
  - `client.rs`, `futures.rs`, `shared.rs`, `subs.rs`, `options.rs`, `tls.rs`, `transport.rs` hold
    what the client's handles decide.
  - `wrappers.rs` holds the hash map, and what is relied on of it.
- `app/` is the asynchronous client: sockets, tasks, wakers, channels.
- `tests/` runs the library on concrete values.

Times are nanoseconds since an arbitrary start. Wakers, queues and callbacks are numbers to the
library; `app/` keeps what they stand for.
