# async-telemetry-broker

A telemetry broker. Clients send frames, each a 4-byte big-endian length and a payload, over TCP;
the broker passes every frame on to its downstream workers through a bounded broadcast channel.

- `src/` holds what the broker decides, verified with Verus: the wire format and its codec, the
  accept loop, the connections, the workers, the order of the shutdown, and the configuration.
  The functions named `law_...` state what holds over many calls: those on a `Connection` speak of
  the frames that it has handed to the channel, those on the accept loop, the workers and the
  shutdown of what their decisions come to over a series of events.
- `app/` is the program around it: sockets, timers, tasks and logging.
- `tests/` runs the library on concrete values.

What the library takes on trust about the `bytes`, `tokio` and `tokio-util` crates stands in
`src/buffer.rs` and `src/channel.rs`, each item with a comment that says what is claimed.
