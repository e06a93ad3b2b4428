# maia-httpd: airband receiver

A verified library for the airband multichannel receiver of maia-httpd, and the
ordinary Rust around it.

- `src/airband.rs`: the configuration and the receiver task.
- `src/configure.rs`: how a configuration is applied to the front-end and the
  receiver core.
- `src/tuning.rs`, `src/tuning_laws.rs`: the capture window and the tuning words
  of the oscillators.
- `src/double.rs`, `src/rounding.rs`: binary64 values and correctly rounded
  quotients in integer arithmetic.
- `src/reader.rs`, `src/reader_laws.rs`: the reader of the framed-audio ring,
  with its overflow and stall watchdogs.
- `src/drain.rs`: sending a buffer of the ring after its cache is invalidated.
- `src/client.rs`: forwarding chunks to a client of the stream.
- `src/app.rs`: the receiver's part of the application state, and the delays
  between restarts of the receiver.
- `src/httpd/`, `src/json.rs`: the decisions of the HTTP API.
- `app/`: devices, files, sockets and HTTP handlers.

What is not proved:

- the opaque types `std::path::PathBuf` and `bytes::Bytes`, and what
  `Bytes::copy_from_slice` holds, which are stated where they are used;
- that floating-point hardware rounds to the nearest value, ties to even, as
  `nearest` in `src/rounding.rs` does. `tests/tuning.rs` compares the capture
  window and the tuning words with it.
