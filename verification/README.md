# protocol_util

Typed message channels multiplexed over one text connection (a websocket),
as a Verus-verified library with a thin asynchronous shell.

- `src/` is the verified library: the `channel:message` framing of the
  connection (`wire`), channel numbering (`channel_allocator`), the listener
  registry that calls the listener of a message's channel on the message
  and runs the work it returns to completion before the next (`receiver`),
  per-channel queues of listeners and messages, each message passed to the
  front listener's function (`channel_listener`), a single-threaded FIFO
  channel (`unbounded_mpsc`), an in-memory connection for tests (`mock`),
  the one call into the users' listener functions (`callback`), the
  channel shapes carried inside messages (`base`, `protocol_types`,
  `common`, `types`, `echo`), and the checks and naming
  behind the `#[protocol_type]` generator (`macro_input`, `macro_output`).
- `app/` drives the library with futures: the listener task and its
  controller, serialisation with serde, the send/receive protocols of each
  channel shape, the websocket session and server, and token generation with syn/quote.
- `tests/` exercises the library on concrete values.
