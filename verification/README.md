# websocket_io

A verified WebSocket ([RFC 6455](https://www.rfc-editor.org/rfc/rfc6455)) connection that works as a
byte duplex: outgoing data is sent in binary messages, one frame each, and incoming binary messages
are one continuous byte stream, delivered as the bytes arrive. Text messages, pings, pongs and Close
frames are reported along the way.

The crate starts where the HTTP upgrade ends. Extensions are not supported.

## Layout

* `src/` is the library, verified with [Verus](https://github.com/verus-lang/verus). A connection
  (`ws::WebSocketIO`) touches no IO: its methods end with a result, or name a read, a write, a flush
  or a shutdown that the caller performs and reports the outcome of.
* `app/` drives it over tokio's `AsyncRead` and `AsyncWrite`, and implements both.
* `tests/` runs the library over an in-memory IO that splits reads and writes into random pieces.

| Module | Contents |
|--------|----------|
| `buffer` | the buffers of the `bytes` crate, by their contents |
| `frame` | frame headers: parsing and encoding |
| `mask` | masking kernels and the source of client keys |
| `utf8` | text in shared buffers, and its validation as it arrives |
| `close`, `error`, `config` | Close frames, errors, options |
| `recv` | decoding the incoming stream; `recv::log` says what a stream means |
| `send` | encoding and buffering outgoing frames |
| `ws` | the connection: `transmit`, `receive`, `deliver`, `read` |
| `ws::operation` | everything that can be done with a connection |
| `ws::kept`, `ws::outgoing`, `ws::incoming` | what each operation keeps, sends and receives |
| `ws::laws`, `ws::duplex` | what holds of a connection as a whole, and of the two sides of one |

## What is proved

Every function has a contract over mathematical models (`HeaderModel`, `DecoderModel`, `SendModel`,
`ConnModel`). On top of them the laws say, among other things, that

* a header that was encoded is parsed back, whatever follows it, and no prefix of it is taken for
  anything else;
* the kernels mask alike, masking twice changes nothing, and a payload can be masked in pieces;
* the meaning of the incoming bytes does not depend on how they arrive or how they are taken, and
  all that a peer sends is received, in order and unchanged, fragmented or not;
* whatever is done with a connection, and in whatever pieces its stream arrives, what it hands out,
  followed by what is still to come, are the binary bytes of the stream (`law_incoming`);
* what one side writes is what the other side reads, on every path and however the IO between them
  splits the bytes: what has been read is the start of what has been written, all of it once the
  writer's Close frame is received (`law_duplex`);
* what reaches the peer is a sequence of complete frames: nothing is lost, repeated or reordered,
  and nothing follows our Close frame;
* a violation is answered with a Close frame that carries the matching status code;
* a pong that waits is written by the next receiving call, without a flush, and a flood of pings
  does not grow the write buffer without bound;
* a stream that ends without a close handshake, or in the middle of a frame, is an error. Only after
  our own Close frame may it end without the peer's, between two frames, which counts as a close.

## What is trusted

The contracts of the `bytes` crate's buffers (`src/buffer.rs`), of `std::str::from_utf8`
(`src/utf8.rs`), of `getrandom::fill`, of the clock and of the machine's byte order
(`src/mask/keys.rs`). That masking keys are random rests on `getrandom::fill`: only the size of what
it draws is stated.
