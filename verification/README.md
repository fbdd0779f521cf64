# ConnectRPC over Tauri IPC, verified

A [ConnectRPC](https://connectrpc.com) transport that carries the Connect
protocol over Tauri's IPC instead of HTTP. The webview is the client, Rust hosts
the services, and no HTTP server or port is involved.

What the transport decides is a library that [Verus](https://github.com/verus-lang/verus)
verifies; what awaits, spawns, locks or talks to a webview is ordinary Rust around
it.

## Layout

```text
src/protobuf.rs   the wire format: which bytes stand for which values
src/message.rs    messages as lists of fields, and the loop that reads any of them
src/wire.rs       the envelopes: start, send, cancel, response head, response frame
src/codec.rs      payloads to envelopes and back
src/headers.rs    what is a header, and what a header map holds
src/body.rs       the request body, fed through a bounded channel
src/registry.rs   the calls in flight
src/call.rs       from a start request to a synthetic HTTP request
src/pump.rs       from the service's answer to the frames of a response
src/plugin.rs     the three commands
src/scheme.rs     the ipc-connect:// scheme for unary calls
src/deferred.rs   a dispatcher that is set once, later
src/testing.rs    Connect envelopes and what a harness needs
app/              the Tauri plugin around the library
tests/            the library at run time, with the real Connect runtime
```

## What is proved

Every function has a contract. Beyond the single functions:

- Every envelope reads back as it was written (`message::round_trip`), and one that was
  read can be passed on with the fields that nobody here knows
  (`message::what_was_read_reads_back`).
- A call resolves its invoke once, relays its body in order, marks the end once and
  last, and leaves nothing in the registry, whichever way it ends
  (`pump::every_call_runs_to_its_end` and what follows from it).
- A response that comes in one piece says what one that streams says
  (`testing::inline_and_streamed_replies_agree`).
- A cancel is honoured whether it comes before or after the response pump
  (`registry::an_early_cancel_is_honoured`, `registry::a_late_cancel_is_honoured`).
- Header values of one name stay apart and in order, in both directions
  (`call::request_headers_survive`, `call::repeated_values_survive`).
- The chunks of a request stream are put in at the body of their own call, in order,
  up to its end, behind the one that rides with the start
  (`plugin::a_request_stream_keeps_its_order`,
  `plugin::a_request_body_starts_with_its_first_chunk`).
- Messages that arrive in one chunk split apart as if each had come on its own
  (`testing::coalesced_messages_split_apart`).

What `buffa`, `http`, `bytes`, `tokio` and the standard library do is trusted: each
function that calls one of them says in its doc comment what it takes on trust.
