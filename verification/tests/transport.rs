//! Tests for the IPC-to-Connect bridge.
//!
//! These drive calls over the real Connect runtime and the real framing without
//! needing a webview: a queue stands for the response channel.

use std::future::Future;
use std::pin::Pin;
use std::sync::atomic::{AtomicUsize, Ordering};
use std::sync::{Arc, Mutex};
use std::task::{Context, Poll};
use std::time::Duration;

use bytes::Bytes;
use connectrpc::dispatcher::{RequestStream, StreamingResult, UnaryResult};
use connectrpc::{
    CodecFormat, ConnectError, ConnectRpcBody, ConnectRpcService, Dispatcher, EncodedBody,
    MethodDescriptor, Payload, RequestContext, Response,
};
use connectrpc_tauri::body::{IpcRequestBody, CHANNEL_DEPTH};
use connectrpc_tauri::call::{self, Answer, IpcRequest, Started};
use connectrpc_tauri::codec::{decode_bytes, try_encode};
use connectrpc_tauri::pump::{Action, Event, Piece, Pump};
use connectrpc_tauri::registry::CallRegistry;
use connectrpc_tauri::testing::{
    collect, envelope_of, next_frame, next_unread, payloads, received, start_message,
};
use connectrpc_tauri::wire::response_frame::Frame;
use connectrpc_tauri::wire::{ResponseFrame, ResponseHead, StartRequest};
use futures::StreamExt;
use http_body_util::BodyExt;
use tokio::sync::{mpsc, oneshot, Semaphore};
use tokio::task::JoinHandle;
use tower::ServiceExt;

// ---- the demo service ----

/// A request with a name in field 1 and a count in field 2.
fn greet_request(name: &str, count: u64) -> Vec<u8> {
    let mut out: Vec<u8> = Vec::new();
    if !name.is_empty() {
        buffa::types::put_bytes_field(1, name.as_bytes(), &mut out);
    }
    if count != 0 {
        buffa::types::put_uint64_field(2, count, &mut out);
    }
    out
}

fn name_and_count(mut bytes: &[u8]) -> (String, u64) {
    let mut name = String::new();
    let mut count = 0;
    while !bytes.is_empty() {
        let tag = buffa::encoding::Tag::decode(&mut bytes).expect("tag");
        if tag.field_number() == 1 {
            name = buffa::types::decode_string(&mut bytes).expect("name");
        } else {
            count = buffa::types::decode_uint64(&mut bytes).expect("count");
        }
    }
    (name, count)
}

/// A response with a greeting in field 1.
fn greet_response(greeting: &str) -> EncodedBody {
    EncodedBody::from(Bytes::from(greet_request(greeting, 0)))
}

fn greeting(bytes: &[u8]) -> String {
    name_and_count(bytes).0
}

/// Demo service. Counts streamed items so cancellation can be observed
/// directly rather than inferred from timing.
#[derive(Default)]
struct Greeter {
    produced: Arc<AtomicUsize>,
}

impl Dispatcher for Greeter {
    fn lookup(&self, path: &str) -> Option<MethodDescriptor> {
        match path {
            "greet.v1.GreetService/Greet" => Some(MethodDescriptor::unary(false)),
            "greet.v1.GreetService/GreetMany" => Some(MethodDescriptor::server_streaming()),
            "greet.v1.GreetService/GreetAll" => Some(MethodDescriptor::client_streaming()),
            "greet.v1.GreetService/GreetChat" => Some(MethodDescriptor::bidi_streaming()),
            "greet.v1.GreetService/GreetNobody" => Some(MethodDescriptor::bidi_streaming()),
            _ => None,
        }
    }

    fn call_unary(
        &self,
        _path: &str,
        _context: RequestContext,
        request: Payload,
        _format: CodecFormat,
    ) -> UnaryResult {
        Box::pin(async move {
            let (name, _) = name_and_count(&request.encoded()?);
            if name.is_empty() {
                return Err(ConnectError::invalid_argument("name is required"));
            }
            Ok(Response::new(greet_response(&format!("Hello, {name}!"))))
        })
    }

    fn call_server_streaming(
        &self,
        _path: &str,
        _context: RequestContext,
        request: Bytes,
        _format: CodecFormat,
    ) -> StreamingResult {
        let produced = Arc::clone(&self.produced);
        Box::pin(async move {
            let (name, count) = name_and_count(&request);
            let stream = futures::stream::iter(0..count).map(move |i| {
                produced.fetch_add(1, Ordering::Relaxed);
                Ok(greet_response(&format!("Hello, {name} #{i}!")))
            });
            Ok(Response::new(stream.boxed()))
        })
    }

    fn call_client_streaming(
        &self,
        _path: &str,
        _context: RequestContext,
        mut requests: RequestStream,
        _format: CodecFormat,
    ) -> UnaryResult {
        Box::pin(async move {
            let mut names = Vec::new();
            while let Some(item) = requests.next().await {
                names.push(name_and_count(&item?).0);
            }
            Ok(Response::new(greet_response(&format!("Hello, {}!", names.join(" and ")))))
        })
    }

    fn call_bidi_streaming(
        &self,
        path: &str,
        _context: RequestContext,
        requests: RequestStream,
        _format: CodecFormat,
    ) -> StreamingResult {
        if path == "greet.v1.GreetService/GreetNobody" {
            // Holds on to its requests, and reads none of them.
            let stream = futures::stream::pending().map(move |item: ()| {
                let _ = (&requests, item);
                Ok(greet_response(""))
            });
            return Box::pin(async move { Ok(Response::new(stream.boxed())) });
        }
        Box::pin(async move {
            let stream = requests.map(|item| {
                item.map(|bytes| greet_response(&format!("Hello, {}!", name_and_count(&bytes).0)))
            });
            Ok(Response::new(stream.boxed()))
        })
    }
}

// ---- the harness ----

/// A request body that the service can read.
struct RequestBody(IpcRequestBody);

impl http_body::Body for RequestBody {
    type Data = Bytes;
    type Error = ConnectError;

    fn poll_frame(
        mut self: Pin<&mut Self>,
        cx: &mut Context<'_>,
    ) -> Poll<Option<Result<http_body::Frame<Bytes>, ConnectError>>> {
        self.0.rx.poll_recv(cx).map(|opt| opt.map(|bytes| Ok(http_body::Frame::data(bytes))))
    }
}

fn to_http(request: IpcRequest) -> http::Request<RequestBody> {
    let mut out = http::Request::new(RequestBody(request.body));
    *out.method_mut() = http::Method::from_bytes(request.method.as_bytes()).expect("method");
    *out.uri_mut() = http::Uri::try_from(request.uri).expect("uri");
    *out.headers_mut() = request.headers;
    out
}

type Calls = Arc<Mutex<CallRegistry>>;

/// Where frames go: a queue that holds so many of them.
#[derive(Clone)]
struct Webview {
    frames: mpsc::UnboundedSender<Vec<u8>>,
    room: Arc<Semaphore>,
}

impl Webview {
    async fn send(&self, frame: Vec<u8>) -> bool {
        self.room.acquire().await.expect("open").forget();
        self.frames.send(frame).is_ok()
    }
}

async fn start_call<D: Dispatcher>(
    service: ConnectRpcService<D>,
    calls: Calls,
    ask: StartRequest,
    channel: Option<Webview>,
) -> Result<Vec<u8>, String> {
    let call_id = ask.call_id;
    let started = call::start(&mut calls.lock().expect("lock"), ask, channel.is_some())?;
    match (started, channel) {
        (Started::Inline { request, .. }, _) => {
            let response = service.oneshot(to_http(request)).await.expect("infallible");
            let (parts, body) = response.into_parts();
            let body = body.collect().await.expect("infallible").to_bytes().to_vec();
            let answer =
                Answer { status: parts.status.as_u16(), headers: parts.headers, body: Ok(body) };
            call::inline_reply(Ok(answer)).map(|head| try_encode(&head).expect("fits"))
        }
        (Started::Streaming { request, registration, first }, Some(channel)) => {
            let (head_tx, head_rx) = oneshot::channel();
            let task = tokio::spawn(run_pump(
                service,
                request,
                head_tx,
                channel,
                Arc::clone(&calls),
                call_id,
            ));
            let cancelled =
                registration.attach(&mut calls.lock().expect("lock"), task.abort_handle());
            if let Some(pump) = cancelled {
                pump.abort();
            }
            if let Some((tx, chunk)) = first {
                call::send_outcome(tx.send(chunk).await.is_ok())?;
            }
            call::head_outcome(head_rx.await.ok())
        }
        _ => panic!("a call without a channel streams"),
    }
}

async fn run_pump<D: Dispatcher>(
    service: ConnectRpcService<D>,
    request: IpcRequest,
    head_tx: oneshot::Sender<Result<Vec<u8>, String>>,
    channel: Webview,
    calls: Calls,
    call_id: u64,
) {
    let response = service.oneshot(to_http(request)).await.expect("infallible");
    let (parts, mut body) = response.into_parts();
    let mut head_tx = Some(head_tx);
    let mut pump = Pump::new();
    let mut action =
        pump.step(Event::Answered { status: parts.status.as_u16(), headers: parts.headers });
    loop {
        let event = match action {
            Action::Resolve(head) => {
                let head = head.map(|head| try_encode(&head).expect("fits"));
                Event::Resolved(head_tx.take().is_some_and(|tx| tx.send(head).is_ok()))
            }
            Action::Read => Event::Read(next_piece(&mut body).await),
            Action::Send(frame) => {
                Event::Sent(channel.send(try_encode(&frame).expect("fits")).await)
            }
            Action::Forget => {
                calls.lock().expect("lock").forget(call_id);
                Event::Forgotten
            }
            Action::Stop => return,
            Action::Ignore => panic!("the pump did not wait for what happened"),
        };
        action = pump.step(event);
    }
}

async fn next_piece(body: &mut ConnectRpcBody) -> Piece {
    let Some(frame) = body.frame().await else {
        return Piece::Ended;
    };
    tokio::task::coop::consume_budget().await;
    match frame.expect("infallible").into_data() {
        Ok(data) => Piece::Data(data.to_vec()),
        Err(frame) => match frame.into_trailers() {
            Ok(trailers) => Piece::Trailers(trailers),
            Err(_) => Piece::Other,
        },
    }
}

/// One in-flight call under test.
struct TestCall {
    service: ConnectRpcService<Greeter>,
    calls: Calls,
    frames: tokio::sync::Mutex<mpsc::UnboundedReceiver<Vec<u8>>>,
    channel: Webview,
    call_id: u64,
    unread: Mutex<Vec<Vec<u8>>>,
    pending: Mutex<Option<JoinHandle<Result<Vec<u8>, String>>>>,
}

impl TestCall {
    fn new(greeter: Greeter) -> Self {
        Self::with_room(greeter, Semaphore::MAX_PERMITS)
    }

    /// A call whose webview takes no more than `room` frames.
    fn with_room(greeter: Greeter, room: usize) -> Self {
        let (tx, frames) = mpsc::unbounded_channel();
        let channel = Webview { frames: tx, room: Arc::new(Semaphore::new(room)) };
        Self {
            service: ConnectRpcService::new(greeter),
            calls: Arc::new(Mutex::new(CallRegistry::default())),
            frames: tokio::sync::Mutex::new(frames),
            channel,
            call_id: 1,
            unread: Mutex::new(Vec::new()),
            pending: Mutex::new(None),
        }
    }

    async fn start(&self, url: &str, body: &[u8]) -> Result<ResponseHead, String> {
        let ask = start_message(self.call_id, url, body.to_vec(), false);
        let channel = Some(self.channel.clone());
        let head = start_call(self.service.clone(), self.calls.clone(), ask, channel).await?;
        Ok(decode_bytes(head.as_slice()).expect("malformed head"))
    }

    async fn start_buffered(&self, url: &str, body: &[u8]) -> Result<ResponseHead, String> {
        let ask = start_message(self.call_id, url, body.to_vec(), false);
        let head = start_call(self.service.clone(), self.calls.clone(), ask, None).await?;
        Ok(decode_bytes(head.as_slice()).expect("malformed head"))
    }

    async fn start_streaming_response(
        &self,
        url: &str,
        request: Vec<u8>,
    ) -> Result<ResponseHead, String> {
        self.start(url, envelope_of(request).as_slice()).await
    }

    async fn start_streaming_request(&self, url: &str) -> Result<(), String> {
        let ask = start_message(self.call_id, url, Vec::new(), true);
        let channel = Some(self.channel.clone());
        let handle =
            tokio::spawn(start_call(self.service.clone(), self.calls.clone(), ask, channel));
        *self.pending.lock().expect("lock") = Some(handle);
        while self.calls.lock().expect("lock").body_sender(self.call_id).is_none() {
            tokio::task::yield_now().await;
        }
        Ok(())
    }

    async fn send(&self, chunk: &[u8]) {
        let tx = self
            .calls
            .lock()
            .expect("lock")
            .body_sender(self.call_id)
            .expect("call is not accepting a request body");
        tx.send(Bytes::copy_from_slice(chunk)).await.expect("request body closed");
    }

    async fn end_request(&self) {
        self.calls.lock().expect("lock").close_request_body(self.call_id);
    }

    fn cancel(&self) {
        let running = self.calls.lock().expect("lock").remove(self.call_id);
        if let Some(pump) = running {
            pump.abort();
        }
    }

    fn in_flight(&self) -> usize {
        self.calls.lock().expect("lock").len()
    }

    async fn next_frame(&self) -> Option<Frame> {
        let received = self.frames.lock().await.recv().await;
        let frame = received.map(|bytes| {
            decode_bytes::<ResponseFrame>(bytes.as_slice())
                .expect("transport sent a malformed frame")
        });
        next_frame(frame)
    }

    async fn collect_message_bytes(&self) -> Vec<u8> {
        let mut out = Vec::new();
        while let Some(frame) = self.next_frame().await {
            collect(&mut out, frame);
        }
        out
    }

    async fn collect_greetings(&self) -> Vec<String> {
        let bytes = self.collect_message_bytes().await;
        let split = payloads(bytes.as_slice());
        assert!(!split.cut, "truncated envelope");
        split.payloads.iter().map(|payload| greeting(payload)).collect()
    }

    /// The next greeting, without waiting for the stream to end. The others that came in
    /// one frame with it are kept for the next calls.
    async fn next_greeting(&self) -> Option<String> {
        loop {
            if let Some(payload) = next_unread(&mut self.unread.lock().expect("lock")) {
                return Some(greeting(&payload));
            }
            if let Frame::Message(bytes) = self.next_frame().await? {
                received(&mut self.unread.lock().expect("lock"), &bytes).expect("whole");
            }
        }
    }
}

fn run<F: Future<Output = ()>>(test: F) {
    tokio::runtime::Builder::new_current_thread()
        .enable_time()
        .build()
        .expect("runtime")
        .block_on(test);
}

/// Encode a Connect enveloped frame: 5-byte header then payload.
fn envelope(name: &str) -> Vec<u8> {
    envelope_of(greet_request(name, 0))
}

// ---- the tests ----

#[test]
fn unary_returns_the_encoded_response() {
    run(async {
        let call = TestCall::new(Greeter::default());
        let head = call
            .start("/greet.v1.GreetService/Greet", &greet_request("World", 0))
            .await
            .expect("call failed");

        assert_eq!(head.status, 200);
        let response = call.collect_message_bytes().await;
        assert_eq!(greeting(&response), "Hello, World!");
    });
}

#[test]
fn unary_error_keeps_its_connect_code_and_message() {
    run(async {
        let call = TestCall::new(Greeter::default());
        let head = call
            .start("/greet.v1.GreetService/Greet", &greet_request("", 0))
            .await
            .expect("call failed");

        // Connect maps invalid_argument to HTTP 400 and puts the error in the body.
        assert_eq!(head.status, 400);
        let body = call.collect_message_bytes().await;
        let json = String::from_utf8(body).expect("error body is JSON");
        assert!(json.contains("invalid_argument"), "got {json}");
        assert!(json.contains("name is required"), "got {json}");
    });
}

/// The path every unary call takes: no channel, body inline on the head.
#[test]
fn buffered_unary_returns_the_body_on_the_head() {
    run(async {
        let call = TestCall::new(Greeter::default());
        let head = call
            .start_buffered("/greet.v1.GreetService/Greet", &greet_request("World", 0))
            .await
            .expect("call failed");

        assert_eq!(head.status, 200);
        assert_eq!(greeting(&head.body), "Hello, World!");

        // No channel, no registry entry: nothing can outlive the invoke.
        assert_eq!(call.in_flight(), 0, "buffered call leaked in the registry");
    });
}

/// A failing buffered call still carries Connect's error body.
#[test]
fn buffered_unary_error_keeps_its_connect_code() {
    run(async {
        let call = TestCall::new(Greeter::default());
        let head = call
            .start_buffered("/greet.v1.GreetService/Greet", &greet_request("", 0))
            .await
            .expect("call failed");

        assert_eq!(head.status, 400);
        let json = String::from_utf8(head.body).expect("error body is JSON");
        assert!(json.contains("invalid_argument"), "got {json}");
        assert!(json.contains("name is required"), "got {json}");
    });
}

/// Both ways of answering give the same status, headers and bytes, errors included.
#[test]
fn a_buffered_reply_says_what_a_streamed_one_says() {
    run(async {
        for name in ["World", ""] {
            let url = "/greet.v1.GreetService/Greet";
            let call = TestCall::new(Greeter::default());
            let streamed = call.start(url, &greet_request(name, 0)).await.expect("call failed");
            let bytes = call.collect_message_bytes().await;
            let buffered =
                call.start_buffered(url, &greet_request(name, 0)).await.expect("call failed");
            assert_eq!(buffered.status, streamed.status);
            assert_eq!(buffered.headers, streamed.headers);
            assert_eq!(buffered.body, bytes);
            assert!(streamed.body.is_empty());
        }
    });
}

#[test]
fn unknown_method_is_not_found() {
    run(async {
        let call = TestCall::new(Greeter::default());
        let head = call.start("/greet.v1.GreetService/Nope", &[]).await.expect("call failed");

        assert_eq!(head.status, 404);
    });
}

#[test]
fn server_stream_preserves_order() {
    run(async {
        let call = TestCall::new(Greeter::default());
        call.start_streaming_response(
            "/greet.v1.GreetService/GreetMany",
            greet_request("World", 3),
        )
        .await
        .expect("call failed");

        assert_eq!(
            call.collect_greetings().await,
            vec![
                "Hello, World #0!".to_string(),
                "Hello, World #1!".to_string(),
                "Hello, World #2!".to_string(),
            ]
        );
    });
}

#[test]
fn client_stream_aggregates_every_message() {
    run(async {
        let call = TestCall::new(Greeter::default());
        call.start_streaming_request("/greet.v1.GreetService/GreetAll")
            .await
            .expect("call failed");

        for name in ["Alice", "Bob"] {
            call.send(&envelope(name)).await;
        }
        call.end_request().await;

        assert_eq!(call.collect_greetings().await, vec!["Hello, Alice and Bob!".to_string()]);
    });
}

/// Several messages arriving in one chunk must frame exactly as if they had
/// arrived separately.
#[test]
fn client_stream_splits_coalesced_messages() {
    run(async {
        let call = TestCall::new(Greeter::default());
        call.start_streaming_request("/greet.v1.GreetService/GreetAll")
            .await
            .expect("call failed");

        let mut batch = Vec::new();
        for name in ["Alice", "Bob", "Carol"] {
            batch.extend_from_slice(&envelope(name));
        }
        // One send carrying three messages, which is the point.
        call.send(&batch).await;
        call.end_request().await;

        assert_eq!(
            call.collect_greetings().await,
            vec!["Hello, Alice and Bob and Carol!".to_string()]
        );
    });
}

#[test]
fn bidi_interleaves_responses_with_requests() {
    run(async {
        let call = TestCall::new(Greeter::default());
        call.start_streaming_request("/greet.v1.GreetService/GreetChat")
            .await
            .expect("call failed");

        // Send one, read one: a response must arrive before the request stream
        // ends, which is what distinguishes bidi from client-streaming.
        call.send(&envelope("Alice")).await;
        assert_eq!(call.next_greeting().await, Some("Hello, Alice!".to_string()));

        call.send(&envelope("Bob")).await;
        assert_eq!(call.next_greeting().await, Some("Hello, Bob!".to_string()));

        call.end_request().await;
    });
}

#[test]
fn cancel_stops_the_handler_producing() {
    run(async {
        let produced = Arc::new(AtomicUsize::new(0));
        let call = TestCall::new(Greeter { produced: Arc::clone(&produced) });

        // Far more messages than the channel can hold, so the handler is still
        // producing when the cancel lands.
        call.start_streaming_response(
            "/greet.v1.GreetService/GreetMany",
            greet_request("World", 100_000),
        )
        .await
        .expect("call failed");

        call.cancel();

        // Let any in-flight production settle, then confirm it stopped rather than
        // ran to completion.
        tokio::time::sleep(Duration::from_millis(50)).await;
        let after_cancel = produced.load(Ordering::Relaxed);
        tokio::time::sleep(Duration::from_millis(50)).await;

        assert_eq!(
            produced.load(Ordering::Relaxed),
            after_cancel,
            "handler kept producing after cancel"
        );
        assert!(
            after_cancel < 100_000,
            "cancel did not interrupt production ({after_cancel} of 100000)"
        );
        assert_eq!(call.in_flight(), 0);
    });
}

#[test]
fn a_finished_call_is_removed_from_the_registry() {
    run(async {
        let call = TestCall::new(Greeter::default());
        call.start("/greet.v1.GreetService/Greet", &greet_request("World", 0))
            .await
            .expect("call failed");

        let response = call.collect_message_bytes().await;
        assert_eq!(greeting(&response), "Hello, World!");
        assert_eq!(call.in_flight(), 0, "completed call leaked in the registry");
    });
}

/// A client-streaming request must not be buffered whole.
///
/// The claim is that the request body applies backpressure: the webview can
/// only get `CHANNEL_DEPTH` chunks ahead of a handler that is not reading.
/// Without a bound, this send loop would run to completion against a stalled
/// handler, so the timeout failing is what proves the bound exists.
#[test]
fn a_stalled_handler_stops_accepting_request_chunks() {
    run(async {
        // `GreetChat` responds per message, but nothing here reads the responses,
        // so the handler stalls on a full response path and stops draining.
        // `GreetNobody` never drains.
        let room: usize = 16;
        for url in ["/greet.v1.GreetService/GreetChat", "/greet.v1.GreetService/GreetNobody"] {
            let call = TestCall::with_room(Greeter::default(), room);
            call.start_streaming_request(url).await.expect("call failed");

            let chunk = envelope("World");
            let mut sent: usize = 0;
            let stalled = tokio::time::timeout(Duration::from_millis(500), async {
                // Far more than any internal buffer; if every send resolves, nothing is
                // bounding the queue.
                for _ in 0..100_000 {
                    call.send(&chunk).await;
                    sent += 1;
                }
            })
            .await
            .is_err();

            assert!(
                stalled,
                "every one of {sent} chunks was accepted; the request body is unbounded"
            );
            assert!(sent >= CHANNEL_DEPTH, "only {sent} chunks were accepted");
            assert!(sent < room + 10 * CHANNEL_DEPTH, "{sent} chunks were accepted");
        }
    });
}

#[test]
fn a_first_chunk_rides_with_the_start_request() {
    run(async {
        let call = TestCall::new(Greeter::default());
        let ask =
            start_message(call.call_id, "/greet.v1.GreetService/GreetAll", envelope("Ann"), true);
        let handle = tokio::spawn(start_call(
            call.service.clone(),
            call.calls.clone(),
            ask,
            Some(call.channel.clone()),
        ));
        while call.in_flight() == 0 {
            tokio::task::yield_now().await;
        }
        call.send(&envelope("Ben")).await;
        call.end_request().await;
        assert_eq!(call.collect_greetings().await, vec!["Hello, Ann and Ben!".to_string()]);
        handle.await.expect("joins").expect("call failed");
    });
}

#[test]
fn a_cancel_before_the_head_resolves_the_invoke_with_an_error() {
    run(async {
        let call = TestCall::new(Greeter::default());
        call.start_streaming_request("/greet.v1.GreetService/GreetAll")
            .await
            .expect("call failed");
        call.cancel();
        let handle = call.pending.lock().expect("lock").take().expect("pending");
        assert_eq!(handle.await.expect("joins"), Err("call cancelled".to_string()));
        assert_eq!(call.in_flight(), 0);
    });
}
