//! The commands of the plugin, the scheme, envelopes, and the deferred dispatcher.

use bytes::Bytes;
use connectrpc_tauri::body::IpcRequestBody;
use connectrpc_tauri::codec::{encode, InvokeBody};
use connectrpc_tauri::plugin::{
    channel_fault, connect_rpc, connect_rpc_cancel, connect_rpc_send, Reply, Send,
};
use connectrpc_tauri::registry::CallRegistry;
use connectrpc_tauri::scheme::{answer_at_once, cors, preflight, Response};
use connectrpc_tauri::testing::{
    collect, decode_envelopes, envelope_of, enveloped, is_enveloped, next_frame, next_unread,
    payloads, received, start_message,
};
use connectrpc_tauri::wire::response_frame::Frame;
use connectrpc_tauri::wire::{CancelRequest, End, Header, ResponseFrame, SendRequest, StartRequest};
use connectrpc_tauri::{CallId, DeferredDispatcher, PLUGIN_NAME, SCHEME};
use http::{HeaderMap, HeaderValue};
use tokio::sync::mpsc::error::TryRecvError;

const JSON_REFUSED: &str = "expected a raw IPC payload; send an ArrayBuffer";

fn send_payload(call_id: CallId, chunk: &[u8], end_of_stream: bool) -> InvokeBody {
    let send =
        SendRequest { call_id, chunk: chunk.to_vec(), end_of_stream, ..Default::default() };
    InvokeBody::Raw(encode(&send))
}

fn header(name: &str, value: &str) -> Header {
    Header { name: name.to_string(), value: value.to_string(), ..Default::default() }
}

#[test]
fn the_plugin_and_the_scheme_have_these_names() {
    assert_eq!(PLUGIN_NAME, "connectrpc-tauri");
    assert_eq!(SCHEME, "ipc-connect");
    // Legal in a scheme and in a host name alike.
    assert!(SCHEME.chars().all(|c| c.is_ascii_lowercase() || c == '-'));
}

#[test]
fn an_empty_channel_asks_for_an_inline_reply() {
    let mut start = StartRequest { call_id: 3, ..Default::default() };
    let (ask, reply) = connect_rpc(&InvokeBody::Raw(encode(&start))).expect("decodes");
    assert_eq!(ask, start);
    assert!(matches!(reply, Reply::Inline));

    start.channel = "__CHANNEL__:5".to_string();
    let (ask, reply) = connect_rpc(&InvokeBody::Raw(encode(&start))).expect("decodes");
    assert_eq!(ask, start);
    assert!(matches!(reply, Reply::Channel(ref id) if id == "__CHANNEL__:5"));
}

#[test]
fn commands_refuse_json_and_garbage() {
    let mut calls = CallRegistry::default();
    let garbage = InvokeBody::Raw(vec![0x0a]);
    let text = "malformed transport frame: unexpected end of buffer";
    assert_eq!(connect_rpc(&InvokeBody::Json).err().expect("refused"), JSON_REFUSED);
    assert_eq!(connect_rpc(&InvokeBody::Raw(vec![0x12])).err().expect("refused"), text);
    let send = connect_rpc_send(&mut calls, &InvokeBody::Json);
    assert_eq!(send.err().expect("refused"), JSON_REFUSED);
    let cancel = connect_rpc_cancel(&mut calls, &InvokeBody::Json);
    assert_eq!(cancel.err().expect("refused"), JSON_REFUSED);
    assert!(connect_rpc_cancel(&mut calls, &garbage).is_err());
    assert_eq!(channel_fault("nope"), "invalid response channel: nope");
}

#[test]
fn a_chunk_goes_to_the_call_it_is_for() {
    let mut calls = CallRegistry::default();
    let (tx, mut body) = IpcRequestBody::channel();
    calls.begin(4, Some(tx.clone()));
    match connect_rpc_send(&mut calls, &send_payload(4, b"abc", false)).expect("decodes") {
        Send::Push { tx: to, chunk } => {
            assert!(to.same_channel(&tx));
            assert_eq!(chunk, Bytes::from_static(b"abc"));
            to.try_send(chunk).expect("room");
        }
        Send::Done => panic!("dropped"),
    }
    assert_eq!(body.rx.try_recv(), Ok(Bytes::from_static(b"abc")));
}

#[test]
fn a_chunk_for_no_call_is_dropped() {
    let mut calls = CallRegistry::default();
    let sent = connect_rpc_send(&mut calls, &send_payload(4, b"abc", false));
    assert!(matches!(sent, Ok(Send::Done)));
}

#[test]
fn the_end_of_a_stream_closes_the_body_and_nothing_else() {
    let mut calls = CallRegistry::default();
    let (tx, _body) = IpcRequestBody::channel();
    calls.begin(4, Some(tx));
    // A chunk beside the end marker is not sent.
    let ended = connect_rpc_send(&mut calls, &send_payload(4, b"abc", true));
    assert!(matches!(ended, Ok(Send::Done)));
    assert!(calls.body_sender(4).is_none());
    assert_eq!(calls.len(), 1);
    let late = connect_rpc_send(&mut calls, &send_payload(4, b"abc", false));
    assert!(matches!(late, Ok(Send::Done)));
}

#[test]
fn a_request_stream_keeps_its_order() {
    let mut calls = CallRegistry::default();
    let (tx, mut body) = IpcRequestBody::channel();
    let (other, _other_body) = IpcRequestBody::channel();
    calls.begin(4, Some(tx));
    calls.begin(5, Some(other));
    let sends = [
        send_payload(4, b"one", false),
        send_payload(5, b"elsewhere", false),
        send_payload(4, b"two", false),
        send_payload(5, b"", true),
        send_payload(4, b"three", false),
        send_payload(4, b"", true),
        send_payload(4, b"late", false),
    ];
    for payload in sends {
        if let Send::Push { tx, chunk } = connect_rpc_send(&mut calls, &payload).expect("decodes") {
            tx.try_send(chunk).expect("room");
        }
    }
    for chunk in [&b"one"[..], &b"two"[..], &b"three"[..]] {
        assert_eq!(body.rx.try_recv(), Ok(Bytes::copy_from_slice(chunk)));
    }
    // Nothing holds a sender any more, so the body ends.
    assert_eq!(body.rx.try_recv(), Err(TryRecvError::Disconnected));
}

#[test]
fn a_cancel_hands_out_the_pump() {
    let runtime = tokio::runtime::Builder::new_current_thread().build().expect("runtime");
    let task = runtime.spawn(std::future::pending::<()>());
    let mut calls = CallRegistry::default();
    let registration = calls.begin(4, None);
    assert!(registration.attach(&mut calls, task.abort_handle()).is_none());
    let payload = InvokeBody::Raw(encode(&CancelRequest { call_id: 4, ..Default::default() }));
    let pump = connect_rpc_cancel(&mut calls, &payload).expect("decodes").expect("pump");
    assert_eq!(pump.id(), task.id());
    assert_eq!(calls.len(), 0);
    assert!(connect_rpc_cancel(&mut calls, &payload).expect("decodes").is_none());
}

// ---- the scheme ----

fn values(map: &HeaderMap, name: &str) -> Vec<String> {
    map.get_all(name).iter().map(|v| v.to_str().expect("text").to_string()).collect()
}

#[test]
fn a_preflight_is_answered_at_once() {
    let response = answer_at_once("OPTIONS").expect("answers");
    assert_eq!(response.status, 200);
    assert!(response.body.is_empty());
    assert_eq!(values(&response.headers, "access-control-allow-headers"), vec!["*"]);
    assert_eq!(values(&response.headers, "access-control-allow-methods"), vec!["POST, OPTIONS"]);
    assert_eq!(values(&response.headers, "access-control-allow-origin"), vec!["*"]);
    assert_eq!(values(&response.headers, "access-control-expose-headers"), vec!["*"]);
    assert_eq!(response.headers.len(), 4);
    assert_eq!(preflight().headers, response.headers);
    for method in ["POST", "GET", "options", ""] {
        assert!(answer_at_once(method).is_none());
    }
}

#[test]
fn every_response_can_be_read() {
    let mut headers = HeaderMap::new();
    headers.append("content-type", HeaderValue::from_static("application/proto"));
    headers.append("access-control-allow-origin", HeaderValue::from_static("a"));
    headers.append("x", HeaderValue::from_static("1"));
    headers.append("access-control-allow-origin", HeaderValue::from_static("b"));
    headers.append("x", HeaderValue::from_static("2"));
    let out = cors(Response { status: 404, headers, body: b"no".to_vec() }).expect("fits");
    assert_eq!(out.status, 404);
    assert_eq!(out.body, b"no".to_vec());
    let order: Vec<(&str, &str)> = out
        .headers
        .iter()
        .map(|(name, value)| (name.as_str(), value.to_str().expect("text")))
        .collect();
    assert_eq!(
        order,
        vec![
            ("content-type", "application/proto"),
            ("access-control-allow-origin", "*"),
            ("x", "1"),
            ("x", "2"),
            ("access-control-expose-headers", "*"),
        ]
    );
    let again = cors(Response { status: 404, headers: out.headers.clone(), body: Vec::new() });
    assert_eq!(again.expect("fits").headers, out.headers);
}

#[test]
fn a_full_header_map_is_refused() {
    let mut headers = HeaderMap::new();
    let mut i = 0;
    loop {
        let name = http::HeaderName::from_bytes(format!("x-{i}").as_bytes()).expect("name");
        if headers.try_append(name, HeaderValue::from_static("v")).is_err() {
            break;
        }
        i += 1;
    }
    let full = cors(Response { status: 200, headers, body: Vec::new() });
    assert_eq!(full.err().expect("refused"), "max size reached");
}

// ---- envelopes and responses ----

#[test]
fn an_envelope_has_these_bytes() {
    assert_eq!(envelope_of(vec![9, 8]), vec![0, 0, 0, 0, 2, 9, 8]);
    assert_eq!(envelope_of(Vec::new()), vec![0, 0, 0, 0, 0]);
    assert_eq!(envelope_of(vec![1; 0x12345])[..5], [0, 0, 1, 0x23, 0x45]);
    let cancel = CancelRequest { call_id: 1, ..Default::default() };
    assert_eq!(enveloped(&cancel), vec![0, 0, 0, 0, 2, 8, 1]);
}

fn split(bytes: &[u8]) -> (Vec<Vec<u8>>, bool) {
    let split = payloads(bytes);
    (split.payloads, split.cut)
}

#[test]
fn coalesced_envelopes_split_apart() {
    let mut bytes = envelope_of(b"one".to_vec());
    bytes.extend_from_slice(&envelope_of(Vec::new()));
    // The end-of-stream envelope carries trailers, not a message.
    bytes.extend_from_slice(&[2, 0, 0, 0, 2, b'{', b'}']);
    bytes.extend_from_slice(&envelope_of(vec![7; 300]));
    let expected = vec![b"one".to_vec(), Vec::new(), vec![7; 300]];
    assert_eq!(split(bytes.as_slice()), (expected.clone(), false));
    // A rest that is no header is left over.
    bytes.extend_from_slice(&[0, 0, 0, 0]);
    assert_eq!(split(bytes.as_slice()), (expected.clone(), false));
    // With a fifth byte it is one, and its payload is missing.
    bytes.push(1);
    assert_eq!(split(bytes.as_slice()), (expected, true));
    assert_eq!(split(&[]), (Vec::new(), false));
}

#[test]
fn compressed_messages_are_messages_too() {
    assert_eq!(split(&[1, 0, 0, 0, 1, 5]), (vec![vec![5]], false));
    assert_eq!(split(&[3, 0, 0, 0, 1, 5]), (Vec::new(), false));
}

#[test]
fn envelopes_decode_to_messages() {
    let one = header("a", "1");
    let two = header("b", "2");
    let bytes = [enveloped(&one), enveloped(&two)].concat();
    assert_eq!(decode_envelopes::<Header>(bytes.as_slice()), Ok(vec![one, two]));
    assert_eq!(
        decode_envelopes::<Header>(&bytes[..bytes.len() - 1]),
        Err("truncated envelope".to_string())
    );
    assert_eq!(
        decode_envelopes::<Header>(&[0, 0, 0, 0, 1, 0x0a]),
        Err("malformed stream message".to_string())
    );
    // Nine bytes are announced and one is there; four bytes are no header.
    assert_eq!(
        decode_envelopes::<Header>(&[0, 0, 0, 0, 9, 1]),
        Err("truncated envelope".to_string())
    );
    assert_eq!(decode_envelopes::<Header>(&[0, 0, 0, 0]), Ok(Vec::new()));
}

#[test]
fn of_two_faults_in_a_stream_the_first_is_reported() {
    // A message that does not decode, and behind it an envelope that is cut off.
    assert_eq!(
        decode_envelopes::<Header>(&[0, 0, 0, 0, 1, 0x0a, 0, 0, 0, 0, 9, 1]),
        Err("malformed stream message".to_string())
    );
    // Two whole messages, and the same envelope.
    let one = enveloped(&header("a", "1"));
    let bytes = [one.clone(), one, vec![0, 0, 0, 0, 9, 1]].concat();
    assert_eq!(
        decode_envelopes::<Header>(bytes.as_slice()),
        Err("truncated envelope".to_string())
    );
}

#[test]
fn messages_are_handed_out_in_the_order_in_which_they_came() {
    let mut unread: Vec<Vec<u8>> = Vec::new();
    assert_eq!(next_unread(&mut unread), None);
    // Two messages and the end of the stream in one frame, and one more in the next.
    let one = [envelope_of(vec![1]), envelope_of(vec![2, 2]), vec![2, 0, 0, 0, 1, 9]].concat();
    assert_eq!(received(&mut unread, &one), Ok(()));
    assert_eq!(next_unread(&mut unread), Some(vec![1]));
    assert_eq!(received(&mut unread, &envelope_of(vec![3])), Ok(()));
    // Nothing is taken from a frame that is cut off.
    let cut = [envelope_of(vec![4]), vec![0, 0, 0, 0, 9, 1]].concat();
    assert_eq!(received(&mut unread, &cut), Err("truncated envelope".to_string()));
    assert_eq!(next_unread(&mut unread), Some(vec![2, 2]));
    assert_eq!(next_unread(&mut unread), Some(vec![3]));
    assert_eq!(next_unread(&mut unread), None);
}

#[test]
fn bodies_that_look_enveloped_are_told_by_their_flags() {
    assert!(is_enveloped(&[0, 0, 0, 0, 0]));
    assert!(is_enveloped(&[3, 0, 0, 0, 0]));
    assert!(!is_enveloped(&[4, 0, 0, 0, 0]));
    assert!(!is_enveloped(&[0, 0, 0, 0]));
    assert!(!is_enveloped(&[]));
    assert!(is_enveloped(&envelope_of(b"x".to_vec())));
}

#[test]
fn a_start_message_picks_its_content_type() {
    let content_type = |body: &[u8], streaming: bool| {
        let start = start_message(1, "/a.B/C", body.to_vec(), streaming);
        assert_eq!(start.headers.len(), 1);
        assert_eq!(start.headers[0].name, "content-type");
        assert_eq!(start.method, "POST");
        assert_eq!(start.url, "/a.B/C");
        assert_eq!(start.body, body.to_vec());
        start.headers[0].value.clone()
    };
    assert_eq!(content_type(b"", false), "application/proto");
    assert_eq!(content_type(b"\x0a\x03abc", false), "application/proto");
    assert_eq!(content_type(&envelope_of(b"x".to_vec()), false), "application/connect+proto");
    assert_eq!(content_type(b"", true), "application/connect+proto");
}

#[test]
fn frames_are_collected_until_the_end() {
    let frame = |frame: Frame| Some(ResponseFrame { frame: Some(frame), ..Default::default() });
    assert_eq!(next_frame(None), None);
    assert_eq!(next_frame(Some(ResponseFrame { frame: None, ..Default::default() })), None);
    assert_eq!(next_frame(frame(Frame::End(Box::new(End::default())))), None);
    let message = next_frame(frame(Frame::Message(vec![1, 2]))).expect("frame");
    let mut out = vec![0];
    collect(&mut out, message);
    collect(&mut out, Frame::Error("x".to_string()));
    assert_eq!(out, vec![0, 1, 2]);
}

// ---- the deferred dispatcher ----

#[test]
fn a_deferred_dispatcher_is_set_once() {
    let deferred: DeferredDispatcher<String> = DeferredDispatcher::new();
    assert!(deferred.get().is_none());
    assert_eq!(deferred.set("first".to_string()), Ok(()));
    assert_eq!(deferred.set("second".to_string()), Err("second".to_string()));
    assert_eq!(deferred.get().map(|d| d.as_str()), Some("first"));
}

#[test]
fn clones_of_a_deferred_dispatcher_are_the_same() {
    let deferred: DeferredDispatcher<u8> = DeferredDispatcher::default();
    let clone = deferred.clone();
    let other: DeferredDispatcher<u8> = DeferredDispatcher::new();
    assert!(deferred.same_dispatcher(&clone));
    assert!(clone.same_dispatcher(&deferred));
    assert!(deferred.same_dispatcher(&deferred));
    assert!(deferred.same_dispatcher(&clone.clone()));
    assert!(!deferred.same_dispatcher(&other));
    assert_eq!(clone.set(5), Ok(()));
    assert_eq!(deferred.get(), Some(&5));
    assert!(other.get().is_none());
    // Equal dispatchers do not make two handles the same.
    assert_eq!(other.set(5), Ok(()));
    assert!(!deferred.same_dispatcher(&other));
    assert!(deferred.same_dispatcher(&clone));
}
