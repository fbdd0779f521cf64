//! Building requests, starting calls, and what they resolve with.

use bytes::Bytes;
use connectrpc_tauri::body::{IpcRequestBody, CHANNEL_DEPTH};
use connectrpc_tauri::call::{
    build_request, head_outcome, inline_reply, send_outcome, start, to_wire_headers, Answer,
    Started, IPC_ORIGIN,
};
use connectrpc_tauri::headers::SURE_HEADERS;
use connectrpc_tauri::registry::CallRegistry;
use connectrpc_tauri::wire::{Header, StartRequest};
use http::{HeaderMap, HeaderValue};
use tokio::sync::mpsc::error::TryRecvError;

fn header(name: &str, value: &str) -> Header {
    Header { name: name.to_string(), value: value.to_string(), ..Default::default() }
}

fn empty_body() -> IpcRequestBody {
    IpcRequestBody::complete(Bytes::new())
}

fn ask(body: &[u8], streaming_request: bool) -> StartRequest {
    StartRequest {
        call_id: 9,
        url: "/a.B/C".to_string(),
        method: "POST".to_string(),
        headers: vec![header("Content-Type", "application/proto")],
        body: body.to_vec(),
        streaming_request,
        channel: String::new(),
        ..Default::default()
    }
}

fn fault(url: &str, method: &str, headers: &[Header]) -> String {
    match build_request(url, method, headers, empty_body()) {
        Ok(_) => panic!("built"),
        Err(e) => e,
    }
}

fn held(map: &HeaderMap) -> Vec<(String, String)> {
    map.iter()
        .map(|(name, value)| {
            (name.as_str().to_string(), value.to_str().expect("text").to_string())
        })
        .collect()
}

#[test]
fn a_request_carries_what_was_asked_for() {
    let headers = [header("X-One", "1"), header("x-two", "a"), header("x-ONE", "2")];
    let request = build_request("/a.B/C", "POST", &headers, empty_body()).expect("builds");
    assert_eq!(request.method, "POST");
    assert_eq!(request.uri, "tauri://ipc/a.B/C");
    assert_eq!(IPC_ORIGIN, "tauri://ipc");
    // Names in lower case; the values of a name one behind the other, in order.
    assert_eq!(
        held(&request.headers),
        vec![
            ("x-one".to_string(), "1".to_string()),
            ("x-one".to_string(), "2".to_string()),
            ("x-two".to_string(), "a".to_string()),
        ]
    );
}

#[test]
fn a_request_can_be_handed_to_http() {
    let request = build_request("/a.B/C?x=1", "POST", &[], empty_body()).expect("builds");
    let uri = http::Uri::try_from(request.uri).expect("parses");
    assert_eq!(uri.path(), "/a.B/C");
    assert_eq!(uri.authority().expect("authority").as_str(), "ipc");
}

#[test]
fn invalid_methods_are_refused() {
    for method in ["", "PO ST", "GET\n", "M\u{e9}thode", "A/B"] {
        assert_eq!(fault("/", method, &[]), "invalid HTTP method");
    }
    let odd = "!#$%&'*+-.^_`|~09azAZ";
    assert_eq!(build_request("/", odd, &[], empty_body()).expect("builds").method, odd);
}

#[test]
fn invalid_header_names_are_refused() {
    for name in ["", "a b", "a:b", "\u{e9}", "a\n"] {
        assert_eq!(fault("/", "POST", &[header(name, "x")]), "invalid header name");
    }
    let long = "a".repeat(65535);
    assert!(build_request("/", "POST", &[header(&long, "x")], empty_body()).is_ok());
    let longer = "a".repeat(65536);
    assert_eq!(fault("/", "POST", &[header(&longer, "x")]), "invalid header name");
}

#[test]
fn invalid_header_values_are_refused() {
    for value in ["a\n", "\u{0}", "\u{7f}"] {
        assert_eq!(fault("/", "POST", &[header("x", value)]), "invalid header value");
    }
    for value in ["", "a\tb", "~ ", "gr\u{fc}n"] {
        assert!(build_request("/", "POST", &[header("x", value)], empty_body()).is_ok());
    }
}

#[test]
fn the_first_fault_is_reported() {
    // The method before any header, the first bad header before later ones, a name
    // before its value, and headers before the URI.
    assert_eq!(fault("\u{7f}", "", &[header("", "")]), "invalid HTTP method");
    assert_eq!(
        fault("\u{7f}", "POST", &[header("x", "\n"), header("", "")]),
        "invalid header value"
    );
    assert_eq!(fault("\u{7f}", "POST", &[header("", "\n")]), "invalid header name");
    assert_eq!(fault("\u{7f}", "POST", &[header("x", "y")]), "invalid uri character");
}

#[test]
fn a_request_with_too_many_headers_is_refused() {
    let some: Vec<Header> = (0..=SURE_HEADERS).map(|i| header(&format!("x-{i}"), "v")).collect();
    assert!(build_request("/", "POST", &some, empty_body()).is_ok());
    let many: Vec<Header> = (0..40000).map(|i| header(&format!("x-{i}"), "v")).collect();
    assert_eq!(fault("/", "POST", &many), "max size reached");
}

#[test]
fn a_few_names_may_have_any_number_of_values() {
    let many: Vec<Header> =
        (0..40000).map(|i| header(&format!("x-{}", i % 3), &i.to_string())).collect();
    let request = build_request("/", "POST", &many, empty_body()).expect("builds");
    assert_eq!(request.headers.len(), 40000);
    assert_eq!(request.headers.keys_len(), 3);
    let last = request.headers.get_all("x-0").iter().last().expect("value");
    assert_eq!(last.to_str().expect("text"), "39999");
}

#[test]
fn repeated_values_become_repeated_entries() {
    let mut map = HeaderMap::new();
    map.append("set-cookie", HeaderValue::from_static("a=1"));
    map.append("x", HeaderValue::from_static("y"));
    map.append("set-cookie", HeaderValue::from_static("b=2"));
    assert_eq!(
        to_wire_headers(&map),
        vec![header("set-cookie", "a=1"), header("set-cookie", "b=2"), header("x", "y")]
    );
    assert_eq!(to_wire_headers(&HeaderMap::new()), Vec::new());
}

#[test]
fn values_that_are_no_text_are_dropped() {
    let mut map = HeaderMap::new();
    map.append("a", HeaderValue::from_bytes(&[0xff]).expect("value"));
    map.append("a", HeaderValue::from_static("kept\ttoo"));
    map.append("b", HeaderValue::from_bytes("\u{e9}".as_bytes()).expect("value"));
    assert_eq!(to_wire_headers(&map), vec![header("a", "kept\ttoo")]);
}

#[test]
fn request_headers_come_back_as_they_were_sent() {
    let headers = [header("a", "1"), header("b", "2"), header("a", "3")];
    let request = build_request("/", "POST", &headers, empty_body()).expect("builds");
    let back = to_wire_headers(&request.headers);
    let values: Vec<&str> =
        back.iter().filter(|h| h.name == "a").map(|h| h.value.as_str()).collect();
    assert_eq!(values, vec!["1", "3"]);
}

#[test]
fn an_inline_call_is_not_registered() {
    let mut calls = CallRegistry::default();
    match start(&mut calls, ask(b"whole", false), false) {
        Ok(Started::Inline { mut request, held }) => {
            assert!(held.is_none());
            assert_eq!(request.uri, "tauri://ipc/a.B/C");
            assert_eq!(request.body.rx.try_recv(), Ok(Bytes::from_static(b"whole")));
            assert_eq!(request.body.rx.try_recv(), Err(TryRecvError::Disconnected));
        }
        _ => panic!("not inline"),
    }
    assert_eq!(calls.len(), 0);
}

#[test]
fn an_inline_call_holds_the_sender_of_a_streaming_request() {
    let mut calls = CallRegistry::default();
    match start(&mut calls, ask(b"first", true), false) {
        Ok(Started::Inline { mut request, held }) => {
            assert!(held.is_some());
            assert_eq!(request.body.rx.try_recv(), Err(TryRecvError::Empty));
        }
        _ => panic!("not inline"),
    }
    assert_eq!(calls.len(), 0);
}

#[test]
fn a_streaming_call_is_registered_with_its_sender() {
    let mut calls = CallRegistry::default();
    match start(&mut calls, ask(b"first", true), true) {
        Ok(Started::Streaming { mut request, registration, first }) => {
            assert_eq!(registration.id(), 9);
            let (tx, chunk) = first.expect("first chunk");
            assert_eq!(chunk, Bytes::from_static(b"first"));
            assert_eq!(tx.max_capacity(), CHANNEL_DEPTH);
            let registered = calls.body_sender(9).expect("sender");
            assert!(registered.same_channel(&tx));
            registered.try_send(Bytes::from_static(b"more")).expect("room");
            assert_eq!(request.body.rx.try_recv(), Ok(Bytes::from_static(b"more")));
        }
        _ => panic!("not streaming"),
    }
    assert_eq!(calls.len(), 1);
}

#[test]
fn an_empty_first_chunk_is_not_sent() {
    let mut calls = CallRegistry::default();
    match start(&mut calls, ask(b"", true), true) {
        Ok(Started::Streaming { first, .. }) => assert!(first.is_none()),
        _ => panic!("not streaming"),
    }
}

#[test]
fn a_streaming_response_to_a_complete_request_takes_no_chunks() {
    let mut calls = CallRegistry::default();
    match start(&mut calls, ask(b"whole", false), true) {
        Ok(Started::Streaming { mut request, first, .. }) => {
            assert!(first.is_none());
            assert_eq!(request.body.rx.try_recv(), Ok(Bytes::from_static(b"whole")));
            assert_eq!(request.body.rx.try_recv(), Err(TryRecvError::Disconnected));
        }
        _ => panic!("not streaming"),
    }
    assert_eq!(calls.len(), 1);
    assert!(calls.body_sender(9).is_none());
}

#[test]
fn a_call_that_cannot_start_is_not_registered() {
    let mut calls = CallRegistry::default();
    let mut bad = ask(b"", false);
    bad.method = String::new();
    match start(&mut calls, bad, true) {
        Err(e) => assert_eq!(e, "invalid HTTP method"),
        Ok(_) => panic!("started"),
    }
    assert_eq!(calls.len(), 0);
}

#[test]
fn a_request_body_holds_as_many_chunks_as_the_channel_is_deep() {
    let (tx, mut body) = IpcRequestBody::channel();
    for i in 0..CHANNEL_DEPTH {
        tx.try_send(Bytes::from(vec![i as u8])).expect("room");
    }
    assert!(tx.try_send(Bytes::from_static(b"x")).is_err());
    assert_eq!(CHANNEL_DEPTH, 32);
    drop(tx);
    for i in 0..CHANNEL_DEPTH {
        assert_eq!(body.rx.try_recv(), Ok(Bytes::from(vec![i as u8])));
    }
    assert_eq!(body.rx.try_recv(), Err(TryRecvError::Disconnected));
}

#[test]
fn a_complete_body_without_bytes_ends_at_once() {
    let mut body = empty_body();
    assert_eq!(body.rx.try_recv(), Err(TryRecvError::Disconnected));
}

#[test]
fn an_inline_reply_carries_the_body() {
    let mut headers = HeaderMap::new();
    headers.append("a", HeaderValue::from_static("b"));
    let head = inline_reply(Ok(Answer { status: 418, headers, body: Ok(b"tea".to_vec()) }))
        .expect("replies");
    assert_eq!(head.status, 418);
    assert_eq!(head.headers, vec![header("a", "b")]);
    assert_eq!(head.body, b"tea".to_vec());
}

#[test]
fn an_inline_reply_reports_failures() {
    assert_eq!(
        inline_reply(Err("gone".to_string())).expect_err("fails"),
        "connect service failed: gone"
    );
    let broken =
        Answer { status: 200, headers: HeaderMap::new(), body: Err("cut off".to_string()) };
    assert_eq!(inline_reply(Ok(broken)).expect_err("fails"), "response body failed: cut off");
}

#[test]
fn outcomes_have_these_texts() {
    assert_eq!(head_outcome(None), Err("call cancelled".to_string()));
    assert_eq!(head_outcome(Some(Ok(vec![1]))), Ok(vec![1]));
    assert_eq!(head_outcome(Some(Err("no".to_string()))), Err("no".to_string()));
    assert_eq!(send_outcome(true), Ok(()));
    assert_eq!(send_outcome(false), Err("request body closed".to_string()));
}
