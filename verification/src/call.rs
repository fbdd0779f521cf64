//! Driving one RPC: IPC frame in, synthetic HTTP request, channel frames out.

use crate::body;
use crate::body::IpcRequestBody;
use crate::headers;
use crate::registry;
use crate::registry::{CallRegistry, Registration};
use crate::wire;
use crate::wire::{Header, ResponseHead, StartRequest};
use bytes::Bytes;
use http::{HeaderMap, HeaderValue};
use tokio::sync::mpsc;
use vstd::prelude::*;
use vstd::string::StringExecFns;

verus! {

/// Base URI for the synthetic HTTP request.
///
/// Nothing resolves this host: the Connect runtime routes on the path alone.
/// It exists because a request needs an absolute URI to carry an authority, and
/// handlers reading the URI see a stable, obviously-local value.
pub const IPC_ORIGIN: &'static str = "tauri://ipc";

// ---- the request ----

/// The synthetic HTTP request the Connect runtime expects.
pub struct IpcRequest {
    /// The method, a token.
    pub method: String,
    /// The absolute URI.
    pub uri: String,
    /// The headers.
    pub headers: HeaderMap<HeaderValue>,
    /// The body.
    pub body: IpcRequestBody,
}

/// Why `http` refuses a text as a URI, if it does.
pub uninterp spec fn uri_fault(text: Seq<char>) -> Option<Seq<char>>;

/// Calls `http::Uri::try_from` and takes the text of the error, as a request builder
/// reports it. Which texts are URIs takes pages to state, so the outcome has a name.
#[verifier::external_body]
fn check_uri(text: &str) -> (r: Option<String>)
    ensures
        match uri_fault(text@) {
            Some(fault) => r matches Some(e) && e@ == fault,
            None => r is None,
        },
{
    http::Uri::try_from(text.to_string()).err().map(|e| http::Error::from(e).to_string())
}

/// Calls `http::Method::from_bytes` for whether it accepts the bytes as a method.
#[verifier::external_body]
fn check_method(bytes: &[u8]) -> (r: bool)
    ensures
        r == headers::is_token(bytes@),
{
    http::Method::from_bytes(bytes).is_ok()
}

/// The text of the URI of a request for `url`.
pub open spec fn uri_text(url: Seq<char>) -> Seq<char> {
    IPC_ORIGIN@ + url
}

/// What is wrong with the first header that is not one, if any.
pub open spec fn header_fault(headers: Seq<wire::HeaderView>) -> Option<Seq<char>>
    decreases headers.len(),
{
    if headers.len() == 0 {
        None
    } else if header_fault(headers.drop_last()) is Some {
        header_fault(headers.drop_last())
    } else if !headers::is_name(vstd::utf8::encode_utf8(headers.last().name)) {
        Some("invalid header name"@)
    } else if !headers::is_value(vstd::utf8::encode_utf8(headers.last().value)) {
        Some("invalid header value"@)
    } else {
        None
    }
}

/// What is wrong with a request, if anything: its method, a header, or its URI.
pub open spec fn request_fault(
    url: Seq<char>,
    method: Seq<char>,
    headers: Seq<wire::HeaderView>,
) -> Option<Seq<char>> {
    if !headers::is_token(vstd::utf8::encode_utf8(method)) {
        Some("invalid HTTP method"@)
    } else if header_fault(headers) is Some {
        header_fault(headers)
    } else {
        uri_fault(uri_text(url))
    }
}

/// What the header map of a request with these headers holds.
pub open spec fn request_entries(headers: Seq<wire::HeaderView>) -> Seq<headers::Entry>
    decreases headers.len(),
{
    if headers.len() == 0 {
        Seq::empty()
    } else {
        headers::appended(
            request_entries(headers.drop_last()),
            headers::name_of(vstd::utf8::encode_utf8(headers.last().name)),
            vstd::utf8::encode_utf8(headers.last().value),
        )
    }
}

/// Build the synthetic HTTP request the Connect runtime expects.
///
/// Headers are not filtered: the peer is the app's own webview, and Connect
/// carries arbitrary user metadata as headers. The service still applies
/// its own protocol validation.
pub fn build_request(
    url: &str,
    method: &str,
    headers: &[Header],
    body: IpcRequestBody,
) -> (r: Result<IpcRequest, String>)
    ensures
        match request_fault(url@, method@, wire::header_views(headers@)) {
            Some(fault) => r matches Err(e) && e@ == fault,
            None => match r {
                Ok(request) => {
                    &&& request.method@ == method@
                    &&& request.uri@ == uri_text(url@)
                    &&& request.uri@ == "tauri://ipc"@ + url@
                    &&& forall|name: Seq<char>| #[trigger]
                        headers::values(headers::entries(request.headers), name) == sent_values(
                            wire::header_views(headers@),
                            name,
                        )
                    &&& headers::entries(request.headers) == request_entries(
                        wire::header_views(headers@),
                    )
                    &&& request.body == body
                },
                Err(e) => {
                    &&& headers::names(request_entries(wire::header_views(headers@))).len()
                        > headers::SURE_HEADERS
                    &&& e@ == "max size reached"@
                },
            },
        },
{
    if !check_method(method.as_bytes()) {
        return Err("invalid HTTP method".to_string());
    }
    let uri = IPC_ORIGIN.to_string().concat(url);
    let mut map = headers::new_map();
    let mut fault = check_uri(uri.as_str());
    let ghost views = wire::header_views(headers@);
    for i in 0..headers.len()
        invariant
            views == wire::header_views(headers@),
            uri@ == uri_text(url@),
            headers::is_token(vstd::utf8::encode_utf8(method@)),
            header_fault(views.take(i as int)) is None,
            match uri_fault(uri_text(url@)) {
                Some(text) => fault matches Some(e) && e@ == text,
                None => match fault {
                    Some(e) => {
                        &&& headers::names(request_entries(views)).len() > headers::SURE_HEADERS
                        &&& e@ == "max size reached"@
                    },
                    None => headers::entries(map) == request_entries(views.take(i as int)),
                },
            },
    {
        let header = &headers[i];
        let ghost next = views.take(i + 1);
        proof {
            assert(next.drop_last() =~= views.take(i as int));
            assert(next.last() == header@);
            first_fault_wins(views, i + 1);
        }
        if !headers::check_name(header.name.as_str().as_bytes()) {
            return Err("invalid header name".to_string());
        }
        if !headers::check_value(header.value.as_str()) {
            return Err("invalid header value".to_string());
        }
        if fault.is_none() {
            proof {
                more_headers_have_more_names(views, i as int);
            }
            match headers::append(
                &mut map,
                header.name.as_str().as_bytes(),
                header.value.as_str().as_bytes(),
            ) {
                Ok(()) => {},
                Err(e) => {
                    fault = Some(e);
                },
            }
        }
    }
    assert(views.take(headers.len() as int) =~= views);
    proof {
        the_uri_holds_the_whole_url(url@);
        assert forall|name: Seq<char>| #[trigger]
            headers::values(request_entries(views), name) == sent_values(views, name) by {
            request_headers_survive(views, name);
        }
    }
    match fault {
        Some(e) => Err(e),
        None => Ok(IpcRequest { method: method.to_string(), uri, headers: map, body }),
    }
}

/// The first headers have no more names than all of them.
proof fn more_headers_have_more_names(headers: Seq<wire::HeaderView>, count: int)
    requires
        0 <= count <= headers.len(),
    ensures
        headers::names(request_entries(headers.take(count))).len() <= headers::names(
            request_entries(headers),
        ).len(),
    decreases headers.len(),
{
    if count == headers.len() {
        assert(headers.take(count) =~= headers);
    } else {
        let front = headers.drop_last();
        more_headers_have_more_names(front, count);
        assert(front.take(count) =~= headers.take(count));
        headers::names_are_had(request_entries(front));
        headers::appending_adds_the_name(
            request_entries(front),
            headers::name_of(vstd::utf8::encode_utf8(headers.last().name)),
            vstd::utf8::encode_utf8(headers.last().value),
        );
    }
}

/// A fault in the first headers is the fault of all of them.
proof fn first_fault_wins(headers: Seq<wire::HeaderView>, count: int)
    requires
        0 <= count <= headers.len(),
    ensures
        header_fault(headers.take(count)) is Some ==> header_fault(headers) == header_fault(
            headers.take(count),
        ),
    decreases headers.len(),
{
    if count == headers.len() {
        assert(headers.take(count) =~= headers);
    } else {
        first_fault_wins(headers.drop_last(), count);
        assert(headers.drop_last().take(count) =~= headers.take(count));
    }
}

// ---- the response headers ----

/// The wire headers for the entries of a header map: one for each value that can be
/// read as text.
pub open spec fn wire_headers(entries: Seq<headers::Entry>) -> Seq<wire::HeaderView>
    decreases entries.len(),
{
    if entries.len() == 0 {
        Seq::empty()
    } else if headers::is_visible(entries.last().1) {
        wire_headers(entries.drop_last()).push(
            wire::plain_header(entries.last().0, headers::text_of(entries.last().1)),
        )
    } else {
        wire_headers(entries.drop_last())
    }
}

/// Flatten a header map into repeated wire entries.
///
/// Multi-value headers become repeated entries rather than a joined string, so
/// the JS `Headers` object reconstructs them exactly. A value that is not visible
/// ASCII cannot cross into JS and is dropped.
pub fn to_wire_headers(headers: &HeaderMap<HeaderValue>) -> (r: Vec<Header>)
    ensures
        wire::header_views(r@) == wire_headers(headers::entries(*headers)),
{
    let list = headers::list(headers);
    let ghost entries = headers::entries(*headers);
    let mut out: Vec<Header> = Vec::new();
    assert(wire::header_views(out@) =~= wire_headers(entries.take(0)));
    for i in 0..list.len()
        invariant
            list@.len() == entries.len(),
            forall|k: int|
                0 <= k < list@.len() ==> (#[trigger] list@[k]).0@ == entries[k].0 && list@[k].1@
                    == entries[k].1,
            wire::header_views(out@) == wire_headers(entries.take(i as int)),
    {
        let ghost next = entries.take(i + 1);
        assert(next.drop_last() =~= entries.take(i as int));
        let (name, value) = &list[i];
        match headers::read_value(value.as_slice()) {
            Some(text) => {
                let ghost before = wire::header_views(out@);
                out.push(wire::header(name.clone(), text));
                assert(wire::header_views(out@) =~= before.push(
                    wire::plain_header(name@, text@),
                ));
            },
            None => {},
        }
    }
    assert(entries.take(list.len() as int) =~= entries);
    out
}

/// The values of one name among wire headers, in order.
pub open spec fn wire_values(headers: Seq<wire::HeaderView>, name: Seq<char>) -> Seq<Seq<char>>
    decreases headers.len(),
{
    if headers.len() == 0 {
        Seq::empty()
    } else if headers.last().name == name {
        wire_values(headers.drop_last(), name).push(headers.last().value)
    } else {
        wire_values(headers.drop_last(), name)
    }
}

/// The texts of those values that can be read as text, in order.
pub open spec fn texts(values: Seq<Seq<u8>>) -> Seq<Seq<char>>
    decreases values.len(),
{
    if values.len() == 0 {
        Seq::empty()
    } else if headers::is_visible(values.last()) {
        texts(values.drop_last()).push(headers::text_of(values.last()))
    } else {
        texts(values.drop_last())
    }
}

/// The values that a request carries for one name, in order.
pub open spec fn sent_values(headers: Seq<wire::HeaderView>, name: Seq<char>) -> Seq<Seq<u8>>
    decreases headers.len(),
{
    if headers.len() == 0 {
        Seq::empty()
    } else if headers::name_of(vstd::utf8::encode_utf8(headers.last().name)) == name {
        sent_values(headers.drop_last(), name).push(
            vstd::utf8::encode_utf8(headers.last().value),
        )
    } else {
        sent_values(headers.drop_last(), name)
    }
}

/// A header with several values crosses to the webview as it is: each value that can
/// be read as text arrives on its own, and in order.
pub proof fn repeated_values_survive(entries: Seq<headers::Entry>, name: Seq<char>)
    ensures
        wire_values(wire_headers(entries), name) == texts(headers::values(entries, name)),
    decreases entries.len(),
{
    if entries.len() > 0 {
        let front = entries.drop_last();
        let last = entries.last();
        repeated_values_survive(front, name);
        if headers::is_visible(last.1) {
            assert(wire_headers(entries).drop_last() =~= wire_headers(front));
        }
        if last.0 == name {
            assert(headers::values(entries, name).drop_last() =~= headers::values(front, name));
        }
    }
}

/// Headers that can all be read as text cross to the webview one for one.
pub proof fn visible_headers_all_cross(entries: Seq<headers::Entry>)
    requires
        forall|i: int| 0 <= i < entries.len() ==> headers::is_visible((#[trigger] entries[i]).1),
    ensures
        wire_headers(entries) == Seq::new(
            entries.len(),
            |i: int| wire::plain_header(entries[i].0, headers::text_of(entries[i].1)),
        ),
    decreases entries.len(),
{
    if entries.len() > 0 {
        let front = entries.drop_last();
        assert forall|i: int| 0 <= i < front.len() implies headers::is_visible(
            (#[trigger] front[i]).1,
        ) by {
            assert(headers::is_visible(entries[i].1));
        }
        visible_headers_all_cross(front);
        assert(headers::is_visible(entries[entries.len() - 1].1));
    }
    assert(wire_headers(entries) =~= Seq::new(
        entries.len(),
        |i: int| wire::plain_header(entries[i].0, headers::text_of(entries[i].1)),
    ));
}

/// Every header of a request reaches the service: under its name in lower case, with
/// the values of one name in the order in which they were sent.
pub proof fn request_headers_survive(headers: Seq<wire::HeaderView>, name: Seq<char>)
    ensures
        headers::values(request_entries(headers), name) == sent_values(headers, name),
    decreases headers.len(),
{
    if headers.len() > 0 {
        request_headers_survive(headers.drop_last(), name);
        headers::append_adds_one_value(
            request_entries(headers.drop_last()),
            headers::name_of(vstd::utf8::encode_utf8(headers.last().name)),
            vstd::utf8::encode_utf8(headers.last().value),
            name,
        );
    }
}

// ---- starting a call ----

/// A call whose request is ready for the service.
pub enum Started {
    /// The response goes back in one piece, and nothing is registered: nothing can
    /// send to the call, and a cancel is the caller dropping it.
    Inline {
        request: IpcRequest,
        /// The sender of a request body that was announced as streaming. It is held
        /// while the call runs, and nothing is ever sent on it.
        held: Option<mpsc::Sender<Bytes>>,
    },
    /// The response streams over a channel, and the call is registered.
    Streaming {
        request: IpcRequest,
        registration: Registration,
        /// The first chunk of a streaming request body and where it goes, once the
        /// response pump is attached.
        first: Option<(mpsc::Sender<Bytes>, Bytes)>,
    },
}

/// Whether `request` is the one that `start` asks for.
pub open spec fn asked_for(start: wire::StartRequestView, request: IpcRequest) -> bool {
    &&& request.method@ == start.method
    &&& request.uri@ == uri_text(start.url)
    &&& headers::entries(request.headers) == request_entries(start.headers)
}

/// Whether `body` and `tx` are the request body that `start` asks for: an open
/// channel and its sender, or a complete body and no sender.
pub open spec fn fed_by(
    start: wire::StartRequestView,
    body: IpcRequestBody,
    tx: Option<mpsc::Sender<Bytes>>,
) -> bool {
    if start.streaming_request {
        &&& tx matches Some(tx)
        &&& body::depth(tx) == body::CHANNEL_DEPTH
        &&& body::feeds(tx, body.rx)
    } else {
        &&& tx is None
        &&& body::queued(body.rx) == body::chunks(start.body)
    }
}

/// Whether `first` is what `start` holds of a streaming request body, for `tx`.
pub open spec fn first_of(
    start: wire::StartRequestView,
    first: Option<(mpsc::Sender<Bytes>, Bytes)>,
    tx: Option<mpsc::Sender<Bytes>>,
) -> bool {
    if start.streaming_request && start.body.len() > 0 {
        &&& first matches Some((to, chunk))
        &&& tx == Some(to)
        &&& body::content(chunk) == start.body
    } else {
        first is None
    }
}

/// Start one RPC.
///
/// With a channel for the response the call is registered here, so that a
/// `connect_rpc_send` that follows can never miss it. Without one (`streams` is
/// false) it cannot stream and has no reason to be registered.
pub fn start(
    calls: &mut CallRegistry,
    ask: StartRequest,
    streams: bool,
) -> (r: Result<Started, String>)
    ensures
        match r {
            Err(e) => {
                &&& final(calls)@ == old(calls)@
                &&& match request_fault(ask@.url, ask@.method, ask@.headers) {
                    Some(fault) => e@ == fault,
                    None => {
                        &&& headers::names(request_entries(ask@.headers)).len()
                            > headers::SURE_HEADERS
                        &&& e@ == "max size reached"@
                    },
                }
            },
            Ok(Started::Inline { request, held }) => {
                &&& request_fault(ask@.url, ask@.method, ask@.headers) is None
                &&& !streams
                &&& final(calls)@ == old(calls)@
                &&& asked_for(ask@, request)
                &&& request.method@ == ask@.method
                &&& request.uri@ == "tauri://ipc"@ + ask@.url
                &&& forall|name: Seq<char>| #[trigger]
                    headers::values(headers::entries(request.headers), name) == sent_values(
                        ask@.headers,
                        name,
                    )
                &&& fed_by(ask@, request.body, held)
            },
            Ok(Started::Streaming { request, registration, first }) => {
                let tx = registry::sender(final(calls)@, ask.call_id);
                &&& request_fault(ask@.url, ask@.method, ask@.headers) is None
                &&& streams
                &&& final(calls)@ == registry::begun(old(calls)@, ask.call_id, tx)
                &&& registration.call() == ask.call_id
                &&& asked_for(ask@, request)
                &&& request.method@ == ask@.method
                &&& request.uri@ == "tauri://ipc"@ + ask@.url
                &&& forall|name: Seq<char>| #[trigger]
                    headers::values(headers::entries(request.headers), name) == sent_values(
                        ask@.headers,
                        name,
                    )
                &&& fed_by(ask@, request.body, tx)
                &&& first_of(ask@, first, tx)
            },
        },
{
    let call_id = ask.call_id;
    let empty = ask.body.len() == 0;
    let chunk = body::chunk_of(ask.body);
    let (body, tx, first) = if ask.streaming_request {
        let (tx, body) = IpcRequestBody::channel();
        // The first chunk rides with the head; later ones arrive via
        // `connect_rpc_send`.
        let first = if empty {
            None
        } else {
            Some((tx.clone(), chunk))
        };
        (body, Some(tx), first)
    } else {
        (IpcRequestBody::complete(chunk), None, None)
    };
    match build_request(
        ask.url.as_str(),
        ask.method.as_str(),
        ask.headers.as_slice(),
        body,
    ) {
        Err(e) => Err(e),
        Ok(request) => {
            if streams {
                let registration = calls.begin(call_id, tx);
                Ok(Started::Streaming { request, registration, first })
            } else {
                Ok(Started::Inline { request, held: tx })
            }
        },
    }
}

/// What a response whose body is complete says.
pub struct Answer {
    /// The HTTP status.
    pub status: u16,
    /// The response headers.
    pub headers: HeaderMap<HeaderValue>,
    /// The whole body, or why it could not be read. Its trailers are dropped
    /// deliberately: Connect carries its own in-band, so the HTTP ones are unread.
    pub body: Result<Vec<u8>, String>,
}

/// What the answer of a call whose response cannot stream is: the head with the
/// whole body, or an error text.
pub open spec fn inline_reply_view(answer: Result<Answer, String>) -> Result<
    wire::ResponseHeadView,
    Seq<char>,
> {
    match answer {
        Err(e) => Err("connect service failed: "@ + e@),
        Ok(answer) => match answer.body {
            Err(e) => Err("response body failed: "@ + e@),
            Ok(body) => Ok(
                wire::ResponseHeadView {
                    status: answer.status as u32,
                    headers: wire_headers(headers::entries(answer.headers)),
                    body: body@,
                    unknown: Seq::empty(),
                },
            ),
        },
    }
}

/// Answer a call whose response cannot stream, once with the whole body.
///
/// Tauri delivers a channel frame by evaluating JavaScript in the webview, so
/// a channelled unary response costs three crossings: the invoke itself, the
/// message frame, and the end marker. A unary body is a single message that is
/// ready when the head is, so returning it inline collapses those to one.
pub fn inline_reply(answer: Result<Answer, String>) -> (r: Result<ResponseHead, String>)
    ensures
        match inline_reply_view(answer) {
            Ok(head) => r matches Ok(h) && h@ == head,
            Err(text) => r matches Err(e) && e@ == text,
        },
        r matches Ok(head) ==> {
            &&& answer matches Ok(said)
            &&& head.status == said.status
            &&& said.body matches Ok(body)
            &&& head.body@ == body@
        },
{
    match answer {
        Err(e) => Err("connect service failed: ".to_string().concat(e.as_str())),
        Ok(answer) => match answer.body {
            Err(e) => Err("response body failed: ".to_string().concat(e.as_str())),
            Ok(body) => {
                let head = ResponseHead {
                    status: answer.status as u32,
                    headers: to_wire_headers(&answer.headers),
                    body,
                    unknown_fields: Vec::new(),
                };
                assert(head@.unknown =~= Seq::empty());
                Ok(head)
            },
        },
    }
}

/// What a streaming call resolves with: what its pump said, or that it was cancelled
/// before it could say anything.
pub fn head_outcome(said: Option<Result<Vec<u8>, String>>) -> (r: Result<Vec<u8>, String>)
    ensures
        match said {
            Some(head) => r == head,
            None => r matches Err(e) && e@ == "call cancelled"@,
        },
{
    match said {
        Some(head) => head,
        None => Err("call cancelled".to_string()),
    }
}

/// What putting a chunk into a request body resolves with.
pub fn send_outcome(accepted: bool) -> (r: Result<(), String>)
    ensures
        accepted ==> r is Ok,
        !accepted ==> (r matches Err(e) && e@ == "request body closed"@),
{
    if accepted {
        Ok(())
    } else {
        Err("request body closed".to_string())
    }
}

// ---- what a request and a reply say ----

/// The URI of a request is the origin followed by all of the url, its query included:
/// nothing is cut off, added or altered.
pub proof fn the_uri_holds_the_whole_url(url: Seq<char>)
    ensures
        uri_text(url).len() == 11 + url.len(),
        uri_text(url).take(11) == "tauri://ipc"@,
        uri_text(url).skip(11) == url,
        uri_text(url) == "tauri://ipc"@ + url,
{
    reveal_strlit("tauri://ipc");
    assert(uri_text(url).take(11) =~= "tauri://ipc"@);
    assert(uri_text(url).skip(11) =~= url);
}

/// Requests for different urls have different URIs.
pub proof fn different_urls_have_different_uris(a: Seq<char>, b: Seq<char>)
    requires
        uri_text(a) == uri_text(b),
    ensures
        a == b,
{
    the_uri_holds_the_whole_url(a);
    the_uri_holds_the_whole_url(b);
}

/// A request is refused for its first fault, and for nothing else: a method that is no
/// token; a header whose name is none, or else whose value is none, where the method and
/// the headers before it are in order; or the origin and the url together being no URI,
/// where all else is in order.
pub proof fn a_request_is_refused_for_its_first_fault(
    url: Seq<char>,
    method: Seq<char>,
    headers: Seq<wire::HeaderView>,
    first: int,
)
    requires
        0 <= first <= headers.len(),
        forall|i: int|
            0 <= i < first ==> headers::is_name(
                vstd::utf8::encode_utf8((#[trigger] headers[i]).name),
            ) && headers::is_value(vstd::utf8::encode_utf8(headers[i].value)),
    ensures
        !headers::is_token(vstd::utf8::encode_utf8(method)) ==> request_fault(url, method, headers)
            == Some("invalid HTTP method"@),
        headers::is_token(vstd::utf8::encode_utf8(method)) && first < headers.len() ==> {
            let name = vstd::utf8::encode_utf8(headers[first].name);
            let value = vstd::utf8::encode_utf8(headers[first].value);
            &&& !headers::is_name(name) ==> request_fault(url, method, headers) == Some(
                "invalid header name"@,
            )
            &&& headers::is_name(name) && !headers::is_value(value) ==> request_fault(
                url,
                method,
                headers,
            ) == Some("invalid header value"@)
        },
        headers::is_token(vstd::utf8::encode_utf8(method)) && first == headers.len()
            ==> request_fault(url, method, headers) == uri_fault("tauri://ipc"@ + url),
{
    good_headers_have_no_fault(headers.take(first));
    if first < headers.len() {
        let upto = headers.take(first + 1);
        assert(upto.drop_last() =~= headers.take(first));
        assert(upto.last() == headers[first]);
        first_fault_wins(headers, first + 1);
    } else {
        assert(headers.take(first) =~= headers);
    }
}

proof fn good_headers_have_no_fault(headers: Seq<wire::HeaderView>)
    requires
        forall|i: int|
            0 <= i < headers.len() ==> headers::is_name(
                vstd::utf8::encode_utf8((#[trigger] headers[i]).name),
            ) && headers::is_value(vstd::utf8::encode_utf8(headers[i].value)),
    ensures
        header_fault(headers) is None,
    decreases headers.len(),
{
    if headers.len() > 0 {
        let front = headers.drop_last();
        assert forall|i: int| 0 <= i < front.len() implies headers::is_name(
            vstd::utf8::encode_utf8((#[trigger] front[i]).name),
        ) && headers::is_value(vstd::utf8::encode_utf8(front[i].value)) by {
            assert(front[i] == headers[i]);
        }
        good_headers_have_no_fault(front);
        assert(headers[headers.len() - 1] == headers.last());
    }
}

/// No header of a request is lost, added, altered or moved among those of its name: for
/// every name the header map holds the values of just those headers that have it, in
/// the order in which they were sent, and it holds as many values as headers were sent.
pub proof fn no_header_is_filtered(headers: Seq<wire::HeaderView>, name: Seq<char>)
    ensures
        headers::values(request_entries(headers), name) == headers.filter_map(
            |header: wire::HeaderView|
                if headers::name_of(vstd::utf8::encode_utf8(header.name)) == name {
                    Some(vstd::utf8::encode_utf8(header.value))
                } else {
                    None
                },
        ),
        sent_values(headers, name) == headers::values(request_entries(headers), name),
        request_entries(headers).len() == headers.len(),
    decreases headers.len(),
{
    request_headers_survive(headers, name);
    if headers.len() > 0 {
        no_header_is_filtered(headers.drop_last(), name);
        headers::append_adds_one_value(
            request_entries(headers.drop_last()),
            headers::name_of(vstd::utf8::encode_utf8(headers.last().name)),
            vstd::utf8::encode_utf8(headers.last().value),
            name,
        );
        let value = vstd::utf8::encode_utf8(headers.last().value);
        let before = sent_values(headers.drop_last(), name);
        assert(before + seq![value] =~= before.push(value));
    }
}

/// One more header is one more value, appended to its own name.
pub proof fn one_more_header_is_appended(
    headers: Seq<wire::HeaderView>,
    name: Seq<char>,
    value: Seq<char>,
    unknown: Seq<crate::message::UnknownView>,
)
    ensures
        request_entries(Seq::empty()) == Seq::<headers::Entry>::empty(),
        request_entries(headers.push(wire::HeaderView { name, value, unknown }))
            == headers::appended(
            request_entries(headers),
            headers::name_of(vstd::utf8::encode_utf8(name)),
            vstd::utf8::encode_utf8(value),
        ),
{
    assert(headers.push(wire::HeaderView { name, value, unknown }).drop_last() =~= headers);
}

/// Of the values of a response header map just those that are no text are left out on
/// the way to the webview. Every other one crosses under its own name, as its own text,
/// and in its place.
pub proof fn only_unreadable_values_are_left_out(entries: Seq<headers::Entry>)
    ensures
        wire_headers(entries) == entries.filter_map(
            |entry: headers::Entry|
                if headers::is_visible(entry.1) {
                    Some(
                        wire::HeaderView {
                            name: entry.0,
                            value: headers::text_of(entry.1),
                            unknown: Seq::empty(),
                        },
                    )
                } else {
                    None
                },
        ),
    decreases entries.len(),
{
    if entries.len() > 0 {
        let front = entries.drop_last();
        only_unreadable_values_are_left_out(front);
        let header = wire::HeaderView {
            name: entries.last().0,
            value: headers::text_of(entries.last().1),
            unknown: Seq::empty(),
        };
        assert(wire_headers(front) + seq![header] =~= wire_headers(front).push(header));
    }
}

/// The request of a call that was started is the one that the webview asked for: its
/// method as it was given, the origin and the whole url, and under every name all of
/// the values that were sent, in order.
pub proof fn a_started_request_is_the_one_asked_for(
    start: wire::StartRequestView,
    request: IpcRequest,
    name: Seq<char>,
)
    requires
        asked_for(start, request),
    ensures
        request.method@ == start.method,
        request.uri@ == "tauri://ipc"@ + start.url,
        headers::values(headers::entries(request.headers), name) == sent_values(
            start.headers,
            name,
        ),
        headers::values(headers::entries(request.headers), name) == start.headers.filter_map(
            |header: wire::HeaderView|
                if headers::name_of(vstd::utf8::encode_utf8(header.name)) == name {
                    Some(vstd::utf8::encode_utf8(header.value))
                } else {
                    None
                },
        ),
        headers::entries(request.headers).len() == start.headers.len(),
{
    the_uri_holds_the_whole_url(start.url);
    no_header_is_filtered(start.headers, name);
}

/// The body of a call that was started is the one that the webview asked for: all that
/// came with the start and then the end, or what is put in at the sender that goes with
/// it, with room for so many chunks.
pub proof fn a_started_body_is_the_one_asked_for(
    start: wire::StartRequestView,
    body: IpcRequestBody,
    tx: Option<mpsc::Sender<Bytes>>,
)
    requires
        fed_by(start, body, tx),
    ensures
        start.streaming_request <==> tx is Some,
        tx matches Some(tx) ==> body::feeds(tx, body.rx) && body::depth(tx) == 32,
        !start.streaming_request ==> {
            &&& body::queued(body.rx).flatten() == start.body
            &&& body::queued(body.rx).len() <= 1
            &&& forall|i: int|
                0 <= i < body::queued(body.rx).len() ==> (#[trigger] body::queued(
                    body.rx,
                )[i]).len() > 0
        },
{
    body::complete_body_carries_its_bytes(start.body);
}

/// The first chunk that a start hands out is all that came with it of a streaming body,
/// for the sender of that body. None is handed out where nothing came, or where the
/// body is complete.
pub proof fn a_first_chunk_is_all_that_came_with_the_start(
    start: wire::StartRequestView,
    first: Option<(mpsc::Sender<Bytes>, Bytes)>,
    tx: Option<mpsc::Sender<Bytes>>,
)
    requires
        first_of(start, first, tx),
    ensures
        first is Some <==> start.streaming_request && start.body.len() > 0,
        first matches Some((to, chunk)) ==> tx == Some(to) && body::content(chunk) == start.body,
{
}

/// A reply in one piece says what the service answered: the very status, every header
/// that can be read, and the whole body. A service or a body that failed is reported
/// with what it said, and never as a head.
pub proof fn a_reply_says_what_the_service_answered(answer: Answer, failure: String)
    ensures
        inline_reply_view(Err(failure)) == Err::<wire::ResponseHeadView, Seq<char>>(
            "connect service failed: "@ + failure@,
        ),
        answer.body matches Err(e) ==> inline_reply_view(Ok(answer)) == Err::<
            wire::ResponseHeadView,
            Seq<char>,
        >("response body failed: "@ + e@),
        answer.body matches Ok(bytes) ==> {
            &&& inline_reply_view(Ok(answer)) matches Ok(head)
            &&& head.status == answer.status
            &&& head.body == bytes@
            &&& head.headers == headers::entries(answer.headers).filter_map(
                |entry: headers::Entry|
                    if headers::is_visible(entry.1) {
                        Some(
                            wire::HeaderView {
                                name: entry.0,
                                value: headers::text_of(entry.1),
                                unknown: Seq::empty(),
                            },
                        )
                    } else {
                        None
                    },
            )
            &&& head.unknown.len() == 0
        },
{
    only_unreadable_values_are_left_out(headers::entries(answer.headers));
}

/// Two answers with the same body and headers are told apart by their status.
pub proof fn replies_tell_statuses_apart(a: Answer, b: Answer)
    requires
        a.body is Ok,
        b.body is Ok,
        a.status != b.status,
    ensures
        inline_reply_view(Ok(a))->Ok_0.status != inline_reply_view(Ok(b))->Ok_0.status,
{
}

} // verus!
