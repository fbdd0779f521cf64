//! The `ipc-connect://` custom protocol: a direct path for unary calls.
//!
//! Tauri's own IPC is a command router: a request crosses as an invoke payload,
//! is matched against a command name, checked against the ACL, then answered.
//! A custom URI scheme skips all of it: no envelope, no call registry, no command
//! dispatch.
//!
//! A scheme responder is one-shot on every platform, so only unary calls travel
//! this way. Streaming keeps the channel transport, which really does stream.

use crate::headers;
use http::{HeaderMap, HeaderValue};
use vstd::prelude::*;

verus! {

/// The URI scheme unary calls travel over.
///
/// Not `ipc`: that is Tauri's own, and overriding it would break every stock
/// plugin. The name doubles as a hostname label on Windows and Android, where
/// `scheme://localhost` is rewritten to `http://scheme.localhost`, so it is
/// restricted to characters legal in both a scheme and a host: `+` would be
/// valid in a URI scheme but not in that hostname.
pub const SCHEME: &'static str = "ipc-connect";

/// The header that says who may read a response.
pub const ALLOW_ORIGIN: &'static str = "access-control-allow-origin";

/// The header that says which response headers may be read.
pub const EXPOSE_HEADERS: &'static str = "access-control-expose-headers";

/// The header that says which request headers may be sent.
pub const ALLOW_HEADERS: &'static str = "access-control-allow-headers";

/// The header that says which methods may be used.
pub const ALLOW_METHODS: &'static str = "access-control-allow-methods";

/// The names above can stand in a header map.
proof fn names_are_plain()
    ensures
        headers::is_plain_name(ALLOW_ORIGIN@),
        headers::is_plain_name(EXPOSE_HEADERS@),
        headers::is_plain_name(ALLOW_HEADERS@),
        headers::is_plain_name(ALLOW_METHODS@),
{
    reveal_strlit("access-control-allow-origin");
    reveal_strlit("access-control-expose-headers");
    reveal_strlit("access-control-allow-headers");
    reveal_strlit("access-control-allow-methods");
}

/// A response to a request that came over the scheme.
pub struct Response {
    /// The HTTP status.
    pub status: u16,
    /// The headers.
    pub headers: HeaderMap<HeaderValue>,
    /// The whole body.
    pub body: Vec<u8>,
}

/// The value that permits everything.
pub open spec fn any() -> Seq<u8> {
    vstd::utf8::encode_utf8("*"@)
}

/// The entries of a header map once the webview's origin may read the response.
pub open spec fn permitted(entries: Seq<headers::Entry>) -> Seq<headers::Entry> {
    headers::inserted(
        headers::inserted(entries, ALLOW_ORIGIN@, any()),
        EXPOSE_HEADERS@,
        any(),
    )
}

/// Permits the webview's origin to read a response with these headers.
fn permit(map: &mut HeaderMap<HeaderValue>) -> (r: Result<(), String>)
    ensures
        match r {
            Ok(()) => headers::entries(*final(map)) == permitted(headers::entries(*old(map))),
            Err(e) => {
                &&& headers::names(headers::entries(*old(map))).insert(ALLOW_ORIGIN@).len()
                    > headers::SURE_HEADERS
                &&& e@ == "max size reached"@
            },
        },
{
    proof {
        names_are_plain();
        headers::plain_names_are_kept(ALLOW_ORIGIN@);
        headers::plain_names_are_kept(EXPOSE_HEADERS@);
        values_are_plain();
        headers::names_are_had(headers::entries(*map));
        headers::inserting_adds_the_name(headers::entries(*map), ALLOW_ORIGIN@, any());
    }
    match headers::insert(map, ALLOW_ORIGIN.as_bytes(), "*".as_bytes()) {
        Ok(()) => headers::insert(map, EXPOSE_HEADERS.as_bytes(), "*".as_bytes()),
        Err(e) => Err(e),
    }
}

/// Permit the webview's origin to read the response.
///
/// The page runs on `tauri://localhost` (or `http://tauri.localhost`), so every
/// request here is cross-origin and the response is unreadable without this.
/// `*` matches what Tauri's own IPC protocol sends: the only client that can
/// reach this scheme is a webview inside this process.
///
/// Connect reads its status and metadata off response headers, and a cross-origin
/// response exposes none by default, so they are exposed too.
///
/// Fails only on a header map without room for the names.
pub fn cors(response: Response) -> (r: Result<Response, String>)
    ensures
        match r {
            Ok(out) => {
                &&& out.status == response.status
                &&& out.body == response.body
                &&& headers::entries(out.headers) == permitted(headers::entries(response.headers))
            },
            Err(e) => {
                &&& headers::names(headers::entries(response.headers)).insert(ALLOW_ORIGIN@).len()
                    > headers::SURE_HEADERS
                &&& e@ == "max size reached"@
            },
        },
{
    let mut response = response;
    match permit(&mut response.headers) {
        Ok(()) => Ok(response),
        Err(e) => Err(e),
    }
}

/// The values written here can stand in a header map.
proof fn values_are_plain()
    ensures
        headers::is_value(any()),
        headers::is_value(vstd::utf8::encode_utf8("POST, OPTIONS"@)),
{
    reveal_strlit("*");
    reveal_strlit("POST, OPTIONS");
    headers::plain_values_are_kept("*"@);
    headers::plain_values_are_kept("POST, OPTIONS"@);
}

/// What the answer to a preflight holds.
pub open spec fn preflight_entries() -> Seq<headers::Entry> {
    seq![
        (ALLOW_HEADERS@, any()),
        (ALLOW_METHODS@, vstd::utf8::encode_utf8("POST, OPTIONS"@)),
        (ALLOW_ORIGIN@, any()),
        (EXPOSE_HEADERS@, any()),
    ]
}

/// The answer to a preflight.
///
/// A preflight never reaches the service: the webview sends one for the
/// `content-type` and `connect-protocol-version` headers Connect sets, and
/// it must be answered before the POST is allowed to leave.
pub fn preflight() -> (r: Response)
    ensures
        r.status == 200,
        r.body@.len() == 0,
        headers::entries(r.headers) == preflight_entries(),
{
    let mut map = headers::new_map();
    proof {
        names_are_plain();
        headers::plain_names_are_kept(ALLOW_HEADERS@);
        headers::plain_names_are_kept(ALLOW_METHODS@);
        values_are_plain();
        preflight_entries_come_together();
    }
    let _ = headers::append(&mut map, ALLOW_HEADERS.as_bytes(), "*".as_bytes());
    let _ = headers::append(&mut map, ALLOW_METHODS.as_bytes(), "POST, OPTIONS".as_bytes());
    let _ = permit(&mut map);
    Response { status: 200, headers: map, body: Vec::new() }
}

proof fn preflight_entries_come_together()
    ensures
        ({
            let none = Seq::<headers::Entry>::empty();
            let one = headers::appended(none, ALLOW_HEADERS@, any());
            let two = headers::appended(
                one,
                ALLOW_METHODS@,
                vstd::utf8::encode_utf8("POST, OPTIONS"@),
            );
            &&& headers::names(none).len() == 0
            &&& headers::names(one).len() <= 1
            &&& headers::names(two).insert(ALLOW_ORIGIN@).len() <= 3
            &&& permitted(two) == preflight_entries()
        }),
{
    reveal_strlit("access-control-allow-origin");
    reveal_strlit("access-control-expose-headers");
    reveal_strlit("access-control-allow-headers");
    reveal_strlit("access-control-allow-methods");
    assert(ALLOW_HEADERS@[21] == 'h' && ALLOW_METHODS@[21] == 'm');
    let none = Seq::<headers::Entry>::empty();
    let one = headers::appended(none, ALLOW_HEADERS@, any());
    assert(one =~= seq![(ALLOW_HEADERS@, any())]);
    let two = headers::appended(one, ALLOW_METHODS@, vstd::utf8::encode_utf8("POST, OPTIONS"@));
    assert(two =~= one.push((ALLOW_METHODS@, vstd::utf8::encode_utf8("POST, OPTIONS"@))));
    headers::names_are_had(none);
    headers::names_are_had(one);
    headers::names_are_had(two);
    let three = headers::inserted(two, ALLOW_ORIGIN@, any());
    assert(three =~= two.push((ALLOW_ORIGIN@, any())));
    assert forall|i: int| 0 <= i < three.len() implies #[trigger] three[i].0 != EXPOSE_HEADERS@ by {
        assert(three[i].0.len() < EXPOSE_HEADERS@.len());
    }
    assert(permitted(two) =~= three.push((EXPOSE_HEADERS@, any())));
    assert(permitted(two) =~= preflight_entries());
}

/// How a request over the scheme is answered without asking the service: a preflight
/// is, and nothing else.
pub fn answer_at_once(method: &str) -> (r: Option<Response>)
    ensures
        (r is Some) == (method@ == "OPTIONS"@),
        r matches Some(response) ==> {
            &&& response.status == 200
            &&& response.body@.len() == 0
            &&& headers::entries(response.headers) == preflight_entries()
        },
{
    if method.to_string() == "OPTIONS".to_string() {
        Some(preflight())
    } else {
        None
    }
}

/// Permission to read a response is given once, in place of what the service said of
/// it, and every other header stays.
pub proof fn every_response_can_be_read(entries: Seq<headers::Entry>, name: Seq<char>)
    ensures
        headers::values(permitted(entries), name) == (if name == ALLOW_ORIGIN@ || name
            == EXPOSE_HEADERS@ {
            seq![any()]
        } else {
            headers::values(entries, name)
        }),
{
    let once = headers::inserted(entries, ALLOW_ORIGIN@, any());
    headers::insert_sets_the_value(entries, ALLOW_ORIGIN@, any(), name);
    headers::insert_sets_the_value(once, EXPOSE_HEADERS@, any(), name);
}

/// Everybody may read a response, and all of its headers, under the names that browsers
/// look for; and no other header of it is touched.
pub proof fn everybody_may_read_a_response(entries: Seq<headers::Entry>, name: Seq<char>)
    ensures
        name == "access-control-allow-origin"@ || name == "access-control-expose-headers"@
            ==> headers::values(permitted(entries), name) == seq![
            vstd::utf8::encode_utf8("*"@),
        ],
        name != "access-control-allow-origin"@ && name != "access-control-expose-headers"@
            ==> headers::values(permitted(entries), name) == headers::values(entries, name),
{
    every_response_can_be_read(entries, name);
}

/// A preflight is answered with leave to send any header, by POST or OPTIONS, and to read
/// what comes back; and with nothing else.
pub proof fn a_preflight_gives_leave(name: Seq<char>)
    ensures
        headers::values(preflight_entries(), name) == (if name == "access-control-allow-headers"@
            || name == "access-control-allow-origin"@ || name
            == "access-control-expose-headers"@ {
            seq![vstd::utf8::encode_utf8("*"@)]
        } else if name == "access-control-allow-methods"@ {
            seq![vstd::utf8::encode_utf8("POST, OPTIONS"@)]
        } else {
            Seq::empty()
        }),
{
    reveal_strlit("access-control-allow-origin");
    reveal_strlit("access-control-expose-headers");
    reveal_strlit("access-control-allow-headers");
    reveal_strlit("access-control-allow-methods");
    assert(ALLOW_HEADERS@[21] == 'h' && ALLOW_METHODS@[21] == 'm');
    let any = any();
    let verbs = vstd::utf8::encode_utf8("POST, OPTIONS"@);
    let all = preflight_entries();
    let three = seq![(ALLOW_HEADERS@, any), (ALLOW_METHODS@, verbs), (ALLOW_ORIGIN@, any)];
    let two = seq![(ALLOW_HEADERS@, any), (ALLOW_METHODS@, verbs)];
    let one = seq![(ALLOW_HEADERS@, any)];
    let none = Seq::<Seq<u8>>::empty();
    assert(all.drop_last() =~= three);
    assert(three.drop_last() =~= two);
    assert(two.drop_last() =~= one);
    assert(one.drop_last() =~= Seq::empty());
    assert(headers::values(one.drop_last(), name) == none);
    assert(none.push(any) =~= seq![any]);
    assert(none.push(verbs) =~= seq![verbs]);
    assert(headers::values(one, name) == (if name == ALLOW_HEADERS@ {
        seq![any]
    } else {
        none
    }));
    assert(ALLOW_HEADERS@ != ALLOW_METHODS@);
    assert(ALLOW_HEADERS@.len() == 28 && ALLOW_METHODS@.len() == 28);
    assert(ALLOW_ORIGIN@.len() == 27 && EXPOSE_HEADERS@.len() == 29);
    assert(headers::values(two, name) == (if name == ALLOW_METHODS@ {
        seq![verbs]
    } else {
        headers::values(one, name)
    }));
    assert(headers::values(three, name) == (if name == ALLOW_ORIGIN@ {
        seq![any]
    } else {
        headers::values(two, name)
    }));
}

} // verus!
