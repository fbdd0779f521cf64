//! The commands of the plugin: what each does with its payload and the calls in
//! flight.

use crate::body;
use crate::call;
use crate::codec;
use crate::codec::InvokeBody;
use crate::registry;
use crate::registry::CallRegistry;
use crate::wire;
use crate::wire::{CancelRequest, SendRequest, StartRequest};
use bytes::Bytes;
use tokio::sync::mpsc;
use tokio::task::AbortHandle;
use vstd::prelude::*;
use vstd::string::StringExecFns;

verus! {

/// Name under which the plugin registers. The webview addresses commands as
/// `plugin:connectrpc-tauri|connect_rpc`.
///
/// This must equal the crate name: Tauri's ACL keys a plugin's permissions on
/// the package name, so a different runtime name makes every command fail the
/// permission check with "Plugin not found" even though the capability lists
/// it.
pub const PLUGIN_NAME: &'static str = "connectrpc-tauri";

/// Where the response of a call goes.
pub enum Reply {
    /// Back in one piece: a response that cannot stream is cheaper returned from the
    /// invoke than pushed over a channel, which Tauri delivers by evaluating
    /// JavaScript per frame.
    Inline,
    /// Over the channel with this id.
    Channel(String),
}

/// Start an RPC: what the webview asks for, and where the response goes.
///
/// The channel id rides inside the protobuf rather than arriving as a JSON
/// command argument: a raw IPC payload leaves no room for JSON args. An empty id
/// means the client wants the body inline.
pub fn connect_rpc(payload: &InvokeBody) -> (r: Result<(StartRequest, Reply), String>)
    ensures
        match codec::argument::<StartRequest>(*payload) {
            Ok(value) => {
                &&& r matches Ok((ask, reply))
                &&& ask@ == value
                &&& match reply {
                    Reply::Inline => value.channel.len() == 0,
                    Reply::Channel(id) => value.channel.len() > 0 && id@ == value.channel,
                }
            },
            Err(text) => r matches Err(e) && e@ == text,
        },
{
    match codec::decode::<StartRequest>(payload) {
        Ok(ask) => {
            let reply = if ask.channel.as_str().is_empty() {
                Reply::Inline
            } else {
                Reply::Channel(ask.channel.clone())
            };
            Ok((ask, reply))
        },
        Err(e) => Err(e),
    }
}

/// What an RPC with an id that names no channel resolves with.
pub fn channel_fault(text: &str) -> (r: String)
    ensures
        r@ == "invalid response channel: "@ + text@,
{
    "invalid response channel: ".to_string().concat(text)
}

/// What is left to do of a `connect_rpc_send`.
pub enum Send {
    /// Nothing.
    Done,
    /// Put a chunk into a request body. Awaiting that is the backpressure: while the
    /// handler is not draining, the invoke stays pending and the client stops
    /// writing.
    Push { tx: mpsc::Sender<Bytes>, chunk: Bytes },
}

/// A chunk and the sender that it is to be put in with.
pub type Chunk = (mpsc::Sender<Bytes>, Seq<u8>);

/// What a `connect_rpc_send` leaves of the calls in flight, and the chunk that it asks
/// to be put in, if any.
pub open spec fn sending(calls: registry::Calls, send: wire::SendRequestView) -> (
    registry::Calls,
    Option<Chunk>,
) {
    if send.end_of_stream {
        (registry::closed(calls, send.call_id), None)
    } else {
        match registry::sender(calls, send.call_id) {
            Some(tx) => (calls, Some((tx, send.chunk))),
            None => (calls, None),
        }
    }
}

/// Push another request body chunk into an in-flight call, or end its request body.
///
/// A chunk for a call that already finished or was cancelled is dropped: the handler
/// is gone and has nowhere to put it.
pub fn connect_rpc_send(
    calls: &mut CallRegistry,
    payload: &InvokeBody,
) -> (r: Result<Send, String>)
    ensures
        match codec::argument::<SendRequest>(*payload) {
            Ok(send) => {
                &&& final(calls)@ == sending(old(calls)@, send).0
                &&& match sending(old(calls)@, send).1 {
                    Some((to, bytes)) => {
                        &&& r matches Ok(Send::Push { tx, chunk })
                        &&& tx == to
                        &&& body::content(chunk) == bytes
                    },
                    None => r matches Ok(Send::Done),
                }
            },
            Err(text) => final(calls)@ == old(calls)@ && (r matches Err(e) && e@ == text),
        },
{
    match codec::decode::<SendRequest>(payload) {
        Ok(send) => {
            if send.end_of_stream {
                calls.close_request_body(send.call_id);
                return Ok(Send::Done);
            }
            match calls.body_sender(send.call_id) {
                Some(tx) => Ok(Send::Push { tx, chunk: body::chunk_of(send.chunk) }),
                None => Ok(Send::Done),
            }
        },
        Err(e) => Err(e),
    }
}

/// Abandon an in-flight call: hands out the response pump that is to be aborted.
pub fn connect_rpc_cancel(
    calls: &mut CallRegistry,
    payload: &InvokeBody,
) -> (r: Result<Option<AbortHandle>, String>)
    ensures
        match codec::argument::<CancelRequest>(*payload) {
            Ok(cancel) => {
                &&& r matches Ok(pump)
                &&& (final(calls)@, pump) == registry::removed(old(calls)@, cancel.call_id)
            },
            Err(text) => final(calls)@ == old(calls)@ && (r matches Err(e) && e@ == text),
        },
{
    match codec::decode::<CancelRequest>(payload) {
        Ok(cancel) => Ok(calls.remove(cancel.call_id)),
        Err(e) => Err(e),
    }
}

// ---- request streams ----

/// The calls in flight after some `connect_rpc_send`s.
pub open spec fn after_sends(
    calls: registry::Calls,
    sends: Seq<wire::SendRequestView>,
) -> registry::Calls
    decreases sends.len(),
{
    if sends.len() == 0 {
        calls
    } else {
        sending(after_sends(calls, sends.drop_last()), sends.last()).0
    }
}

/// The chunks that some `connect_rpc_send`s ask to be put in for one call, in order.
pub open spec fn put_in(
    calls: registry::Calls,
    sends: Seq<wire::SendRequestView>,
    id: registry::CallId,
) -> Seq<Chunk>
    decreases sends.len(),
{
    if sends.len() == 0 {
        Seq::empty()
    } else {
        let before = put_in(calls, sends.drop_last(), id);
        match sending(after_sends(calls, sends.drop_last()), sends.last()).1 {
            Some(chunk) if sends.last().call_id == id => before.push(chunk),
            _ => before,
        }
    }
}

/// Whether the request body of a call ends among some `connect_rpc_send`s.
pub open spec fn ends(sends: Seq<wire::SendRequestView>, id: registry::CallId) -> bool {
    exists|i: int|
        0 <= i < sends.len() && (#[trigger] sends[i]).call_id == id && sends[i].end_of_stream
}

/// The chunks that are sent to a call before its request body ends, in order.
pub open spec fn chunks_before_the_end(
    sends: Seq<wire::SendRequestView>,
    id: registry::CallId,
) -> Seq<Seq<u8>>
    decreases sends.len(),
{
    if sends.len() == 0 {
        Seq::empty()
    } else {
        let before = chunks_before_the_end(sends.drop_last(), id);
        if sends.last().call_id == id && !ends(sends, id) {
            before.push(sends.last().chunk)
        } else {
            before
        }
    }
}

/// A request stream keeps its order, whatever is sent to other calls in between: the
/// chunks for a call are put in at its own sender, one for one and in the order in
/// which they are sent, up to the end of its request body, and none behind that. Once
/// the body has ended the registry holds no sender that could keep it open.
pub proof fn a_request_stream_keeps_its_order(
    calls: registry::Calls,
    id: registry::CallId,
    tx: mpsc::Sender<Bytes>,
    sends: Seq<wire::SendRequestView>,
)
    ensures
        ({
            let begun = registry::begun(calls, id, Some(tx));
            let chunks = chunks_before_the_end(sends, id);
            &&& put_in(begun, sends, id) == Seq::new(chunks.len(), |i: int| (tx, chunks[i]))
            &&& registry::sender(after_sends(begun, sends), id) == (if ends(sends, id) {
                None
            } else {
                Some(tx)
            })
        }),
    decreases sends.len(),
{
    let begun = registry::begun(calls, id, Some(tx));
    let chunks = chunks_before_the_end(sends, id);
    if sends.len() > 0 {
        let front = sends.drop_last();
        let last = sends.last();
        a_request_stream_keeps_its_order(calls, id, tx, front);
        assert(ends(sends, id) == (ends(front, id) || (last.call_id == id
            && last.end_of_stream))) by {
            if ends(front, id) {
                let i = choose|i: int|
                    0 <= i < front.len() && (#[trigger] front[i]).call_id == id
                        && front[i].end_of_stream;
                assert(sends[i].call_id == id);
            }
            if ends(sends, id) {
                let i = choose|i: int|
                    0 <= i < sends.len() && (#[trigger] sends[i]).call_id == id
                        && sends[i].end_of_stream;
                if i < front.len() {
                    assert(front[i].call_id == id);
                }
            }
            assert(sends[sends.len() - 1] == last);
        }
    }
    assert(put_in(begun, sends, id) =~= Seq::new(chunks.len(), |i: int| (tx, chunks[i])));
}

/// The chunk that a start hands out to be put in, if any.
pub open spec fn handed_out(first: Option<(mpsc::Sender<Bytes>, Bytes)>) -> Seq<Chunk> {
    match first {
        Some((to, chunk)) => seq![(to, body::content(chunk))],
        None => Seq::empty(),
    }
}

/// A streaming request body is whole: the chunk that rides with the start, if there is
/// one, goes to the same sender as those that follow, and ahead of them; with it in
/// front the body is all that was sent for the call up to its end, in order, and
/// nothing else.
pub proof fn a_request_body_starts_with_its_first_chunk(
    calls: registry::Calls,
    start: wire::StartRequestView,
    first: Option<(mpsc::Sender<Bytes>, Bytes)>,
    tx: mpsc::Sender<Bytes>,
    sends: Seq<wire::SendRequestView>,
)
    requires
        start.streaming_request,
        call::first_of(start, first, Some(tx)),
    ensures
        ({
            let begun = registry::begun(calls, start.call_id, Some(tx));
            let chunks = body::chunks(start.body) + chunks_before_the_end(sends, start.call_id);
            &&& handed_out(first) + put_in(begun, sends, start.call_id) == Seq::new(
                chunks.len(),
                |i: int| (tx, chunks[i]),
            )
            &&& registry::sender(after_sends(begun, sends), start.call_id) == (if ends(
                sends,
                start.call_id,
            ) {
                None
            } else {
                Some(tx)
            })
        }),
{
    let begun = registry::begun(calls, start.call_id, Some(tx));
    let chunks = body::chunks(start.body) + chunks_before_the_end(sends, start.call_id);
    a_request_stream_keeps_its_order(calls, start.call_id, tx, sends);
    assert(handed_out(first) + put_in(begun, sends, start.call_id) =~= Seq::new(
        chunks.len(),
        |i: int| (tx, chunks[i]),
    ));
}

/// Whatever the state of the calls in flight, a chunk reaches the call that it names if
/// that call holds a sender, at that sender and unaltered, and is dropped if not; the
/// calls stay as they are. An end takes the sender out of the call that it names, puts
/// nothing in, and touches nothing else.
pub proof fn a_chunk_reaches_the_call_that_it_names(
    calls: registry::Calls,
    send: wire::SendRequestView,
)
    ensures
        !send.end_of_stream ==> {
            &&& sending(calls, send).0 == calls
            &&& calls.dom().contains(send.call_id) ==> match calls[send.call_id].body {
                Some(tx) => sending(calls, send).1 == Some((tx, send.chunk)),
                None => sending(calls, send).1 is None,
            }
            &&& !calls.dom().contains(send.call_id) ==> sending(calls, send).1 is None
        },
        send.end_of_stream ==> {
            &&& sending(calls, send).1 is None
            &&& sending(calls, send).0.dom() == calls.dom()
            &&& calls.dom().contains(send.call_id) ==> {
                &&& sending(calls, send).0[send.call_id].body is None
                &&& sending(calls, send).0[send.call_id].pump == calls[send.call_id].pump
                &&& sending(calls, send).0[send.call_id].cancelled
                    == calls[send.call_id].cancelled
            }
            &&& registry::differ_at_most_at(sending(calls, send).0, calls, send.call_id)
        },
{
    assert(send.end_of_stream ==> sending(calls, send).0.dom() =~= calls.dom());
}

/// Something that happens to the calls in flight.
pub enum Traffic {
    /// A `connect_rpc_send` is answered.
    Sent(wire::SendRequestView),
    /// The registry changes in another way.
    Changed(registry::Step),
}

/// What is left of the calls in flight, and the chunk that is to be put in.
pub open spec fn meeting(calls: registry::Calls, event: Traffic) -> (
    registry::Calls,
    Option<Chunk>,
) {
    match event {
        Traffic::Sent(send) => sending(calls, send),
        Traffic::Changed(step) => (step.outcome(calls).0, None),
    }
}

/// The calls in flight after some traffic.
pub open spec fn after_traffic(calls: registry::Calls, traffic: Seq<Traffic>) -> registry::Calls
    decreases traffic.len(),
{
    if traffic.len() == 0 {
        calls
    } else {
        meeting(after_traffic(calls, traffic.drop_last()), traffic.last()).0
    }
}

/// The chunks that some traffic asks to be put in for one call, in order.
pub open spec fn put_in_amid(
    calls: registry::Calls,
    traffic: Seq<Traffic>,
    id: registry::CallId,
) -> Seq<Chunk>
    decreases traffic.len(),
{
    if traffic.len() == 0 {
        Seq::empty()
    } else {
        let before = put_in_amid(calls, traffic.drop_last(), id);
        match meeting(after_traffic(calls, traffic.drop_last()), traffic.last()).1 {
            Some(chunk) if traffic.last()->Sent_0.call_id == id => before.push(chunk),
            _ => before,
        }
    }
}

/// The `connect_rpc_send`s among some traffic, in order.
pub open spec fn sends_amid(traffic: Seq<Traffic>) -> Seq<wire::SendRequestView>
    decreases traffic.len(),
{
    if traffic.len() == 0 {
        Seq::empty()
    } else {
        match traffic.last() {
            Traffic::Sent(send) => sends_amid(traffic.drop_last()).push(send),
            _ => sends_amid(traffic.drop_last()),
        }
    }
}

/// A request stream keeps its order through all that may happen while its call runs:
/// its own pump is attached, and other calls start, run, end and are cancelled. The
/// chunks for the call are put in at its own sender, one for one and in the order in
/// which they are sent, up to the end of its request body, and none behind that.
pub proof fn a_request_stream_keeps_its_order_amid_other_calls(
    calls: registry::Calls,
    id: registry::CallId,
    tx: mpsc::Sender<Bytes>,
    traffic: Seq<Traffic>,
)
    requires
        forall|i: int|
            0 <= i < traffic.len() ==> ((#[trigger] traffic[i]) matches Traffic::Changed(step)
                ==> step.id() == id ==> step is Attach),
    ensures
        ({
            let begun = registry::begun(calls, id, Some(tx));
            let sends = sends_amid(traffic);
            let chunks = chunks_before_the_end(sends, id);
            &&& put_in_amid(begun, traffic, id) == Seq::new(chunks.len(), |i: int| (tx, chunks[i]))
            &&& after_traffic(begun, traffic).dom().contains(id)
            &&& !after_traffic(begun, traffic)[id].cancelled
            &&& registry::sender(after_traffic(begun, traffic), id) == (if ends(sends, id) {
                None
            } else {
                Some(tx)
            })
        }),
    decreases traffic.len(),
{
    let begun = registry::begun(calls, id, Some(tx));
    let chunks = chunks_before_the_end(sends_amid(traffic), id);
    if traffic.len() > 0 {
        let front = traffic.drop_last();
        let last = traffic[traffic.len() - 1];
        assert forall|i: int| 0 <= i < front.len() implies ((#[trigger] front[i])
            matches Traffic::Changed(step) ==> step.id() == id ==> step is Attach) by {
            assert(traffic[i] matches Traffic::Changed(step) ==> step.id() == id ==> step
                is Attach);
        }
        a_request_stream_keeps_its_order_amid_other_calls(calls, id, tx, front);
        match last {
            Traffic::Sent(send) => {
                assert(sends_amid(traffic).drop_last() =~= sends_amid(front));
                one_more_send_ends(sends_amid(front), send, id);
            },
            Traffic::Changed(_) => {},
        }
    }
    assert(put_in_amid(begun, traffic, id) =~= Seq::new(chunks.len(), |i: int| (tx, chunks[i])));
}

proof fn one_more_send_ends(
    sends: Seq<wire::SendRequestView>,
    send: wire::SendRequestView,
    id: registry::CallId,
)
    ensures
        ends(sends.push(send), id) == (ends(sends, id) || (send.call_id == id
            && send.end_of_stream)),
{
    let all = sends.push(send);
    if ends(sends, id) {
        let i = choose|i: int|
            0 <= i < sends.len() && (#[trigger] sends[i]).call_id == id && sends[i].end_of_stream;
        assert(all[i].call_id == id);
    }
    if ends(all, id) {
        let i = choose|i: int|
            0 <= i < all.len() && (#[trigger] all[i]).call_id == id && all[i].end_of_stream;
        if i < sends.len() {
            assert(sends[i].call_id == id);
        }
    }
    assert(all[sends.len() as int] == send);
}

} // verus!
