//! The request body fed by `connect_rpc_send`.

use bytes::Bytes;
use tokio::sync::mpsc;
use vstd::prelude::*;

verus! {

/// How many chunks may sit in the channel before `connect_rpc_send` resolves
/// slowly, applying backpressure to the webview.
pub const CHANNEL_DEPTH: usize = 32;

// ---- the outside types and functions ----

/// [`bytes::Bytes`], a chunk of bytes that is cheap to clone.
#[verifier::external_type_specification]
#[verifier::external_body]
pub struct ExBytes(bytes::Bytes);

/// [`tokio::sync::mpsc::Sender`], one of the handles that put into a channel.
#[verifier::external_type_specification]
#[verifier::external_body]
#[verifier::reject_recursive_types(T)]
pub struct ExSender<T>(tokio::sync::mpsc::Sender<T>);

/// [`tokio::sync::mpsc::Receiver`], the handle that takes out of a channel.
#[verifier::external_type_specification]
#[verifier::external_body]
#[verifier::reject_recursive_types(T)]
pub struct ExReceiver<T>(tokio::sync::mpsc::Receiver<T>);

/// What a chunk holds.
pub uninterp spec fn content(chunk: bytes::Bytes) -> Seq<u8>;

/// How many chunks the channel of a sender holds at most.
pub uninterp spec fn depth(tx: tokio::sync::mpsc::Sender<bytes::Bytes>) -> usize;

/// Whether what is put in at `tx` comes out at `rx`.
pub uninterp spec fn feeds(
    tx: tokio::sync::mpsc::Sender<bytes::Bytes>,
    rx: tokio::sync::mpsc::Receiver<bytes::Bytes>,
) -> bool;

/// The chunks that come out at a receiver before it reports the end, where no
/// sender is left that could put in more.
pub uninterp spec fn queued(rx: tokio::sync::mpsc::Receiver<bytes::Bytes>) -> Seq<Seq<u8>>;

/// Calls `Bytes::from` on a vector: a chunk that holds the same bytes.
#[verifier::external_body]
pub(crate) fn chunk_of(bytes: Vec<u8>) -> (r: Bytes)
    ensures
        content(r) == bytes@,
{
    Bytes::from(bytes)
}

/// [`Bytes::is_empty`] tells whether a chunk holds nothing.
pub assume_specification[ bytes::Bytes::is_empty ](chunk: &bytes::Bytes) -> (r: bool)
    ensures
        r == (content(*chunk).len() == 0),
;

/// Calls [`mpsc::channel`], which makes a channel with room for `room` chunks. It
/// panics where there is none, and where there is more than a semaphore counts.
#[verifier::external_body]
fn open(room: usize) -> (r: (mpsc::Sender<Bytes>, mpsc::Receiver<Bytes>))
    requires
        0 < room <= usize::MAX / 8,
    ensures
        depth(r.0) == room,
        feeds(r.0, r.1),
{
    mpsc::channel(room)
}

/// Calls [`mpsc::channel`] and drops the only sender: nothing comes out but the end.
#[verifier::external_body]
fn ended() -> (r: mpsc::Receiver<Bytes>)
    ensures
        queued(r) == Seq::<Seq<u8>>::empty(),
{
    let (_, rx) = mpsc::channel(1);
    rx
}

/// Calls [`mpsc::channel`] with room for one chunk, puts it in with
/// `Sender::try_send`, which finds the room, and drops the only sender: the chunk
/// comes out, and then the end.
#[verifier::external_body]
fn ended_after(chunk: Bytes) -> (r: mpsc::Receiver<Bytes>)
    ensures
        queued(r) == seq![content(chunk)],
{
    let (tx, rx) = mpsc::channel(1);
    let _ = tx.try_send(chunk);
    rx
}

// ---- the body ----

/// The chunks of a body that is complete: one, unless there is nothing in it.
pub open spec fn chunks(bytes: Seq<u8>) -> Seq<Seq<u8>> {
    if bytes.len() == 0 {
        Seq::empty()
    } else {
        seq![bytes]
    }
}

/// A request body fed incrementally from the IPC side.
///
/// Client-streaming and bidi calls push chunks here as they arrive rather than
/// buffering the whole request, so a long stream costs [`CHANNEL_DEPTH`] chunks
/// of memory rather than its full length.
pub struct IpcRequestBody {
    /// Where the chunks come out. It reports the end once every sender is dropped:
    /// that is how `connect_rpc_send` signals the end of the stream, and how a
    /// cancel unblocks a stalled handler.
    pub rx: mpsc::Receiver<Bytes>,
}

impl IpcRequestBody {
    /// Create a body plus the sender that feeds it.
    pub fn channel() -> (r: (mpsc::Sender<Bytes>, Self))
        ensures
            depth(r.0) == CHANNEL_DEPTH,
            depth(r.0) == 32,
            feeds(r.0, r.1.rx),
    {
        let (tx, rx) = open(CHANNEL_DEPTH);
        (tx, IpcRequestBody { rx })
    }

    /// A body that is already complete, for unary and server-streaming calls
    /// where the whole request arrived in the `connect_rpc` payload.
    pub fn complete(bytes: Bytes) -> (r: Self)
        ensures
            queued(r.rx) == chunks(content(bytes)),
    {
        let rx = if bytes.is_empty() {
            ended()
        } else {
            ended_after(bytes)
        };
        IpcRequestBody { rx }
    }
}

/// A complete body carries its bytes, no more and no fewer.
pub proof fn complete_body_carries_its_bytes(bytes: Seq<u8>)
    ensures
        chunks(bytes).flatten() == bytes,
{
    if bytes.len() == 0 {
        assert(chunks(bytes).flatten() =~= bytes);
    } else {
        chunks(bytes).lemma_flatten_one_element();
    }
}

/// A complete body comes in one chunk, unless it is empty: no chunk is, and two bodies
/// are told apart by theirs.
pub proof fn complete_bodies_come_in_one_chunk(a: Seq<u8>, b: Seq<u8>)
    ensures
        chunks(a).len() == (if a.len() == 0 {
            0nat
        } else {
            1
        }),
        forall|i: int| 0 <= i < chunks(a).len() ==> (#[trigger] chunks(a)[i]).len() > 0,
        chunks(a) == chunks(b) ==> a == b,
{
    complete_body_carries_its_bytes(a);
    complete_body_carries_its_bytes(b);
}

} // verus!
