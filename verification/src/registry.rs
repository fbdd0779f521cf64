//! Tracks in-flight calls so later IPC messages can reach them.

use bytes::Bytes;
use std::collections::HashMap;
use tokio::sync::mpsc;
use tokio::task::AbortHandle;
use vstd::prelude::*;

verus! {

broadcast use vstd::std_specs::hash::group_hash_axioms;

/// Identifies one in-flight RPC. Allocated by the webview.
pub type CallId = u64;

/// [`tokio::task::AbortHandle`], which stops a task.
#[verifier::external_type_specification]
#[verifier::external_body]
pub struct ExAbortHandle(tokio::task::AbortHandle);

/// [`mpsc::Sender`]'s `clone` makes a second handle on the same channel. A handle
/// stands for its channel, so the clone equals the original.
pub assume_specification<T>[ <tokio::sync::mpsc::Sender<T> as Clone>::clone ](
    tx: &tokio::sync::mpsc::Sender<T>,
) -> (r: tokio::sync::mpsc::Sender<T>)
    ensures
        r == *tx,
;

/// State for one in-flight call.
pub struct Call {
    /// Feeds the request body. `None` once the client signalled end-of-stream.
    pub body: Option<mpsc::Sender<Bytes>>,
    /// Stops the task pumping the response back to the webview.
    ///
    /// `None` for the moment between registering the call and spawning that
    /// task; a cancel arriving in that window is honoured when the handle is
    /// attached.
    pub pump: Option<AbortHandle>,
    /// Set when a cancel arrived before the pump handle did.
    pub cancelled: bool,
}

impl Call {
    /// Only a call that waits for its pump is marked as cancelled, and its body is
    /// closed.
    pub open spec fn valid(self) -> bool {
        self.cancelled ==> self.pump is None && self.body is None
    }
}

/// The in-flight calls.
pub type Calls = Map<CallId, Call>;

/// Whether every call is valid.
pub open spec fn all_valid(calls: Calls) -> bool {
    forall|id: CallId| calls.dom().contains(id) ==> (#[trigger] calls[id]).valid()
}

// ---- what the operations do ----

/// A call is registered before its pump exists, in place of any with the same id.
pub open spec fn begun(calls: Calls, id: CallId, body: Option<mpsc::Sender<Bytes>>) -> Calls {
    calls.insert(id, Call { body, pump: None, cancelled: false })
}

/// The pump is attached, unless the call is gone. A call that was cancelled in the
/// meantime goes, and its pump is handed back to be stopped.
pub open spec fn attached(calls: Calls, id: CallId, pump: AbortHandle) -> (
    Calls,
    Option<AbortHandle>,
) {
    if !calls.dom().contains(id) {
        (calls, None)
    } else if calls[id].cancelled {
        (calls.remove(id), Some(pump))
    } else {
        (calls.insert(id, Call { pump: Some(pump), ..calls[id] }), None)
    }
}

/// The sender of a call that still accepts chunks.
pub open spec fn sender(calls: Calls, id: CallId) -> Option<mpsc::Sender<Bytes>> {
    if calls.dom().contains(id) {
        calls[id].body
    } else {
        None
    }
}

/// The request body ends, and the call goes on.
pub open spec fn closed(calls: Calls, id: CallId) -> Calls {
    if calls.dom().contains(id) {
        calls.insert(id, Call { body: None, ..calls[id] })
    } else {
        calls
    }
}

/// The call is cancelled. One that has its pump goes, and the pump is handed back
/// to be stopped; one that still waits for it is marked, and its body is closed.
pub open spec fn removed(calls: Calls, id: CallId) -> (Calls, Option<AbortHandle>) {
    if !calls.dom().contains(id) {
        (calls, None)
    } else if calls[id].pump is Some {
        (calls.remove(id), calls[id].pump)
    } else {
        (calls.insert(id, Call { body: None, pump: None, cancelled: true }), None)
    }
}

/// The call finished on its own.
pub open spec fn forgotten(calls: Calls, id: CallId) -> Calls {
    calls.remove(id)
}

// ---- the registry ----

/// A registered call awaiting its response pump.
///
/// Registering before spawning keeps `connect_rpc_send` from ever seeing an
/// unknown call id, and keeps the pump's completion cleanup from racing ahead
/// of the insert.
pub struct Registration {
    id: CallId,
}

impl Registration {
    /// The call.
    pub closed spec fn call(self) -> CallId {
        self.id
    }

    /// The call.
    pub fn id(&self) -> (r: CallId)
        ensures
            r == self.call(),
    {
        self.id
    }

    /// Attach the response pump.
    ///
    /// Hands the pump back if a cancel already arrived: it is to be aborted, once
    /// nothing borrows the registry.
    pub fn attach(self, registry: &mut CallRegistry, pump: AbortHandle) -> (r: Option<AbortHandle>)
        ensures
            (final(registry)@, r) == attached(old(registry)@, self.call(), pump),
            all_valid(old(registry)@) ==> all_valid(final(registry)@),
            final(registry)@.dom().finite(),
    {
        match registry.calls.remove(&self.id) {
            // The call already finished; nothing to abort.
            None => {
                assert(registry@ =~= old(registry)@);
                None
            },
            Some(call) => {
                if call.cancelled {
                    Some(pump)
                } else {
                    registry.calls.insert(self.id, Call { pump: Some(pump), ..call });
                    assert(registry@ =~= attached(old(registry)@, self.id, pump).0);
                    None
                }
            },
        }
    }
}

/// The set of in-flight calls for one app.
///
/// Entries are removed when the call completes, when the client cancels, or when
/// the webview goes away and the response pump fails to send.
pub struct CallRegistry {
    calls: HashMap<CallId, Call>,
}

impl View for CallRegistry {
    type V = Calls;

    closed spec fn view(&self) -> Calls {
        self.calls@
    }
}

impl Default for CallRegistry {
    /// A registry without calls.
    fn default() -> (r: Self)
        ensures
            r@ == Calls::empty(),
            all_valid(r@),
            r@.dom().finite(),
    {
        CallRegistry { calls: HashMap::new() }
    }
}

impl CallRegistry {
    /// Register a call before its response pump exists.
    pub fn begin(&mut self, id: CallId, body: Option<mpsc::Sender<Bytes>>) -> (r: Registration)
        ensures
            final(self)@ == begun(old(self)@, id, body),
            all_valid(old(self)@) ==> all_valid(final(self)@),
            final(self)@.dom().finite(),
            r.call() == id,
    {
        self.calls.insert(id, Call { body, pump: None, cancelled: false });
        Registration { id }
    }

    /// Get the body sender for a call, if it is still accepting chunks.
    pub fn body_sender(&self, id: CallId) -> (r: Option<mpsc::Sender<Bytes>>)
        ensures
            r == sender(self@, id),
    {
        match self.calls.get(&id) {
            Some(call) => match &call.body {
                Some(tx) => Some(tx.clone()),
                None => None,
            },
            None => None,
        }
    }

    /// Close the request body without ending the call: the response may still
    /// be streaming back.
    pub fn close_request_body(&mut self, id: CallId)
        ensures
            final(self)@ == closed(old(self)@, id),
            all_valid(old(self)@) ==> all_valid(final(self)@),
            final(self)@.dom().finite(),
    {
        match self.calls.remove(&id) {
            Some(call) => {
                self.calls.insert(id, Call { body: None, ..call });
            },
            None => {},
        }
        assert(self@ =~= closed(old(self)@, id));
    }

    /// Cancel a call: hand out its response pump, to be aborted once nothing
    /// borrows the registry, and drop the request body sender, which unblocks a
    /// handler parked on the next request message.
    ///
    /// Where the pump has not been attached yet, [`Registration::attach`] hands it
    /// back as soon as it exists.
    pub fn remove(&mut self, id: CallId) -> (r: Option<AbortHandle>)
        ensures
            (final(self)@, r) == removed(old(self)@, id),
            all_valid(old(self)@) ==> all_valid(final(self)@),
            final(self)@.dom().finite(),
    {
        match self.calls.remove(&id) {
            Some(call) => match call.pump {
                Some(pump) => Some(pump),
                None => {
                    self.calls.insert(id, Call { body: None, pump: None, cancelled: true });
                    assert(self@ =~= removed(old(self)@, id).0);
                    None
                },
            },
            None => {
                assert(self@ =~= old(self)@);
                None
            },
        }
    }

    /// Drop the bookkeeping for a call that finished on its own.
    ///
    /// Unlike [`Self::remove`], this does not hand out the pump: the pump is the
    /// caller, and must not abort itself.
    pub fn forget(&mut self, id: CallId)
        ensures
            final(self)@ == forgotten(old(self)@, id),
            all_valid(old(self)@) ==> all_valid(final(self)@),
            final(self)@.dom().finite(),
    {
        self.calls.remove(&id);
        assert(self@ =~= forgotten(old(self)@, id));
    }

    /// How many calls are currently tracked.
    pub fn len(&self) -> (r: usize)
        ensures
            r == self@.len(),
            self@.dom().finite(),
    {
        self.calls.len()
    }
}

// ---- histories ----

/// One operation on the registry.
pub enum Step {
    Begin { id: CallId, body: Option<mpsc::Sender<Bytes>> },
    Attach { id: CallId, pump: AbortHandle },
    Close { id: CallId },
    Cancel { id: CallId },
    Forget { id: CallId },
}

impl Step {
    /// The call that the operation is about.
    pub open spec fn id(self) -> CallId {
        match self {
            Step::Begin { id, .. } => id,
            Step::Attach { id, .. } => id,
            Step::Close { id } => id,
            Step::Cancel { id } => id,
            Step::Forget { id } => id,
        }
    }

    /// What it leaves in the registry, and the pump that it hands out to be aborted.
    pub open spec fn outcome(self, calls: Calls) -> (Calls, Option<AbortHandle>) {
        match self {
            Step::Begin { id, body } => (begun(calls, id, body), None),
            Step::Attach { id, pump } => attached(calls, id, pump),
            Step::Close { id } => (closed(calls, id), None),
            Step::Cancel { id } => removed(calls, id),
            Step::Forget { id } => (forgotten(calls, id), None),
        }
    }
}

/// What a history of operations leaves in the registry.
pub open spec fn history(calls: Calls, steps: Seq<Step>) -> Calls
    decreases steps.len(),
{
    if steps.len() == 0 {
        calls
    } else {
        steps.last().outcome(history(calls, steps.drop_last())).0
    }
}

/// Whether the call is never registered in a history.
pub open spec fn never_begun(steps: Seq<Step>, id: CallId) -> bool {
    forall|i: int| 0 <= i < steps.len() ==> !(#[trigger] steps[i] is Begin && steps[i].id() == id)
}

/// Whether nothing but ends of the request body, and cancels, concerns the call in a
/// history.
pub open spec fn only_closes_or_cancels(steps: Seq<Step>, id: CallId) -> bool {
    forall|i: int|
        0 <= i < steps.len() ==> ((#[trigger] steps[i]).id() == id ==> steps[i] is Close
            || steps[i] is Cancel)
}

/// Whether nothing but ends of the request body concerns the call in a history.
pub open spec fn only_closes(steps: Seq<Step>, id: CallId) -> bool {
    forall|i: int|
        0 <= i < steps.len() ==> ((#[trigger] steps[i]).id() == id ==> steps[i] is Close)
}

/// Every operation keeps every call valid.
pub proof fn steps_keep_calls_valid(calls: Calls, step: Step)
    requires
        all_valid(calls),
    ensures
        all_valid(step.outcome(calls).0),
{
}

/// An operation on one call touches no other.
pub proof fn steps_touch_one_call(calls: Calls, step: Step, other: CallId)
    requires
        other != step.id(),
    ensures
        step.outcome(calls).0.dom().contains(other) == calls.dom().contains(other),
        calls.dom().contains(other) ==> step.outcome(calls).0[other] == calls[other],
{
}

/// How many calls there are after each operation: registering adds a call that was
/// not tracked; forgetting takes one away, and so does a cancel together with the
/// pump, whichever comes last; ending a request body does neither.
pub proof fn calls_are_counted(
    calls: Calls,
    id: CallId,
    body: Option<mpsc::Sender<Bytes>>,
    pump: AbortHandle,
)
    requires
        calls.dom().finite(),
    ensures
        begun(calls, id, body).len() == calls.len() + (if calls.dom().contains(id) {
            0int
        } else {
            1
        }),
        attached(calls, id, pump).0.len() == calls.len() - (if calls.dom().contains(id)
            && calls[id].cancelled {
            1int
        } else {
            0
        }),
        removed(calls, id).0.len() == calls.len() - (if calls.dom().contains(id)
            && calls[id].pump is Some {
            1int
        } else {
            0
        }),
        forgotten(calls, id).len() == calls.len() - (if calls.dom().contains(id) {
            1int
        } else {
            0
        }),
        closed(calls, id).len() == calls.len(),
{
    if !calls.dom().contains(id) {
        assert(forgotten(calls, id).dom() =~= calls.dom());
    }
}

proof fn histories_stay_finite(calls: Calls, steps: Seq<Step>)
    requires
        calls.dom().finite(),
    ensures
        history(calls, steps).dom().finite(),
    decreases steps.len(),
{
    if steps.len() > 0 {
        histories_stay_finite(calls, steps.drop_last());
    }
}

/// A call can be sent to as soon as it is registered, whatever happens to other
/// calls.
pub proof fn a_registered_call_accepts_chunks(
    calls: Calls,
    id: CallId,
    body: Option<mpsc::Sender<Bytes>>,
    steps: Seq<Step>,
)
    requires
        forall|i: int| 0 <= i < steps.len() ==> (#[trigger] steps[i]).id() != id,
    ensures
        sender(history(begun(calls, id, body), steps), id) == body,
    decreases steps.len(),
{
    if steps.len() > 0 {
        a_registered_call_accepts_chunks(calls, id, body, steps.drop_last());
        steps_touch_one_call(
            history(begun(calls, id, body), steps.drop_last()),
            steps.last(),
            id,
        );
    }
}

/// A call that is not tracked stays so until it is registered again, and no
/// operation on it hands out a pump: a call that finished before its pump was
/// attached leaves nothing behind.
pub proof fn a_finished_call_stays_gone(calls: Calls, id: CallId, steps: Seq<Step>)
    requires
        !calls.dom().contains(id),
        never_begun(steps, id),
    ensures
        !history(calls, steps).dom().contains(id),
        forall|step: Step|
            step.id() == id ==> (#[trigger] step.outcome(history(calls, steps))).1 is None,
    decreases steps.len(),
{
    if steps.len() > 0 {
        a_finished_call_stays_gone(calls, id, steps.drop_last());
        assert(!(steps[steps.len() - 1] is Begin && steps[steps.len() - 1].id() == id));
    }
}

/// A cancel that comes before the pump is honoured once the pump is attached: the
/// pump is handed back to be aborted, and the call is gone, which leaves one call
/// fewer. Until then the request body stays closed.
pub proof fn an_early_cancel_is_honoured(
    calls: Calls,
    id: CallId,
    body: Option<mpsc::Sender<Bytes>>,
    before: Seq<Step>,
    after: Seq<Step>,
    pump: AbortHandle,
)
    requires
        only_closes(before, id),
        only_closes_or_cancels(after, id),
    ensures
        ({
            let waiting = history(begun(calls, id, body), before);
            let cancelled = removed(waiting, id).0;
            let later = history(cancelled, after);
            &&& removed(waiting, id).1 is None
            &&& sender(later, id) is None
            &&& attached(later, id, pump).1 == Some(pump)
            &&& !attached(later, id, pump).0.dom().contains(id)
            &&& calls.dom().finite() ==> attached(later, id, pump).0.len() == later.len() - 1
        }),
{
    let waiting = history(begun(calls, id, body), before);
    stays_waiting(begun(calls, id, body), id, before);
    stays_cancelled(removed(waiting, id).0, id, after);
    if calls.dom().finite() {
        histories_stay_finite(begun(calls, id, body), before);
        histories_stay_finite(removed(waiting, id).0, after);
    }
}

/// A cancel that comes after the pump hands it out to be aborted, and the call is
/// gone, which leaves one call fewer.
pub proof fn a_late_cancel_is_honoured(
    calls: Calls,
    id: CallId,
    body: Option<mpsc::Sender<Bytes>>,
    before: Seq<Step>,
    after: Seq<Step>,
    pump: AbortHandle,
)
    requires
        only_closes(before, id),
        only_closes(after, id),
    ensures
        ({
            let waiting = history(begun(calls, id, body), before);
            let running = history(attached(waiting, id, pump).0, after);
            &&& attached(waiting, id, pump).1 is None
            &&& removed(running, id).1 == Some(pump)
            &&& !removed(running, id).0.dom().contains(id)
            &&& calls.dom().finite() ==> removed(running, id).0.len() == running.len() - 1
        }),
{
    let waiting = history(begun(calls, id, body), before);
    stays_waiting(begun(calls, id, body), id, before);
    stays_running(attached(waiting, id, pump).0, id, pump, after);
    if calls.dom().finite() {
        histories_stay_finite(begun(calls, id, body), before);
        histories_stay_finite(attached(waiting, id, pump).0, after);
    }
}

/// A call that is cancelled leaves nothing behind, whether the cancel comes before or
/// after its pump.
pub proof fn a_cancelled_call_leaves_nothing_behind(
    calls: Calls,
    id: CallId,
    body: Option<mpsc::Sender<Bytes>>,
    pump: AbortHandle,
)
    requires
        !calls.dom().contains(id),
    ensures
        removed(attached(begun(calls, id, body), id, pump).0, id) == (calls, Some(pump)),
        attached(removed(begun(calls, id, body), id).0, id, pump) == (calls, Some(pump)),
{
    assert(removed(attached(begun(calls, id, body), id, pump).0, id).0 =~= calls);
    assert(attached(removed(begun(calls, id, body), id).0, id, pump).0 =~= calls);
}

/// A cancelled call accepts no chunks, whatever comes, until it is registered again.
pub proof fn a_cancelled_call_accepts_no_chunks(calls: Calls, id: CallId, steps: Seq<Step>)
    requires
        never_begun(steps, id),
    ensures
        sender(history(removed(calls, id).0, steps), id) is None,
    decreases steps.len(),
{
    if steps.len() > 0 {
        a_cancelled_call_accepts_no_chunks(calls, id, steps.drop_last());
        assert(!(steps[steps.len() - 1] is Begin && steps[steps.len() - 1].id() == id));
    }
}

/// A request body that has ended accepts no chunks, whatever comes, until the call is
/// registered again.
pub proof fn an_ended_body_accepts_no_chunks(calls: Calls, id: CallId, steps: Seq<Step>)
    requires
        never_begun(steps, id),
    ensures
        sender(history(closed(calls, id), steps), id) is None,
    decreases steps.len(),
{
    if steps.len() > 0 {
        an_ended_body_accepts_no_chunks(calls, id, steps.drop_last());
        assert(!(steps[steps.len() - 1] is Begin && steps[steps.len() - 1].id() == id));
    }
}

/// Ending the request body leaves the call itself in flight, with its pump.
pub proof fn closing_keeps_the_call(calls: Calls, id: CallId)
    ensures
        sender(closed(calls, id), id) is None,
        closed(calls, id).dom() == calls.dom(),
        calls.dom().contains(id) ==> {
            &&& closed(calls, id)[id].pump == calls[id].pump
            &&& closed(calls, id)[id].cancelled == calls[id].cancelled
        },
{
    assert(closed(calls, id).dom() =~= calls.dom());
}

/// A second cancel of a call does nothing.
pub proof fn cancelling_twice_is_cancelling_once(calls: Calls, id: CallId)
    requires
        all_valid(calls),
    ensures
        removed(removed(calls, id).0, id) == (removed(calls, id).0, None::<AbortHandle>),
{
    let once = removed(calls, id).0;
    assert(removed(once, id).0 =~= once);
}

proof fn stays_waiting(calls: Calls, id: CallId, steps: Seq<Step>)
    requires
        calls.dom().contains(id),
        calls[id].pump is None && !calls[id].cancelled,
        only_closes(steps, id),
    ensures
        history(calls, steps).dom().contains(id),
        history(calls, steps)[id].pump is None && !history(calls, steps)[id].cancelled,
    decreases steps.len(),
{
    if steps.len() > 0 {
        stays_waiting(calls, id, steps.drop_last());
        let last = steps[steps.len() - 1];
        assert(last.id() == id ==> last is Close);
    }
}

proof fn stays_running(calls: Calls, id: CallId, pump: AbortHandle, steps: Seq<Step>)
    requires
        calls.dom().contains(id),
        calls[id].pump == Some(pump),
        only_closes(steps, id),
    ensures
        history(calls, steps).dom().contains(id),
        history(calls, steps)[id].pump == Some(pump),
    decreases steps.len(),
{
    if steps.len() > 0 {
        stays_running(calls, id, pump, steps.drop_last());
        let last = steps[steps.len() - 1];
        assert(last.id() == id ==> last is Close);
    }
}

proof fn stays_cancelled(calls: Calls, id: CallId, steps: Seq<Step>)
    requires
        calls.dom().contains(id),
        calls[id] == (Call { body: None, pump: None, cancelled: true }),
        only_closes_or_cancels(steps, id),
    ensures
        history(calls, steps).dom().contains(id),
        history(calls, steps)[id] == (Call { body: None, pump: None, cancelled: true }),
    decreases steps.len(),
{
    if steps.len() > 0 {
        stays_cancelled(calls, id, steps.drop_last());
        let last = steps[steps.len() - 1];
        assert(last.id() == id ==> last is Close || last is Cancel);
    }
}

// ---- what each operation changes ----

/// Whether two registries hold the same of every call but one.
pub open spec fn differ_at_most_at(a: Calls, b: Calls, id: CallId) -> bool {
    forall|other: CallId|
        other != id ==> {
            &&& #[trigger] a.dom().contains(other) == b.dom().contains(other)
            &&& a.dom().contains(other) ==> a[other] == b[other]
        }
}

/// A chunk can be sent to a call exactly while the call is tracked and holds a sender,
/// whatever else is known of it, and it goes to that sender.
pub proof fn a_sender_is_the_one_that_the_call_holds(
    calls: Calls,
    id: CallId,
    tx: mpsc::Sender<Bytes>,
)
    ensures
        sender(calls, id) == Some(tx) <==> calls.dom().contains(id) && calls[id].body == Some(tx),
        sender(calls, id) is None <==> !calls.dom().contains(id) || calls[id].body is None,
{
}

/// Registering a call tracks it with the sender that it was given, before any pump and
/// uncancelled, however many calls there are, and touches no other call.
pub proof fn registering_tracks_one_call(
    calls: Calls,
    id: CallId,
    body: Option<mpsc::Sender<Bytes>>,
)
    ensures
        begun(calls, id, body).dom().contains(id),
        begun(calls, id, body)[id].body == body,
        begun(calls, id, body)[id].pump is None,
        !begun(calls, id, body)[id].cancelled,
        differ_at_most_at(begun(calls, id, body), calls, id),
{
}

/// Attaching the pump of a call adds the pump and nothing else: where the call is
/// tracked and not cancelled, its request body stays as open as it was, and chunks go
/// where they went. A call that is gone stays gone, and one that was cancelled goes and
/// has its pump handed back. No other call is touched.
pub proof fn attaching_only_adds_the_pump(calls: Calls, id: CallId, pump: AbortHandle)
    ensures
        calls.dom().contains(id) && !calls[id].cancelled ==> {
            &&& attached(calls, id, pump).0.dom().contains(id)
            &&& attached(calls, id, pump).0[id].body == calls[id].body
            &&& attached(calls, id, pump).0[id].pump == Some(pump)
            &&& !attached(calls, id, pump).0[id].cancelled
            &&& attached(calls, id, pump).1 is None
            &&& sender(attached(calls, id, pump).0, id) == sender(calls, id)
        },
        calls.dom().contains(id) && calls[id].cancelled ==> {
            &&& !attached(calls, id, pump).0.dom().contains(id)
            &&& attached(calls, id, pump).1 == Some(pump)
        },
        !calls.dom().contains(id) ==> {
            &&& !attached(calls, id, pump).0.dom().contains(id)
            &&& attached(calls, id, pump).1 is None
        },
        differ_at_most_at(attached(calls, id, pump).0, calls, id),
{
}

/// Ending a request body takes the sender out of the call, and touches neither the rest
/// of it nor any other call.
pub proof fn closing_takes_the_sender_only(calls: Calls, id: CallId)
    ensures
        closed(calls, id).dom().contains(id) == calls.dom().contains(id),
        calls.dom().contains(id) ==> {
            &&& closed(calls, id)[id].body is None
            &&& closed(calls, id)[id].pump == calls[id].pump
            &&& closed(calls, id)[id].cancelled == calls[id].cancelled
        },
        differ_at_most_at(closed(calls, id), calls, id),
{
}

/// Cancelling a call hands out the very pump that it holds, and with it the call goes.
/// A call without one stays, marked, with nothing left to send to; one that is not
/// tracked does not come to be. No other call is touched.
pub proof fn cancelling_hands_out_the_pump(calls: Calls, id: CallId)
    ensures
        calls.dom().contains(id) ==> removed(calls, id).1 == calls[id].pump,
        !calls.dom().contains(id) ==> removed(calls, id).1 is None,
        removed(calls, id).0.dom().contains(id) <==> calls.dom().contains(id)
            && calls[id].pump is None,
        removed(calls, id).0.dom().contains(id) ==> {
            &&& removed(calls, id).0[id].cancelled
            &&& removed(calls, id).0[id].body is None
            &&& removed(calls, id).0[id].pump is None
        },
        differ_at_most_at(removed(calls, id).0, calls, id),
{
}

/// Forgetting a call drops it, whatever state it is in, and touches no other call.
pub proof fn forgetting_drops_one_call(calls: Calls, id: CallId)
    ensures
        !forgotten(calls, id).dom().contains(id),
        differ_at_most_at(forgotten(calls, id), calls, id),
{
}

/// A call that is registered keeps its request body open through any history in which
/// it is neither ended, cancelled, forgotten nor registered again. Its pump may be
/// attached, once or more, and anything may happen to other calls.
pub proof fn a_pumped_call_accepts_chunks(
    calls: Calls,
    id: CallId,
    body: Option<mpsc::Sender<Bytes>>,
    steps: Seq<Step>,
)
    requires
        forall|i: int|
            0 <= i < steps.len() ==> ((#[trigger] steps[i]).id() == id ==> steps[i] is Attach),
    ensures
        history(begun(calls, id, body), steps).dom().contains(id),
        !history(begun(calls, id, body), steps)[id].cancelled,
        sender(history(begun(calls, id, body), steps), id) == body,
    decreases steps.len(),
{
    if steps.len() > 0 {
        let front = steps.drop_last();
        assert forall|i: int| 0 <= i < front.len() implies ((#[trigger] front[i]).id() == id
            ==> front[i] is Attach) by {
            assert(steps[i].id() == id ==> steps[i] is Attach);
        }
        a_pumped_call_accepts_chunks(calls, id, body, front);
        let last = steps[steps.len() - 1];
        assert(last.id() == id ==> last is Attach);
    }
}

} // verus!
