//! The response pump: what a call does from the service's answer to its end.
//!
//! The pump itself awaits nothing. It is handed what happened and says what to do
//! next: resolve the pending invoke, read on, push a frame to the webview, or drop
//! the call from the registry.

use crate::call;
use crate::headers;
use crate::message;
use crate::message::Message;
use crate::registry;
use crate::wire;
use crate::wire::response_frame::{Frame, FrameView};
use crate::wire::{End, ResponseFrame, ResponseHead, Trailers};
use bytes::Bytes;
use http::{HeaderMap, HeaderValue};
use tokio::sync::mpsc;
use tokio::task::AbortHandle;
use vstd::prelude::*;
use vstd::string::StringExecFns;

verus! {

/// Where a pump stands: what it waits for.
#[derive(Clone, Copy, Debug, PartialEq, Eq, Structural)]
pub enum Stage {
    /// The service runs on the request.
    Calling,
    /// The head is being handed to the pending invoke; the body comes next.
    Resolving,
    /// An error is being handed to the pending invoke; nothing comes next.
    Refusing,
    /// The next piece of the body is awaited.
    Reading,
    /// A frame of the body is being sent.
    Sending,
    /// The frame that reports a failed body is being sent.
    Breaking,
    /// The end marker is being sent.
    Ending,
    /// The call is being dropped from the registry.
    Forgetting,
    /// Nothing is left to do.
    Done,
}

/// One piece of a response body.
pub enum Piece {
    /// Bytes.
    Data(Vec<u8>),
    /// HTTP trailers.
    Trailers(HeaderMap<HeaderValue>),
    /// A frame of any other kind, which carries nothing.
    Other,
    /// The body failed, with the text of the error.
    Failed(String),
    /// The body ended.
    Ended,
}

/// Something that happened to a call.
pub enum Event {
    /// The service answered.
    Answered { status: u16, headers: HeaderMap<HeaderValue> },
    /// The service failed, with the text of the error.
    Failed(String),
    /// The pending invoke was resolved, or (`false`) nobody waited for it any more.
    Resolved(bool),
    /// A piece of the body was read.
    Read(Piece),
    /// A frame was sent, or (`false`) the webview is gone.
    Sent(bool),
    /// The call was dropped from the registry.
    Forgotten,
}

/// What is to be done next.
pub enum Action {
    /// Resolve the pending invoke. The client starts reading at a head; body frames
    /// follow on the channel.
    Resolve(Result<ResponseHead, String>),
    /// Read the next piece of the body.
    Read,
    /// Send a frame on the channel.
    Send(ResponseFrame),
    /// Drop the call from the registry.
    Forget,
    /// Stop: the call is over.
    Stop,
    /// Nothing: the pump did not wait for what happened.
    Ignore,
}

/// What an [`Action`] says.
#[verifier::ext_equal]
pub enum ActionView {
    Resolve(Result<wire::ResponseHeadView, Seq<char>>),
    Read,
    Send(FrameView),
    Forget,
    Stop,
    Ignore,
}

impl Action {
    /// Whether the action says `view`.
    pub open spec fn says(self, view: ActionView) -> bool {
        match (self, view) {
            (Action::Resolve(Ok(head)), ActionView::Resolve(Ok(v))) => head@ == v,
            (Action::Resolve(Err(e)), ActionView::Resolve(Err(v))) => e@ == v,
            (Action::Read, ActionView::Read) => true,
            (Action::Send(frame), ActionView::Send(v)) => frame@ == (wire::ResponseFrameView {
                frame: Some(v),
                unknown: Seq::empty(),
            }),
            (Action::Forget, ActionView::Forget) => true,
            (Action::Stop, ActionView::Stop) => true,
            (Action::Ignore, ActionView::Ignore) => true,
            _ => false,
        }
    }
}

/// The frame for a piece of the body, if it carries something.
pub open spec fn frame_of(piece: Piece) -> Option<FrameView> {
    match piece {
        Piece::Data(data) => Some(FrameView::Message(data@)),
        Piece::Trailers(map) => Some(
            FrameView::Trailers(
                wire::TrailersView {
                    headers: call::wire_headers(headers::entries(map)),
                    unknown: Seq::empty(),
                },
            ),
        ),
        _ => None,
    }
}

/// The head of an answer, ahead of its body.
pub open spec fn head_of(status: u16, headers: HeaderMap<HeaderValue>) -> wire::ResponseHeadView {
    wire::ResponseHeadView {
        status: status as u32,
        headers: call::wire_headers(headers::entries(headers)),
        body: Seq::empty(),
        unknown: Seq::empty(),
    }
}

/// What a pump does when something happens.
pub open spec fn reaction(stage: Stage, event: Event) -> (Stage, ActionView) {
    match (stage, event) {
        (Stage::Calling, Event::Answered { status, headers }) => (
            Stage::Resolving,
            ActionView::Resolve(Ok(head_of(status, headers))),
        ),
        (Stage::Calling, Event::Failed(e)) => (
            Stage::Refusing,
            ActionView::Resolve(Err("connect service failed: "@ + e@)),
        ),
        (Stage::Resolving, Event::Resolved(taken)) => if taken {
            (Stage::Reading, ActionView::Read)
        } else {
            (Stage::Forgetting, ActionView::Forget)
        },
        (Stage::Refusing, Event::Resolved(_)) => (Stage::Forgetting, ActionView::Forget),
        (Stage::Reading, Event::Read(piece)) => match piece {
            Piece::Other => (Stage::Reading, ActionView::Read),
            Piece::Failed(e) => (Stage::Breaking, ActionView::Send(FrameView::Error(e@))),
            Piece::Ended => (Stage::Ending, ActionView::Send(FrameView::end())),
            _ => (Stage::Sending, ActionView::Send(frame_of(piece)->Some_0)),
        },
        (Stage::Sending, Event::Sent(ok)) => if ok {
            (Stage::Reading, ActionView::Read)
        } else {
            (Stage::Ending, ActionView::Send(FrameView::end()))
        },
        (Stage::Breaking, Event::Sent(_)) => (Stage::Ending, ActionView::Send(FrameView::end())),
        (Stage::Ending, Event::Sent(_)) => (Stage::Forgetting, ActionView::Forget),
        (Stage::Forgetting, Event::Forgotten) => (Stage::Done, ActionView::Stop),
        _ => (stage, ActionView::Ignore),
    }
}

/// The response pump of one call.
pub struct Pump {
    stage: Stage,
}

impl Pump {
    /// Where the pump stands.
    pub closed spec fn at(self) -> Stage {
        self.stage
    }

    /// A pump whose service has been called.
    pub fn new() -> (r: Self)
        ensures
            r.at() == Stage::Calling,
    {
        Pump { stage: Stage::Calling }
    }

    /// Where the pump stands.
    pub fn stage(&self) -> (r: Stage)
        ensures
            r == self.at(),
    {
        self.stage
    }

    /// Moves to a stage and asks for a frame to be sent.
    fn send(&mut self, stage: Stage, frame: Frame) -> (r: Action)
        ensures
            final(self).at() == stage,
            r.says(ActionView::Send(frame@)),
    {
        self.stage = stage;
        let carrier = ResponseFrame { frame: Some(frame), unknown_fields: Vec::new() };
        assert(carrier@.unknown =~= Seq::empty());
        Action::Send(carrier)
    }

    /// Moves to a stage and asks for `action`.
    fn go(&mut self, stage: Stage, action: Action) -> (r: Action)
        ensures
            final(self).at() == stage,
            r == action,
    {
        self.stage = stage;
        action
    }

    /// Takes note of what happened and says what to do next.
    ///
    /// The end marker is explicit because the JS `Channel` exposes no hook for
    /// Tauri's own channel teardown. Forgetting the call at the end of every path is
    /// what keeps the registry from growing without bound; a client that never
    /// cancels still leaves nothing behind.
    pub fn step(&mut self, event: Event) -> (r: Action)
        ensures
            final(self).at() == reaction(old(self).at(), event).0,
            r.says(reaction(old(self).at(), event).1),
            old(self).at() == Stage::Calling ==> (event matches Event::Answered {
                status,
                headers,
            } ==> {
                &&& r matches Action::Resolve(Ok(head))
                &&& head.status == status
                &&& head.body@.len() == 0
            }),
            old(self).at() == Stage::Reading ==> (event matches Event::Read(Piece::Data(data)) ==> {
                &&& r matches Action::Send(sent)
                &&& sent.frame matches Some(Frame::Message(bytes))
                &&& bytes@ == data@
            }),
    {
        match (self.stage, event) {
            (Stage::Calling, Event::Answered { status, headers }) => {
                let head = ResponseHead {
                    status: status as u32,
                    headers: call::to_wire_headers(&headers),
                    body: Vec::new(),
                    unknown_fields: Vec::new(),
                };
                assert(head@ =~= head_of(status, headers));
                self.go(Stage::Resolving, Action::Resolve(Ok(head)))
            },
            (Stage::Calling, Event::Failed(e)) => {
                let text = "connect service failed: ".to_string().concat(e.as_str());
                self.go(Stage::Refusing, Action::Resolve(Err(text)))
            },
            (Stage::Resolving, Event::Resolved(taken)) => if taken {
                self.go(Stage::Reading, Action::Read)
            } else {
                self.go(Stage::Forgetting, Action::Forget)
            },
            (Stage::Refusing, Event::Resolved(_)) => self.go(Stage::Forgetting, Action::Forget),
            (Stage::Reading, Event::Read(piece)) => match piece {
                Piece::Other => self.go(Stage::Reading, Action::Read),
                Piece::Failed(e) => self.send(Stage::Breaking, Frame::Error(e)),
                Piece::Ended => self.send(Stage::Ending, Frame::End(Box::new(End::fresh()))),
                Piece::Data(data) => self.send(Stage::Sending, Frame::Message(data)),
                Piece::Trailers(map) => {
                    let trailers = Trailers {
                        headers: call::to_wire_headers(&map),
                        unknown_fields: Vec::new(),
                    };
                    assert(trailers@.unknown =~= Seq::empty());
                    self.send(Stage::Sending, Frame::Trailers(Box::new(trailers)))
                },
            },
            // A send failure means the webview is gone; nothing left to serve.
            (Stage::Sending, Event::Sent(ok)) => if ok {
                self.go(Stage::Reading, Action::Read)
            } else {
                self.send(Stage::Ending, Frame::End(Box::new(End::fresh())))
            },
            (Stage::Breaking, Event::Sent(_)) => self.send(
                Stage::Ending,
                Frame::End(Box::new(End::fresh())),
            ),
            (Stage::Ending, Event::Sent(_)) => self.go(Stage::Forgetting, Action::Forget),
            (Stage::Forgetting, Event::Forgotten) => self.go(Stage::Done, Action::Stop),
            _ => Action::Ignore,
        }
    }
}

// ---- whole calls ----

/// What a pump meets behind the answer of the service: whether the pending invoke
/// still waits for its head, the pieces of the body (which ends behind them), and
/// how many frames get through before the webview is gone.
pub struct World {
    pub taken: bool,
    pub pieces: Seq<Piece>,
    pub sends: nat,
}

/// What happens when an action is carried out, and what is left of the world.
pub open spec fn carried_out(action: ActionView, world: World) -> (Event, World) {
    match action {
        ActionView::Resolve(_) => (Event::Resolved(world.taken), world),
        ActionView::Read => if world.pieces.len() == 0 {
            (Event::Read(Piece::Ended), world)
        } else {
            (
                Event::Read(world.pieces[0]),
                World { pieces: world.pieces.drop_first(), ..world },
            )
        },
        ActionView::Send(_) => if world.sends == 0 {
            (Event::Sent(false), world)
        } else {
            (Event::Sent(true), World { sends: (world.sends - 1) as nat, ..world })
        },
        _ => (Event::Forgotten, world),
    }
}

/// Bounds the actions that follow a stage while no piece is read.
pub open spec fn steps_left(stage: Stage) -> nat {
    match stage {
        Stage::Calling => 7,
        Stage::Resolving => 6,
        Stage::Sending => 5,
        Stage::Reading => 4,
        Stage::Breaking => 3,
        Stage::Ending => 2,
        Stage::Refusing => 2,
        Stage::Forgetting => 1,
        Stage::Done => 0,
    }
}

/// Everything that a pump asks for from `action` on.
pub open spec fn transcript_from(stage: Stage, action: ActionView, world: World) -> Seq<
    ActionView,
>
    decreases
        world.pieces.len(),
        steps_left(stage),
        if action is Stop || action is Ignore {
            0int
        } else {
            1int
        },
{
    if action is Stop || action is Ignore {
        seq![action]
    } else {
        let (event, rest) = carried_out(action, world);
        let (next, then_do) = reaction(stage, event);
        seq![action] + transcript_from(next, then_do, rest)
    }
}

/// Everything that the pump of a call asks for once the service has answered.
pub open spec fn transcript(answer: Event, world: World) -> Seq<ActionView> {
    let (stage, action) = reaction(Stage::Calling, answer);
    transcript_from(stage, action, world)
}

/// What a pump asks for while the body lasts: each piece is read, and what it
/// carries is sent, until the body ends, fails, or the webview is gone.
pub open spec fn relayed(pieces: Seq<Piece>, sends: nat) -> Seq<ActionView>
    decreases pieces.len(),
{
    if pieces.len() == 0 {
        seq![ActionView::Read]
    } else {
        match pieces[0] {
            Piece::Ended => seq![ActionView::Read],
            Piece::Failed(e) => seq![ActionView::Read, ActionView::Send(FrameView::Error(e@))],
            Piece::Other => seq![ActionView::Read] + relayed(pieces.drop_first(), sends),
            _ => {
                let read_and_sent = seq![
                    ActionView::Read,
                    ActionView::Send(frame_of(pieces[0])->Some_0),
                ];
                if sends == 0 {
                    read_and_sent
                } else {
                    read_and_sent + relayed(pieces.drop_first(), (sends - 1) as nat)
                }
            },
        }
    }
}

/// What ends every call whose body was read: the end marker, and then nothing of it
/// is left in the registry.
pub open spec fn closing() -> Seq<ActionView> {
    seq![ActionView::Send(FrameView::end()), ActionView::Forget, ActionView::Stop]
}

proof fn transcript_of_closing(world: World)
    ensures
        transcript_from(Stage::Ending, ActionView::Send(FrameView::end()), world) == closing(),
{
    reveal_with_fuel(transcript_from, 4);
    assert(transcript_from(Stage::Ending, ActionView::Send(FrameView::end()), world) =~= closing());
}

proof fn transcript_of_body(world: World)
    ensures
        transcript_from(Stage::Reading, ActionView::Read, world) == relayed(
            world.pieces,
            world.sends,
        ) + closing(),
    decreases world.pieces.len(),
{
    reveal_with_fuel(transcript_from, 3);
    let (event, rest) = carried_out(ActionView::Read, world);
    let (stage, action) = reaction(Stage::Reading, event);
    let all = transcript_from(Stage::Reading, ActionView::Read, world);
    let body = relayed(world.pieces, world.sends);
    if world.pieces.len() == 0 || world.pieces[0] is Ended {
        transcript_of_closing(rest);
        assert(all =~= body + closing());
    } else if world.pieces[0] is Other {
        transcript_of_body(rest);
        assert(all =~= body + closing());
    } else {
        let after = carried_out(action, rest).1;
        if world.pieces[0] is Failed || world.sends == 0 {
            transcript_of_closing(after);
        } else {
            transcript_of_body(after);
        }
        assert(all =~= body + closing());
    }
}

/// What the pump of a call asks for, whatever it meets: it resolves the pending
/// invoke once, then relays the body and marks its end where the invoke took a head,
/// and in every case drops the call from the registry and stops.
pub proof fn every_call_runs_to_its_end(answer: Event, world: World)
    requires
        answer is Answered || answer is Failed,
    ensures
        transcript(answer, world) == (match answer {
            Event::Answered { status, headers } => {
                let resolve = seq![ActionView::Resolve(Ok(head_of(status, headers)))];
                if world.taken {
                    resolve + relayed(world.pieces, world.sends) + closing()
                } else {
                    resolve + seq![ActionView::Forget, ActionView::Stop]
                }
            },
            Event::Failed(e) => seq![
                ActionView::Resolve(Err("connect service failed: "@ + e@)),
                ActionView::Forget,
                ActionView::Stop,
            ],
            _ => Seq::empty(),
        }),
{
    reveal_with_fuel(transcript_from, 4);
    transcript_of_body(world);
    let (stage, action) = reaction(Stage::Calling, answer);
    match answer {
        Event::Answered { status, headers } => {
            let resolve = seq![action];
            if world.taken {
                assert(transcript(answer, world) =~= resolve + relayed(world.pieces, world.sends)
                    + closing());
            } else {
                assert(transcript(answer, world) =~= resolve + seq![
                    ActionView::Forget,
                    ActionView::Stop,
                ]);
            }
        },
        _ => {
            assert(transcript(answer, world) =~= seq![
                action,
                ActionView::Forget,
                ActionView::Stop,
            ]);
        },
    }
}

/// The frames among some actions, in order.
pub open spec fn frames(actions: Seq<ActionView>) -> Seq<FrameView>
    decreases actions.len(),
{
    if actions.len() == 0 {
        Seq::empty()
    } else {
        match actions[0] {
            ActionView::Send(frame) => seq![frame] + frames(actions.drop_first()),
            _ => frames(actions.drop_first()),
        }
    }
}

/// What some pieces of a body carry, in order.
pub open spec fn carried(pieces: Seq<Piece>) -> Seq<FrameView>
    decreases pieces.len(),
{
    if pieces.len() == 0 {
        Seq::empty()
    } else {
        match frame_of(pieces[0]) {
            Some(frame) => seq![frame] + carried(pieces.drop_first()),
            None => carried(pieces.drop_first()),
        }
    }
}

proof fn frames_of_both(a: Seq<ActionView>, b: Seq<ActionView>)
    ensures
        frames(a + b) == frames(a) + frames(b),
    decreases a.len(),
{
    if a.len() == 0 {
        assert(a + b =~= b);
        assert(frames(a) + frames(b) =~= frames(b));
    } else {
        assert((a + b).drop_first() =~= a.drop_first() + b);
        frames_of_both(a.drop_first(), b);
        assert(frames(a + b) =~= frames(a) + frames(b));
    }
}

/// Whether some pieces are all of a body's contents: none of them ends it.
pub open spec fn all_content(pieces: Seq<Piece>) -> bool {
    forall|i: int|
        0 <= i < pieces.len() ==> !(#[trigger] pieces[i] is Ended) && !(pieces[i] is Failed)
}

proof fn relayed_contents(pieces: Seq<Piece>, rest: Seq<Piece>, sends: nat)
    requires
        all_content(pieces),
        sends >= carried(pieces).len(),
    ensures
        frames(relayed(pieces + rest, sends)) == carried(pieces) + frames(
            relayed(rest, (sends - carried(pieces).len()) as nat),
        ),
    decreases pieces.len(),
{
    if pieces.len() == 0 {
        assert(pieces + rest =~= rest);
        assert(carried(pieces) + frames(relayed(rest, sends)) =~= frames(relayed(rest, sends)));
    } else {
        let both = pieces + rest;
        let later = pieces.drop_first();
        assert(both.drop_first() =~= later + rest);
        assert(!(pieces[0] is Ended) && !(pieces[0] is Failed));
        assert forall|i: int| 0 <= i < later.len() implies !(#[trigger] later[i] is Ended) && !(
        later[i] is Failed) by {
            assert(!(pieces[i + 1] is Ended) && !(pieces[i + 1] is Failed));
        }
        let read = ActionView::Read;
        if pieces[0] is Other {
            relayed_contents(later, rest, sends);
            frames_of_both(seq![read], relayed(both.drop_first(), sends));
            assert(seq![read].drop_first() =~= Seq::empty());
            assert(frames(seq![read]) =~= Seq::empty()) by {
                reveal_with_fuel(frames, 2);
            }
        } else {
            let frame = frame_of(pieces[0])->Some_0;
            let first = seq![read, ActionView::Send(frame)];
            relayed_contents(later, rest, (sends - 1) as nat);
            frames_of_both(first, relayed(both.drop_first(), (sends - 1) as nat));
            assert(frames(first) =~= seq![frame]) by {
                reveal_with_fuel(frames, 3);
                assert(first.drop_first() =~= seq![ActionView::Send(frame)]);
                assert(first.drop_first().drop_first() =~= Seq::empty());
            }
        }
        assert(frames(relayed(both, sends)) =~= carried(pieces) + frames(
            relayed(rest, (sends - carried(pieces).len()) as nat),
        ));
    }
}

proof fn relayed_never_marks_the_end(pieces: Seq<Piece>, sends: nat)
    ensures
        forall|i: int|
            0 <= i < frames(relayed(pieces, sends)).len() ==> !(#[trigger] frames(
                relayed(pieces, sends),
            )[i] is End),
        frames(relayed(pieces, sends)).len() <= sends + 1,
        forall|i: int|
            0 <= i < relayed(pieces, sends).len() ==> (#[trigger] relayed(pieces, sends)[i] is Read)
                || relayed(pieces, sends)[i] is Send,
    decreases pieces.len(),
{
    reveal_with_fuel(frames, 3);
    let read = ActionView::Read;
    let only_read = seq![read];
    assert(only_read.drop_first() =~= Seq::empty());
    let all = relayed(pieces, sends);
    if pieces.len() > 0 && pieces[0] is Other {
        relayed_never_marks_the_end(pieces.drop_first(), sends);
        frames_of_both(only_read, relayed(pieces.drop_first(), sends));
        assert(frames(all) =~= frames(relayed(pieces.drop_first(), sends)));
    } else if pieces.len() > 0 && !(pieces[0] is Ended) {
        let frame = match pieces[0] {
            Piece::Failed(e) => FrameView::Error(e@),
            _ => frame_of(pieces[0])->Some_0,
        };
        let first = seq![read, ActionView::Send(frame)];
        assert(first.drop_first() =~= seq![ActionView::Send(frame)]);
        assert(first.drop_first().drop_first() =~= Seq::empty());
        assert(frames(first) =~= seq![frame]);
        if !(pieces[0] is Failed) && sends > 0 {
            let rest = relayed(pieces.drop_first(), (sends - 1) as nat);
            relayed_never_marks_the_end(pieces.drop_first(), (sends - 1) as nat);
            frames_of_both(first, rest);
            assert(frames(all) =~= seq![frame] + frames(rest));
        }
    }
}

proof fn frames_of_a_taken_call(answer: Event, world: World)
    requires
        answer is Answered,
        world.taken,
    ensures
        frames(transcript(answer, world)) == frames(relayed(world.pieces, world.sends)).push(
            FrameView::end(),
        ),
{
    every_call_runs_to_its_end(answer, world);
    let (_, action) = reaction(Stage::Calling, answer);
    let body = relayed(world.pieces, world.sends);
    frames_of_both(seq![action] + body, closing());
    frames_of_both(seq![action], body);
    reveal_with_fuel(frames, 4);
    assert(seq![action].drop_first() =~= Seq::empty());
    assert(closing().drop_first() =~= seq![ActionView::Forget, ActionView::Stop]);
    assert(closing().drop_first().drop_first() =~= seq![ActionView::Stop]);
    assert(closing().drop_first().drop_first().drop_first() =~= Seq::empty());
    assert(frames(closing()) =~= seq![FrameView::end()]);
    assert(frames(transcript(answer, world)) =~= frames(body).push(FrameView::end()));
}

/// Every piece of a body reaches the webview, in order and unaltered, and the end
/// marker follows, as long as the webview is there.
pub proof fn frames_arrive_in_order(answer: Event, world: World)
    requires
        answer is Answered,
        world.taken,
        all_content(world.pieces),
        world.sends >= carried(world.pieces).len(),
    ensures
        frames(transcript(answer, world)) == carried(world.pieces).push(FrameView::end()),
{
    frames_of_a_taken_call(answer, world);
    let none = Seq::<Piece>::empty();
    relayed_contents(world.pieces, none, world.sends);
    assert(world.pieces + none =~= world.pieces);
    reveal_with_fuel(frames, 2);
    assert(seq![ActionView::Read].drop_first() =~= Seq::empty());
    assert(carried(world.pieces) + Seq::<FrameView>::empty() =~= carried(world.pieces));
}

/// A body that fails is reported behind what came before, and the end marker
/// follows. Nothing behind the failure is read.
pub proof fn a_failed_body_is_reported(
    answer: Event,
    before: Seq<Piece>,
    error: String,
    behind: Seq<Piece>,
    sends: nat,
)
    requires
        answer is Answered,
        all_content(before),
        sends >= carried(before).len(),
    ensures
        frames(
            transcript(
                answer,
                World { taken: true, pieces: before + seq![Piece::Failed(error)] + behind, sends },
            ),
        ) == carried(before).push(FrameView::Error(error@)).push(FrameView::end()),
{
    let rest = seq![Piece::Failed(error)] + behind;
    let world = World { taken: true, pieces: before + seq![Piece::Failed(error)] + behind, sends };
    assert(world.pieces =~= before + rest);
    frames_of_a_taken_call(answer, world);
    relayed_contents(before, rest, sends);
    reveal_with_fuel(frames, 3);
    let tail = seq![ActionView::Read, ActionView::Send(FrameView::Error(error@))];
    assert(relayed(rest, (sends - carried(before).len()) as nat) =~= tail);
    assert(tail.drop_first() =~= seq![ActionView::Send(FrameView::Error(error@))]);
    assert(tail.drop_first().drop_first() =~= Seq::empty());
    assert(frames(tail) =~= seq![FrameView::Error(error@)]);
    assert(carried(before) + frames(tail) =~= carried(before).push(FrameView::Error(error@)));
}

/// The end of a response is marked once, and nothing follows the marker.
pub proof fn the_end_is_marked_once_and_last(answer: Event, world: World)
    requires
        answer is Answered,
        world.taken,
    ensures
        frames(transcript(answer, world)).len() > 0,
        frames(transcript(answer, world)).last() is End,
        forall|i: int|
            0 <= i < frames(transcript(answer, world)).len() - 1 ==> !(#[trigger] frames(
                transcript(answer, world),
            )[i] is End),
{
    frames_of_a_taken_call(answer, world);
    relayed_never_marks_the_end(world.pieces, world.sends);
    let body = frames(relayed(world.pieces, world.sends));
    assert forall|i: int| 0 <= i < frames(transcript(answer, world)).len() - 1 implies !(
    #[trigger] frames(transcript(answer, world))[i] is End) by {
        assert(frames(transcript(answer, world))[i] == body[i]);
    }
}

/// Once the webview is gone, nothing is tried but the frame that does not get
/// through and the end marker.
pub proof fn a_lost_webview_ends_the_call(answer: Event, world: World)
    requires
        answer is Answered,
        world.taken,
    ensures
        frames(transcript(answer, world)).len() <= world.sends + 2,
{
    frames_of_a_taken_call(answer, world);
    relayed_never_marks_the_end(world.pieces, world.sends);
}

/// The pending invoke is resolved first, and only once.
pub proof fn the_invoke_is_resolved_once(answer: Event, world: World)
    requires
        answer is Answered || answer is Failed,
    ensures
        transcript(answer, world).len() > 0,
        transcript(answer, world)[0] is Resolve,
        forall|i: int|
            0 < i < transcript(answer, world).len() ==> !(#[trigger] transcript(
                answer,
                world,
            )[i] is Resolve),
{
    every_call_runs_to_its_end(answer, world);
    relayed_never_marks_the_end(world.pieces, world.sends);
    let all = transcript(answer, world);
    let body = relayed(world.pieces, world.sends);
    assert forall|i: int| 0 < i < all.len() implies !(#[trigger] all[i] is Resolve) by {
        if answer is Answered && world.taken && i < 1 + body.len() {
            assert(all[i] == body[i - 1]);
        }
    }
}

/// The calls that are left once some actions of one call's pump are carried out.
pub open spec fn tracked_after(
    calls: registry::Calls,
    id: registry::CallId,
    actions: Seq<ActionView>,
) -> registry::Calls
    decreases actions.len(),
{
    if actions.len() == 0 {
        calls
    } else if actions[0] is Forget {
        tracked_after(registry::forgotten(calls, id), id, actions.drop_first())
    } else {
        tracked_after(calls, id, actions.drop_first())
    }
}

proof fn forgetting_removes(calls: registry::Calls, id: registry::CallId, actions: Seq<ActionView>)
    requires
        !calls.dom().contains(id) || exists|i: int|
            0 <= i < actions.len() && #[trigger] actions[i] is Forget,
    ensures
        tracked_after(calls, id, actions) == calls.remove(id),
    decreases actions.len(),
{
    if actions.len() == 0 {
        assert(calls.remove(id) =~= calls);
    } else {
        let rest = actions.drop_first();
        if actions[0] is Forget {
            forgetting_removes(calls.remove(id), id, rest);
            assert(calls.remove(id).remove(id) =~= calls.remove(id));
        } else {
            if calls.dom().contains(id) {
                let i = choose|i: int| 0 <= i < actions.len() && #[trigger] actions[i] is Forget;
                assert(rest[i - 1] is Forget);
            }
            forgetting_removes(calls, id, rest);
        }
    }
}

/// A call that ran to its end is not tracked any more, whichever way it ended, and
/// every other call still is.
pub proof fn a_finished_call_is_removed(
    calls: registry::Calls,
    id: registry::CallId,
    answer: Event,
    world: World,
)
    requires
        answer is Answered || answer is Failed,
    ensures
        tracked_after(calls, id, transcript(answer, world)) == calls.remove(id),
{
    every_call_runs_to_its_end(answer, world);
    let all = transcript(answer, world);
    assert(all[all.len() - 2] is Forget);
    forgetting_removes(calls, id, all);
}

/// A call that is registered, pumped and run to its end leaves the registry as it
/// found it.
pub proof fn a_call_leaves_nothing_behind(
    calls: registry::Calls,
    id: registry::CallId,
    body: Option<mpsc::Sender<Bytes>>,
    pump: AbortHandle,
    answer: Event,
    world: World,
)
    requires
        !calls.dom().contains(id),
        answer is Answered || answer is Failed,
    ensures
        ({
            let running = registry::attached(registry::begun(calls, id, body), id, pump).0;
            tracked_after(running, id, transcript(answer, world)) == calls
        }),
{
    let running = registry::attached(registry::begun(calls, id, body), id, pump).0;
    a_finished_call_is_removed(running, id, answer, world);
    assert(running.remove(id) =~= calls);
}

// ---- what a pump says ----

/// The head that a call resolves with says what the service answered: the very status,
/// whichever it is, and every header that can be read. Its body is left to the frames.
pub proof fn the_head_says_what_the_service_answered(
    status: u16,
    headers: HeaderMap<HeaderValue>,
)
    ensures
        ({
            let (next, action) = reaction(Stage::Calling, Event::Answered { status, headers });
            &&& next == Stage::Resolving
            &&& action matches ActionView::Resolve(Ok(head))
            &&& head.status == status
            &&& head.headers == headers::entries(headers).filter_map(
                |entry: headers::Entry|
                    if headers::is_visible(entry.1) {
                        Some(
                            wire::HeaderView {
                                name: entry.0,
                                value: headers::text_of(entry.1),
                                unknown: Seq::empty(),
                            },
                        )
                    } else {
                        None
                    },
            )
            &&& head.body.len() == 0
            &&& head.unknown.len() == 0
        }),
{
    call::only_unreadable_values_are_left_out(headers::entries(headers));
}

/// Whatever a call meets behind its answer, it resolves with the status and the headers
/// of that answer, and a service that failed is reported with what it said.
pub proof fn a_call_resolves_with_its_answer(answer: Event, world: World)
    requires
        answer is Answered || answer is Failed,
    ensures
        answer matches Event::Answered { status, headers } ==> {
            &&& transcript(answer, world)[0] matches ActionView::Resolve(Ok(head))
            &&& head.status == status
            &&& head.headers == headers::entries(headers).filter_map(
                |entry: headers::Entry|
                    if headers::is_visible(entry.1) {
                        Some(
                            wire::HeaderView {
                                name: entry.0,
                                value: headers::text_of(entry.1),
                                unknown: Seq::empty(),
                            },
                        )
                    } else {
                        None
                    },
            )
            &&& head.body.len() == 0
        },
        answer matches Event::Failed(e) ==> transcript(answer, world)[0] == ActionView::Resolve(
            Err("connect service failed: "@ + e@),
        ),
{
    every_call_runs_to_its_end(answer, world);
    if let Event::Answered { status, headers } = answer {
        the_head_says_what_the_service_answered(status, headers);
    }
}

/// The head of a streamed reply and that of one in one piece have the status that the
/// service answered with, both of them.
pub proof fn both_kinds_of_reply_keep_the_status(answer: call::Answer, world: World)
    requires
        answer.body is Ok,
    ensures
        ({
            let event = Event::Answered { status: answer.status, headers: answer.headers };
            &&& transcript(event, world)[0] matches ActionView::Resolve(Ok(streamed))
            &&& call::inline_reply_view(Ok(answer)) matches Ok(inline)
            &&& streamed.status == answer.status
            &&& inline.status == answer.status
            &&& streamed.headers == inline.headers
        }),
{
    let event = Event::Answered { status: answer.status, headers: answer.headers };
    a_call_resolves_with_its_answer(event, world);
    call::a_reply_says_what_the_service_answered(answer, arbitrary());
}

/// Each piece of a body is relayed as it is: its bytes as a message, its trailers with
/// every value that can be read, a failure with what it said, the end as a bare mark.
/// A piece that carries nothing is passed over. Nothing but the piece decides.
pub proof fn pieces_are_relayed_as_they_are(
    data: Vec<u8>,
    trailers: HeaderMap<HeaderValue>,
    error: String,
)
    ensures
        reaction(Stage::Reading, Event::Read(Piece::Data(data))) == (
            Stage::Sending,
            ActionView::Send(FrameView::Message(data@)),
        ),
        ({
            let (next, action) = reaction(Stage::Reading, Event::Read(Piece::Trailers(trailers)));
            &&& next == Stage::Sending
            &&& action matches ActionView::Send(FrameView::Trailers(sent))
            &&& sent.headers == headers::entries(trailers).filter_map(
                |entry: headers::Entry|
                    if headers::is_visible(entry.1) {
                        Some(
                            wire::HeaderView {
                                name: entry.0,
                                value: headers::text_of(entry.1),
                                unknown: Seq::empty(),
                            },
                        )
                    } else {
                        None
                    },
            )
            &&& sent.unknown.len() == 0
        }),
        reaction(Stage::Reading, Event::Read(Piece::Failed(error))) == (
            Stage::Breaking,
            ActionView::Send(FrameView::Error(error@)),
        ),
        ({
            let (next, action) = reaction(Stage::Reading, Event::Read(Piece::Ended));
            &&& next == Stage::Ending
            &&& action matches ActionView::Send(FrameView::End(mark))
            &&& mark.unknown.len() == 0
        }),
        reaction(Stage::Reading, Event::Read(Piece::Other)) == (Stage::Reading, ActionView::Read),
        reaction(Stage::Calling, Event::Failed(error)) == (
            Stage::Refusing,
            ActionView::Resolve(Err("connect service failed: "@ + error@)),
        ),
{
    call::only_unreadable_values_are_left_out(headers::entries(trailers));
}

/// A pump goes on while it is heard, and winds up once it is not: a head that was taken
/// and a frame that got through are followed by the next piece; a head that nobody took
/// and a refusal by forgetting the call; a frame that did not get through, and one that
/// reported a failure, by the end mark; the end mark, got through or not, by forgetting
/// the call; and that by stopping.
pub proof fn a_pump_goes_on_while_it_is_heard(heard: bool)
    ensures
        reaction(Stage::Resolving, Event::Resolved(true)) == (Stage::Reading, ActionView::Read),
        reaction(Stage::Sending, Event::Sent(true)) == (Stage::Reading, ActionView::Read),
        reaction(Stage::Resolving, Event::Resolved(false)) == (
            Stage::Forgetting,
            ActionView::Forget,
        ),
        reaction(Stage::Refusing, Event::Resolved(heard)) == (
            Stage::Forgetting,
            ActionView::Forget,
        ),
        reaction(Stage::Sending, Event::Sent(false)).0 == Stage::Ending,
        reaction(Stage::Sending, Event::Sent(false)).1 matches ActionView::Send(frame) && frame
            is End,
        reaction(Stage::Breaking, Event::Sent(heard)).0 == Stage::Ending,
        reaction(Stage::Breaking, Event::Sent(heard)).1 matches ActionView::Send(frame) && frame
            is End,
        reaction(Stage::Ending, Event::Sent(heard)) == (Stage::Forgetting, ActionView::Forget),
        reaction(Stage::Forgetting, Event::Forgotten) == (Stage::Done, ActionView::Stop),
{
}

/// What a pump does not wait for changes nothing: at each stage it waits for one kind of
/// event, two while the service runs, and to any other it asks for nothing and stays.
pub proof fn what_is_not_awaited_changes_nothing(stage: Stage, event: Event)
    ensures
        ({
            let awaited = match stage {
                Stage::Calling => event is Answered || event is Failed,
                Stage::Resolving => event is Resolved,
                Stage::Refusing => event is Resolved,
                Stage::Reading => event is Read,
                Stage::Sending => event is Sent,
                Stage::Breaking => event is Sent,
                Stage::Ending => event is Sent,
                Stage::Forgetting => event is Forgotten,
                Stage::Done => false,
            };
            &&& !awaited ==> reaction(stage, event) == (stage, ActionView::Ignore)
            &&& awaited ==> !(reaction(stage, event).1 is Ignore)
        }),
{
}

/// An action says one thing, and what it says is what it holds.
pub proof fn an_action_says_what_it_holds(action: Action, view: ActionView)
    requires
        action.says(view),
    ensures
        match view {
            ActionView::Resolve(Ok(said)) => {
                &&& action matches Action::Resolve(Ok(head))
                &&& head.status == said.status
                &&& wire::header_views(head.headers@) == said.headers
                &&& head.body@ == said.body
            },
            ActionView::Resolve(Err(said)) => action matches Action::Resolve(Err(e)) && e@ == said,
            ActionView::Send(FrameView::Message(said)) => {
                &&& action matches Action::Send(sent)
                &&& sent.frame matches Some(Frame::Message(bytes))
                &&& bytes@ == said
                &&& sent.unknown_fields@.len() == 0
            },
            ActionView::Send(FrameView::Trailers(said)) => {
                &&& action matches Action::Send(sent)
                &&& sent.frame matches Some(Frame::Trailers(trailers))
                &&& wire::header_views(trailers.headers@) == said.headers
                &&& sent.unknown_fields@.len() == 0
            },
            ActionView::Send(FrameView::Error(said)) => {
                &&& action matches Action::Send(sent)
                &&& sent.frame matches Some(Frame::Error(text))
                &&& text@ == said
                &&& sent.unknown_fields@.len() == 0
            },
            ActionView::Send(FrameView::End(said)) => {
                &&& action matches Action::Send(sent)
                &&& sent.frame matches Some(Frame::End(_))
                &&& sent.unknown_fields@.len() == 0
            },
            ActionView::Read => action is Read,
            ActionView::Forget => action is Forget,
            ActionView::Stop => action is Stop,
            ActionView::Ignore => action is Ignore,
        },
{
    if let (Action::Send(sent), ActionView::Send(_)) = (action, view) {
        assert(message::unknown_views(sent.unknown_fields@).len() == 0);
    }
}

} // verus!
