//! What driving the transport without a webview takes: Connect envelopes, start
//! requests, and collecting the frames of a response.

use crate::call;
use crate::codec;
use crate::message;
use crate::message::Message;
use crate::protobuf;
use crate::pump;
use crate::wire;
use crate::wire::response_frame::{Frame, FrameView};
use crate::wire::{Header, ResponseFrame, StartRequest};
use vstd::prelude::*;

verus! {

// ---- envelopes ----

/// The four bytes of a length, the highest first.
pub open spec fn length_bytes(len: nat) -> Seq<u8> {
    seq![
        (len / 0x1000000 % 0x100) as u8,
        (len / 0x10000 % 0x100) as u8,
        (len / 0x100 % 0x100) as u8,
        (len % 0x100) as u8,
    ]
}

/// The length in the header of an envelope.
pub open spec fn length_in(bytes: Seq<u8>) -> nat {
    (bytes[1] * 0x1000000 + bytes[2] * 0x10000 + bytes[3] * 0x100 + bytes[4]) as nat
}

/// A Connect envelope: flags byte, big-endian length, payload.
pub open spec fn envelope(flags: u8, payload: Seq<u8>) -> Seq<u8> {
    seq![flags] + length_bytes(payload.len()) + payload
}

/// Whether the flags mark Connect's EndStreamResponse, whose payload is trailers as
/// JSON and not a message.
pub open spec fn ends_stream(flags: u8) -> bool {
    flags / 2 % 2 == 1
}

/// What a buffer of envelopes holds.
#[verifier::ext_equal]
pub struct SplitView {
    pub payloads: Seq<Seq<u8>>,
    pub cut: bool,
}

/// The payloads of the messages in a buffer of envelopes, up to one that is cut off
/// behind its header, if there is one.
pub open spec fn split(bytes: Seq<u8>) -> SplitView
    decreases bytes.len(),
{
    if bytes.len() < 5 {
        SplitView { payloads: Seq::empty(), cut: false }
    } else if bytes.len() - 5 < length_in(bytes) {
        SplitView { payloads: Seq::empty(), cut: true }
    } else {
        let end = 5 + length_in(bytes);
        let rest = split(bytes.skip(end as int));
        if ends_stream(bytes[0]) {
            rest
        } else {
            SplitView { payloads: seq![bytes.subrange(5, end as int)] + rest.payloads, ..rest }
        }
    }
}

/// What some vectors of bytes hold.
pub open spec fn views(vectors: Seq<Vec<u8>>) -> Seq<Seq<u8>> {
    Seq::new(vectors.len(), |i: int| vectors[i]@)
}

/// Whether a body looks enveloped, used only to pick a content type: it has room for
/// a header, and no flag is set but the two that Connect defines.
pub fn is_enveloped(body: &[u8]) -> (r: bool)
    ensures
        r == (body@.len() >= 5 && body@[0] < 4),
{
    if body.len() < 5 {
        return false;
    }
    let flags = body[0];
    assert((flags & 0xfc == 0) == (flags < 4)) by (bit_vector);
    flags & 0xfc == 0
}

/// Wrap a message in a Connect envelope.
pub fn enveloped<M: Message>(message: &M) -> (r: Vec<u8>)
    requires
        message::encoding::<M>(message@).len() <= protobuf::MAX_MESSAGE_BYTES,
    ensures
        r@ == envelope(0, message::encoding::<M>(message@)),
{
    envelope_of(codec::encode(message))
}

/// Wrap the bytes of a message in a Connect envelope.
pub fn envelope_of(payload: Vec<u8>) -> (r: Vec<u8>)
    requires
        payload@.len() <= u32::MAX,
    ensures
        r@ == envelope(0, payload@),
{
    let mut payload = payload;
    let len: usize = payload.len();
    let mut framed: Vec<u8> = Vec::new();
    framed.push(0);
    framed.push((len / 0x1000000 % 0x100) as u8);
    framed.push((len / 0x10000 % 0x100) as u8);
    framed.push((len / 0x100 % 0x100) as u8);
    framed.push((len % 0x100) as u8);
    assert(framed@ =~= seq![0u8] + length_bytes(len as nat));
    framed.append(&mut payload);
    framed
}

/// What a buffer of Connect envelopes holds.
pub struct Split {
    /// The payloads of its messages.
    pub payloads: Vec<Vec<u8>>,
    /// Whether an envelope is cut off behind its header. Nothing follows that one.
    pub cut: bool,
}

impl View for Split {
    type V = SplitView;

    open spec fn view(&self) -> SplitView {
        SplitView { payloads: views(self.payloads@), cut: self.cut }
    }
}

/// Split a buffer of Connect envelopes into the payloads of its messages.
///
/// Connect's end-of-stream envelope carries trailers as JSON, not a message, so it
/// is skipped. A rest that is too short for a header is left over.
pub fn payloads(bytes: &[u8]) -> (r: Split)
    ensures
        r@ == split(bytes@),
{
    let mut out: Vec<Vec<u8>> = Vec::new();
    let mut offset: usize = 0;
    assert(bytes@.skip(0) =~= bytes@);
    assert(views(out@) + split(bytes@).payloads =~= split(bytes@).payloads);
    while bytes.len() - offset >= 5
        invariant
            offset <= bytes@.len(),
            split(bytes@).payloads == views(out@) + split(bytes@.skip(offset as int)).payloads,
            split(bytes@).cut == split(bytes@.skip(offset as int)).cut,
        decreases bytes@.len() - offset,
    {
        let ghost here = bytes@.skip(offset as int);
        let ghost before = views(out@);
        let flags = bytes[offset];
        let high = bytes[offset + 1] as u32 * 0x1000000 + bytes[offset + 2] as u32 * 0x10000;
        let len = (high + bytes[offset + 3] as u32 * 0x100 + bytes[offset + 4] as u32) as usize;
        assert(len == length_in(here));
        let start = offset + 5;
        if bytes.len() - start < len {
            assert(views(out@) + Seq::<Seq<u8>>::empty() =~= views(out@));
            return Split { payloads: out, cut: true };
        }
        let end = start + len;
        assert((flags & 0x02 == 0) == (flags / 2 % 2 == 0)) by (bit_vector);
        assert(here.skip(5 + len) =~= bytes@.skip(end as int));
        assert(here.subrange(5, 5 + len) =~= bytes@.subrange(start as int, end as int));
        if flags & 0x02 == 0 {
            let payload = vstd::slice::slice_subrange(bytes, start, end);
            out.push(vstd::slice::slice_to_vec(payload));
            proof {
                let rest = split(bytes@.skip(end as int)).payloads;
                assert(views(out@) =~= before.push(payload@));
                assert(before + (seq![payload@] + rest) =~= views(out@) + rest);
            }
        }
        offset = end;
    }
    assert(views(out@) + Seq::<Seq<u8>>::empty() =~= views(out@));
    Split { payloads: out, cut: false }
}

/// Takes in the messages of one frame, behind those that are still unread.
///
/// One frame may carry several messages. Nothing is taken from a frame with an envelope
/// that is cut off.
pub fn received(unread: &mut Vec<Vec<u8>>, frame: &[u8]) -> (r: Result<(), String>)
    ensures
        split(frame@).cut ==> {
            &&& r matches Err(e) && e@ == "truncated envelope"@
            &&& final(unread)@ == old(unread)@
        },
        !split(frame@).cut ==> {
            &&& r is Ok
            &&& views(final(unread)@) == views(old(unread)@) + split(frame@).payloads
        },
{
    let mut split = payloads(frame);
    if split.cut {
        return Err("truncated envelope".to_string());
    }
    let ghost taken = views(split.payloads@);
    unread.append(&mut split.payloads);
    assert(views(unread@) =~= views(old(unread)@) + taken);
    Ok(())
}

/// Hands out the message that has been unread for longest, if there is one.
pub fn next_unread(unread: &mut Vec<Vec<u8>>) -> (r: Option<Vec<u8>>)
    ensures
        match r {
            Some(payload) => {
                &&& old(unread)@.len() > 0
                &&& views(old(unread)@) == seq![payload@] + views(final(unread)@)
            },
            None => old(unread)@.len() == 0 && final(unread)@ == old(unread)@,
        },
{
    if unread.len() == 0 {
        return None;
    }
    let payload = unread.remove(0);
    assert(views(old(unread)@) =~= seq![payload@] + views(unread@));
    Some(payload)
}

/// The messages that some payloads hold, or `None` if one of them holds none.
pub open spec fn messages<M: Message>(payloads: Seq<Seq<u8>>) -> Option<Seq<M::V>>
    decreases payloads.len(),
{
    if payloads.len() == 0 {
        Some(Seq::empty())
    } else {
        match (
            messages::<M>(payloads.drop_last()),
            message::decoding::<M>(payloads.last()),
        ) {
            (Some(front), Ok(value)) => Some(front.push(value)),
            _ => None,
        }
    }
}

/// What some messages say.
pub open spec fn message_views<M: Message>(messages: Seq<M>) -> Seq<M::V> {
    Seq::new(messages.len(), |i: int| messages[i]@)
}

proof fn one_bad_payload_spoils_all<M: Message>(payloads: Seq<Seq<u8>>, count: int)
    requires
        0 <= count <= payloads.len(),
        messages::<M>(payloads.take(count)) is None,
    ensures
        messages::<M>(payloads) is None,
    decreases payloads.len(),
{
    if count == payloads.len() {
        assert(payloads.take(count) =~= payloads);
    } else {
        assert(payloads.drop_last().take(count) =~= payloads.take(count));
        one_bad_payload_spoils_all::<M>(payloads.drop_last(), count);
    }
}

/// Split a buffer of Connect envelopes into decoded messages.
///
/// Of several faults the first is reported: a message that does not decode comes
/// before an envelope that is cut off.
pub fn decode_envelopes<M: Message>(bytes: &[u8]) -> (r: Result<Vec<M>, String>)
    ensures
        match messages::<M>(split(bytes@).payloads) {
            None => r matches Err(e) && e@ == "malformed stream message"@,
            Some(all) => if split(bytes@).cut {
                r matches Err(e) && e@ == "truncated envelope"@
            } else {
                r matches Ok(v) && message_views(v@) == all
            },
        },
{
    let found = payloads(bytes);
    let payloads = found.payloads;
    let ghost all = views(payloads@);
    let mut out: Vec<M> = Vec::new();
    assert(message_views(out@) =~= Seq::empty());
    for i in 0..payloads.len()
        invariant
            all == views(payloads@),
            split(bytes@).payloads == all,
            messages::<M>(all.take(i as int)) == Some(message_views(out@)),
    {
        let payload = &payloads[i];
        proof {
            let next = all.take(i + 1);
            assert(next.drop_last() =~= all.take(i as int));
            assert(next.last() == payload@);
            if messages::<M>(next) is None {
                one_bad_payload_spoils_all::<M>(all, i + 1);
            }
        }
        match codec::decode_bytes::<M>(payload.as_slice()) {
            Ok(value) => {
                let ghost before = message_views(out@);
                out.push(value);
                assert(message_views(out@) =~= before.push(value@));
            },
            Err(_) => {
                return Err("malformed stream message".to_string());
            },
        }
    }
    assert(all.take(payloads.len() as int) =~= all);
    if found.cut {
        return Err("truncated envelope".to_string());
    }
    Ok(out)
}

/// Envelopes, one behind the other.
pub open spec fn joined(envelopes: Seq<(u8, Seq<u8>)>) -> Seq<u8>
    decreases envelopes.len(),
{
    if envelopes.len() == 0 {
        Seq::empty()
    } else {
        envelope(envelopes[0].0, envelopes[0].1) + joined(envelopes.drop_first())
    }
}

/// The payloads of those envelopes that hold messages.
pub open spec fn message_payloads(envelopes: Seq<(u8, Seq<u8>)>) -> Seq<Seq<u8>>
    decreases envelopes.len(),
{
    if envelopes.len() == 0 {
        Seq::empty()
    } else if ends_stream(envelopes[0].0) {
        message_payloads(envelopes.drop_first())
    } else {
        seq![envelopes[0].1] + message_payloads(envelopes.drop_first())
    }
}

/// The header of an envelope gives back the length that it was written for.
proof fn length_reads_back(flags: u8, payload: Seq<u8>, rest: Seq<u8>)
    requires
        payload.len() <= u32::MAX,
    ensures
        length_in(envelope(flags, payload) + rest) == payload.len(),
{
    let len = payload.len();
    let bytes = envelope(flags, payload) + rest;
    assert(bytes[1] == length_bytes(len)[0]);
    assert(bytes[2] == length_bytes(len)[1]);
    assert(bytes[3] == length_bytes(len)[2]);
    assert(bytes[4] == length_bytes(len)[3]);
    assert(len / 0x1000000 % 0x100 == len / 0x1000000);
    assert(len == (len / 0x1000000) * 0x1000000 + (len / 0x10000 % 0x100) * 0x10000 + (len / 0x100
        % 0x100) * 0x100 + len % 0x100);
}

/// Messages that arrive in one chunk split apart exactly as if each had arrived on
/// its own: nothing is dropped, merged or put in another order.
pub proof fn coalesced_messages_split_apart(envelopes: Seq<(u8, Seq<u8>)>)
    requires
        forall|i: int| 0 <= i < envelopes.len() ==> (#[trigger] envelopes[i]).1.len() <= u32::MAX,
    ensures
        split(joined(envelopes)) == (SplitView {
            payloads: message_payloads(envelopes),
            cut: false,
        }),
    decreases envelopes.len(),
{
    if envelopes.len() > 0 {
        let (flags, payload) = envelopes[0];
        let later = envelopes.drop_first();
        let rest = joined(later);
        let bytes = joined(envelopes);
        assert(envelopes[0].1.len() <= u32::MAX);
        assert forall|i: int| 0 <= i < later.len() implies (#[trigger] later[i]).1.len()
            <= u32::MAX by {
            assert(envelopes[i + 1].1.len() <= u32::MAX);
        }
        length_reads_back(flags, payload, rest);
        coalesced_messages_split_apart(later);
        assert(bytes.skip(5int + payload.len()) =~= rest);
        assert(bytes.subrange(5, 5int + payload.len()) =~= payload);
        assert(bytes[0] == flags);
    }
}

/// An envelope looks enveloped, so a call that starts with one is sent as a stream.
pub proof fn an_envelope_looks_enveloped(payload: Seq<u8>)
    ensures
        envelope(0, payload).len() >= 5,
        envelope(0, payload)[0] < 4,
        content_type(envelope(0, payload), false) == "application/connect+proto"@,
{
}

// ---- start requests ----

/// The content type that goes with a request body.
pub open spec fn content_type(body: Seq<u8>, streaming_request: bool) -> Seq<char> {
    if streaming_request || (body.len() >= 5 && body[0] < 4) {
        "application/connect+proto"@
    } else {
        "application/proto"@
    }
}

/// The request that starts a call, with a content type that fits its body.
pub fn start_message(
    call_id: u64,
    url: &str,
    body: Vec<u8>,
    streaming_request: bool,
) -> (r: StartRequest)
    ensures
        r@ == (wire::StartRequestView {
            call_id,
            url: url@,
            method: "POST"@,
            headers: seq![
                wire::plain_header("content-type"@, content_type(body@, streaming_request)),
            ],
            body: body@,
            streaming_request,
            channel: Seq::empty(),
            unknown: Seq::empty(),
        }),
{
    let value = if streaming_request || is_enveloped(body.as_slice()) {
        "application/connect+proto".to_string()
    } else {
        "application/proto".to_string()
    };
    let mut headers: Vec<Header> = Vec::new();
    headers.push(wire::header("content-type".to_string(), value));
    let start = StartRequest {
        call_id,
        url: url.to_string(),
        method: "POST".to_string(),
        headers,
        body,
        streaming_request,
        channel: String::new(),
        unknown_fields: Vec::new(),
    };
    assert(start@.headers =~= seq![
        wire::plain_header("content-type"@, content_type(body@, streaming_request)),
    ]);
    assert(start@.unknown =~= Seq::empty());
    start
}

// ---- responses ----

/// The bytes of the messages among some frames, up to the end marker.
pub open spec fn message_bytes(frames: Seq<FrameView>) -> Seq<u8>
    decreases frames.len(),
{
    if frames.len() == 0 {
        Seq::empty()
    } else {
        match frames[0] {
            FrameView::End(_) => Seq::empty(),
            FrameView::Message(bytes) => bytes + message_bytes(frames.drop_first()),
            _ => message_bytes(frames.drop_first()),
        }
    }
}

/// The frame that was received, or `None` once the response ends.
pub fn next_frame(received: Option<ResponseFrame>) -> (r: Option<Frame>)
    ensures
        r == (match received {
            Some(frame) => match frame.frame {
                Some(Frame::End(_)) => None,
                other => other,
            },
            None => None,
        }),
{
    match received {
        Some(frame) => match frame.frame {
            Some(Frame::End(_)) => None,
            other => other,
        },
        None => None,
    }
}

/// Adds what a frame holds of the messages of a response.
pub fn collect(out: &mut Vec<u8>, frame: Frame)
    ensures
        final(out)@ == old(out)@ + message_bytes(seq![frame@]),
{
    proof {
        reveal_with_fuel(message_bytes, 2);
        assert(seq![frame@].drop_first() =~= Seq::empty());
    }
    match frame {
        Frame::Message(bytes) => {
            let mut bytes = bytes;
            assert(bytes@ + Seq::<u8>::empty() =~= bytes@);
            out.append(&mut bytes);
        },
        _ => {
            assert(out@ + Seq::<u8>::empty() =~= out@);
        },
    }
}

/// The bytes of a response body, one piece behind the other.
pub open spec fn body_bytes(pieces: Seq<pump::Piece>) -> Seq<u8>
    decreases pieces.len(),
{
    if pieces.len() == 0 {
        Seq::empty()
    } else {
        match pieces[0] {
            pump::Piece::Data(data) => data@ + body_bytes(pieces.drop_first()),
            _ => body_bytes(pieces.drop_first()),
        }
    }
}

proof fn carried_bytes(pieces: Seq<pump::Piece>)
    ensures
        message_bytes(pump::carried(pieces).push(FrameView::end())) == body_bytes(pieces),
    decreases pieces.len(),
{
    let frames = pump::carried(pieces).push(FrameView::end());
    if pieces.len() == 0 {
        assert(frames[0] is End);
    } else {
        let later = pump::carried(pieces.drop_first()).push(FrameView::end());
        carried_bytes(pieces.drop_first());
        match pump::frame_of(pieces[0]) {
            Some(frame) => {
                assert(frames =~= seq![frame] + later);
                assert(frames.drop_first() =~= later);
            },
            None => {
                assert(frames =~= later);
            },
        }
    }
}

/// A response body arrives whole: what a reader collects from the frames of a call
/// are the bytes that the service answered with.
pub proof fn the_body_arrives_whole(answer: pump::Event, world: pump::World)
    requires
        answer is Answered,
        world.taken,
        pump::all_content(world.pieces),
        world.sends >= pump::carried(world.pieces).len(),
    ensures
        message_bytes(pump::frames(pump::transcript(answer, world))) == body_bytes(world.pieces),
{
    pump::frames_arrive_in_order(answer, world);
    carried_bytes(world.pieces);
}

/// A response that is answered in one piece says the same as one that streams: the
/// same status and headers, and a body of the same bytes.
pub proof fn inline_and_streamed_replies_agree(answer: call::Answer, world: pump::World)
    requires
        answer.body matches Ok(body) && body@ == body_bytes(world.pieces),
        world.taken,
        pump::all_content(world.pieces),
        world.sends >= pump::carried(world.pieces).len(),
    ensures
        ({
            let streamed = pump::transcript(
                pump::Event::Answered { status: answer.status, headers: answer.headers },
                world,
            );
            &&& streamed[0] matches pump::ActionView::Resolve(Ok(head))
            &&& call::inline_reply_view(Ok(answer)) == Ok::<wire::ResponseHeadView, Seq<char>>(
                wire::ResponseHeadView { body: message_bytes(pump::frames(streamed)), ..head },
            )
        }),
{
    let event = pump::Event::Answered { status: answer.status, headers: answer.headers };
    pump::every_call_runs_to_its_end(event, world);
    the_body_arrives_whole(event, world);
}

// ---- what envelopes and requests are ----

/// An envelope is its flags, the length of its payload with the highest byte first, and
/// the payload.
pub proof fn an_envelope_is_flags_length_and_payload(flags: u8, payload: Seq<u8>)
    requires
        payload.len() <= u32::MAX,
    ensures
        envelope(flags, payload).len() == 5 + payload.len(),
        envelope(flags, payload)[0] == flags,
        payload.len() == envelope(flags, payload)[1] * 0x1000000 + envelope(flags, payload)[2]
            * 0x10000 + envelope(flags, payload)[3] * 0x100 + envelope(flags, payload)[4],
        envelope(flags, payload).skip(5) == payload,
{
    length_reads_back(flags, payload, Seq::empty());
    assert(envelope(flags, payload) + Seq::<u8>::empty() =~= envelope(flags, payload));
    assert(envelope(flags, payload).skip(5) =~= payload);
}

/// The second lowest bit of the flags, and no other, marks the end of a stream.
pub proof fn one_bit_ends_a_stream(flags: u8)
    ensures
        ends_stream(flags) == (flags & 0x02 == 0x02),
{
    assert((flags & 0x02 == 0x02) == (flags / 2 % 2 == 1)) by (bit_vector);
}

proof fn envelopes_split_off(envelopes: Seq<(u8, Seq<u8>)>, tail: Seq<u8>)
    requires
        forall|i: int| 0 <= i < envelopes.len() ==> (#[trigger] envelopes[i]).1.len() <= u32::MAX,
    ensures
        split(joined(envelopes) + tail) == (SplitView {
            payloads: message_payloads(envelopes) + split(tail).payloads,
            cut: split(tail).cut,
        }),
    decreases envelopes.len(),
{
    if envelopes.len() == 0 {
        assert(joined(envelopes) + tail =~= tail);
        assert(message_payloads(envelopes) + split(tail).payloads =~= split(tail).payloads);
    } else {
        let (flags, payload) = envelopes[0];
        let later = envelopes.drop_first();
        let rest = joined(later) + tail;
        let bytes = joined(envelopes) + tail;
        assert(envelopes[0].1.len() <= u32::MAX);
        assert forall|i: int| 0 <= i < later.len() implies (#[trigger] later[i]).1.len()
            <= u32::MAX by {
            assert(envelopes[i + 1].1.len() <= u32::MAX);
        }
        assert(bytes =~= envelope(flags, payload) + rest);
        length_reads_back(flags, payload, rest);
        envelopes_split_off(later, tail);
        assert(bytes.skip(5int + payload.len()) =~= rest);
        assert(bytes.subrange(5, 5int + payload.len()) =~= payload);
        assert(bytes[0] == flags);
        assert(split(bytes).payloads =~= message_payloads(envelopes) + split(tail).payloads);
    }
}

/// An envelope that is cut off behind its header is noticed, whatever came before it, and
/// costs none of the messages before it. A rest that is too short for a header is left
/// over without a word.
pub proof fn a_cut_envelope_is_noticed(
    envelopes: Seq<(u8, Seq<u8>)>,
    flags: u8,
    payload: Seq<u8>,
    there: int,
)
    requires
        forall|i: int| 0 <= i < envelopes.len() ==> (#[trigger] envelopes[i]).1.len() <= u32::MAX,
        payload.len() <= u32::MAX,
        0 <= there < 5 + payload.len(),
    ensures
        split(joined(envelopes) + envelope(flags, payload).take(there)) == (SplitView {
            payloads: message_payloads(envelopes),
            cut: there >= 5,
        }),
{
    let whole = envelope(flags, payload);
    let tail = whole.take(there);
    envelopes_split_off(envelopes, tail);
    length_reads_back(flags, payload, Seq::empty());
    assert(whole + Seq::<u8>::empty() =~= whole);
    if there >= 5 {
        assert(tail[1] == whole[1] && tail[2] == whole[2] && tail[3] == whole[3] && tail[4]
            == whole[4]);
    }
    assert(message_payloads(envelopes) + Seq::<Seq<u8>>::empty() =~= message_payloads(envelopes));
}

/// The payloads of some envelopes are those of each that does not end the stream, and no
/// others, in order.
pub proof fn messages_lie_in_envelopes_that_do_not_end_the_stream(
    envelopes: Seq<(u8, Seq<u8>)>,
)
    ensures
        message_payloads(envelopes) == envelopes.filter_map(
            |envelope: (u8, Seq<u8>)|
                if envelope.0 & 0x02 == 0x02 {
                    None
                } else {
                    Some(envelope.1)
                },
        ),
    decreases envelopes.len(),
{
    if envelopes.len() > 0 {
        let front = envelopes.drop_last();
        let last = envelopes.last();
        messages_lie_in_envelopes_that_do_not_end_the_stream(front);
        one_bit_ends_a_stream(last.0);
        last_payload(envelopes);
        if !ends_stream(last.0) {
            assert(message_payloads(front) + seq![last.1] =~= message_payloads(front).push(last.1));
        }
    }
}

proof fn last_payload(envelopes: Seq<(u8, Seq<u8>)>)
    requires
        envelopes.len() > 0,
    ensures
        message_payloads(envelopes) == (if ends_stream(envelopes.last().0) {
            message_payloads(envelopes.drop_last())
        } else {
            message_payloads(envelopes.drop_last()).push(envelopes.last().1)
        }),
    decreases envelopes.len(),
{
    let later = envelopes.drop_first();
    if later.len() > 0 {
        last_payload(later);
        assert(later.drop_last() =~= envelopes.drop_last().drop_first());
        assert(envelopes.drop_last()[0] == envelopes[0]);
        assert(later.last() == envelopes.last());
        if !ends_stream(envelopes[0].0) && !ends_stream(envelopes.last().0) {
            let first = seq![envelopes[0].1];
            let middle = message_payloads(later.drop_last());
            assert(first + middle.push(envelopes.last().1) =~= (first + middle).push(
                envelopes.last().1,
            ));
        }
    } else {
        reveal_with_fuel(message_payloads, 2);
        assert(envelopes.drop_last() =~= Seq::empty());
        assert(later =~= Seq::empty());
        assert(seq![envelopes[0].1] + Seq::<Seq<u8>>::empty() =~= Seq::<Seq<u8>>::empty().push(
            envelopes[0].1,
        ));
    }
}

/// A stream decodes exactly if each of its payloads does, and then to what each of them
/// says, in order.
pub proof fn a_stream_decodes_message_by_message<M: Message>(payloads: Seq<Seq<u8>>)
    ensures
        messages::<M>(payloads) is Some <==> (forall|i: int|
            0 <= i < payloads.len() ==> message::decoding::<M>(#[trigger] payloads[i]) is Ok),
        messages::<M>(payloads) matches Some(all) ==> {
            &&& all.len() == payloads.len()
            &&& forall|i: int|
                0 <= i < payloads.len() ==> message::decoding::<M>(#[trigger] payloads[i]) == Ok::<
                    M::V,
                    Seq<char>,
                >(all[i])
        },
    decreases payloads.len(),
{
    if payloads.len() > 0 {
        let front = payloads.drop_last();
        a_stream_decodes_message_by_message::<M>(front);
        assert(payloads[payloads.len() - 1] == payloads.last());
        assert forall|i: int| 0 <= i < front.len() implies #[trigger] front[i] == payloads[i] by {
        }
        if messages::<M>(payloads) is Some {
            let all = messages::<M>(payloads)->Some_0;
            assert forall|i: int| 0 <= i < payloads.len() implies message::decoding::<M>(
                #[trigger] payloads[i],
            ) == Ok::<M::V, Seq<char>>(all[i]) by {
                if i < front.len() {
                    assert(front[i] == payloads[i]);
                }
            }
        } else if forall|i: int|
            0 <= i < payloads.len() ==> message::decoding::<M>(#[trigger] payloads[i]) is Ok {
            assert forall|i: int| 0 <= i < front.len() implies message::decoding::<M>(
                #[trigger] front[i],
            ) is Ok by {
                assert(message::decoding::<M>(payloads[i]) is Ok);
            }
            assert(false);
        }
    }
}

/// A request is sent as a stream if more of it follows, or if it starts like an envelope,
/// and as a single message if not.
pub proof fn a_request_is_sent_as_what_it_is(body: Seq<u8>, streaming_request: bool)
    ensures
        streaming_request ==> content_type(body, streaming_request) == "application/connect+proto"@,
        !streaming_request && body.len() >= 5 && body[0] <= 3 ==> content_type(
            body,
            streaming_request,
        ) == "application/connect+proto"@,
        !streaming_request && (body.len() < 5 || body[0] > 3) ==> content_type(
            body,
            streaming_request,
        ) == "application/proto"@,
{
}

/// What is collected of a response are the bytes of its messages, as they are and in
/// order, up to the end mark.
pub proof fn messages_are_collected_as_they_are(
    bytes: Seq<u8>,
    text: Seq<char>,
    trailers: wire::TrailersView,
    mark: wire::EndView,
    rest: Seq<FrameView>,
)
    ensures
        message_bytes(Seq::empty()) == Seq::<u8>::empty(),
        message_bytes(seq![FrameView::Message(bytes)] + rest) == bytes + message_bytes(rest),
        message_bytes(seq![FrameView::Error(text)] + rest) == message_bytes(rest),
        message_bytes(seq![FrameView::Trailers(trailers)] + rest) == message_bytes(rest),
        message_bytes(seq![FrameView::End(mark)] + rest) == Seq::<u8>::empty(),
{
    assert((seq![FrameView::Message(bytes)] + rest).drop_first() =~= rest);
    assert((seq![FrameView::Error(text)] + rest).drop_first() =~= rest);
    assert((seq![FrameView::Trailers(trailers)] + rest).drop_first() =~= rest);
}

} // verus!
