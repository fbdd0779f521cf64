//! Which number stands for which field, and which bytes an envelope is.
//!
//! The other side of the IPC boundary is written in another language, against the same
//! numbers. The laws here give them as the bytes that cross.

use crate::message;
use crate::message::{Cost, Field, Input, Message};
use crate::protobuf;
use crate::protobuf::Tag;
use crate::wire::response_frame::{Frame, FrameView};
use crate::wire::{
    CancelRequest, CancelRequestView, End, EndView, Header, HeaderView, ResponseFrame,
    ResponseFrameView, ResponseHead, ResponseHeadView, SendRequest, SendRequestView, StartRequest,
    StartRequestView, Trailers, TrailersView,
};
use vstd::layout;
use vstd::prelude::*;
use vstd::utf8::encode_utf8;

verus! {

// ---- the bytes of fields ----

/// A field whose tag is the byte `head`, with an integer.
pub open spec fn integer_bytes(head: u8, value: u64) -> Seq<u8> {
    seq![head] + protobuf::varint_bytes(value as nat)
}

/// A field whose tag is the byte `head`, with some bytes behind their length.
pub open spec fn blob_bytes(head: u8, payload: Seq<u8>) -> Seq<u8> {
    seq![head] + protobuf::varint_bytes(payload.len()) + payload
}

/// A field with an integer, left out for zero.
pub open spec fn integer_part(head: u8, value: u64) -> Seq<u8> {
    if value == 0 {
        Seq::empty()
    } else {
        integer_bytes(head, value)
    }
}

/// A field with a flag, left out where it is not set.
pub open spec fn flag_part(head: u8, value: bool) -> Seq<u8> {
    if value {
        seq![head, 1u8]
    } else {
        Seq::empty()
    }
}

/// A field with some bytes, left out where there are none.
pub open spec fn blob_part(head: u8, value: Seq<u8>) -> Seq<u8> {
    if value.len() == 0 {
        Seq::empty()
    } else {
        blob_bytes(head, value)
    }
}

/// A field with a text in UTF-8, left out where it is empty.
pub open spec fn text_part(head: u8, value: Seq<char>) -> Seq<u8> {
    if value.len() == 0 {
        Seq::empty()
    } else {
        blob_bytes(head, encode_utf8(value))
    }
}

/// The bytes of a header: its name in field 1, its value in field 2.
pub open spec fn header_bytes(header: HeaderView) -> Seq<u8> {
    text_part(0x0a, header.name) + text_part(0x12, header.value) + unknown_part(header.unknown)
}

/// A field for each header, one behind the other.
pub open spec fn headers_part(head: u8, headers: Seq<HeaderView>) -> Seq<u8> {
    headers.map_values(|header: HeaderView| blob_bytes(head, header_bytes(header))).flatten()
}

/// Unknown fields, one behind the other.
pub open spec fn unknown_part(fields: Seq<message::UnknownView>) -> Seq<u8> {
    fields.map_values(|field: message::UnknownView| field.bytes).flatten()
}

proof fn heads_are_single_bytes(number: u32, value: u64, payload: Seq<u8>)
    requires
        1 <= number < 16,
    ensures
        (Field::Integer { number, value }).encoded() == integer_bytes((number * 8) as u8, value),
        (Field::Payload { number, bytes: payload }).encoded() == blob_bytes(
            (number * 8 + 2) as u8,
            payload,
        ),
{
    assert(protobuf::tag_bytes(number, protobuf::VARINT) =~= seq![(number * 8) as u8]);
    assert(protobuf::tag_bytes(number, protobuf::LENGTH_DELIMITED)
        =~= seq![(number * 8 + 2) as u8]);
    assert(Field::Payload { number, bytes: payload }.encoded() =~= blob_bytes(
        (number * 8 + 2) as u8,
        payload,
    ));
}

proof fn parts_are_fields(number: u32, value: u64, payload: Seq<u8>, text: Seq<char>, flag: bool)
    requires
        1 <= number < 16,
    ensures
        message::fields_bytes(message::integer_field(number, value)) == integer_part(
            (number * 8) as u8,
            value,
        ),
        message::fields_bytes(message::integer_field(number, message::flag_value(flag)))
            == flag_part((number * 8) as u8, flag),
        message::fields_bytes(message::blob_field(number, payload)) == blob_part(
            (number * 8 + 2) as u8,
            payload,
        ),
        message::fields_bytes(message::text_field(number, text)) == text_part(
            (number * 8 + 2) as u8,
            text,
        ),
{
    heads_are_single_bytes(number, value, payload);
    heads_are_single_bytes(number, 1, encode_utf8(text));
    message::fields_bytes_one(Field::Integer { number, value });
    message::fields_bytes_one(Field::Integer { number, value: 1 });
    message::fields_bytes_one(Field::Payload { number, bytes: payload });
    message::fields_bytes_one(Field::Payload { number, bytes: encode_utf8(text) });
    assert(integer_bytes((number * 8) as u8, 1) =~= seq![(number * 8) as u8, 1u8]);
}

proof fn unknown_fields_are_parts(fields: Seq<message::UnknownView>)
    ensures
        message::fields_bytes(message::unknown_fields(fields)) == unknown_part(fields),
{
    message::fields_lie_one_behind_the_other(message::unknown_fields(fields));
    assert(message::unknown_fields(fields).map_values(|field: Field| field.encoded())
        =~= fields.map_values(|field: message::UnknownView| field.bytes));
}

proof fn header_fields_are_parts(number: u32, headers: Seq<HeaderView>)
    requires
        1 <= number < 16,
    ensures
        message::fields_bytes(crate::wire::header_fields(number, headers)) == headers_part(
            (number * 8 + 2) as u8,
            headers,
        ),
{
    let head = (number * 8 + 2) as u8;
    let fields = crate::wire::header_fields(number, headers);
    message::fields_lie_one_behind_the_other(fields);
    let a = fields.map_values(|field: Field| field.encoded());
    let b = headers.map_values(|header: HeaderView| blob_bytes(head, header_bytes(header)));
    assert forall|i: int| 0 <= i < headers.len() implies #[trigger] a[i] == b[i] by {
        headers_are_these_bytes(headers[i]);
        heads_are_single_bytes(number, 0, header_bytes(headers[i]));
    }
    assert(a =~= b);
}

/// A header is these bytes.
pub proof fn headers_are_these_bytes(value: HeaderView)
    ensures
        message::encoding::<Header>(value) == header_bytes(value),
        message::encoding::<Header>(value) == text_part(0x0a, value.name) + text_part(
            0x12,
            value.value,
        ) + unknown_part(value.unknown),
{
    parts_are_fields(1, 0, Seq::empty(), value.name, false);
    parts_are_fields(2, 0, Seq::empty(), value.value, false);
    unknown_fields_are_parts(value.unknown);
    let f0 = message::text_field(1, value.name);
    let f1 = f0 + message::text_field(2, value.value);
    message::fields_bytes_add(f0, message::text_field(2, value.value));
    let f2 = f1 + message::unknown_fields(value.unknown);
    message::fields_bytes_add(f1, message::unknown_fields(value.unknown));
    assert(Header::fields(value) =~= f2);
}

/// Which number stands for which field of a [`Header`]: read next, wherever it lies and
/// whatever has been read before, a field under its number sets just that field, to
/// what its bytes say.
pub proof fn header_fields_have_these_numbers(
    so_far: HeaderView,
    name: Seq<char>,
    value: Seq<char>,
    depth: u32,
)
    requires
        blob_bytes(0x0a, encode_utf8(name)).len() <= protobuf::MAX_MESSAGE_BYTES,
        blob_bytes(0x12, encode_utf8(value)).len() <= protobuf::MAX_MESSAGE_BYTES,
    ensures
        message::turns::<Header>(
            so_far,
            blob_bytes(0x0a, encode_utf8(name)),
            Cost::nothing(),
            HeaderView { name, ..so_far },
            depth,
        ),
        message::turns::<Header>(
            so_far,
            blob_bytes(0x12, encode_utf8(value)),
            Cost::nothing(),
            HeaderView { value, ..so_far },
            depth,
        ),
{
    heads_are_single_bytes(1, 0, encode_utf8(name));
    message::fields_bytes_one(Field::Payload { number: 1, bytes: encode_utf8(name) });
    message::text_reads::<Header>(
        1,
        name,
        so_far,
        |x: Seq<char>| HeaderView { name: x, ..so_far },
        depth,
    );
    message::a_field_turns::<Header>(
        so_far,
        Field::Payload { number: 1, bytes: encode_utf8(name) },
        blob_bytes(0x0a, encode_utf8(name)),
        Cost::nothing(),
        HeaderView { name, ..so_far },
        depth,
    );
    heads_are_single_bytes(2, 0, encode_utf8(value));
    message::fields_bytes_one(Field::Payload { number: 2, bytes: encode_utf8(value) });
    message::text_reads::<Header>(
        2,
        value,
        so_far,
        |x: Seq<char>| HeaderView { value: x, ..so_far },
        depth,
    );
    message::a_field_turns::<Header>(
        so_far,
        Field::Payload { number: 2, bytes: encode_utf8(value) },
        blob_bytes(0x12, encode_utf8(value)),
        Cost::nothing(),
        HeaderView { value, ..so_far },
        depth,
    );
}

/// A payload that is one field of a [`Header`] says just that field, and every other one is
/// blank.
pub proof fn one_header_field_says_just_that(
    name: Seq<char>,
    value: Seq<char>,
)
    requires
        blob_bytes(0x0a, encode_utf8(name)).len() <= protobuf::MAX_MESSAGE_BYTES,
        blob_bytes(0x12, encode_utf8(value)).len() <= protobuf::MAX_MESSAGE_BYTES,
    ensures
        message::decoding::<Header>(blob_bytes(0x0a, encode_utf8(name))) == Ok::<
            HeaderView,
            Seq<char>,
        >(
            HeaderView { name, value: Seq::empty(), unknown: Seq::empty() },
        ),
        message::decoding::<Header>(blob_bytes(0x12, encode_utf8(value))) == Ok::<
            HeaderView,
            Seq<char>,
        >(
            HeaderView { name: Seq::empty(), value, unknown: Seq::empty() },
        ),
{
    let blank = Header::blank();
    let depth = protobuf::RECURSION_LIMIT;
    header_fields_have_these_numbers(blank, name, value, depth);
    message::what_turns_a_blank_message_is_decoded::<Header>(
        blob_bytes(0x0a, encode_utf8(name)),
        Cost::nothing(),
        HeaderView { name, ..blank },
    );
    message::what_turns_a_blank_message_is_decoded::<Header>(
        blob_bytes(0x12, encode_utf8(value)),
        Cost::nothing(),
        HeaderView { value, ..blank },
    );
}

/// What one field makes of a [`Header`] is decided by its number: a known one is read as
/// what it is, sets just its own field, and is an error where it cannot be read; any other
/// is kept behind the unknown ones before it, and changes nothing else.
pub proof fn a_number_decides_what_a_header_reads(
    so_far: HeaderView,
    tag: Tag,
    input: Input,
    depth: u32,
)
    ensures
        tag.number == 1 ==> Header::merged(so_far, tag, input, depth)
            == (match message::text(tag, input) {
            Ok((x, next)) => Ok::<(HeaderView, Input), Seq<char>>(
                (HeaderView { name: x, ..so_far }, next),
            ),
            Err(e) => Err(e),
        }),
        tag.number == 2 ==> Header::merged(so_far, tag, input, depth)
            == (match message::text(tag, input) {
            Ok((x, next)) => Ok::<(HeaderView, Input), Seq<char>>(
                (HeaderView { value: x, ..so_far }, next),
            ),
            Err(e) => Err(e),
        }),
        tag.number != 1 && tag.number != 2 ==> Header::merged(so_far, tag, input, depth)
            == (match message::unknown(tag, input, depth) {
            Ok((x, next)) => Ok::<(HeaderView, Input), Seq<char>>(
                (HeaderView { unknown: so_far.unknown.push(x), ..so_far }, next),
            ),
            Err(e) => Err(e),
        }),
{
}

/// A [`Trailers`] is these bytes: its fields in order, each under its number, and what is
/// not known behind them.
pub proof fn trailers_are_these_bytes(value: TrailersView)
    ensures
        message::encoding::<Trailers>(value) == headers_part(0x0a, value.headers)
            + unknown_part(value.unknown),
{
    header_fields_are_parts(1, value.headers);
    unknown_fields_are_parts(value.unknown);
    let f0 = crate::wire::header_fields(1, value.headers);
    let f1 = f0 + message::unknown_fields(value.unknown);
    message::fields_bytes_add(f0, message::unknown_fields(value.unknown));
    assert(Trailers::fields(value) =~= f1);
}

/// Which number stands for which field of a [`Trailers`]: read next, wherever it lies and
/// whatever has been read before, a field under its number sets just that field, to
/// what its bytes say.
pub proof fn trailers_fields_have_these_numbers(
    so_far: TrailersView,
    header: HeaderView,
    depth: u32,
)
    requires
        blob_bytes(0x0a, header_bytes(header)).len() <= protobuf::MAX_MESSAGE_BYTES,
        depth > 0,
        Header::sound(header, (depth - 1) as u32),
    ensures
        message::turns::<Trailers>(
            so_far,
            blob_bytes(0x0a, header_bytes(header)),
            message::element_cost::<Header>(header, depth),
            TrailersView { headers: so_far.headers.push(header), ..so_far },
            depth,
        ),
{
    headers_are_these_bytes(header);
    heads_are_single_bytes(1, 0, header_bytes(header));
    message::fields_bytes_one(Field::Payload { number: 1, bytes: header_bytes(header) });
    message::element_reads::<Trailers, Header>(
        1,
        header,
        so_far,
        |x: HeaderView| TrailersView { headers: so_far.headers.push(x), ..so_far },
        depth,
    );
    message::a_field_turns::<Trailers>(
        so_far,
        Field::Payload { number: 1, bytes: header_bytes(header) },
        blob_bytes(0x0a, header_bytes(header)),
        message::element_cost::<Header>(header, depth),
        TrailersView { headers: so_far.headers.push(header), ..so_far },
        depth,
    );
}

/// A payload that is one field of a [`Trailers`] says just that field, and every other one is
/// blank.
pub proof fn one_trailers_field_says_just_that(
    header: HeaderView,
)
    requires
        blob_bytes(0x0a, header_bytes(header)).len() <= protobuf::MAX_MESSAGE_BYTES,
        header.unknown.len() == 0,
        layout::size_of::<Header>() <= protobuf::ELEMENT_MEMORY_LIMIT,
    ensures
        message::decoding::<Trailers>(blob_bytes(0x0a, header_bytes(header))) == Ok::<
            TrailersView,
            Seq<char>,
        >(
            TrailersView {
                headers: Seq::<HeaderView>::empty().push(header),
                unknown: Seq::empty(),
            },
        ),
{
    let blank = Trailers::blank();
    let depth = protobuf::RECURSION_LIMIT;
    trailers_fields_have_these_numbers(blank, header, depth);
    message::what_turns_a_blank_message_is_decoded::<Trailers>(
        blob_bytes(0x0a, header_bytes(header)),
        message::element_cost::<Header>(header, depth),
        TrailersView { headers: blank.headers.push(header), ..blank },
    );
}

/// What one field makes of a [`Trailers`] is decided by its number: a known one is read as
/// what it is, sets just its own field, and is an error where it cannot be read; any other
/// is kept behind the unknown ones before it, and changes nothing else.
pub proof fn a_number_decides_what_a_trailers_reads(
    so_far: TrailersView,
    tag: Tag,
    input: Input,
    depth: u32,
)
    ensures
        tag.number == 1 ==> Trailers::merged(so_far, tag, input, depth)
            == (match message::element::<Header>(tag, input, depth) {
            Ok((x, next)) => Ok::<(TrailersView, Input), Seq<char>>(
                (TrailersView { headers: so_far.headers.push(x), ..so_far }, next),
            ),
            Err(e) => Err(e),
        }),
        tag.number != 1 ==> Trailers::merged(so_far, tag, input, depth)
            == (match message::unknown(tag, input, depth) {
            Ok((x, next)) => Ok::<(TrailersView, Input), Seq<char>>(
                (TrailersView { unknown: so_far.unknown.push(x), ..so_far }, next),
            ),
            Err(e) => Err(e),
        }),
{
}

/// An [`End`] is these bytes: its fields in order, each under its number, and what is
/// not known behind them.
pub proof fn ends_are_these_bytes(value: EndView)
    ensures
        message::encoding::<End>(value) == unknown_part(value.unknown),
{
    unknown_fields_are_parts(value.unknown);
}

/// What one field makes of an [`End`] is decided by its number: a known one is read as
/// what it is, sets just its own field, and is an error where it cannot be read; any other
/// is kept behind the unknown ones before it, and changes nothing else.
pub proof fn a_number_decides_what_an_end_reads(so_far: EndView, tag: Tag, input: Input, depth: u32)
    ensures
        End::merged(so_far, tag, input, depth)
            == (match message::unknown(tag, input, depth) {
            Ok((x, next)) => Ok::<(EndView, Input), Seq<char>>(
                (EndView { unknown: so_far.unknown.push(x) }, next),
            ),
            Err(e) => Err(e),
        }),
{
}

/// A [`StartRequest`] is these bytes: its fields in order, each under its number, and what is
/// not known behind them.
pub proof fn start_requests_are_these_bytes(value: StartRequestView)
    ensures
        message::encoding::<StartRequest>(value) == integer_part(0x08, value.call_id)
            + text_part(0x12, value.url)
            + text_part(0x1a, value.method)
            + headers_part(0x22, value.headers)
            + blob_part(0x2a, value.body)
            + flag_part(0x30, value.streaming_request)
            + text_part(0x3a, value.channel)
            + unknown_part(value.unknown),
{
    parts_are_fields(1, value.call_id, Seq::empty(), Seq::empty(), false);
    parts_are_fields(2, 0, Seq::empty(), value.url, false);
    parts_are_fields(3, 0, Seq::empty(), value.method, false);
    header_fields_are_parts(4, value.headers);
    parts_are_fields(5, 0, value.body, Seq::empty(), false);
    parts_are_fields(6, 0, Seq::empty(), Seq::empty(), value.streaming_request);
    parts_are_fields(7, 0, Seq::empty(), value.channel, false);
    unknown_fields_are_parts(value.unknown);
    let f0 = message::integer_field(1, value.call_id);
    let f1 = f0 + message::text_field(2, value.url);
    message::fields_bytes_add(f0, message::text_field(2, value.url));
    let f2 = f1 + message::text_field(3, value.method);
    message::fields_bytes_add(f1, message::text_field(3, value.method));
    let f3 = f2 + crate::wire::header_fields(4, value.headers);
    message::fields_bytes_add(f2, crate::wire::header_fields(4, value.headers));
    let f4 = f3 + message::blob_field(5, value.body);
    message::fields_bytes_add(f3, message::blob_field(5, value.body));
    let f5 = f4 + message::integer_field(6, message::flag_value(value.streaming_request));
    message::fields_bytes_add(
        f4,
        message::integer_field(6, message::flag_value(value.streaming_request)),
    );
    let f6 = f5 + message::text_field(7, value.channel);
    message::fields_bytes_add(f5, message::text_field(7, value.channel));
    let f7 = f6 + message::unknown_fields(value.unknown);
    message::fields_bytes_add(f6, message::unknown_fields(value.unknown));
    assert(StartRequest::fields(value) =~= f7);
}

/// Which number stands for which field of a [`StartRequest`]: read next, wherever it lies and
/// whatever has been read before, a field under its number sets just that field, to
/// what its bytes say.
pub proof fn start_request_fields_have_these_numbers(
    so_far: StartRequestView,
    call_id: u64,
    url: Seq<char>,
    method: Seq<char>,
    header: HeaderView,
    body: Seq<u8>,
    streaming_request: u64,
    channel: Seq<char>,
    depth: u32,
)
    requires
        blob_bytes(0x12, encode_utf8(url)).len() <= protobuf::MAX_MESSAGE_BYTES,
        blob_bytes(0x1a, encode_utf8(method)).len() <= protobuf::MAX_MESSAGE_BYTES,
        blob_bytes(0x22, header_bytes(header)).len() <= protobuf::MAX_MESSAGE_BYTES,
        blob_bytes(0x2a, body).len() <= protobuf::MAX_MESSAGE_BYTES,
        blob_bytes(0x3a, encode_utf8(channel)).len() <= protobuf::MAX_MESSAGE_BYTES,
        depth > 0,
        Header::sound(header, (depth - 1) as u32),
    ensures
        message::turns::<StartRequest>(
            so_far,
            integer_bytes(0x08, call_id),
            Cost::nothing(),
            StartRequestView { call_id, ..so_far },
            depth,
        ),
        message::turns::<StartRequest>(
            so_far,
            blob_bytes(0x12, encode_utf8(url)),
            Cost::nothing(),
            StartRequestView { url, ..so_far },
            depth,
        ),
        message::turns::<StartRequest>(
            so_far,
            blob_bytes(0x1a, encode_utf8(method)),
            Cost::nothing(),
            StartRequestView { method, ..so_far },
            depth,
        ),
        message::turns::<StartRequest>(
            so_far,
            blob_bytes(0x22, header_bytes(header)),
            message::element_cost::<Header>(header, depth),
            StartRequestView { headers: so_far.headers.push(header), ..so_far },
            depth,
        ),
        message::turns::<StartRequest>(
            so_far,
            blob_bytes(0x2a, body),
            Cost::nothing(),
            StartRequestView { body, ..so_far },
            depth,
        ),
        message::turns::<StartRequest>(
            so_far,
            integer_bytes(0x30, streaming_request),
            Cost::nothing(),
            StartRequestView { streaming_request: streaming_request != 0, ..so_far },
            depth,
        ),
        message::turns::<StartRequest>(
            so_far,
            blob_bytes(0x3a, encode_utf8(channel)),
            Cost::nothing(),
            StartRequestView { channel, ..so_far },
            depth,
        ),
{
    headers_are_these_bytes(header);
    heads_are_single_bytes(1, call_id, Seq::empty());
    message::integer_reads::<StartRequest>(
        1,
        call_id,
        so_far,
        |x: u64| StartRequestView { call_id: x, ..so_far },
        depth,
    );
    message::a_field_turns::<StartRequest>(
        so_far,
        Field::Integer { number: 1, value: call_id },
        integer_bytes(0x08, call_id),
        Cost::nothing(),
        StartRequestView { call_id, ..so_far },
        depth,
    );
    heads_are_single_bytes(2, 0, encode_utf8(url));
    message::fields_bytes_one(Field::Payload { number: 2, bytes: encode_utf8(url) });
    message::text_reads::<StartRequest>(
        2,
        url,
        so_far,
        |x: Seq<char>| StartRequestView { url: x, ..so_far },
        depth,
    );
    message::a_field_turns::<StartRequest>(
        so_far,
        Field::Payload { number: 2, bytes: encode_utf8(url) },
        blob_bytes(0x12, encode_utf8(url)),
        Cost::nothing(),
        StartRequestView { url, ..so_far },
        depth,
    );
    heads_are_single_bytes(3, 0, encode_utf8(method));
    message::fields_bytes_one(Field::Payload { number: 3, bytes: encode_utf8(method) });
    message::text_reads::<StartRequest>(
        3,
        method,
        so_far,
        |x: Seq<char>| StartRequestView { method: x, ..so_far },
        depth,
    );
    message::a_field_turns::<StartRequest>(
        so_far,
        Field::Payload { number: 3, bytes: encode_utf8(method) },
        blob_bytes(0x1a, encode_utf8(method)),
        Cost::nothing(),
        StartRequestView { method, ..so_far },
        depth,
    );
    heads_are_single_bytes(4, 0, header_bytes(header));
    message::fields_bytes_one(Field::Payload { number: 4, bytes: header_bytes(header) });
    message::element_reads::<StartRequest, Header>(
        4,
        header,
        so_far,
        |x: HeaderView| StartRequestView { headers: so_far.headers.push(x), ..so_far },
        depth,
    );
    message::a_field_turns::<StartRequest>(
        so_far,
        Field::Payload { number: 4, bytes: header_bytes(header) },
        blob_bytes(0x22, header_bytes(header)),
        message::element_cost::<Header>(header, depth),
        StartRequestView { headers: so_far.headers.push(header), ..so_far },
        depth,
    );
    heads_are_single_bytes(5, 0, body);
    message::fields_bytes_one(Field::Payload { number: 5, bytes: body });
    message::blob_reads::<StartRequest>(
        5,
        body,
        so_far,
        |x: Seq<u8>| StartRequestView { body: x, ..so_far },
        depth,
    );
    message::a_field_turns::<StartRequest>(
        so_far,
        Field::Payload { number: 5, bytes: body },
        blob_bytes(0x2a, body),
        Cost::nothing(),
        StartRequestView { body, ..so_far },
        depth,
    );
    heads_are_single_bytes(6, streaming_request, Seq::empty());
    message::integer_reads::<StartRequest>(
        6,
        streaming_request,
        so_far,
        |x: u64| StartRequestView { streaming_request: x != 0, ..so_far },
        depth,
    );
    message::a_field_turns::<StartRequest>(
        so_far,
        Field::Integer { number: 6, value: streaming_request },
        integer_bytes(0x30, streaming_request),
        Cost::nothing(),
        StartRequestView { streaming_request: streaming_request != 0, ..so_far },
        depth,
    );
    heads_are_single_bytes(7, 0, encode_utf8(channel));
    message::fields_bytes_one(Field::Payload { number: 7, bytes: encode_utf8(channel) });
    message::text_reads::<StartRequest>(
        7,
        channel,
        so_far,
        |x: Seq<char>| StartRequestView { channel: x, ..so_far },
        depth,
    );
    message::a_field_turns::<StartRequest>(
        so_far,
        Field::Payload { number: 7, bytes: encode_utf8(channel) },
        blob_bytes(0x3a, encode_utf8(channel)),
        Cost::nothing(),
        StartRequestView { channel, ..so_far },
        depth,
    );
}

/// A payload that is one field of a [`StartRequest`] says just that field, and every other one is
/// blank.
pub proof fn one_start_request_field_says_just_that(
    call_id: u64,
    url: Seq<char>,
    method: Seq<char>,
    header: HeaderView,
    body: Seq<u8>,
    streaming_request: u64,
    channel: Seq<char>,
)
    requires
        blob_bytes(0x12, encode_utf8(url)).len() <= protobuf::MAX_MESSAGE_BYTES,
        blob_bytes(0x1a, encode_utf8(method)).len() <= protobuf::MAX_MESSAGE_BYTES,
        blob_bytes(0x22, header_bytes(header)).len() <= protobuf::MAX_MESSAGE_BYTES,
        blob_bytes(0x2a, body).len() <= protobuf::MAX_MESSAGE_BYTES,
        blob_bytes(0x3a, encode_utf8(channel)).len() <= protobuf::MAX_MESSAGE_BYTES,
        header.unknown.len() == 0,
        layout::size_of::<Header>() <= protobuf::ELEMENT_MEMORY_LIMIT,
    ensures
        message::decoding::<StartRequest>(integer_bytes(0x08, call_id)) == Ok::<
            StartRequestView,
            Seq<char>,
        >(
            StartRequestView {
                call_id,
                url: Seq::empty(),
                method: Seq::empty(),
                headers: Seq::empty(),
                body: Seq::empty(),
                streaming_request: false,
                channel: Seq::empty(),
                unknown: Seq::empty(),
            },
        ),
        message::decoding::<StartRequest>(blob_bytes(0x12, encode_utf8(url))) == Ok::<
            StartRequestView,
            Seq<char>,
        >(
            StartRequestView {
                call_id: 0,
                url,
                method: Seq::empty(),
                headers: Seq::empty(),
                body: Seq::empty(),
                streaming_request: false,
                channel: Seq::empty(),
                unknown: Seq::empty(),
            },
        ),
        message::decoding::<StartRequest>(blob_bytes(0x1a, encode_utf8(method))) == Ok::<
            StartRequestView,
            Seq<char>,
        >(
            StartRequestView {
                call_id: 0,
                url: Seq::empty(),
                method,
                headers: Seq::empty(),
                body: Seq::empty(),
                streaming_request: false,
                channel: Seq::empty(),
                unknown: Seq::empty(),
            },
        ),
        message::decoding::<StartRequest>(blob_bytes(0x22, header_bytes(header))) == Ok::<
            StartRequestView,
            Seq<char>,
        >(
            StartRequestView {
                call_id: 0,
                url: Seq::empty(),
                method: Seq::empty(),
                headers: Seq::<HeaderView>::empty().push(header),
                body: Seq::empty(),
                streaming_request: false,
                channel: Seq::empty(),
                unknown: Seq::empty(),
            },
        ),
        message::decoding::<StartRequest>(blob_bytes(0x2a, body)) == Ok::<
            StartRequestView,
            Seq<char>,
        >(
            StartRequestView {
                call_id: 0,
                url: Seq::empty(),
                method: Seq::empty(),
                headers: Seq::empty(),
                body,
                streaming_request: false,
                channel: Seq::empty(),
                unknown: Seq::empty(),
            },
        ),
        message::decoding::<StartRequest>(integer_bytes(0x30, streaming_request)) == Ok::<
            StartRequestView,
            Seq<char>,
        >(
            StartRequestView {
                call_id: 0,
                url: Seq::empty(),
                method: Seq::empty(),
                headers: Seq::empty(),
                body: Seq::empty(),
                streaming_request: streaming_request != 0,
                channel: Seq::empty(),
                unknown: Seq::empty(),
            },
        ),
        message::decoding::<StartRequest>(blob_bytes(0x3a, encode_utf8(channel))) == Ok::<
            StartRequestView,
            Seq<char>,
        >(
            StartRequestView {
                call_id: 0,
                url: Seq::empty(),
                method: Seq::empty(),
                headers: Seq::empty(),
                body: Seq::empty(),
                streaming_request: false,
                channel,
                unknown: Seq::empty(),
            },
        ),
{
    let blank = StartRequest::blank();
    let depth = protobuf::RECURSION_LIMIT;
    start_request_fields_have_these_numbers(
        blank,
        call_id,
        url,
        method,
        header,
        body,
        streaming_request,
        channel,
        depth,
    );
    message::what_turns_a_blank_message_is_decoded::<StartRequest>(
        integer_bytes(0x08, call_id),
        Cost::nothing(),
        StartRequestView { call_id, ..blank },
    );
    message::what_turns_a_blank_message_is_decoded::<StartRequest>(
        blob_bytes(0x12, encode_utf8(url)),
        Cost::nothing(),
        StartRequestView { url, ..blank },
    );
    message::what_turns_a_blank_message_is_decoded::<StartRequest>(
        blob_bytes(0x1a, encode_utf8(method)),
        Cost::nothing(),
        StartRequestView { method, ..blank },
    );
    message::what_turns_a_blank_message_is_decoded::<StartRequest>(
        blob_bytes(0x22, header_bytes(header)),
        message::element_cost::<Header>(header, depth),
        StartRequestView { headers: blank.headers.push(header), ..blank },
    );
    message::what_turns_a_blank_message_is_decoded::<StartRequest>(
        blob_bytes(0x2a, body),
        Cost::nothing(),
        StartRequestView { body, ..blank },
    );
    message::what_turns_a_blank_message_is_decoded::<StartRequest>(
        integer_bytes(0x30, streaming_request),
        Cost::nothing(),
        StartRequestView { streaming_request: streaming_request != 0, ..blank },
    );
    message::what_turns_a_blank_message_is_decoded::<StartRequest>(
        blob_bytes(0x3a, encode_utf8(channel)),
        Cost::nothing(),
        StartRequestView { channel, ..blank },
    );
}

/// What one field makes of a [`StartRequest`] is decided by its number: a known one is read as
/// what it is, sets just its own field, and is an error where it cannot be read; any other
/// is kept behind the unknown ones before it, and changes nothing else.
pub proof fn a_number_decides_what_a_start_request_reads(
    so_far: StartRequestView,
    tag: Tag,
    input: Input,
    depth: u32,
)
    ensures
        tag.number == 1 ==> StartRequest::merged(so_far, tag, input, depth)
            == (match message::integer(tag, input) {
            Ok((x, next)) => Ok::<(StartRequestView, Input), Seq<char>>(
                (StartRequestView { call_id: x, ..so_far }, next),
            ),
            Err(e) => Err(e),
        }),
        tag.number == 2 ==> StartRequest::merged(so_far, tag, input, depth)
            == (match message::text(tag, input) {
            Ok((x, next)) => Ok::<(StartRequestView, Input), Seq<char>>(
                (StartRequestView { url: x, ..so_far }, next),
            ),
            Err(e) => Err(e),
        }),
        tag.number == 3 ==> StartRequest::merged(so_far, tag, input, depth)
            == (match message::text(tag, input) {
            Ok((x, next)) => Ok::<(StartRequestView, Input), Seq<char>>(
                (StartRequestView { method: x, ..so_far }, next),
            ),
            Err(e) => Err(e),
        }),
        tag.number == 4 ==> StartRequest::merged(so_far, tag, input, depth)
            == (match message::element::<Header>(tag, input, depth) {
            Ok((x, next)) => Ok::<(StartRequestView, Input), Seq<char>>(
                (StartRequestView { headers: so_far.headers.push(x), ..so_far }, next),
            ),
            Err(e) => Err(e),
        }),
        tag.number == 5 ==> StartRequest::merged(so_far, tag, input, depth)
            == (match message::blob(tag, input) {
            Ok((x, next)) => Ok::<(StartRequestView, Input), Seq<char>>(
                (StartRequestView { body: x, ..so_far }, next),
            ),
            Err(e) => Err(e),
        }),
        tag.number == 6 ==> StartRequest::merged(so_far, tag, input, depth)
            == (match message::integer(tag, input) {
            Ok((x, next)) => Ok::<(StartRequestView, Input), Seq<char>>(
                (StartRequestView { streaming_request: x != 0, ..so_far }, next),
            ),
            Err(e) => Err(e),
        }),
        tag.number == 7 ==> StartRequest::merged(so_far, tag, input, depth)
            == (match message::text(tag, input) {
            Ok((x, next)) => Ok::<(StartRequestView, Input), Seq<char>>(
                (StartRequestView { channel: x, ..so_far }, next),
            ),
            Err(e) => Err(e),
        }),
        !(1 <= tag.number <= 7) ==> StartRequest::merged(so_far, tag, input, depth)
            == (match message::unknown(tag, input, depth) {
            Ok((x, next)) => Ok::<(StartRequestView, Input), Seq<char>>(
                (StartRequestView { unknown: so_far.unknown.push(x), ..so_far }, next),
            ),
            Err(e) => Err(e),
        }),
{
}

/// A [`SendRequest`] is these bytes: its fields in order, each under its number, and what is
/// not known behind them.
pub proof fn send_requests_are_these_bytes(value: SendRequestView)
    ensures
        message::encoding::<SendRequest>(value) == integer_part(0x08, value.call_id)
            + blob_part(0x12, value.chunk)
            + flag_part(0x18, value.end_of_stream)
            + unknown_part(value.unknown),
{
    parts_are_fields(1, value.call_id, Seq::empty(), Seq::empty(), false);
    parts_are_fields(2, 0, value.chunk, Seq::empty(), false);
    parts_are_fields(3, 0, Seq::empty(), Seq::empty(), value.end_of_stream);
    unknown_fields_are_parts(value.unknown);
    let f0 = message::integer_field(1, value.call_id);
    let f1 = f0 + message::blob_field(2, value.chunk);
    message::fields_bytes_add(f0, message::blob_field(2, value.chunk));
    let f2 = f1 + message::integer_field(3, message::flag_value(value.end_of_stream));
    message::fields_bytes_add(
        f1,
        message::integer_field(3, message::flag_value(value.end_of_stream)),
    );
    let f3 = f2 + message::unknown_fields(value.unknown);
    message::fields_bytes_add(f2, message::unknown_fields(value.unknown));
    assert(SendRequest::fields(value) =~= f3);
}

/// Which number stands for which field of a [`SendRequest`]: read next, wherever it lies and
/// whatever has been read before, a field under its number sets just that field, to
/// what its bytes say.
pub proof fn send_request_fields_have_these_numbers(
    so_far: SendRequestView,
    call_id: u64,
    chunk: Seq<u8>,
    end_of_stream: u64,
    depth: u32,
)
    requires
        blob_bytes(0x12, chunk).len() <= protobuf::MAX_MESSAGE_BYTES,
    ensures
        message::turns::<SendRequest>(
            so_far,
            integer_bytes(0x08, call_id),
            Cost::nothing(),
            SendRequestView { call_id, ..so_far },
            depth,
        ),
        message::turns::<SendRequest>(
            so_far,
            blob_bytes(0x12, chunk),
            Cost::nothing(),
            SendRequestView { chunk, ..so_far },
            depth,
        ),
        message::turns::<SendRequest>(
            so_far,
            integer_bytes(0x18, end_of_stream),
            Cost::nothing(),
            SendRequestView { end_of_stream: end_of_stream != 0, ..so_far },
            depth,
        ),
{
    heads_are_single_bytes(1, call_id, Seq::empty());
    message::integer_reads::<SendRequest>(
        1,
        call_id,
        so_far,
        |x: u64| SendRequestView { call_id: x, ..so_far },
        depth,
    );
    message::a_field_turns::<SendRequest>(
        so_far,
        Field::Integer { number: 1, value: call_id },
        integer_bytes(0x08, call_id),
        Cost::nothing(),
        SendRequestView { call_id, ..so_far },
        depth,
    );
    heads_are_single_bytes(2, 0, chunk);
    message::fields_bytes_one(Field::Payload { number: 2, bytes: chunk });
    message::blob_reads::<SendRequest>(
        2,
        chunk,
        so_far,
        |x: Seq<u8>| SendRequestView { chunk: x, ..so_far },
        depth,
    );
    message::a_field_turns::<SendRequest>(
        so_far,
        Field::Payload { number: 2, bytes: chunk },
        blob_bytes(0x12, chunk),
        Cost::nothing(),
        SendRequestView { chunk, ..so_far },
        depth,
    );
    heads_are_single_bytes(3, end_of_stream, Seq::empty());
    message::integer_reads::<SendRequest>(
        3,
        end_of_stream,
        so_far,
        |x: u64| SendRequestView { end_of_stream: x != 0, ..so_far },
        depth,
    );
    message::a_field_turns::<SendRequest>(
        so_far,
        Field::Integer { number: 3, value: end_of_stream },
        integer_bytes(0x18, end_of_stream),
        Cost::nothing(),
        SendRequestView { end_of_stream: end_of_stream != 0, ..so_far },
        depth,
    );
}

/// A payload that is one field of a [`SendRequest`] says just that field, and every other one is
/// blank.
pub proof fn one_send_request_field_says_just_that(
    call_id: u64,
    chunk: Seq<u8>,
    end_of_stream: u64,
)
    requires
        blob_bytes(0x12, chunk).len() <= protobuf::MAX_MESSAGE_BYTES,
    ensures
        message::decoding::<SendRequest>(integer_bytes(0x08, call_id)) == Ok::<
            SendRequestView,
            Seq<char>,
        >(
            SendRequestView {
                call_id,
                chunk: Seq::empty(),
                end_of_stream: false,
                unknown: Seq::empty(),
            },
        ),
        message::decoding::<SendRequest>(blob_bytes(0x12, chunk)) == Ok::<
            SendRequestView,
            Seq<char>,
        >(
            SendRequestView { call_id: 0, chunk, end_of_stream: false, unknown: Seq::empty() },
        ),
        message::decoding::<SendRequest>(integer_bytes(0x18, end_of_stream)) == Ok::<
            SendRequestView,
            Seq<char>,
        >(
            SendRequestView {
                call_id: 0,
                chunk: Seq::empty(),
                end_of_stream: end_of_stream != 0,
                unknown: Seq::empty(),
            },
        ),
{
    let blank = SendRequest::blank();
    let depth = protobuf::RECURSION_LIMIT;
    send_request_fields_have_these_numbers(blank, call_id, chunk, end_of_stream, depth);
    message::what_turns_a_blank_message_is_decoded::<SendRequest>(
        integer_bytes(0x08, call_id),
        Cost::nothing(),
        SendRequestView { call_id, ..blank },
    );
    message::what_turns_a_blank_message_is_decoded::<SendRequest>(
        blob_bytes(0x12, chunk),
        Cost::nothing(),
        SendRequestView { chunk, ..blank },
    );
    message::what_turns_a_blank_message_is_decoded::<SendRequest>(
        integer_bytes(0x18, end_of_stream),
        Cost::nothing(),
        SendRequestView { end_of_stream: end_of_stream != 0, ..blank },
    );
}

/// What one field makes of a [`SendRequest`] is decided by its number: a known one is read as
/// what it is, sets just its own field, and is an error where it cannot be read; any other
/// is kept behind the unknown ones before it, and changes nothing else.
pub proof fn a_number_decides_what_a_send_request_reads(
    so_far: SendRequestView,
    tag: Tag,
    input: Input,
    depth: u32,
)
    ensures
        tag.number == 1 ==> SendRequest::merged(so_far, tag, input, depth)
            == (match message::integer(tag, input) {
            Ok((x, next)) => Ok::<(SendRequestView, Input), Seq<char>>(
                (SendRequestView { call_id: x, ..so_far }, next),
            ),
            Err(e) => Err(e),
        }),
        tag.number == 2 ==> SendRequest::merged(so_far, tag, input, depth)
            == (match message::blob(tag, input) {
            Ok((x, next)) => Ok::<(SendRequestView, Input), Seq<char>>(
                (SendRequestView { chunk: x, ..so_far }, next),
            ),
            Err(e) => Err(e),
        }),
        tag.number == 3 ==> SendRequest::merged(so_far, tag, input, depth)
            == (match message::integer(tag, input) {
            Ok((x, next)) => Ok::<(SendRequestView, Input), Seq<char>>(
                (SendRequestView { end_of_stream: x != 0, ..so_far }, next),
            ),
            Err(e) => Err(e),
        }),
        !(1 <= tag.number <= 3) ==> SendRequest::merged(so_far, tag, input, depth)
            == (match message::unknown(tag, input, depth) {
            Ok((x, next)) => Ok::<(SendRequestView, Input), Seq<char>>(
                (SendRequestView { unknown: so_far.unknown.push(x), ..so_far }, next),
            ),
            Err(e) => Err(e),
        }),
{
}

/// A [`CancelRequest`] is these bytes: its fields in order, each under its number, and what is
/// not known behind them.
pub proof fn cancel_requests_are_these_bytes(value: CancelRequestView)
    ensures
        message::encoding::<CancelRequest>(value) == integer_part(0x08, value.call_id)
            + unknown_part(value.unknown),
{
    parts_are_fields(1, value.call_id, Seq::empty(), Seq::empty(), false);
    unknown_fields_are_parts(value.unknown);
    let f0 = message::integer_field(1, value.call_id);
    let f1 = f0 + message::unknown_fields(value.unknown);
    message::fields_bytes_add(f0, message::unknown_fields(value.unknown));
    assert(CancelRequest::fields(value) =~= f1);
}

/// Which number stands for which field of a [`CancelRequest`]: read next, wherever it lies and
/// whatever has been read before, a field under its number sets just that field, to
/// what its bytes say.
pub proof fn cancel_request_fields_have_these_numbers(
    so_far: CancelRequestView,
    call_id: u64,
    depth: u32,
)
    ensures
        message::turns::<CancelRequest>(
            so_far,
            integer_bytes(0x08, call_id),
            Cost::nothing(),
            CancelRequestView { call_id, ..so_far },
            depth,
        ),
{
    heads_are_single_bytes(1, call_id, Seq::empty());
    message::integer_reads::<CancelRequest>(
        1,
        call_id,
        so_far,
        |x: u64| CancelRequestView { call_id: x, ..so_far },
        depth,
    );
    message::a_field_turns::<CancelRequest>(
        so_far,
        Field::Integer { number: 1, value: call_id },
        integer_bytes(0x08, call_id),
        Cost::nothing(),
        CancelRequestView { call_id, ..so_far },
        depth,
    );
}

/// A payload that is one field of a [`CancelRequest`] says just that field, and every other one is
/// blank.
pub proof fn one_cancel_request_field_says_just_that(
    call_id: u64,
)
    ensures
        message::decoding::<CancelRequest>(integer_bytes(0x08, call_id)) == Ok::<
            CancelRequestView,
            Seq<char>,
        >(
            CancelRequestView { call_id, unknown: Seq::empty() },
        ),
{
    let blank = CancelRequest::blank();
    let depth = protobuf::RECURSION_LIMIT;
    cancel_request_fields_have_these_numbers(blank, call_id, depth);
    message::what_turns_a_blank_message_is_decoded::<CancelRequest>(
        integer_bytes(0x08, call_id),
        Cost::nothing(),
        CancelRequestView { call_id, ..blank },
    );
}

/// What one field makes of a [`CancelRequest`] is decided by its number: a known one is read as
/// what it is, sets just its own field, and is an error where it cannot be read; any other
/// is kept behind the unknown ones before it, and changes nothing else.
pub proof fn a_number_decides_what_a_cancel_request_reads(
    so_far: CancelRequestView,
    tag: Tag,
    input: Input,
    depth: u32,
)
    ensures
        tag.number == 1 ==> CancelRequest::merged(so_far, tag, input, depth)
            == (match message::integer(tag, input) {
            Ok((x, next)) => Ok::<(CancelRequestView, Input), Seq<char>>(
                (CancelRequestView { call_id: x, ..so_far }, next),
            ),
            Err(e) => Err(e),
        }),
        tag.number != 1 ==> CancelRequest::merged(so_far, tag, input, depth)
            == (match message::unknown(tag, input, depth) {
            Ok((x, next)) => Ok::<(CancelRequestView, Input), Seq<char>>(
                (CancelRequestView { unknown: so_far.unknown.push(x), ..so_far }, next),
            ),
            Err(e) => Err(e),
        }),
{
}

/// A [`ResponseHead`] is these bytes: its fields in order, each under its number, and what is
/// not known behind them.
pub proof fn response_heads_are_these_bytes(value: ResponseHeadView)
    ensures
        message::encoding::<ResponseHead>(value) == integer_part(0x08, value.status as u64)
            + headers_part(0x12, value.headers)
            + blob_part(0x1a, value.body)
            + unknown_part(value.unknown),
{
    parts_are_fields(1, value.status as u64, Seq::empty(), Seq::empty(), false);
    header_fields_are_parts(2, value.headers);
    parts_are_fields(3, 0, value.body, Seq::empty(), false);
    unknown_fields_are_parts(value.unknown);
    let f0 = message::integer_field(1, value.status as u64);
    let f1 = f0 + crate::wire::header_fields(2, value.headers);
    message::fields_bytes_add(f0, crate::wire::header_fields(2, value.headers));
    let f2 = f1 + message::blob_field(3, value.body);
    message::fields_bytes_add(f1, message::blob_field(3, value.body));
    let f3 = f2 + message::unknown_fields(value.unknown);
    message::fields_bytes_add(f2, message::unknown_fields(value.unknown));
    assert(ResponseHead::fields(value) =~= f3);
}

/// Which number stands for which field of a [`ResponseHead`]: read next, wherever it lies and
/// whatever has been read before, a field under its number sets just that field, to
/// what its bytes say.
pub proof fn response_head_fields_have_these_numbers(
    so_far: ResponseHeadView,
    status: u64,
    header: HeaderView,
    body: Seq<u8>,
    depth: u32,
)
    requires
        blob_bytes(0x12, header_bytes(header)).len() <= protobuf::MAX_MESSAGE_BYTES,
        blob_bytes(0x1a, body).len() <= protobuf::MAX_MESSAGE_BYTES,
        depth > 0,
        Header::sound(header, (depth - 1) as u32),
    ensures
        message::turns::<ResponseHead>(
            so_far,
            integer_bytes(0x08, status),
            Cost::nothing(),
            ResponseHeadView { status: status as u32, ..so_far },
            depth,
        ),
        message::turns::<ResponseHead>(
            so_far,
            blob_bytes(0x12, header_bytes(header)),
            message::element_cost::<Header>(header, depth),
            ResponseHeadView { headers: so_far.headers.push(header), ..so_far },
            depth,
        ),
        message::turns::<ResponseHead>(
            so_far,
            blob_bytes(0x1a, body),
            Cost::nothing(),
            ResponseHeadView { body, ..so_far },
            depth,
        ),
{
    headers_are_these_bytes(header);
    heads_are_single_bytes(1, status, Seq::empty());
    message::integer_reads::<ResponseHead>(
        1,
        status,
        so_far,
        |x: u64| ResponseHeadView { status: x as u32, ..so_far },
        depth,
    );
    message::a_field_turns::<ResponseHead>(
        so_far,
        Field::Integer { number: 1, value: status },
        integer_bytes(0x08, status),
        Cost::nothing(),
        ResponseHeadView { status: status as u32, ..so_far },
        depth,
    );
    heads_are_single_bytes(2, 0, header_bytes(header));
    message::fields_bytes_one(Field::Payload { number: 2, bytes: header_bytes(header) });
    message::element_reads::<ResponseHead, Header>(
        2,
        header,
        so_far,
        |x: HeaderView| ResponseHeadView { headers: so_far.headers.push(x), ..so_far },
        depth,
    );
    message::a_field_turns::<ResponseHead>(
        so_far,
        Field::Payload { number: 2, bytes: header_bytes(header) },
        blob_bytes(0x12, header_bytes(header)),
        message::element_cost::<Header>(header, depth),
        ResponseHeadView { headers: so_far.headers.push(header), ..so_far },
        depth,
    );
    heads_are_single_bytes(3, 0, body);
    message::fields_bytes_one(Field::Payload { number: 3, bytes: body });
    message::blob_reads::<ResponseHead>(
        3,
        body,
        so_far,
        |x: Seq<u8>| ResponseHeadView { body: x, ..so_far },
        depth,
    );
    message::a_field_turns::<ResponseHead>(
        so_far,
        Field::Payload { number: 3, bytes: body },
        blob_bytes(0x1a, body),
        Cost::nothing(),
        ResponseHeadView { body, ..so_far },
        depth,
    );
}

/// A payload that is one field of a [`ResponseHead`] says just that field, and every other one is
/// blank.
pub proof fn one_response_head_field_says_just_that(
    status: u64,
    header: HeaderView,
    body: Seq<u8>,
)
    requires
        blob_bytes(0x12, header_bytes(header)).len() <= protobuf::MAX_MESSAGE_BYTES,
        blob_bytes(0x1a, body).len() <= protobuf::MAX_MESSAGE_BYTES,
        header.unknown.len() == 0,
        layout::size_of::<Header>() <= protobuf::ELEMENT_MEMORY_LIMIT,
    ensures
        message::decoding::<ResponseHead>(integer_bytes(0x08, status)) == Ok::<
            ResponseHeadView,
            Seq<char>,
        >(
            ResponseHeadView {
                status: status as u32,
                headers: Seq::empty(),
                body: Seq::empty(),
                unknown: Seq::empty(),
            },
        ),
        message::decoding::<ResponseHead>(blob_bytes(0x12, header_bytes(header))) == Ok::<
            ResponseHeadView,
            Seq<char>,
        >(
            ResponseHeadView {
                status: 0,
                headers: Seq::<HeaderView>::empty().push(header),
                body: Seq::empty(),
                unknown: Seq::empty(),
            },
        ),
        message::decoding::<ResponseHead>(blob_bytes(0x1a, body)) == Ok::<
            ResponseHeadView,
            Seq<char>,
        >(
            ResponseHeadView { status: 0, headers: Seq::empty(), body, unknown: Seq::empty() },
        ),
{
    let blank = ResponseHead::blank();
    let depth = protobuf::RECURSION_LIMIT;
    response_head_fields_have_these_numbers(blank, status, header, body, depth);
    message::what_turns_a_blank_message_is_decoded::<ResponseHead>(
        integer_bytes(0x08, status),
        Cost::nothing(),
        ResponseHeadView { status: status as u32, ..blank },
    );
    message::what_turns_a_blank_message_is_decoded::<ResponseHead>(
        blob_bytes(0x12, header_bytes(header)),
        message::element_cost::<Header>(header, depth),
        ResponseHeadView { headers: blank.headers.push(header), ..blank },
    );
    message::what_turns_a_blank_message_is_decoded::<ResponseHead>(
        blob_bytes(0x1a, body),
        Cost::nothing(),
        ResponseHeadView { body, ..blank },
    );
}

/// What one field makes of a [`ResponseHead`] is decided by its number: a known one is read as
/// what it is, sets just its own field, and is an error where it cannot be read; any other
/// is kept behind the unknown ones before it, and changes nothing else.
pub proof fn a_number_decides_what_a_response_head_reads(
    so_far: ResponseHeadView,
    tag: Tag,
    input: Input,
    depth: u32,
)
    ensures
        tag.number == 1 ==> ResponseHead::merged(so_far, tag, input, depth)
            == (match message::integer(tag, input) {
            Ok((x, next)) => Ok::<(ResponseHeadView, Input), Seq<char>>(
                (ResponseHeadView { status: x as u32, ..so_far }, next),
            ),
            Err(e) => Err(e),
        }),
        tag.number == 2 ==> ResponseHead::merged(so_far, tag, input, depth)
            == (match message::element::<Header>(tag, input, depth) {
            Ok((x, next)) => Ok::<(ResponseHeadView, Input), Seq<char>>(
                (ResponseHeadView { headers: so_far.headers.push(x), ..so_far }, next),
            ),
            Err(e) => Err(e),
        }),
        tag.number == 3 ==> ResponseHead::merged(so_far, tag, input, depth)
            == (match message::blob(tag, input) {
            Ok((x, next)) => Ok::<(ResponseHeadView, Input), Seq<char>>(
                (ResponseHeadView { body: x, ..so_far }, next),
            ),
            Err(e) => Err(e),
        }),
        !(1 <= tag.number <= 3) ==> ResponseHead::merged(so_far, tag, input, depth)
            == (match message::unknown(tag, input, depth) {
            Ok((x, next)) => Ok::<(ResponseHeadView, Input), Seq<char>>(
                (ResponseHeadView { unknown: so_far.unknown.push(x), ..so_far }, next),
            ),
            Err(e) => Err(e),
        }),
{
}

/// A message says what its fields hold.
pub proof fn messages_say_what_they_hold(
    header: Header,
    trailers: Trailers,
    end: End,
    start: StartRequest,
    send: SendRequest,
    cancel: CancelRequest,
    head: ResponseHead,
    frame: ResponseFrame,
)
    ensures
        header@.name == header.name@,
        header@.value == header.value@,
        header@.unknown == header.unknown_fields@.map_values(|field: message::UnknownField| field@),
        trailers@.headers == trailers.headers@.map_values(|header: Header| header@),
        trailers@.unknown == trailers.unknown_fields@.map_values(
            |field: message::UnknownField| field@,
        ),
        end@.unknown == end.unknown_fields@.map_values(|field: message::UnknownField| field@),
        start@.call_id == start.call_id,
        start@.url == start.url@,
        start@.method == start.method@,
        start@.headers == start.headers@.map_values(|header: Header| header@),
        start@.body == start.body@,
        start@.streaming_request == start.streaming_request,
        start@.channel == start.channel@,
        start@.unknown == start.unknown_fields@.map_values(|field: message::UnknownField| field@),
        send@.call_id == send.call_id,
        send@.chunk == send.chunk@,
        send@.end_of_stream == send.end_of_stream,
        send@.unknown == send.unknown_fields@.map_values(|field: message::UnknownField| field@),
        cancel@.call_id == cancel.call_id,
        cancel@.unknown == cancel.unknown_fields@.map_values(|field: message::UnknownField| field@),
        head@.status == head.status,
        head@.headers == head.headers@.map_values(|header: Header| header@),
        head@.body == head.body@,
        head@.unknown == head.unknown_fields@.map_values(|field: message::UnknownField| field@),
        frame@.unknown == frame.unknown_fields@.map_values(|field: message::UnknownField| field@),
        match frame.frame {
            None => frame@.frame is None,
            Some(Frame::Message(bytes)) => frame@.frame == Some(FrameView::Message(bytes@)),
            Some(Frame::Trailers(inner)) => frame@.frame == Some(FrameView::Trailers((*inner)@)),
            Some(Frame::Error(text)) => frame@.frame == Some(FrameView::Error(text@)),
            Some(Frame::End(inner)) => frame@.frame == Some(FrameView::End((*inner)@)),
        },
{
    assert(header@.unknown =~= header.unknown_fields@.map_values(
        |field: message::UnknownField| field@,
    ));
    assert(trailers@.headers =~= trailers.headers@.map_values(|header: Header| header@));
    assert(trailers@.unknown =~= trailers.unknown_fields@.map_values(
        |field: message::UnknownField| field@,
    ));
    assert(end@.unknown =~= end.unknown_fields@.map_values(
        |field: message::UnknownField| field@,
    ));
    assert(start@.headers =~= start.headers@.map_values(|header: Header| header@));
    assert(start@.unknown =~= start.unknown_fields@.map_values(
        |field: message::UnknownField| field@,
    ));
    assert(send@.unknown =~= send.unknown_fields@.map_values(
        |field: message::UnknownField| field@,
    ));
    assert(cancel@.unknown =~= cancel.unknown_fields@.map_values(
        |field: message::UnknownField| field@,
    ));
    assert(head@.headers =~= head.headers@.map_values(|header: Header| header@));
    assert(head@.unknown =~= head.unknown_fields@.map_values(
        |field: message::UnknownField| field@,
    ));
    assert(frame@.unknown =~= frame.unknown_fields@.map_values(
        |field: message::UnknownField| field@,
    ));
}

/// A [`ResponseFrame`] is these bytes: what it carries under the number of its kind, empty
/// or not, and what is not known behind it.
pub proof fn response_frames_are_these_bytes(value: ResponseFrameView)
    ensures
        message::encoding::<ResponseFrame>(value) == (match value.frame {
            None => Seq::empty(),
            Some(FrameView::Message(bytes)) => blob_bytes(0x0a, bytes),
            Some(FrameView::Trailers(trailers)) => blob_bytes(
                0x12,
                headers_part(0x0a, trailers.headers) + unknown_part(trailers.unknown),
            ),
            Some(FrameView::Error(text)) => blob_bytes(0x1a, encode_utf8(text)),
            Some(FrameView::End(mark)) => blob_bytes(0x22, unknown_part(mark.unknown)),
        }) + unknown_part(value.unknown),
{
    let f0 = crate::wire::frame_fields(value.frame);
    unknown_fields_are_parts(value.unknown);
    message::fields_bytes_add(f0, message::unknown_fields(value.unknown));
    match value.frame {
        None => {},
        Some(FrameView::Message(bytes)) => {
            heads_are_single_bytes(1, 0, bytes);
            message::fields_bytes_one(Field::Payload { number: 1, bytes });
        },
        Some(FrameView::Trailers(trailers)) => {
            trailers_are_these_bytes(trailers);
            let bytes = message::encoding::<Trailers>(trailers);
            heads_are_single_bytes(2, 0, bytes);
            message::fields_bytes_one(Field::Payload { number: 2, bytes });
        },
        Some(FrameView::Error(text)) => {
            heads_are_single_bytes(3, 0, encode_utf8(text));
            message::fields_bytes_one(Field::Payload { number: 3, bytes: encode_utf8(text) });
        },
        Some(FrameView::End(mark)) => {
            ends_are_these_bytes(mark);
            let bytes = message::encoding::<End>(mark);
            heads_are_single_bytes(4, 0, bytes);
            message::fields_bytes_one(Field::Payload { number: 4, bytes });
        },
    }
}

/// Which number stands for which kind of a [`ResponseFrame`]: read next, whatever has been
/// read before, a message and an error take the place of what was carried, with what
/// their bytes say.
pub proof fn response_frame_kinds_have_these_numbers(
    value: ResponseFrameView,
    bytes: Seq<u8>,
    text: Seq<char>,
    depth: u32,
)
    requires
        blob_bytes(0x0a, bytes).len() <= protobuf::MAX_MESSAGE_BYTES,
        blob_bytes(0x1a, encode_utf8(text)).len() <= protobuf::MAX_MESSAGE_BYTES,
    ensures
        message::turns::<ResponseFrame>(
            value,
            blob_bytes(0x0a, bytes),
            Cost::nothing(),
            ResponseFrameView { frame: Some(FrameView::Message(bytes)), ..value },
            depth,
        ),
        message::turns::<ResponseFrame>(
            value,
            blob_bytes(0x1a, encode_utf8(text)),
            Cost::nothing(),
            ResponseFrameView { frame: Some(FrameView::Error(text)), ..value },
            depth,
        ),
        message::decoding::<ResponseFrame>(blob_bytes(0x0a, bytes)) == Ok::<
            ResponseFrameView,
            Seq<char>,
        >(ResponseFrameView { frame: Some(FrameView::Message(bytes)), unknown: Seq::empty() }),
        message::decoding::<ResponseFrame>(blob_bytes(0x1a, encode_utf8(text))) == Ok::<
            ResponseFrameView,
            Seq<char>,
        >(ResponseFrameView { frame: Some(FrameView::Error(text)), unknown: Seq::empty() }),
{
    messages_and_errors_turn_a_frame(value, bytes, text, depth);
    let blank = ResponseFrame::blank();
    messages_and_errors_turn_a_frame(blank, bytes, text, protobuf::RECURSION_LIMIT);
    message::what_turns_a_blank_message_is_decoded::<ResponseFrame>(
        blob_bytes(0x0a, bytes),
        Cost::nothing(),
        ResponseFrameView { frame: Some(FrameView::Message(bytes)), ..blank },
    );
    message::what_turns_a_blank_message_is_decoded::<ResponseFrame>(
        blob_bytes(0x1a, encode_utf8(text)),
        Cost::nothing(),
        ResponseFrameView { frame: Some(FrameView::Error(text)), ..blank },
    );
}

proof fn messages_and_errors_turn_a_frame(
    value: ResponseFrameView,
    bytes: Seq<u8>,
    text: Seq<char>,
    depth: u32,
)
    requires
        blob_bytes(0x0a, bytes).len() <= protobuf::MAX_MESSAGE_BYTES,
        blob_bytes(0x1a, encode_utf8(text)).len() <= protobuf::MAX_MESSAGE_BYTES,
    ensures
        message::turns::<ResponseFrame>(
            value,
            blob_bytes(0x0a, bytes),
            Cost::nothing(),
            ResponseFrameView { frame: Some(FrameView::Message(bytes)), ..value },
            depth,
        ),
        message::turns::<ResponseFrame>(
            value,
            blob_bytes(0x1a, encode_utf8(text)),
            Cost::nothing(),
            ResponseFrameView { frame: Some(FrameView::Error(text)), ..value },
            depth,
        ),
{
    heads_are_single_bytes(1, 0, bytes);
    message::fields_bytes_one(Field::Payload { number: 1, bytes });
    message::blob_reads::<ResponseFrame>(
        1,
        bytes,
        value,
        |x: Seq<u8>| ResponseFrameView { frame: Some(FrameView::Message(x)), ..value },
        depth,
    );
    message::a_field_turns::<ResponseFrame>(
        value,
        Field::Payload { number: 1, bytes },
        blob_bytes(0x0a, bytes),
        Cost::nothing(),
        ResponseFrameView { frame: Some(FrameView::Message(bytes)), ..value },
        depth,
    );
    heads_are_single_bytes(3, 0, encode_utf8(text));
    message::fields_bytes_one(Field::Payload { number: 3, bytes: encode_utf8(text) });
    message::text_reads::<ResponseFrame>(
        3,
        text,
        value,
        |x: Seq<char>| ResponseFrameView { frame: Some(FrameView::Error(x)), ..value },
        depth,
    );
    message::a_field_turns::<ResponseFrame>(
        value,
        Field::Payload { number: 3, bytes: encode_utf8(text) },
        blob_bytes(0x1a, encode_utf8(text)),
        Cost::nothing(),
        ResponseFrameView { frame: Some(FrameView::Error(text)), ..value },
        depth,
    );
}

/// What one field makes of a [`ResponseFrame`] is decided by its number: a message, an
/// error, and trailers or an end mark behind another kind, take the place of what was
/// carried; trailers behind trailers, and an end mark behind one, are read into those; any
/// other field is kept behind the unknown ones before it, and changes nothing else.
pub proof fn a_number_decides_what_a_response_frame_reads(
    value: ResponseFrameView,
    tag: Tag,
    input: Input,
    depth: u32,
)
    ensures
        tag.number == 1 ==> ResponseFrame::merged(value, tag, input, depth) == (
        match message::blob(tag, input) {
            Ok((x, next)) => Ok::<(ResponseFrameView, Input), Seq<char>>(
                (ResponseFrameView { frame: Some(FrameView::Message(x)), ..value }, next),
            ),
            Err(e) => Err(e),
        }),
        tag.number == 2 ==> ResponseFrame::merged(value, tag, input, depth) == (
        match message::nested::<Trailers>(
            match value.frame {
                Some(FrameView::Trailers(trailers)) => trailers,
                _ => TrailersView { headers: Seq::empty(), unknown: Seq::empty() },
            },
            tag,
            input,
            depth,
        ) {
            Ok((x, next)) => Ok::<(ResponseFrameView, Input), Seq<char>>(
                (ResponseFrameView { frame: Some(FrameView::Trailers(x)), ..value }, next),
            ),
            Err(e) => Err(e),
        }),
        tag.number == 3 ==> ResponseFrame::merged(value, tag, input, depth) == (
        match message::text(tag, input) {
            Ok((x, next)) => Ok::<(ResponseFrameView, Input), Seq<char>>(
                (ResponseFrameView { frame: Some(FrameView::Error(x)), ..value }, next),
            ),
            Err(e) => Err(e),
        }),
        tag.number == 4 ==> ResponseFrame::merged(value, tag, input, depth) == (
        match message::nested::<End>(
            match value.frame {
                Some(FrameView::End(mark)) => mark,
                _ => EndView { unknown: Seq::empty() },
            },
            tag,
            input,
            depth,
        ) {
            Ok((x, next)) => Ok::<(ResponseFrameView, Input), Seq<char>>(
                (ResponseFrameView { frame: Some(FrameView::End(x)), ..value }, next),
            ),
            Err(e) => Err(e),
        }),
        !(1 <= tag.number <= 4) ==> ResponseFrame::merged(value, tag, input, depth)
            == (match message::unknown(tag, input, depth) {
            Ok((x, next)) => Ok::<(ResponseFrameView, Input), Seq<char>>(
                (ResponseFrameView { unknown: value.unknown.push(x), ..value }, next),
            ),
            Err(e) => Err(e),
        }),
{
}

/// Trailers and an end mark in a frame read back as what they are.
pub proof fn trailers_and_ends_read_back(trailers: TrailersView, depth: u32)
    requires
        depth >= 2,
        Trailers::sound(trailers, (depth - 1) as u32),
        blob_bytes(
            0x12,
            headers_part(0x0a, trailers.headers) + unknown_part(trailers.unknown),
        ).len() <= protobuf::MAX_MESSAGE_BYTES,
    ensures
        message::turns::<ResponseFrame>(
            ResponseFrameView { frame: None, unknown: Seq::empty() },
            blob_bytes(
                0x12,
                headers_part(0x0a, trailers.headers) + unknown_part(trailers.unknown),
            ),
            Trailers::cost(trailers, (depth - 1) as u32),
            ResponseFrameView {
                frame: Some(FrameView::Trailers(trailers)),
                unknown: Seq::empty(),
            },
            depth,
        ),
        message::turns::<ResponseFrame>(
            ResponseFrameView { frame: None, unknown: Seq::empty() },
            seq![0x22u8, 0u8],
            Cost::nothing(),
            ResponseFrameView {
                frame: Some(FrameView::End(EndView { unknown: Seq::empty() })),
                unknown: Seq::empty(),
            },
            depth,
        ),
{
    let blank = ResponseFrame::blank();
    let bytes = headers_part(0x0a, trailers.headers) + unknown_part(trailers.unknown);
    trailers_are_these_bytes(trailers);
    assert(message::encoding::<Trailers>(trailers) == bytes);
    heads_are_single_bytes(2, 0, bytes);
    message::fields_bytes_one(Field::Payload { number: 2, bytes });
    message::nested_field_reads::<ResponseFrame, Trailers>(
        2,
        trailers,
        blank,
        |x: TrailersView| ResponseFrameView { frame: Some(FrameView::Trailers(x)), ..blank },
        depth,
    );
    message::a_field_turns::<ResponseFrame>(
        blank,
        Field::Payload { number: 2, bytes },
        blob_bytes(0x12, bytes),
        Trailers::cost(trailers, (depth - 1) as u32),
        ResponseFrameView { frame: Some(FrameView::Trailers(trailers)), ..blank },
        depth,
    );
    let mark = EndView { unknown: Seq::empty() };
    let none = Seq::<u8>::empty();
    ends_are_these_bytes(mark);
    assert(message::encoding::<End>(mark) =~= none);
    heads_are_single_bytes(4, 0, none);
    assert(blob_bytes(0x22, none) =~= seq![0x22u8, 0u8]);
    message::fields_bytes_one(Field::Payload { number: 4, bytes: none });
    End::blank_is_sound((depth - 1) as u32);
    message::nested_field_reads::<ResponseFrame, End>(
        4,
        mark,
        blank,
        |x: EndView| ResponseFrameView { frame: Some(FrameView::End(x)), ..blank },
        depth,
    );
    message::a_field_turns::<ResponseFrame>(
        blank,
        Field::Payload { number: 4, bytes: none },
        seq![0x22u8, 0u8],
        Cost::nothing(),
        ResponseFrameView { frame: Some(FrameView::End(mark)), ..blank },
        depth,
    );
}

} // verus!
