//! The envelopes that cross the IPC boundary.
//!
//! A call starts with a [`StartRequest`], more of its request body follows in
//! [`SendRequest`]s, and a [`CancelRequest`] abandons it. The answer is a
//! [`ResponseHead`], and what streams behind it are [`ResponseFrame`]s.

use crate::message;
use crate::message::{Message, Reader };
use crate::protobuf::Tag;
use vstd::prelude::*;

pub mod numbers;
pub mod response_frame;

use response_frame::{Frame, FrameView };

verus! {

/// Field number of [`Header::name`].
pub const HEADER_NAME: u32 = 1;

/// Field number of [`Header::value`].
pub const HEADER_VALUE: u32 = 2;

/// Field number of [`Trailers::headers`].
pub const TRAILERS_HEADERS: u32 = 1;

/// Field number of [`StartRequest::call_id`].
pub const START_CALL_ID: u32 = 1;

/// Field number of [`StartRequest::url`].
pub const START_URL: u32 = 2;

/// Field number of [`StartRequest::method`].
pub const START_METHOD: u32 = 3;

/// Field number of [`StartRequest::headers`].
pub const START_HEADERS: u32 = 4;

/// Field number of [`StartRequest::body`].
pub const START_BODY: u32 = 5;

/// Field number of [`StartRequest::streaming_request`].
pub const START_STREAMING_REQUEST: u32 = 6;

/// Field number of [`StartRequest::channel`].
pub const START_CHANNEL: u32 = 7;

/// Field number of [`SendRequest::call_id`].
pub const SEND_CALL_ID: u32 = 1;

/// Field number of [`SendRequest::chunk`].
pub const SEND_CHUNK: u32 = 2;

/// Field number of [`SendRequest::end_of_stream`].
pub const SEND_END_OF_STREAM: u32 = 3;

/// Field number of [`CancelRequest::call_id`].
pub const CANCEL_CALL_ID: u32 = 1;

/// Field number of [`ResponseHead::status`].
pub const HEAD_STATUS: u32 = 1;

/// Field number of [`ResponseHead::headers`].
pub const HEAD_HEADERS: u32 = 2;

/// Field number of [`ResponseHead::body`].
pub const HEAD_BODY: u32 = 3;

/// Field number of [`Frame::Message`] in a [`ResponseFrame`].
pub const FRAME_MESSAGE: u32 = 1;

/// Field number of [`Frame::Trailers`] in a [`ResponseFrame`].
pub const FRAME_TRAILERS: u32 = 2;

/// Field number of [`Frame::Error`] in a [`ResponseFrame`].
pub const FRAME_ERROR: u32 = 3;

/// Field number of [`Frame::End`] in a [`ResponseFrame`].
pub const FRAME_END: u32 = 4;

/// What some headers say.
pub open spec fn header_views(headers: Seq<Header>) -> Seq<HeaderView> {
    Seq::new(headers.len(), |i: int| headers[i]@)
}

/// One field for each header.
pub open spec fn header_fields(number: u32, headers: Seq<HeaderView>) -> Seq<message::Field> {
    Seq::new(
        headers.len(),
        |i: int|
            message::Field::Payload { number, bytes: message::encoding::<Header>(headers[i]) },
    )
}

/// One HTTP header.
#[derive(Clone, Debug, Default, PartialEq)]
pub struct Header {
    /// The name.
    pub name: String,
    /// The value.
    pub value: String,
    /// Fields that the message does not know, in the order in which they came.
    pub unknown_fields: Vec<message::UnknownField>,
}

/// What a [`Header`] says.
#[verifier::ext_equal]
pub struct HeaderView {
    pub name: Seq<char>,
    pub value: Seq<char>,
    pub unknown: Seq<message::UnknownView>,
}

impl View for Header {
    type V = HeaderView;

    open spec fn view(&self) -> HeaderView {
        HeaderView {
            name: self.name@,
            value: self.value@,
            unknown: message::unknown_views(self.unknown_fields@),
        }
    }
}

impl Message for Header {
    open spec fn blank() -> HeaderView {
        HeaderView { name: Seq::empty(), value: Seq::empty(), unknown: Seq::empty() }
    }

    open spec fn fields(value: HeaderView) -> Seq<message::Field> {
        message::text_field(HEADER_NAME, value.name)
            + message::text_field(HEADER_VALUE, value.value)
            + message::unknown_fields(value.unknown)
    }

    open spec fn merged(
        value: HeaderView,
        tag: Tag,
        input: message::Input,
        depth: u32,
    ) -> message::Read<HeaderView> {
        if tag.number == HEADER_NAME {
            match message::text(tag, input) {
                Ok((x, next)) => Ok((HeaderView { name: x, ..value }, next)),
                Err(e) => Err(e),
            }
        } else if tag.number == HEADER_VALUE {
            match message::text(tag, input) {
                Ok((x, next)) => Ok((HeaderView { value: x, ..value }, next)),
                Err(e) => Err(e),
            }
        } else {
            match message::unknown(tag, input, depth) {
                Ok((x, next)) => Ok((HeaderView { unknown: value.unknown.push(x), ..value }, next)),
                Err(e) => Err(e),
            }
        }
    }

    open spec fn levels() -> nat {
        0
    }

    open spec fn knows(number: u32) -> bool {
        number == HEADER_NAME || number == HEADER_VALUE
    }

    open spec fn sound(value: HeaderView, depth: u32) -> bool {
        forall|i: int|
            0 <= i < value.unknown.len() ==> (#[trigger] value.unknown[i]).sound(depth)
                && !Self::knows(value.unknown[i].number)
    }

    open spec fn cost(value: HeaderView, depth: u32) -> message::Cost {
        message::unknown_cost(value.unknown, depth)
    }

    fn fresh() -> (r: Header) {
        let r = Header { name: String::new(), value: String::new(), unknown_fields: Vec::new() };
        assert(r@ =~= Self::blank());
        r
    }

    fn write_to(&self, out: &mut Vec<u8>) {
        let ghost mut fields = message::text_field(HEADER_NAME, self@.name);
        message::write_text(HEADER_NAME, self.name.as_str(), out);
        message::write_text(HEADER_VALUE, self.value.as_str(), out);
        proof {
            fields = message::one_more(
                old(out)@,
                fields,
                message::text_field(HEADER_VALUE, self@.value),
            );
        }
        message::write_unknown(&self.unknown_fields, out);
        proof {
            fields = message::one_more(old(out)@, fields, message::unknown_fields(self@.unknown));
        }
    }

    fn merge_field(
        &mut self,
        tag: Tag,
        reader: &mut Reader,
        depth: u32,
    ) -> (r: Result<(), String>) {
        if tag.number == HEADER_NAME {
            match reader.text(tag) {
                Ok(x) => {
                    self.name = x;
                    Ok(())
                },
                Err(e) => Err(e),
            }
        } else if tag.number == HEADER_VALUE {
            match reader.text(tag) {
                Ok(x) => {
                    self.value = x;
                    Ok(())
                },
                Err(e) => Err(e),
            }
        } else {
            message::push_unknown(&mut self.unknown_fields, tag, reader, depth)
        }
    }

    proof fn merged_advances(value: HeaderView, tag: Tag, input: message::Input, depth: u32) {
        message::reads_advance(tag, input, depth);
    }

    proof fn blank_is_sound(depth: u32) {
    }

    proof fn merged_keeps(value: HeaderView, tag: Tag, input: message::Input, depth: u32) {
        message::unknown_keeps(tag, input, depth);
        match message::unknown(tag, input, depth) {
            Ok((x, _)) => {
                message::unknown_count_push(value.unknown, x, depth);
            },
            Err(_) => {},
        }
    }
}

impl message::Lossless for Header {
    proof fn fields_read_back(value: HeaderView, depth: u32) {
        let v0 = Self::blank();
        let none = message::Cost::nothing();
        let f0 = message::text_field(HEADER_NAME, value.name);
        let g1 = message::text_field(HEADER_VALUE, value.value);
        let f1 = f0 + g1;
        message::fields_bytes_add(f0, g1);
        let g2 = message::unknown_fields(value.unknown);
        let f2 = f1 + g2;
        message::fields_bytes_add(f1, g2);
        message::text_field_reads::<Header>(
            HEADER_NAME,
            value.name,
            v0,
            |x: Seq<char>| HeaderView { name: x, ..v0 },
            depth,
        );
        let v1 = HeaderView { name: value.name, ..v0 };
        message::text_field_reads::<Header>(
            HEADER_VALUE,
            value.value,
            v1,
            |x: Seq<char>| HeaderView { value: x, ..v1 },
            depth,
        );
        let v2 = HeaderView { value: value.value, ..v1 };
        message::reads_both::<Header>(v0, f0, none, v1, g1, none, v2, depth);
        message::unknown_fields_read::<Header>(
            value.unknown,
            |x: Seq<message::UnknownView>| HeaderView { unknown: x, ..v2 },
            depth,
        );
        let v3 = HeaderView { unknown: value.unknown, ..v2 };
        message::reads_both::<Header>(
            v0,
            f1,
            none,
            v2,
            g2,
            message::unknown_cost(value.unknown, depth),
            v3,
            depth,
        );
        assert(v3 =~= value);
    }
}

/// The HTTP trailers of a response.
#[derive(Clone, Debug, Default, PartialEq)]
pub struct Trailers {
    /// One entry for each value.
    pub headers: Vec<Header>,
    /// Fields that the message does not know, in the order in which they came.
    pub unknown_fields: Vec<message::UnknownField>,
}

/// What a [`Trailers`] says.
#[verifier::ext_equal]
pub struct TrailersView {
    pub headers: Seq<HeaderView>,
    pub unknown: Seq<message::UnknownView>,
}

impl View for Trailers {
    type V = TrailersView;

    open spec fn view(&self) -> TrailersView {
        TrailersView {
            headers: header_views(self.headers@),
            unknown: message::unknown_views(self.unknown_fields@),
        }
    }
}

impl Message for Trailers {
    open spec fn blank() -> TrailersView {
        TrailersView { headers: Seq::empty(), unknown: Seq::empty() }
    }

    open spec fn fields(value: TrailersView) -> Seq<message::Field> {
        header_fields(TRAILERS_HEADERS, value.headers) + message::unknown_fields(value.unknown)
    }

    open spec fn merged(
        value: TrailersView,
        tag: Tag,
        input: message::Input,
        depth: u32,
    ) -> message::Read<TrailersView> {
        if tag.number == TRAILERS_HEADERS {
            match message::element::<Header>(tag, input, depth) {
                Ok((x, next)) => Ok(
                    (TrailersView { headers: value.headers.push(x), ..value }, next),
                ),
                Err(e) => Err(e),
            }
        } else {
            match message::unknown(tag, input, depth) {
                Ok((x, next)) => Ok(
                    (TrailersView { unknown: value.unknown.push(x), ..value }, next),
                ),
                Err(e) => Err(e),
            }
        }
    }

    open spec fn levels() -> nat {
        1
    }

    open spec fn knows(number: u32) -> bool {
        number == TRAILERS_HEADERS
    }

    open spec fn sound(value: TrailersView, depth: u32) -> bool {
        &&& headers_sound(value.headers, depth)
        &&& forall|i: int|
            0 <= i < value.unknown.len() ==> (#[trigger] value.unknown[i]).sound(depth)
                && !Self::knows(value.unknown[i].number)
    }

    open spec fn cost(value: TrailersView, depth: u32) -> message::Cost {
        headers_cost(value.headers, depth).plus(message::unknown_cost(value.unknown, depth))
    }

    fn fresh() -> (r: Trailers) {
        let r = Trailers { headers: Vec::new(), unknown_fields: Vec::new() };
        assert(r@ =~= Self::blank());
        r
    }

    fn write_to(&self, out: &mut Vec<u8>) {
        let ghost mut fields = header_fields(TRAILERS_HEADERS, self@.headers);
        write_headers(TRAILERS_HEADERS, &self.headers, out);
        message::write_unknown(&self.unknown_fields, out);
        proof {
            fields = message::one_more(old(out)@, fields, message::unknown_fields(self@.unknown));
        }
    }

    fn merge_field(
        &mut self,
        tag: Tag,
        reader: &mut Reader,
        depth: u32,
    ) -> (r: Result<(), String>) {
        if tag.number == TRAILERS_HEADERS {
            push_header(&mut self.headers, tag, reader, depth)
        } else {
            message::push_unknown(&mut self.unknown_fields, tag, reader, depth)
        }
    }

    proof fn merged_advances(value: TrailersView, tag: Tag, input: message::Input, depth: u32) {
        message::reads_advance(tag, input, depth);
        message::element_advances::<Header>(tag, input, depth);
    }

    proof fn blank_is_sound(depth: u32) {
    }

    proof fn merged_keeps(value: TrailersView, tag: Tag, input: message::Input, depth: u32) {
        message::unknown_keeps(tag, input, depth);
        match message::unknown(tag, input, depth) {
            Ok((x, _)) => {
                message::unknown_count_push(value.unknown, x, depth);
            },
            Err(_) => {},
        }
        message::element_keeps::<Header>(tag, input, depth);
        match message::element::<Header>(tag, input, depth) {
            Ok((x, _)) => {
                headers_cost_push(value.headers, x, depth);
            },
            Err(_) => {},
        }
    }
}

impl message::Lossless for Trailers {
    proof fn fields_read_back(value: TrailersView, depth: u32) {
        let v0 = Self::blank();
        let none = message::Cost::nothing();
        let taken = headers_cost(value.headers, depth);
        let f0 = header_fields(TRAILERS_HEADERS, value.headers);
        let g1 = message::unknown_fields(value.unknown);
        let f1 = f0 + g1;
        message::fields_bytes_add(f0, g1);
        headers_read::<Trailers>(
            TRAILERS_HEADERS,
            value.headers,
            |x: Seq<HeaderView>| TrailersView { headers: x, ..v0 },
            depth,
        );
        let v1 = TrailersView { headers: value.headers, ..v0 };
        message::unknown_fields_read::<Trailers>(
            value.unknown,
            |x: Seq<message::UnknownView>| TrailersView { unknown: x, ..v1 },
            depth,
        );
        let v2 = TrailersView { unknown: value.unknown, ..v1 };
        message::reads_both::<Trailers>(
            v0,
            f0,
            taken,
            v1,
            g1,
            message::unknown_cost(value.unknown, depth),
            v2,
            depth,
        );
        assert(v2 =~= value);
    }
}

/// Marks the end of a streamed response.
#[derive(Clone, Debug, Default, PartialEq)]
pub struct End {
    /// Fields that the message does not know, in the order in which they came.
    pub unknown_fields: Vec<message::UnknownField>,
}

/// What an [`End`] says.
#[verifier::ext_equal]
pub struct EndView {
    pub unknown: Seq<message::UnknownView>,
}

impl View for End {
    type V = EndView;

    open spec fn view(&self) -> EndView {
        EndView { unknown: message::unknown_views(self.unknown_fields@) }
    }
}

impl Message for End {
    open spec fn blank() -> EndView {
        EndView { unknown: Seq::empty() }
    }

    open spec fn fields(value: EndView) -> Seq<message::Field> {
        message::unknown_fields(value.unknown)
    }

    open spec fn merged(
        value: EndView,
        tag: Tag,
        input: message::Input,
        depth: u32,
    ) -> message::Read<EndView> {
        match message::unknown(tag, input, depth) {
                Ok((x, next)) => Ok((EndView { unknown: value.unknown.push(x) }, next)),
                Err(e) => Err(e),
            }
    }

    open spec fn levels() -> nat {
        0
    }

    open spec fn knows(number: u32) -> bool {
        false
    }

    open spec fn sound(value: EndView, depth: u32) -> bool {
        forall|i: int|
            0 <= i < value.unknown.len() ==> (#[trigger] value.unknown[i]).sound(depth)
                && !Self::knows(value.unknown[i].number)
    }

    open spec fn cost(value: EndView, depth: u32) -> message::Cost {
        message::unknown_cost(value.unknown, depth)
    }

    fn fresh() -> (r: End) {
        let r = End {unknown_fields: Vec::new() };
        assert(r@ =~= Self::blank());
        r
    }

    fn write_to(&self, out: &mut Vec<u8>) {
        message::write_unknown(&self.unknown_fields, out);
    }

    fn merge_field(
        &mut self,
        tag: Tag,
        reader: &mut Reader,
        depth: u32,
    ) -> (r: Result<(), String>) {
        message::push_unknown(&mut self.unknown_fields, tag, reader, depth)
    }

    proof fn merged_advances(value: EndView, tag: Tag, input: message::Input, depth: u32) {
        message::reads_advance(tag, input, depth);
    }

    proof fn blank_is_sound(depth: u32) {
    }

    proof fn merged_keeps(value: EndView, tag: Tag, input: message::Input, depth: u32) {
        message::unknown_keeps(tag, input, depth);
        match message::unknown(tag, input, depth) {
            Ok((x, _)) => {
                message::unknown_count_push(value.unknown, x, depth);
            },
            Err(_) => {},
        }
    }
}

impl message::Lossless for End {
    proof fn fields_read_back(value: EndView, depth: u32) {
        message::unknown_fields_read::<End>(
            value.unknown,
            |x: Seq<message::UnknownView>| EndView { unknown: x },
            depth,
        );
        let v1 = EndView { unknown: value.unknown };
        assert(v1 =~= value);
    }
}

/// Starts a call.
#[derive(Clone, Debug, Default, PartialEq)]
pub struct StartRequest {
    /// Identifies the call in what follows. Chosen by the webview.
    pub call_id: u64,
    /// The path of the method.
    pub url: String,
    /// The HTTP method.
    pub method: String,
    /// The request headers.
    pub headers: Vec<Header>,
    /// The request body, or its first chunk.
    pub body: Vec<u8>,
    /// Whether more of the body follows.
    pub streaming_request: bool,
    /// The channel for the response, or empty for an answer that holds the whole body.
    pub channel: String,
    /// Fields that the message does not know, in the order in which they came.
    pub unknown_fields: Vec<message::UnknownField>,
}

/// What a [`StartRequest`] says.
#[verifier::ext_equal]
pub struct StartRequestView {
    pub call_id: u64,
    pub url: Seq<char>,
    pub method: Seq<char>,
    pub headers: Seq<HeaderView>,
    pub body: Seq<u8>,
    pub streaming_request: bool,
    pub channel: Seq<char>,
    pub unknown: Seq<message::UnknownView>,
}

impl View for StartRequest {
    type V = StartRequestView;

    open spec fn view(&self) -> StartRequestView {
        StartRequestView {
            call_id: self.call_id,
            url: self.url@,
            method: self.method@,
            headers: header_views(self.headers@),
            body: self.body@,
            streaming_request: self.streaming_request,
            channel: self.channel@,
            unknown: message::unknown_views(self.unknown_fields@),
        }
    }
}

impl Message for StartRequest {
    open spec fn blank() -> StartRequestView {
        StartRequestView {
            call_id: 0,
            url: Seq::empty(),
            method: Seq::empty(),
            headers: Seq::empty(),
            body: Seq::empty(),
            streaming_request: false,
            channel: Seq::empty(),
            unknown: Seq::empty(),
        }
    }

    open spec fn fields(value: StartRequestView) -> Seq<message::Field> {
        message::integer_field(START_CALL_ID, value.call_id)
            + message::text_field(START_URL, value.url)
            + message::text_field(START_METHOD, value.method)
            + header_fields(START_HEADERS, value.headers)
            + message::blob_field(START_BODY, value.body)
            + message::integer_field(
                START_STREAMING_REQUEST,
                message::flag_value(value.streaming_request),
            )
            + message::text_field(START_CHANNEL, value.channel)
            + message::unknown_fields(value.unknown)
    }

    open spec fn merged(
        value: StartRequestView,
        tag: Tag,
        input: message::Input,
        depth: u32,
    ) -> message::Read<StartRequestView> {
        if tag.number == START_CALL_ID {
            match message::integer(tag, input) {
                Ok((x, next)) => Ok((StartRequestView { call_id: x, ..value }, next)),
                Err(e) => Err(e),
            }
        } else if tag.number == START_URL {
            match message::text(tag, input) {
                Ok((x, next)) => Ok((StartRequestView { url: x, ..value }, next)),
                Err(e) => Err(e),
            }
        } else if tag.number == START_METHOD {
            match message::text(tag, input) {
                Ok((x, next)) => Ok((StartRequestView { method: x, ..value }, next)),
                Err(e) => Err(e),
            }
        } else if tag.number == START_HEADERS {
            match message::element::<Header>(tag, input, depth) {
                Ok((x, next)) => Ok(
                    (StartRequestView { headers: value.headers.push(x), ..value }, next),
                ),
                Err(e) => Err(e),
            }
        } else if tag.number == START_BODY {
            match message::blob(tag, input) {
                Ok((x, next)) => Ok((StartRequestView { body: x, ..value }, next)),
                Err(e) => Err(e),
            }
        } else if tag.number == START_STREAMING_REQUEST {
            match message::integer(tag, input) {
                Ok((x, next)) => Ok(
                    (StartRequestView { streaming_request: x != 0, ..value }, next),
                ),
                Err(e) => Err(e),
            }
        } else if tag.number == START_CHANNEL {
            match message::text(tag, input) {
                Ok((x, next)) => Ok((StartRequestView { channel: x, ..value }, next)),
                Err(e) => Err(e),
            }
        } else {
            match message::unknown(tag, input, depth) {
                Ok((x, next)) => Ok(
                    (StartRequestView { unknown: value.unknown.push(x), ..value }, next),
                ),
                Err(e) => Err(e),
            }
        }
    }

    open spec fn levels() -> nat {
        1
    }

    open spec fn knows(number: u32) -> bool {
        number == START_CALL_ID
            || number == START_URL
            || number == START_METHOD
            || number == START_HEADERS
            || number == START_BODY
            || number == START_STREAMING_REQUEST
            || number == START_CHANNEL
    }

    open spec fn sound(value: StartRequestView, depth: u32) -> bool {
        &&& headers_sound(value.headers, depth)
        &&& forall|i: int|
            0 <= i < value.unknown.len() ==> (#[trigger] value.unknown[i]).sound(depth)
                && !Self::knows(value.unknown[i].number)
    }

    open spec fn cost(value: StartRequestView, depth: u32) -> message::Cost {
        headers_cost(value.headers, depth).plus(message::unknown_cost(value.unknown, depth))
    }

    fn fresh() -> (r: StartRequest) {
        let r = StartRequest {
            call_id: 0,
            url: String::new(),
            method: String::new(),
            headers: Vec::new(),
            body: Vec::new(),
            streaming_request: false,
            channel: String::new(),
            unknown_fields: Vec::new(),
        };
        assert(r@ =~= Self::blank());
        r
    }

    fn write_to(&self, out: &mut Vec<u8>) {
        let ghost mut fields = message::integer_field(START_CALL_ID, self@.call_id);
        message::write_integer(START_CALL_ID, self.call_id, out);
        message::write_text(START_URL, self.url.as_str(), out);
        proof {
            fields = message::one_more(
                old(out)@,
                fields,
                message::text_field(START_URL, self@.url),
            );
        }
        message::write_text(START_METHOD, self.method.as_str(), out);
        proof {
            fields = message::one_more(
                old(out)@,
                fields,
                message::text_field(START_METHOD, self@.method),
            );
        }
        write_headers(START_HEADERS, &self.headers, out);
        proof {
            fields = message::one_more(
                old(out)@,
                fields,
                header_fields(START_HEADERS, self@.headers),
            );
        }
        message::write_blob(START_BODY, self.body.as_slice(), out);
        proof {
            fields = message::one_more(
                old(out)@,
                fields,
                message::blob_field(START_BODY, self@.body),
            );
        }
        message::write_integer(
            START_STREAMING_REQUEST,
            if self.streaming_request { 1 } else { 0 },
            out,
        );
        proof {
            fields = message::one_more(
                old(out)@,
                fields,
                message::integer_field(
                    START_STREAMING_REQUEST,
                    message::flag_value(self@.streaming_request),
                ),
            );
        }
        message::write_text(START_CHANNEL, self.channel.as_str(), out);
        proof {
            fields = message::one_more(
                old(out)@,
                fields,
                message::text_field(START_CHANNEL, self@.channel),
            );
        }
        message::write_unknown(&self.unknown_fields, out);
        proof {
            fields = message::one_more(old(out)@, fields, message::unknown_fields(self@.unknown));
        }
    }

    fn merge_field(
        &mut self,
        tag: Tag,
        reader: &mut Reader,
        depth: u32,
    ) -> (r: Result<(), String>) {
        if tag.number == START_CALL_ID {
            match reader.integer(tag) {
                Ok(x) => {
                    self.call_id = x;
                    Ok(())
                },
                Err(e) => Err(e),
            }
        } else if tag.number == START_URL {
            match reader.text(tag) {
                Ok(x) => {
                    self.url = x;
                    Ok(())
                },
                Err(e) => Err(e),
            }
        } else if tag.number == START_METHOD {
            match reader.text(tag) {
                Ok(x) => {
                    self.method = x;
                    Ok(())
                },
                Err(e) => Err(e),
            }
        } else if tag.number == START_HEADERS {
            push_header(&mut self.headers, tag, reader, depth)
        } else if tag.number == START_BODY {
            match reader.blob(tag) {
                Ok(x) => {
                    self.body = x;
                    Ok(())
                },
                Err(e) => Err(e),
            }
        } else if tag.number == START_STREAMING_REQUEST {
            match reader.integer(tag) {
                Ok(x) => {
                    self.streaming_request = x != 0;
                    Ok(())
                },
                Err(e) => Err(e),
            }
        } else if tag.number == START_CHANNEL {
            match reader.text(tag) {
                Ok(x) => {
                    self.channel = x;
                    Ok(())
                },
                Err(e) => Err(e),
            }
        } else {
            message::push_unknown(&mut self.unknown_fields, tag, reader, depth)
        }
    }

    proof fn merged_advances(value: StartRequestView, tag: Tag, input: message::Input, depth: u32) {
        message::reads_advance(tag, input, depth);
        message::element_advances::<Header>(tag, input, depth);
    }

    proof fn blank_is_sound(depth: u32) {
    }

    proof fn merged_keeps(value: StartRequestView, tag: Tag, input: message::Input, depth: u32) {
        message::unknown_keeps(tag, input, depth);
        match message::unknown(tag, input, depth) {
            Ok((x, _)) => {
                message::unknown_count_push(value.unknown, x, depth);
            },
            Err(_) => {},
        }
        message::element_keeps::<Header>(tag, input, depth);
        match message::element::<Header>(tag, input, depth) {
            Ok((x, _)) => {
                headers_cost_push(value.headers, x, depth);
            },
            Err(_) => {},
        }
    }
}

impl message::Lossless for StartRequest {
    proof fn fields_read_back(value: StartRequestView, depth: u32) {
        let v0 = Self::blank();
        let none = message::Cost::nothing();
        let taken = headers_cost(value.headers, depth);
        let f0 = message::integer_field(START_CALL_ID, value.call_id);
        let g1 = message::text_field(START_URL, value.url);
        let f1 = f0 + g1;
        message::fields_bytes_add(f0, g1);
        let g2 = message::text_field(START_METHOD, value.method);
        let f2 = f1 + g2;
        message::fields_bytes_add(f1, g2);
        let g3 = header_fields(START_HEADERS, value.headers);
        let f3 = f2 + g3;
        message::fields_bytes_add(f2, g3);
        let g4 = message::blob_field(START_BODY, value.body);
        let f4 = f3 + g4;
        message::fields_bytes_add(f3, g4);
        let g5 = message::integer_field(
            START_STREAMING_REQUEST,
            message::flag_value(value.streaming_request),
        );
        let f5 = f4 + g5;
        message::fields_bytes_add(f4, g5);
        let g6 = message::text_field(START_CHANNEL, value.channel);
        let f6 = f5 + g6;
        message::fields_bytes_add(f5, g6);
        let g7 = message::unknown_fields(value.unknown);
        let f7 = f6 + g7;
        message::fields_bytes_add(f6, g7);
        message::integer_field_reads::<StartRequest>(
            START_CALL_ID,
            value.call_id,
            v0,
            |x: u64| StartRequestView { call_id: x, ..v0 },
            depth,
        );
        let v1 = StartRequestView { call_id: value.call_id, ..v0 };
        message::text_field_reads::<StartRequest>(
            START_URL,
            value.url,
            v1,
            |x: Seq<char>| StartRequestView { url: x, ..v1 },
            depth,
        );
        let v2 = StartRequestView { url: value.url, ..v1 };
        message::reads_both::<StartRequest>(v0, f0, none, v1, g1, none, v2, depth);
        message::text_field_reads::<StartRequest>(
            START_METHOD,
            value.method,
            v2,
            |x: Seq<char>| StartRequestView { method: x, ..v2 },
            depth,
        );
        let v3 = StartRequestView { method: value.method, ..v2 };
        message::reads_both::<StartRequest>(v0, f1, none, v2, g2, none, v3, depth);
        headers_read::<StartRequest>(
            START_HEADERS,
            value.headers,
            |x: Seq<HeaderView>| StartRequestView { headers: x, ..v3 },
            depth,
        );
        let v4 = StartRequestView { headers: value.headers, ..v3 };
        message::reads_both::<StartRequest>(v0, f2, none, v3, g3, taken, v4, depth);
        message::blob_field_reads::<StartRequest>(
            START_BODY,
            value.body,
            v4,
            |x: Seq<u8>| StartRequestView { body: x, ..v4 },
            depth,
        );
        let v5 = StartRequestView { body: value.body, ..v4 };
        message::reads_both::<StartRequest>(v0, f3, taken, v4, g4, none, v5, depth);
        message::integer_field_reads::<StartRequest>(
            START_STREAMING_REQUEST,
            message::flag_value(value.streaming_request),
            v5,
            |x: u64| StartRequestView { streaming_request: x != 0, ..v5 },
            depth,
        );
        let v6 = StartRequestView { streaming_request: value.streaming_request, ..v5 };
        message::reads_both::<StartRequest>(v0, f4, taken, v5, g5, none, v6, depth);
        message::text_field_reads::<StartRequest>(
            START_CHANNEL,
            value.channel,
            v6,
            |x: Seq<char>| StartRequestView { channel: x, ..v6 },
            depth,
        );
        let v7 = StartRequestView { channel: value.channel, ..v6 };
        message::reads_both::<StartRequest>(v0, f5, taken, v6, g6, none, v7, depth);
        message::unknown_fields_read::<StartRequest>(
            value.unknown,
            |x: Seq<message::UnknownView>| StartRequestView { unknown: x, ..v7 },
            depth,
        );
        let v8 = StartRequestView { unknown: value.unknown, ..v7 };
        message::reads_both::<StartRequest>(
            v0,
            f6,
            taken,
            v7,
            g7,
            message::unknown_cost(value.unknown, depth),
            v8,
            depth,
        );
        assert(v8 =~= value);
    }
}

/// Carries more of a request body.
#[derive(Clone, Debug, Default, PartialEq)]
pub struct SendRequest {
    /// The call.
    pub call_id: u64,
    /// The next bytes of the body.
    pub chunk: Vec<u8>,
    /// Whether the body ends, and no chunk comes.
    pub end_of_stream: bool,
    /// Fields that the message does not know, in the order in which they came.
    pub unknown_fields: Vec<message::UnknownField>,
}

/// What a [`SendRequest`] says.
#[verifier::ext_equal]
pub struct SendRequestView {
    pub call_id: u64,
    pub chunk: Seq<u8>,
    pub end_of_stream: bool,
    pub unknown: Seq<message::UnknownView>,
}

impl View for SendRequest {
    type V = SendRequestView;

    open spec fn view(&self) -> SendRequestView {
        SendRequestView {
            call_id: self.call_id,
            chunk: self.chunk@,
            end_of_stream: self.end_of_stream,
            unknown: message::unknown_views(self.unknown_fields@),
        }
    }
}

impl Message for SendRequest {
    open spec fn blank() -> SendRequestView {
        SendRequestView {
            call_id: 0,
            chunk: Seq::empty(),
            end_of_stream: false,
            unknown: Seq::empty(),
        }
    }

    open spec fn fields(value: SendRequestView) -> Seq<message::Field> {
        message::integer_field(SEND_CALL_ID, value.call_id)
            + message::blob_field(SEND_CHUNK, value.chunk)
            + message::integer_field(SEND_END_OF_STREAM, message::flag_value(value.end_of_stream))
            + message::unknown_fields(value.unknown)
    }

    open spec fn merged(
        value: SendRequestView,
        tag: Tag,
        input: message::Input,
        depth: u32,
    ) -> message::Read<SendRequestView> {
        if tag.number == SEND_CALL_ID {
            match message::integer(tag, input) {
                Ok((x, next)) => Ok((SendRequestView { call_id: x, ..value }, next)),
                Err(e) => Err(e),
            }
        } else if tag.number == SEND_CHUNK {
            match message::blob(tag, input) {
                Ok((x, next)) => Ok((SendRequestView { chunk: x, ..value }, next)),
                Err(e) => Err(e),
            }
        } else if tag.number == SEND_END_OF_STREAM {
            match message::integer(tag, input) {
                Ok((x, next)) => Ok((SendRequestView { end_of_stream: x != 0, ..value }, next)),
                Err(e) => Err(e),
            }
        } else {
            match message::unknown(tag, input, depth) {
                Ok((x, next)) => Ok(
                    (SendRequestView { unknown: value.unknown.push(x), ..value }, next),
                ),
                Err(e) => Err(e),
            }
        }
    }

    open spec fn levels() -> nat {
        0
    }

    open spec fn knows(number: u32) -> bool {
        number == SEND_CALL_ID || number == SEND_CHUNK || number == SEND_END_OF_STREAM
    }

    open spec fn sound(value: SendRequestView, depth: u32) -> bool {
        forall|i: int|
            0 <= i < value.unknown.len() ==> (#[trigger] value.unknown[i]).sound(depth)
                && !Self::knows(value.unknown[i].number)
    }

    open spec fn cost(value: SendRequestView, depth: u32) -> message::Cost {
        message::unknown_cost(value.unknown, depth)
    }

    fn fresh() -> (r: SendRequest) {
        let r = SendRequest {
            call_id: 0,
            chunk: Vec::new(),
            end_of_stream: false,
            unknown_fields: Vec::new(),
        };
        assert(r@ =~= Self::blank());
        r
    }

    fn write_to(&self, out: &mut Vec<u8>) {
        let ghost mut fields = message::integer_field(SEND_CALL_ID, self@.call_id);
        message::write_integer(SEND_CALL_ID, self.call_id, out);
        message::write_blob(SEND_CHUNK, self.chunk.as_slice(), out);
        proof {
            fields = message::one_more(
                old(out)@,
                fields,
                message::blob_field(SEND_CHUNK, self@.chunk),
            );
        }
        message::write_integer(SEND_END_OF_STREAM, if self.end_of_stream { 1 } else { 0 }, out);
        proof {
            fields = message::one_more(
                old(out)@,
                fields,
                message::integer_field(
                    SEND_END_OF_STREAM,
                    message::flag_value(self@.end_of_stream),
                ),
            );
        }
        message::write_unknown(&self.unknown_fields, out);
        proof {
            fields = message::one_more(old(out)@, fields, message::unknown_fields(self@.unknown));
        }
    }

    fn merge_field(
        &mut self,
        tag: Tag,
        reader: &mut Reader,
        depth: u32,
    ) -> (r: Result<(), String>) {
        if tag.number == SEND_CALL_ID {
            match reader.integer(tag) {
                Ok(x) => {
                    self.call_id = x;
                    Ok(())
                },
                Err(e) => Err(e),
            }
        } else if tag.number == SEND_CHUNK {
            match reader.blob(tag) {
                Ok(x) => {
                    self.chunk = x;
                    Ok(())
                },
                Err(e) => Err(e),
            }
        } else if tag.number == SEND_END_OF_STREAM {
            match reader.integer(tag) {
                Ok(x) => {
                    self.end_of_stream = x != 0;
                    Ok(())
                },
                Err(e) => Err(e),
            }
        } else {
            message::push_unknown(&mut self.unknown_fields, tag, reader, depth)
        }
    }

    proof fn merged_advances(value: SendRequestView, tag: Tag, input: message::Input, depth: u32) {
        message::reads_advance(tag, input, depth);
    }

    proof fn blank_is_sound(depth: u32) {
    }

    proof fn merged_keeps(value: SendRequestView, tag: Tag, input: message::Input, depth: u32) {
        message::unknown_keeps(tag, input, depth);
        match message::unknown(tag, input, depth) {
            Ok((x, _)) => {
                message::unknown_count_push(value.unknown, x, depth);
            },
            Err(_) => {},
        }
    }
}

impl message::Lossless for SendRequest {
    proof fn fields_read_back(value: SendRequestView, depth: u32) {
        let v0 = Self::blank();
        let none = message::Cost::nothing();
        let f0 = message::integer_field(SEND_CALL_ID, value.call_id);
        let g1 = message::blob_field(SEND_CHUNK, value.chunk);
        let f1 = f0 + g1;
        message::fields_bytes_add(f0, g1);
        let g2 = message::integer_field(
            SEND_END_OF_STREAM,
            message::flag_value(value.end_of_stream),
        );
        let f2 = f1 + g2;
        message::fields_bytes_add(f1, g2);
        let g3 = message::unknown_fields(value.unknown);
        let f3 = f2 + g3;
        message::fields_bytes_add(f2, g3);
        message::integer_field_reads::<SendRequest>(
            SEND_CALL_ID,
            value.call_id,
            v0,
            |x: u64| SendRequestView { call_id: x, ..v0 },
            depth,
        );
        let v1 = SendRequestView { call_id: value.call_id, ..v0 };
        message::blob_field_reads::<SendRequest>(
            SEND_CHUNK,
            value.chunk,
            v1,
            |x: Seq<u8>| SendRequestView { chunk: x, ..v1 },
            depth,
        );
        let v2 = SendRequestView { chunk: value.chunk, ..v1 };
        message::reads_both::<SendRequest>(v0, f0, none, v1, g1, none, v2, depth);
        message::integer_field_reads::<SendRequest>(
            SEND_END_OF_STREAM,
            message::flag_value(value.end_of_stream),
            v2,
            |x: u64| SendRequestView { end_of_stream: x != 0, ..v2 },
            depth,
        );
        let v3 = SendRequestView { end_of_stream: value.end_of_stream, ..v2 };
        message::reads_both::<SendRequest>(v0, f1, none, v2, g2, none, v3, depth);
        message::unknown_fields_read::<SendRequest>(
            value.unknown,
            |x: Seq<message::UnknownView>| SendRequestView { unknown: x, ..v3 },
            depth,
        );
        let v4 = SendRequestView { unknown: value.unknown, ..v3 };
        message::reads_both::<SendRequest>(
            v0,
            f2,
            none,
            v3,
            g3,
            message::unknown_cost(value.unknown, depth),
            v4,
            depth,
        );
        assert(v4 =~= value);
    }
}

/// Abandons a call.
#[derive(Clone, Debug, Default, PartialEq)]
pub struct CancelRequest {
    /// The call.
    pub call_id: u64,
    /// Fields that the message does not know, in the order in which they came.
    pub unknown_fields: Vec<message::UnknownField>,
}

/// What a [`CancelRequest`] says.
#[verifier::ext_equal]
pub struct CancelRequestView {
    pub call_id: u64,
    pub unknown: Seq<message::UnknownView>,
}

impl View for CancelRequest {
    type V = CancelRequestView;

    open spec fn view(&self) -> CancelRequestView {
        CancelRequestView {
            call_id: self.call_id,
            unknown: message::unknown_views(self.unknown_fields@),
        }
    }
}

impl Message for CancelRequest {
    open spec fn blank() -> CancelRequestView {
        CancelRequestView { call_id: 0, unknown: Seq::empty() }
    }

    open spec fn fields(value: CancelRequestView) -> Seq<message::Field> {
        message::integer_field(CANCEL_CALL_ID, value.call_id)
            + message::unknown_fields(value.unknown)
    }

    open spec fn merged(
        value: CancelRequestView,
        tag: Tag,
        input: message::Input,
        depth: u32,
    ) -> message::Read<CancelRequestView> {
        if tag.number == CANCEL_CALL_ID {
            match message::integer(tag, input) {
                Ok((x, next)) => Ok((CancelRequestView { call_id: x, ..value }, next)),
                Err(e) => Err(e),
            }
        } else {
            match message::unknown(tag, input, depth) {
                Ok((x, next)) => Ok(
                    (CancelRequestView { unknown: value.unknown.push(x), ..value }, next),
                ),
                Err(e) => Err(e),
            }
        }
    }

    open spec fn levels() -> nat {
        0
    }

    open spec fn knows(number: u32) -> bool {
        number == CANCEL_CALL_ID
    }

    open spec fn sound(value: CancelRequestView, depth: u32) -> bool {
        forall|i: int|
            0 <= i < value.unknown.len() ==> (#[trigger] value.unknown[i]).sound(depth)
                && !Self::knows(value.unknown[i].number)
    }

    open spec fn cost(value: CancelRequestView, depth: u32) -> message::Cost {
        message::unknown_cost(value.unknown, depth)
    }

    fn fresh() -> (r: CancelRequest) {
        let r = CancelRequest { call_id: 0, unknown_fields: Vec::new() };
        assert(r@ =~= Self::blank());
        r
    }

    fn write_to(&self, out: &mut Vec<u8>) {
        let ghost mut fields = message::integer_field(CANCEL_CALL_ID, self@.call_id);
        message::write_integer(CANCEL_CALL_ID, self.call_id, out);
        message::write_unknown(&self.unknown_fields, out);
        proof {
            fields = message::one_more(old(out)@, fields, message::unknown_fields(self@.unknown));
        }
    }

    fn merge_field(
        &mut self,
        tag: Tag,
        reader: &mut Reader,
        depth: u32,
    ) -> (r: Result<(), String>) {
        if tag.number == CANCEL_CALL_ID {
            match reader.integer(tag) {
                Ok(x) => {
                    self.call_id = x;
                    Ok(())
                },
                Err(e) => Err(e),
            }
        } else {
            message::push_unknown(&mut self.unknown_fields, tag, reader, depth)
        }
    }

    proof fn merged_advances(
        value: CancelRequestView,
        tag: Tag,
        input: message::Input,
        depth: u32,
    ) {
        message::reads_advance(tag, input, depth);
    }

    proof fn blank_is_sound(depth: u32) {
    }

    proof fn merged_keeps(value: CancelRequestView, tag: Tag, input: message::Input, depth: u32) {
        message::unknown_keeps(tag, input, depth);
        match message::unknown(tag, input, depth) {
            Ok((x, _)) => {
                message::unknown_count_push(value.unknown, x, depth);
            },
            Err(_) => {},
        }
    }
}

impl message::Lossless for CancelRequest {
    proof fn fields_read_back(value: CancelRequestView, depth: u32) {
        let v0 = Self::blank();
        let none = message::Cost::nothing();
        let f0 = message::integer_field(CANCEL_CALL_ID, value.call_id);
        let g1 = message::unknown_fields(value.unknown);
        let f1 = f0 + g1;
        message::fields_bytes_add(f0, g1);
        message::integer_field_reads::<CancelRequest>(
            CANCEL_CALL_ID,
            value.call_id,
            v0,
            |x: u64| CancelRequestView { call_id: x, ..v0 },
            depth,
        );
        let v1 = CancelRequestView { call_id: value.call_id, ..v0 };
        message::unknown_fields_read::<CancelRequest>(
            value.unknown,
            |x: Seq<message::UnknownView>| CancelRequestView { unknown: x, ..v1 },
            depth,
        );
        let v2 = CancelRequestView { unknown: value.unknown, ..v1 };
        message::reads_both::<CancelRequest>(
            v0,
            f0,
            none,
            v1,
            g1,
            message::unknown_cost(value.unknown, depth),
            v2,
            depth,
        );
        assert(v2 =~= value);
    }
}

/// Answers a [`StartRequest`].
#[derive(Clone, Debug, Default, PartialEq)]
pub struct ResponseHead {
    /// The HTTP status.
    pub status: u32,
    /// The response headers.
    pub headers: Vec<Header>,
    /// The whole body of a response that does not stream.
    pub body: Vec<u8>,
    /// Fields that the message does not know, in the order in which they came.
    pub unknown_fields: Vec<message::UnknownField>,
}

/// What a [`ResponseHead`] says.
#[verifier::ext_equal]
pub struct ResponseHeadView {
    pub status: u32,
    pub headers: Seq<HeaderView>,
    pub body: Seq<u8>,
    pub unknown: Seq<message::UnknownView>,
}

impl View for ResponseHead {
    type V = ResponseHeadView;

    open spec fn view(&self) -> ResponseHeadView {
        ResponseHeadView {
            status: self.status,
            headers: header_views(self.headers@),
            body: self.body@,
            unknown: message::unknown_views(self.unknown_fields@),
        }
    }
}

impl Message for ResponseHead {
    open spec fn blank() -> ResponseHeadView {
        ResponseHeadView {
            status: 0,
            headers: Seq::empty(),
            body: Seq::empty(),
            unknown: Seq::empty(),
        }
    }

    open spec fn fields(value: ResponseHeadView) -> Seq<message::Field> {
        message::integer_field(HEAD_STATUS, value.status as u64)
            + header_fields(HEAD_HEADERS, value.headers)
            + message::blob_field(HEAD_BODY, value.body) + message::unknown_fields(value.unknown)
    }

    open spec fn merged(
        value: ResponseHeadView,
        tag: Tag,
        input: message::Input,
        depth: u32,
    ) -> message::Read<ResponseHeadView> {
        if tag.number == HEAD_STATUS {
            match message::integer(tag, input) {
                Ok((x, next)) => Ok((ResponseHeadView { status: x as u32, ..value }, next)),
                Err(e) => Err(e),
            }
        } else if tag.number == HEAD_HEADERS {
            match message::element::<Header>(tag, input, depth) {
                Ok((x, next)) => Ok(
                    (ResponseHeadView { headers: value.headers.push(x), ..value }, next),
                ),
                Err(e) => Err(e),
            }
        } else if tag.number == HEAD_BODY {
            match message::blob(tag, input) {
                Ok((x, next)) => Ok((ResponseHeadView { body: x, ..value }, next)),
                Err(e) => Err(e),
            }
        } else {
            match message::unknown(tag, input, depth) {
                Ok((x, next)) => Ok(
                    (ResponseHeadView { unknown: value.unknown.push(x), ..value }, next),
                ),
                Err(e) => Err(e),
            }
        }
    }

    open spec fn levels() -> nat {
        1
    }

    open spec fn knows(number: u32) -> bool {
        number == HEAD_STATUS || number == HEAD_HEADERS || number == HEAD_BODY
    }

    open spec fn sound(value: ResponseHeadView, depth: u32) -> bool {
        &&& headers_sound(value.headers, depth)
        &&& forall|i: int|
            0 <= i < value.unknown.len() ==> (#[trigger] value.unknown[i]).sound(depth)
                && !Self::knows(value.unknown[i].number)
    }

    open spec fn cost(value: ResponseHeadView, depth: u32) -> message::Cost {
        headers_cost(value.headers, depth).plus(message::unknown_cost(value.unknown, depth))
    }

    fn fresh() -> (r: ResponseHead) {
        let r = ResponseHead {
            status: 0,
            headers: Vec::new(),
            body: Vec::new(),
            unknown_fields: Vec::new(),
        };
        assert(r@ =~= Self::blank());
        r
    }

    fn write_to(&self, out: &mut Vec<u8>) {
        let ghost mut fields = message::integer_field(HEAD_STATUS, self@.status as u64);
        message::write_integer(HEAD_STATUS, self.status as u64, out);
        write_headers(HEAD_HEADERS, &self.headers, out);
        proof {
            fields = message::one_more(
                old(out)@,
                fields,
                header_fields(HEAD_HEADERS, self@.headers),
            );
        }
        message::write_blob(HEAD_BODY, self.body.as_slice(), out);
        proof {
            fields = message::one_more(
                old(out)@,
                fields,
                message::blob_field(HEAD_BODY, self@.body),
            );
        }
        message::write_unknown(&self.unknown_fields, out);
        proof {
            fields = message::one_more(old(out)@, fields, message::unknown_fields(self@.unknown));
        }
    }

    fn merge_field(
        &mut self,
        tag: Tag,
        reader: &mut Reader,
        depth: u32,
    ) -> (r: Result<(), String>) {
        if tag.number == HEAD_STATUS {
            match reader.integer(tag) {
                Ok(x) => {
                    self.status = x as u32;
                    Ok(())
                },
                Err(e) => Err(e),
            }
        } else if tag.number == HEAD_HEADERS {
            push_header(&mut self.headers, tag, reader, depth)
        } else if tag.number == HEAD_BODY {
            match reader.blob(tag) {
                Ok(x) => {
                    self.body = x;
                    Ok(())
                },
                Err(e) => Err(e),
            }
        } else {
            message::push_unknown(&mut self.unknown_fields, tag, reader, depth)
        }
    }

    proof fn merged_advances(value: ResponseHeadView, tag: Tag, input: message::Input, depth: u32) {
        message::reads_advance(tag, input, depth);
        message::element_advances::<Header>(tag, input, depth);
    }

    proof fn blank_is_sound(depth: u32) {
    }

    proof fn merged_keeps(value: ResponseHeadView, tag: Tag, input: message::Input, depth: u32) {
        message::unknown_keeps(tag, input, depth);
        match message::unknown(tag, input, depth) {
            Ok((x, _)) => {
                message::unknown_count_push(value.unknown, x, depth);
            },
            Err(_) => {},
        }
        message::element_keeps::<Header>(tag, input, depth);
        match message::element::<Header>(tag, input, depth) {
            Ok((x, _)) => {
                headers_cost_push(value.headers, x, depth);
            },
            Err(_) => {},
        }
    }
}

impl message::Lossless for ResponseHead {
    proof fn fields_read_back(value: ResponseHeadView, depth: u32) {
        let v0 = Self::blank();
        let none = message::Cost::nothing();
        let taken = headers_cost(value.headers, depth);
        let f0 = message::integer_field(HEAD_STATUS, value.status as u64);
        let g1 = header_fields(HEAD_HEADERS, value.headers);
        let f1 = f0 + g1;
        message::fields_bytes_add(f0, g1);
        let g2 = message::blob_field(HEAD_BODY, value.body);
        let f2 = f1 + g2;
        message::fields_bytes_add(f1, g2);
        let g3 = message::unknown_fields(value.unknown);
        let f3 = f2 + g3;
        message::fields_bytes_add(f2, g3);
        message::integer_field_reads::<ResponseHead>(
            HEAD_STATUS,
            value.status as u64,
            v0,
            |x: u64| ResponseHeadView { status: x as u32, ..v0 },
            depth,
        );
        let v1 = ResponseHeadView { status: value.status, ..v0 };
        headers_read::<ResponseHead>(
            HEAD_HEADERS,
            value.headers,
            |x: Seq<HeaderView>| ResponseHeadView { headers: x, ..v1 },
            depth,
        );
        let v2 = ResponseHeadView { headers: value.headers, ..v1 };
        message::reads_both::<ResponseHead>(v0, f0, none, v1, g1, taken, v2, depth);
        message::blob_field_reads::<ResponseHead>(
            HEAD_BODY,
            value.body,
            v2,
            |x: Seq<u8>| ResponseHeadView { body: x, ..v2 },
            depth,
        );
        let v3 = ResponseHeadView { body: value.body, ..v2 };
        message::reads_both::<ResponseHead>(v0, f1, taken, v2, g2, none, v3, depth);
        message::unknown_fields_read::<ResponseHead>(
            value.unknown,
            |x: Seq<message::UnknownView>| ResponseHeadView { unknown: x, ..v3 },
            depth,
        );
        let v4 = ResponseHeadView { unknown: value.unknown, ..v3 };
        message::reads_both::<ResponseHead>(
            v0,
            f2,
            taken,
            v3,
            g3,
            message::unknown_cost(value.unknown, depth),
            v4,
            depth,
        );
        assert(v4 =~= value);
    }
}

/// A header without unknown fields.
pub open spec fn plain_header(name: Seq<char>, value: Seq<char>) -> HeaderView {
    HeaderView { name, value, unknown: Seq::empty() }
}

/// Creates a header.
pub fn header(name: String, value: String) -> (r: Header)
    ensures
        r@ == plain_header(name@, value@),
        r.name == name,
        r.value == value,
        r.unknown_fields@.len() == 0,
{
    let r = Header { name, value, unknown_fields: Vec::new() };
    assert(r@.unknown =~= Seq::empty());
    r
}

/// A plain header holds the name and the value that it is made of, and nothing else.
pub proof fn plain_headers_hold_what_they_are_made_of(name: Seq<char>, value: Seq<char>)
    ensures
        plain_header(name, value).name == name,
        plain_header(name, value).value == value,
        plain_header(name, value).unknown.len() == 0,
{
}

/// Appends one field for each header.
fn write_headers(number: u32, headers: &Vec<Header>, out: &mut Vec<u8>)
    requires
        1 <= number <= crate::protobuf::MAX_FIELD_NUMBER,
    ensures
        final(out)@ == old(out)@ + message::fields_bytes(
            header_fields(number, header_views(headers@)),
        ),
{
    let ghost all = header_fields(number, header_views(headers@));
    assert(all.take(0) =~= Seq::empty());
    assert(out@ + Seq::<u8>::empty() =~= out@);
    for i in 0..headers.len()
        invariant
            all == header_fields(number, header_views(headers@)),
            1 <= number <= crate::protobuf::MAX_FIELD_NUMBER,
            out@ == old(out)@ + message::fields_bytes(all.take(i as int)),
    {
        let mut entry: Vec<u8> = Vec::new();
        headers[i].write_to(&mut entry);
        message::put_blob(number, entry.as_slice(), out);
        proof {
            assert(entry@ =~= message::encoding::<Header>(headers@[i as int]@));
            assert(all.take(i + 1) =~= all.take(i as int) + seq![all[i as int]]);
            message::fields_bytes_add(all.take(i as int), seq![all[i as int]]);
            assert(out@ =~= old(out)@ + message::fields_bytes(all.take(i + 1)));
        }
    }
    assert(all.take(headers.len() as int) =~= all);
}

/// Reads one more header behind its tag.
fn push_header(
    headers: &mut Vec<Header>,
    tag: Tag,
    reader: &mut Reader,
    depth: u32,
) -> (r: Result<(), String>)
    requires
        old(reader)@.valid(),
        tag.valid(),
        depth <= crate::protobuf::RECURSION_LIMIT,
    ensures
        final(reader)@.bytes == old(reader)@.bytes,
        match message::element::<Header>(tag, old(reader)@, depth) {
            Ok((header, next)) => {
                &&& r is Ok
                &&& header_views(final(headers)@) == header_views(old(headers)@).push(header)
                &&& final(reader)@ == next
            },
            Err(e) => r matches Err(t) && t@ == e,
        },
{
    match message::merge_element::<Header>(tag, reader, depth) {
        Ok(header) => {
            headers.push(header);
            assert(header_views(headers@) =~= header_views(old(headers)@).push(header@));
            Ok(())
        },
        Err(e) => Err(e),
    }
}

/// Headers read back, where reading some stores them with `set`.
proof fn headers_read<M: Message>(
    number: u32,
    headers: Seq<HeaderView>,
    set: spec_fn(Seq<HeaderView>) -> M::V,
    depth: u32,
)
    requires
        1 <= number <= crate::protobuf::MAX_FIELD_NUMBER,
        depth >= 1,
        headers_sound(headers, depth),
        message::fields_bytes(header_fields(number, headers)).len()
            <= crate::protobuf::MAX_MESSAGE_BYTES,
        forall|before: Seq<HeaderView>, input: message::Input|
            #[trigger] M::merged(
                set(before),
                Tag { number, wire_type: crate::protobuf::LENGTH_DELIMITED },
                input,
                depth,
            ) == (match message::element::<Header>(
                Tag { number, wire_type: crate::protobuf::LENGTH_DELIMITED },
                input,
                depth,
            ) {
                Ok((x, next)) => Ok::<(M::V, message::Input), Seq<char>>(
                    (set(before.push(x)), next),
                ),
                Err(e) => Err(e),
            }),
    ensures
        message::reads::<M>(
            set(Seq::empty()),
            header_fields(number, headers),
            headers_cost(headers, depth),
            set(headers),
            depth,
        ),
    decreases headers.len(),
{
    let fields = header_fields(number, headers);
    if headers.len() == 0 {
        assert(fields =~= Seq::empty());
        assert(headers =~= Seq::empty());
        message::reads_nothing::<M>(set(headers), depth);
    } else {
        let before = headers.drop_last();
        let last = headers.last();
        let front = header_fields(number, before);
        let field = message::Field::Payload { number, bytes: message::encoding::<Header>(last) };
        assert(fields =~= front + seq![field]);
        message::fields_bytes_add(front, seq![field]);
        assert forall|i: int| 0 <= i < before.len() implies Header::sound(
            #[trigger] before[i],
            (depth - 1) as u32,
        ) by {
            assert(before[i] == headers[i]);
        }
        headers_read::<M>(number, before, set, depth);
        message::element_reads::<M, Header>(
            number,
            last,
            set(before),
            |x: HeaderView| set(before.push(x)),
            depth,
        );
        assert(before.push(last) =~= headers);
        message::reads_both::<M>(
            set(Seq::empty()),
            front,
            headers_cost(before, depth),
            set(before),
            seq![field],
            message::element_cost::<Header>(last, depth),
            set(headers),
            depth,
        );
    }
}

/// Whether the unknown fields of some headers are such as are read.
pub open spec fn headers_sound(headers: Seq<HeaderView>, depth: u32) -> bool {
    forall|i: int|
        0 <= i < headers.len() ==> Header::sound(#[trigger] headers[i], (depth - 1) as u32)
}

/// What reading some headers takes of the limits.
pub open spec fn headers_cost(headers: Seq<HeaderView>, depth: u32) -> message::Cost
    decreases headers.len(),
{
    if headers.len() == 0 {
        message::Cost::nothing()
    } else {
        headers_cost(headers.drop_last(), depth).plus(
            message::element_cost::<Header>(headers.last(), depth),
        )
    }
}

/// One more header costs as much more as it costs itself.
proof fn headers_cost_push(headers: Seq<HeaderView>, header: HeaderView, depth: u32)
    ensures
        headers_cost(headers.push(header), depth) == headers_cost(headers, depth).plus(
            message::element_cost::<Header>(header, depth),
        ),
{
    assert(headers.push(header).drop_last() =~= headers);
}

/// Headers without unknown fields take nothing of the limits but the memory that each
/// of them needs.
pub proof fn plain_headers_need_memory_only(headers: Seq<HeaderView>, depth: u32)
    requires
        forall|i: int| 0 <= i < headers.len() ==> (#[trigger] headers[i]).unknown.len() == 0,
    ensures
        headers_sound(headers, depth),
        headers_cost(headers, depth) == (message::Cost {
            unknown: 0,
            memory: headers.len() * vstd::layout::size_of::<Header>(),
        }),
    decreases headers.len(),
{
    if headers.len() > 0 {
        let before = headers.drop_last();
        assert forall|i: int| 0 <= i < before.len() implies (
        #[trigger] before[i]).unknown.len() == 0 by {
            assert(before[i] == headers[i]);
        }
        plain_headers_need_memory_only(before, depth);
        assert(headers[headers.len() - 1] == headers.last());
        let size = vstd::layout::size_of::<Header>();
        assert((headers.len() - 1) * size + size == headers.len() * size) by (nonlinear_arith);
    }
}

/// One frame of a streamed response.
#[derive(Clone, Debug, Default, PartialEq)]
pub struct ResponseFrame {
    /// What the frame carries.
    pub frame: Option<Frame>,
    /// Fields that the message does not know, in the order in which they came.
    pub unknown_fields: Vec<message::UnknownField>,
}

/// What a [`ResponseFrame`] says.
#[verifier::ext_equal]
pub struct ResponseFrameView {
    pub frame: Option<FrameView>,
    pub unknown: Seq<message::UnknownView>,
}

impl View for ResponseFrame {
    type V = ResponseFrameView;

    open spec fn view(&self) -> ResponseFrameView {
        ResponseFrameView {
            frame: match self.frame {
                Some(frame) => Some(frame@),
                None => None,
            },
            unknown: message::unknown_views(self.unknown_fields@),
        }
    }
}

/// The field that is written for what a frame carries.
pub open spec fn frame_fields(frame: Option<FrameView>) -> Seq<message::Field> {
    match frame {
        None => Seq::empty(),
        Some(FrameView::Message(bytes)) => {
            seq![message::Field::Payload { number: FRAME_MESSAGE, bytes }]
        },
        Some(FrameView::Trailers(trailers)) => {
            seq![message::Field::Payload {
                number: FRAME_TRAILERS,
                bytes: message::encoding::<Trailers>(trailers),
            }]
        },
        Some(FrameView::Error(text)) => {
            seq![message::Field::Payload {
                number: FRAME_ERROR,
                bytes: vstd::utf8::encode_utf8(text),
            }]
        },
        Some(FrameView::End(end)) => {
            seq![message::Field::Payload {
                number: FRAME_END,
                bytes: message::encoding::<End>(end),
            }]
        },
    }
}

/// The trailers that further ones are read into.
pub open spec fn trailers_so_far(frame: Option<FrameView>) -> TrailersView {
    match frame {
        Some(FrameView::Trailers(trailers)) => trailers,
        _ => Trailers::blank(),
    }
}

/// The end mark that a further one is read into.
pub open spec fn end_so_far(frame: Option<FrameView>) -> EndView {
    match frame {
        Some(FrameView::End(end)) => end,
        _ => End::blank(),
    }
}

/// Whether the unknown fields in what a frame carries are such as are read.
pub open spec fn frame_sound(frame: Option<FrameView>, depth: u32) -> bool {
    match frame {
        Some(FrameView::Trailers(trailers)) => Trailers::sound(trailers, (depth - 1) as u32),
        Some(FrameView::End(end)) => End::sound(end, (depth - 1) as u32),
        _ => true,
    }
}

/// What reading what a frame carries takes of the limits.
pub open spec fn frame_cost(frame: Option<FrameView>, depth: u32) -> message::Cost {
    match frame {
        Some(FrameView::Trailers(trailers)) => Trailers::cost(trailers, (depth - 1) as u32),
        Some(FrameView::End(end)) => End::cost(end, (depth - 1) as u32),
        _ => message::Cost::nothing(),
    }
}

impl Message for ResponseFrame {
    open spec fn blank() -> ResponseFrameView {
        ResponseFrameView { frame: None, unknown: Seq::empty() }
    }

    open spec fn fields(value: ResponseFrameView) -> Seq<message::Field> {
        frame_fields(value.frame) + message::unknown_fields(value.unknown)
    }

    open spec fn merged(
        value: ResponseFrameView,
        tag: Tag,
        input: message::Input,
        depth: u32,
    ) -> message::Read<ResponseFrameView> {
        if tag.number == FRAME_MESSAGE {
            match message::blob(tag, input) {
                Ok((x, next)) => Ok(
                    (ResponseFrameView { frame: Some(FrameView::Message(x)), ..value }, next),
                ),
                Err(e) => Err(e),
            }
        } else if tag.number == FRAME_TRAILERS {
            match message::nested::<Trailers>(trailers_so_far(value.frame), tag, input, depth) {
                Ok((x, next)) => Ok(
                    (ResponseFrameView { frame: Some(FrameView::Trailers(x)), ..value }, next),
                ),
                Err(e) => Err(e),
            }
        } else if tag.number == FRAME_ERROR {
            match message::text(tag, input) {
                Ok((x, next)) => Ok(
                    (ResponseFrameView { frame: Some(FrameView::Error(x)), ..value }, next),
                ),
                Err(e) => Err(e),
            }
        } else if tag.number == FRAME_END {
            match message::nested::<End>(end_so_far(value.frame), tag, input, depth) {
                Ok((x, next)) => Ok(
                    (ResponseFrameView { frame: Some(FrameView::End(x)), ..value }, next),
                ),
                Err(e) => Err(e),
            }
        } else {
            match message::unknown(tag, input, depth) {
                Ok((x, next)) => Ok(
                    (ResponseFrameView { unknown: value.unknown.push(x), ..value }, next),
                ),
                Err(e) => Err(e),
            }
        }
    }

    open spec fn levels() -> nat {
        2
    }

    open spec fn knows(number: u32) -> bool {
        number == FRAME_MESSAGE || number == FRAME_TRAILERS || number == FRAME_ERROR || number
            == FRAME_END
    }

    open spec fn sound(value: ResponseFrameView, depth: u32) -> bool {
        &&& frame_sound(value.frame, depth)
        &&& forall|i: int|
            0 <= i < value.unknown.len() ==> (#[trigger] value.unknown[i]).sound(depth)
                && !Self::knows(value.unknown[i].number)
    }

    open spec fn cost(value: ResponseFrameView, depth: u32) -> message::Cost {
        frame_cost(value.frame, depth).plus(message::unknown_cost(value.unknown, depth))
    }

    fn fresh() -> (r: ResponseFrame) {
        let r = ResponseFrame { frame: None, unknown_fields: Vec::new() };
        assert(r@ =~= Self::blank());
        r
    }

    fn write_to(&self, out: &mut Vec<u8>) {
        match &self.frame {
            None => {
                assert(out@ + Seq::<u8>::empty() =~= out@);
            },
            Some(Frame::Message(bytes)) => {
                message::put_blob(FRAME_MESSAGE, bytes.as_slice(), out);
            },
            Some(Frame::Trailers(trailers)) => {
                let mut entry: Vec<u8> = Vec::new();
                trailers.write_to(&mut entry);
                assert(entry@ =~= message::encoding::<Trailers>((**trailers)@));
                message::put_blob(FRAME_TRAILERS, entry.as_slice(), out);
            },
            Some(Frame::Error(text)) => {
                message::put_blob(FRAME_ERROR, text.as_str().as_bytes(), out);
            },
            Some(Frame::End(end)) => {
                let mut entry: Vec<u8> = Vec::new();
                end.write_to(&mut entry);
                assert(entry@ =~= message::encoding::<End>((**end)@));
                message::put_blob(FRAME_END, entry.as_slice(), out);
            },
        }
        message::write_unknown(&self.unknown_fields, out);
        proof {
            let _ = message::one_more(
                old(out)@,
                frame_fields(self@.frame),
                message::unknown_fields(self@.unknown),
            );
        }
    }

    fn merge_field(&mut self, tag: Tag, reader: &mut Reader, depth: u32) -> (r: Result<
        (),
        String,
    >) {
        if tag.number == FRAME_MESSAGE {
            match reader.blob(tag) {
                Ok(x) => {
                    self.frame = Some(Frame::Message(x));
                    Ok(())
                },
                Err(e) => Err(e),
            }
        } else if tag.number == FRAME_TRAILERS {
            let mut trailers = match self.frame.take() {
                Some(Frame::Trailers(trailers)) => *trailers,
                _ => Trailers::fresh(),
            };
            match message::merge_nested(&mut trailers, tag, reader, depth) {
                Ok(()) => {
                    self.frame = Some(Frame::Trailers(Box::new(trailers)));
                    Ok(())
                },
                Err(e) => Err(e),
            }
        } else if tag.number == FRAME_ERROR {
            match reader.text(tag) {
                Ok(x) => {
                    self.frame = Some(Frame::Error(x));
                    Ok(())
                },
                Err(e) => Err(e),
            }
        } else if tag.number == FRAME_END {
            let mut end = match self.frame.take() {
                Some(Frame::End(end)) => *end,
                _ => End::fresh(),
            };
            match message::merge_nested(&mut end, tag, reader, depth) {
                Ok(()) => {
                    self.frame = Some(Frame::End(Box::new(end)));
                    Ok(())
                },
                Err(e) => Err(e),
            }
        } else {
            message::push_unknown(&mut self.unknown_fields, tag, reader, depth)
        }
    }

    proof fn merged_advances(
        value: ResponseFrameView,
        tag: Tag,
        input: message::Input,
        depth: u32,
    ) {
        message::reads_advance(tag, input, depth);
        message::nested_advances::<Trailers>(trailers_so_far(value.frame), tag, input, depth);
        message::nested_advances::<End>(end_so_far(value.frame), tag, input, depth);
    }

    proof fn blank_is_sound(depth: u32) {
    }

    proof fn merged_keeps(value: ResponseFrameView, tag: Tag, input: message::Input, depth: u32) {
        message::unknown_keeps(tag, input, depth);
        match message::unknown(tag, input, depth) {
            Ok((x, _)) => {
                message::unknown_count_push(value.unknown, x, depth);
            },
            Err(_) => {},
        }
        Trailers::blank_is_sound((depth - 1) as u32);
        End::blank_is_sound((depth - 1) as u32);
        message::nested_keeps::<Trailers>(trailers_so_far(value.frame), tag, input, depth);
        message::nested_keeps::<End>(end_so_far(value.frame), tag, input, depth);
    }
}

impl message::Lossless for ResponseFrame {
    proof fn fields_read_back(value: ResponseFrameView, depth: u32) {
        let blank = Self::blank();
        let f0 = frame_fields(value.frame);
        let g1 = message::unknown_fields(value.unknown);
        message::fields_bytes_add(f0, g1);
        match value.frame {
            None => {
                message::reads_nothing::<ResponseFrame>(blank, depth);
            },
            Some(FrameView::Message(bytes)) => {
                message::blob_reads::<ResponseFrame>(
                    FRAME_MESSAGE,
                    bytes,
                    blank,
                    |x: Seq<u8>| ResponseFrameView { frame: Some(FrameView::Message(x)), ..blank },
                    depth,
                );
            },
            Some(FrameView::Trailers(trailers)) => {
                message::nested_field_reads::<ResponseFrame, Trailers>(
                    FRAME_TRAILERS,
                    trailers,
                    blank,
                    |x: TrailersView|
                        ResponseFrameView { frame: Some(FrameView::Trailers(x)), ..blank },
                    depth,
                );
            },
            Some(FrameView::Error(text)) => {
                message::text_reads::<ResponseFrame>(
                    FRAME_ERROR,
                    text,
                    blank,
                    |x: Seq<char>| ResponseFrameView { frame: Some(FrameView::Error(x)), ..blank },
                    depth,
                );
            },
            Some(FrameView::End(end)) => {
                message::nested_field_reads::<ResponseFrame, End>(
                    FRAME_END,
                    end,
                    blank,
                    |x: EndView| ResponseFrameView { frame: Some(FrameView::End(x)), ..blank },
                    depth,
                );
            },
        }
        let v1 = ResponseFrameView { frame: value.frame, ..blank };
        message::unknown_fields_read::<ResponseFrame>(
            value.unknown,
            |x: Seq<message::UnknownView>| ResponseFrameView { unknown: x, ..v1 },
            depth,
        );
        let v2 = ResponseFrameView { unknown: value.unknown, ..v1 };
        message::reads_both::<ResponseFrame>(
            blank,
            f0,
            frame_cost(value.frame, depth),
            v1,
            g1,
            message::unknown_cost(value.unknown, depth),
            v2,
            depth,
        );
        assert(v2 =~= value);
    }
}

} // verus!
