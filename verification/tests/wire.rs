//! The envelopes: their bytes, what reads back, and what is refused.

use connectrpc_tauri::codec::{decode, decode_bytes, encode, try_encode, InvokeBody};
use connectrpc_tauri::message::UnknownField;
use connectrpc_tauri::protobuf::ELEMENT_MEMORY_LIMIT;
use connectrpc_tauri::wire::response_frame::Frame;
use connectrpc_tauri::wire::{
    CancelRequest, End, Header, ResponseFrame, ResponseHead, SendRequest, StartRequest, Trailers,
};

fn header(name: &str, value: &str) -> Header {
    Header { name: name.to_string(), value: value.to_string(), ..Default::default() }
}

fn cancel(call_id: u64) -> CancelRequest {
    CancelRequest { call_id, ..Default::default() }
}

fn trailers(headers: Vec<Header>) -> Trailers {
    Trailers { headers, ..Default::default() }
}

fn carrying(frame: Frame) -> ResponseFrame {
    ResponseFrame { frame: Some(frame), ..Default::default() }
}

fn unknown(number: u32, wire_type: u8, bytes: &[u8]) -> UnknownField {
    UnknownField { number, wire_type, bytes: bytes.to_vec() }
}

#[test]
fn frames_are_protobuf_encoded() {
    // Guards the wire contract the TypeScript side decodes.
    let frame = ResponseFrame { frame: Some(Frame::Message(vec![1, 2, 3])), ..Default::default() };
    let bytes = encode(&frame);
    let decoded: ResponseFrame = decode_bytes(bytes.as_slice()).expect("round trip");
    assert!(matches!(
        decoded.frame,
        Some(Frame::Message(ref b)) if b == &[1, 2, 3]
    ));
}

#[test]
fn a_message_frame_has_these_bytes() {
    let frame = carrying(Frame::Message(vec![1, 2, 3]));
    assert_eq!(encode(&frame), vec![0x0a, 3, 1, 2, 3]);
}

#[test]
fn an_empty_message_frame_is_still_written() {
    let frame = carrying(Frame::Message(Vec::new()));
    assert_eq!(encode(&frame), vec![0x0a, 0]);
    let back: ResponseFrame = decode_bytes(&[0x0a, 0]).expect("decodes");
    assert_eq!(back, frame);
}

#[test]
fn trailers_errors_and_ends_read_back() {
    let frames = vec![
        Frame::Trailers(Box::new(trailers(vec![header("a", "1"), header("a", "2")]))),
        Frame::Error("it broke".to_string()),
        Frame::End(Box::new(End::default())),
    ];
    for frame in frames {
        let sent = carrying(frame);
        let back: ResponseFrame = decode_bytes(encode(&sent).as_slice()).expect("decodes");
        assert_eq!(back, sent);
    }
    assert_eq!(
        encode(&carrying(Frame::Error("no".to_string()))),
        vec![0x1a, 2, b'n', b'o']
    );
    assert_eq!(encode(&carrying(Frame::End(Box::new(End::default())))), vec![0x22, 0]);
}

#[test]
fn a_start_request_reads_back() {
    let start = StartRequest {
        call_id: 300,
        url: "/greet.v1.GreetService/Greet".to_string(),
        method: "POST".to_string(),
        headers: vec![header("content-type", "application/proto"), header("x-a", "1")],
        body: vec![0, 255, 7],
        streaming_request: true,
        channel: "__CHANNEL__:7".to_string(),
        ..Default::default()
    };
    let back: StartRequest = decode_bytes(encode(&start).as_slice()).expect("decodes");
    assert_eq!(back, start);
}

#[test]
fn defaults_are_left_out() {
    assert_eq!(encode(&StartRequest::default()), Vec::<u8>::new());
    let back: StartRequest = decode_bytes(&[]).expect("decodes");
    assert_eq!(back, StartRequest::default());
}

#[test]
fn integers_are_varints() {
    assert_eq!(encode(&cancel(300)), vec![0x08, 0xac, 0x02]);
    let most = cancel(u64::MAX);
    assert_eq!(
        encode(&most),
        vec![0x08, 0xff, 0xff, 0xff, 0xff, 0xff, 0xff, 0xff, 0xff, 0xff, 0x01]
    );
    let back: CancelRequest = decode_bytes(encode(&most).as_slice()).expect("decodes");
    assert_eq!(back.call_id, u64::MAX);
}

#[test]
fn a_send_request_reads_back() {
    let send = SendRequest { call_id: 5, chunk: vec![9; 200], ..Default::default() };
    let back: SendRequest = decode_bytes(encode(&send).as_slice()).expect("decodes");
    assert_eq!(back, send);
    let end = SendRequest { call_id: 5, end_of_stream: true, ..Default::default() };
    assert_eq!(encode(&end), vec![0x08, 5, 0x18, 1]);
}

#[test]
fn a_response_head_reads_back() {
    let head = ResponseHead {
        status: 200,
        headers: vec![header("a", "b")],
        body: b"hello".to_vec(),
        ..Default::default()
    };
    let bytes = encode(&head);
    assert_eq!(
        bytes,
        [
            &[0x08, 0xc8, 0x01, 0x12, 6, 0x0a, 1, b'a', 0x12, 1, b'b', 0x1a, 5][..],
            &b"hello"[..],
        ]
        .concat()
    );
    let back: ResponseHead = decode_bytes(bytes.as_slice()).expect("decodes");
    assert_eq!(back, head);
    assert_eq!(try_encode(&head), Some(bytes));
}

#[test]
fn a_later_field_wins_and_trailers_merge() {
    let back: CancelRequest = decode_bytes(&[0x08, 1, 0x08, 2]).expect("decodes");
    assert_eq!(back.call_id, 2);
    let one = encode(&carrying(Frame::Trailers(Box::new(trailers(vec![header("a", "1")])))));
    let two = encode(&carrying(Frame::Trailers(Box::new(trailers(vec![header("b", "2")])))));
    let both: ResponseFrame = decode_bytes([one, two].concat().as_slice()).expect("decodes");
    let expected = trailers(vec![header("a", "1"), header("b", "2")]);
    assert_eq!(both.frame, Some(Frame::Trailers(Box::new(expected))));
}

#[test]
fn unknown_fields_are_kept_and_written_behind_the_others() {
    // Field 15 as a varint, fixed64, bytes, a group with a field in it, and fixed32.
    let fields = [
        unknown(15, 0, &[0x78, 0x96, 0x01]),
        unknown(15, 1, &[0x79, 1, 2, 3, 4, 5, 6, 7, 8]),
        unknown(15, 2, &[0x7a, 2, 9, 9]),
        unknown(15, 3, &[0x7b, 0x08, 1, 0x7c]),
        unknown(15, 5, &[0x7d, 1, 2, 3, 4]),
    ];
    let kept: Vec<u8> = fields.iter().flat_map(|field| field.bytes.clone()).collect();
    let bytes = [kept.clone(), vec![0x08, 42]].concat();
    let back: CancelRequest = decode_bytes(bytes.as_slice()).expect("decodes");
    assert_eq!(back.call_id, 42);
    assert_eq!(back.unknown_fields, fields.to_vec());
    // What was read can be passed on.
    let again = encode(&back);
    assert_eq!(again, [vec![0x08, 42], kept].concat());
    assert_eq!(decode_bytes::<CancelRequest>(again.as_slice()), Ok(back));
}

#[test]
fn unknown_fields_are_written_in_as_few_bytes_as_can_be() {
    // A tag, a value and a length that take a byte more than they need.
    let back: CancelRequest =
        decode_bytes(&[0xf8, 0x00, 0x81, 0x00, 0x7a, 0x81, 0x00, 7]).expect("decodes");
    assert_eq!(encode(&back), vec![0x78, 1, 0x7a, 1, 7]);
}

#[test]
fn nested_messages_keep_their_unknown_fields() {
    // A head with a header that holds a name, an unknown field and a value.
    let bytes = [0x12, 8, 0x0a, 1, b'a', 0x78, 5, 0x12, 1, b'b'];
    let head: ResponseHead = decode_bytes(&bytes).expect("decodes");
    assert_eq!(head.headers[0].name, "a");
    assert_eq!(head.headers[0].value, "b");
    assert_eq!(head.headers[0].unknown_fields, vec![unknown(15, 0, &[0x78, 5])]);
    assert_eq!(head.unknown_fields, Vec::new());
    let again = encode(&head);
    assert_eq!(again, vec![0x12, 8, 0x0a, 1, b'a', 0x12, 1, b'b', 0x78, 5]);
    assert_eq!(decode_bytes::<ResponseHead>(again.as_slice()), Ok(head));
}

#[test]
fn end_marks_merge_and_other_frames_replace_them() {
    // Two end marks with an unknown field each, and one beside them.
    let frame: ResponseFrame =
        decode_bytes(&[0x22, 2, 0x78, 1, 0x22, 2, 0x78, 2, 0x78, 3]).expect("decodes");
    let end = End { unknown_fields: vec![unknown(15, 0, &[0x78, 1]), unknown(15, 0, &[0x78, 2])] };
    assert_eq!(frame.frame, Some(Frame::End(Box::new(end))));
    assert_eq!(frame.unknown_fields, vec![unknown(15, 0, &[0x78, 3])]);
    assert_eq!(encode(&frame), vec![0x22, 4, 0x78, 1, 0x78, 2, 0x78, 3]);
    // A message behind an end mark takes its place.
    let frame: ResponseFrame =
        decode_bytes(&[0x22, 2, 0x78, 1, 0x0a, 1, 9]).expect("decodes");
    assert_eq!(frame, carrying(Frame::Message(vec![9])));
}

#[test]
fn headers_take_so_much_memory_at_most() {
    let fit: usize = ELEMENT_MEMORY_LIMIT / std::mem::size_of::<Header>();
    // Empty headers: two bytes each.
    let many = [0x22, 0].repeat(fit);
    let start: StartRequest = decode_bytes(many.as_slice()).expect("decodes");
    assert_eq!(start.headers.len(), fit);
    let more = [0x22, 0].repeat(fit + 1);
    assert_eq!(refused(more.as_slice()), "element memory limit exceeded");
    // The memory is taken before the header is looked at, and after its wire type is.
    assert_eq!(
        refused([many.clone(), vec![0x22]].concat().as_slice()),
        "element memory limit exceeded"
    );
    assert_eq!(
        refused([many, vec![0x20, 0]].concat().as_slice()),
        "wire type mismatch on field 4: expected 2, got 0"
    );
    // Trailers that come in pieces share it.
    let in_trailers = [0x12, 2, 0x0a, 0].repeat(fit + 1);
    assert_eq!(
        decode_bytes::<ResponseFrame>(in_trailers.as_slice()),
        Err("element memory limit exceeded".to_string())
    );
}

fn refused(bytes: &[u8]) -> String {
    decode_bytes::<StartRequest>(bytes).expect_err("refused")
}

#[test]
fn malformed_messages_are_refused() {
    assert_eq!(refused(&[0x08]), "unexpected end of buffer");
    assert_eq!(refused(&[0x08, 0x80]), "unexpected end of buffer");
    assert_eq!(
        refused(&[0x08, 0xff, 0xff, 0xff, 0xff, 0xff, 0xff, 0xff, 0xff, 0xff, 0x02]),
        "varint exceeded maximum length of 10 bytes"
    );
    assert_eq!(
        refused(&[0x08, 0xff, 0xff, 0xff, 0xff, 0xff, 0xff, 0xff, 0xff, 0xff, 0xff]),
        "varint exceeded maximum length of 10 bytes"
    );
    assert_eq!(refused(&[0x0e]), "invalid wire type: 6");
    assert_eq!(refused(&[0x0f]), "invalid wire type: 7");
    assert_eq!(refused(&[0x00]), "invalid field number");
    assert_eq!(refused(&[0x80, 0x80, 0x80, 0x80, 0x10]), "invalid field number");
    assert_eq!(refused(&[0x12, 5, b'a']), "unexpected end of buffer");
    assert_eq!(refused(&[0x12, 1, 0xff]), "invalid UTF-8 in string field");
    assert_eq!(refused(&[0x22, 5, 0x0a]), "unexpected end of buffer");
    // A header whose name runs past the end of the header.
    assert_eq!(refused(&[0x22, 3, 0x0a, 2, b'a', b'b']), "unexpected end of buffer");
    // A header of 4 GiB - 1, of 2 GiB, and of the largest size that there is.
    let over = "message length exceeds the size limit (2 GiB protobuf maximum, or a configured \
        DecodeOptions limit)";
    assert_eq!(refused(&[0x22, 0xff, 0xff, 0xff, 0xff, 0x0f]), over);
    assert_eq!(refused(&[0x22, 0x80, 0x80, 0x80, 0x80, 0x08]), over);
    assert_eq!(refused(&[0x22, 0xff, 0xff, 0xff, 0xff, 0x07]), "unexpected end of buffer");
}

#[test]
fn a_foreign_wire_type_is_refused() {
    // The call id as bytes; the url, the headers and the body as varints.
    assert_eq!(refused(&[0x0a, 0]), "wire type mismatch on field 1: expected 0, got 2");
    assert_eq!(refused(&[0x10, 0]), "wire type mismatch on field 2: expected 2, got 0");
    assert_eq!(refused(&[0x20, 0]), "wire type mismatch on field 4: expected 2, got 0");
    assert_eq!(refused(&[0x2d, 0]), "wire type mismatch on field 5: expected 2, got 5");
}

#[test]
fn unknown_groups_end_where_they_say_and_nest_so_deep() {
    assert_eq!(refused(&[0x7b, 0x08, 1]), "unexpected end of buffer");
    assert_eq!(refused(&[0x7b, 0x74]), "invalid end-group tag: field number 14");
    assert_eq!(refused(&[0x7c]), "invalid wire type: 4");
    let deep: Vec<u8> = [vec![0x7b; 100], vec![0x7c; 100]].concat();
    assert!(decode_bytes::<StartRequest>(deep.as_slice()).is_ok());
    let deeper: Vec<u8> = [vec![0x7b; 101], vec![0x7c; 101]].concat();
    assert_eq!(refused(deeper.as_slice()), "recursion limit exceeded");
    // One level less is left inside a header.
    let within: Vec<u8> = [vec![0x22, 0xc8, 0x01], vec![0x7b; 100], vec![0x7c; 100]].concat();
    assert_eq!(refused(within.as_slice()), "recursion limit exceeded");
}

#[test]
fn a_message_holds_a_million_unknown_fields_at_most() {
    let many = [0x78, 0].repeat(1_000_000);
    assert!(decode_bytes::<StartRequest>(many.as_slice()).is_ok());
    let more = [0x78, 0].repeat(1_000_001);
    assert_eq!(refused(more.as_slice()), "unknown field limit exceeded");
}

#[test]
fn only_raw_payloads_are_decoded() {
    let raw = InvokeBody::Raw(encode(&cancel(7)));
    assert_eq!(decode::<CancelRequest>(&raw).expect("decodes").call_id, 7);
    assert_eq!(
        decode::<CancelRequest>(&InvokeBody::Json).expect_err("refused"),
        "expected a raw IPC payload; send an ArrayBuffer"
    );
    assert_eq!(
        decode::<CancelRequest>(&InvokeBody::Raw(vec![0x08])).expect_err("refused"),
        "malformed transport frame: unexpected end of buffer"
    );
}
