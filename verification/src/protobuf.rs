//! The protobuf wire format, as far as the transport envelopes use it.
//!
//! Bytes are written and read by `buffa`; the spec functions below say which
//! bytes those are. A read either hands back a value and the offset behind it,
//! or the text of the error that `buffa` reports.

use vstd::prelude::*;
use vstd::utf8::{
    decode_utf8, encode_utf8, encode_utf8_decode_utf8, encode_utf8_valid_utf8, valid_utf8,
};

verus! {

/// The largest field number that a tag can carry.
pub const MAX_FIELD_NUMBER: u32 = 536870911;

/// The largest size that an encoded message may have.
pub const MAX_MESSAGE_BYTES: u32 = 2147483647;

/// How many levels of nesting a message may have. Each level takes stack space while
/// it is read.
pub const RECURSION_LIMIT: u32 = 100;

/// How many fields that nobody knows a message may hold, nested ones included.
pub const UNKNOWN_FIELD_LIMIT: usize = 1000000;

/// How many bytes of memory the elements of repeated messages may take, nested ones
/// included.
pub const ELEMENT_MEMORY_LIMIT: usize = 33554432;

/// Wire type of integers and booleans.
pub const VARINT: u8 = 0;

/// Wire type of strings, byte strings and nested messages.
pub const LENGTH_DELIMITED: u8 = 2;

/// What `buffa` says of a length that is over a limit.
pub const TOO_LARGE: &'static str = "message length exceeds the size limit \
    (2 GiB protobuf maximum, or a configured DecodeOptions limit)";

/// A field number and the wire type of the value that follows it.
#[derive(Clone, Copy, Debug, PartialEq, Eq, Structural)]
pub struct Tag {
    pub number: u32,
    pub wire_type: u8,
}

impl Tag {
    /// Whether a message can hold this tag.
    pub open spec fn valid(self) -> bool {
        &&& 1 <= self.number <= MAX_FIELD_NUMBER
        &&& self.wire_type <= 5
    }
}

// ---- what is written ----

/// The base-128 form of `value`: seven bits a byte, the lowest first, the high
/// bit set on every byte but the last.
pub open spec fn varint_bytes(value: nat) -> Seq<u8>
    decreases value,
{
    if value < 128 {
        seq![value as u8]
    } else {
        seq![(value % 128 + 128) as u8] + varint_bytes(value / 128)
    }
}

/// The bytes of a tag.
pub open spec fn tag_bytes(number: u32, wire_type: u8) -> Seq<u8> {
    varint_bytes((number * 8 + wire_type) as nat)
}

/// A field that holds an integer.
pub open spec fn varint_field(number: u32, value: u64) -> Seq<u8> {
    tag_bytes(number, VARINT) + varint_bytes(value as nat)
}

/// A field that holds `payload`, prefixed with its length.
pub open spec fn bytes_field(number: u32, payload: Seq<u8>) -> Seq<u8> {
    tag_bytes(number, LENGTH_DELIMITED) + varint_bytes(payload.len()) + payload
}

// ---- what is read ----

/// Reads a varint whose first `taken` bytes lie before `at`.
///
/// A varint has at most ten bytes, and the tenth carries only the top bit of a
/// 64-bit value.
pub open spec fn varint_from(bytes: Seq<u8>, at: int, taken: nat) -> Result<(nat, int), Seq<char>>
    decreases 9 - taken,
{
    if at >= bytes.len() {
        Err("unexpected end of buffer"@)
    } else if taken >= 9 {
        if bytes[at] > 1 {
            Err("varint exceeded maximum length of 10 bytes"@)
        } else {
            Ok((bytes[at] as nat, at + 1))
        }
    } else if bytes[at] < 128 {
        Ok((bytes[at] as nat, at + 1))
    } else {
        match varint_from(bytes, at + 1, taken + 1) {
            Ok((rest, next)) => Ok(((bytes[at] - 128 + 128 * rest) as nat, next)),
            Err(e) => Err(e),
        }
    }
}

/// Reads a varint at `at`.
pub open spec fn varint_at(bytes: Seq<u8>, at: int) -> Result<(nat, int), Seq<char>> {
    varint_from(bytes, at, 0)
}

/// Reads a tag at `at`.
pub open spec fn tag_at(bytes: Seq<u8>, at: int) -> Result<(Tag, int), Seq<char>> {
    match varint_at(bytes, at) {
        Ok((value, next)) => if value > u32::MAX {
            Err("invalid field number"@)
        } else if value % 8 == 6 {
            Err("invalid wire type: 6"@)
        } else if value % 8 == 7 {
            Err("invalid wire type: 7"@)
        } else if value / 8 == 0 {
            Err("invalid field number"@)
        } else {
            Ok((Tag { number: (value / 8) as u32, wire_type: (value % 8) as u8 }, next))
        },
        Err(e) => Err(e),
    }
}

/// Reads a length-prefixed byte string at `at`.
pub open spec fn bytes_at(bytes: Seq<u8>, at: int) -> Result<(Seq<u8>, int), Seq<char>> {
    match varint_at(bytes, at) {
        Ok((len, next)) => if len > usize::MAX {
            Err(TOO_LARGE@)
        } else if bytes.len() - next < len {
            Err("unexpected end of buffer"@)
        } else {
            Ok((bytes.subrange(next, next + len), next + len))
        },
        Err(e) => Err(e),
    }
}

/// Reads a length-prefixed UTF-8 string at `at`.
pub open spec fn text_at(bytes: Seq<u8>, at: int) -> Result<(Seq<char>, int), Seq<char>> {
    match bytes_at(bytes, at) {
        Ok((payload, next)) => if valid_utf8(payload) {
            Ok((decode_utf8(payload), next))
        } else {
            Err("invalid UTF-8 in string field"@)
        },
        Err(e) => Err(e),
    }
}

/// What reading one field that a message does not know yields: the bytes in which it
/// is written again, its tag in front; the bytes behind it; and how many more such
/// fields may follow. Or an error text.
pub uninterp spec fn unknown_at(
    bytes: Seq<u8>,
    number: u32,
    wire_type: u8,
    depth: u32,
    allowance: usize,
) -> Result<(Seq<u8>, Seq<u8>, usize), Seq<char>>;

/// Whether `kept` is an unknown field, its tag in front, that reads back as itself:
/// whatever follows it is left over, and it counts as `count` unknown fields.
pub open spec fn replays(
    kept: Seq<u8>,
    number: u32,
    wire_type: u8,
    depth: u32,
    count: nat,
) -> bool {
    let tag = tag_bytes(number, wire_type);
    let payload = kept.skip(tag.len() as int);
    &&& kept == tag + payload
    &&& count <= usize::MAX
    &&& forall|tail: Seq<u8>, allowance: usize|
        count <= allowance ==> #[trigger] unknown_at(
            payload + tail,
            number,
            wire_type,
            depth,
            allowance,
        ) == Ok::<(Seq<u8>, Seq<u8>, usize), Seq<char>>(
            (kept, tail, (allowance - count) as usize),
        )
}

/// A number in decimal digits.
pub open spec fn decimal(n: nat) -> Seq<char>
    decreases n,
{
    let digit = ('0' as int + n % 10) as char;
    if n < 10 {
        seq![digit]
    } else {
        decimal(n / 10).push(digit)
    }
}

/// The text of the error for a known field with a foreign wire type.
pub open spec fn mismatch_text(number: u32, expected: u8, actual: u8) -> Seq<char> {
    "wire type mismatch on field "@ + decimal(number as nat) + ": expected "@ + decimal(
        expected as nat,
    ) + ", got "@ + decimal(actual as nat)
}

// ---- the outside functions ----

/// Calls `buffa::types::put_uint64_field`, which appends a tag and a varint.
/// `Tag::new` in it panics on a number outside of 1 to 2^29 - 1.
#[verifier::external_body]
pub(crate) fn put_varint_field(number: u32, value: u64, out: &mut Vec<u8>)
    requires
        1 <= number <= MAX_FIELD_NUMBER,
    ensures
        final(out)@ == old(out)@ + varint_field(number, value),
{
    buffa::types::put_uint64_field(number, value, out);
}

/// Calls `buffa::types::put_bytes_field`, which appends a tag, the payload's
/// length as a varint, and the payload. `Tag::new` in it panics on a number
/// outside of 1 to 2^29 - 1.
#[verifier::external_body]
pub(crate) fn put_bytes_field(number: u32, payload: &[u8], out: &mut Vec<u8>)
    requires
        1 <= number <= MAX_FIELD_NUMBER,
    ensures
        final(out)@ == old(out)@ + bytes_field(number, payload@),
{
    buffa::types::put_bytes_field(number, payload, out);
}

/// Calls `buffa::encoding::Tag::decode`: a varint that must fit 32 bits, whose low
/// three bits are a wire type from 0 to 5 and whose other bits are a field number
/// that is not 0. Hands back the bytes that the call has not consumed.
#[verifier::external_body]
pub(crate) fn read_tag<'a>(bytes: &'a [u8]) -> (r: Result<(Tag, &'a [u8]), String>)
    ensures
        match tag_at(bytes@, 0) {
            Ok((tag, next)) => {
                &&& r matches Ok((t, rest))
                &&& t == tag
                &&& rest@ == bytes@.skip(next)
            },
            Err(e) => r matches Err(text) && text@ == e,
        },
{
    let mut rest = bytes;
    let tag = buffa::encoding::Tag::decode(&mut rest).map_err(|e| e.to_string())?;
    Ok((Tag { number: tag.field_number(), wire_type: tag.wire_type() as u8 }, rest))
}

/// Calls `buffa::types::decode_uint64`: a varint of at most ten bytes. Hands back
/// the bytes that the call has not consumed.
#[verifier::external_body]
pub(crate) fn read_varint<'a>(bytes: &'a [u8]) -> (r: Result<(u64, &'a [u8]), String>)
    ensures
        match varint_at(bytes@, 0) {
            Ok((value, next)) => {
                &&& r matches Ok((v, rest))
                &&& v == value
                &&& rest@ == bytes@.skip(next)
            },
            Err(e) => r matches Err(text) && text@ == e,
        },
{
    let mut rest = bytes;
    let value = buffa::types::decode_uint64(&mut rest).map_err(|e| e.to_string())?;
    Ok((value, rest))
}

/// Calls `buffa::types::decode_bytes`: a varint length and that many bytes. Hands
/// back the bytes that the call has not consumed.
#[verifier::external_body]
pub(crate) fn read_bytes<'a>(bytes: &'a [u8]) -> (r: Result<(Vec<u8>, &'a [u8]), String>)
    ensures
        match bytes_at(bytes@, 0) {
            Ok((payload, next)) => {
                &&& r matches Ok((v, rest))
                &&& v@ == payload
                &&& rest@ == bytes@.skip(next)
            },
            Err(e) => r matches Err(text) && text@ == e,
        },
{
    let mut rest = bytes;
    let payload = buffa::types::decode_bytes(&mut rest).map_err(|e| e.to_string())?;
    Ok((payload, rest))
}

/// Calls `buffa::types::decode_string`: a varint length and that many bytes, which
/// must be UTF-8. Hands back the bytes that the call has not consumed.
#[verifier::external_body]
pub(crate) fn read_text<'a>(bytes: &'a [u8]) -> (r: Result<(String, &'a [u8]), String>)
    ensures
        match text_at(bytes@, 0) {
            Ok((text, next)) => {
                &&& r matches Ok((s, rest))
                &&& s@ == text
                &&& rest@ == bytes@.skip(next)
            },
            Err(e) => r matches Err(text) && text@ == e,
        },
{
    let mut rest = bytes;
    let text = buffa::types::decode_string(&mut rest).map_err(|e| e.to_string())?;
    Ok((text, rest))
}

/// Calls `buffa::encoding::decode_unknown_field`, with `depth` levels of nesting and
/// `allowance` unknown fields left, and turns the field that it read into bytes with
/// `UnknownField::write_to`. What a group holds takes pages to state, so the outcome
/// has a name. Beside it stands that the bytes left over are the last ones of those
/// handed in, that the allowance does not grow, and that what was written reads back:
/// the same call on it, whatever follows, gives the same field, takes just its bytes,
/// and lowers the allowance by as much. The call nests once for each level, so the
/// levels are bounded.
#[verifier::external_body]
pub(crate) fn read_unknown<'a>(
    bytes: &'a [u8],
    tag: Tag,
    depth: u32,
    allowance: usize,
) -> (r: Result<(Vec<u8>, &'a [u8], usize), String>)
    requires
        tag.valid(),
        depth <= RECURSION_LIMIT,
    ensures
        match unknown_at(bytes@, tag.number, tag.wire_type, depth, allowance) {
            Ok((kept, rest, left)) => {
                &&& r matches Ok((v, s, n))
                &&& v@ == kept
                &&& s@ == rest
                &&& n == left
                &&& rest.len() <= bytes@.len()
                &&& rest == bytes@.skip(bytes@.len() - rest.len())
                &&& left <= allowance
                &&& replays(kept, tag.number, tag.wire_type, depth, (allowance - left) as nat)
            },
            Err(e) => r matches Err(text) && text@ == e,
        },
{
    let wire_type = buffa::encoding::WireType::from_u32(tag.wire_type as u32).unwrap();
    let tag = buffa::encoding::Tag::new(tag.number, wire_type);
    let left = std::cell::Cell::new(allowance);
    let context = buffa::DecodeContext::new(depth, &left);
    let mut rest = bytes;
    let field = buffa::encoding::decode_unknown_field(tag, &mut rest, context);
    let mut kept = Vec::new();
    field.map_err(|e| e.to_string())?.write_to(&mut kept);
    Ok((kept, rest, left.get()))
}

/// Calls `buffa::encoding::wire_type_mismatch` for the error of a field whose
/// wire type is not the expected one, and takes the error's text, which names the
/// three numbers.
#[verifier::external_body]
pub(crate) fn mismatch(tag: Tag, expected: u8) -> (r: String)
    requires
        tag.valid(),
        expected <= 5,
    ensures
        r@ == mismatch_text(tag.number, expected, tag.wire_type),
{
    let actual = buffa::encoding::WireType::from_u32(tag.wire_type as u32).unwrap();
    let expected = buffa::encoding::WireType::from_u32(expected as u32).unwrap();
    let tag = buffa::encoding::Tag::new(tag.number, actual);
    buffa::encoding::wire_type_mismatch(tag, expected).to_string()
}

// ---- a read gives back what a write wrote ----

/// Whether `piece` lies in `bytes` at the offset `at`.
pub open spec fn holds_at(bytes: Seq<u8>, at: int, piece: Seq<u8>) -> bool {
    &&& 0 <= at
    &&& at + piece.len() <= bytes.len()
    &&& bytes.subrange(at, at + piece.len()) == piece
}

/// A piece made of two parts holds them one behind the other.
pub proof fn holds_both(bytes: Seq<u8>, at: int, a: Seq<u8>, b: Seq<u8>)
    requires
        holds_at(bytes, at, a + b),
    ensures
        holds_at(bytes, at, a),
        holds_at(bytes, at + a.len(), b),
{
    let piece = bytes.subrange(at, at + (a + b).len());
    assert(bytes.subrange(at, at + a.len()) =~= piece.subrange(0, a.len() as int));
    assert((a + b).subrange(0, a.len() as int) =~= a);
    assert(bytes.subrange(at + a.len(), at + a.len() + b.len()) =~= piece.subrange(
        a.len() as int,
        (a + b).len() as int,
    ));
    assert((a + b).subrange(a.len() as int, (a + b).len() as int) =~= b);
}

/// The values that a varint can still hold once `taken` of its bytes are read.
spec fn room(taken: nat) -> nat
    decreases 9 - taken,
{
    if taken >= 9 {
        2
    } else {
        128 * room(taken + 1)
    }
}

proof fn varint_from_reads_back(bytes: Seq<u8>, at: int, value: nat, taken: nat)
    requires
        taken <= 9,
        value < room(taken),
        holds_at(bytes, at, varint_bytes(value)),
    ensures
        varint_from(bytes, at, taken) == Ok::<(nat, int), Seq<char>>(
            (value, at + varint_bytes(value).len()),
        ),
    decreases value,
{
    let piece = bytes.subrange(at, at + varint_bytes(value).len());
    assert(bytes[at] == piece[0]);
    if value >= 128 {
        let head = seq![(value % 128 + 128) as u8];
        let tail = varint_bytes(value / 128);
        holds_both(bytes, at, head, tail);
        assert(taken < 9);
        varint_from_reads_back(bytes, at + 1, value / 128, taken + 1);
    }
}

/// A varint reads back as the value that it was written for.
pub proof fn varint_reads_back(bytes: Seq<u8>, at: int, value: nat)
    requires
        value <= u64::MAX,
        holds_at(bytes, at, varint_bytes(value)),
    ensures
        varint_at(bytes, at) == Ok::<(nat, int), Seq<char>>(
            (value, at + varint_bytes(value).len()),
        ),
{
    reveal_with_fuel(room, 10);
    varint_from_reads_back(bytes, at, value, 0);
}

/// A tag reads back as the field number and wire type that it was written for.
pub proof fn tag_reads_back(bytes: Seq<u8>, at: int, tag: Tag)
    requires
        tag.valid(),
        holds_at(bytes, at, tag_bytes(tag.number, tag.wire_type)),
    ensures
        tag_at(bytes, at) == Ok::<(Tag, int), Seq<char>>(
            (tag, at + tag_bytes(tag.number, tag.wire_type).len()),
        ),
{
    varint_reads_back(bytes, at, (tag.number * 8 + tag.wire_type) as nat);
}

/// A byte string reads back as it was written.
pub proof fn bytes_read_back(bytes: Seq<u8>, at: int, payload: Seq<u8>)
    requires
        payload.len() <= usize::MAX,
        holds_at(bytes, at, varint_bytes(payload.len()) + payload),
    ensures
        bytes_at(bytes, at) == Ok::<(Seq<u8>, int), Seq<char>>(
            (payload, at + varint_bytes(payload.len()).len() + payload.len()),
        ),
{
    holds_both(bytes, at, varint_bytes(payload.len()), payload);
    varint_reads_back(bytes, at, payload.len());
}

/// A string reads back as it was written.
pub proof fn text_reads_back(bytes: Seq<u8>, at: int, text: Seq<char>)
    requires
        encode_utf8(text).len() <= usize::MAX,
        holds_at(bytes, at, varint_bytes(encode_utf8(text).len()) + encode_utf8(text)),
    ensures
        text_at(bytes, at) == Ok::<(Seq<char>, int), Seq<char>>(
            (
                text,
                at + varint_bytes(encode_utf8(text).len()).len() + encode_utf8(text).len(),
            ),
        ),
{
    bytes_read_back(bytes, at, encode_utf8(text));
    encode_utf8_valid_utf8(text);
    encode_utf8_decode_utf8(text);
}

/// Reading a varint in the bytes from `from` on is reading it where it lies.
pub proof fn varint_from_shifts(bytes: Seq<u8>, from: int, at: int, taken: nat)
    requires
        0 <= from <= bytes.len(),
        0 <= at,
    ensures
        varint_from(bytes, from + at, taken) == (match varint_from(bytes.skip(from), at, taken) {
            Ok((value, next)) => Ok::<(nat, int), Seq<char>>((value, from + next)),
            Err(e) => Err(e),
        }),
    decreases 9 - taken,
{
    if from + at < bytes.len() {
        assert(bytes.skip(from)[at] == bytes[from + at]);
        if taken < 9 {
            varint_from_shifts(bytes, from, at + 1, taken + 1);
        }
    }
}

/// Reading a byte string in the bytes from `from` on is reading it where it lies.
pub proof fn bytes_at_shifts(bytes: Seq<u8>, from: int)
    requires
        0 <= from <= bytes.len(),
    ensures
        bytes_at(bytes, from) == (match bytes_at(bytes.skip(from), 0) {
            Ok((payload, next)) => Ok::<(Seq<u8>, int), Seq<char>>((payload, from + next)),
            Err(e) => Err(e),
        }),
{
    varint_from_shifts(bytes, from, 0, 0);
    varint_from_advances(bytes.skip(from), 0, 0);
    match varint_at(bytes.skip(from), 0) {
        Ok((len, next)) => {
            if bytes.skip(from).len() - next >= len {
                assert(bytes.skip(from).subrange(next, next + len) =~= bytes.subrange(
                    from + next,
                    from + next + len,
                ));
            }
        },
        Err(_) => {},
    }
}

/// Every varint has at least one byte.
pub proof fn varint_bytes_not_empty(value: nat)
    ensures
        varint_bytes(value).len() >= 1,
{
}

/// A varint that could be read lies within the bytes and is not empty.
pub proof fn varint_from_advances(bytes: Seq<u8>, at: int, taken: nat)
    ensures
        varint_from(bytes, at, taken) matches Ok((value, next)) ==> at < next <= bytes.len(),
    decreases 9 - taken,
{
    if at < bytes.len() && taken < 9 && bytes[at] >= 128 {
        varint_from_advances(bytes, at + 1, taken + 1);
    }
}

/// A varint is its value in base 128, the lowest digits first, with the high bit set on
/// every byte but the last.
pub proof fn varints_are_base_128(value: nat)
    ensures
        value < 128 ==> varint_bytes(value) == seq![value as u8],
        value >= 128 ==> {
            &&& varint_bytes(value)[0] == 128 + value % 128
            &&& varint_bytes(value).skip(1) == varint_bytes(value / 128)
        },
{
    if value >= 128 {
        assert(varint_bytes(value).skip(1) =~= varint_bytes(value / 128));
    }
}

} // verus!
