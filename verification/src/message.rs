//! Messages as lists of fields, and the one loop that reads any of them.
//!
//! Reading keeps three limits, those that `buffa` sets by default: how deep messages
//! nest, how many unknown fields there are, and how much memory the elements of
//! repeated messages take. A field that a message does not know is kept, and written
//! again behind the fields that it knows.

use crate::protobuf;
use crate::protobuf::Tag;
use vstd::layout;
use vstd::prelude::*;

verus! {

/// What reading a message takes of the limits: how many unknown fields it counts, and
/// how many bytes of memory the elements of repeated messages need.
pub struct Cost {
    pub unknown: nat,
    pub memory: nat,
}

impl Cost {
    /// Of a message without unknown fields and repeated messages.
    pub open spec fn nothing() -> Cost {
        Cost { unknown: 0, memory: 0 }
    }

    /// Of two messages.
    pub open spec fn plus(self, other: Cost) -> Cost {
        Cost { unknown: self.unknown + other.unknown, memory: self.memory + other.memory }
    }
}

/// Bytes that are being read: where the next read starts, how many unknown fields may
/// still follow, and how many bytes of memory are left for the elements of repeated
/// messages.
#[verifier::ext_equal]
pub struct Input {
    pub bytes: Seq<u8>,
    pub at: int,
    pub allowance: usize,
    pub memory: usize,
}

impl Input {
    /// The same bytes, read up to `at`.
    pub open spec fn moved(self, at: int) -> Input {
        Input { at, ..self }
    }

    /// All of `bytes`, with nothing read.
    pub open spec fn start(bytes: Seq<u8>) -> Input {
        Input {
            bytes,
            at: 0,
            allowance: protobuf::UNKNOWN_FIELD_LIMIT,
            memory: protobuf::ELEMENT_MEMORY_LIMIT,
        }
    }

    /// Whether as much as `cost` is left.
    pub open spec fn affords(self, cost: Cost) -> bool {
        &&& cost.unknown <= self.allowance
        &&& cost.memory <= self.memory
    }

    /// The same bytes, with `len` more of them read, and `cost` taken off what is left.
    pub open spec fn spent(self, len: nat, cost: Cost) -> Input {
        Input {
            bytes: self.bytes,
            at: self.at + len,
            allowance: (self.allowance - cost.unknown) as usize,
            memory: (self.memory - cost.memory) as usize,
        }
    }

    /// Whether what was taken between `self` and `next` makes up for a cost that grew
    /// from `before` to `after`.
    pub open spec fn pays(self, before: Cost, next: Input, after: Cost) -> bool {
        &&& after.unknown + next.allowance <= before.unknown + self.allowance
        &&& after.memory + next.memory <= before.memory + self.memory
    }

    /// Whether the next read starts within the bytes.
    pub open spec fn valid(self) -> bool {
        0 <= self.at <= self.bytes.len()
    }
}

/// A value read from an input and the input behind it, or an error text.
pub type Read<T> = Result<(T, Input), Seq<char>>;

/// Reads an integer field behind its tag.
pub open spec fn integer(tag: Tag, input: Input) -> Read<u64> {
    if tag.wire_type != protobuf::VARINT {
        Err(protobuf::mismatch_text(tag.number, protobuf::VARINT, tag.wire_type))
    } else {
        match protobuf::varint_at(input.bytes, input.at) {
            Ok((value, next)) => Ok((value as u64, input.moved(next))),
            Err(e) => Err(e),
        }
    }
}

/// Reads a field of bytes behind its tag.
pub open spec fn blob(tag: Tag, input: Input) -> Read<Seq<u8>> {
    if tag.wire_type != protobuf::LENGTH_DELIMITED {
        Err(protobuf::mismatch_text(tag.number, protobuf::LENGTH_DELIMITED, tag.wire_type))
    } else {
        match protobuf::bytes_at(input.bytes, input.at) {
            Ok((value, next)) => Ok((value, input.moved(next))),
            Err(e) => Err(e),
        }
    }
}

/// Reads a string field behind its tag.
pub open spec fn text(tag: Tag, input: Input) -> Read<Seq<char>> {
    if tag.wire_type != protobuf::LENGTH_DELIMITED {
        Err(protobuf::mismatch_text(tag.number, protobuf::LENGTH_DELIMITED, tag.wire_type))
    } else {
        match protobuf::text_at(input.bytes, input.at) {
            Ok((value, next)) => Ok((value, input.moved(next))),
            Err(e) => Err(e),
        }
    }
}

/// A field that a message does not know, as it is written.
#[derive(Clone, Debug, PartialEq)]
pub struct UnknownField {
    /// The field number.
    pub number: u32,
    /// The wire type.
    pub wire_type: u8,
    /// The whole field, its tag in front.
    pub bytes: Vec<u8>,
}

/// What an [`UnknownField`] holds.
#[verifier::ext_equal]
pub struct UnknownView {
    pub number: u32,
    pub wire_type: u8,
    pub bytes: Seq<u8>,
}

impl View for UnknownField {
    type V = UnknownView;

    open spec fn view(&self) -> UnknownView {
        UnknownView { number: self.number, wire_type: self.wire_type, bytes: self.bytes@ }
    }
}

impl UnknownView {
    pub open spec fn tag(self) -> Tag {
        Tag { number: self.number, wire_type: self.wire_type }
    }

    /// Whether the field reads back as itself, and counts as `count` unknown fields.
    pub open spec fn replays(self, depth: u32, count: nat) -> bool {
        protobuf::replays(self.bytes, self.number, self.wire_type, depth, count)
    }

    /// Whether the field is one that was read, so that it reads back as itself.
    pub open spec fn sound(self, depth: u32) -> bool {
        &&& self.tag().valid()
        &&& exists|count: nat| self.replays(depth, count)
    }

    /// How many unknown fields it counts as.
    pub open spec fn count(self, depth: u32) -> nat {
        choose|count: nat| self.replays(depth, count)
    }
}

/// What some unknown fields hold.
pub open spec fn unknown_views(fields: Seq<UnknownField>) -> Seq<UnknownView> {
    Seq::new(fields.len(), |i: int| fields[i]@)
}

/// How many unknown fields some fields count as.
pub open spec fn unknown_count(fields: Seq<UnknownView>, depth: u32) -> nat
    decreases fields.len(),
{
    if fields.len() == 0 {
        0
    } else {
        unknown_count(fields.drop_last(), depth) + fields.last().count(depth)
    }
}

/// What reading some unknown fields takes of the limits.
pub open spec fn unknown_cost(fields: Seq<UnknownView>, depth: u32) -> Cost {
    Cost { unknown: unknown_count(fields, depth), memory: 0 }
}

/// Reads a field that the message does not know, behind its tag. Such a read never
/// moves back, and the field reads back as itself.
pub open spec fn unknown(tag: Tag, input: Input, depth: u32) -> Read<UnknownView> {
    match protobuf::unknown_at(
        input.bytes.skip(input.at),
        tag.number,
        tag.wire_type,
        depth,
        input.allowance,
    ) {
        Ok((kept, rest, left)) => {
            let field = UnknownView {
                number: tag.number,
                wire_type: tag.wire_type,
                bytes: kept,
            };
            if rest.len() <= input.bytes.len() - input.at && left <= input.allowance
                && field.replays(depth, (input.allowance - left) as nat) {
                Ok(
                    (
                        field,
                        Input { at: input.bytes.len() - rest.len(), allowance: left, ..input },
                    ),
                )
            } else {
                Err(Seq::empty())
            }
        },
        Err(e) => Err(e),
    }
}

/// One field, as it is written.
pub enum Field {
    Integer { number: u32, value: u64 },
    Payload { number: u32, bytes: Seq<u8> },
    Unknown(UnknownView),
}

impl Field {
    pub open spec fn tag(self) -> Tag {
        match self {
            Field::Integer { number, .. } => Tag { number, wire_type: protobuf::VARINT },
            Field::Payload { number, .. } => Tag { number, wire_type: protobuf::LENGTH_DELIMITED },
            Field::Unknown(field) => field.tag(),
        }
    }

    /// The bytes behind the tag.
    pub open spec fn value_bytes(self) -> Seq<u8> {
        match self {
            Field::Integer { value, .. } => protobuf::varint_bytes(value as nat),
            Field::Payload { bytes, .. } => protobuf::varint_bytes(bytes.len()) + bytes,
            Field::Unknown(field) => field.bytes.skip(
                protobuf::tag_bytes(field.number, field.wire_type).len() as int,
            ),
        }
    }

    pub open spec fn encoded(self) -> Seq<u8> {
        match self {
            Field::Unknown(field) => field.bytes,
            _ => protobuf::tag_bytes(self.tag().number, self.tag().wire_type) + self.value_bytes(),
        }
    }
}

/// Some unknown fields, as they are written.
pub open spec fn unknown_fields(fields: Seq<UnknownView>) -> Seq<Field> {
    Seq::new(fields.len(), |i: int| Field::Unknown(fields[i]))
}

/// The bytes of some fields, one behind the other.
pub open spec fn fields_bytes(fields: Seq<Field>) -> Seq<u8>
    decreases fields.len(),
{
    if fields.len() == 0 {
        Seq::empty()
    } else {
        fields[0].encoded() + fields_bytes(fields.drop_first())
    }
}

/// Bytes with a position, for the reads above.
pub struct Reader<'a> {
    bytes: &'a [u8],
    at: usize,
    allowance: usize,
    memory: usize,
}

impl<'a> View for Reader<'a> {
    type V = Input;

    closed spec fn view(&self) -> Input {
        Input {
            bytes: self.bytes@,
            at: self.at as int,
            allowance: self.allowance,
            memory: self.memory,
        }
    }
}

impl<'a> Reader<'a> {
    /// A reader at the start of `bytes`.
    pub fn new(bytes: &'a [u8]) -> (r: Reader<'a>)
        ensures
            r@ == Input::start(bytes@),
    {
        Reader {
            bytes,
            at: 0,
            allowance: protobuf::UNKNOWN_FIELD_LIMIT,
            memory: protobuf::ELEMENT_MEMORY_LIMIT,
        }
    }

    /// Where the next read starts.
    pub fn position(&self) -> (r: usize)
        ensures
            r == self@.at,
    {
        self.at
    }

    /// The bytes that are still to be read.
    fn rest(&self) -> (r: &'a [u8])
        requires
            self@.valid(),
        ensures
            r@ == self@.bytes.skip(self@.at),
    {
        vstd::slice::slice_subrange(self.bytes, self.at, self.bytes.len())
    }

    /// Moves to where `rest` starts.
    fn leave(&mut self, rest: &[u8])
        requires
            rest@.len() <= old(self)@.bytes.len(),
        ensures
            final(self)@ == old(self)@.moved(old(self)@.bytes.len() - rest@.len()),
    {
        self.at = self.bytes.len() - rest.len();
    }

    /// Reads the next tag.
    pub fn tag(&mut self) -> (r: Result<Tag, String>)
        requires
            old(self)@.valid(),
        ensures
            final(self)@.bytes == old(self)@.bytes,
            match protobuf::tag_at(old(self)@.bytes, old(self)@.at) {
                Ok((tag, next)) => {
                    &&& r == Ok::<Tag, String>(tag)
                    &&& tag.valid()
                    &&& final(self)@ == old(self)@.moved(next)
                    &&& final(self)@.valid()
                },
                Err(e) => r matches Err(t) && t@ == e,
            },
    {
        proof {
            protobuf::varint_from_advances(self@.bytes, self@.at, 0);
            protobuf::varint_from_shifts(self@.bytes, self@.at, 0, 0);
        }
        match protobuf::read_tag(self.rest()) {
            Ok((tag, rest)) => {
                self.leave(rest);
                Ok(tag)
            },
            Err(e) => Err(e),
        }
    }

    /// Reads an integer field behind its tag.
    pub fn integer(&mut self, tag: Tag) -> (r: Result<u64, String>)
        requires
            old(self)@.valid(),
            tag.valid(),
        ensures
            final(self)@.bytes == old(self)@.bytes,
            match integer(tag, old(self)@) {
                Ok((value, next)) => {
                    &&& r == Ok::<u64, String>(value)
                    &&& final(self)@ == next
                    &&& final(self)@.valid()
                },
                Err(e) => r matches Err(t) && t@ == e,
            },
    {
        if tag.wire_type != protobuf::VARINT {
            return Err(protobuf::mismatch(tag, protobuf::VARINT));
        }
        proof {
            protobuf::varint_from_advances(self@.bytes, self@.at, 0);
            protobuf::varint_from_shifts(self@.bytes, self@.at, 0, 0);
        }
        match protobuf::read_varint(self.rest()) {
            Ok((value, rest)) => {
                self.leave(rest);
                Ok(value)
            },
            Err(e) => Err(e),
        }
    }

    /// Reads a field of bytes behind its tag.
    pub fn blob(&mut self, tag: Tag) -> (r: Result<Vec<u8>, String>)
        requires
            old(self)@.valid(),
            tag.valid(),
        ensures
            final(self)@.bytes == old(self)@.bytes,
            match blob(tag, old(self)@) {
                Ok((value, next)) => {
                    &&& r matches Ok(v)
                    &&& v@ == value
                    &&& final(self)@ == next
                    &&& final(self)@.valid()
                },
                Err(e) => r matches Err(t) && t@ == e,
            },
    {
        if tag.wire_type != protobuf::LENGTH_DELIMITED {
            return Err(protobuf::mismatch(tag, protobuf::LENGTH_DELIMITED));
        }
        proof {
            protobuf::varint_from_advances(self@.bytes, self@.at, 0);
            protobuf::bytes_at_shifts(self@.bytes, self@.at);
        }
        match protobuf::read_bytes(self.rest()) {
            Ok((value, rest)) => {
                self.leave(rest);
                Ok(value)
            },
            Err(e) => Err(e),
        }
    }

    /// Reads a string field behind its tag.
    pub fn text(&mut self, tag: Tag) -> (r: Result<String, String>)
        requires
            old(self)@.valid(),
            tag.valid(),
        ensures
            final(self)@.bytes == old(self)@.bytes,
            match text(tag, old(self)@) {
                Ok((value, next)) => {
                    &&& r matches Ok(v)
                    &&& v@ == value
                    &&& final(self)@ == next
                    &&& final(self)@.valid()
                },
                Err(e) => r matches Err(t) && t@ == e,
            },
    {
        if tag.wire_type != protobuf::LENGTH_DELIMITED {
            return Err(protobuf::mismatch(tag, protobuf::LENGTH_DELIMITED));
        }
        proof {
            protobuf::varint_from_advances(self@.bytes, self@.at, 0);
            protobuf::bytes_at_shifts(self@.bytes, self@.at);
        }
        match protobuf::read_text(self.rest()) {
            Ok((value, rest)) => {
                self.leave(rest);
                Ok(value)
            },
            Err(e) => Err(e),
        }
    }

    /// Reads the length of a nested message, and hands back where it ends.
    pub fn span(&mut self) -> (r: Result<usize, String>)
        requires
            old(self)@.valid(),
        ensures
            final(self)@.bytes == old(self)@.bytes,
            match protobuf::varint_at(old(self)@.bytes, old(self)@.at) {
                Ok((len, next)) => if len > protobuf::MAX_MESSAGE_BYTES {
                    r matches Err(t) && t@ == protobuf::TOO_LARGE@
                } else if old(self)@.bytes.len() - next < len {
                    r matches Err(t) && t@ == "unexpected end of buffer"@
                } else {
                    &&& r matches Ok(end)
                    &&& end == next + len
                    &&& end <= final(self)@.bytes.len()
                    &&& final(self)@ == old(self)@.moved(next)
                    &&& final(self)@.valid()
                },
                Err(e) => r matches Err(t) && t@ == e,
            },
    {
        proof {
            protobuf::varint_from_advances(self@.bytes, self@.at, 0);
            protobuf::varint_from_shifts(self@.bytes, self@.at, 0, 0);
        }
        let len = match protobuf::read_varint(self.rest()) {
            Ok((len, rest)) => {
                self.leave(rest);
                len
            },
            Err(e) => {
                return Err(e);
            },
        };
        if len > protobuf::MAX_MESSAGE_BYTES as u64 {
            return Err(protobuf::TOO_LARGE.to_string());
        }
        if self.bytes.len() - self.at < len as usize {
            return Err("unexpected end of buffer".to_string());
        }
        Ok(self.at + len as usize)
    }

    /// Reads a field that the message does not know, behind its tag.
    pub fn unknown(&mut self, tag: Tag, depth: u32) -> (r: Result<UnknownField, String>)
        requires
            old(self)@.valid(),
            tag.valid(),
            depth <= protobuf::RECURSION_LIMIT,
        ensures
            final(self)@.bytes == old(self)@.bytes,
            match unknown(tag, old(self)@, depth) {
                Ok((field, next)) => {
                    &&& r matches Ok(f)
                    &&& f@ == field
                    &&& final(self)@ == next
                    &&& final(self)@.valid()
                },
                Err(e) => r matches Err(t) && t@ == e,
            },
    {
        match protobuf::read_unknown(self.rest(), tag, depth, self.allowance) {
            Ok((bytes, rest, left)) => {
                self.leave(rest);
                self.allowance = left;
                Ok(UnknownField { number: tag.number, wire_type: tag.wire_type, bytes })
            },
            Err(e) => Err(e),
        }
    }

    /// Takes the memory for one more element of a repeated message.
    pub fn charge(&mut self, bytes: usize) -> (r: Result<(), String>)
        ensures
            if bytes > old(self)@.memory {
                &&& r matches Err(t) && t@ == "element memory limit exceeded"@
                &&& final(self)@ == old(self)@
            } else {
                &&& r is Ok
                &&& final(self)@ == old(self)@.spent(
                    0,
                    (Cost { unknown: 0, memory: bytes as nat }),
                )
            },
    {
        if bytes > self.memory {
            return Err("element memory limit exceeded".to_string());
        }
        self.memory = self.memory - bytes;
        Ok(())
    }
}

/// A message of the transport.
pub trait Message: View + Sized {
    /// The message with every field at its default.
    spec fn blank() -> Self::V;

    /// The fields that are written for `value`, in order.
    spec fn fields(value: Self::V) -> Seq<Field>;

    /// What one field, whose tag has just been read, makes of `value`.
    spec fn merged(value: Self::V, tag: Tag, input: Input, depth: u32) -> Read<Self::V>;

    /// How many levels of messages lie below this one.
    spec fn levels() -> nat;

    /// Whether the message knows a field of this number.
    spec fn knows(number: u32) -> bool;

    /// Whether the unknown fields of `value`, those of nested messages included, are
    /// such as are read with `depth` levels left.
    spec fn sound(value: Self::V, depth: u32) -> bool;

    /// What reading `value` takes of the limits.
    spec fn cost(value: Self::V, depth: u32) -> Cost;

    /// Creates the message with every field at its default.
    fn fresh() -> (r: Self)
        ensures
            r@ == Self::blank(),
    ;

    /// Appends the fields of the message.
    fn write_to(&self, out: &mut Vec<u8>)
        ensures
            final(out)@ == old(out)@ + fields_bytes(Self::fields(self@)),
    ;

    /// Reads the field behind `tag` into the message.
    fn merge_field(&mut self, tag: Tag, reader: &mut Reader, depth: u32) -> (r: Result<(), String>)
        requires
            old(reader)@.valid(),
            tag.valid(),
            depth <= protobuf::RECURSION_LIMIT,
        ensures
            final(reader)@.bytes == old(reader)@.bytes,
            match Self::merged(old(self)@, tag, old(reader)@, depth) {
                Ok((value, next)) => {
                    &&& r is Ok
                    &&& final(self)@ == value
                    &&& final(reader)@ == next
                },
                Err(e) => r matches Err(t) && t@ == e,
            },
    ;

    /// Reading a field moves forward within the bytes.
    proof fn merged_advances(value: Self::V, tag: Tag, input: Input, depth: u32)
        requires
            input.valid(),
        ensures
            Self::merged(value, tag, input, depth) matches Ok((_, next)) ==> {
                &&& next.bytes == input.bytes
                &&& input.at <= next.at <= input.bytes.len()
            },
    ;

    /// The message with every field at its default holds no unknown field, and takes
    /// nothing of the limits.
    proof fn blank_is_sound(depth: u32)
        ensures
            Self::sound(Self::blank(), depth),
            Self::cost(Self::blank(), depth) == Cost::nothing(),
    ;

    /// Reading a field keeps the unknown fields such as are read, and takes as much of
    /// the limits as the message then costs more.
    proof fn merged_keeps(value: Self::V, tag: Tag, input: Input, depth: u32)
        requires
            tag.valid(),
            input.valid(),
            Self::sound(value, depth),
        ensures
            Self::merged(value, tag, input, depth) matches Ok((after, next)) ==> {
                &&& Self::sound(after, depth)
                &&& input.pays(Self::cost(value, depth), next, Self::cost(after, depth))
            },
    ;
}

/// Reads fields into `value` until the position reaches `end`.
pub open spec fn decoded<M: Message>(value: M::V, input: Input, end: int, depth: u32) -> Read<M::V>
    decreases input.bytes.len() - input.at,
{
    if input.at >= end || !input.valid() {
        Ok((value, input))
    } else {
        match protobuf::tag_at(input.bytes, input.at) {
            Ok((tag, next)) => match M::merged(value, tag, input.moved(next), depth) {
                Ok((value2, input2)) => {
                    proof {
                        protobuf::varint_from_advances(input.bytes, input.at, 0);
                        M::merged_advances(value, tag, input.moved(next), depth);
                    }
                    decoded::<M>(value2, input2, end, depth)
                },
                Err(e) => Err(e),
            },
            Err(e) => Err(e),
        }
    }
}

/// Reads a message behind the tag of the field that holds it, into `value`.
pub open spec fn nested<M: Message>(value: M::V, tag: Tag, input: Input, depth: u32) -> Read<M::V> {
    if tag.wire_type != protobuf::LENGTH_DELIMITED {
        Err(protobuf::mismatch_text(tag.number, protobuf::LENGTH_DELIMITED, tag.wire_type))
    } else if depth == 0 {
        Err("recursion limit exceeded"@)
    } else {
        match protobuf::varint_at(input.bytes, input.at) {
            Ok((len, next)) => if len > protobuf::MAX_MESSAGE_BYTES {
                Err(protobuf::TOO_LARGE@)
            } else if input.bytes.len() - next < len {
                Err("unexpected end of buffer"@)
            } else {
                match decoded::<M>(value, input.moved(next), next + len, (depth - 1) as u32) {
                    Ok((value2, input2)) => if input2.at > next + len {
                        Err("unexpected end of buffer"@)
                    } else {
                        Ok((value2, input2))
                    },
                    Err(e) => Err(e),
                }
            },
            Err(e) => Err(e),
        }
    }
}

/// Reads an element of a repeated message behind its tag. The memory for it is taken
/// before anything of it is read.
pub open spec fn element<M: Message>(tag: Tag, input: Input, depth: u32) -> Read<M::V> {
    if tag.wire_type != protobuf::LENGTH_DELIMITED {
        Err(protobuf::mismatch_text(tag.number, protobuf::LENGTH_DELIMITED, tag.wire_type))
    } else if layout::size_of::<M>() > input.memory {
        Err("element memory limit exceeded"@)
    } else {
        nested::<M>(
            M::blank(),
            tag,
            input.spent(0, Cost { unknown: 0, memory: layout::size_of::<M>() }),
            depth,
        )
    }
}

/// What reading an element of a repeated message takes of the limits.
pub open spec fn element_cost<M: Message>(value: M::V, depth: u32) -> Cost {
    Cost { unknown: 0, memory: layout::size_of::<M>() }.plus(M::cost(value, (depth - 1) as u32))
}

/// The message that `bytes` hold, or the text of the error in them.
pub open spec fn decoding<M: Message>(bytes: Seq<u8>) -> Result<M::V, Seq<char>> {
    match decoded::<M>(
        M::blank(),
        Input::start(bytes),
        bytes.len() as int,
        protobuf::RECURSION_LIMIT,
    ) {
        Ok((value, _)) => Ok(value),
        Err(e) => Err(e),
    }
}

/// The bytes that are written for `value`.
pub open spec fn encoding<M: Message>(value: M::V) -> Seq<u8> {
    fields_bytes(M::fields(value))
}

/// Whether reading `fields` turns `from` into `to` and takes `cost` of the limits,
/// wherever they lie and whatever follows them.
pub open spec fn reads<M: Message>(
    from: M::V,
    fields: Seq<Field>,
    cost: Cost,
    to: M::V,
    depth: u32,
) -> bool {
    forall|input: Input, end: int|
        #![trigger
            decoded::<M>(from, input, end, depth),
            protobuf::holds_at(input.bytes, input.at, fields_bytes(fields))
        ]
        protobuf::holds_at(input.bytes, input.at, fields_bytes(fields)) && input.at + fields_bytes(
            fields,
        ).len() <= end && input.affords(cost) ==> decoded::<M>(from, input, end, depth)
            == decoded::<M>(to, input.spent(fields_bytes(fields).len(), cost), end, depth)
}

/// A message that reads back as it was written.
pub trait Lossless: Message {
    /// The fields of `value`, read into a blank message, give `value`.
    proof fn fields_read_back(value: Self::V, depth: u32)
        requires
            fields_bytes(Self::fields(value)).len() <= protobuf::MAX_MESSAGE_BYTES,
            depth >= Self::levels(),
            Self::sound(value, depth),
        ensures
            reads::<Self>(
                Self::blank(),
                Self::fields(value),
                Self::cost(value, depth),
                value,
                depth,
            ),
    ;
}

/// Reading fields moves forward within the bytes.
pub proof fn decoded_advances<M: Message>(value: M::V, input: Input, end: int, depth: u32)
    requires
        input.valid(),
    ensures
        decoded::<M>(value, input, end, depth) matches Ok((_, next)) ==> {
            &&& next.bytes == input.bytes
            &&& input.at <= next.at <= input.bytes.len()
            &&& next.at >= end || input.bytes.len() < end
        },
    decreases input.bytes.len() - input.at,
{
    if input.at < end {
        protobuf::varint_from_advances(input.bytes, input.at, 0);
        match protobuf::tag_at(input.bytes, input.at) {
            Ok((tag, next)) => {
                M::merged_advances(value, tag, input.moved(next), depth);
                match M::merged(value, tag, input.moved(next), depth) {
                    Ok((value2, input2)) => {
                        decoded_advances::<M>(value2, input2, end, depth);
                    },
                    Err(_) => {},
                }
            },
            Err(_) => {},
        }
    }
}

/// Reads fields into `message` until the position reaches `end`.
pub fn merge_until<M: Message>(
    message: &mut M,
    reader: &mut Reader,
    end: usize,
    depth: u32,
) -> (r: Result<(), String>)
    requires
        old(reader)@.valid(),
        end <= old(reader)@.bytes.len(),
        depth <= protobuf::RECURSION_LIMIT,
    ensures
        final(reader)@.bytes == old(reader)@.bytes,
        match decoded::<M>(old(message)@, old(reader)@, end as int, depth) {
            Ok((value, next)) => {
                &&& r is Ok
                &&& final(message)@ == value
                &&& final(reader)@ == next
                &&& final(reader)@.valid()
            },
            Err(e) => r matches Err(t) && t@ == e,
        },
{
    while reader.position() < end
        invariant
            reader@.valid(),
            reader@.bytes == old(reader)@.bytes,
            end <= reader@.bytes.len(),
            depth <= protobuf::RECURSION_LIMIT,
            decoded::<M>(message@, reader@, end as int, depth) == decoded::<M>(
                old(message)@,
                old(reader)@,
                end as int,
                depth,
            ),
        decreases reader@.bytes.len() - reader@.at,
    {
        proof {
            protobuf::varint_from_advances(reader@.bytes, reader@.at, 0);
        }
        let ghost before = reader@;
        let tag = match reader.tag() {
            Ok(tag) => tag,
            Err(e) => {
                return Err(e);
            },
        };
        proof {
            M::merged_advances(message@, tag, reader@, depth);
        }
        match message.merge_field(tag, reader, depth) {
            Ok(()) => {},
            Err(e) => {
                return Err(e);
            },
        }
        assert(before.at < reader@.at);
    }
    Ok(())
}

/// Reads a message behind the tag of the field that holds it, into `message`.
pub fn merge_nested<M: Message>(
    message: &mut M,
    tag: Tag,
    reader: &mut Reader,
    depth: u32,
) -> (r: Result<(), String>)
    requires
        old(reader)@.valid(),
        tag.valid(),
        depth <= protobuf::RECURSION_LIMIT,
    ensures
        final(reader)@.bytes == old(reader)@.bytes,
        match nested::<M>(old(message)@, tag, old(reader)@, depth) {
            Ok((value, next)) => {
                &&& r is Ok
                &&& final(message)@ == value
                &&& final(reader)@ == next
                &&& final(reader)@.valid()
            },
            Err(e) => r matches Err(t) && t@ == e,
        },
{
    if tag.wire_type != protobuf::LENGTH_DELIMITED {
        return Err(protobuf::mismatch(tag, protobuf::LENGTH_DELIMITED));
    }
    if depth == 0 {
        return Err("recursion limit exceeded".to_string());
    }
    let end = match reader.span() {
        Ok(end) => end,
        Err(e) => {
            return Err(e);
        },
    };
    match merge_until(message, reader, end, depth - 1) {
        Ok(()) => {},
        Err(e) => {
            return Err(e);
        },
    }
    if reader.position() > end {
        return Err("unexpected end of buffer".to_string());
    }
    Ok(())
}

/// Reads an element of a repeated message behind its tag.
pub fn merge_element<M: Message>(tag: Tag, reader: &mut Reader, depth: u32) -> (r: Result<
    M,
    String,
>)
    requires
        old(reader)@.valid(),
        tag.valid(),
        depth <= protobuf::RECURSION_LIMIT,
    ensures
        final(reader)@.bytes == old(reader)@.bytes,
        match element::<M>(tag, old(reader)@, depth) {
            Ok((value, next)) => {
                &&& r matches Ok(message)
                &&& message@ == value
                &&& final(reader)@ == next
                &&& final(reader)@.valid()
            },
            Err(e) => r matches Err(t) && t@ == e,
        },
{
    if tag.wire_type != protobuf::LENGTH_DELIMITED {
        return Err(protobuf::mismatch(tag, protobuf::LENGTH_DELIMITED));
    }
    match reader.charge(core::mem::size_of::<M>()) {
        Ok(()) => {},
        Err(e) => {
            return Err(e);
        },
    }
    let mut message = M::fresh();
    match merge_nested(&mut message, tag, reader, depth) {
        Ok(()) => Ok(message),
        Err(e) => Err(e),
    }
}

// ---- a message reads back as it was written ----

/// The bytes of two lists of fields are those of the one behind those of the other.
pub proof fn fields_bytes_add(a: Seq<Field>, b: Seq<Field>)
    ensures
        fields_bytes(a + b) == fields_bytes(a) + fields_bytes(b),
    decreases a.len(),
{
    if a.len() == 0 {
        assert(a + b =~= b);
        assert(fields_bytes(a) + fields_bytes(b) =~= fields_bytes(b));
    } else {
        fields_bytes_add(a.drop_first(), b);
        assert((a + b).drop_first() =~= a.drop_first() + b);
        assert(fields_bytes(a + b) =~= fields_bytes(a) + fields_bytes(b));
    }
}

/// Appending the bytes of more fields appends those of both lists, which are handed
/// back as one.
pub proof fn one_more(before: Seq<u8>, a: Seq<Field>, b: Seq<Field>) -> (r: Seq<Field>)
    ensures
        r == a + b,
        before + fields_bytes(a) + fields_bytes(b) == before + fields_bytes(r),
{
    fields_bytes_add(a, b);
    assert(before + fields_bytes(a) + fields_bytes(b) =~= before + fields_bytes(a + b));
    a + b
}

/// The bytes of a list of one field.
pub proof fn fields_bytes_one(field: Field)
    ensures
        fields_bytes(seq![field]) == field.encoded(),
{
    assert(seq![field].drop_first() =~= Seq::<Field>::empty());
    reveal_with_fuel(fields_bytes, 2);
    assert(field.encoded() + Seq::<u8>::empty() =~= field.encoded());
}

/// Reading no field changes nothing.
pub proof fn reads_nothing<M: Message>(value: M::V, depth: u32)
    ensures
        reads::<M>(value, Seq::empty(), Cost::nothing(), value, depth),
{
    let none = fields_bytes(Seq::<Field>::empty());
    assert forall|input: Input, end: int|
        #![trigger
            decoded::<M>(value, input, end, depth),
            protobuf::holds_at(input.bytes, input.at, fields_bytes(Seq::<Field>::empty()))
        ]
        true implies input == input.spent(none.len(), Cost::nothing()) by {
        assert(none.len() == 0);
    }
}

/// Whether the value of `field` turns `from` into `to` and takes `cost` of the limits,
/// wherever it lies.
pub open spec fn takes<M: Message>(
    from: M::V,
    field: Field,
    cost: Cost,
    to: M::V,
    depth: u32,
) -> bool {
    forall|input: Input|
        protobuf::holds_at(input.bytes, input.at, field.value_bytes()) && input.affords(cost)
            ==> #[trigger] M::merged(from, field.tag(), input, depth) == Ok::<
            (M::V, Input),
            Seq<char>,
        >((to, input.spent(field.value_bytes().len(), cost)))
}

/// Reading one field does what its value does.
pub proof fn reads_one<M: Message>(from: M::V, field: Field, cost: Cost, to: M::V, depth: u32)
    requires
        field.tag().valid(),
        field.encoded() == protobuf::tag_bytes(field.tag().number, field.tag().wire_type)
            + field.value_bytes(),
        takes::<M>(from, field, cost, to, depth),
    ensures
        reads::<M>(from, seq![field], cost, to, depth),
{
    fields_bytes_one(field);
    let tag = field.tag();
    let head = protobuf::tag_bytes(tag.number, tag.wire_type);
    protobuf::varint_bytes_not_empty((tag.number * 8 + tag.wire_type) as nat);
    assert forall|input: Input, end: int|
        #![trigger
            decoded::<M>(from, input, end, depth),
            protobuf::holds_at(input.bytes, input.at, fields_bytes(seq![field]))
        ]
        protobuf::holds_at(input.bytes, input.at, field.encoded()) && input.at
            + field.encoded().len() <= end && input.affords(cost) implies decoded::<M>(
        from,
        input,
        end,
        depth,
    ) == decoded::<M>(to, input.spent(field.encoded().len(), cost), end, depth) by {
        protobuf::holds_both(input.bytes, input.at, head, field.value_bytes());
        protobuf::tag_reads_back(input.bytes, input.at, tag);
        let behind = input.moved(input.at + head.len());
        assert(behind.affords(cost));
        assert(M::merged(from, tag, behind, depth) is Ok);
        assert(behind.spent(field.value_bytes().len(), cost) == input.spent(
            field.encoded().len(),
            cost,
        ));
    }
}

/// Reading two lists of fields does what the one does, and then the other.
pub proof fn reads_both<M: Message>(
    from: M::V,
    a: Seq<Field>,
    first: Cost,
    between: M::V,
    b: Seq<Field>,
    second: Cost,
    to: M::V,
    depth: u32,
)
    requires
        reads::<M>(from, a, first, between, depth),
        reads::<M>(between, b, second, to, depth),
    ensures
        reads::<M>(from, a + b, first.plus(second), to, depth),
{
    fields_bytes_add(a, b);
    let cost = first.plus(second);
    assert forall|input: Input, end: int|
        #![trigger
            decoded::<M>(from, input, end, depth),
            protobuf::holds_at(input.bytes, input.at, fields_bytes(a + b))
        ]
        protobuf::holds_at(input.bytes, input.at, fields_bytes(a + b)) && input.at + fields_bytes(
            a + b,
        ).len() <= end && input.affords(cost) implies decoded::<M>(from, input, end, depth)
        == decoded::<M>(to, input.spent(fields_bytes(a + b).len(), cost), end, depth) by {
        protobuf::holds_both(input.bytes, input.at, fields_bytes(a), fields_bytes(b));
        let behind = input.spent(fields_bytes(a).len(), first);
        assert(protobuf::holds_at(behind.bytes, behind.at, fields_bytes(b)));
        assert(decoded::<M>(from, input, end, depth) == decoded::<M>(between, behind, end, depth));
        assert(behind.spent(fields_bytes(b).len(), second) == input.spent(
            fields_bytes(a + b).len(),
            cost,
        ));
    }
}

/// A nested message reads back as it was written.
pub proof fn nested_reads_back<M: Lossless>(value: M::V, number: u32, input: Input, depth: u32)
    requires
        encoding::<M>(value).len() <= protobuf::MAX_MESSAGE_BYTES,
        depth > M::levels(),
        M::sound(value, (depth - 1) as u32),
        input.affords(M::cost(value, (depth - 1) as u32)),
        protobuf::holds_at(
            input.bytes,
            input.at,
            protobuf::varint_bytes(encoding::<M>(value).len()) + encoding::<M>(value),
        ),
    ensures
        nested::<M>(
            M::blank(),
            Tag { number, wire_type: protobuf::LENGTH_DELIMITED },
            input,
            depth,
        ) == Ok::<(M::V, Input), Seq<char>>(
            (
                value,
                input.spent(
                    protobuf::varint_bytes(encoding::<M>(value).len()).len() + encoding::<M>(
                        value,
                    ).len(),
                    M::cost(value, (depth - 1) as u32),
                ),
            ),
        ),
{
    let payload = encoding::<M>(value);
    let prefix = protobuf::varint_bytes(payload.len());
    let cost = M::cost(value, (depth - 1) as u32);
    protobuf::holds_both(input.bytes, input.at, prefix, payload);
    protobuf::varint_reads_back(input.bytes, input.at, payload.len());
    let inside = input.moved(input.at + prefix.len());
    let end = inside.at + payload.len();
    M::fields_read_back(value, (depth - 1) as u32);
    assert(protobuf::holds_at(inside.bytes, inside.at, fields_bytes(M::fields(value))));
    assert(inside.affords(cost));
    assert(decoded::<M>(M::blank(), inside, end, (depth - 1) as u32) == decoded::<M>(
        value,
        inside.spent(payload.len(), cost),
        end,
        (depth - 1) as u32,
    ));
    assert(inside.spent(payload.len(), cost) == input.spent(
        prefix.len() + payload.len(),
        cost,
    ));
}

/// Every message reads back as it was written: decoding the bytes of a message gives
/// the message. It may hold unknown fields that were read, and must keep to the limits.
pub proof fn round_trip<M: Lossless>(value: M::V)
    requires
        encoding::<M>(value).len() <= protobuf::MAX_MESSAGE_BYTES,
        M::levels() <= protobuf::RECURSION_LIMIT,
        M::sound(value, protobuf::RECURSION_LIMIT),
        M::cost(value, protobuf::RECURSION_LIMIT).unknown <= protobuf::UNKNOWN_FIELD_LIMIT,
        M::cost(value, protobuf::RECURSION_LIMIT).memory <= protobuf::ELEMENT_MEMORY_LIMIT,
    ensures
        decoding::<M>(encoding::<M>(value)) == Ok::<M::V, Seq<char>>(value),
{
    let bytes = encoding::<M>(value);
    let input = Input::start(bytes);
    M::fields_read_back(value, protobuf::RECURSION_LIMIT);
    assert(bytes.subrange(0, bytes.len() as int) =~= bytes);
    assert(protobuf::holds_at(input.bytes, input.at, fields_bytes(M::fields(value))));
    let end = bytes.len() as int;
    let depth = protobuf::RECURSION_LIMIT;
    let cost = M::cost(value, depth);
    assert(input.affords(cost));
    assert(decoded::<M>(M::blank(), input, end, depth) == decoded::<M>(
        value,
        input.spent(bytes.len(), cost),
        end,
        depth,
    ));
}

/// Whatever was read can be passed on: the message that some bytes hold, unknown fields
/// included, reads back from the bytes that are written for it.
pub proof fn what_was_read_reads_back<M: Lossless>(bytes: Seq<u8>, value: M::V)
    requires
        decoding::<M>(bytes) == Ok::<M::V, Seq<char>>(value),
        encoding::<M>(value).len() <= protobuf::MAX_MESSAGE_BYTES,
        M::levels() <= protobuf::RECURSION_LIMIT,
    ensures
        decoding::<M>(encoding::<M>(value)) == Ok::<M::V, Seq<char>>(value),
{
    M::blank_is_sound(protobuf::RECURSION_LIMIT);
    decoded_keeps::<M>(
        M::blank(),
        Input::start(bytes),
        bytes.len() as int,
        protobuf::RECURSION_LIMIT,
    );
    round_trip::<M>(value);
}

/// Reading fields keeps the unknown fields such as are read, and takes as much of the
/// limits as the message then costs more.
pub proof fn decoded_keeps<M: Message>(value: M::V, input: Input, end: int, depth: u32)
    requires
        M::sound(value, depth),
        input.valid(),
    ensures
        decoded::<M>(value, input, end, depth) matches Ok((after, next)) ==> {
            &&& M::sound(after, depth)
            &&& input.pays(M::cost(value, depth), next, M::cost(after, depth))
        },
    decreases input.bytes.len() - input.at,
{
    if input.at < end {
        protobuf::varint_from_advances(input.bytes, input.at, 0);
        match protobuf::tag_at(input.bytes, input.at) {
            Ok((tag, next)) => {
                M::merged_advances(value, tag, input.moved(next), depth);
                M::merged_keeps(value, tag, input.moved(next), depth);
                match M::merged(value, tag, input.moved(next), depth) {
                    Ok((value2, input2)) => {
                        decoded_keeps::<M>(value2, input2, end, depth);
                    },
                    Err(_) => {},
                }
            },
            Err(_) => {},
        }
    }
}

/// Reading a nested message keeps its unknown fields such as are read, and takes as
/// much of the limits as it then costs more.
pub proof fn nested_keeps<M: Message>(value: M::V, tag: Tag, input: Input, depth: u32)
    requires
        M::sound(value, (depth - 1) as u32),
        input.valid(),
    ensures
        nested::<M>(value, tag, input, depth) matches Ok((after, next)) ==> {
            &&& depth > 0
            &&& M::sound(after, (depth - 1) as u32)
            &&& input.pays(
                M::cost(value, (depth - 1) as u32),
                next,
                M::cost(after, (depth - 1) as u32),
            )
        },
{
    protobuf::varint_from_advances(input.bytes, input.at, 0);
    if depth > 0 {
        match protobuf::varint_at(input.bytes, input.at) {
            Ok((len, next)) => {
                if len <= protobuf::MAX_MESSAGE_BYTES && input.bytes.len() - next >= len {
                    decoded_keeps::<M>(value, input.moved(next), next + len, (depth - 1) as u32);
                }
            },
            Err(_) => {},
        }
    }
}

/// An element of a repeated message holds unknown fields such as are read, and takes
/// what it costs of the limits.
pub proof fn element_keeps<M: Message>(tag: Tag, input: Input, depth: u32)
    requires
        input.valid(),
    ensures
        element::<M>(tag, input, depth) matches Ok((value, next)) ==> {
            &&& depth > 0
            &&& M::sound(value, (depth - 1) as u32)
            &&& input.pays(Cost::nothing(), next, element_cost::<M>(value, depth))
        },
{
    M::blank_is_sound((depth - 1) as u32);
    nested_keeps::<M>(
        M::blank(),
        tag,
        input.spent(0, Cost { unknown: 0, memory: layout::size_of::<M>() }),
        depth,
    );
}

/// An unknown field that was read reads back, and takes what it counts of the limit.
pub proof fn unknown_keeps(tag: Tag, input: Input, depth: u32)
    requires
        tag.valid(),
    ensures
        unknown(tag, input, depth) matches Ok((field, next)) ==> {
            &&& field.tag() == tag
            &&& field.sound(depth)
            &&& field.count(depth) + next.allowance == input.allowance
            &&& next.memory == input.memory
        },
{
    match unknown(tag, input, depth) {
        Ok((field, next)) => {
            let count = (input.allowance - next.allowance) as nat;
            assert(field.replays(depth, count));
            counts_once(field, depth, count);
        },
        Err(_) => {},
    }
}

/// A field counts as one number of unknown fields only.
proof fn counts_once(field: UnknownView, depth: u32, count: nat)
    requires
        field.replays(depth, count),
    ensures
        field.count(depth) == count,
{
    let other = field.count(depth);
    assert(field.replays(depth, other));
    let payload = field.bytes.skip(
        protobuf::tag_bytes(field.number, field.wire_type).len() as int,
    );
    let there = protobuf::unknown_at(
        payload + Seq::<u8>::empty(),
        field.number,
        field.wire_type,
        depth,
        usize::MAX,
    );
    assert(there is Ok);
    assert(there->Ok_0.2 == usize::MAX - count);
    assert(there->Ok_0.2 == usize::MAX - other);
}

/// One more unknown field costs as much more as it counts.
pub proof fn unknown_count_push(fields: Seq<UnknownView>, field: UnknownView, depth: u32)
    ensures
        unknown_count(fields.push(field), depth) == unknown_count(fields, depth) + field.count(
            depth,
        ),
{
    assert(fields.push(field).drop_last() =~= fields);
}

/// Unknown fields read back, where reading one stores it with `set` behind those
/// before.
pub proof fn unknown_fields_read<M: Message>(
    fields: Seq<UnknownView>,
    set: spec_fn(Seq<UnknownView>) -> M::V,
    depth: u32,
)
    requires
        forall|i: int|
            0 <= i < fields.len() ==> (#[trigger] fields[i]).sound(depth) && !M::knows(
                fields[i].number,
            ),
        forall|before: Seq<UnknownView>, tag: Tag, input: Input|
            !M::knows(tag.number) ==> #[trigger] M::merged(set(before), tag, input, depth) == (
            match unknown(tag, input, depth) {
                Ok((x, next)) => Ok::<(M::V, Input), Seq<char>>((set(before.push(x)), next)),
                Err(e) => Err(e),
            }),
    ensures
        reads::<M>(
            set(Seq::empty()),
            unknown_fields(fields),
            unknown_cost(fields, depth),
            set(fields),
            depth,
        ),
    decreases fields.len(),
{
    let all = unknown_fields(fields);
    if fields.len() == 0 {
        assert(all =~= Seq::empty());
        assert(fields =~= Seq::empty());
        reads_nothing::<M>(set(fields), depth);
    } else {
        let before = fields.drop_last();
        let last = fields.last();
        assert(fields[fields.len() - 1] == last);
        let field = Field::Unknown(last);
        let cost = Cost { unknown: last.count(depth), memory: 0 };
        assert forall|i: int| 0 <= i < before.len() implies (#[trigger] before[i]).sound(depth)
            && !M::knows(before[i].number) by {
            assert(before[i] == fields[i]);
        }
        unknown_fields_read::<M>(before, set, depth);
        assert(all =~= unknown_fields(before) + seq![field]);
        assert(before.push(last) =~= fields);
        assert(last.replays(depth, last.count(depth)));
        assert forall|input: Input|
            protobuf::holds_at(input.bytes, input.at, field.value_bytes()) && input.affords(
                cost,
            ) implies #[trigger] M::merged(set(before), field.tag(), input, depth) == Ok::<
            (M::V, Input),
            Seq<char>,
        >((set(fields), input.spent(field.value_bytes().len(), cost))) by {
            let tail = input.bytes.skip(input.at + field.value_bytes().len());
            assert(input.bytes.skip(input.at) =~= field.value_bytes() + tail);
            assert(unknown(last.tag(), input, depth) == Ok::<(UnknownView, Input), Seq<char>>(
                (last, input.spent(field.value_bytes().len(), cost)),
            ));
        }
        reads_one::<M>(set(before), field, cost, set(fields), depth);
        reads_both::<M>(
            set(Seq::empty()),
            unknown_fields(before),
            unknown_cost(before, depth),
            set(before),
            seq![field],
            cost,
            set(fields),
            depth,
        );
    }
}

// ---- fields that are left out at their default ----

/// A string field, unless the string is empty.
pub open spec fn text_field(number: u32, value: Seq<char>) -> Seq<Field> {
    if value.len() == 0 {
        Seq::empty()
    } else {
        seq![Field::Payload { number, bytes: vstd::utf8::encode_utf8(value) }]
    }
}

/// A field of bytes, unless there are none.
pub open spec fn blob_field(number: u32, value: Seq<u8>) -> Seq<Field> {
    if value.len() == 0 {
        Seq::empty()
    } else {
        seq![Field::Payload { number, bytes: value }]
    }
}

/// An integer field, unless the integer is zero.
pub open spec fn integer_field(number: u32, value: u64) -> Seq<Field> {
    if value == 0 {
        Seq::empty()
    } else {
        seq![Field::Integer { number, value }]
    }
}

/// The integer that stands for a flag.
pub open spec fn flag_value(value: bool) -> u64 {
    if value {
        1
    } else {
        0
    }
}

/// Appends a field of bytes, empty or not.
pub fn put_blob(number: u32, value: &[u8], out: &mut Vec<u8>)
    requires
        1 <= number <= protobuf::MAX_FIELD_NUMBER,
    ensures
        final(out)@ == old(out)@ + fields_bytes(
            seq![Field::Payload { number, bytes: value@ }],
        ),
{
    let ghost field = Field::Payload { number, bytes: value@ };
    protobuf::put_bytes_field(number, value, out);
    proof {
        fields_bytes_one(field);
        assert(field.encoded() =~= protobuf::bytes_field(number, value@));
    }
}

/// Appends a field of bytes, unless there are none.
pub fn write_blob(number: u32, value: &[u8], out: &mut Vec<u8>)
    requires
        1 <= number <= protobuf::MAX_FIELD_NUMBER,
    ensures
        final(out)@ == old(out)@ + fields_bytes(blob_field(number, value@)),
{
    if value.len() == 0 {
        assert(out@ + Seq::<u8>::empty() =~= out@);
    } else {
        put_blob(number, value, out);
    }
}

/// Appends a string field, unless the string is empty.
pub fn write_text(number: u32, value: &str, out: &mut Vec<u8>)
    requires
        1 <= number <= protobuf::MAX_FIELD_NUMBER,
    ensures
        final(out)@ == old(out)@ + fields_bytes(text_field(number, value@)),
{
    if value.is_empty() {
        assert(out@ + Seq::<u8>::empty() =~= out@);
    } else {
        put_blob(number, value.as_bytes(), out);
    }
}

/// Appends an integer field, unless the integer is zero.
pub fn write_integer(number: u32, value: u64, out: &mut Vec<u8>)
    requires
        1 <= number <= protobuf::MAX_FIELD_NUMBER,
    ensures
        final(out)@ == old(out)@ + fields_bytes(integer_field(number, value)),
{
    if value == 0 {
        assert(out@ + Seq::<u8>::empty() =~= out@);
    } else {
        let ghost field = Field::Integer { number, value };
        protobuf::put_varint_field(number, value, out);
        proof {
            fields_bytes_one(field);
            assert(field.encoded() =~= protobuf::varint_field(number, value));
        }
    }
}

/// A string field reads back, empty or not, where reading it stores the string
/// with `set`.
pub proof fn text_reads<M: Message>(
    number: u32,
    value: Seq<char>,
    from: M::V,
    set: spec_fn(Seq<char>) -> M::V,
    depth: u32,
)
    requires
        1 <= number <= protobuf::MAX_FIELD_NUMBER,
        fields_bytes(seq![Field::Payload { number, bytes: vstd::utf8::encode_utf8(value) }]).len()
            <= protobuf::MAX_MESSAGE_BYTES,
        forall|input: Input|
            #[trigger] M::merged(
                from,
                Tag { number, wire_type: protobuf::LENGTH_DELIMITED },
                input,
                depth,
            ) == (match text(Tag { number, wire_type: protobuf::LENGTH_DELIMITED }, input) {
                Ok((x, next)) => Ok::<(M::V, Input), Seq<char>>((set(x), next)),
                Err(e) => Err(e),
            }),
    ensures
        reads::<M>(
            from,
            seq![Field::Payload { number, bytes: vstd::utf8::encode_utf8(value) }],
            Cost::nothing(),
            set(value),
            depth,
        ),
{
    let field = Field::Payload { number, bytes: vstd::utf8::encode_utf8(value) };
    fields_bytes_one(field);
    assert forall|input: Input|
        protobuf::holds_at(
            input.bytes,
            input.at,
            field.value_bytes(),
        ) implies #[trigger] M::merged(from, field.tag(), input, depth) == Ok::<
        (M::V, Input),
        Seq<char>,
    >((set(value), input.spent(field.value_bytes().len(), Cost::nothing()))) by {
        protobuf::text_reads_back(input.bytes, input.at, value);
    }
    reads_one::<M>(from, field, Cost::nothing(), set(value), depth);
}

/// A string field reads back, where reading it stores the string with `set`.
pub proof fn text_field_reads<M: Message>(
    number: u32,
    value: Seq<char>,
    from: M::V,
    set: spec_fn(Seq<char>) -> M::V,
    depth: u32,
)
    requires
        1 <= number <= protobuf::MAX_FIELD_NUMBER,
        fields_bytes(text_field(number, value)).len() <= protobuf::MAX_MESSAGE_BYTES,
        from == set(Seq::empty()),
        forall|input: Input|
            #[trigger] M::merged(
                from,
                Tag { number, wire_type: protobuf::LENGTH_DELIMITED },
                input,
                depth,
            ) == (match text(Tag { number, wire_type: protobuf::LENGTH_DELIMITED }, input) {
                Ok((x, next)) => Ok::<(M::V, Input), Seq<char>>((set(x), next)),
                Err(e) => Err(e),
            }),
    ensures
        reads::<M>(from, text_field(number, value), Cost::nothing(), set(value), depth),
{
    if value.len() == 0 {
        assert(value =~= Seq::empty());
        reads_nothing::<M>(from, depth);
    } else {
        text_reads::<M>(number, value, from, set, depth);
    }
}

/// A field of bytes reads back, empty or not, where reading it stores the bytes
/// with `set`.
pub proof fn blob_reads<M: Message>(
    number: u32,
    value: Seq<u8>,
    from: M::V,
    set: spec_fn(Seq<u8>) -> M::V,
    depth: u32,
)
    requires
        1 <= number <= protobuf::MAX_FIELD_NUMBER,
        fields_bytes(seq![Field::Payload { number, bytes: value }]).len()
            <= protobuf::MAX_MESSAGE_BYTES,
        forall|input: Input|
            #[trigger] M::merged(
                from,
                Tag { number, wire_type: protobuf::LENGTH_DELIMITED },
                input,
                depth,
            ) == (match blob(Tag { number, wire_type: protobuf::LENGTH_DELIMITED }, input) {
                Ok((x, next)) => Ok::<(M::V, Input), Seq<char>>((set(x), next)),
                Err(e) => Err(e),
            }),
    ensures
        reads::<M>(
            from,
            seq![Field::Payload { number, bytes: value }],
            Cost::nothing(),
            set(value),
            depth,
        ),
{
    let field = Field::Payload { number, bytes: value };
    fields_bytes_one(field);
    assert forall|input: Input|
        protobuf::holds_at(
            input.bytes,
            input.at,
            field.value_bytes(),
        ) implies #[trigger] M::merged(from, field.tag(), input, depth) == Ok::<
        (M::V, Input),
        Seq<char>,
    >((set(value), input.spent(field.value_bytes().len(), Cost::nothing()))) by {
        protobuf::bytes_read_back(input.bytes, input.at, value);
    }
    reads_one::<M>(from, field, Cost::nothing(), set(value), depth);
}

/// A field of bytes reads back, where reading it stores the bytes with `set`.
pub proof fn blob_field_reads<M: Message>(
    number: u32,
    value: Seq<u8>,
    from: M::V,
    set: spec_fn(Seq<u8>) -> M::V,
    depth: u32,
)
    requires
        1 <= number <= protobuf::MAX_FIELD_NUMBER,
        fields_bytes(blob_field(number, value)).len() <= protobuf::MAX_MESSAGE_BYTES,
        from == set(Seq::empty()),
        forall|input: Input|
            #[trigger] M::merged(
                from,
                Tag { number, wire_type: protobuf::LENGTH_DELIMITED },
                input,
                depth,
            ) == (match blob(Tag { number, wire_type: protobuf::LENGTH_DELIMITED }, input) {
                Ok((x, next)) => Ok::<(M::V, Input), Seq<char>>((set(x), next)),
                Err(e) => Err(e),
            }),
    ensures
        reads::<M>(from, blob_field(number, value), Cost::nothing(), set(value), depth),
{
    if value.len() == 0 {
        assert(value =~= Seq::empty());
        reads_nothing::<M>(from, depth);
    } else {
        blob_reads::<M>(number, value, from, set, depth);
    }
}

/// An integer field reads back, where reading it stores the integer with `set`.
pub proof fn integer_field_reads<M: Message>(
    number: u32,
    value: u64,
    from: M::V,
    set: spec_fn(u64) -> M::V,
    depth: u32,
)
    requires
        1 <= number <= protobuf::MAX_FIELD_NUMBER,
        value == 0 ==> from == set(value),
        forall|input: Input|
            #[trigger] M::merged(
                from,
                Tag { number, wire_type: protobuf::VARINT },
                input,
                depth,
            ) == (match integer(Tag { number, wire_type: protobuf::VARINT }, input) {
                Ok((x, next)) => Ok::<(M::V, Input), Seq<char>>((set(x), next)),
                Err(e) => Err(e),
            }),
    ensures
        reads::<M>(from, integer_field(number, value), Cost::nothing(), set(value), depth),
{
    if value == 0 {
        reads_nothing::<M>(from, depth);
    } else {
        let field = Field::Integer { number, value };
        assert forall|input: Input|
            protobuf::holds_at(
                input.bytes,
                input.at,
                field.value_bytes(),
            ) implies #[trigger] M::merged(from, field.tag(), input, depth) == Ok::<
            (M::V, Input),
            Seq<char>,
        >((set(value), input.spent(field.value_bytes().len(), Cost::nothing()))) by {
            protobuf::varint_reads_back(input.bytes, input.at, value as nat);
        }
        reads_one::<M>(from, field, Cost::nothing(), set(value), depth);
    }
}

/// A field with a message reads back, where reading it stores the message with
/// `set`.
pub proof fn nested_field_reads<M: Message, N: Lossless>(
    number: u32,
    value: N::V,
    from: M::V,
    set: spec_fn(N::V) -> M::V,
    depth: u32,
)
    requires
        1 <= number <= protobuf::MAX_FIELD_NUMBER,
        depth > N::levels(),
        N::sound(value, (depth - 1) as u32),
        fields_bytes(seq![Field::Payload { number, bytes: encoding::<N>(value) }]).len()
            <= protobuf::MAX_MESSAGE_BYTES,
        forall|input: Input|
            #[trigger] M::merged(
                from,
                Tag { number, wire_type: protobuf::LENGTH_DELIMITED },
                input,
                depth,
            ) == (match nested::<N>(
                N::blank(),
                Tag { number, wire_type: protobuf::LENGTH_DELIMITED },
                input,
                depth,
            ) {
                Ok((x, next)) => Ok::<(M::V, Input), Seq<char>>((set(x), next)),
                Err(e) => Err(e),
            }),
    ensures
        reads::<M>(
            from,
            seq![Field::Payload { number, bytes: encoding::<N>(value) }],
            N::cost(value, (depth - 1) as u32),
            set(value),
            depth,
        ),
{
    let field = Field::Payload { number, bytes: encoding::<N>(value) };
    let cost = N::cost(value, (depth - 1) as u32);
    fields_bytes_one(field);
    assert forall|input: Input|
        protobuf::holds_at(input.bytes, input.at, field.value_bytes()) && input.affords(
            cost,
        ) implies #[trigger] M::merged(from, field.tag(), input, depth) == Ok::<
        (M::V, Input),
        Seq<char>,
    >((set(value), input.spent(field.value_bytes().len(), cost))) by {
        nested_reads_back::<N>(value, number, input, depth);
    }
    reads_one::<M>(from, field, cost, set(value), depth);
}

/// An element of a repeated message reads back, where reading it stores the message
/// with `set`.
pub proof fn element_reads<M: Message, N: Lossless>(
    number: u32,
    value: N::V,
    from: M::V,
    set: spec_fn(N::V) -> M::V,
    depth: u32,
)
    requires
        1 <= number <= protobuf::MAX_FIELD_NUMBER,
        depth > N::levels(),
        N::sound(value, (depth - 1) as u32),
        fields_bytes(seq![Field::Payload { number, bytes: encoding::<N>(value) }]).len()
            <= protobuf::MAX_MESSAGE_BYTES,
        forall|input: Input|
            #[trigger] M::merged(
                from,
                Tag { number, wire_type: protobuf::LENGTH_DELIMITED },
                input,
                depth,
            ) == (match element::<N>(
                Tag { number, wire_type: protobuf::LENGTH_DELIMITED },
                input,
                depth,
            ) {
                Ok((x, next)) => Ok::<(M::V, Input), Seq<char>>((set(x), next)),
                Err(e) => Err(e),
            }),
    ensures
        reads::<M>(
            from,
            seq![Field::Payload { number, bytes: encoding::<N>(value) }],
            element_cost::<N>(value, depth),
            set(value),
            depth,
        ),
{
    let field = Field::Payload { number, bytes: encoding::<N>(value) };
    let inner = N::cost(value, (depth - 1) as u32);
    let size = Cost { unknown: 0, memory: layout::size_of::<N>() };
    let cost = element_cost::<N>(value, depth);
    fields_bytes_one(field);
    assert forall|input: Input|
        protobuf::holds_at(input.bytes, input.at, field.value_bytes()) && input.affords(
            cost,
        ) implies #[trigger] M::merged(from, field.tag(), input, depth) == Ok::<
        (M::V, Input),
        Seq<char>,
    >((set(value), input.spent(field.value_bytes().len(), cost))) by {
        let charged = input.spent(0, size);
        assert(charged.affords(inner));
        nested_reads_back::<N>(value, number, charged, depth);
        assert(charged.spent(field.value_bytes().len(), inner) == input.spent(
            field.value_bytes().len(),
            cost,
        ));
    }
    reads_one::<M>(from, field, cost, set(value), depth);
}

/// Appends some unknown fields.
pub fn write_unknown(fields: &Vec<UnknownField>, out: &mut Vec<u8>)
    ensures
        final(out)@ == old(out)@ + fields_bytes(unknown_fields(unknown_views(fields@))),
{
    let ghost all = unknown_fields(unknown_views(fields@));
    assert(all.take(0) =~= Seq::empty());
    assert(out@ + Seq::<u8>::empty() =~= out@);
    for i in 0..fields.len()
        invariant
            all == unknown_fields(unknown_views(fields@)),
            out@ == old(out)@ + fields_bytes(all.take(i as int)),
    {
        out.extend_from_slice(fields[i].bytes.as_slice());
        proof {
            assert(all.take(i + 1) =~= all.take(i as int) + seq![all[i as int]]);
            fields_bytes_add(all.take(i as int), seq![all[i as int]]);
            fields_bytes_one(all[i as int]);
            assert(out@ =~= old(out)@ + fields_bytes(all.take(i + 1)));
        }
    }
    assert(all.take(fields.len() as int) =~= all);
}

/// Reads one more unknown field behind its tag.
pub fn push_unknown(
    fields: &mut Vec<UnknownField>,
    tag: Tag,
    reader: &mut Reader,
    depth: u32,
) -> (r: Result<(), String>)
    requires
        old(reader)@.valid(),
        tag.valid(),
        depth <= protobuf::RECURSION_LIMIT,
    ensures
        final(reader)@.bytes == old(reader)@.bytes,
        match unknown(tag, old(reader)@, depth) {
            Ok((field, next)) => {
                &&& r is Ok
                &&& unknown_views(final(fields)@) == unknown_views(old(fields)@).push(field)
                &&& final(reader)@ == next
            },
            Err(e) => r matches Err(t) && t@ == e,
        },
{
    match reader.unknown(tag, depth) {
        Ok(field) => {
            fields.push(field);
            assert(unknown_views(fields@) =~= unknown_views(old(fields)@).push(field@));
            Ok(())
        },
        Err(e) => Err(e),
    }
}

/// Reading the value of a field moves forward within the bytes.
pub proof fn reads_advance(tag: Tag, input: Input, depth: u32)
    requires
        input.valid(),
    ensures
        integer(tag, input) matches Ok((_, next)) ==> {
            &&& next.bytes == input.bytes
            &&& input.at <= next.at <= input.bytes.len()
        },
        blob(tag, input) matches Ok((_, next)) ==> {
            &&& next.bytes == input.bytes
            &&& input.at <= next.at <= input.bytes.len()
        },
        text(tag, input) matches Ok((_, next)) ==> {
            &&& next.bytes == input.bytes
            &&& input.at <= next.at <= input.bytes.len()
        },
        unknown(tag, input, depth) matches Ok((_, next)) ==> {
            &&& next.bytes == input.bytes
            &&& input.at <= next.at <= input.bytes.len()
        },
{
    protobuf::varint_from_advances(input.bytes, input.at, 0);
}

/// Reading an element of a repeated message moves forward within the bytes.
pub proof fn element_advances<M: Message>(tag: Tag, input: Input, depth: u32)
    requires
        input.valid(),
    ensures
        element::<M>(tag, input, depth) matches Ok((_, next)) ==> {
            &&& next.bytes == input.bytes
            &&& input.at <= next.at <= input.bytes.len()
        },
{
    nested_advances::<M>(
        M::blank(),
        tag,
        input.spent(0, Cost { unknown: 0, memory: layout::size_of::<M>() }),
        depth,
    );
}

/// Reading a nested message moves forward within the bytes.
pub proof fn nested_advances<M: Message>(value: M::V, tag: Tag, input: Input, depth: u32)
    requires
        input.valid(),
    ensures
        nested::<M>(value, tag, input, depth) matches Ok((_, next)) ==> {
            &&& next.bytes == input.bytes
            &&& input.at <= next.at <= input.bytes.len()
        },
{
    protobuf::varint_from_advances(input.bytes, input.at, 0);
    if depth > 0 {
        match protobuf::varint_at(input.bytes, input.at) {
            Ok((len, next)) => {
                if len <= protobuf::MAX_MESSAGE_BYTES && input.bytes.len() - next >= len {
                    decoded_advances::<M>(
                        value,
                        input.moved(next),
                        next + len,
                        (depth - 1) as u32,
                    );
                }
            },
            Err(_) => {},
        }
    }
}

// ---- what reading does to a message ----

/// Whether `bytes`, wherever they lie and whatever follows them, turn a message that has
/// been read so far as `from` into `to`, and take `cost` of the limits.
pub open spec fn turns<M: Message>(
    from: M::V,
    bytes: Seq<u8>,
    cost: Cost,
    to: M::V,
    depth: u32,
) -> bool {
    forall|input: Input, end: int|
        #![trigger
            decoded::<M>(from, input, end, depth),
            protobuf::holds_at(input.bytes, input.at, bytes)
        ]
        protobuf::holds_at(input.bytes, input.at, bytes) && input.at + bytes.len() <= end
            && input.affords(cost) ==> decoded::<M>(from, input, end, depth) == decoded::<M>(
            to,
            input.spent(bytes.len(), cost),
            end,
            depth,
        )
}

/// Bytes that are a field do what reading the field does.
pub proof fn a_field_turns<M: Message>(
    from: M::V,
    field: Field,
    bytes: Seq<u8>,
    cost: Cost,
    to: M::V,
    depth: u32,
)
    requires
        reads::<M>(from, seq![field], cost, to, depth),
        field.encoded() == bytes,
    ensures
        turns::<M>(from, bytes, cost, to, depth),
{
    fields_bytes_one(field);
    assert(fields_bytes(seq![field]) == bytes);
    assert forall|input: Input, end: int|
        #![trigger
            decoded::<M>(from, input, end, depth),
            protobuf::holds_at(input.bytes, input.at, bytes)
        ]
        protobuf::holds_at(input.bytes, input.at, bytes) && input.at + bytes.len() <= end
            && input.affords(cost) implies decoded::<M>(from, input, end, depth) == decoded::<M>(
        to,
        input.spent(bytes.len(), cost),
        end,
        depth,
    ) by {
        assert(protobuf::holds_at(input.bytes, input.at, fields_bytes(seq![field])));
    }
}

/// Bytes that turn a blank message into a value, and keep to the limits, hold that value.
pub proof fn what_turns_a_blank_message_is_decoded<M: Message>(
    bytes: Seq<u8>,
    cost: Cost,
    to: M::V,
)
    requires
        turns::<M>(M::blank(), bytes, cost, to, protobuf::RECURSION_LIMIT),
        Input::start(bytes).affords(cost),
    ensures
        decoding::<M>(bytes) == Ok::<M::V, Seq<char>>(to),
{
    let input = Input::start(bytes);
    let end = bytes.len() as int;
    assert(bytes.subrange(0, end) =~= bytes);
    assert(protobuf::holds_at(input.bytes, input.at, bytes));
    assert(decoded::<M>(M::blank(), input, end, protobuf::RECURSION_LIMIT) == decoded::<M>(
        to,
        input.spent(bytes.len(), cost),
        end,
        protobuf::RECURSION_LIMIT,
    ));
}

/// Two runs of bytes, the one behind the other, do what the first does, and what the
/// second does to that.
pub proof fn turning_twice_is_turning_once<M: Message>(
    from: M::V,
    a: Seq<u8>,
    first: Cost,
    between: M::V,
    b: Seq<u8>,
    second: Cost,
    to: M::V,
    depth: u32,
)
    requires
        turns::<M>(from, a, first, between, depth),
        turns::<M>(between, b, second, to, depth),
    ensures
        turns::<M>(from, a + b, first.plus(second), to, depth),
{
    let cost = first.plus(second);
    assert forall|input: Input, end: int|
        #![trigger
            decoded::<M>(from, input, end, depth),
            protobuf::holds_at(input.bytes, input.at, a + b)
        ]
        protobuf::holds_at(input.bytes, input.at, a + b) && input.at + (a + b).len() <= end
            && input.affords(cost) implies decoded::<M>(from, input, end, depth) == decoded::<M>(
        to,
        input.spent((a + b).len(), cost),
        end,
        depth,
    ) by {
        protobuf::holds_both(input.bytes, input.at, a, b);
        let behind = input.spent(a.len(), first);
        assert(protobuf::holds_at(behind.bytes, behind.at, b));
        assert(decoded::<M>(from, input, end, depth) == decoded::<M>(between, behind, end, depth));
        assert(behind.spent(b.len(), second) == input.spent((a + b).len(), cost));
    }
}

/// An integer field reads back, zero or not, where reading it stores the integer with
/// `set`.
pub proof fn integer_reads<M: Message>(
    number: u32,
    value: u64,
    from: M::V,
    set: spec_fn(u64) -> M::V,
    depth: u32,
)
    requires
        1 <= number <= protobuf::MAX_FIELD_NUMBER,
        forall|input: Input|
            #[trigger] M::merged(
                from,
                Tag { number, wire_type: protobuf::VARINT },
                input,
                depth,
            ) == (match integer(Tag { number, wire_type: protobuf::VARINT }, input) {
                Ok((x, next)) => Ok::<(M::V, Input), Seq<char>>((set(x), next)),
                Err(e) => Err(e),
            }),
    ensures
        reads::<M>(
            from,
            seq![Field::Integer { number, value }],
            Cost::nothing(),
            set(value),
            depth,
        ),
{
    let field = Field::Integer { number, value };
    assert forall|input: Input|
        protobuf::holds_at(
            input.bytes,
            input.at,
            field.value_bytes(),
        ) implies #[trigger] M::merged(from, field.tag(), input, depth) == Ok::<
        (M::V, Input),
        Seq<char>,
    >((set(value), input.spent(field.value_bytes().len(), Cost::nothing()))) by {
        protobuf::varint_reads_back(input.bytes, input.at, value as nat);
    }
    reads_one::<M>(from, field, Cost::nothing(), set(value), depth);
}

/// The bytes of some fields are those of each of them, one behind the other.
pub proof fn fields_lie_one_behind_the_other(fields: Seq<Field>)
    ensures
        fields_bytes(fields) == fields.map_values(|field: Field| field.encoded()).flatten(),
    decreases fields.len(),
{
    if fields.len() > 0 {
        fields_lie_one_behind_the_other(fields.drop_first());
        assert(fields.map_values(|field: Field| field.encoded()).drop_first()
            =~= fields.drop_first().map_values(|field: Field| field.encoded()));
    }
}

/// Reading starts at the first byte, with room for a million unknown fields and for
/// 32 MiB of repeated messages, and messages nest a hundred levels deep. All of the
/// bytes are read.
pub proof fn reading_keeps_these_limits<M: Message>(bytes: Seq<u8>)
    ensures
        ({
            let input = Input { bytes, at: 0, allowance: 1000000, memory: 33554432 };
            let all = decoded::<M>(M::blank(), input, bytes.len() as int, 100);
            &&& decoding::<M>(bytes) is Ok <==> all is Ok
            &&& all matches Ok((value, next)) ==> decoding::<M>(bytes) == Ok::<M::V, Seq<char>>(
                value,
            ) && next.bytes == bytes && next.at == bytes.len()
            &&& all matches Err(e) ==> decoding::<M>(bytes) == Err::<M::V, Seq<char>>(e)
        }),
        decoding::<M>(Seq::empty()) == Ok::<M::V, Seq<char>>(M::blank()),
{
    let input = Input { bytes, at: 0, allowance: 1000000, memory: 33554432 };
    decoded_advances::<M>(M::blank(), input, bytes.len() as int, 100);
}

/// A value is read from a field of its own wire type only, from the bytes that lie
/// there, and from all of them: an integer from a varint; bytes from a length and as
/// many bytes; a text from the bytes that it is in UTF-8. Reading one takes nothing of
/// the limits.
pub proof fn values_are_what_the_bytes_say(tag: Tag, input: Input)
    requires
        input.valid(),
    ensures
        integer(tag, input) matches Ok((value, next)) ==> {
            &&& tag.wire_type == 0
            &&& protobuf::varint_at(input.bytes, input.at) matches Ok((v, after))
            &&& value == v as u64
            &&& next == (Input { at: after, ..input })
        },
        blob(tag, input) matches Ok((value, next)) ==> {
            &&& tag.wire_type == 2
            &&& protobuf::varint_at(input.bytes, input.at) matches Ok((len, start))
            &&& len == value.len()
            &&& value == input.bytes.subrange(start, start + len)
            &&& next == (Input { at: start + len, ..input })
        },
        text(tag, input) matches Ok((value, next)) ==> {
            &&& tag.wire_type == 2
            &&& blob(tag, input) == Ok::<(Seq<u8>, Input), Seq<char>>(
                (vstd::utf8::encode_utf8(value), next),
            )
        },
        tag.wire_type != 0 ==> integer(tag, input) == Err::<(u64, Input), Seq<char>>(
            protobuf::mismatch_text(tag.number, 0, tag.wire_type),
        ),
        tag.wire_type != 2 ==> {
            &&& blob(tag, input) == Err::<(Seq<u8>, Input), Seq<char>>(
                protobuf::mismatch_text(tag.number, 2, tag.wire_type),
            )
            &&& text(tag, input) == Err::<(Seq<char>, Input), Seq<char>>(
                protobuf::mismatch_text(tag.number, 2, tag.wire_type),
            )
        },
        tag.wire_type == 0 ==> (integer(tag, input) is Ok <==> protobuf::varint_at(
            input.bytes,
            input.at,
        ) is Ok),
        tag.wire_type == 2 ==> {
            &&& blob(tag, input) is Ok <==> {
                &&& protobuf::varint_at(input.bytes, input.at) matches Ok((len, start))
                &&& len <= usize::MAX
                &&& start + len <= input.bytes.len()
            }
            &&& text(tag, input) is Ok <==> {
                &&& blob(tag, input) matches Ok((payload, _))
                &&& vstd::utf8::valid_utf8(payload)
            }
        },
{
    protobuf::varint_from_advances(input.bytes, input.at, 0);
    match protobuf::bytes_at(input.bytes, input.at) {
        Ok((payload, _)) => {
            if vstd::utf8::valid_utf8(payload) {
                vstd::utf8::decode_utf8_encode_utf8(payload);
            }
        },
        Err(_) => {},
    }
}

/// A nested message takes up just the bytes that its length announces, of a field of
/// that wire type, where a level of nesting is left. An element of a repeated message
/// does so too, and takes its own memory off what is left.
pub proof fn a_nested_message_takes_up_its_length<M: Message>(
    value: M::V,
    tag: Tag,
    input: Input,
    depth: u32,
)
    requires
        input.valid(),
    ensures
        nested::<M>(value, tag, input, depth) matches Ok((after, next)) ==> {
            &&& tag.wire_type == 2
            &&& depth > 0
            &&& protobuf::varint_at(input.bytes, input.at) matches Ok((len, start))
            &&& len <= 0x7fffffff
            &&& next.bytes == input.bytes
            &&& next.at == start + len
            &&& decoded::<M>(
                value,
                Input { at: start, ..input },
                start + len,
                (depth - 1) as u32,
            ) == Ok::<(M::V, Input), Seq<char>>((after, next))
        },
        element::<M>(tag, input, depth) matches Ok((after, next)) ==> {
            &&& input.memory >= layout::size_of::<M>()
            &&& nested::<M>(
                M::blank(),
                tag,
                Input { memory: (input.memory - layout::size_of::<M>()) as usize, ..input },
                depth,
            ) == Ok::<(M::V, Input), Seq<char>>((after, next))
        },
        tag.wire_type != 2 ==> {
            &&& nested::<M>(value, tag, input, depth) == Err::<(M::V, Input), Seq<char>>(
                protobuf::mismatch_text(tag.number, 2, tag.wire_type),
            )
            &&& element::<M>(tag, input, depth) == Err::<(M::V, Input), Seq<char>>(
                protobuf::mismatch_text(tag.number, 2, tag.wire_type),
            )
        },
        tag.wire_type == 2 && depth == 0 ==> nested::<M>(value, tag, input, depth) == Err::<
            (M::V, Input),
            Seq<char>,
        >("recursion limit exceeded"@),
        tag.wire_type == 2 && input.memory < layout::size_of::<M>() ==> element::<M>(
            tag,
            input,
            depth,
        ) == Err::<(M::V, Input), Seq<char>>("element memory limit exceeded"@),
        tag.wire_type == 2 && input.memory >= layout::size_of::<M>() ==> (element::<M>(
            tag,
            input,
            depth,
        ) is Ok <==> nested::<M>(
            M::blank(),
            tag,
            Input { memory: (input.memory - layout::size_of::<M>()) as usize, ..input },
            depth,
        ) is Ok),
{
    protobuf::varint_from_advances(input.bytes, input.at, 0);
    let charged = input.spent(0, Cost { unknown: 0, memory: layout::size_of::<M>() });
    assert(input.memory >= layout::size_of::<M>() ==> charged == (Input {
        memory: (input.memory - layout::size_of::<M>()) as usize,
        ..input
    }));
    if depth > 0 {
        match protobuf::varint_at(input.bytes, input.at) {
            Ok((len, next)) => {
                if len <= protobuf::MAX_MESSAGE_BYTES && input.bytes.len() - next >= len {
                    decoded_advances::<M>(
                        value,
                        input.moved(next),
                        next + len,
                        (depth - 1) as u32,
                    );
                }
            },
            Err(_) => {},
        }
    }
}

/// A message is read field by field up to its end, and no further: each field is read
/// into what the ones before it made, and the first that cannot be read is the error.
pub proof fn a_message_is_read_field_by_field<M: Message>(
    value: M::V,
    input: Input,
    end: int,
    depth: u32,
)
    requires
        input.valid(),
    ensures
        input.at >= end ==> decoded::<M>(value, input, end, depth) == Ok::<
            (M::V, Input),
            Seq<char>,
        >((value, input)),
        input.at < end ==> match protobuf::tag_at(input.bytes, input.at) {
            Err(e) => decoded::<M>(value, input, end, depth) == Err::<(M::V, Input), Seq<char>>(e),
            Ok((tag, behind)) => match M::merged(
                value,
                tag,
                Input { at: behind, ..input },
                depth,
            ) {
                Err(e) => decoded::<M>(value, input, end, depth) == Err::<
                    (M::V, Input),
                    Seq<char>,
                >(e),
                Ok((after, next)) => decoded::<M>(value, input, end, depth) == decoded::<M>(
                    after,
                    next,
                    end,
                    depth,
                ),
            },
        },
{
}

/// A value that cannot be read is the error that its bytes give, and a nested message that
/// is announced too long, runs past the bytes there are, or past its own end, is one too.
pub proof fn what_cannot_be_read_is_an_error<M: Message>(
    value: M::V,
    tag: Tag,
    input: Input,
    depth: u32,
)
    requires
        input.valid(),
    ensures
        tag.wire_type == 0 ==> (protobuf::varint_at(input.bytes, input.at) matches Err(e)
            ==> integer(tag, input) == Err::<(u64, Input), Seq<char>>(e)),
        tag.wire_type == 2 ==> match protobuf::bytes_at(input.bytes, input.at) {
            Err(e) => {
                &&& blob(tag, input) == Err::<(Seq<u8>, Input), Seq<char>>(e)
                &&& text(tag, input) == Err::<(Seq<char>, Input), Seq<char>>(e)
            },
            Ok((payload, _)) => !vstd::utf8::valid_utf8(payload) ==> text(tag, input) == Err::<
                (Seq<char>, Input),
                Seq<char>,
            >("invalid UTF-8 in string field"@),
        },
        tag.wire_type == 2 && depth > 0 ==> match protobuf::varint_at(input.bytes, input.at) {
            Err(e) => nested::<M>(value, tag, input, depth) == Err::<(M::V, Input), Seq<char>>(e),
            Ok((len, start)) => {
                &&& len > 0x7fffffff ==> nested::<M>(value, tag, input, depth) == Err::<
                    (M::V, Input),
                    Seq<char>,
                >(protobuf::TOO_LARGE@)
                &&& len <= 0x7fffffff && start + len > input.bytes.len() ==> nested::<M>(
                    value,
                    tag,
                    input,
                    depth,
                ) == Err::<(M::V, Input), Seq<char>>("unexpected end of buffer"@)
                &&& len <= 0x7fffffff && start + len <= input.bytes.len() ==> match decoded::<M>(
                    value,
                    Input { at: start, ..input },
                    start + len,
                    (depth - 1) as u32,
                ) {
                    Err(e) => nested::<M>(value, tag, input, depth) == Err::<
                        (M::V, Input),
                        Seq<char>,
                    >(e),
                    Ok((after, next)) => if next.at > start + len {
                        nested::<M>(value, tag, input, depth) == Err::<(M::V, Input), Seq<char>>(
                            "unexpected end of buffer"@,
                        )
                    } else {
                        nested::<M>(value, tag, input, depth) == Ok::<(M::V, Input), Seq<char>>(
                            (after, next),
                        )
                    },
                }
            },
        },
{
}

/// A field that a message does not know is kept whole, under its own number and wire
/// type, as it is written again; it takes just its own bytes, and of the limits what it
/// counts. One that cannot be read is the error that its bytes give.
pub proof fn an_unknown_field_is_kept_whole(tag: Tag, input: Input, depth: u32)
    requires
        input.valid(),
    ensures
        ({
            let there = protobuf::unknown_at(
                input.bytes.skip(input.at),
                tag.number,
                tag.wire_type,
                depth,
                input.allowance,
            );
            &&& there matches Err(e) ==> unknown(tag, input, depth) == Err::<
                (UnknownView, Input),
                Seq<char>,
            >(e)
            &&& unknown(tag, input, depth) matches Ok((field, next)) ==> {
                &&& there matches Ok((kept, rest, left))
                &&& field.number == tag.number
                &&& field.wire_type == tag.wire_type
                &&& field.bytes == kept
                &&& next.bytes == input.bytes
                &&& next.at == input.bytes.len() - rest.len()
                &&& next.allowance == left
                &&& next.memory == input.memory
            }
            &&& there matches Ok((kept, rest, left)) ==> rest.len() <= input.bytes.len() - input.at
                && left <= input.allowance && protobuf::replays(
                kept,
                tag.number,
                tag.wire_type,
                depth,
                (input.allowance - left) as nat,
            ) ==> unknown(tag, input, depth) is Ok
        }),
{
}

} // verus!
