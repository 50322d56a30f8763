//! The SOME/IP payload type system: the errors, the serializer and the
//! parser that every payload type writes to and reads from, and the trait
//! that the payload types share.

use crate::text::{dec, push_str, usize_text};
use vstd::prelude::*;

verus! {

/// An error of serializing or parsing a payload type, with its message.
#[derive(Debug)]
pub enum SOMError {
    /// The buffer has no room for, or holds no more of, the next value.
    BufferExhausted(String),
    /// The bytes do not encode a value of the type.
    InvalidPayload(String),
    /// The value cannot be written as it is.
    InvalidType(String),
}

/// The kind and message of an error.
pub enum SOMErrorView {
    /// The buffer has no room for, or holds no more of, the next value.
    BufferExhausted(Seq<char>),
    /// The bytes do not encode a value of the type.
    InvalidPayload(Seq<char>),
    /// The value cannot be written as it is.
    InvalidType(Seq<char>),
}

impl View for SOMError {
    type V = SOMErrorView;

    open spec fn view(&self) -> SOMErrorView {
        match self {
            SOMError::BufferExhausted(m) => SOMErrorView::BufferExhausted(m@),
            SOMError::InvalidPayload(m) => SOMErrorView::InvalidPayload(m@),
            SOMError::InvalidType(m) => SOMErrorView::InvalidType(m@),
        }
    }
}

/// How the length of a value is known on the wire.
#[derive(Debug, Copy, Clone, PartialEq, Eq, Structural)]
pub enum SOMTypeInfo {
    /// The type fixes the length.
    FixedLength,
    /// The length follows from the value's parts.
    ImplicitLength,
    /// A length field gives the length.
    ExplicitLength,
}

/// The byte order of a multi-byte value.
#[derive(Debug, Copy, Clone, PartialEq, Eq, Structural)]
pub enum SOMEndian {
    /// Most significant byte first.
    Big,
    /// Least significant byte first.
    Little,
}

/// The width of a length field.
#[derive(Debug, Copy, Clone, PartialEq, Eq, Structural)]
pub enum SOMLengthField {
    /// No length field.
    NoField,
    /// One byte.
    U8,
    /// Two bytes.
    U16,
    /// Four bytes.
    U32,
}

/// The number of bytes of a length field.
pub open spec fn lengthfield_size(lf: SOMLengthField) -> nat {
    match lf {
        SOMLengthField::NoField => 0,
        SOMLengthField::U8 => 1,
        SOMLengthField::U16 => 2,
        SOMLengthField::U32 => 4,
    }
}

impl SOMLengthField {
    /// The number of bytes of the length field.
    pub fn size(&self) -> (r: usize)
        ensures
            r == lengthfield_size(*self),
    {
        match self {
            SOMLengthField::NoField => 0,
            SOMLengthField::U8 => 1,
            SOMLengthField::U16 => 2,
            SOMLengthField::U32 => 4,
        }
    }
}

/// The width of the type field of a union.
#[derive(Debug, Copy, Clone, PartialEq, Eq, Structural)]
pub enum SOMTypeField {
    /// One byte.
    U8,
    /// Two bytes.
    U16,
    /// Four bytes.
    U32,
}

/// The number of bytes of a type field.
pub open spec fn typefield_size(tf: SOMTypeField) -> nat {
    match tf {
        SOMTypeField::U8 => 1,
        SOMTypeField::U16 => 2,
        SOMTypeField::U32 => 4,
    }
}

impl SOMTypeField {
    /// The number of bytes of the type field.
    pub fn size(&self) -> (r: usize)
        ensures
            r == typefield_size(*self),
    {
        match self {
            SOMTypeField::U8 => 1,
            SOMTypeField::U16 => 2,
            SOMTypeField::U32 => 4,
        }
    }
}

/// The message of a write past the end of the buffer.
pub open spec fn msg_ser_exhausted(offset: nat, size: nat) -> Seq<char> {
    "Serializer exausted at offset: "@ + dec(offset) + " for Object size: "@ + dec(size)
}

/// The message of a read past the end of the data.
pub open spec fn msg_parse_exhausted(offset: nat, size: nat) -> Seq<char> {
    "Parser exausted at offset: "@ + dec(offset) + " for Object size: "@ + dec(size)
}

/// The message of writing a value that holds none.
pub open spec fn msg_uninitialized(offset: nat) -> Seq<char> {
    "Uninitialized Type at offset: "@ + dec(offset)
}

/// The message of a byte that encodes no boolean.
pub open spec fn msg_invalid_bool(value: nat, offset: nat) -> Seq<char> {
    "Invalid Bool value: "@ + dec(value) + " at offset: "@ + dec(offset)
}

/// The message of a length field whose reserved room does not fit it.
pub open spec fn msg_lengthfield_size(size: nat, offset: nat) -> Seq<char> {
    "Invalid Length-Field size: "@ + dec(size) + " at offset: "@ + dec(offset)
}

/// The message of a length field whose value disagrees with what was read.
pub open spec fn msg_lengthfield_value(value: nat, offset: nat) -> Seq<char> {
    "Invalid Length-Field value: "@ + dec(value) + " at offset: "@ + dec(offset)
}

/// The error of a write of `size` bytes past the end of the buffer.
pub open spec fn ser_exhausted(offset: int, size: nat) -> SOMErrorView {
    SOMErrorView::BufferExhausted(msg_ser_exhausted(offset as nat, size))
}

/// The error of a read of `size` bytes past the end of the data.
pub open spec fn parse_exhausted(offset: int, size: nat) -> SOMErrorView {
    SOMErrorView::BufferExhausted(msg_parse_exhausted(offset as nat, size))
}

/// Writing `a` and then `b` right after it writes `a` followed by `b`.
pub proof fn lemma_overwrite_concat(buf: Seq<u8>, offset: int, a: Seq<u8>, b: Seq<u8>)
    requires
        0 <= offset,
        offset + a.len() + b.len() <= buf.len(),
    ensures
        overwrite(overwrite(buf, offset, a), offset + a.len(), b) == overwrite(buf, offset, a + b),
{
    assert(overwrite(overwrite(buf, offset, a), offset + a.len(), b) =~= overwrite(
        buf,
        offset,
        a + b,
    ));
}

/// Writing `b` after room for `a` and then `a` into that room writes `a`
/// followed by `b`.
pub proof fn lemma_overwrite_before(buf: Seq<u8>, offset: int, a: Seq<u8>, b: Seq<u8>)
    requires
        0 <= offset,
        offset + a.len() + b.len() <= buf.len(),
    ensures
        overwrite(overwrite(buf, offset + a.len(), b), offset, a) == overwrite(buf, offset, a + b),
{
    assert(overwrite(overwrite(buf, offset + a.len(), b), offset, a) =~= overwrite(
        buf,
        offset,
        a + b,
    ));
}

/// Writing the bytes that a buffer holds changes nothing.
pub proof fn lemma_overwrite_same(buf: Seq<u8>, offset: int, k: int)
    requires
        0 <= offset,
        0 <= k,
        offset + k <= buf.len(),
    ensures
        overwrite(buf, offset, buf.subrange(offset, offset + k)) == buf,
{
    assert(overwrite(buf, offset, buf.subrange(offset, offset + k)) =~= buf);
}

/// Builds the message `prefix`, then `a` in decimal.
pub fn message1(prefix: &str, a: usize) -> (r: String)
    ensures
        r@ == prefix@ + dec(a as nat),
{
    let mut s = String::from_str(prefix);
    let t = usize_text(a);
    push_str(&mut s, &t);
    s
}

/// Builds the message `prefix`, `a` in decimal, `middle`, then `b` in decimal.
pub fn message2(prefix: &str, a: usize, middle: &str, b: usize) -> (r: String)
    ensures
        r@ == prefix@ + dec(a as nat) + middle@ + dec(b as nat),
{
    let mut s = String::from_str(prefix);
    let t = usize_text(a);
    push_str(&mut s, &t);
    s.append(middle);
    let u = usize_text(b);
    push_str(&mut s, &u);
    s
}

/// The serializer: a buffer of fixed length that values are written into,
/// and the offset of the next write.
pub struct SOMSerializer {
    buffer: Vec<u8>,
    offset: usize,
}

/// Room in the buffer that was reserved for a length field.
pub struct SOMSerializerPromise {
    offset: usize,
    size: usize,
}

impl SOMSerializerPromise {
    /// Where the reserved room starts.
    pub closed spec fn pos(&self) -> int {
        self.offset as int
    }

    /// How many bytes were reserved.
    pub closed spec fn size(&self) -> nat {
        self.size as nat
    }
}

/// The buffer `buf` with `bytes` written from `offset` on.
pub open spec fn overwrite(buf: Seq<u8>, offset: int, bytes: Seq<u8>) -> Seq<u8> {
    buf.subrange(0, offset) + bytes + buf.subrange(offset + bytes.len(), buf.len() as int)
}

/// The bytes of the value `value` in a length field, truncated to its width.
pub open spec fn lengthfield_bytes(lf: SOMLengthField, value: nat) -> Seq<u8> {
    match lf {
        SOMLengthField::NoField => Seq::empty(),
        SOMLengthField::U8 => seq![value as u8],
        SOMLengthField::U16 => crate::bytes::be16(value as u16),
        SOMLengthField::U32 => crate::bytes::be32(value as u32),
    }
}

/// The value of a length field at `offset`, most significant byte first.
pub open spec fn lengthfield_value(lf: SOMLengthField, data: Seq<u8>, offset: int) -> nat {
    match lf {
        SOMLengthField::NoField => 0,
        SOMLengthField::U8 => data[offset] as nat,
        SOMLengthField::U16 => crate::bytes::from_be16(data.subrange(offset, offset + 2)) as nat,
        SOMLengthField::U32 => crate::bytes::from_be32(data.subrange(offset, offset + 4)) as nat,
    }
}

/// What a serializer that was `before` a write is after it, where `spec`
/// is what the write is meant to do and `r` what it reported: on success
/// the bytes of `spec` written at the old offset and the offset moved past
/// them, on failure the error of `spec`.
pub open spec fn serialized(
    spec: Result<Seq<u8>, SOMErrorView>,
    before: SOMSerializer,
    after: SOMSerializer,
    r: Result<usize, SOMError>,
) -> bool {
    &&& after.wf()
    &&& after.buffer().len() == before.buffer().len()
    &&& match r {
        Ok(n) => spec matches Ok(bytes) && bytes.len() == n && after.pos() == before.pos()
            + n && after.buffer() == overwrite(before.buffer(), before.pos(), bytes),
        Err(e) => spec matches Err(ev) && e@ == ev,
    }
}

impl SOMSerializer {
    /// The buffer.
    pub closed spec fn buffer(&self) -> Seq<u8> {
        self.buffer@
    }

    /// The offset of the next write.
    pub closed spec fn pos(&self) -> int {
        self.offset as int
    }

    /// The offset lies within the buffer.
    pub closed spec fn wf(&self) -> bool {
        self.offset <= self.buffer@.len() <= usize::MAX
    }

    /// The offset of a well-formed serializer lies within its buffer.
    pub proof fn lemma_wf(&self)
        requires
            self.wf(),
        ensures
            0 <= self.pos() <= self.buffer().len() <= usize::MAX,
    {
    }

    /// A serializer that writes into `buffer` from its start.
    pub fn new(buffer: Vec<u8>) -> (r: SOMSerializer)
        ensures
            r.buffer() == buffer@,
            r.pos() == 0,
            r.wf(),
    {
        let n = buffer.len();
        SOMSerializer { buffer, offset: 0 }
    }

    /// The buffer with what was written.
    pub fn into_buffer(self) -> (r: Vec<u8>)
        ensures
            r@ == self.buffer(),
    {
        self.buffer
    }

    /// The offset of the next write.
    pub fn offset(&self) -> (r: usize)
        ensures
            r == self.pos(),
    {
        self.offset
    }

    /// Fails with the serializer's message where `size` bytes do not fit
    /// after the offset.
    pub fn check_size(&self, size: usize) -> (r: Result<(), SOMError>)
        requires
            self.wf(),
        ensures
            self.pos() + size <= self.buffer().len() ==> r is Ok,
            self.pos() + size > self.buffer().len() ==> (r matches Err(e) && e@
                == ser_exhausted(self.pos(), size as nat)),
    {
        if size > self.buffer.len() - self.offset {
            return Err(
                SOMError::BufferExhausted(
                    message2(
                        "Serializer exausted at offset: ",
                        self.offset,
                        " for Object size: ",
                        size,
                    ),
                ),
            );
        }
        Ok(())
    }

    /// Writes `bytes` at the offset, or fails where they do not fit.
    pub fn write_bytes(&mut self, bytes: &[u8]) -> (r: Result<usize, SOMError>)
        requires
            old(self).wf(),
        ensures
            serialized(
                if old(self).pos() + bytes@.len() <= old(self).buffer().len() {
                    Ok(bytes@)
                } else {
                    Err(ser_exhausted(old(self).pos(), bytes@.len()))
                },
                *old(self),
                *final(self),
                r,
            ),
    {
        match self.check_size(bytes.len()) {
            Ok(()) => {},
            Err(e) => return Err(e),
        }
        let ghost start = self.buffer@;
        let off = self.offset;
        let mut i: usize = 0;
        while i < bytes.len()
            invariant
                off == old(self).pos(),
                start == old(self).buffer(),
                off + bytes@.len() <= start.len() <= usize::MAX,
                self.offset == off,
                i <= bytes@.len(),
                self.buffer@.len() == start.len(),
                forall|j: int| 0 <= j < off ==> self.buffer@[j] == start[j],
                forall|j: int| off + bytes@.len() <= j < start.len() ==> self.buffer@[j] == start[j],
                forall|j: int| 0 <= j < i ==> self.buffer@[off + j] == bytes@[j],
            decreases bytes@.len() - i,
        {
            self.buffer.set(off + i, bytes[i]);
            i = i + 1;
        }
        self.offset = off + bytes.len();
        proof {
            assert(self.buffer@ =~= overwrite(start, off as int, bytes@));
        }
        Ok(bytes.len())
    }

    /// Reserves `size` bytes for a length field that is written later.
    pub fn promise(&mut self, size: usize) -> (r: Result<SOMSerializerPromise, SOMError>)
        requires
            old(self).wf(),
        ensures
            final(self).wf(),
            final(self).buffer() == old(self).buffer(),
            old(self).pos() + size <= old(self).buffer().len() ==> (r matches Ok(p)
                && p.pos() == old(self).pos() && p.size() == size && final(self).pos()
                == old(self).pos() + size),
            old(self).pos() + size > old(self).buffer().len() ==> (r matches Err(e) && e@
                == ser_exhausted(old(self).pos(), size as nat)),
    {
        match self.check_size(size) {
            Ok(()) => {},
            Err(e) => return Err(e),
        }
        let result = SOMSerializerPromise { offset: self.offset, size };
        self.offset = self.offset + size;
        Ok(result)
    }

    /// Writes `value` into the room reserved for a length field, or fails
    /// where that room does not have the field's width.
    pub fn write_lengthfield(
        &mut self,
        promise: SOMSerializerPromise,
        lengthfield: SOMLengthField,
        value: usize,
    ) -> (r: Result<(), SOMError>)
        requires
            old(self).wf(),
            promise.pos() + promise.size() <= old(self).buffer().len(),
        ensures
            final(self).wf(),
            final(self).pos() == old(self).pos(),
            promise.size() == lengthfield_size(lengthfield) ==> r is Ok && final(self).buffer()
                == overwrite(
                old(self).buffer(),
                promise.pos(),
                lengthfield_bytes(lengthfield, value as nat),
            ),
            promise.size() != lengthfield_size(lengthfield) ==> (r matches Err(e) && e@
                == SOMErrorView::InvalidType(
                msg_lengthfield_size(lengthfield_size(lengthfield), promise.pos() as nat),
            ) && final(self).buffer() == old(self).buffer()),
    {
        if promise.size != lengthfield.size() {
            return Err(
                SOMError::InvalidType(
                    message2(
                        "Invalid Length-Field size: ",
                        lengthfield.size(),
                        " at offset: ",
                        promise.offset,
                    ),
                ),
            );
        }
        let ghost start = self.buffer@;
        let off = promise.offset;
        let n = self.buffer.len();
        match lengthfield {
            SOMLengthField::NoField => {},
            SOMLengthField::U8 => {
                self.buffer.set(off, value as u8);
            },
            SOMLengthField::U16 => {
                let v = value as u16;
                self.buffer.set(off, (v >> 8u16) as u8);
                self.buffer.set(off + 1, v as u8);
            },
            SOMLengthField::U32 => {
                let v = value as u32;
                self.buffer.set(off, (v >> 24u32) as u8);
                self.buffer.set(off + 1, (v >> 16u32) as u8);
                self.buffer.set(off + 2, (v >> 8u32) as u8);
                self.buffer.set(off + 3, v as u8);
            },
        }
        proof {
            assert(self.buffer@ =~= overwrite(
                start,
                off as int,
                lengthfield_bytes(lengthfield, value as nat),
            ));
        }
        Ok(())
    }
}

impl SOMSerializer {
    /// Writes `value` as a type field, truncated to its width, most
    /// significant byte first.
    pub fn write_typefield(&mut self, typefield: SOMTypeField, value: usize) -> (r: Result<
        usize,
        SOMError,
    >)
        requires
            old(self).wf(),
        ensures
            serialized(
                if old(self).pos() + typefield_size(typefield) <= old(self).buffer().len() {
                    Ok(typefield_bytes(typefield, value as nat))
                } else {
                    Err(ser_exhausted(old(self).pos(), typefield_size(typefield)))
                },
                *old(self),
                *final(self),
                r,
            ),
    {
        let mut bytes: Vec<u8> = Vec::new();
        match typefield {
            SOMTypeField::U8 => bytes.push(value as u8),
            SOMTypeField::U16 => crate::bytes::push_be16(&mut bytes, value as u16),
            SOMTypeField::U32 => crate::bytes::push_be32(&mut bytes, value as u32),
        }
        proof {
            assert(bytes@ =~= typefield_bytes(typefield, value as nat));
        }
        self.write_bytes(bytes.as_slice())
    }
}

/// The parser: the data that values are read from, and the offset of the
/// next read.
pub struct SOMParser<'a> {
    buffer: &'a [u8],
    offset: usize,
}

impl<'a> SOMParser<'a> {
    /// The data.
    pub closed spec fn data(&self) -> Seq<u8> {
        self.buffer@
    }

    /// The offset of the next read.
    pub closed spec fn pos(&self) -> int {
        self.offset as int
    }

    /// The offset lies within the data.
    pub closed spec fn wf(&self) -> bool {
        self.offset <= self.buffer@.len() <= usize::MAX
    }

    /// The offset of a well-formed parser lies within its data.
    pub proof fn lemma_wf(&self)
        requires
            self.wf(),
        ensures
            0 <= self.pos() <= self.data().len() <= usize::MAX,
    {
    }

    /// A parser that reads `buffer` from its start.
    pub fn new(buffer: &'a [u8]) -> (r: SOMParser<'a>)
        ensures
            r.data() == buffer@,
            r.pos() == 0,
            r.wf(),
    {
        let n = buffer.len();
        SOMParser { buffer, offset: 0 }
    }

    /// The offset of the next read.
    pub fn offset(&self) -> (r: usize)
        ensures
            r == self.pos(),
    {
        self.offset
    }

    /// Fails with the parser's message where `size` bytes do not remain
    /// after the offset.
    pub fn check_size(&self, size: usize) -> (r: Result<(), SOMError>)
        requires
            self.wf(),
        ensures
            self.pos() + size <= self.data().len() ==> r is Ok,
            self.pos() + size > self.data().len() ==> (r matches Err(e) && e@
                == parse_exhausted(self.pos(), size as nat)),
    {
        if size > self.buffer.len() - self.offset {
            return Err(
                SOMError::BufferExhausted(
                    message2(
                        "Parser exausted at offset: ",
                        self.offset,
                        " for Object size: ",
                        size,
                    ),
                ),
            );
        }
        Ok(())
    }

    /// Reads `size` bytes, or fails where they do not remain.
    pub fn read_bytes(&mut self, size: usize) -> (r: Result<&'a [u8], SOMError>)
        requires
            old(self).wf(),
        ensures
            final(self).wf(),
            final(self).data() == old(self).data(),
            old(self).pos() + size <= old(self).data().len() ==> (r matches Ok(b) && b@
                == old(self).data().subrange(old(self).pos(), old(self).pos() + size)
                && final(self).pos() == old(self).pos() + size),
            old(self).pos() + size > old(self).data().len() ==> (r matches Err(e) && e@
                == parse_exhausted(old(self).pos(), size as nat) && final(self).pos()
                == old(self).pos()),
    {
        match self.check_size(size) {
            Ok(()) => {},
            Err(e) => return Err(e),
        }
        let start = self.offset;
        self.offset = self.offset + size;
        Ok(crate::parser::slice_range(self.buffer, start, start + size))
    }

    /// Skips `size` bytes, or fails where they do not remain.
    pub fn skip(&mut self, size: usize) -> (r: Result<usize, SOMError>)
        requires
            old(self).wf(),
        ensures
            final(self).wf(),
            final(self).data() == old(self).data(),
            old(self).pos() + size <= old(self).data().len() ==> (r == Ok::<usize, SOMError>(
                size,
            ) && final(self).pos() == old(self).pos() + size),
            old(self).pos() + size > old(self).data().len() ==> (r matches Err(e) && e@
                == parse_exhausted(old(self).pos(), size as nat) && final(self).pos()
                == old(self).pos()),
    {
        match self.check_size(size) {
            Ok(()) => {},
            Err(e) => return Err(e),
        }
        self.offset = self.offset + size;
        Ok(size)
    }
}

/// What a parser that was `before` a read is after it, and what the value
/// read into is, where `spec` is the value and outcome that the read is
/// meant to give and `r` what it reported.
pub open spec fn parsed<T>(
    spec: (T, Result<nat, SOMErrorView>),
    value: T,
    before: SOMParser,
    after: SOMParser,
    r: Result<usize, SOMError>,
) -> bool {
    &&& after.wf()
    &&& after.data() == before.data()
    &&& value == spec.0
    &&& match r {
        Ok(n) => spec.1 == Ok::<nat, SOMErrorView>(n as nat) && after.pos() == before.pos() + n,
        Err(e) => spec.1 matches Err(ev) && e@ == ev,
    }
}

/// A payload type: a value that is written to and read from the wire.
pub trait SOMType: Sized {
    /// The mathematical model of a value: what it holds that its wire
    /// encoding depends on, and what parsing changes.
    type Model;

    /// The model of the value.
    spec fn model(&self) -> Self::Model;

    /// The bytes that serializing a value of model `m` at `offset` into a
    /// buffer that holds `buf` writes there, or its error.
    spec fn ser_spec(m: Self::Model, offset: int, buf: Seq<u8>) -> Result<Seq<u8>, SOMErrorView>;

    /// The model after parsing a value of model `m` at `offset` from
    /// `data`, and the number of bytes read or the error.
    spec fn parse_spec(m: Self::Model, offset: int, data: Seq<u8>) -> (
        Self::Model,
        Result<nat, SOMErrorView>,
    );

    /// Whether parsing a value of model `m` at `offset` from `data` runs to
    /// its end: it does not where text that is read is not valid.
    spec fn parse_safe(m: Self::Model, offset: int, data: Seq<u8>) -> bool;

    /// The size that a value of model `m` reports.
    spec fn size_spec(m: Self::Model) -> nat;

    /// How the length of a value of model `m` is known on the wire.
    spec fn info_spec(m: Self::Model) -> SOMTypeInfo;

    /// Whether serializing a value of model `m` runs to its end: it does
    /// not where a size that it computes exceeds the machine's words.
    spec fn ser_safe(m: Self::Model) -> bool;

    /// Writes the value at the serializer's offset.
    fn serialize(&self, serializer: &mut SOMSerializer) -> (r: Result<usize, SOMError>)
        requires
            old(serializer).wf(),
            Self::ser_safe(self.model()),
        ensures
            serialized(
                Self::ser_spec(self.model(), old(serializer).pos(), old(serializer).buffer()),
                *old(serializer),
                *final(serializer),
                r,
            ),
    ;

    /// Reads the value at the parser's offset.
    fn parse(&mut self, parser: &mut SOMParser) -> (r: Result<usize, SOMError>)
        requires
            old(parser).wf(),
            Self::parse_safe(old(self).model(), old(parser).pos(), old(parser).data()),
        ensures
            parsed(
                Self::parse_spec(old(self).model(), old(parser).pos(), old(parser).data()),
                final(self).model(),
                *old(parser),
                *final(parser),
                r,
            ),
    ;

    /// The size of the value in bytes.
    fn size(&self) -> (r: usize)
        requires
            Self::size_spec(self.model()) <= usize::MAX,
        ensures
            r == Self::size_spec(self.model()),
    ;

    /// How the length of the value is known on the wire.
    fn info(&self) -> (r: SOMTypeInfo)
        ensures
            r == Self::info_spec(self.model()),
    ;
}

/// The name and description that a value is shown with.
#[derive(Debug)]
pub struct SOMTypeMeta {
    name: String,
    description: String,
}

/// The text of a name and description: the name, followed by the
/// description in brackets where there is one.
pub open spec fn meta_text(name: Seq<char>, description: Seq<char>) -> Seq<char> {
    if description.len() == 0 {
        name
    } else {
        name + " ("@ + description + ")"@
    }
}

impl SOMTypeMeta {
    /// The name.
    pub closed spec fn name(&self) -> Seq<char> {
        self.name@
    }

    /// The description.
    pub closed spec fn description(&self) -> Seq<char> {
        self.description@
    }

    /// The meta data with an empty name and description.
    pub fn empty() -> (r: SOMTypeMeta)
        ensures
            r.name() == Seq::<char>::empty(),
            r.description() == Seq::<char>::empty(),
    {
        SOMTypeMeta { name: String::new(), description: String::new() }
    }

    /// The meta data with the given name and description.
    pub fn from(name: String, description: String) -> (r: SOMTypeMeta)
        ensures
            r.name() == name@,
            r.description() == description@,
    {
        SOMTypeMeta { name, description }
    }

    /// The text that the meta data is shown as.
    pub fn to_str(&self) -> (r: String)
        ensures
            r@ == meta_text(self.name(), self.description()),
    {
        let mut s = String::from_str(self.name.as_str());
        if self.description.as_str().is_empty() {
            return s;
        }
        s.append(" (");
        s.append(self.description.as_str());
        s.append(")");
        s
    }

    /// A copy of the meta data.
    pub fn duplicate(&self) -> (r: SOMTypeMeta)
        ensures
            r.name() == self.name(),
            r.description() == self.description(),
    {
        SOMTypeMeta {
            name: String::from_str(self.name.as_str()),
            description: String::from_str(self.description.as_str()),
        }
    }
}

impl<'a> SOMParser<'a> {
    /// Reads one byte.
    pub fn read_u8(&mut self) -> (r: Result<u8, SOMError>)
        requires
            old(self).wf(),
        ensures
            final(self).wf(),
            final(self).data() == old(self).data(),
            old(self).pos() + 1 <= old(self).data().len() ==> r == Ok::<u8, SOMError>(
                old(self).data()[old(self).pos()],
            ) && final(self).pos() == old(self).pos() + 1,
            old(self).pos() + 1 > old(self).data().len() ==> (r matches Err(e) && e@
                == parse_exhausted(old(self).pos(), 1) && final(self).pos() == old(self).pos()),
    {
        let b = match self.read_bytes(1) {
            Ok(b) => b,
            Err(e) => return Err(e),
        };
        Ok(b[0])
    }

    /// Reads a length field, most significant byte first.
    pub fn read_lengthfield(&mut self, lengthfield: SOMLengthField) -> (r: Result<usize, SOMError>)
        requires
            old(self).wf(),
        ensures
            final(self).wf(),
            final(self).data() == old(self).data(),
            old(self).pos() + lengthfield_size(lengthfield) <= old(self).data().len() ==> r
                == Ok::<usize, SOMError>(
                lengthfield_value(lengthfield, old(self).data(), old(self).pos()) as usize,
            ) && final(self).pos() == old(self).pos() + lengthfield_size(lengthfield),
            old(self).pos() + lengthfield_size(lengthfield) > old(self).data().len() ==> (r matches Err(
                e,
            ) && e@ == parse_exhausted(old(self).pos(), lengthfield_size(lengthfield))),
    {
        let size = lengthfield.size();
        let b = match self.read_bytes(size) {
            Ok(b) => b,
            Err(e) => return Err(e),
        };
        match lengthfield {
            SOMLengthField::NoField => Ok(0),
            SOMLengthField::U8 => Ok(b[0] as usize),
            SOMLengthField::U16 => {
                proof {
                    assert(b@.subrange(0, 2) =~= b@);
                }
                Ok(crate::bytes::read_be16(b, 0) as usize)
            },
            SOMLengthField::U32 => {
                proof {
                    assert(b@.subrange(0, 4) =~= b@);
                }
                Ok(crate::bytes::read_be32(b, 0) as usize)
            },
        }
    }

    /// Reads a type field, most significant byte first.
    pub fn read_typefield(&mut self, typefield: SOMTypeField) -> (r: Result<usize, SOMError>)
        requires
            old(self).wf(),
        ensures
            final(self).wf(),
            final(self).data() == old(self).data(),
            old(self).pos() + typefield_size(typefield) <= old(self).data().len() ==> r == Ok::<
                usize,
                SOMError,
            >(typefield_value(typefield, old(self).data(), old(self).pos()) as usize)
                && final(self).pos() == old(self).pos() + typefield_size(typefield),
            old(self).pos() + typefield_size(typefield) > old(self).data().len() ==> (r matches Err(
                e,
            ) && e@ == parse_exhausted(old(self).pos(), typefield_size(typefield))),
    {
        let size = typefield.size();
        let b = match self.read_bytes(size) {
            Ok(b) => b,
            Err(e) => return Err(e),
        };
        match typefield {
            SOMTypeField::U8 => Ok(b[0] as usize),
            SOMTypeField::U16 => {
                proof {
                    assert(b@.subrange(0, 2) =~= b@);
                }
                Ok(crate::bytes::read_be16(b, 0) as usize)
            },
            SOMTypeField::U32 => {
                proof {
                    assert(b@.subrange(0, 4) =~= b@);
                }
                Ok(crate::bytes::read_be32(b, 0) as usize)
            },
        }
    }
}

/// The value of a type field at `offset`, most significant byte first.
pub open spec fn typefield_value(tf: SOMTypeField, data: Seq<u8>, offset: int) -> nat {
    match tf {
        SOMTypeField::U8 => data[offset] as nat,
        SOMTypeField::U16 => crate::bytes::from_be16(data.subrange(offset, offset + 2)) as nat,
        SOMTypeField::U32 => crate::bytes::from_be32(data.subrange(offset, offset + 4)) as nat,
    }
}

/// The bytes of the value `value` in a type field, truncated to its width.
pub open spec fn typefield_bytes(tf: SOMTypeField, value: nat) -> Seq<u8> {
    match tf {
        SOMTypeField::U8 => seq![value as u8],
        SOMTypeField::U16 => crate::bytes::be16(value as u16),
        SOMTypeField::U32 => crate::bytes::be32(value as u32),
    }
}

} // verus!
