//! Strings: UTF-8 or UTF-16 text with an optional byte order mark and
//! termination, of fixed or dynamic length.

use crate::bytes::{be16, from_be16, ordered};
use crate::som::{
    message1, parsed, lemma_overwrite_before, lemma_overwrite_concat, lemma_overwrite_same, overwrite,
    lengthfield_bytes, lengthfield_size, lengthfield_value, msg_lengthfield_value, parse_exhausted,
    ser_exhausted, serialized, SOMEndian, SOMError, SOMErrorView, SOMLengthField, SOMParser,
    SOMSerializer, SOMTypeInfo, SOMTypeMeta,
};
use crate::text::dec;
use vstd::prelude::*;
use vstd::utf8::{decode_utf8, encode_utf8, valid_utf8};

verus! {

/// The text encoding of a string.
#[derive(Debug, Copy, Clone, PartialEq, Eq, Structural)]
pub enum SOMStringEncoding {
    /// UTF-8.
    Utf8,
    /// UTF-16, most significant byte first.
    Utf16Be,
    /// UTF-16, least significant byte first.
    Utf16Le,
}

/// What surrounds the text of a string on the wire.
#[derive(Debug, Copy, Clone, PartialEq, Eq, Structural)]
pub enum SOMStringFormat {
    /// The text alone.
    Plain,
    /// A byte order mark, then the text.
    WithBOM,
    /// The text, then a termination.
    WithTermination,
    /// A byte order mark, the text, then a termination.
    WithBOMandTermination,
}

/// The UTF-16 code units of a character: the character itself below
/// U+10000, else its pair of surrogates.
pub open spec fn char_utf16(c: char) -> Seq<u16> {
    let v = c as int;
    if v < 0x10000 {
        seq![v as u16]
    } else {
        seq![(0xD800 + (v - 0x10000) / 0x400) as u16, (0xDC00 + (v - 0x10000) % 0x400) as u16]
    }
}

/// The UTF-16 code units of a text (`str::encode_utf16`): those of its
/// characters in turn.
#[verifier::opaque]
pub open spec fn utf16_units(s: Seq<char>) -> Seq<u16>
    decreases s.len(),
{
    if s.len() == 0 {
        Seq::empty()
    } else {
        utf16_units(s.drop_last()) + char_utf16(s.last())
    }
}

/// The text of UTF-16 code units, where they are valid UTF-16
/// (`String::from_utf16`): the text whose code units they are, where there
/// is one.
#[verifier::opaque]
pub open spec fn utf16_text(units: Seq<u16>) -> Option<Seq<char>> {
    if exists|s: Seq<char>| utf16_units(s) == units {
        Some(choose|s: Seq<char>| utf16_units(s) == units)
    } else {
        None
    }
}

/// The last code unit of a character is a low surrogate exactly where the
/// character lies above U+FFFF; the character is given by its code units.
proof fn lemma_char_utf16(a: char, b: char)
    ensures
        char_utf16(a).len() >= 1,
        (a as int) < 0x10000 <==> char_utf16(a).len() == 1,
        (a as int) < 0x10000 <==> !(0xDC00 <= char_utf16(a).last() <= 0xDFFF),
        char_utf16(a) == char_utf16(b) ==> a == b,
{
    let va = a as int;
    let vb = b as int;
    assert(0 <= va <= 0xD7FF || 0xE000 <= va <= 0x10FFFF);
    assert(0 <= vb <= 0xD7FF || 0xE000 <= vb <= 0x10FFFF);
    if char_utf16(a) == char_utf16(b) {
        if va < 0x10000 {
            assert(vb < 0x10000);
            assert(char_utf16(a)[0] == va as u16);
        } else {
            assert(vb >= 0x10000);
            assert(char_utf16(a)[0] == char_utf16(b)[0]);
            assert(char_utf16(a)[1] == char_utf16(b)[1]);
            assert((va - 0x10000) / 0x400 == (vb - 0x10000) / 0x400);
            assert((va - 0x10000) % 0x400 == (vb - 0x10000) % 0x400);
            assert(va == vb) by (nonlinear_arith)
                requires
                    (va - 0x10000) / 0x400 == (vb - 0x10000) / 0x400,
                    (va - 0x10000) % 0x400 == (vb - 0x10000) % 0x400,
            ;
        }
        assert(a == b);
    }
}

/// Texts with the same code units are the same.
pub proof fn lemma_utf16_injective(a: Seq<char>, b: Seq<char>)
    requires
        utf16_units(a) == utf16_units(b),
    ensures
        a == b,
    decreases a.len() + b.len(),
{
    reveal(utf16_units);
    if a.len() == 0 || b.len() == 0 {
        if a.len() > 0 {
            lemma_char_utf16(a.last(), a.last());
            assert(utf16_units(a).len() > 0);
        }
        if b.len() > 0 {
            lemma_char_utf16(b.last(), b.last());
            assert(utf16_units(b).len() > 0);
        }
        assert(a =~= b);
    } else {
        let ca = char_utf16(a.last());
        let cb = char_utf16(b.last());
        let pa = utf16_units(a.drop_last());
        let pb = utf16_units(b.drop_last());
        lemma_char_utf16(a.last(), b.last());
        lemma_char_utf16(b.last(), a.last());
        assert((pa + ca).last() == ca.last());
        assert((pb + cb).last() == cb.last());
        assert(ca.len() == cb.len());
        assert((pa + ca).subrange(pa.len() as int, (pa + ca).len() as int) =~= ca);
        assert((pb + cb).subrange(pb.len() as int, (pb + cb).len() as int) =~= cb);
        assert(ca == cb);
        assert((pa + ca).subrange(0, pa.len() as int) =~= pa);
        assert((pb + cb).subrange(0, pb.len() as int) =~= pb);
        assert(pa == pb);
        lemma_utf16_injective(a.drop_last(), b.drop_last());
        assert(a =~= a.drop_last().push(a.last()));
        assert(b =~= b.drop_last().push(b.last()));
    }
}

/// The code units of a text decode to it.
pub proof fn lemma_utf16_text_units(s: Seq<char>)
    ensures
        utf16_text(utf16_units(s)) == Some(s),
{
    reveal(utf16_text);
    let u = utf16_units(s);
    assert(exists|t: Seq<char>| utf16_units(t) == u);
    let t = choose|t: Seq<char>| utf16_units(t) == u;
    lemma_utf16_injective(t, s);
}

/// The UTF-16 code units of `s`: `str::encode_utf16`, collected, which
/// encodes each character as UTF-16 does (`utf16_units`). Decoding them
/// gives back `s`, as the standard library documents; a vector holds at
/// most `isize::MAX` bytes.
#[verifier::external_body]
pub fn encode_utf16(s: &str) -> (r: Vec<u16>)
    ensures
        r@ == utf16_units(s@),
        r@.len() * 2 <= isize::MAX,
{
    s.encode_utf16().collect()
}

/// The text of the UTF-16 code units `units`, where they are valid
/// (`String::from_utf16`).
#[verifier::external_body]
pub fn decode_utf16(units: &[u16]) -> (r: Option<String>)
    ensures
        match r {
            Some(s) => utf16_text(units@) == Some(s@),
            None => utf16_text(units@) is None,
        },
{
    String::from_utf16(units).ok()
}

/// The text of the UTF-8 bytes `bytes`, where they are valid
/// (`String::from_utf8`).
#[verifier::external_body]
pub fn decode_utf8_bytes(bytes: Vec<u8>) -> (r: Option<String>)
    ensures
        match r {
            Some(s) => valid_utf8(bytes@) && s@ == decode_utf8(bytes@),
            None => !valid_utf8(bytes@),
        },
{
    String::from_utf8(bytes).ok()
}

/// The number of bytes of the UTF-8 text of `s` (`String::len`); a string
/// holds at most `isize::MAX` bytes, as the standard library documents.
#[verifier::external_body]
pub fn byte_len(s: &String) -> (r: usize)
    ensures
        r == encode_utf8(s@).len(),
        r <= isize::MAX,
{
    s.len()
}

/// The text without the NUL characters that end it.
pub open spec fn trim_nul(s: Seq<char>) -> Seq<char>
    decreases s.len(),
{
    if s.len() > 0 && s.last() == '\0' {
        trim_nul(s.drop_last())
    } else {
        s
    }
}

/// The text of `s` without the NUL characters that end it
/// (`str::trim_end_matches`).
#[verifier::external_body]
pub fn trim_end_nul(s: &str) -> (r: String)
    ensures
        r@ == trim_nul(s@),
{
    s.trim_end_matches('\0').to_string()
}

/// The number of bytes of a character of the encoding.
pub open spec fn char_size(encoding: SOMStringEncoding) -> nat {
    match encoding {
        SOMStringEncoding::Utf8 => 1,
        _ => 2,
    }
}

/// The byte order mark of the encoding.
pub open spec fn bom(encoding: SOMStringEncoding) -> Seq<u8> {
    match encoding {
        SOMStringEncoding::Utf8 => seq![0xEFu8, 0xBBu8, 0xBFu8],
        SOMStringEncoding::Utf16Be => seq![0xFEu8, 0xFFu8],
        SOMStringEncoding::Utf16Le => seq![0xFFu8, 0xFEu8],
    }
}

/// The termination of the encoding.
pub open spec fn termination(encoding: SOMStringEncoding) -> Seq<u8> {
    match encoding {
        SOMStringEncoding::Utf8 => seq![0x00u8],
        _ => seq![0x00u8, 0x00u8],
    }
}

/// The number of characters that `n` bytes of the encoding take, rounded up.
pub open spec fn chars_of(encoding: SOMStringEncoding, n: nat) -> nat {
    let c = char_size(encoding);
    if n % c != 0 {
        n / c + 1
    } else {
        n / c
    }
}

/// Whether the format has a byte order mark.
pub open spec fn has_bom(format: SOMStringFormat) -> bool {
    format == SOMStringFormat::WithBOM || format == SOMStringFormat::WithBOMandTermination
}

/// Whether the format has a termination.
pub open spec fn has_termination(format: SOMStringFormat) -> bool {
    format == SOMStringFormat::WithTermination || format
        == SOMStringFormat::WithBOMandTermination
}

/// The byte order of the encoding's code units.
pub open spec fn string_endian(encoding: SOMStringEncoding) -> SOMEndian {
    match encoding {
        SOMStringEncoding::Utf16Le => SOMEndian::Little,
        _ => SOMEndian::Big,
    }
}

/// The model of a string.
pub struct StringModel {
    /// The length field.
    pub lengthfield: SOMLengthField,
    /// The text encoding.
    pub encoding: SOMStringEncoding,
    /// What surrounds the text.
    pub format: SOMStringFormat,
    /// The text.
    pub value: Seq<char>,
    /// The minimum length in characters.
    pub min: nat,
    /// The maximum length in characters.
    pub max: nat,
    /// The name and description that the value is shown with.
    pub meta: Option<SOMTypeMeta>,
}

/// The length that a string of text `value` reports: the bytes of its UTF-8
/// encoding, and the characters of its byte order mark and termination.
pub open spec fn string_len(m: StringModel, value: Seq<char>) -> nat {
    let bom_len = chars_of(m.encoding, bom(m.encoding).len());
    let termination_len = chars_of(m.encoding, termination(m.encoding).len());
    encode_utf8(value).len() + (if has_bom(m.format) {
        bom_len
    } else {
        0
    }) + (if has_termination(m.format) {
        termination_len
    } else {
        0
    })
}

/// A string whose length a length field gives, or whose length may vary.
pub open spec fn string_dynamic(m: StringModel) -> bool {
    m.min != m.max || m.lengthfield != SOMLengthField::NoField
}

/// A string whose length lies within its bounds.
pub open spec fn string_length_ok(m: StringModel) -> bool {
    let length = string_len(m, m.value);
    if string_dynamic(m) {
        m.min <= length <= m.max
    } else {
        length <= m.max
    }
}

/// The message of a string of invalid length.
pub open spec fn msg_string_len(length: nat, offset: nat) -> Seq<char> {
    "Invalid String length: "@ + dec(length) + " at offset: "@ + dec(offset)
}

/// The message of a byte order mark that was not found.
pub open spec fn msg_string_bom(offset: nat) -> Seq<char> {
    "Invalid String-BOM at offset: "@ + dec(offset)
}

/// The message of a termination that was not found.
pub open spec fn msg_string_termination(offset: nat) -> Seq<char> {
    "Invalid String-Termination at offset: "@ + dec(offset)
}

/// Each byte as a write of its own.
pub open spec fn byte_chunks(b: Seq<u8>) -> Seq<Seq<u8>> {
    Seq::new(b.len(), |i: int| seq![b[i]])
}

/// The bytes of a UTF-16 code unit in the byte order `endian`.
pub open spec fn unit_bytes(u: u16, endian: SOMEndian) -> Seq<u8> {
    ordered(be16(u), endian == SOMEndian::Little)
}

/// The writes of the text: its UTF-8 bytes one by one, or its UTF-16 code
/// units two bytes at a time.
pub open spec fn content_chunks(m: StringModel) -> Seq<Seq<u8>> {
    match m.encoding {
        SOMStringEncoding::Utf8 => byte_chunks(encode_utf8(m.value)),
        _ => {
            let units = utf16_units(m.value);
            Seq::new(units.len(), |i: int| unit_bytes(units[i], string_endian(m.encoding)))
        },
    }
}

/// The summed length of writes.
pub open spec fn chunks_len(c: Seq<Seq<u8>>) -> nat
    decreases c.len(),
{
    if c.len() == 0 {
        0
    } else {
        chunks_len(c.drop_last()) + c.last().len()
    }
}

/// The writes of a string after its length field: byte order mark, text,
/// termination, then zero bytes up to the fixed size.
pub open spec fn string_chunks(m: StringModel) -> Seq<Seq<u8>> {
    let head = (if has_bom(m.format) {
        byte_chunks(bom(m.encoding))
    } else {
        Seq::empty()
    }) + content_chunks(m) + (if has_termination(m.format) {
        byte_chunks(termination(m.encoding))
    } else {
        Seq::empty()
    });
    let written = chunks_len(head);
    let max_size = char_size(m.encoding) * m.max;
    if !string_dynamic(m) && written < max_size {
        head + byte_chunks(Seq::new((max_size - written) as nat, |i: int| 0u8))
    } else {
        head
    }
}

/// The bytes of a sequence of writes from `offset` on, each checked for
/// room in a buffer of length `len`, or the error of the first that does
/// not fit.
pub open spec fn chunks_ser(c: Seq<Seq<u8>>, offset: int, len: int) -> Result<
    Seq<u8>,
    SOMErrorView,
>
    decreases c.len(),
{
    if c.len() == 0 {
        Ok(Seq::empty())
    } else if offset + c[0].len() > len {
        Err(ser_exhausted(offset, c[0].len()))
    } else {
        match chunks_ser(c.subrange(1, c.len() as int), offset + c[0].len(), len) {
            Ok(rest) => Ok(c[0] + rest),
            Err(e) => Err(e),
        }
    }
}

/// The bytes of a string at `offset` into a buffer that holds `buf`: its
/// length is checked, its length field reserved, its parts written, then
/// the length field filled in where the string is dynamic.
pub open spec fn string_ser(m: StringModel, offset: int, buf: Seq<u8>) -> Result<
    Seq<u8>,
    SOMErrorView,
> {
    let k = lengthfield_size(m.lengthfield);
    if !string_length_ok(m) {
        Err(SOMErrorView::InvalidType(msg_string_len(string_len(m, m.value), offset as nat)))
    } else if offset + k > buf.len() {
        Err(ser_exhausted(offset, k))
    } else {
        match chunks_ser(string_chunks(m), offset + k, buf.len() as int) {
            Err(e) => Err(e),
            Ok(b) => if string_dynamic(m) {
                Ok(lengthfield_bytes(m.lengthfield, b.len()) + b)
            } else {
                Ok(buf.subrange(offset, offset + k) + b)
            },
        }
    }
}

/// Reading the byte order mark `b` from its byte `i` on at `p`, where `ss`
/// bytes of the string remain: the position and remaining bytes after it,
/// or the error; none where the remaining count would fall below zero.
pub open spec fn bom_phase(b: Seq<u8>, i: int, p: int, ss: int, data: Seq<u8>) -> Option<
    Result<(int, int), SOMErrorView>,
>
    decreases b.len() - i,
{
    if i >= b.len() || i < 0 {
        Some(Ok((p, ss)))
    } else if p + 1 > data.len() {
        Some(Err(parse_exhausted(p, 1)))
    } else if data[p] != b[i] {
        Some(Err(SOMErrorView::InvalidPayload(msg_string_bom((p + 1) as nat))))
    } else if ss < 1 {
        None
    } else {
        bom_phase(b, i + 1, p + 1, ss - 1, data)
    }
}

/// Reading `n` characters of `cs` bytes each at `p`, one at a time: their
/// bytes, or the error of the first that does not remain.
pub open spec fn content_phase(p: int, n: int, cs: int, data: Seq<u8>) -> Result<
    Seq<u8>,
    SOMErrorView,
> {
    if p + n * cs <= data.len() {
        Ok(data.subrange(p, p + n * cs))
    } else {
        Err(parse_exhausted(p + ((data.len() - p) / cs) * cs, cs as nat))
    }
}

/// Reading the termination `b` from its byte `i` on at `p`: the position
/// after it, or the error.
pub open spec fn termination_phase(b: Seq<u8>, i: int, p: int, data: Seq<u8>) -> Result<
    int,
    SOMErrorView,
>
    decreases b.len() - i,
{
    if i >= b.len() || i < 0 {
        Ok(p)
    } else if p + 1 > data.len() {
        Err(parse_exhausted(p, 1))
    } else if data[p] != b[i] {
        Err(SOMErrorView::InvalidPayload(msg_string_termination((p + 1) as nat)))
    } else {
        termination_phase(b, i + 1, p + 1, data)
    }
}

/// The UTF-16 code units of bytes, two at a time in the byte order
/// `endian`.
pub open spec fn units_of(bytes: Seq<u8>, endian: SOMEndian) -> Seq<u16> {
    Seq::new(
        bytes.len() / 2,
        |i: int| from_be16(ordered(bytes.subrange(2 * i, 2 * i + 2), endian == SOMEndian::Little)),
    )
}

/// The text of bytes in the encoding, where they are valid.
pub open spec fn decode_text(encoding: SOMStringEncoding, bytes: Seq<u8>) -> Option<Seq<char>> {
    match encoding {
        SOMStringEncoding::Utf8 => if valid_utf8(bytes) {
            Some(decode_utf8(bytes))
        } else {
            None
        },
        _ => utf16_text(units_of(bytes, string_endian(encoding))),
    }
}

/// The byte order mark that the format reads, if any.
pub open spec fn format_bom(m: StringModel) -> Seq<u8> {
    if has_bom(m.format) {
        bom(m.encoding)
    } else {
        Seq::empty()
    }
}

/// The termination that the format reads, if any.
pub open spec fn format_termination(m: StringModel) -> Seq<u8> {
    if has_termination(m.format) {
        termination(m.encoding)
    } else {
        Seq::empty()
    }
}

/// Reading a string at `offset`: the length field, the byte order mark, as
/// many characters as the length field (or the fixed size) leaves room for,
/// and the termination; the text without its ending NUL characters becomes
/// the value before the termination is checked. None where the read does
/// not run to its end: a count of bytes falls below zero, or the text is not
/// valid in its encoding.
pub open spec fn string_parse_full(m: StringModel, offset: int, data: Seq<u8>) -> Option<
    (StringModel, Result<nat, SOMErrorView>),
> {
    let k = lengthfield_size(m.lengthfield);
    if offset + k > data.len() {
        Some((m, Err(parse_exhausted(offset, k))))
    } else {
        string_after_lengthfield(m, offset, data, lengthfield_value(m.lengthfield, data, offset))
    }
}

/// Reading a string on from its length field of value `lfv`.
#[verifier::opaque]
pub open spec fn string_after_lengthfield(m: StringModel, offset: int, data: Seq<u8>, lfv: nat) -> Option<
    (StringModel, Result<nat, SOMErrorView>),
> {
    let k = lengthfield_size(m.lengthfield);
    let cs = char_size(m.encoding) as int;
    let ss0: int = if string_dynamic(m) {
        lfv as int
    } else {
        cs * m.max
    };
    let tl = format_termination(m).len() as int;
    if ss0 < tl {
        None
    } else {
        string_after_bom(m, offset, data, lfv, bom_phase(format_bom(m), 0, offset + k, ss0 - tl, data))
    }
}

/// Reading a string on from its byte order mark, whose reading gave `res`.
#[verifier::opaque]
pub open spec fn string_after_bom(
    m: StringModel,
    offset: int,
    data: Seq<u8>,
    lfv: nat,
    res: Option<Result<(int, int), SOMErrorView>>,
) -> Option<(StringModel, Result<nat, SOMErrorView>)> {
    match res {
        None => None,
        Some(Err(e)) => Some((m, Err(e))),
        Some(Ok((p, ss))) => {
            let cs = char_size(m.encoding) as int;
            let n = ss / cs;
            string_after_content(m, offset, data, lfv, p + n * cs, content_phase(p, n, cs, data))
        },
    }
}

/// Reading a string on from its text, whose bytes, read up to `q`, are
/// `res`.
#[verifier::opaque]
pub open spec fn string_after_content(
    m: StringModel,
    offset: int,
    data: Seq<u8>,
    lfv: nat,
    q: int,
    res: Result<Seq<u8>, SOMErrorView>,
) -> Option<(StringModel, Result<nat, SOMErrorView>)> {
    match res {
        Err(e) => Some((m, Err(e))),
        Ok(bytes) => match decode_text(m.encoding, bytes) {
            None => None,
            Some(text) => {
                let m2 = StringModel { value: trim_nul(text), ..m };
                Some(
                    (
                        m2,
                        string_after_termination(
                            m2,
                            offset,
                            lfv,
                            termination_phase(format_termination(m), 0, q, data),
                        ),
                    ),
                )
            },
        },
    }
}

/// The outcome of reading a string of model `m2` whose termination's reading
/// gave `res`: the check of the length field and of the length.
pub open spec fn string_after_termination(
    m2: StringModel,
    offset: int,
    lfv: nat,
    res: Result<int, SOMErrorView>,
) -> Result<nat, SOMErrorView> {
    match res {
        Err(e) => Err(e),
        Ok(q) => {
            let size = q - offset;
            let k = lengthfield_size(m2.lengthfield);
            if string_dynamic(m2) && lfv != size - k {
                Err(SOMErrorView::InvalidPayload(msg_lengthfield_value(lfv, offset as nat)))
            } else if !string_length_ok(m2) {
                Err(
                    SOMErrorView::InvalidType(
                        msg_string_len(string_len(m2, m2.value), offset as nat),
                    ),
                )
            } else {
                Ok(size as nat)
            }
        },
    }
}

/// The bytes of each write.
pub open spec fn chunk_views(c: Seq<Vec<u8>>) -> Seq<Seq<u8>> {
    c.map_values(|v: Vec<u8>| v@)
}

/// The writes of a sequence of writes taken from the `i`-th on.
proof fn lemma_chunks_step(c: Seq<Seq<u8>>, i: int)
    requires
        0 <= i < c.len(),
    ensures
        c.subrange(i, c.len() as int)[0] == c[i],
        c.subrange(i, c.len() as int).subrange(1, c.len() - i) == c.subrange(
            i + 1,
            c.len() as int,
        ),
{
    assert(c.subrange(i, c.len() as int).subrange(1, c.len() - i) =~= c.subrange(
        i + 1,
        c.len() as int,
    ));
}

/// Writes each of `chunks` in turn, or fails at the first that does not fit.
fn write_chunks(serializer: &mut SOMSerializer, chunks: &Vec<Vec<u8>>) -> (r: Result<
    usize,
    SOMError,
>)
    requires
        old(serializer).wf(),
    ensures
        serialized(
            chunks_ser(chunk_views(chunks@), old(serializer).pos(), old(serializer).buffer().len() as int),
            *old(serializer),
            *final(serializer),
            r,
        ),
{
    let ghost all = chunk_views(chunks@);
    let ghost off0 = serializer.pos();
    let ghost buf0 = serializer.buffer();
    let ghost len = buf0.len() as int;
    let mut written: usize = 0;
    let mut i: usize = 0;
    let ghost mut acc: Seq<u8> = Seq::empty();
    proof {
        serializer.lemma_wf();
        assert(overwrite(buf0, off0, acc) =~= buf0);
        assert(all.subrange(0, all.len() as int) =~= all);
        match chunks_ser(all, off0, len) {
            Ok(rest) => {
                assert(acc + rest =~= rest);
            },
            Err(_) => {},
        }
    }
    while i < chunks.len()
        invariant
            all == chunk_views(chunks@),
            serializer.wf(),
            0 <= off0,
            off0 == old(serializer).pos(),
            buf0 == old(serializer).buffer(),
            len == buf0.len(),
            serializer.buffer().len() == len,
            i <= chunks@.len(),
            written == acc.len(),
            serializer.pos() == off0 + acc.len(),
            serializer.buffer() == overwrite(buf0, off0, acc),
            chunks_ser(all, off0, len) == match chunks_ser(
                all.subrange(i as int, all.len() as int),
                serializer.pos(),
                len,
            ) {
                Ok(rest) => Ok(acc + rest),
                Err(e) => Err::<Seq<u8>, SOMErrorView>(e),
            },
        decreases chunks@.len() - i,
    {
        proof {
            lemma_chunks_step(all, i as int);
        }
        let ghost before = serializer.buffer();
        let n = match serializer.write_bytes(chunks[i].as_slice()) {
            Ok(n) => n,
            Err(e) => return Err(e),
        };
        proof {
            serializer.lemma_wf();
            let c = all[i as int];
            lemma_overwrite_concat(buf0, off0, acc, c);
            match chunks_ser(all.subrange(i + 1, all.len() as int), serializer.pos(), len) {
                Ok(rest) => {
                    assert(acc + (c + rest) =~= (acc + c) + rest);
                },
                Err(_) => {},
            }
            acc = acc + c;
        }
        written = written + n;
        i = i + 1;
    }
    proof {
        assert(all.subrange(i as int, all.len() as int) =~= Seq::<Seq<u8>>::empty());
        assert(acc + Seq::<u8>::empty() =~= acc);
    }
    Ok(written)
}

/// A string of UTF-8 or UTF-16 text.
#[derive(Debug)]
pub struct SOMStringType {
    lengthfield: SOMLengthField,
    encoding: SOMStringEncoding,
    format: SOMStringFormat,
    value: String,
    min: usize,
    max: usize,
    meta: Option<SOMTypeMeta>,
}

/// A string without the machine limit of its fixed size exceeded: twice its
/// maximum length fits a machine word where the size is fixed.
pub open spec fn string_size_fits(m: StringModel) -> bool {
    string_dynamic(m) || char_size(m.encoding) * m.max <= usize::MAX
}

impl SOMStringType {
    /// The model of the string.
    pub closed spec fn spec_model(&self) -> StringModel {
        StringModel {
            lengthfield: self.lengthfield,
            encoding: self.encoding,
            format: self.format,
            value: self.value@,
            min: self.min as nat,
            max: self.max as nat,
            meta: self.meta,
        }
    }

    /// A string of fixed size: `size` characters, without a length field.
    pub fn fixed(encoding: SOMStringEncoding, format: SOMStringFormat, size: usize) -> (r:
        SOMStringType)
        ensures
            r.spec_model() == (StringModel {
                lengthfield: SOMLengthField::NoField,
                encoding,
                format,
                value: Seq::empty(),
                min: size as nat,
                max: size as nat,
                meta: None,
            }),
    {
        SOMStringType {
            lengthfield: SOMLengthField::NoField,
            encoding,
            format,
            value: String::new(),
            min: size,
            max: size,
            meta: None,
        }
    }

    /// A string of dynamic size, from `min` to `max` characters.
    pub fn dynamic(
        lengthfield: SOMLengthField,
        encoding: SOMStringEncoding,
        format: SOMStringFormat,
        min: usize,
        max: usize,
    ) -> (r: SOMStringType)
        ensures
            r.spec_model() == (StringModel {
                lengthfield,
                encoding,
                format,
                value: Seq::empty(),
                min: min as nat,
                max: max as nat,
                meta: None,
            }),
    {
        SOMStringType { lengthfield, encoding, format, value: String::new(), min, max, meta: None }
    }

    /// The length of the string: the bytes of its text and the characters of
    /// its byte order mark and termination.
    pub fn len(&self) -> (r: usize)
        ensures
            r == string_len(self.spec_model(), self.spec_model().value),
    {
        self.string_len(&self.value)
    }

    /// The length that the string would have with the text `value`.
    fn string_len(&self, value: &String) -> (r: usize)
        ensures
            r == string_len(self.spec_model(), value@),
    {
        let bom_len: usize = match self.encoding {
            SOMStringEncoding::Utf8 => 3,
            _ => 1,
        };
        let mut n = byte_len(value);
        if self.has_bom() {
            n = n + bom_len;
        }
        if self.has_termination() {
            n = n + 1;
        }
        n
    }
}

impl SOMStringType {
    /// The byte order mark of the string's encoding.
    pub fn bom(&self) -> (r: Vec<u8>)
        ensures
            r@ == bom(self.spec_model().encoding),
    {
        let r = match self.encoding {
            SOMStringEncoding::Utf8 => vec![0xEFu8, 0xBBu8, 0xBFu8],
            SOMStringEncoding::Utf16Be => vec![0xFEu8, 0xFFu8],
            SOMStringEncoding::Utf16Le => vec![0xFFu8, 0xFEu8],
        };
        proof {
            assert(r@ =~= bom(self.spec_model().encoding));
        }
        r
    }

    /// The termination of the string's encoding.
    pub fn termination(&self) -> (r: Vec<u8>)
        ensures
            r@ == termination(self.spec_model().encoding),
    {
        let r = match self.encoding {
            SOMStringEncoding::Utf8 => vec![0x00u8],
            _ => vec![0x00u8, 0x00u8],
        };
        proof {
            assert(r@ =~= termination(self.spec_model().encoding));
        }
        r
    }

    /// Whether a length field gives the string's length, or its length may
    /// vary.
    pub fn is_dynamic(&self) -> (r: bool)
        ensures
            r == string_dynamic(self.spec_model()),
    {
        (self.min != self.max) || (self.lengthfield != SOMLengthField::NoField)
    }

    /// Whether the string has a byte order mark.
    pub fn has_bom(&self) -> (r: bool)
        ensures
            r == has_bom(self.spec_model().format),
    {
        match self.format {
            SOMStringFormat::WithBOM => true,
            SOMStringFormat::WithBOMandTermination => true,
            _ => false,
        }
    }

    /// Whether the string has a termination.
    pub fn has_termination(&self) -> (r: bool)
        ensures
            r == has_termination(self.spec_model().format),
    {
        match self.format {
            SOMStringFormat::WithTermination => true,
            SOMStringFormat::WithBOMandTermination => true,
            _ => false,
        }
    }

    /// Sets the text where the string's length with it stays within its
    /// maximum; false where it would not.
    pub fn set(&mut self, value: String) -> (r: bool)
        ensures
            r == (string_len(old(self).spec_model(), value@) <= old(self).spec_model().max),
            r ==> final(self).spec_model() == (StringModel { value: value@, ..old(self).spec_model() }),
            !r ==> final(self).spec_model() == old(self).spec_model(),
    {
        if self.string_len(&value) <= self.max {
            self.value = value;
            return true;
        }
        false
    }

    /// The text.
    pub fn get(&self) -> (r: &str)
        ensures
            r@ == self.spec_model().value,
    {
        self.value.as_str()
    }

    /// The byte order of the string's code units.
    pub fn endian(&self) -> (r: SOMEndian)
        ensures
            r == string_endian(self.spec_model().encoding),
    {
        match self.encoding {
            SOMStringEncoding::Utf8 => SOMEndian::Big,
            SOMStringEncoding::Utf16Be => SOMEndian::Big,
            SOMStringEncoding::Utf16Le => SOMEndian::Little,
        }
    }

    /// Fails where the string's length lies outside its bounds.
    pub fn check_length(&self, offset: usize) -> (r: Result<(), SOMError>)
        ensures
            string_length_ok(self.spec_model()) ==> r is Ok,
            !string_length_ok(self.spec_model()) ==> (r matches Err(e) && e@
                == SOMErrorView::InvalidType(
                msg_string_len(string_len(self.spec_model(), self.spec_model().value), offset as nat),
            )),
    {
        let length = self.len();
        let valid: bool;
        if self.is_dynamic() {
            valid = (self.min <= length) && (length <= self.max);
        } else {
            valid = length <= self.max;
        }
        if !valid {
            return Err(
                SOMError::InvalidType(
                    crate::som::message2("Invalid String length: ", length, " at offset: ", offset),
                ),
            );
        }
        Ok(())
    }

    /// The outcome of a read of the string from `offset` to `end` whose
    /// length field held `lfv`: the checks of the length field and of the
    /// length.
    fn finish_parse(&self, lfv: usize, offset: usize, end: usize) -> (r: Result<usize, SOMError>)
        requires
            offset + lengthfield_size(self.spec_model().lengthfield) <= end,
        ensures
            match string_after_termination(self.spec_model(), offset as int, lfv as nat, Ok(end as int)) {
                Ok(n) => r matches Ok(v) && v == n,
                Err(ev) => r matches Err(e) && e@ == ev,
            },
    {
        let size = end - offset;
        if self.is_dynamic() && (lfv != (size - self.lengthfield.size())) {
            return Err(
                SOMError::InvalidPayload(
                    crate::som::message2("Invalid Length-Field value: ", lfv, " at offset: ", offset),
                ),
            );
        }
        match self.check_length(offset) {
            Ok(()) => {},
            Err(e) => return Err(e),
        }
        Ok(size)
    }

    /// The string shown with the name and description `meta`.
    pub fn with_meta(self, meta: SOMTypeMeta) -> (r: SOMStringType)
        ensures
            r.spec_model() == (StringModel { meta: Some(meta), ..self.spec_model() }),
    {
        SOMStringType { meta: Some(meta), ..self }
    }

    /// The name and description that the value is shown with, if any.
    pub fn meta(&self) -> (r: Option<&SOMTypeMeta>)
        ensures
            r is None <==> self.spec_model().meta is None,
            r matches Some(m) ==> self.spec_model().meta == Some(*m),
    {
        match &self.meta {
            Some(m) => Some(m),
            None => None,
        }
    }

    /// The writes of the string after its length field.
    #[verifier::rlimit(60)]
    fn chunks(&self) -> (r: Vec<Vec<u8>>)
        requires
            string_size_fits(self.spec_model()),
        ensures
            chunk_views(r@) == string_chunks(self.spec_model()),
    {
        let ghost m = self.spec_model();
        let mut out: Vec<Vec<u8>> = Vec::new();
        let mut written: usize = 0;
        if self.has_bom() {
            let b = self.bom();
            push_byte_chunks(&mut out, b.as_slice());
            written = b.len();
            proof {
                assert(chunk_views(Seq::<Vec<u8>>::empty()) =~= Seq::<Seq<u8>>::empty());
                assert(Seq::<Seq<u8>>::empty() + byte_chunks(b@) =~= byte_chunks(b@));
                lemma_chunks_len_bytes(b@);
            }
        } else {
            proof {
                assert(chunk_views(out@) =~= Seq::<Seq<u8>>::empty());
            }
        }
        let ghost after_bom = chunk_views(out@);
        proof {
            assert(written == chunks_len(after_bom));
            assert(written <= 3);
        }
        match self.encoding {
            SOMStringEncoding::Utf8 => {
                let n = byte_len(&self.value);
                let bytes = self.value.as_str().as_bytes();
                push_byte_chunks(&mut out, bytes);
                written = written + n;
                proof {
                    lemma_chunks_len_bytes(bytes@);
                    lemma_chunks_len_concat(after_bom, byte_chunks(bytes@));
                }
            },
            _ => {
                let units = encode_utf16(self.value.as_str());
                let endian = self.endian();
                let mut i: usize = 0;
                while i < units.len()
                    invariant
                        i <= units@.len(),
                        units@.len() * 2 <= isize::MAX,
                        endian == string_endian(m.encoding),
                        units@ == utf16_units(m.value),
                        written == chunks_len(after_bom) + 2 * i,
                        chunks_len(after_bom) <= 3,
                        chunk_views(out@) == after_bom + Seq::new(
                            i as nat,
                            |j: int| unit_bytes(units@[j], endian),
                        ),
                    decreases units@.len() - i,
                {
                    let pair = unit_vec(units[i], endian);
                    let ghost before = out@;
                    out.push(pair);
                    proof {
                        lemma_chunk_views_push(before, pair);
                        assert(chunk_views(out@) =~= after_bom + Seq::new(
                            (i + 1) as nat,
                            |j: int| unit_bytes(units@[j], endian),
                        ));
                    }
                    written = written + 2;
                    i = i + 1;
                }
                proof {
                    lemma_chunks_len_units(units@, endian, units@.len());
                    lemma_chunks_len_concat(
                        after_bom,
                        Seq::new(units@.len(), |j: int| unit_bytes(units@[j], endian)),
                    );
                }
            },
        }
        let ghost after_content = chunk_views(out@);
        proof {
            assert(after_content =~= after_bom + content_chunks(m));
        }
        proof {
            assert(written == chunks_len(after_content));
        }
        if self.has_termination() {
            let t = self.termination();
            push_byte_chunks(&mut out, t.as_slice());
            written = written + t.len();
            proof {
                lemma_chunks_len_bytes(t@);
                lemma_chunks_len_concat(after_content, byte_chunks(t@));
            }
        } else {
            proof {
                assert(chunk_views(out@) =~= after_content + Seq::<Seq<u8>>::empty());
            }
        }
        let ghost head = chunk_views(out@);
        proof {
            assert(head =~= (if has_bom(m.format) {
                byte_chunks(bom(m.encoding))
            } else {
                Seq::empty()
            }) + content_chunks(m) + (if has_termination(m.format) {
                byte_chunks(termination(m.encoding))
            } else {
                Seq::empty()
            }));
        }
        proof {
            assert(written == chunks_len(head));
        }
        if !self.is_dynamic() {
            let total = written;
            let char_size: usize = match self.encoding {
                SOMStringEncoding::Utf8 => 1,
                _ => 2,
            };
            let max_size = char_size * self.max;
            if total < max_size {
                let mut k: usize = 0;
                let pad = max_size - total;
                while k < pad
                    invariant
                        k <= pad,
                        chunk_views(out@) == head + byte_chunks(
                            Seq::new(k as nat, |i: int| 0u8),
                        ),
                    decreases pad - k,
                {
                    let ghost before = out@;
                    let z = one_byte(0u8);
                    out.push(z);
                    proof {
                        lemma_chunk_views_push(before, z);
                        assert(chunk_views(out@) =~= head + byte_chunks(
                            Seq::new((k + 1) as nat, |i: int| 0u8),
                        ));
                    }
                    k = k + 1;
                }
            }
        }
        proof {
            assert(chunk_views(out@) =~= string_chunks(m));
        }
        out
    }
}

/// Appending a write appends its bytes.
proof fn lemma_chunk_views_push(s: Seq<Vec<u8>>, v: Vec<u8>)
    ensures
        chunk_views(s.push(v)) == chunk_views(s).push(v@),
{
    assert(chunk_views(s.push(v)) =~= chunk_views(s).push(v@));
}

/// The summed length of writes grows by the length of an appended one.
pub proof fn lemma_chunks_len_push(c: Seq<Seq<u8>>, b: Seq<u8>)
    ensures
        chunks_len(c.push(b)) == chunks_len(c) + b.len(),
{
    assert(c.push(b).drop_last() =~= c);
}

/// The summed length of writes of one byte each.
pub proof fn lemma_chunks_len_bytes(b: Seq<u8>)
    ensures
        chunks_len(byte_chunks(b)) == b.len(),
    decreases b.len(),
{
    if b.len() > 0 {
        lemma_chunks_len_bytes(b.drop_last());
        assert(byte_chunks(b) =~= byte_chunks(b.drop_last()).push(seq![b.last()]));
        lemma_chunks_len_push(byte_chunks(b.drop_last()), seq![b.last()]);
    } else {
        assert(byte_chunks(b) =~= Seq::<Seq<u8>>::empty());
    }
}

/// The summed length of two sequences of writes one after the other.
pub proof fn lemma_chunks_len_concat(a: Seq<Seq<u8>>, b: Seq<Seq<u8>>)
    ensures
        chunks_len(a + b) == chunks_len(a) + chunks_len(b),
    decreases b.len(),
{
    if b.len() > 0 {
        lemma_chunks_len_concat(a, b.drop_last());
        assert((a + b).drop_last() =~= a + b.drop_last());
    } else {
        assert(a + b =~= a);
    }
}

/// The summed length of the writes of UTF-16 code units, two bytes each.
proof fn lemma_chunks_len_units(units: Seq<u16>, endian: SOMEndian, n: nat)
    requires
        n <= units.len(),
    ensures
        chunks_len(Seq::new(n, |j: int| unit_bytes(units[j], endian))) == 2 * n,
    decreases n,
{
    if n > 0 {
        lemma_chunks_len_units(units, endian, (n - 1) as nat);
        assert(Seq::new(n, |j: int| unit_bytes(units[j], endian)).drop_last() =~= Seq::new(
            (n - 1) as nat,
            |j: int| unit_bytes(units[j], endian),
        ));
        crate::bytes::lemma_ordered_twice(be16(units[n - 1]), endian == SOMEndian::Little);
    }
}

/// Appends each byte of `b` as a write of its own.
fn push_byte_chunks(out: &mut Vec<Vec<u8>>, b: &[u8])
    ensures
        chunk_views(final(out)@) == chunk_views(old(out)@) + byte_chunks(b@),
{
    let ghost start = chunk_views(out@);
    let mut i: usize = 0;
    while i < b.len()
        invariant
            i <= b@.len(),
            chunk_views(out@) == start + byte_chunks(b@.subrange(0, i as int)),
        decreases b@.len() - i,
    {
        let ghost before = out@;
        let z = one_byte(b[i]);
        out.push(z);
        proof {
            lemma_chunk_views_push(before, z);
            assert(chunk_views(out@) =~= start + byte_chunks(b@.subrange(0, i + 1)));
        }
        i = i + 1;
    }
    proof {
        assert(b@.subrange(0, i as int) =~= b@);
    }
}

/// The byte `b` alone.
fn one_byte(b: u8) -> (r: Vec<u8>)
    ensures
        r@ == seq![b],
{
    let mut v: Vec<u8> = Vec::new();
    v.push(b);
    proof {
        assert(v@ =~= seq![b]);
    }
    v
}

/// The two bytes of a UTF-16 code unit in the byte order `endian`.
fn unit_vec(u: u16, endian: SOMEndian) -> (r: Vec<u8>)
    ensures
        r@ == unit_bytes(u, endian),
{
    let mut be: Vec<u8> = Vec::new();
    crate::bytes::push_be16(&mut be, u);
    proof {
        assert(be@ =~= be16(u));
    }
    crate::bytes::ordered_vec(be.as_slice(), endian == SOMEndian::Little)
}

/// The number of bytes that a string reports: its length field and its
/// length in characters where it is dynamic, else its fixed size.
pub open spec fn string_size(m: StringModel) -> nat {
    if string_dynamic(m) {
        lengthfield_size(m.lengthfield) + char_size(m.encoding) * string_len(m, m.value)
    } else {
        char_size(m.encoding) * m.max
    }
}

/// Appends the bytes of `src` to `dst`.
fn append_bytes(dst: &mut Vec<u8>, src: &[u8])
    ensures
        final(dst)@ == old(dst)@ + src@,
{
    let ghost start = dst@;
    let mut i: usize = 0;
    while i < src.len()
        invariant
            i <= src@.len(),
            dst@ == start + src@.subrange(0, i as int),
        decreases src@.len() - i,
    {
        dst.push(src[i]);
        proof {
            assert(dst@ =~= start + src@.subrange(0, i + 1));
        }
        i = i + 1;
    }
    proof {
        assert(src@.subrange(0, i as int) =~= src@);
    }
}

/// The UTF-16 code units of `bytes`, two at a time in the byte order
/// `endian`.
fn units_vec(bytes: &Vec<u8>, endian: SOMEndian) -> (r: Vec<u16>)
    ensures
        r@ == units_of(bytes@, endian),
{
    let len = bytes.len();
    let n = len / 2;
    let mut out: Vec<u16> = Vec::new();
    let mut i: usize = 0;
    while i < n
        invariant
            len == bytes@.len(),
            n == bytes@.len() / 2,
            i <= n,
            out@.len() == i,
            forall|j: int| 0 <= j < i ==> out@[j] == #[trigger] units_of(bytes@, endian)[j],
        decreases n - i,
    {
        let pair = crate::parser::slice_range(bytes.as_slice(), 2 * i, 2 * i + 2);
        let o = crate::bytes::ordered_vec(pair, endian == SOMEndian::Little);
        proof {
            crate::bytes::lemma_ordered_twice(pair@, endian == SOMEndian::Little);
            assert(o@.subrange(0, 2) =~= o@);
        }
        let u = crate::bytes::read_be16(o.as_slice(), 0);
        out.push(u);
        i = i + 1;
    }
    proof {
        assert(out@ =~= units_of(bytes@, endian));
    }
    out
}

/// Reads the byte order mark `b` where `ss` bytes of the string remain: the
/// bytes that remain after it, as `bom_phase` says.
fn read_bom(parser: &mut SOMParser, b: &Vec<u8>, ss: usize) -> (r: Result<usize, SOMError>)
    requires
        old(parser).wf(),
        bom_phase(b@, 0, old(parser).pos(), ss as int, old(parser).data()) is Some,
    ensures
        final(parser).wf(),
        final(parser).data() == old(parser).data(),
        final(parser).pos() >= old(parser).pos(),
        match bom_phase(b@, 0, old(parser).pos(), ss as int, old(parser).data()) {
            Some(Ok((p, s))) => r matches Ok(s2) && s2 == s && final(parser).pos() == p,
            Some(Err(ev)) => r matches Err(e) && e@ == ev,
            None => false,
        },
{
    let ghost d = parser.data();
    let ghost start = bom_phase(b@, 0, parser.pos(), ss as int, d);
    let ghost p0 = parser.pos();
    let mut left = ss;
    let mut i: usize = 0;
    while i < b.len()
        invariant
            parser.wf(),
            parser.data() == d,
            i <= b@.len(),
            parser.pos() >= p0,
            start == bom_phase(b@, i as int, parser.pos(), left as int, d),
            start == bom_phase(b@, 0, old(parser).pos(), ss as int, old(parser).data()),
            d == old(parser).data(),
            p0 == old(parser).pos(),
            start is Some,
        decreases b@.len() - i,
    {
        let v = match parser.read_u8() {
            Ok(v) => v,
            Err(e) => return Err(e),
        };
        if v != b[i] {
            return Err(
                SOMError::InvalidPayload(message1("Invalid String-BOM at offset: ", parser.offset())),
            );
        }
        left = left - 1;
        i = i + 1;
    }
    Ok(left)
}

/// Reads `n` characters of `cs` bytes each: their bytes, as `content_phase`
/// says.
fn read_content(parser: &mut SOMParser, n: usize, cs: usize) -> (r: Result<Vec<u8>, SOMError>)
    requires
        old(parser).wf(),
        cs > 0,
        n * cs <= usize::MAX,
    ensures
        final(parser).wf(),
        final(parser).data() == old(parser).data(),
        match content_phase(old(parser).pos(), n as int, cs as int, old(parser).data()) {
            Ok(bs) => r matches Ok(v) && v@ == bs && final(parser).pos() == old(parser).pos() + n
                * cs,
            Err(ev) => r matches Err(e) && e@ == ev,
        },
{
    let ghost d = parser.data();
    let ghost p = parser.pos();
    proof {
        parser.lemma_wf();
    }
    let mut bytes: Vec<u8> = Vec::new();
    let mut j: usize = 0;
    while j < n
        invariant
            parser.wf(),
            parser.data() == d,
            cs > 0,
            j <= n,
            n * cs <= usize::MAX,
            parser.pos() == p + j * cs,
            p == old(parser).pos(),
            d == old(parser).data(),
            p + j * cs <= d.len(),
            0 <= p,
            bytes@ == d.subrange(p, p + j * cs),
        decreases n - j,
    {
        proof {
            parser.lemma_wf();
            assert(j * cs + cs <= n * cs) by (nonlinear_arith)
                requires
                    j < n,
                    cs > 0,
            ;
            assert((j + 1) * cs == j * cs + cs) by (nonlinear_arith);
        }
        let chunk = match parser.read_bytes(cs) {
            Ok(b) => b,
            Err(e) => {
                proof {
                    assert((d.len() - p) / (cs as int) == j) by (nonlinear_arith)
                        requires
                            p + j * cs <= d.len(),
                            d.len() < p + j * cs + cs,
                            cs > 0,
                    ;
                    assert(p + n * cs > d.len()) by (nonlinear_arith)
                        requires
                            d.len() < p + j * cs + cs,
                            j < n,
                            cs > 0,
                    ;
                }
                return Err(e);
            },
        };
        let ghost before = bytes@;
        append_bytes(&mut bytes, chunk);
        proof {
            assert(bytes@ =~= d.subrange(p, p + (j + 1) * cs));
        }
        j = j + 1;
    }
    Ok(bytes)
}

/// Reads the termination `b`, as `termination_phase` says.
fn read_termination(parser: &mut SOMParser, b: &Vec<u8>) -> (r: Result<(), SOMError>)
    requires
        old(parser).wf(),
    ensures
        final(parser).wf(),
        final(parser).data() == old(parser).data(),
        final(parser).pos() >= old(parser).pos(),
        match termination_phase(b@, 0, old(parser).pos(), old(parser).data()) {
            Ok(p) => r is Ok && final(parser).pos() == p,
            Err(ev) => r matches Err(e) && e@ == ev,
        },
{
    let ghost d = parser.data();
    let ghost start = termination_phase(b@, 0, parser.pos(), d);
    let mut i: usize = 0;
    while i < b.len()
        invariant
            parser.wf(),
            parser.data() == d,
            i <= b@.len(),
            start == termination_phase(b@, i as int, parser.pos(), d),
            start == termination_phase(b@, 0, old(parser).pos(), old(parser).data()),
            d == old(parser).data(),
            parser.pos() >= old(parser).pos(),
        decreases b@.len() - i,
    {
        let v = match parser.read_u8() {
            Ok(v) => v,
            Err(e) => return Err(e),
        };
        if v != b[i] {
            return Err(
                SOMError::InvalidPayload(
                    message1("Invalid String-Termination at offset: ", parser.offset()),
                ),
            );
        }
        i = i + 1;
    }
    Ok(())
}

/// The text of bytes in the encoding, where they are valid.
fn decode_string(encoding: SOMStringEncoding, bytes: Vec<u8>) -> (r: Option<String>)
    ensures
        match decode_text(encoding, bytes@) {
            Some(t) => r matches Some(s) && s@ == t,
            None => r is None,
        },
{
    match encoding {
        SOMStringEncoding::Utf8 => decode_utf8_bytes(bytes),
        SOMStringEncoding::Utf16Be => {
            let units = units_vec(&bytes, SOMEndian::Big);
            decode_utf16(units.as_slice())
        },
        SOMStringEncoding::Utf16Le => {
            let units = units_vec(&bytes, SOMEndian::Little);
            decode_utf16(units.as_slice())
        },
    }
}

impl crate::som::SOMType for SOMStringType {
    type Model = StringModel;

    open spec fn model(&self) -> StringModel {
        self.spec_model()
    }

    open spec fn ser_spec(m: StringModel, offset: int, buf: Seq<u8>) -> Result<Seq<u8>, SOMErrorView> {
        string_ser(m, offset, buf)
    }

    open spec fn parse_spec(m: StringModel, offset: int, data: Seq<u8>) -> (
        StringModel,
        Result<nat, SOMErrorView>,
    ) {
        match string_parse_full(m, offset, data) {
            Some(x) => x,
            None => (m, Ok(0)),
        }
    }

    open spec fn parse_safe(m: StringModel, offset: int, data: Seq<u8>) -> bool {
        string_size_fits(m) && string_parse_full(m, offset, data) is Some
    }

    open spec fn ser_safe(m: StringModel) -> bool {
        string_size_fits(m)
    }

    open spec fn size_spec(m: StringModel) -> nat {
        string_size(m)
    }

    open spec fn info_spec(m: StringModel) -> SOMTypeInfo {
        if string_dynamic(m) {
            SOMTypeInfo::ExplicitLength
        } else {
            SOMTypeInfo::ImplicitLength
        }
    }

    fn serialize(&self, serializer: &mut SOMSerializer) -> (r: Result<usize, SOMError>) {
        let ghost m = self.spec_model();
        let ghost buf0 = serializer.buffer();
        let ghost off = serializer.pos();
        proof {
            serializer.lemma_wf();
        }
        let offset = serializer.offset();
        match self.check_length(offset) {
            Ok(()) => {},
            Err(e) => return Err(e),
        }
        let promise = match serializer.promise(self.lengthfield.size()) {
            Ok(p) => p,
            Err(e) => return Err(e),
        };
        let chunks = self.chunks();
        let n = match write_chunks(serializer, &chunks) {
            Ok(n) => n,
            Err(e) => return Err(e),
        };
        proof {
            serializer.lemma_wf();
            let k = lengthfield_size(m.lengthfield);
            match chunks_ser(string_chunks(m), off + k, buf0.len() as int) {
                Ok(bb) => {
                    assert(serializer.buffer() == overwrite(buf0, off + k, bb));
                    assert(bb.len() == n);
                },
                Err(_) => {},
            }
        }
        if self.is_dynamic() {
            match serializer.write_lengthfield(promise, self.lengthfield, n) {
                Ok(()) => {},
                Err(e) => return Err(e),
            }
            proof {
                let k = lengthfield_size(m.lengthfield);
                match chunks_ser(string_chunks(m), off + k, buf0.len() as int) {
                    Ok(bb) => {
                        lemma_overwrite_before(buf0, off, lengthfield_bytes(m.lengthfield, n as nat), bb);
                    },
                    Err(_) => {},
                }
            }
        } else {
            proof {
                match chunks_ser(string_chunks(m), off, buf0.len() as int) {
                    Ok(bb) => {
                        assert(buf0.subrange(off, off) + bb =~= bb);
                    },
                    Err(_) => {},
                }
            }
        }
        Ok(serializer.offset() - offset)
    }

    #[verifier::rlimit(40)]
    fn parse(&mut self, parser: &mut SOMParser) -> (r: Result<usize, SOMError>) {
        let ghost m = self.spec_model();
        let ghost d = parser.data();
        let ghost off = parser.pos();
        proof {
            parser.lemma_wf();
        }
        let offset = parser.offset();
        let k = self.lengthfield.size();
        let lfv = match parser.read_lengthfield(self.lengthfield) {
            Ok(v) => v,
            Err(e) => return Err(e),
        };
        let ghost full = string_after_lengthfield(m, off, d, lfv as nat);
        let cs: usize = match self.encoding {
            SOMStringEncoding::Utf8 => 1,
            _ => 2,
        };
        let ss0: usize = if self.is_dynamic() {
            lfv
        } else {
            cs * self.max
        };
        let tl: usize = if self.has_termination() {
            cs
        } else {
            0
        };
        let bb: Vec<u8> = if self.has_bom() {
            self.bom()
        } else {
            Vec::new()
        };
        proof {
            assert(tl == format_termination(m).len());
            assert(bb@ =~= format_bom(m));
        }
        if ss0 < tl {
            proof {
                reveal(string_after_lengthfield);
            }
            return Err(SOMError::InvalidPayload(String::new()));
        }
        let ghost bres = bom_phase(bb@, 0, off + k, (ss0 - tl) as int, d);
        proof {
            reveal(string_after_lengthfield);
            assert(full == string_after_bom(m, off, d, lfv as nat, bres));
            assert(full is Some);
            reveal(string_after_bom);
            assert(bres is Some);
        }
        let ss = match read_bom(parser, &bb, ss0 - tl) {
            Ok(s) => s,
            Err(e) => {
                proof {
                    reveal(string_after_bom);
                }
                return Err(e);
            },
        };
        let ghost p = parser.pos();
        let n = ss / cs;
        proof {
            parser.lemma_wf();
            assert(n * cs <= ss) by (nonlinear_arith)
                requires
                    n == ss / cs,
                    cs > 0,
            ;
        }
        let ghost cres = content_phase(p, n as int, cs as int, d);
        proof {
            reveal(string_after_bom);
            assert(full == string_after_content(m, off, d, lfv as nat, p + n * cs, cres));
        }
        let bytes = match read_content(parser, n, cs) {
            Ok(b) => b,
            Err(e) => {
                proof {
                    reveal(string_after_content);
                }
                return Err(e);
            },
        };
        let ghost bv = bytes@;
        let text = match decode_string(self.encoding, bytes) {
            Some(t) => t,
            None => {
                proof {
                    reveal(string_after_content);
                }
                return Err(SOMError::InvalidPayload(String::new()));
            },
        };
        let ghost m2 = StringModel { value: trim_nul(text@), ..m };
        self.value = trim_end_nul(text.as_str());
        let tb: Vec<u8> = if self.has_termination() {
            self.termination()
        } else {
            Vec::new()
        };
        let ghost tres = termination_phase(tb@, 0, parser.pos(), d);
        proof {
            assert(self.spec_model() == m2);
            assert(tb@ =~= format_termination(m));
            reveal(string_after_content);
            assert(full == Some((m2, string_after_termination(m2, off, lfv as nat, tres))));
        }
        match read_termination(parser, &tb) {
            Ok(()) => {},
            Err(e) => return Err(e),
        }
        proof {
            parser.lemma_wf();
        }
        self.finish_parse(lfv, offset, parser.offset())
    }

    fn size(&self) -> (r: usize) {
        let cs: usize = match self.encoding {
            SOMStringEncoding::Utf8 => 1,
            _ => 2,
        };
        if self.is_dynamic() {
            self.lengthfield.size() + cs * self.len()
        } else {
            cs * self.max
        }
    }

    fn info(&self) -> (r: SOMTypeInfo) {
        if self.is_dynamic() {
            SOMTypeInfo::ExplicitLength
        } else {
            SOMTypeInfo::ImplicitLength
        }
    }
}

/// A string.
pub type SOMString = SOMStringType;

} // verus!
