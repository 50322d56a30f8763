//! Laws of strings of the payload type system: what parsing gives back of
//! what serializing writes.

use crate::bytes::{be16, lemma_be16_roundtrip, lemma_ordered_twice};
use crate::laws_som::{lemma_lengthfield_roundtrip, lengthfield_holds};
use crate::som::{lengthfield_bytes, lengthfield_size, lengthfield_value, overwrite, SOMEndian, SOMLengthField, SOMType};
use crate::som_strings::{
    bom_phase, byte_chunks, chunks_len, chunks_ser, content_chunks, format_bom, format_termination,
    lemma_chunks_len_bytes, lemma_chunks_len_concat, string_after_bom, string_after_content,
    string_after_lengthfield, string_after_termination, string_chunks, string_dynamic,
    string_len, string_length_ok, string_parse_full, string_ser, termination_phase, trim_nul,
    string_endian, unit_bytes, units_of, utf16_text, utf16_units, char_utf16, lemma_utf16_text_units, SOMStringEncoding,
    SOMStringType, StringModel,
};
use vstd::prelude::*;

verus! {

/// Reading a string on from its length field, where the termination fits
/// in what the length field leaves: its byte order mark is read next.
proof fn lemma_after_lengthfield(m: StringModel, offset: int, data: Seq<u8>, lfv: nat, ss0: int)
    requires
        ss0 == (if string_dynamic(m) {
            lfv as int
        } else {
            (crate::som_strings::char_size(m.encoding) * m.max) as int
        }),
        ss0 >= format_termination(m).len(),
    ensures
        string_after_lengthfield(m, offset, data, lfv) == string_after_bom(
            m,
            offset,
            data,
            lfv,
            bom_phase(
                format_bom(m),
                0,
                offset + lengthfield_size(m.lengthfield),
                ss0 - format_termination(m).len(),
                data,
            ),
        ),
{
    reveal(string_after_lengthfield);
}

/// Reading a string on from its byte order mark: its text is read next.
proof fn lemma_after_bom(m: StringModel, offset: int, data: Seq<u8>, lfv: nat, p: int, ss: int, n: int)
    requires
        crate::som_strings::char_size(m.encoding) > 0,
        n == ss / (crate::som_strings::char_size(m.encoding) as int),
    ensures
        string_after_bom(m, offset, data, lfv, Some(Ok((p, ss)))) == string_after_content(
            m,
            offset,
            data,
            lfv,
            p + n * crate::som_strings::char_size(m.encoding),
            crate::som_strings::content_phase(p, n, crate::som_strings::char_size(m.encoding) as int, data),
        ),
{
    reveal(string_after_bom);
}

/// Reading a string on from its text, which decodes to `text`: its
/// termination is read next, and the value is the text without its ending
/// NUL characters.
proof fn lemma_after_content(m: StringModel, offset: int, data: Seq<u8>, lfv: nat, q: int, bytes: Seq<u8>, text: Seq<char>)
    requires
        crate::som_strings::decode_text(m.encoding, bytes) == Some(text),
    ensures
        string_after_content(m, offset, data, lfv, q, Ok(bytes)) == Some(
            (
                StringModel { value: trim_nul(text), ..m },
                string_after_termination(
                    StringModel { value: trim_nul(text), ..m },
                    offset,
                    lfv,
                    termination_phase(format_termination(m), 0, q, data),
                ),
            ),
        ),
{
    reveal(string_after_content);
}

/// The UTF-8 bytes of a text decode to the text.
proof fn lemma_utf8_decode(t: Seq<char>)
    ensures
        crate::som_strings::decode_text(SOMStringEncoding::Utf8, vstd::utf8::encode_utf8(t)) == Some(t),
{
    vstd::utf8::encode_utf8_valid_utf8(t);
    vstd::utf8::encode_utf8_decode_utf8(t);
}

/// Reading a string whose length field, byte order mark, text and
/// termination read as given: the value read is the text, and the bytes
/// read run from `offset` to the end of the termination.
proof fn lemma_dynamic_string_compose(
    target: StringModel,
    value: Seq<char>,
    offset: int,
    data: Seq<u8>,
    lfv: nat,
    p: int,
    ss: int,
    bytes: Seq<u8>,
    end: int,
)
    requires
        string_dynamic(target),
        0 <= offset,
        offset + lengthfield_size(target.lengthfield) <= data.len(),
        lengthfield_value(target.lengthfield, data, offset) == lfv,
        lfv >= format_termination(target).len(),
        bom_phase(
            format_bom(target),
            0,
            offset + lengthfield_size(target.lengthfield),
            lfv - format_termination(target).len(),
            data,
        ) == Some(Ok::<(int, int), crate::som::SOMErrorView>((p, ss))),
        crate::som_strings::char_size(target.encoding) > 0,
        crate::som_strings::content_phase(
            p,
            ss / (crate::som_strings::char_size(target.encoding) as int),
            crate::som_strings::char_size(target.encoding) as int,
            data,
        ) == Ok::<Seq<u8>, crate::som::SOMErrorView>(bytes),
        crate::som_strings::decode_text(target.encoding, bytes) == Some(value),
        trim_nul(value) == value,
        termination_phase(
            format_termination(target),
            0,
            p + (ss / (crate::som_strings::char_size(target.encoding) as int)) * crate::som_strings::char_size(target.encoding),
            data,
        ) == Ok::<int, crate::som::SOMErrorView>(end),
        lfv == end - offset - lengthfield_size(target.lengthfield),
        string_length_ok(StringModel { value, ..target }),
    ensures
        string_parse_full(target, offset, data) == Some(
            (StringModel { value, ..target }, Ok::<nat, crate::som::SOMErrorView>((end - offset) as nat)),
        ),
{
    let cs = crate::som_strings::char_size(target.encoding) as int;
    let n = ss / cs;
    lemma_after_lengthfield(target, offset, data, lfv, lfv as int);
    lemma_after_bom(target, offset, data, lfv, p, ss, n);
    lemma_after_content(target, offset, data, lfv, p + n * cs, bytes, value);
    let m2 = StringModel { value, ..target };
    assert(string_dynamic(m2));
    assert(string_after_termination(m2, offset, lfv, Ok(end)) == Ok::<nat, crate::som::SOMErrorView>((end - offset) as nat));
}

/// The length of the bytes of a length field.
pub proof fn lemma_lengthfield_bytes_len(lf: SOMLengthField, n: nat)
    ensures
        lengthfield_bytes(lf, n).len() == lengthfield_size(lf),
{
    match lf {
        SOMLengthField::NoField => {},
        SOMLengthField::U8 => {},
        SOMLengthField::U16 => {},
        SOMLengthField::U32 => {},
    }
}

/// Where a length field, byte order mark, text and termination are
/// written one after the other at `offset`, each is found in its place.
proof fn lemma_layout(data: Seq<u8>, offset: int, lf: Seq<u8>, pb: Seq<u8>, enc: Seq<u8>, tb: Seq<u8>)
    requires
        0 <= offset,
        offset + lf.len() + pb.len() + enc.len() + tb.len() <= data.len(),
        data.subrange(offset, offset + lf.len() + pb.len() + enc.len() + tb.len()) == lf + (pb + enc + tb),
    ensures
        data.subrange(offset, offset + lf.len()) == lf,
        data.subrange(offset + lf.len(), offset + lf.len() + pb.len()) == pb.subrange(0, pb.len() as int),
        data.subrange(offset + lf.len() + pb.len(), offset + lf.len() + pb.len() + enc.len()) == enc,
        data.subrange(offset + lf.len() + pb.len() + enc.len(), offset + lf.len() + pb.len() + enc.len() + tb.len())
            == tb.subrange(0, tb.len() as int),
{
    let k = lf.len() as int;
    let region = data.subrange(offset, offset + lf.len() + pb.len() + enc.len() + tb.len());
    assert(data.subrange(offset, offset + k) =~= region.subrange(0, k));
    assert(region.subrange(0, k) =~= lf);
    assert(data.subrange(offset + k, offset + k + pb.len()) =~= region.subrange(k, k + pb.len()));
    assert(region.subrange(k, k + pb.len()) =~= pb.subrange(0, pb.len() as int));
    assert(data.subrange(offset + k + pb.len(), offset + k + pb.len() + enc.len()) =~= region.subrange(
        k + pb.len(),
        k + pb.len() + enc.len(),
    ));
    assert(region.subrange(k + pb.len(), k + pb.len() + enc.len()) =~= enc);
    assert(data.subrange(offset + k + pb.len() + enc.len(), offset + k + pb.len() + enc.len() + tb.len())
        =~= region.subrange(k + pb.len() + enc.len(), k + pb.len() + enc.len() + tb.len()));
    assert(region.subrange(k + pb.len() + enc.len(), k + pb.len() + enc.len() + tb.len()) =~= tb.subrange(
        0,
        tb.len() as int,
    ));
}

/// The bytes of writes, one after the other.
pub open spec fn chunks_flat(c: Seq<Seq<u8>>) -> Seq<u8>
    decreases c.len(),
{
    if c.len() == 0 {
        seq![]
    } else {
        c[0] + chunks_flat(c.subrange(1, c.len() as int))
    }
}

/// The summed length of writes is that of the first and of the rest.
proof fn lemma_chunks_len_first(c: Seq<Seq<u8>>)
    requires
        c.len() > 0,
    ensures
        chunks_len(c) == c[0].len() + chunks_len(c.subrange(1, c.len() as int)),
{
    let first: Seq<Seq<u8>> = seq![c[0]];
    assert(c =~= first + c.subrange(1, c.len() as int));
    lemma_chunks_len_concat(first, c.subrange(1, c.len() as int));
    assert(first.drop_last() =~= Seq::<Seq<u8>>::empty());
    assert(chunks_len(first) == chunks_len(first.drop_last()) + first.last().len());
}

/// Writes with room for all of them write their bytes one after the other.
proof fn lemma_chunks_ser_fits(c: Seq<Seq<u8>>, off: int, len: int)
    requires
        0 <= off,
        off + chunks_len(c) <= len,
    ensures
        chunks_ser(c, off, len) == Ok::<Seq<u8>, crate::som::SOMErrorView>(chunks_flat(c)),
        chunks_flat(c).len() == chunks_len(c),
    decreases c.len(),
{
    if c.len() > 0 {
        lemma_chunks_len_first(c);
        lemma_chunks_ser_fits(c.subrange(1, c.len() as int), off + c[0].len(), len);
    }
}

/// The bytes of two lists of writes, one after the other.
proof fn lemma_chunks_flat_concat(a: Seq<Seq<u8>>, b: Seq<Seq<u8>>)
    ensures
        chunks_flat(a + b) == chunks_flat(a) + chunks_flat(b),
    decreases a.len(),
{
    if a.len() == 0 {
        assert(a + b =~= b);
        assert(chunks_flat(a) + chunks_flat(b) =~= chunks_flat(b));
    } else {
        assert((a + b)[0] == a[0]);
        assert((a + b).subrange(1, (a + b).len() as int) =~= a.subrange(1, a.len() as int) + b);
        lemma_chunks_flat_concat(a.subrange(1, a.len() as int), b);
        assert(chunks_flat(a + b) =~= chunks_flat(a) + chunks_flat(b));
    }
}

/// The bytes of writes of one byte each.
proof fn lemma_chunks_flat_bytes(b: Seq<u8>)
    ensures
        chunks_flat(byte_chunks(b)) == b,
    decreases b.len(),
{
    if b.len() > 0 {
        let rest = b.subrange(1, b.len() as int);
        assert(byte_chunks(b).subrange(1, b.len() as int) =~= byte_chunks(rest));
        lemma_chunks_flat_bytes(rest);
        assert(seq![b[0]] + rest =~= b);
    } else {
        assert(chunks_flat(byte_chunks(b)) =~= b);
    }
}

/// Reading a byte order mark from its byte `i` on where it is written.
proof fn lemma_bom_phase_match(b: Seq<u8>, i: int, p: int, ss: int, data: Seq<u8>)
    requires
        0 <= i <= b.len(),
        0 <= p,
        p + (b.len() - i) <= data.len(),
        data.subrange(p, p + (b.len() - i)) == b.subrange(i, b.len() as int),
        ss >= b.len() - i,
    ensures
        bom_phase(b, i, p, ss, data) == Some(Ok::<(int, int), crate::som::SOMErrorView>((p + (b.len() - i), ss - (b.len() - i)))),
    decreases b.len() - i,
{
    if i < b.len() {
        assert(data[p] == data.subrange(p, p + (b.len() - i))[0]);
        assert(data.subrange(p + 1, p + 1 + (b.len() - (i + 1))) =~= b.subrange(i + 1, b.len() as int)) by {
            assert(data.subrange(p + 1, p + 1 + (b.len() - (i + 1))) =~= data.subrange(p, p + (b.len() - i)).subrange(1, b.len() - i));
        }
        lemma_bom_phase_match(b, i + 1, p + 1, ss - 1, data);
    }
}

/// Reading a termination from its byte `i` on where it is written.
proof fn lemma_termination_phase_match(b: Seq<u8>, i: int, p: int, data: Seq<u8>)
    requires
        0 <= i <= b.len(),
        0 <= p,
        p + (b.len() - i) <= data.len(),
        data.subrange(p, p + (b.len() - i)) == b.subrange(i, b.len() as int),
    ensures
        termination_phase(b, i, p, data) == Ok::<int, crate::som::SOMErrorView>(p + (b.len() - i)),
    decreases b.len() - i,
{
    if i < b.len() {
        assert(data[p] == data.subrange(p, p + (b.len() - i))[0]);
        assert(data.subrange(p + 1, p + 1 + (b.len() - (i + 1))) =~= b.subrange(i + 1, b.len() as int)) by {
            assert(data.subrange(p + 1, p + 1 + (b.len() - (i + 1))) =~= data.subrange(p, p + (b.len() - i)).subrange(1, b.len() - i));
        }
        lemma_termination_phase_match(b, i + 1, p + 1, data);
    }
}

/// The bytes of a UTF-8 string after its length field: its byte order
/// mark, text and termination, as its format has them.
pub open spec fn utf8_string_bytes(m: StringModel) -> Seq<u8> {
    format_bom(m) + vstd::utf8::encode_utf8(m.value) + format_termination(m)
}

/// The writes of a UTF-8 string whose length may vary are its byte order
/// mark, text and termination.
proof fn lemma_utf8_string_chunks(m: StringModel)
    requires
        m.encoding == SOMStringEncoding::Utf8,
        string_dynamic(m),
    ensures
        chunks_flat(string_chunks(m)) == utf8_string_bytes(m),
        chunks_len(string_chunks(m)) == utf8_string_bytes(m).len(),
        utf8_string_bytes(m).len() == string_len(m, m.value),
{
    let bc: Seq<Seq<u8>> = if crate::som_strings::has_bom(m.format) {
        byte_chunks(crate::som_strings::bom(m.encoding))
    } else {
        Seq::empty()
    };
    let tc: Seq<Seq<u8>> = if crate::som_strings::has_termination(m.format) {
        byte_chunks(crate::som_strings::termination(m.encoding))
    } else {
        Seq::empty()
    };
    let cc = content_chunks(m);
    assert(string_chunks(m) == bc + cc + tc);
    lemma_chunks_flat_concat(bc + cc, tc);
    lemma_chunks_flat_concat(bc, cc);
    lemma_chunks_len_concat(bc + cc, tc);
    lemma_chunks_len_concat(bc, cc);
    let enc = vstd::utf8::encode_utf8(m.value);
    lemma_chunks_flat_bytes(enc);
    lemma_chunks_len_bytes(enc);
    if crate::som_strings::has_bom(m.format) {
        lemma_chunks_flat_bytes(crate::som_strings::bom(m.encoding));
        lemma_chunks_len_bytes(crate::som_strings::bom(m.encoding));
    } else {
        assert(chunks_flat(bc) =~= seq![]);
    }
    if crate::som_strings::has_termination(m.format) {
        lemma_chunks_flat_bytes(crate::som_strings::termination(m.encoding));
        lemma_chunks_len_bytes(crate::som_strings::termination(m.encoding));
    } else {
        assert(chunks_flat(tc) =~= seq![]);
    }
}

/// Writing a UTF-8 string whose length may vary, with room for it, writes
/// its length field, then its byte order mark, text and termination.
pub proof fn lemma_utf8_string_ser(m: StringModel, offset: int, buf: Seq<u8>)
    requires
        m.encoding == SOMStringEncoding::Utf8,
        string_dynamic(m),
        string_length_ok(m),
        0 <= offset,
        offset + lengthfield_size(m.lengthfield) + string_len(m, m.value) <= buf.len(),
    ensures
        string_ser(m, offset, buf) == Ok::<Seq<u8>, crate::som::SOMErrorView>(
            lengthfield_bytes(m.lengthfield, utf8_string_bytes(m).len()) + utf8_string_bytes(m),
        ),
        utf8_string_bytes(m).len() == string_len(m, m.value),
{
    let k = lengthfield_size(m.lengthfield) as int;
    lemma_utf8_string_chunks(m);
    lemma_chunks_ser_fits(string_chunks(m), offset + k, buf.len() as int);
}

/// Reading a UTF-8 string whose length may vary where its length field,
/// byte order mark, text and termination are written, by a string of the
/// same length field, encoding, format and bounds, gives back its text.
#[verifier::rlimit(30)]
pub proof fn lemma_utf8_string_parse(m: StringModel, target: StringModel, offset: int, data: Seq<u8>)
    requires
        m.encoding == SOMStringEncoding::Utf8,
        string_dynamic(m),
        string_length_ok(m),
        !(m.value.len() > 0 && m.value.last() == '\0'),
        lengthfield_holds(m.lengthfield, utf8_string_bytes(m).len()),
        utf8_string_bytes(m).len() == string_len(m, m.value),
        target.lengthfield == m.lengthfield,
        target.encoding == m.encoding,
        target.format == m.format,
        target.min == m.min,
        target.max == m.max,
        0 <= offset,
        offset + lengthfield_size(m.lengthfield) + utf8_string_bytes(m).len() <= data.len(),
        data.subrange(offset, offset + lengthfield_size(m.lengthfield) + utf8_string_bytes(m).len())
            == lengthfield_bytes(m.lengthfield, utf8_string_bytes(m).len()) + utf8_string_bytes(m),
    ensures
        string_parse_full(target, offset, data) == Some(
            (
                StringModel { value: m.value, ..target },
                Ok::<nat, crate::som::SOMErrorView>((lengthfield_size(m.lengthfield) + utf8_string_bytes(m).len()) as nat),
            ),
        ),
{
    let k = lengthfield_size(m.lengthfield) as int;
    let b = utf8_string_bytes(m);
    let lf = lengthfield_bytes(m.lengthfield, b.len());
    lemma_lengthfield_bytes_len(m.lengthfield, b.len());
    let pb = format_bom(m);
    let enc = vstd::utf8::encode_utf8(m.value);
    let tb = format_termination(m);
    assert(b == pb + enc + tb);
    lemma_layout(data, offset, lf, pb, enc, tb);
    lemma_lengthfield_roundtrip(m.lengthfield, b.len(), data, offset);
    let lfv = lengthfield_value(m.lengthfield, data, offset);
    assert(format_bom(target) == pb);
    assert(format_termination(target) == tb);
    assert(string_dynamic(target));
    lemma_bom_phase_match(pb, 0, offset + k, b.len() - tb.len(), data);
    let p = offset + k + pb.len();
    let ss = b.len() - tb.len() - pb.len();
    assert(ss == enc.len());
    assert(crate::som_strings::content_phase(p, ss / 1, 1, data) == Ok::<Seq<u8>, crate::som::SOMErrorView>(enc));
    lemma_utf8_decode(m.value);
    assert(trim_nul(m.value) == m.value);
    let q = p + enc.len();
    lemma_termination_phase_match(tb, 0, q, data);
    assert(string_len(StringModel { value: m.value, ..target }, m.value) == string_len(m, m.value));
    lemma_dynamic_string_compose(target, m.value, offset, data, lfv, p, ss, enc, q + tb.len());
}

/// A UTF-8 string whose length a length field gives (or whose bounds
/// differ), of a text that does not end in a NUL character and of a length
/// within its bounds that its length field holds, written at `offset` into
/// a buffer with room for it, is read back by a string of the same length
/// field, encoding, format and bounds: it gets the text written, and as
/// many bytes are read as were written.
pub proof fn lemma_utf8_string_roundtrip(m: StringModel, target: StringModel, offset: int, buf: Seq<u8>)
    requires
        m.encoding == SOMStringEncoding::Utf8,
        string_dynamic(m),
        string_length_ok(m),
        !(m.value.len() > 0 && m.value.last() == '\0'),
        lengthfield_holds(m.lengthfield, string_len(m, m.value)),
        target.lengthfield == m.lengthfield,
        target.encoding == m.encoding,
        target.format == m.format,
        target.min == m.min,
        target.max == m.max,
        0 <= offset,
        offset + lengthfield_size(m.lengthfield) + string_len(m, m.value) <= buf.len(),
    ensures
        string_ser(m, offset, buf) matches Ok(bytes) && {
            let (after, r) = <SOMStringType as SOMType>::parse_spec(target, offset, overwrite(buf, offset, bytes));
            &&& bytes.len() == lengthfield_size(m.lengthfield) + string_len(m, m.value)
            &&& r == Ok::<nat, crate::som::SOMErrorView>(bytes.len())
            &&& after == StringModel { value: m.value, ..target }
        },
{
    lemma_utf8_string_ser(m, offset, buf);
    let b = utf8_string_bytes(m);
    let lf = lengthfield_bytes(m.lengthfield, b.len());
    let k = lengthfield_size(m.lengthfield) as int;
    assert(lf.len() == k) by {
        match m.lengthfield {
            SOMLengthField::NoField => {},
            SOMLengthField::U8 => {},
            SOMLengthField::U16 => {},
            SOMLengthField::U32 => {},
        }
    }
    let bytes = lf + b;
    let data = overwrite(buf, offset, bytes);
    assert(data.subrange(offset, offset + k + b.len()) =~= bytes);
    lemma_utf8_string_parse(m, target, offset, data);
}

/// The writes of UTF-16 code units, two bytes each in the byte order
/// `endian`.
pub open spec fn unit_chunks(units: Seq<u16>, endian: SOMEndian) -> Seq<Seq<u8>> {
    Seq::new(units.len(), |i: int| unit_bytes(units[i], endian))
}

/// The bytes of UTF-16 code units, read two at a time in the same byte
/// order, give back the code units.
proof fn lemma_unit_chunks(units: Seq<u16>, endian: SOMEndian)
    ensures
        chunks_flat(unit_chunks(units, endian)).len() == 2 * units.len(),
        chunks_len(unit_chunks(units, endian)) == 2 * units.len(),
        units_of(chunks_flat(unit_chunks(units, endian)), endian) == units,
    decreases units.len(),
{
    let c = unit_chunks(units, endian);
    let little = endian == SOMEndian::Little;
    if units.len() == 0 {
        assert(units_of(chunks_flat(c), endian) =~= units);
    } else {
        let rest = units.drop_first();
        assert(c.subrange(1, c.len() as int) =~= unit_chunks(rest, endian));
        lemma_unit_chunks(rest, endian);
        lemma_chunks_len_first(c);
        let a = c[0];
        lemma_ordered_twice(be16(units[0]), little);
        lemma_be16_roundtrip(units[0]);
        assert(a.len() == 2);
        let r = chunks_flat(unit_chunks(rest, endian));
        let f = chunks_flat(c);
        assert(f == a + r);
        assert(units_of(f, endian) =~= units) by {
            assert forall|i: int| 0 <= i < units.len() implies #[trigger] units_of(f, endian)[i] == units[i] by {
                if i == 0 {
                    assert(f.subrange(0, 2) =~= a);
                } else {
                    assert(f.subrange(2 * i, 2 * i + 2) =~= r.subrange(2 * (i - 1), 2 * (i - 1) + 2));
                    assert(units_of(r, endian)[i - 1] == rest[i - 1]);
                }
            }
        }
    }
}

/// The number of bytes of UTF-16 code units.
proof fn lemma_unit_chunks_len(units: Seq<u16>, endian: SOMEndian)
    ensures
        chunks_flat(unit_chunks(units, endian)).len() == 2 * units.len(),
        chunks_len(unit_chunks(units, endian)) == 2 * units.len(),
{
    lemma_unit_chunks(units, endian);
}

/// The bytes of a UTF-16 string after its length field: its byte order
/// mark, the bytes of its code units, and its termination, as its format
/// has them.
pub open spec fn utf16_string_bytes(m: StringModel) -> Seq<u8> {
    format_bom(m) + chunks_flat(unit_chunks(utf16_units(m.value), string_endian(m.encoding)))
        + format_termination(m)
}

/// Writing a UTF-16 string whose length may vary, with room for it, writes
/// its length field, then its byte order mark, code units and termination.
pub proof fn lemma_utf16_string_ser(m: StringModel, offset: int, buf: Seq<u8>)
    requires
        m.encoding != SOMStringEncoding::Utf8,
        string_dynamic(m),
        string_length_ok(m),
        0 <= offset,
        offset + lengthfield_size(m.lengthfield) + utf16_string_bytes(m).len() <= buf.len(),
    ensures
        string_ser(m, offset, buf) == Ok::<Seq<u8>, crate::som::SOMErrorView>(
            lengthfield_bytes(m.lengthfield, utf16_string_bytes(m).len()) + utf16_string_bytes(m),
        ),
{
    let k = lengthfield_size(m.lengthfield) as int;
    let bc: Seq<Seq<u8>> = if crate::som_strings::has_bom(m.format) {
        byte_chunks(crate::som_strings::bom(m.encoding))
    } else {
        Seq::empty()
    };
    let tc: Seq<Seq<u8>> = if crate::som_strings::has_termination(m.format) {
        byte_chunks(crate::som_strings::termination(m.encoding))
    } else {
        Seq::empty()
    };
    let cc = content_chunks(m);
    assert(cc =~= unit_chunks(utf16_units(m.value), string_endian(m.encoding)));
    assert(string_chunks(m) == bc + cc + tc);
    lemma_chunks_flat_concat(bc + cc, tc);
    lemma_chunks_flat_concat(bc, cc);
    lemma_chunks_len_concat(bc + cc, tc);
    lemma_chunks_len_concat(bc, cc);
    lemma_unit_chunks(utf16_units(m.value), string_endian(m.encoding));
    if crate::som_strings::has_bom(m.format) {
        lemma_chunks_flat_bytes(crate::som_strings::bom(m.encoding));
        lemma_chunks_len_bytes(crate::som_strings::bom(m.encoding));
    } else {
        assert(chunks_flat(bc) =~= seq![]);
    }
    if crate::som_strings::has_termination(m.format) {
        lemma_chunks_flat_bytes(crate::som_strings::termination(m.encoding));
        lemma_chunks_len_bytes(crate::som_strings::termination(m.encoding));
    } else {
        assert(chunks_flat(tc) =~= seq![]);
    }
    lemma_chunks_ser_fits(string_chunks(m), offset + k, buf.len() as int);
}

/// The bytes of the code units of a text, where they are written at `p`,
/// are read and decode to the text, where its code units decode to it.
proof fn lemma_utf16_content(m: StringModel, p: int, data: Seq<u8>)
    requires
        m.encoding != SOMStringEncoding::Utf8,
        utf16_text(utf16_units(m.value)) == Some(m.value),
        0 <= p,
        p + 2 * utf16_units(m.value).len() <= data.len(),
        data.subrange(p, p + 2 * utf16_units(m.value).len()) == chunks_flat(
            unit_chunks(utf16_units(m.value), string_endian(m.encoding)),
        ),
    ensures
        crate::som_strings::content_phase(p, utf16_units(m.value).len() as int, 2, data) == Ok::<Seq<u8>, crate::som::SOMErrorView>(
            chunks_flat(unit_chunks(utf16_units(m.value), string_endian(m.encoding))),
        ),
        crate::som_strings::decode_text(
            m.encoding,
            chunks_flat(unit_chunks(utf16_units(m.value), string_endian(m.encoding))),
        ) == Some(m.value),
{
    lemma_unit_chunks(utf16_units(m.value), string_endian(m.encoding));
}

/// Reading a UTF-16 string whose length may vary where its length field,
/// byte order mark, code units and termination are written, by a string of
/// the same length field, encoding, format and bounds, gives back its text,
/// where its code units decode to it.
#[verifier::rlimit(30)]
pub proof fn lemma_utf16_string_parse(m: StringModel, target: StringModel, offset: int, data: Seq<u8>)
    requires
        m.encoding != SOMStringEncoding::Utf8,
        string_dynamic(m),
        string_length_ok(m),
        !(m.value.len() > 0 && m.value.last() == '\0'),
        utf16_text(utf16_units(m.value)) == Some(m.value),
        lengthfield_holds(m.lengthfield, utf16_string_bytes(m).len()),
        target.lengthfield == m.lengthfield,
        target.encoding == m.encoding,
        target.format == m.format,
        target.min == m.min,
        target.max == m.max,
        0 <= offset,
        offset + lengthfield_size(m.lengthfield) + utf16_string_bytes(m).len() <= data.len(),
        data.subrange(offset, offset + lengthfield_size(m.lengthfield) + utf16_string_bytes(m).len())
            == lengthfield_bytes(m.lengthfield, utf16_string_bytes(m).len()) + utf16_string_bytes(m),
    ensures
        string_parse_full(target, offset, data) == Some(
            (
                StringModel { value: m.value, ..target },
                Ok::<nat, crate::som::SOMErrorView>((lengthfield_size(m.lengthfield) + utf16_string_bytes(m).len()) as nat),
            ),
        ),
{
    let k = lengthfield_size(m.lengthfield) as int;
    let b = utf16_string_bytes(m);
    let lf = lengthfield_bytes(m.lengthfield, b.len());
    lemma_lengthfield_bytes_len(m.lengthfield, b.len());
    let pb = format_bom(m);
    let units = utf16_units(m.value);
    let endian = string_endian(m.encoding);
    lemma_unit_chunks_len(units, endian);
    let enc = chunks_flat(unit_chunks(units, endian));
    let tb = format_termination(m);
    assert(b == pb + enc + tb);
    lemma_layout(data, offset, lf, pb, enc, tb);
    lemma_lengthfield_roundtrip(m.lengthfield, b.len(), data, offset);
    let lfv = lengthfield_value(m.lengthfield, data, offset);
    assert(format_bom(target) == pb);
    assert(format_termination(target) == tb);
    assert(string_dynamic(target));
    lemma_bom_phase_match(pb, 0, offset + k, b.len() - tb.len(), data);
    let p = offset + k + pb.len();
    let ss = b.len() - tb.len() - pb.len();
    assert(ss == 2 * units.len());
    assert(ss / 2 == units.len());
    assert(crate::som_strings::char_size(m.encoding) == 2);
    lemma_utf16_content(m, p, data);
    assert(trim_nul(m.value) == m.value);
    let q = p + enc.len();
    lemma_termination_phase_match(tb, 0, q, data);
    assert(string_len(StringModel { value: m.value, ..target }, m.value) == string_len(m, m.value));
    lemma_dynamic_string_compose(target, m.value, offset, data, lfv, p, ss, enc, q + tb.len());
}

/// A UTF-16 string (of either byte order) whose length a length field
/// gives (or whose bounds differ), of a text that does not end in a NUL
/// character and of a length within its bounds, whose bytes its length
/// field holds, written at `offset` into a buffer with room for it, is read
/// back by a string of the same length field, encoding, format and bounds:
/// it gets the text written, and as many bytes are read as were written.
pub proof fn lemma_utf16_string_roundtrip(m: StringModel, target: StringModel, offset: int, buf: Seq<u8>)
    requires
        m.encoding != SOMStringEncoding::Utf8,
        string_dynamic(m),
        string_length_ok(m),
        !(m.value.len() > 0 && m.value.last() == '\0'),
        lengthfield_holds(m.lengthfield, utf16_string_bytes(m).len()),
        target.lengthfield == m.lengthfield,
        target.encoding == m.encoding,
        target.format == m.format,
        target.min == m.min,
        target.max == m.max,
        0 <= offset,
        offset + lengthfield_size(m.lengthfield) + utf16_string_bytes(m).len() <= buf.len(),
    ensures
        string_ser(m, offset, buf) matches Ok(bytes) && {
            let (after, r) = <SOMStringType as SOMType>::parse_spec(target, offset, overwrite(buf, offset, bytes));
            &&& bytes.len() == lengthfield_size(m.lengthfield) + utf16_string_bytes(m).len()
            &&& r == Ok::<nat, crate::som::SOMErrorView>(bytes.len())
            &&& after == StringModel { value: m.value, ..target }
        },
{
    lemma_utf16_text_units(m.value);
    lemma_utf16_string_ser(m, offset, buf);
    let b = utf16_string_bytes(m);
    let lf = lengthfield_bytes(m.lengthfield, b.len());
    let k = lengthfield_size(m.lengthfield) as int;
    assert(lf.len() == k) by {
        match m.lengthfield {
            SOMLengthField::NoField => {},
            SOMLengthField::U8 => {},
            SOMLengthField::U16 => {},
            SOMLengthField::U32 => {},
        }
    }
    let bytes = lf + b;
    let data = overwrite(buf, offset, bytes);
    assert(data.subrange(offset, offset + k + b.len()) =~= bytes);
    lemma_utf16_string_parse(m, target, offset, data);
}

/// `n` NUL characters.
pub open spec fn nuls(n: nat) -> Seq<char> {
    Seq::new(n, |i: int| '\0')
}

/// `n` zero bytes.
pub open spec fn zeros(n: nat) -> Seq<u8> {
    Seq::new(n, |i: int| 0u8)
}

/// The UTF-8 bytes of two texts, one after the other.
proof fn lemma_encode_utf8_concat(a: Seq<char>, b: Seq<char>)
    ensures
        vstd::utf8::encode_utf8(a + b) == vstd::utf8::encode_utf8(a) + vstd::utf8::encode_utf8(b),
    decreases a.len(),
{
    if a.len() == 0 {
        assert(a + b =~= b);
        assert(vstd::utf8::encode_utf8(a) + vstd::utf8::encode_utf8(b) =~= vstd::utf8::encode_utf8(b));
    } else {
        assert((a + b)[0] == a[0]);
        assert((a + b).drop_first() =~= a.drop_first() + b);
        lemma_encode_utf8_concat(a.drop_first(), b);
        assert(vstd::utf8::encode_utf8(a + b) =~= vstd::utf8::encode_utf8(a) + vstd::utf8::encode_utf8(b));
    }
}

/// NUL characters are zero bytes in UTF-8.
proof fn lemma_encode_nuls(n: nat)
    ensures
        vstd::utf8::encode_utf8(nuls(n)) == zeros(n),
    decreases n,
{
    if n > 0 {
        assert(nuls(n).drop_first() =~= nuls((n - 1) as nat));
        lemma_encode_nuls((n - 1) as nat);
        assert(nuls(n)[0] == '\0');
        assert(('\0' as u32) == 0);
        assert(((0u32 & 0x7Fu32) as u8) == 0u8) by (bit_vector);
        assert(vstd::utf8::leading_byte_width_1(0u32) == 0u8);
        assert(vstd::utf8::encode_scalar(0u32) =~= seq![0u8]);
        assert(vstd::utf8::encode_utf8(nuls(n)) =~= zeros(n));
    } else {
        assert(vstd::utf8::encode_utf8(nuls(n)) =~= zeros(n));
    }
}

/// A text that does not end in a NUL character, followed by NUL
/// characters, is the text once they are trimmed.
proof fn lemma_trim_nuls(t: Seq<char>, n: nat)
    requires
        !(t.len() > 0 && t.last() == '\0'),
    ensures
        trim_nul(t + nuls(n)) == t,
    decreases n,
{
    if n > 0 {
        assert((t + nuls(n)).drop_last() =~= t + nuls((n - 1) as nat));
        assert((t + nuls(n)).last() == '\0');
        lemma_trim_nuls(t, (n - 1) as nat);
    } else {
        assert(t + nuls(0) =~= t);
    }
}

/// Writing a UTF-8 string of fixed size, with room for it, writes its byte
/// order mark, text and termination, then zero bytes up to its size.
pub proof fn lemma_fixed_utf8_string_ser(m: StringModel, offset: int, buf: Seq<u8>)
    requires
        m.encoding == SOMStringEncoding::Utf8,
        !string_dynamic(m),
        string_length_ok(m),
        0 <= offset,
        offset + m.max <= buf.len(),
    ensures
        string_ser(m, offset, buf) == Ok::<Seq<u8>, crate::som::SOMErrorView>(
            utf8_string_bytes(m) + zeros((m.max - utf8_string_bytes(m).len()) as nat),
        ),
        utf8_string_bytes(m).len() == string_len(m, m.value),
        utf8_string_bytes(m).len() <= m.max,
{
    let bc: Seq<Seq<u8>> = if crate::som_strings::has_bom(m.format) {
        byte_chunks(crate::som_strings::bom(m.encoding))
    } else {
        Seq::empty()
    };
    let tc: Seq<Seq<u8>> = if crate::som_strings::has_termination(m.format) {
        byte_chunks(crate::som_strings::termination(m.encoding))
    } else {
        Seq::empty()
    };
    let cc = content_chunks(m);
    let head = bc + cc + tc;
    lemma_chunks_flat_concat(bc + cc, tc);
    lemma_chunks_flat_concat(bc, cc);
    lemma_chunks_len_concat(bc + cc, tc);
    lemma_chunks_len_concat(bc, cc);
    let enc = vstd::utf8::encode_utf8(m.value);
    lemma_chunks_flat_bytes(enc);
    lemma_chunks_len_bytes(enc);
    if crate::som_strings::has_bom(m.format) {
        lemma_chunks_flat_bytes(crate::som_strings::bom(m.encoding));
        lemma_chunks_len_bytes(crate::som_strings::bom(m.encoding));
    } else {
        assert(chunks_flat(bc) =~= seq![]);
    }
    if crate::som_strings::has_termination(m.format) {
        lemma_chunks_flat_bytes(crate::som_strings::termination(m.encoding));
        lemma_chunks_len_bytes(crate::som_strings::termination(m.encoding));
    } else {
        assert(chunks_flat(tc) =~= seq![]);
    }
    let b = utf8_string_bytes(m);
    assert(chunks_flat(head) == b);
    assert(chunks_len(head) == b.len());
    let pad = (m.max - b.len()) as nat;
    assert(zeros(pad) =~= Seq::new(pad, |i: int| 0u8));
    if b.len() < m.max {
        assert(string_chunks(m) == head + byte_chunks(zeros(pad)));
        lemma_chunks_flat_concat(head, byte_chunks(zeros(pad)));
        lemma_chunks_len_concat(head, byte_chunks(zeros(pad)));
        lemma_chunks_flat_bytes(zeros(pad));
        lemma_chunks_len_bytes(zeros(pad));
    } else {
        assert(string_chunks(m) == head);
        assert(b + zeros(pad) =~= b);
    }
    lemma_chunks_ser_fits(string_chunks(m), offset, buf.len() as int);
    assert(buf.subrange(offset, offset) =~= Seq::<u8>::empty());
}

/// Reading a UTF-8 string of fixed size where its byte order mark, text and
/// termination are written, then zero bytes up to its size, by a string of
/// the same encoding, format and size, gives back its text.
#[verifier::rlimit(40)]
pub proof fn lemma_fixed_utf8_string_parse(m: StringModel, target: StringModel, offset: int, data: Seq<u8>)
    requires
        m.encoding == SOMStringEncoding::Utf8,
        !string_dynamic(m),
        string_length_ok(m),
        !(m.value.len() > 0 && m.value.last() == '\0'),
        utf8_string_bytes(m).len() == string_len(m, m.value),
        utf8_string_bytes(m).len() <= m.max,
        target.lengthfield == m.lengthfield,
        target.encoding == m.encoding,
        target.format == m.format,
        target.min == m.min,
        target.max == m.max,
        0 <= offset,
        offset + m.max <= data.len(),
        data.subrange(offset, offset + m.max) == utf8_string_bytes(m) + zeros((m.max - utf8_string_bytes(m).len()) as nat),
    ensures
        string_parse_full(target, offset, data) == Some(
            (
                StringModel { value: m.value, ..target },
                Ok::<nat, crate::som::SOMErrorView>((m.max) as nat),
            ),
        ),
{
    let b = utf8_string_bytes(m);
    let pb = format_bom(m);
    let enc = vstd::utf8::encode_utf8(m.value);
    let tb = format_termination(m);
    let region = data.subrange(offset, offset + m.max);
    assert(b == pb + enc + tb);
    assert(format_bom(target) == pb);
    assert(format_termination(target) == tb);
    assert(!string_dynamic(target));
    assert(m.lengthfield == SOMLengthField::NoField);
    assert(lengthfield_size(m.lengthfield) == 0);
    let tl = tb.len() as int;
    let ss0 = m.max as int;
    assert(crate::som_strings::char_size(m.encoding) == 1);
    assert(data.subrange(offset, offset + pb.len()) =~= pb.subrange(0, pb.len() as int)) by {
        assert(data.subrange(offset, offset + pb.len()) =~= region.subrange(0, pb.len() as int));
    }
    lemma_bom_phase_match(pb, 0, offset, ss0 - tl, data);
    let lfv = lengthfield_value(m.lengthfield, data, offset);
    lemma_after_lengthfield(target, offset, data, lfv, ss0);
    let p = offset + pb.len();
    let n = ss0 - tl - pb.len();
    let j = (n - enc.len()) as nat;
    // the bytes after the text are zero
    assert(forall|i: int| 0 <= i < tl ==> #[trigger] tb[i] == 0u8);
    assert forall|i: int| pb.len() + enc.len() <= i < m.max implies #[trigger] region[i] == 0u8 by {
        if i < b.len() {
            assert(region[i] == b[i]);
            assert(b[i] == tb[i - pb.len() - enc.len()]);
        } else {
            assert(region[i] == zeros((m.max - b.len()) as nat)[i - b.len()]);
        }
    }
    let content = data.subrange(p, p + n);
    assert(content =~= enc + zeros(j)) by {
        assert forall|i: int| 0 <= i < n implies #[trigger] content[i] == (enc + zeros(j))[i] by {
            assert(content[i] == region[pb.len() + i]);
            if i < enc.len() {
                assert(region[pb.len() + i] == b[pb.len() + i]);
            }
        }
    }
    assert(crate::som_strings::content_phase(p, n / 1, 1, data) == Ok::<Seq<u8>, crate::som::SOMErrorView>(content));
    lemma_after_bom(target, offset, data, lfv, p, n, n / 1);
    lemma_encode_nuls(j);
    lemma_encode_utf8_concat(m.value, nuls(j));
    lemma_utf8_decode(m.value + nuls(j));
    assert(content == vstd::utf8::encode_utf8(m.value + nuls(j)));
    lemma_trim_nuls(m.value, j);
    lemma_after_content(target, offset, data, lfv, p + n, content, m.value + nuls(j));
    let q = p + n;
    assert(data.subrange(q, q + tl) =~= tb.subrange(0, tl)) by {
        assert forall|i: int| 0 <= i < tl implies #[trigger] data.subrange(q, q + tl)[i] == tb.subrange(0, tl)[i] by {
            assert(data.subrange(q, q + tl)[i] == region[m.max - tl + i]);
        }
    }
    lemma_termination_phase_match(tb, 0, q, data);
    let m2 = StringModel { value: m.value, ..target };
    assert(string_len(m2, m2.value) == string_len(m, m.value));
    assert(string_length_ok(m2));
    assert(string_after_termination(m2, offset, lfv, Ok(q + tl)) == Ok::<nat, crate::som::SOMErrorView>(m.max));
    assert(string_parse_full(target, offset, data) == Some((m2, Ok::<nat, crate::som::SOMErrorView>(m.max))));
}

/// A UTF-8 string of fixed size (no length field, equal bounds), of a text
/// that does not end in a NUL character and that fits its size, written at
/// `offset` into a buffer with room for it, is read back by a string of the
/// same encoding, format and size: it gets the text written, and its size
/// is read. (The zero bytes that fill the string up to its size are read as
/// NUL characters, and trimmed.)
pub proof fn lemma_fixed_utf8_string_roundtrip(m: StringModel, target: StringModel, offset: int, buf: Seq<u8>)
    requires
        m.encoding == SOMStringEncoding::Utf8,
        !string_dynamic(m),
        string_length_ok(m),
        !(m.value.len() > 0 && m.value.last() == '\0'),
        target.lengthfield == m.lengthfield,
        target.encoding == m.encoding,
        target.format == m.format,
        target.min == m.min,
        target.max == m.max,
        0 <= offset,
        offset + m.max <= buf.len(),
    ensures
        string_ser(m, offset, buf) matches Ok(bytes) && {
            let (after, r) = <SOMStringType as SOMType>::parse_spec(target, offset, overwrite(buf, offset, bytes));
            &&& bytes.len() == m.max
            &&& r == Ok::<nat, crate::som::SOMErrorView>(m.max)
            &&& after == StringModel { value: m.value, ..target }
        },
{
    lemma_fixed_utf8_string_ser(m, offset, buf);
    let b = utf8_string_bytes(m);
    let bytes = b + zeros((m.max - b.len()) as nat);
    let data = overwrite(buf, offset, bytes);
    assert(data.subrange(offset, offset + m.max) =~= bytes);
    lemma_fixed_utf8_string_parse(m, target, offset, data);
}

/// `n` zero code units.
pub open spec fn zero_units(n: nat) -> Seq<u16> {
    Seq::new(n, |i: int| 0u16)
}

/// The code units of a text followed by NUL characters are those of the
/// text followed by zero code units.
proof fn lemma_units_nuls(v: Seq<char>, j: nat)
    ensures
        utf16_units(v + nuls(j)) == utf16_units(v) + zero_units(j),
    decreases j,
{
    if j == 0 {
        assert(v + nuls(0) =~= v);
        assert(utf16_units(v) + zero_units(0) =~= utf16_units(v));
    } else {
        lemma_units_nuls(v, (j - 1) as nat);
        reveal(utf16_units);
        let w = v + nuls(j);
        assert(w.drop_last() =~= v + nuls((j - 1) as nat));
        assert(w.last() == '\0');
        assert(char_utf16('\0') =~= seq![0u16]);
        assert(utf16_units(v) + zero_units(j) =~= (utf16_units(v) + zero_units((j - 1) as nat)) + seq![0u16]);
    }
}

/// The code units of a text followed by zero code units decode to the text
/// followed by NUL characters.
pub proof fn lemma_utf16_nul_texts(v: Seq<char>)
    ensures
        forall|j: nat| #[trigger] utf16_text(utf16_units(v) + zero_units(j)) == Some(v + nuls(j)),
{
    assert forall|j: nat| #[trigger] utf16_text(utf16_units(v) + zero_units(j)) == Some(v + nuls(j)) by {
        lemma_units_nuls(v, j);
        lemma_utf16_text_units(v + nuls(j));
    }
}

/// Code units of bytes, two at a time, read in two parts where the first
/// has an even number of bytes.
proof fn lemma_units_of_concat(a: Seq<u8>, b: Seq<u8>, endian: SOMEndian)
    requires
        a.len() % 2 == 0,
    ensures
        units_of(a + b, endian) == units_of(a, endian) + units_of(b, endian),
{
    let u = units_of(a + b, endian);
    let v = units_of(a, endian) + units_of(b, endian);
    assert((a + b).len() / 2 == a.len() / 2 + b.len() / 2);
    assert forall|i: int| 0 <= i < u.len() implies #[trigger] u[i] == v[i] by {
        if i < a.len() / 2 {
            assert((a + b).subrange(2 * i, 2 * i + 2) =~= a.subrange(2 * i, 2 * i + 2));
        } else {
            let k = i - a.len() / 2;
            assert((a + b).subrange(2 * i, 2 * i + 2) =~= b.subrange(2 * k, 2 * k + 2));
        }
    }
    assert(u =~= v);
}

/// Zero bytes are zero code units.
proof fn lemma_units_of_zeros(n: nat, endian: SOMEndian)
    ensures
        units_of(zeros(2 * n), endian) == zero_units(n),
{
    let u = units_of(zeros(2 * n), endian);
    assert((((0u8 as u16) << 8u16) | (0u8 as u16)) == 0u16) by (bit_vector);
    assert forall|i: int| 0 <= i < n implies #[trigger] u[i] == 0u16 by {
        let two = zeros(2 * n).subrange(2 * i, 2 * i + 2);
        assert(two =~= seq![0u8, 0u8]);
        assert(seq![0u8, 0u8].reverse() =~= seq![0u8, 0u8]);
    }
    assert(u =~= zero_units(n));
}

/// Writing a UTF-16 string of fixed size whose code units fit it, with room
/// for it, writes its byte order mark, code units and termination, then
/// zero bytes up to its size.
pub proof fn lemma_fixed_utf16_string_ser(m: StringModel, offset: int, buf: Seq<u8>)
    requires
        m.encoding != SOMStringEncoding::Utf8,
        !string_dynamic(m),
        string_length_ok(m),
        utf16_string_bytes(m).len() <= 2 * m.max,
        0 <= offset,
        offset + 2 * m.max <= buf.len(),
    ensures
        string_ser(m, offset, buf) == Ok::<Seq<u8>, crate::som::SOMErrorView>(
            utf16_string_bytes(m) + zeros((2 * m.max - utf16_string_bytes(m).len()) as nat),
        ),
{
    let bc: Seq<Seq<u8>> = if crate::som_strings::has_bom(m.format) {
        byte_chunks(crate::som_strings::bom(m.encoding))
    } else {
        Seq::empty()
    };
    let tc: Seq<Seq<u8>> = if crate::som_strings::has_termination(m.format) {
        byte_chunks(crate::som_strings::termination(m.encoding))
    } else {
        Seq::empty()
    };
    let cc = content_chunks(m);
    assert(cc =~= unit_chunks(utf16_units(m.value), string_endian(m.encoding)));
    let head = bc + cc + tc;
    lemma_chunks_flat_concat(bc + cc, tc);
    lemma_chunks_flat_concat(bc, cc);
    lemma_chunks_len_concat(bc + cc, tc);
    lemma_chunks_len_concat(bc, cc);
    lemma_unit_chunks_len(utf16_units(m.value), string_endian(m.encoding));
    if crate::som_strings::has_bom(m.format) {
        lemma_chunks_flat_bytes(crate::som_strings::bom(m.encoding));
        lemma_chunks_len_bytes(crate::som_strings::bom(m.encoding));
    } else {
        assert(chunks_flat(bc) =~= seq![]);
    }
    if crate::som_strings::has_termination(m.format) {
        lemma_chunks_flat_bytes(crate::som_strings::termination(m.encoding));
        lemma_chunks_len_bytes(crate::som_strings::termination(m.encoding));
    } else {
        assert(chunks_flat(tc) =~= seq![]);
    }
    let b = utf16_string_bytes(m);
    assert(chunks_flat(head) == b);
    assert(chunks_len(head) == b.len());
    assert(crate::som_strings::char_size(m.encoding) * m.max == 2 * m.max);
    let pad = (2 * m.max - b.len()) as nat;
    if b.len() < 2 * m.max {
        assert(string_chunks(m) == head + byte_chunks(zeros(pad)));
        lemma_chunks_flat_concat(head, byte_chunks(zeros(pad)));
        lemma_chunks_len_concat(head, byte_chunks(zeros(pad)));
        lemma_chunks_flat_bytes(zeros(pad));
        lemma_chunks_len_bytes(zeros(pad));
    } else {
        assert(string_chunks(m) == head);
        assert(b + zeros(pad) =~= b);
    }
    lemma_chunks_ser_fits(string_chunks(m), offset, buf.len() as int);
    assert(buf.subrange(offset, offset) =~= Seq::<u8>::empty());
}

/// The content of a fixed UTF-16 string as it is read: its code units,
/// then zero code units, which decode to its text followed by NUL
/// characters.
proof fn lemma_fixed_utf16_content(m: StringModel, content: Seq<u8>, j: nat)
    requires
        m.encoding != SOMStringEncoding::Utf8,
        content == chunks_flat(unit_chunks(utf16_units(m.value), string_endian(m.encoding))) + zeros(2 * j),
        utf16_text(utf16_units(m.value) + zero_units(j)) == Some(m.value + nuls(j)),
    ensures
        crate::som_strings::decode_text(m.encoding, content) == Some(m.value + nuls(j)),
{
    let units = utf16_units(m.value);
    let endian = string_endian(m.encoding);
    lemma_unit_chunks(units, endian);
    let f = chunks_flat(unit_chunks(units, endian));
    assert(f.len() % 2 == 0);
    lemma_units_of_concat(f, zeros(2 * j), endian);
    lemma_units_of_zeros(j, endian);
}

/// Reading a UTF-16 string of fixed size where its byte order mark, code
/// units and termination are written, then zero bytes up to its size, by
/// a string of the same encoding, format and size, gives back its text,
/// where its code units followed by zero code units decode to the text
/// followed by NUL characters.
#[verifier::rlimit(40)]
pub proof fn lemma_fixed_utf16_string_parse(m: StringModel, target: StringModel, offset: int, data: Seq<u8>)
    requires
        m.encoding != SOMStringEncoding::Utf8,
        !string_dynamic(m),
        string_length_ok(m),
        !(m.value.len() > 0 && m.value.last() == '\0'),
        forall|j: nat| #[trigger] utf16_text(utf16_units(m.value) + zero_units(j)) == Some(m.value + nuls(j)),
        utf16_string_bytes(m).len() <= 2 * m.max,
        target.lengthfield == m.lengthfield,
        target.encoding == m.encoding,
        target.format == m.format,
        target.min == m.min,
        target.max == m.max,
        0 <= offset,
        offset + 2 * m.max <= data.len(),
        data.subrange(offset, offset + 2 * m.max) == utf16_string_bytes(m) + zeros(
            (2 * m.max - utf16_string_bytes(m).len()) as nat,
        ),
    ensures
        string_parse_full(target, offset, data) == Some(
            (StringModel { value: m.value, ..target }, Ok::<nat, crate::som::SOMErrorView>((2 * m.max) as nat)),
        ),
{
    let b = utf16_string_bytes(m);
    let pb = format_bom(m);
    let units = utf16_units(m.value);
    let endian = string_endian(m.encoding);
    lemma_unit_chunks_len(units, endian);
    let f = chunks_flat(unit_chunks(units, endian));
    let tb = format_termination(m);
    let size = 2 * m.max;
    let region = data.subrange(offset, offset + size);
    assert(b == pb + f + tb);
    assert(format_bom(target) == pb);
    assert(format_termination(target) == tb);
    assert(!string_dynamic(target));
    assert(m.lengthfield == SOMLengthField::NoField);
    assert(lengthfield_size(m.lengthfield) == 0);
    assert(crate::som_strings::char_size(m.encoding) == 2);
    let tl = tb.len() as int;
    let ss0 = size as int;
    assert(pb.len() == 0 || pb.len() == 2);
    assert(tl == 0 || tl == 2);
    assert(data.subrange(offset, offset + pb.len()) =~= pb.subrange(0, pb.len() as int)) by {
        assert(data.subrange(offset, offset + pb.len()) =~= region.subrange(0, pb.len() as int));
    }
    lemma_bom_phase_match(pb, 0, offset, ss0 - tl, data);
    let lfv = lengthfield_value(m.lengthfield, data, offset);
    lemma_after_lengthfield(target, offset, data, lfv, ss0);
    let p = offset + pb.len();
    let ss = ss0 - tl - pb.len();
    let n = ss / 2;
    assert(n * 2 == ss);
    let j = (n - units.len()) as nat;
    assert(forall|i: int| 0 <= i < tl ==> #[trigger] tb[i] == 0u8);
    assert forall|i: int| pb.len() + f.len() <= i < size implies #[trigger] region[i] == 0u8 by {
        if i < b.len() {
            assert(region[i] == b[i]);
            assert(b[i] == tb[i - pb.len() - f.len()]);
        } else {
            assert(region[i] == zeros((size - b.len()) as nat)[i - b.len()]);
        }
    }
    let content = data.subrange(p, p + n * 2);
    assert(content =~= f + zeros(2 * j)) by {
        assert forall|i: int| 0 <= i < n * 2 implies #[trigger] content[i] == (f + zeros(2 * j))[i] by {
            assert(content[i] == region[pb.len() + i]);
            if i < f.len() {
                assert(region[pb.len() + i] == b[pb.len() + i]);
            }
        }
    }
    assert(crate::som_strings::content_phase(p, n, 2, data) == Ok::<Seq<u8>, crate::som::SOMErrorView>(content));
    lemma_after_bom(target, offset, data, lfv, p, ss, n);
    assert(utf16_text(units + zero_units(j)) == Some(m.value + nuls(j)));
    lemma_fixed_utf16_content(m, content, j);
    lemma_trim_nuls(m.value, j);
    lemma_after_content(target, offset, data, lfv, p + n * 2, content, m.value + nuls(j));
    let q = p + n * 2;
    assert(data.subrange(q, q + tl) =~= tb.subrange(0, tl)) by {
        assert forall|i: int| 0 <= i < tl implies #[trigger] data.subrange(q, q + tl)[i] == tb.subrange(0, tl)[i] by {
            assert(data.subrange(q, q + tl)[i] == region[size - tl + i]);
        }
    }
    lemma_termination_phase_match(tb, 0, q, data);
    let m2 = StringModel { value: m.value, ..target };
    assert(string_len(m2, m2.value) == string_len(m, m.value));
    assert(string_length_ok(m2));
    assert(string_after_termination(m2, offset, lfv, Ok(q + tl)) == Ok::<nat, crate::som::SOMErrorView>(size));
}

/// A UTF-16 string (of either byte order) of fixed size (no length field,
/// equal bounds), of a text that does not end in a NUL character, whose
/// code units fit its size, written at `offset` into a buffer with room
/// for it, is read back by a string of the same encoding, format and size:
/// it gets the text written, and its size is read. The zero bytes that fill
/// the string up to its size are read as NUL characters, and trimmed.
pub proof fn lemma_fixed_utf16_string_roundtrip(m: StringModel, target: StringModel, offset: int, buf: Seq<u8>)
    requires
        m.encoding != SOMStringEncoding::Utf8,
        !string_dynamic(m),
        string_length_ok(m),
        !(m.value.len() > 0 && m.value.last() == '\0'),
        utf16_string_bytes(m).len() <= 2 * m.max,
        target.lengthfield == m.lengthfield,
        target.encoding == m.encoding,
        target.format == m.format,
        target.min == m.min,
        target.max == m.max,
        0 <= offset,
        offset + 2 * m.max <= buf.len(),
    ensures
        string_ser(m, offset, buf) matches Ok(bytes) && {
            let (after, r) = <SOMStringType as SOMType>::parse_spec(target, offset, overwrite(buf, offset, bytes));
            &&& bytes.len() == 2 * m.max
            &&& r == Ok::<nat, crate::som::SOMErrorView>((2 * m.max) as nat)
            &&& after == StringModel { value: m.value, ..target }
        },
{
    lemma_utf16_nul_texts(m.value);
    lemma_fixed_utf16_string_ser(m, offset, buf);
    let b = utf16_string_bytes(m);
    let bytes = b + zeros((2 * m.max - b.len()) as nat);
    let data = overwrite(buf, offset, bytes);
    assert(data.subrange(offset, offset + 2 * m.max) =~= bytes);
    lemma_fixed_utf16_string_parse(m, target, offset, data);
}

} // verus!
