//! Laws of values of any payload type: what parsing gives back of what
//! serializing writes, built up from the members of a structure.

use crate::laws_som::{lemma_lengthfield_roundtrip, lengthfield_holds};
use crate::laws_strings::{
    chunks_flat, lemma_fixed_utf16_string_parse, lemma_fixed_utf16_string_ser, lemma_fixed_utf8_string_parse,
    lemma_fixed_utf8_string_ser, lemma_lengthfield_bytes_len, nuls, zero_units,
    lemma_utf16_string_parse, lemma_utf16_string_ser, lemma_utf8_string_parse, lemma_utf8_string_ser,
    utf16_string_bytes, utf8_string_bytes, zeros, lemma_utf16_nul_texts,
};
use crate::som_strings::{
    string_dynamic, string_len, string_length_ok, utf16_text, utf16_units, lemma_utf16_text_units, SOMStringEncoding, StringModel,
};
use crate::som_arrays::{array_dynamic, array_length_ok, ArrayModel};
use crate::bytes::{lemma_be16_roundtrip, lemma_be32_roundtrip};
use crate::som::{lengthfield_bytes, lengthfield_size, lengthfield_value, SOMLengthField, overwrite, typefield_bytes, typefield_size, typefield_value, SOMEndian, SOMErrorView, SOMTypeField};
use crate::som_primitives::{
    SOMBool, SOMPrimitiveType, SOMPrimitiveTypeWithEndian, SOMf32, SOMf64, SOMi16, SOMi24, SOMi32,
    SOMi64, SOMi8, SOMu16, SOMu24, SOMu32, SOMu64, SOMu8, WirePrim, F32, F64, I24, U24,
};
use crate::som_wrapper::{
    leaf_parse, leaf_parse_of, leaf_ser, leaf_ser_of, welems_parse, welems_ser, wrapper_parse,
    union_parse, union_ser, warr_parse, warr_ser, wrapper_ser, LeafModel, StructModel, UnionModel, WrapperModel,
};
use vstd::prelude::*;

verus! {

/// A value of model `m` writes `bytes` wherever there is room for them.
pub open spec fn writes(m: WrapperModel, bytes: Seq<u8>) -> bool {
    forall|offset: int, buf: Seq<u8>|
        0 <= offset && offset + bytes.len() <= buf.len() ==> #[trigger] wrapper_ser(m, offset, buf) == Some(
            Ok::<Seq<u8>, SOMErrorView>(bytes),
        )
}

/// A value of model `target` reads `bytes` back wherever they are written:
/// it becomes `after`, and reads all of them.
pub open spec fn reads(target: WrapperModel, bytes: Seq<u8>, after: WrapperModel) -> bool {
    forall|offset: int, data: Seq<u8>|
        0 <= offset && offset + bytes.len() <= data.len() && data.subrange(offset, offset + bytes.len())
            == bytes ==> #[trigger] wrapper_parse(target, offset, data) == (
            after,
            Some(Ok::<nat, SOMErrorView>(bytes.len())),
        )
}

/// The bytes of writes from the `i`-th on.
proof fn lemma_flat_skip(bs: Seq<Seq<u8>>, i: int)
    requires
        0 <= i < bs.len(),
    ensures
        chunks_flat(bs.skip(i)) == bs[i] + chunks_flat(bs.skip(i + 1)),
{
    assert(bs.skip(i)[0] == bs[i]);
    assert(bs.skip(i).subrange(1, bs.skip(i).len() as int) =~= bs.skip(i + 1));
}

/// Members that each write their bytes write them one after the other.
proof fn lemma_welems_writes(ms: Seq<WrapperModel>, bs: Seq<Seq<u8>>, i: int, offset: int, buf: Seq<u8>)
    requires
        ms.len() == bs.len(),
        0 <= i <= ms.len(),
        forall|j: int| 0 <= j < ms.len() ==> writes(#[trigger] ms[j], bs[j]),
        0 <= offset,
        offset + chunks_flat(bs.skip(i)).len() <= buf.len(),
    ensures
        welems_ser(ms, i, offset, buf) == Some(Ok::<Seq<u8>, SOMErrorView>(chunks_flat(bs.skip(i)))),
    decreases ms.len() - i,
{
    if i < ms.len() {
        lemma_flat_skip(bs, i);
        assert(writes(ms[i], bs[i]));
        assert(wrapper_ser(ms[i], offset, buf) == Some(Ok::<Seq<u8>, SOMErrorView>(bs[i])));
        let buf2 = overwrite(buf, offset, bs[i]);
        assert(buf2.len() == buf.len());
        lemma_welems_writes(ms, bs, i + 1, offset + bs[i].len(), buf2);
    } else {
        assert(bs.skip(i) =~= Seq::<Seq<u8>>::empty());
    }
}

/// Members whose targets each read their bytes back read them one after the
/// other: each target from the `i`-th on becomes what it reads.
proof fn lemma_welems_reads(
    ts: Seq<WrapperModel>,
    cur: Seq<WrapperModel>,
    afters: Seq<WrapperModel>,
    bs: Seq<Seq<u8>>,
    i: int,
    offset: int,
    data: Seq<u8>,
)
    requires
        ts.len() == bs.len(),
        afters.len() == bs.len(),
        cur.len() == bs.len(),
        0 <= i <= ts.len(),
        forall|j: int| 0 <= j < ts.len() ==> reads(#[trigger] ts[j], bs[j], afters[j]),
        0 <= offset,
        offset + chunks_flat(bs.skip(i)).len() <= data.len(),
        data.subrange(offset, offset + chunks_flat(bs.skip(i)).len()) == chunks_flat(bs.skip(i)),
    ensures
        welems_parse(ts, cur, i, offset, data) == (
            cur.take(i) + afters.skip(i),
            Some(Ok::<nat, SOMErrorView>(chunks_flat(bs.skip(i)).len())),
        ),
    decreases ts.len() - i,
{
    if i < ts.len() {
        lemma_flat_skip(bs, i);
        let rest = chunks_flat(bs.skip(i + 1));
        let whole = chunks_flat(bs.skip(i));
        assert(data.subrange(offset, offset + bs[i].len()) =~= bs[i]) by {
            assert(data.subrange(offset, offset + bs[i].len()) =~= data.subrange(offset, offset + whole.len()).subrange(
                0,
                bs[i].len() as int,
            ));
        }
        assert(data.subrange(offset + bs[i].len(), offset + bs[i].len() + rest.len()) =~= rest) by {
            assert(data.subrange(offset + bs[i].len(), offset + bs[i].len() + rest.len())
                =~= data.subrange(offset, offset + whole.len()).subrange(bs[i].len() as int, whole.len() as int));
        }
        assert(reads(ts[i], bs[i], afters[i]));
        assert(wrapper_parse(ts[i], offset, data) == (afters[i], Some(Ok::<nat, SOMErrorView>(bs[i].len()))));
        let cur1 = cur.update(i, afters[i]);
        lemma_welems_reads(ts, cur1, afters, bs, i + 1, offset + bs[i].len(), data);
        assert(cur1.take(i + 1) + afters.skip(i + 1) =~= cur.take(i) + afters.skip(i));
    } else {
        assert(bs.skip(i) =~= Seq::<Seq<u8>>::empty());
        assert(cur.take(i) + afters.skip(i) =~= cur);
    }
}

/// A structure whose members each write some bytes writes them one after
/// the other; a structure whose member targets each read those bytes back
/// reads them all back, each member becoming what it reads, the structure
/// keeping its name.
pub proof fn lemma_struct_roundtrip(
    m: StructModel,
    target: StructModel,
    afters: Seq<WrapperModel>,
    bs: Seq<Seq<u8>>,
)
    requires
        m.members.len() == bs.len(),
        target.members.len() == bs.len(),
        afters.len() == bs.len(),
        forall|j: int| 0 <= j < bs.len() ==> writes(#[trigger] m.members[j], bs[j]),
        forall|j: int| 0 <= j < bs.len() ==> reads(#[trigger] target.members[j], bs[j], afters[j]),
    ensures
        writes(WrapperModel::Struct(m), chunks_flat(bs)),
        reads(
            WrapperModel::Struct(target),
            chunks_flat(bs),
            WrapperModel::Struct(StructModel { members: afters, ..target }),
        ),
{
    assert(bs.skip(0) =~= bs);
    assert forall|offset: int, buf: Seq<u8>|
        0 <= offset && offset + chunks_flat(bs).len() <= buf.len() implies #[trigger] wrapper_ser(
        WrapperModel::Struct(m),
        offset,
        buf,
    ) == Some(Ok::<Seq<u8>, SOMErrorView>(chunks_flat(bs))) by {
        lemma_welems_writes(m.members, bs, 0, offset, buf);
    }
    assert forall|offset: int, data: Seq<u8>|
        0 <= offset && offset + chunks_flat(bs).len() <= data.len() && data.subrange(
            offset,
            offset + chunks_flat(bs).len(),
        ) == chunks_flat(bs) implies #[trigger] wrapper_parse(WrapperModel::Struct(target), offset, data)
        == (
        WrapperModel::Struct(StructModel { members: afters, ..target }),
        Some(Ok::<nat, SOMErrorView>(chunks_flat(bs).len())),
    ) by {
        lemma_welems_reads(target.members, target.members, afters, bs, 0, offset, data);
        assert(target.members.take(0) + afters.skip(0) =~= afters);
    }
}

/// What a primitive value of a byte order `t` becomes when it reads the
/// value of `x`.
pub open spec fn endian_read<T>(t: SOMPrimitiveTypeWithEndian<T>, x: SOMPrimitiveTypeWithEndian<T>) -> SOMPrimitiveTypeWithEndian<T> {
    SOMPrimitiveTypeWithEndian {
        primitive: SOMPrimitiveType { value: x.primitive.value, ..t.primitive },
        endian: t.endian,
    }
}

/// What a primitive value without byte order `t` becomes when it reads the
/// value of `x`.
pub open spec fn plain_read<T>(t: SOMPrimitiveType<T>, x: SOMPrimitiveType<T>) -> SOMPrimitiveType<T> {
    SOMPrimitiveType { value: x.value, ..t }
}

/// The bytes of a primitive value of a byte order.
pub open spec fn endian_bytes<T: WirePrim>(x: SOMPrimitiveTypeWithEndian<T>) -> Seq<u8> {
    T::encode(x.primitive.value->0, x.endian)
}

/// The bytes of a primitive value without byte order (in big endian).
pub open spec fn plain_bytes<T: WirePrim>(x: SOMPrimitiveType<T>) -> Seq<u8> {
    T::encode(x.value->0, SOMEndian::Big)
}

/// A primitive value of a byte order that holds a valid value is written as
/// its bytes, and read back by a value of the same byte order.
proof fn lemma_endian_leaf_of<T: WirePrim>(
    x: SOMPrimitiveTypeWithEndian<T>,
    t: SOMPrimitiveTypeWithEndian<T>,
    offset: int,
    buf: Seq<u8>,
    data: Seq<u8>,
)
    requires
        x.primitive.value matches Some(v) && T::valid(v),
        t.endian == x.endian,
        0 <= offset,
    ensures
        endian_bytes(x).len() == T::width(),
        offset + T::width() <= buf.len() ==> leaf_ser_of::<SOMPrimitiveTypeWithEndian<T>>(x, offset, buf) == Some(
            Ok::<Seq<u8>, SOMErrorView>(endian_bytes(x)),
        ),
        offset + T::width() <= data.len() && data.subrange(offset, offset + T::width()) == endian_bytes(x)
            ==> leaf_parse_of::<SOMPrimitiveTypeWithEndian<T>>(t, offset, data) == (
            endian_read(t, x),
            Some(Ok::<nat, SOMErrorView>(T::width())),
        ),
{
    T::lemma_roundtrip(x.primitive.value->0, x.endian);
}

/// A primitive value without byte order that holds a valid value is written
/// as its bytes, and read back.
proof fn lemma_plain_leaf_of<T: WirePrim>(
    x: SOMPrimitiveType<T>,
    t: SOMPrimitiveType<T>,
    offset: int,
    buf: Seq<u8>,
    data: Seq<u8>,
)
    requires
        x.value matches Some(v) && T::valid(v),
        0 <= offset,
    ensures
        plain_bytes(x).len() == T::width(),
        offset + T::width() <= buf.len() ==> leaf_ser_of::<SOMPrimitiveType<T>>(x, offset, buf) == Some(
            Ok::<Seq<u8>, SOMErrorView>(plain_bytes(x)),
        ),
        offset + T::width() <= data.len() && data.subrange(offset, offset + T::width()) == plain_bytes(x)
            ==> leaf_parse_of::<SOMPrimitiveType<T>>(t, offset, data) == (
            plain_read(t, x),
            Some(Ok::<nat, SOMErrorView>(T::width())),
        ),
{
    T::lemma_roundtrip(x.value->0, SOMEndian::Big);
}

/// A 16-bit unsigned value (`SOMu16`) that holds a valid value writes its bytes,
/// and a value of the same byte order reads them back.
pub proof fn lemma_leaf_u16(x: SOMu16, t: SOMu16)
    requires
        x.primitive.value matches Some(v) && <u16 as WirePrim>::valid(v),
        t.endian == x.endian,
    ensures
        writes(WrapperModel::Leaf(LeafModel::U16(x)), endian_bytes(x)),
        reads(
            WrapperModel::Leaf(LeafModel::U16(t)),
            endian_bytes(x),
            WrapperModel::Leaf(LeafModel::U16(endian_read(t, x))),
        ),
{
    reveal(leaf_ser);
    reveal(leaf_parse);
    assert forall|offset: int, buf: Seq<u8>|
        0 <= offset && offset + endian_bytes(x).len() <= buf.len() implies #[trigger] wrapper_ser(
        WrapperModel::Leaf(LeafModel::U16(x)),
        offset,
        buf,
    ) == Some(Ok::<Seq<u8>, SOMErrorView>(endian_bytes(x))) by {
        lemma_endian_leaf_of(x, t, offset, buf, buf);
    }
    assert forall|offset: int, data: Seq<u8>|
        0 <= offset && offset + endian_bytes(x).len() <= data.len() && data.subrange(
            offset,
            offset + endian_bytes(x).len(),
        ) == endian_bytes(x) implies #[trigger] wrapper_parse(WrapperModel::Leaf(LeafModel::U16(t)), offset, data)
        == (
        WrapperModel::Leaf(LeafModel::U16(endian_read(t, x))),
        Some(Ok::<nat, SOMErrorView>(endian_bytes(x).len())),
    ) by {
        lemma_endian_leaf_of(x, t, offset, data, data);
    }
}

/// A 16-bit signed value (`SOMi16`) that holds a valid value writes its bytes,
/// and a value of the same byte order reads them back.
pub proof fn lemma_leaf_i16(x: SOMi16, t: SOMi16)
    requires
        x.primitive.value matches Some(v) && <i16 as WirePrim>::valid(v),
        t.endian == x.endian,
    ensures
        writes(WrapperModel::Leaf(LeafModel::I16(x)), endian_bytes(x)),
        reads(
            WrapperModel::Leaf(LeafModel::I16(t)),
            endian_bytes(x),
            WrapperModel::Leaf(LeafModel::I16(endian_read(t, x))),
        ),
{
    reveal(leaf_ser);
    reveal(leaf_parse);
    assert forall|offset: int, buf: Seq<u8>|
        0 <= offset && offset + endian_bytes(x).len() <= buf.len() implies #[trigger] wrapper_ser(
        WrapperModel::Leaf(LeafModel::I16(x)),
        offset,
        buf,
    ) == Some(Ok::<Seq<u8>, SOMErrorView>(endian_bytes(x))) by {
        lemma_endian_leaf_of(x, t, offset, buf, buf);
    }
    assert forall|offset: int, data: Seq<u8>|
        0 <= offset && offset + endian_bytes(x).len() <= data.len() && data.subrange(
            offset,
            offset + endian_bytes(x).len(),
        ) == endian_bytes(x) implies #[trigger] wrapper_parse(WrapperModel::Leaf(LeafModel::I16(t)), offset, data)
        == (
        WrapperModel::Leaf(LeafModel::I16(endian_read(t, x))),
        Some(Ok::<nat, SOMErrorView>(endian_bytes(x).len())),
    ) by {
        lemma_endian_leaf_of(x, t, offset, data, data);
    }
}

/// A 24-bit unsigned value (`SOMu24`) that holds a valid value writes its bytes,
/// and a value of the same byte order reads them back.
pub proof fn lemma_leaf_u24(x: SOMu24, t: SOMu24)
    requires
        x.primitive.value matches Some(v) && <U24 as WirePrim>::valid(v),
        t.endian == x.endian,
    ensures
        writes(WrapperModel::Leaf(LeafModel::U24(x)), endian_bytes(x)),
        reads(
            WrapperModel::Leaf(LeafModel::U24(t)),
            endian_bytes(x),
            WrapperModel::Leaf(LeafModel::U24(endian_read(t, x))),
        ),
{
    reveal(leaf_ser);
    reveal(leaf_parse);
    assert forall|offset: int, buf: Seq<u8>|
        0 <= offset && offset + endian_bytes(x).len() <= buf.len() implies #[trigger] wrapper_ser(
        WrapperModel::Leaf(LeafModel::U24(x)),
        offset,
        buf,
    ) == Some(Ok::<Seq<u8>, SOMErrorView>(endian_bytes(x))) by {
        lemma_endian_leaf_of(x, t, offset, buf, buf);
    }
    assert forall|offset: int, data: Seq<u8>|
        0 <= offset && offset + endian_bytes(x).len() <= data.len() && data.subrange(
            offset,
            offset + endian_bytes(x).len(),
        ) == endian_bytes(x) implies #[trigger] wrapper_parse(WrapperModel::Leaf(LeafModel::U24(t)), offset, data)
        == (
        WrapperModel::Leaf(LeafModel::U24(endian_read(t, x))),
        Some(Ok::<nat, SOMErrorView>(endian_bytes(x).len())),
    ) by {
        lemma_endian_leaf_of(x, t, offset, data, data);
    }
}

/// A 24-bit signed value (`SOMi24`) that holds a valid value writes its bytes,
/// and a value of the same byte order reads them back.
pub proof fn lemma_leaf_i24(x: SOMi24, t: SOMi24)
    requires
        x.primitive.value matches Some(v) && <I24 as WirePrim>::valid(v),
        t.endian == x.endian,
    ensures
        writes(WrapperModel::Leaf(LeafModel::I24(x)), endian_bytes(x)),
        reads(
            WrapperModel::Leaf(LeafModel::I24(t)),
            endian_bytes(x),
            WrapperModel::Leaf(LeafModel::I24(endian_read(t, x))),
        ),
{
    reveal(leaf_ser);
    reveal(leaf_parse);
    assert forall|offset: int, buf: Seq<u8>|
        0 <= offset && offset + endian_bytes(x).len() <= buf.len() implies #[trigger] wrapper_ser(
        WrapperModel::Leaf(LeafModel::I24(x)),
        offset,
        buf,
    ) == Some(Ok::<Seq<u8>, SOMErrorView>(endian_bytes(x))) by {
        lemma_endian_leaf_of(x, t, offset, buf, buf);
    }
    assert forall|offset: int, data: Seq<u8>|
        0 <= offset && offset + endian_bytes(x).len() <= data.len() && data.subrange(
            offset,
            offset + endian_bytes(x).len(),
        ) == endian_bytes(x) implies #[trigger] wrapper_parse(WrapperModel::Leaf(LeafModel::I24(t)), offset, data)
        == (
        WrapperModel::Leaf(LeafModel::I24(endian_read(t, x))),
        Some(Ok::<nat, SOMErrorView>(endian_bytes(x).len())),
    ) by {
        lemma_endian_leaf_of(x, t, offset, data, data);
    }
}

/// A 32-bit unsigned value (`SOMu32`) that holds a valid value writes its bytes,
/// and a value of the same byte order reads them back.
pub proof fn lemma_leaf_u32(x: SOMu32, t: SOMu32)
    requires
        x.primitive.value matches Some(v) && <u32 as WirePrim>::valid(v),
        t.endian == x.endian,
    ensures
        writes(WrapperModel::Leaf(LeafModel::U32(x)), endian_bytes(x)),
        reads(
            WrapperModel::Leaf(LeafModel::U32(t)),
            endian_bytes(x),
            WrapperModel::Leaf(LeafModel::U32(endian_read(t, x))),
        ),
{
    reveal(leaf_ser);
    reveal(leaf_parse);
    assert forall|offset: int, buf: Seq<u8>|
        0 <= offset && offset + endian_bytes(x).len() <= buf.len() implies #[trigger] wrapper_ser(
        WrapperModel::Leaf(LeafModel::U32(x)),
        offset,
        buf,
    ) == Some(Ok::<Seq<u8>, SOMErrorView>(endian_bytes(x))) by {
        lemma_endian_leaf_of(x, t, offset, buf, buf);
    }
    assert forall|offset: int, data: Seq<u8>|
        0 <= offset && offset + endian_bytes(x).len() <= data.len() && data.subrange(
            offset,
            offset + endian_bytes(x).len(),
        ) == endian_bytes(x) implies #[trigger] wrapper_parse(WrapperModel::Leaf(LeafModel::U32(t)), offset, data)
        == (
        WrapperModel::Leaf(LeafModel::U32(endian_read(t, x))),
        Some(Ok::<nat, SOMErrorView>(endian_bytes(x).len())),
    ) by {
        lemma_endian_leaf_of(x, t, offset, data, data);
    }
}

/// A 32-bit signed value (`SOMi32`) that holds a valid value writes its bytes,
/// and a value of the same byte order reads them back.
pub proof fn lemma_leaf_i32(x: SOMi32, t: SOMi32)
    requires
        x.primitive.value matches Some(v) && <i32 as WirePrim>::valid(v),
        t.endian == x.endian,
    ensures
        writes(WrapperModel::Leaf(LeafModel::I32(x)), endian_bytes(x)),
        reads(
            WrapperModel::Leaf(LeafModel::I32(t)),
            endian_bytes(x),
            WrapperModel::Leaf(LeafModel::I32(endian_read(t, x))),
        ),
{
    reveal(leaf_ser);
    reveal(leaf_parse);
    assert forall|offset: int, buf: Seq<u8>|
        0 <= offset && offset + endian_bytes(x).len() <= buf.len() implies #[trigger] wrapper_ser(
        WrapperModel::Leaf(LeafModel::I32(x)),
        offset,
        buf,
    ) == Some(Ok::<Seq<u8>, SOMErrorView>(endian_bytes(x))) by {
        lemma_endian_leaf_of(x, t, offset, buf, buf);
    }
    assert forall|offset: int, data: Seq<u8>|
        0 <= offset && offset + endian_bytes(x).len() <= data.len() && data.subrange(
            offset,
            offset + endian_bytes(x).len(),
        ) == endian_bytes(x) implies #[trigger] wrapper_parse(WrapperModel::Leaf(LeafModel::I32(t)), offset, data)
        == (
        WrapperModel::Leaf(LeafModel::I32(endian_read(t, x))),
        Some(Ok::<nat, SOMErrorView>(endian_bytes(x).len())),
    ) by {
        lemma_endian_leaf_of(x, t, offset, data, data);
    }
}

/// A 64-bit unsigned value (`SOMu64`) that holds a valid value writes its bytes,
/// and a value of the same byte order reads them back.
pub proof fn lemma_leaf_u64(x: SOMu64, t: SOMu64)
    requires
        x.primitive.value matches Some(v) && <u64 as WirePrim>::valid(v),
        t.endian == x.endian,
    ensures
        writes(WrapperModel::Leaf(LeafModel::U64(x)), endian_bytes(x)),
        reads(
            WrapperModel::Leaf(LeafModel::U64(t)),
            endian_bytes(x),
            WrapperModel::Leaf(LeafModel::U64(endian_read(t, x))),
        ),
{
    reveal(leaf_ser);
    reveal(leaf_parse);
    assert forall|offset: int, buf: Seq<u8>|
        0 <= offset && offset + endian_bytes(x).len() <= buf.len() implies #[trigger] wrapper_ser(
        WrapperModel::Leaf(LeafModel::U64(x)),
        offset,
        buf,
    ) == Some(Ok::<Seq<u8>, SOMErrorView>(endian_bytes(x))) by {
        lemma_endian_leaf_of(x, t, offset, buf, buf);
    }
    assert forall|offset: int, data: Seq<u8>|
        0 <= offset && offset + endian_bytes(x).len() <= data.len() && data.subrange(
            offset,
            offset + endian_bytes(x).len(),
        ) == endian_bytes(x) implies #[trigger] wrapper_parse(WrapperModel::Leaf(LeafModel::U64(t)), offset, data)
        == (
        WrapperModel::Leaf(LeafModel::U64(endian_read(t, x))),
        Some(Ok::<nat, SOMErrorView>(endian_bytes(x).len())),
    ) by {
        lemma_endian_leaf_of(x, t, offset, data, data);
    }
}

/// A 64-bit signed value (`SOMi64`) that holds a valid value writes its bytes,
/// and a value of the same byte order reads them back.
pub proof fn lemma_leaf_i64(x: SOMi64, t: SOMi64)
    requires
        x.primitive.value matches Some(v) && <i64 as WirePrim>::valid(v),
        t.endian == x.endian,
    ensures
        writes(WrapperModel::Leaf(LeafModel::I64(x)), endian_bytes(x)),
        reads(
            WrapperModel::Leaf(LeafModel::I64(t)),
            endian_bytes(x),
            WrapperModel::Leaf(LeafModel::I64(endian_read(t, x))),
        ),
{
    reveal(leaf_ser);
    reveal(leaf_parse);
    assert forall|offset: int, buf: Seq<u8>|
        0 <= offset && offset + endian_bytes(x).len() <= buf.len() implies #[trigger] wrapper_ser(
        WrapperModel::Leaf(LeafModel::I64(x)),
        offset,
        buf,
    ) == Some(Ok::<Seq<u8>, SOMErrorView>(endian_bytes(x))) by {
        lemma_endian_leaf_of(x, t, offset, buf, buf);
    }
    assert forall|offset: int, data: Seq<u8>|
        0 <= offset && offset + endian_bytes(x).len() <= data.len() && data.subrange(
            offset,
            offset + endian_bytes(x).len(),
        ) == endian_bytes(x) implies #[trigger] wrapper_parse(WrapperModel::Leaf(LeafModel::I64(t)), offset, data)
        == (
        WrapperModel::Leaf(LeafModel::I64(endian_read(t, x))),
        Some(Ok::<nat, SOMErrorView>(endian_bytes(x).len())),
    ) by {
        lemma_endian_leaf_of(x, t, offset, data, data);
    }
}

/// A 32-bit floating point value (`SOMf32`) that holds a valid value writes its bytes,
/// and a value of the same byte order reads them back.
pub proof fn lemma_leaf_f32(x: SOMf32, t: SOMf32)
    requires
        x.primitive.value matches Some(v) && <F32 as WirePrim>::valid(v),
        t.endian == x.endian,
    ensures
        writes(WrapperModel::Leaf(LeafModel::F32(x)), endian_bytes(x)),
        reads(
            WrapperModel::Leaf(LeafModel::F32(t)),
            endian_bytes(x),
            WrapperModel::Leaf(LeafModel::F32(endian_read(t, x))),
        ),
{
    reveal(leaf_ser);
    reveal(leaf_parse);
    assert forall|offset: int, buf: Seq<u8>|
        0 <= offset && offset + endian_bytes(x).len() <= buf.len() implies #[trigger] wrapper_ser(
        WrapperModel::Leaf(LeafModel::F32(x)),
        offset,
        buf,
    ) == Some(Ok::<Seq<u8>, SOMErrorView>(endian_bytes(x))) by {
        lemma_endian_leaf_of(x, t, offset, buf, buf);
    }
    assert forall|offset: int, data: Seq<u8>|
        0 <= offset && offset + endian_bytes(x).len() <= data.len() && data.subrange(
            offset,
            offset + endian_bytes(x).len(),
        ) == endian_bytes(x) implies #[trigger] wrapper_parse(WrapperModel::Leaf(LeafModel::F32(t)), offset, data)
        == (
        WrapperModel::Leaf(LeafModel::F32(endian_read(t, x))),
        Some(Ok::<nat, SOMErrorView>(endian_bytes(x).len())),
    ) by {
        lemma_endian_leaf_of(x, t, offset, data, data);
    }
}

/// A 64-bit floating point value (`SOMf64`) that holds a valid value writes its bytes,
/// and a value of the same byte order reads them back.
pub proof fn lemma_leaf_f64(x: SOMf64, t: SOMf64)
    requires
        x.primitive.value matches Some(v) && <F64 as WirePrim>::valid(v),
        t.endian == x.endian,
    ensures
        writes(WrapperModel::Leaf(LeafModel::F64(x)), endian_bytes(x)),
        reads(
            WrapperModel::Leaf(LeafModel::F64(t)),
            endian_bytes(x),
            WrapperModel::Leaf(LeafModel::F64(endian_read(t, x))),
        ),
{
    reveal(leaf_ser);
    reveal(leaf_parse);
    assert forall|offset: int, buf: Seq<u8>|
        0 <= offset && offset + endian_bytes(x).len() <= buf.len() implies #[trigger] wrapper_ser(
        WrapperModel::Leaf(LeafModel::F64(x)),
        offset,
        buf,
    ) == Some(Ok::<Seq<u8>, SOMErrorView>(endian_bytes(x))) by {
        lemma_endian_leaf_of(x, t, offset, buf, buf);
    }
    assert forall|offset: int, data: Seq<u8>|
        0 <= offset && offset + endian_bytes(x).len() <= data.len() && data.subrange(
            offset,
            offset + endian_bytes(x).len(),
        ) == endian_bytes(x) implies #[trigger] wrapper_parse(WrapperModel::Leaf(LeafModel::F64(t)), offset, data)
        == (
        WrapperModel::Leaf(LeafModel::F64(endian_read(t, x))),
        Some(Ok::<nat, SOMErrorView>(endian_bytes(x).len())),
    ) by {
        lemma_endian_leaf_of(x, t, offset, data, data);
    }
}

/// A boolean value (`SOMBool`) that holds a valid value writes its bytes,
/// and a value of the same type reads them back.
pub proof fn lemma_leaf_bool(x: SOMBool, t: SOMBool)
    requires
        x.value matches Some(v) && <bool as WirePrim>::valid(v),
    ensures
        writes(WrapperModel::Leaf(LeafModel::Bool(x)), plain_bytes(x)),
        reads(
            WrapperModel::Leaf(LeafModel::Bool(t)),
            plain_bytes(x),
            WrapperModel::Leaf(LeafModel::Bool(plain_read(t, x))),
        ),
{
    reveal(leaf_ser);
    reveal(leaf_parse);
    assert forall|offset: int, buf: Seq<u8>|
        0 <= offset && offset + plain_bytes(x).len() <= buf.len() implies #[trigger] wrapper_ser(
        WrapperModel::Leaf(LeafModel::Bool(x)),
        offset,
        buf,
    ) == Some(Ok::<Seq<u8>, SOMErrorView>(plain_bytes(x))) by {
        lemma_plain_leaf_of(x, t, offset, buf, buf);
    }
    assert forall|offset: int, data: Seq<u8>|
        0 <= offset && offset + plain_bytes(x).len() <= data.len() && data.subrange(
            offset,
            offset + plain_bytes(x).len(),
        ) == plain_bytes(x) implies #[trigger] wrapper_parse(WrapperModel::Leaf(LeafModel::Bool(t)), offset, data)
        == (
        WrapperModel::Leaf(LeafModel::Bool(plain_read(t, x))),
        Some(Ok::<nat, SOMErrorView>(plain_bytes(x).len())),
    ) by {
        lemma_plain_leaf_of(x, t, offset, data, data);
    }
}

/// A 8-bit unsigned value (`SOMu8`) that holds a valid value writes its bytes,
/// and a value of the same type reads them back.
pub proof fn lemma_leaf_u8(x: SOMu8, t: SOMu8)
    requires
        x.value matches Some(v) && <u8 as WirePrim>::valid(v),
    ensures
        writes(WrapperModel::Leaf(LeafModel::U8(x)), plain_bytes(x)),
        reads(
            WrapperModel::Leaf(LeafModel::U8(t)),
            plain_bytes(x),
            WrapperModel::Leaf(LeafModel::U8(plain_read(t, x))),
        ),
{
    reveal(leaf_ser);
    reveal(leaf_parse);
    assert forall|offset: int, buf: Seq<u8>|
        0 <= offset && offset + plain_bytes(x).len() <= buf.len() implies #[trigger] wrapper_ser(
        WrapperModel::Leaf(LeafModel::U8(x)),
        offset,
        buf,
    ) == Some(Ok::<Seq<u8>, SOMErrorView>(plain_bytes(x))) by {
        lemma_plain_leaf_of(x, t, offset, buf, buf);
    }
    assert forall|offset: int, data: Seq<u8>|
        0 <= offset && offset + plain_bytes(x).len() <= data.len() && data.subrange(
            offset,
            offset + plain_bytes(x).len(),
        ) == plain_bytes(x) implies #[trigger] wrapper_parse(WrapperModel::Leaf(LeafModel::U8(t)), offset, data)
        == (
        WrapperModel::Leaf(LeafModel::U8(plain_read(t, x))),
        Some(Ok::<nat, SOMErrorView>(plain_bytes(x).len())),
    ) by {
        lemma_plain_leaf_of(x, t, offset, data, data);
    }
}

/// A 8-bit signed value (`SOMi8`) that holds a valid value writes its bytes,
/// and a value of the same type reads them back.
pub proof fn lemma_leaf_i8(x: SOMi8, t: SOMi8)
    requires
        x.value matches Some(v) && <i8 as WirePrim>::valid(v),
    ensures
        writes(WrapperModel::Leaf(LeafModel::I8(x)), plain_bytes(x)),
        reads(
            WrapperModel::Leaf(LeafModel::I8(t)),
            plain_bytes(x),
            WrapperModel::Leaf(LeafModel::I8(plain_read(t, x))),
        ),
{
    reveal(leaf_ser);
    reveal(leaf_parse);
    assert forall|offset: int, buf: Seq<u8>|
        0 <= offset && offset + plain_bytes(x).len() <= buf.len() implies #[trigger] wrapper_ser(
        WrapperModel::Leaf(LeafModel::I8(x)),
        offset,
        buf,
    ) == Some(Ok::<Seq<u8>, SOMErrorView>(plain_bytes(x))) by {
        lemma_plain_leaf_of(x, t, offset, buf, buf);
    }
    assert forall|offset: int, data: Seq<u8>|
        0 <= offset && offset + plain_bytes(x).len() <= data.len() && data.subrange(
            offset,
            offset + plain_bytes(x).len(),
        ) == plain_bytes(x) implies #[trigger] wrapper_parse(WrapperModel::Leaf(LeafModel::I8(t)), offset, data)
        == (
        WrapperModel::Leaf(LeafModel::I8(plain_read(t, x))),
        Some(Ok::<nat, SOMErrorView>(plain_bytes(x).len())),
    ) by {
        lemma_plain_leaf_of(x, t, offset, data, data);
    }
}

/// Whether a type field can hold the number `n`.
pub open spec fn typefield_holds(tf: SOMTypeField, n: nat) -> bool {
    match tf {
        SOMTypeField::U8 => n < 0x100,
        SOMTypeField::U16 => n < 0x1_0000,
        SOMTypeField::U32 => n < 0x1_0000_0000,
    }
}

/// A type field that holds `n`, written at `offset`, is read back.
proof fn lemma_typefield_roundtrip(tf: SOMTypeField, n: nat, data: Seq<u8>, offset: int)
    requires
        typefield_holds(tf, n),
        0 <= offset,
        offset + typefield_size(tf) <= data.len(),
        data.subrange(offset, offset + typefield_size(tf)) == typefield_bytes(tf, n),
    ensures
        typefield_value(tf, data, offset) == n,
{
    match tf {
        SOMTypeField::U8 => {
            assert(data[offset] == data.subrange(offset, offset + 1)[0]);
        },
        SOMTypeField::U16 => {
            lemma_be16_roundtrip(n as u16);
        },
        SOMTypeField::U32 => {
            lemma_be32_roundtrip(n as u32);
        },
    }
}

/// The length of the bytes of a type field.
proof fn lemma_typefield_bytes_len(tf: SOMTypeField, n: nat)
    ensures
        typefield_bytes(tf, n).len() == typefield_size(tf),
{
}

/// A union whose selected variant writes some bytes writes its type field
/// (the position of the variant, from one) and then those bytes; a union of
/// as many variants whose target for that variant reads the bytes back
/// reads them all back: it selects the same variant, which becomes what it
/// reads, the other variants and the name staying as they are.
pub proof fn lemma_union_roundtrip(um: UnionModel, target: UnionModel, after: WrapperModel, b: Seq<u8>)
    requires
        0 < um.index <= um.variants.len(),
        typefield_holds(um.typefield, um.index),
        writes(um.variants[um.index - 1], b),
        target.typefield == um.typefield,
        target.variants.len() == um.variants.len(),
        reads(target.variants[um.index - 1], b, after),
    ensures
        writes(WrapperModel::Union(um), typefield_bytes(um.typefield, um.index) + b),
        reads(
            WrapperModel::Union(target),
            typefield_bytes(um.typefield, um.index) + b,
            WrapperModel::Union(
                UnionModel { index: um.index, variants: target.variants.update(um.index - 1, after), ..target },
            ),
        ),
{
    let tb = typefield_bytes(um.typefield, um.index);
    let k = typefield_size(um.typefield) as int;
    lemma_typefield_bytes_len(um.typefield, um.index);
    assert forall|offset: int, buf: Seq<u8>|
        0 <= offset && offset + (tb + b).len() <= buf.len() implies #[trigger] wrapper_ser(
        WrapperModel::Union(um),
        offset,
        buf,
    ) == Some(Ok::<Seq<u8>, SOMErrorView>(tb + b)) by {
        let buf1 = overwrite(buf, offset, tb);
        assert(buf1.len() == buf.len());
        assert(wrapper_ser(um.variants[um.index - 1], offset + k, buf1) == Some(Ok::<Seq<u8>, SOMErrorView>(b)));
    }
    assert forall|offset: int, data: Seq<u8>|
        0 <= offset && offset + (tb + b).len() <= data.len() && data.subrange(offset, offset + (tb + b).len())
            == tb + b implies #[trigger] wrapper_parse(WrapperModel::Union(target), offset, data) == (
        WrapperModel::Union(
            UnionModel { index: um.index, variants: target.variants.update(um.index - 1, after), ..target },
        ),
        Some(Ok::<nat, SOMErrorView>((tb + b).len())),
    ) by {
        assert(data.subrange(offset, offset + k) =~= tb) by {
            assert(data.subrange(offset, offset + k) =~= data.subrange(offset, offset + (tb + b).len()).subrange(0, k));
        }
        assert(data.subrange(offset + k, offset + k + b.len()) =~= b) by {
            assert(data.subrange(offset + k, offset + k + b.len()) =~= data.subrange(
                offset,
                offset + (tb + b).len(),
            ).subrange(k, k + b.len()));
        }
        lemma_typefield_roundtrip(um.typefield, um.index, data, offset);
        assert(wrapper_parse(target.variants[um.index - 1], offset + k, data) == (after, Some(Ok::<nat, SOMErrorView>(b.len()))));
    }
}

/// An array whose elements each write some bytes writes its length field
/// (where its length may vary: the number of those bytes) and then the
/// bytes one after the other; an array of the same length field, bounds
/// and number of elements whose element targets each read those bytes back
/// reads them all back, each element becoming what it reads. The array's
/// number of elements lies within its bounds; where its length may vary,
/// its length field holds the number of bytes of its elements, and where it
/// may not, it has no length field.
pub proof fn lemma_wrapper_array_roundtrip(
    am: ArrayModel<WrapperModel>,
    target: ArrayModel<WrapperModel>,
    afters: Seq<WrapperModel>,
    bs: Seq<Seq<u8>>,
)
    requires
        array_length_ok(am),
        am.elements.len() == bs.len(),
        forall|j: int| 0 <= j < bs.len() ==> writes(#[trigger] am.elements[j], bs[j]),
        array_dynamic(am) ==> lengthfield_holds(am.lengthfield, chunks_flat(bs).len()),
        !array_dynamic(am) ==> am.lengthfield == SOMLengthField::NoField,
        target.lengthfield == am.lengthfield,
        target.min == am.min,
        target.max == am.max,
        target.elements.len() == bs.len(),
        afters.len() == bs.len(),
        forall|j: int| 0 <= j < bs.len() ==> reads(#[trigger] target.elements[j], bs[j], afters[j]),
    ensures
        writes(
            WrapperModel::Array(am),
            lengthfield_bytes(am.lengthfield, chunks_flat(bs).len()) + chunks_flat(bs),
        ),
        reads(
            WrapperModel::Array(target),
            lengthfield_bytes(am.lengthfield, chunks_flat(bs).len()) + chunks_flat(bs),
            WrapperModel::Array(ArrayModel { elements: afters, ..target }),
        ),
{
    let f = chunks_flat(bs);
    let lf = lengthfield_bytes(am.lengthfield, f.len());
    let k = lengthfield_size(am.lengthfield) as int;
    lemma_lengthfield_bytes_len(am.lengthfield, f.len());
    assert(bs.skip(0) =~= bs);
    assert forall|offset: int, buf: Seq<u8>|
        0 <= offset && offset + (lf + f).len() <= buf.len() implies #[trigger] wrapper_ser(
        WrapperModel::Array(am),
        offset,
        buf,
    ) == Some(Ok::<Seq<u8>, SOMErrorView>(lf + f)) by {
        lemma_welems_writes(am.elements, bs, 0, offset + k, buf);
        if !array_dynamic(am) {
            assert(buf.subrange(offset, offset + k) =~= lf);
        }
    }
    assert forall|offset: int, data: Seq<u8>|
        0 <= offset && offset + (lf + f).len() <= data.len() && data.subrange(offset, offset + (lf + f).len())
            == lf + f implies #[trigger] wrapper_parse(WrapperModel::Array(target), offset, data) == (
        WrapperModel::Array(ArrayModel { elements: afters, ..target }),
        Some(Ok::<nat, SOMErrorView>((lf + f).len())),
    ) by {
        assert(data.subrange(offset, offset + k) =~= lf) by {
            assert(data.subrange(offset, offset + k) =~= data.subrange(offset, offset + (lf + f).len()).subrange(0, k));
        }
        assert(data.subrange(offset + k, offset + k + f.len()) =~= f) by {
            assert(data.subrange(offset + k, offset + k + f.len()) =~= data.subrange(
                offset,
                offset + (lf + f).len(),
            ).subrange(k, k + f.len()));
        }
        if array_dynamic(am) {
            lemma_lengthfield_roundtrip(am.lengthfield, f.len(), data, offset);
        }
        lemma_welems_reads(target.elements, target.elements, afters, bs, 0, offset + k, data);
        assert(target.elements.take(0) + afters.skip(0) =~= afters);
    }
}

/// A UTF-8 string whose length may vary, of a text that does not end in a
/// NUL character and of a length within its bounds that its length field
/// holds, writes its length field and its byte order mark, text and
/// termination; a string of the same length field, encoding, format and
/// bounds reads them back and gets the text.
pub proof fn lemma_leaf_utf8_string(m: StringModel, t: StringModel)
    requires
        m.encoding == SOMStringEncoding::Utf8,
        string_dynamic(m),
        string_length_ok(m),
        !(m.value.len() > 0 && m.value.last() == '\0'),
        lengthfield_holds(m.lengthfield, string_len(m, m.value)),
        t.lengthfield == m.lengthfield,
        t.encoding == m.encoding,
        t.format == m.format,
        t.min == m.min,
        t.max == m.max,
    ensures
        writes(
            WrapperModel::Leaf(LeafModel::String(m)),
            lengthfield_bytes(m.lengthfield, utf8_string_bytes(m).len()) + utf8_string_bytes(m),
        ),
        reads(
            WrapperModel::Leaf(LeafModel::String(t)),
            lengthfield_bytes(m.lengthfield, utf8_string_bytes(m).len()) + utf8_string_bytes(m),
            WrapperModel::Leaf(LeafModel::String(StringModel { value: m.value, ..t })),
        ),
{
    reveal(leaf_ser);
    reveal(leaf_parse);
    let b = utf8_string_bytes(m);
    let bytes = lengthfield_bytes(m.lengthfield, b.len()) + b;
    lemma_lengthfield_bytes_len(m.lengthfield, b.len());
    assert forall|offset: int, buf: Seq<u8>|
        0 <= offset && offset + bytes.len() <= buf.len() implies #[trigger] wrapper_ser(
        WrapperModel::Leaf(LeafModel::String(m)),
        offset,
        buf,
    ) == Some(Ok::<Seq<u8>, SOMErrorView>(bytes)) by {
        lemma_utf8_string_ser(m, offset, buf);
    }
    assert forall|offset: int, data: Seq<u8>|
        0 <= offset && offset + bytes.len() <= data.len() && data.subrange(offset, offset + bytes.len()) == bytes
            implies #[trigger] wrapper_parse(WrapperModel::Leaf(LeafModel::String(t)), offset, data) == (
        WrapperModel::Leaf(LeafModel::String(StringModel { value: m.value, ..t })),
        Some(Ok::<nat, SOMErrorView>(bytes.len())),
    ) by {
        lemma_utf8_string_ser(m, 0, bytes);
        lemma_utf8_string_parse(m, t, offset, data);
    }
}

/// A UTF-16 string whose length may vary, of a text that does not end in a
/// NUL character and whose code units decode to it, of a length within its
/// bounds, whose bytes its length field holds, writes its length field and
/// its byte order mark, code units and termination; a string of the same
/// length field, encoding, format and bounds reads them back and gets the
/// text.
pub proof fn lemma_leaf_utf16_string(m: StringModel, t: StringModel)
    requires
        m.encoding != SOMStringEncoding::Utf8,
        string_dynamic(m),
        string_length_ok(m),
        !(m.value.len() > 0 && m.value.last() == '\0'),
        lengthfield_holds(m.lengthfield, utf16_string_bytes(m).len()),
        t.lengthfield == m.lengthfield,
        t.encoding == m.encoding,
        t.format == m.format,
        t.min == m.min,
        t.max == m.max,
    ensures
        writes(
            WrapperModel::Leaf(LeafModel::String(m)),
            lengthfield_bytes(m.lengthfield, utf16_string_bytes(m).len()) + utf16_string_bytes(m),
        ),
        reads(
            WrapperModel::Leaf(LeafModel::String(t)),
            lengthfield_bytes(m.lengthfield, utf16_string_bytes(m).len()) + utf16_string_bytes(m),
            WrapperModel::Leaf(LeafModel::String(StringModel { value: m.value, ..t })),
        ),
{
    lemma_utf16_text_units(m.value);
    reveal(leaf_ser);
    reveal(leaf_parse);
    let b = utf16_string_bytes(m);
    let bytes = lengthfield_bytes(m.lengthfield, b.len()) + b;
    lemma_lengthfield_bytes_len(m.lengthfield, b.len());
    assert forall|offset: int, buf: Seq<u8>|
        0 <= offset && offset + bytes.len() <= buf.len() implies #[trigger] wrapper_ser(
        WrapperModel::Leaf(LeafModel::String(m)),
        offset,
        buf,
    ) == Some(Ok::<Seq<u8>, SOMErrorView>(bytes)) by {
        lemma_utf16_string_ser(m, offset, buf);
    }
    assert forall|offset: int, data: Seq<u8>|
        0 <= offset && offset + bytes.len() <= data.len() && data.subrange(offset, offset + bytes.len()) == bytes
            implies #[trigger] wrapper_parse(WrapperModel::Leaf(LeafModel::String(t)), offset, data) == (
        WrapperModel::Leaf(LeafModel::String(StringModel { value: m.value, ..t })),
        Some(Ok::<nat, SOMErrorView>(bytes.len())),
    ) by {
        lemma_utf16_string_parse(m, t, offset, data);
    }
}

/// A UTF-8 string of fixed size that a word can count, of a text that does
/// not end in a NUL character and that fits its size, writes its byte order
/// mark, text and termination, then zero bytes up to its size; a string of
/// the same encoding, format and size reads them back and gets the text.
pub proof fn lemma_leaf_fixed_utf8_string(m: StringModel, t: StringModel)
    requires
        m.encoding == SOMStringEncoding::Utf8,
        !string_dynamic(m),
        m.max <= usize::MAX,
        string_length_ok(m),
        !(m.value.len() > 0 && m.value.last() == '\0'),
        t.lengthfield == m.lengthfield,
        t.encoding == m.encoding,
        t.format == m.format,
        t.min == m.min,
        t.max == m.max,
    ensures
        writes(
            WrapperModel::Leaf(LeafModel::String(m)),
            utf8_string_bytes(m) + zeros((m.max - utf8_string_bytes(m).len()) as nat),
        ),
        reads(
            WrapperModel::Leaf(LeafModel::String(t)),
            utf8_string_bytes(m) + zeros((m.max - utf8_string_bytes(m).len()) as nat),
            WrapperModel::Leaf(LeafModel::String(StringModel { value: m.value, ..t })),
        ),
{
    reveal(leaf_ser);
    reveal(leaf_parse);
    let b = utf8_string_bytes(m);
    let bytes = b + zeros((m.max - b.len()) as nat);
    lemma_fixed_utf8_string_ser(m, 0, bytes);
    assert(bytes.len() == m.max);
    assert forall|offset: int, buf: Seq<u8>|
        0 <= offset && offset + bytes.len() <= buf.len() implies #[trigger] wrapper_ser(
        WrapperModel::Leaf(LeafModel::String(m)),
        offset,
        buf,
    ) == Some(Ok::<Seq<u8>, SOMErrorView>(bytes)) by {
        lemma_fixed_utf8_string_ser(m, offset, buf);
    }
    assert forall|offset: int, data: Seq<u8>|
        0 <= offset && offset + bytes.len() <= data.len() && data.subrange(offset, offset + bytes.len()) == bytes
            implies #[trigger] wrapper_parse(WrapperModel::Leaf(LeafModel::String(t)), offset, data) == (
        WrapperModel::Leaf(LeafModel::String(StringModel { value: m.value, ..t })),
        Some(Ok::<nat, SOMErrorView>(bytes.len())),
    ) by {
        lemma_fixed_utf8_string_parse(m, t, offset, data);
    }
}

/// A UTF-16 string of fixed size that a word can count, of a text that does
/// not end in a NUL character and whose code units fit its size, writes its
/// byte order mark, code units and termination, then zero bytes up to its
/// size; a string of the same encoding, format and size reads them back and
/// gets the text.
pub proof fn lemma_leaf_fixed_utf16_string(m: StringModel, t: StringModel)
    requires
        m.encoding != SOMStringEncoding::Utf8,
        !string_dynamic(m),
        2 * m.max <= usize::MAX,
        string_length_ok(m),
        !(m.value.len() > 0 && m.value.last() == '\0'),
        utf16_string_bytes(m).len() <= 2 * m.max,
        t.lengthfield == m.lengthfield,
        t.encoding == m.encoding,
        t.format == m.format,
        t.min == m.min,
        t.max == m.max,
    ensures
        writes(
            WrapperModel::Leaf(LeafModel::String(m)),
            utf16_string_bytes(m) + zeros((2 * m.max - utf16_string_bytes(m).len()) as nat),
        ),
        reads(
            WrapperModel::Leaf(LeafModel::String(t)),
            utf16_string_bytes(m) + zeros((2 * m.max - utf16_string_bytes(m).len()) as nat),
            WrapperModel::Leaf(LeafModel::String(StringModel { value: m.value, ..t })),
        ),
{
    lemma_utf16_nul_texts(m.value);
    reveal(leaf_ser);
    reveal(leaf_parse);
    let b = utf16_string_bytes(m);
    let bytes = b + zeros((2 * m.max - b.len()) as nat);
    assert(bytes.len() == 2 * m.max);
    assert(crate::som_strings::char_size(m.encoding) * m.max == 2 * m.max);
    assert forall|offset: int, buf: Seq<u8>|
        0 <= offset && offset + bytes.len() <= buf.len() implies #[trigger] wrapper_ser(
        WrapperModel::Leaf(LeafModel::String(m)),
        offset,
        buf,
    ) == Some(Ok::<Seq<u8>, SOMErrorView>(bytes)) by {
        lemma_fixed_utf16_string_ser(m, offset, buf);
    }
    assert forall|offset: int, data: Seq<u8>|
        0 <= offset && offset + bytes.len() <= data.len() && data.subrange(offset, offset + bytes.len()) == bytes
            implies #[trigger] wrapper_parse(WrapperModel::Leaf(LeafModel::String(t)), offset, data) == (
        WrapperModel::Leaf(LeafModel::String(StringModel { value: m.value, ..t })),
        Some(Ok::<nat, SOMErrorView>(bytes.len())),
    ) by {
        lemma_fixed_utf16_string_parse(m, t, offset, data);
    }
}

} // verus!
