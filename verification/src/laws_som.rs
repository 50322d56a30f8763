//! Laws of the payload type system: what parsing gives back of what
//! serializing writes.

use crate::bytes::{lemma_be16_roundtrip, lemma_be32_roundtrip};
use crate::som::{
    lengthfield_bytes, lengthfield_size, lengthfield_value, overwrite, SOMEndian, SOMLengthField,
    SOMType,
};
use crate::som_arrays::{array_dynamic, array_length_ok, array_parse, array_ser, elems_parse, elems_ser, ArrayModel};
use crate::som_enums::{enum_parse, enum_ser, first_value_index, SOMEnumType};
use crate::som_primitives::{SOMPrimitiveType, SOMPrimitiveTypeWithEndian, WirePrim};
use vstd::prelude::*;

verus! {

/// A primitive value with a byte order, written at `offset` into a buffer
/// with room for it, is read back from there by a value of the same byte
/// order: the value read is the value written, and as many bytes are read
/// as were written.
pub proof fn lemma_primitive_roundtrip<T: WirePrim>(
    m: SOMPrimitiveTypeWithEndian<T>,
    target: SOMPrimitiveTypeWithEndian<T>,
    offset: int,
    buf: Seq<u8>,
)
    requires
        m.primitive.value matches Some(v) && T::valid(v),
        target.endian == m.endian,
        0 <= offset,
        offset + T::width() <= buf.len(),
    ensures
        <SOMPrimitiveTypeWithEndian<T> as SOMType>::ser_spec(m, offset, buf) matches Ok(bytes) && {
            let (after, r) = <SOMPrimitiveTypeWithEndian<T> as SOMType>::parse_spec(
                target,
                offset,
                overwrite(buf, offset, bytes),
            );
            &&& bytes.len() == T::width()
            &&& after.primitive.value == m.primitive.value
            &&& after.primitive.meta == target.primitive.meta
            &&& after.endian == target.endian
            &&& r == Ok::<nat, crate::som::SOMErrorView>(T::width())
        },
{
    let v = m.primitive.value->0;
    T::lemma_roundtrip(v, m.endian);
    let bytes = T::encode(v, m.endian);
    let data = overwrite(buf, offset, bytes);
    assert(data.subrange(offset, offset + T::width()) =~= bytes);
}

/// A primitive value without byte order (in big endian), written at
/// `offset` into a buffer with room for it, is read back from there.
pub proof fn lemma_plain_primitive_roundtrip<T: WirePrim>(
    m: SOMPrimitiveType<T>,
    target: SOMPrimitiveType<T>,
    offset: int,
    buf: Seq<u8>,
)
    requires
        m.value matches Some(v) && T::valid(v),
        0 <= offset,
        offset + T::width() <= buf.len(),
    ensures
        <SOMPrimitiveType<T> as SOMType>::ser_spec(m, offset, buf) matches Ok(bytes) && {
            let (after, r) = <SOMPrimitiveType<T> as SOMType>::parse_spec(
                target,
                offset,
                overwrite(buf, offset, bytes),
            );
            &&& bytes.len() == T::width()
            &&& after.value == m.value
            &&& after.meta == target.meta
            &&& r == Ok::<nat, crate::som::SOMErrorView>(T::width())
        },
{
    let v = m.value->0;
    T::lemma_roundtrip(v, SOMEndian::Big);
    let bytes = T::encode(v, SOMEndian::Big);
    let data = overwrite(buf, offset, bytes);
    assert(data.subrange(offset, offset + T::width()) =~= bytes);
}

/// An enumeration with an item selected, written at `offset` into a buffer
/// with room for it, is read back by an enumeration of the same items: the
/// same item is selected, where no item before it has its value (as no two
/// items of an enumeration built by `add` do).
#[verifier::rlimit(40)]
pub proof fn lemma_enum_roundtrip<T: WirePrim>(
    e: SOMEnumType<T>,
    target: SOMEnumType<T>,
    endian: SOMEndian,
    offset: int,
    buf: Seq<u8>,
)
    requires
        e.selected() matches Some(item) && T::valid(item.spec_value()) && first_value_index(
            e.spec_variants(),
            item.spec_value(),
        ) == Some(e.spec_index() - 1),
        target.spec_variants() == e.spec_variants(),
        0 <= offset,
        offset + T::width() <= buf.len(),
    ensures
        enum_ser(e, endian, offset, buf) matches Ok(bytes) && {
            let (after, r) = enum_parse(target, endian, offset, overwrite(buf, offset, bytes));
            &&& bytes.len() == T::width()
            &&& after.spec_index() == e.spec_index()
            &&& after.spec_variants() == e.spec_variants()
            &&& after.spec_meta() == target.spec_meta()
            &&& r == Ok::<nat, crate::som::SOMErrorView>(T::width())
        },
{
    let item = e.selected()->0;
    let v = item.spec_value();
    T::lemma_roundtrip(v, endian);
    let bytes = T::encode(v, endian);
    let data = overwrite(buf, offset, bytes);
    assert(data.subrange(offset, offset + T::width()) =~= bytes);
    e.lemma_with_index(0);
    target.lemma_with_index(e.spec_index() as nat);
}

/// Whether a length field can hold the number `n`: a missing one holds 0
/// only.
pub open spec fn lengthfield_holds(lf: SOMLengthField, n: nat) -> bool {
    match lf {
        SOMLengthField::NoField => n == 0,
        SOMLengthField::U8 => n < 0x100,
        SOMLengthField::U16 => n < 0x1_0000,
        SOMLengthField::U32 => n < 0x1_0000_0000,
    }
}

/// A length field that holds `n`, written at `offset`, is read back.
pub proof fn lemma_lengthfield_roundtrip(lf: SOMLengthField, n: nat, data: Seq<u8>, offset: int)
    requires
        lengthfield_holds(lf, n),
        0 <= offset,
        offset + lengthfield_size(lf) <= data.len(),
        data.subrange(offset, offset + lengthfield_size(lf)) == lengthfield_bytes(lf, n),
    ensures
        lengthfield_value(lf, data, offset) == n,
{
    match lf {
        SOMLengthField::NoField => {},
        SOMLengthField::U8 => {
            assert(data[offset] == data.subrange(offset, offset + 1)[0]);
        },
        SOMLengthField::U16 => {
            lemma_be16_roundtrip(n as u16);
        },
        SOMLengthField::U32 => {
            lemma_be32_roundtrip(n as u32);
        },
    }
}

/// The bytes of primitive values, from the `i`-th on, one after the other.
pub open spec fn prims_bytes<T: WirePrim>(ms: Seq<SOMPrimitiveTypeWithEndian<T>>, i: int) -> Seq<u8>
    decreases ms.len() - i,
{
    if i < 0 || i >= ms.len() {
        seq![]
    } else {
        match ms[i].primitive.value {
            Some(v) => T::encode(v, ms[i].endian) + prims_bytes(ms, i + 1),
            None => prims_bytes(ms, i + 1),
        }
    }
}

/// Primitive values that all hold a valid value.
pub open spec fn prims_valid<T: WirePrim>(ms: Seq<SOMPrimitiveTypeWithEndian<T>>) -> bool {
    forall|j: int| 0 <= j < ms.len() ==> ((#[trigger] ms[j]).primitive.value matches Some(v) && T::valid(v))
}

/// Writing the values from the `i`-th on writes their bytes, where there is
/// room for them.
proof fn lemma_elems_ser_prims<T: WirePrim>(ms: Seq<SOMPrimitiveTypeWithEndian<T>>, i: int, off: int, buf: Seq<u8>)
    requires
        0 <= i <= ms.len(),
        prims_valid(ms),
        0 <= off,
        off + (ms.len() - i) * T::width() <= buf.len(),
    ensures
        elems_ser::<SOMPrimitiveTypeWithEndian<T>>(ms, i, off, buf) == Ok::<Seq<u8>, crate::som::SOMErrorView>(prims_bytes(ms, i)),
        prims_bytes(ms, i).len() == (ms.len() - i) * T::width(),
    decreases ms.len() - i,
{
    if i < ms.len() {
        let v = ms[i].primitive.value->0;
        assert(ms[i].primitive.value matches Some(x) && T::valid(x));
        T::lemma_roundtrip(v, ms[i].endian);
        let b = T::encode(v, ms[i].endian);
        let w = T::width() as int;
        assert((ms.len() - i) * w == (ms.len() - (i + 1)) * w + w) by (nonlinear_arith);
        assert((ms.len() - (i + 1)) * w >= 0) by (nonlinear_arith)
            requires
                ms.len() - (i + 1) >= 0,
                w >= 0,
        ;
        let buf2 = overwrite(buf, off, b);
        assert(buf2.len() == buf.len());
        lemma_elems_ser_prims(ms, i + 1, off + w, buf2);
        assert(prims_bytes(ms, i) == b + prims_bytes(ms, i + 1));
    } else {
        assert((ms.len() - i) * T::width() == 0) by (nonlinear_arith)
            requires
                ms.len() - i == 0,
        ;
    }
}

/// Reading the bytes of the values from the `i`-th on into targets of the
/// same byte orders gives back the values, each target keeping its name.
proof fn lemma_elems_parse_prims<T: WirePrim>(
    ms: Seq<SOMPrimitiveTypeWithEndian<T>>,
    ts: Seq<SOMPrimitiveTypeWithEndian<T>>,
    i: int,
    off: int,
    data: Seq<u8>,
)
    requires
        0 <= i <= ms.len(),
        ms.len() == ts.len(),
        prims_valid(ms),
        forall|j: int| 0 <= j < ms.len() ==> (#[trigger] ts[j]).endian == ms[j].endian,
        0 <= off,
        prims_bytes(ms, i).len() == (ms.len() - i) * T::width(),
        off + prims_bytes(ms, i).len() <= data.len(),
        data.subrange(off, off + prims_bytes(ms, i).len()) == prims_bytes(ms, i),
    ensures
        ({
            let (ts2, r) = elems_parse::<SOMPrimitiveTypeWithEndian<T>>(ts, i, off, data);
            &&& r == Ok::<nat, crate::som::SOMErrorView>(prims_bytes(ms, i).len())
            &&& ts2.len() == ts.len()
            &&& forall|j: int| 0 <= j < i ==> #[trigger] ts2[j] == ts[j]
            &&& forall|j: int|
                i <= j < ts.len() ==> (#[trigger] ts2[j]).primitive.value == ms[j].primitive.value
                    && ts2[j].primitive.meta == ts[j].primitive.meta && ts2[j].endian == ts[j].endian
        }),
    decreases ms.len() - i,
{
    if i < ms.len() {
        let v = ms[i].primitive.value->0;
        assert(ms[i].primitive.value matches Some(x) && T::valid(x));
        T::lemma_roundtrip(v, ms[i].endian);
        let b = T::encode(v, ms[i].endian);
        let w = T::width() as int;
        let rest = prims_bytes(ms, i + 1);
        assert(prims_bytes(ms, i) == b + rest);
        assert(rest.len() == (ms.len() - (i + 1)) * w) by (nonlinear_arith)
            requires
                b.len() == w,
                b.len() + rest.len() == (ms.len() - i) * w,
        ;
        assert(data.subrange(off, off + w) =~= b) by {
            assert(data.subrange(off, off + w) =~= data.subrange(off, off + prims_bytes(ms, i).len()).subrange(0, w));
        }
        assert(data.subrange(off + w, off + w + rest.len()) =~= rest) by {
            assert(data.subrange(off + w, off + w + rest.len()) =~= data.subrange(
                off,
                off + prims_bytes(ms, i).len(),
            ).subrange(w, w + rest.len()));
        }
        let (m0, r0) = <SOMPrimitiveTypeWithEndian<T> as SOMType>::parse_spec(ts[i], off, data);
        assert(r0 == Ok::<nat, crate::som::SOMErrorView>(T::width()));
        let ts1 = ts.update(i, m0);
        assert forall|j: int| 0 <= j < ms.len() implies (#[trigger] ts1[j]).endian == ms[j].endian by {
            if j == i {
            } else {
                assert(ts1[j] == ts[j]);
            }
        }
        lemma_elems_parse_prims(ms, ts1, i + 1, off + w, data);
        let (ts2, r) = elems_parse::<SOMPrimitiveTypeWithEndian<T>>(ts1, i + 1, off + w, data);
        assert forall|j: int| 0 <= j < i implies #[trigger] ts2[j] == ts[j] by {
            assert(ts2[j] == ts1[j]);
        }
        assert(ts2[i] == ts1[i]);
    }
}

/// An array of primitive values, each holding a valid value, written at
/// `offset` into a buffer with room for it, is read back by an array of the
/// same length field, bounds and number of elements, whose elements have
/// the same byte orders: each element gets the value written, and as many
/// bytes are read as were written. Where the length of the array may vary,
/// its length field must hold the number of bytes of its elements (a
/// missing length field holds none).
pub proof fn lemma_primitive_array_roundtrip<T: WirePrim>(
    m: ArrayModel<SOMPrimitiveTypeWithEndian<T>>,
    target: ArrayModel<SOMPrimitiveTypeWithEndian<T>>,
    offset: int,
    buf: Seq<u8>,
)
    requires
        array_length_ok(m),
        prims_valid(m.elements),
        target.lengthfield == m.lengthfield,
        target.min == m.min,
        target.max == m.max,
        target.elements.len() == m.elements.len(),
        forall|j: int| 0 <= j < m.elements.len() ==> (#[trigger] target.elements[j]).endian == m.elements[j].endian,
        array_dynamic(m) ==> lengthfield_holds(m.lengthfield, m.elements.len() * T::width()),
        0 <= offset,
        offset + lengthfield_size(m.lengthfield) + m.elements.len() * T::width() <= buf.len(),
    ensures
        array_ser::<SOMPrimitiveTypeWithEndian<T>>(m, offset, buf) matches Ok(bytes) && {
            let (after, r) = array_parse::<SOMPrimitiveTypeWithEndian<T>>(target, offset, overwrite(buf, offset, bytes));
            &&& bytes.len() == lengthfield_size(m.lengthfield) + m.elements.len() * T::width()
            &&& r == Ok::<nat, crate::som::SOMErrorView>(bytes.len())
            &&& after.elements.len() == m.elements.len()
            &&& forall|j: int|
                0 <= j < m.elements.len() ==> (#[trigger] after.elements[j]).primitive.value
                    == m.elements[j].primitive.value && after.elements[j].primitive.meta
                    == target.elements[j].primitive.meta && after.elements[j].endian == target.elements[j].endian
            &&& after.lengthfield == target.lengthfield
            &&& after.min == target.min
            &&& after.max == target.max
            &&& after.meta == target.meta
        },
{
    let k = lengthfield_size(m.lengthfield) as int;
    let n = m.elements.len();
    let w = T::width() as int;
    lemma_elems_ser_prims(m.elements, 0, offset + k, buf);
    let b = prims_bytes(m.elements, 0);
    let lf = if array_dynamic(m) {
        lengthfield_bytes(m.lengthfield, b.len())
    } else {
        buf.subrange(offset, offset + k)
    };
    assert(lf.len() == k) by {
        if array_dynamic(m) {
            match m.lengthfield {
                SOMLengthField::NoField => {},
                SOMLengthField::U8 => {},
                SOMLengthField::U16 => {},
                SOMLengthField::U32 => {},
            }
        }
    }
    let bytes = lf + b;
    let data = overwrite(buf, offset, bytes);
    assert(data.subrange(offset, offset + k) =~= lf);
    assert(data.subrange(offset + k, offset + k + b.len()) =~= b);
    if array_dynamic(m) {
        lemma_lengthfield_roundtrip(m.lengthfield, b.len(), data, offset);
    }
    lemma_elems_parse_prims(m.elements, target.elements, 0, offset + k, data);
}

} // verus!
