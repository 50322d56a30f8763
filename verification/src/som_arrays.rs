//! Arrays: sequences of values of one type, of fixed or dynamic length.

use crate::som::{
    lemma_overwrite_before, lemma_overwrite_concat, lemma_overwrite_same, lengthfield_bytes,
    lengthfield_size, lengthfield_value, msg_lengthfield_value, overwrite, parse_exhausted,
    parsed, ser_exhausted, serialized, SOMError, SOMErrorView, SOMLengthField, SOMParser,
    SOMSerializer, SOMType, SOMTypeInfo, SOMTypeMeta,
};
use crate::text::dec;
use vstd::prelude::*;

verus! {

/// What an array holds: its length field, the models of its elements, the
/// bounds of its length, and the name it is shown with.
pub struct ArrayModel<M> {
    /// The length field.
    pub lengthfield: SOMLengthField,
    /// The models of the elements.
    pub elements: Seq<M>,
    /// The minimum number of elements.
    pub min: nat,
    /// The maximum number of elements.
    pub max: nat,
    /// The name and description that the array is shown with.
    pub meta: Option<SOMTypeMeta>,
}

/// An array whose length is not fixed: its bounds differ.
pub open spec fn array_dynamic<M>(m: ArrayModel<M>) -> bool {
    m.min != m.max
}

/// An array whose number of elements lies within its bounds.
pub open spec fn array_length_ok<M>(m: ArrayModel<M>) -> bool {
    m.min <= m.elements.len() <= m.max
}

/// The message of an array of invalid length.
pub open spec fn msg_array_len(length: nat, offset: nat) -> Seq<char> {
    "Invalid Array length: "@ + dec(length) + " at offset: "@ + dec(offset)
}

/// The error of an array of invalid length.
pub open spec fn array_len_error<M>(m: ArrayModel<M>, offset: int) -> SOMErrorView {
    SOMErrorView::InvalidType(msg_array_len(m.elements.len(), offset as nat))
}

/// The bytes of the elements of models `ms` from the `i`-th on, each
/// written after the one before it at `offset` into a buffer that holds
/// `buf`, or the error of the first that fails.
pub open spec fn elems_ser<T: SOMType>(ms: Seq<T::Model>, i: int, offset: int, buf: Seq<u8>) -> Result<
    Seq<u8>,
    SOMErrorView,
>
    decreases ms.len() - i,
{
    if i < 0 || i >= ms.len() {
        Ok(Seq::empty())
    } else {
        match T::ser_spec(ms[i], offset, buf) {
            Err(e) => Err(e),
            Ok(b) => match elems_ser::<T>(ms, i + 1, offset + b.len(), overwrite(buf, offset, b)) {
                Err(e) => Err(e),
                Ok(rest) => Ok(b + rest),
            },
        }
    }
}

/// The models of the elements `ms` after they are read in turn from the
/// `i`-th on at `offset` from `data`, and the number of bytes read or the
/// error of the first that fails.
pub open spec fn elems_parse<T: SOMType>(ms: Seq<T::Model>, i: int, offset: int, data: Seq<u8>) -> (
    Seq<T::Model>,
    Result<nat, SOMErrorView>,
)
    decreases ms.len() - i,
{
    if i < 0 || i >= ms.len() {
        (ms, Ok(0))
    } else {
        let (m0, r0) = T::parse_spec(ms[i], offset, data);
        let ms1 = ms.update(i, m0);
        match r0 {
            Err(e) => (ms1, Err(e)),
            Ok(n) => {
                let (ms2, r) = elems_parse::<T>(ms1, i + 1, offset + n, data);
                (
                    ms2,
                    match r {
                        Ok(n2) => Ok(n + n2),
                        Err(e) => Err(e),
                    },
                )
            },
        }
    }
}

/// Whether reading the elements `ms` in turn from the `i`-th on runs to its
/// end.
pub open spec fn elems_parse_safe<T: SOMType>(
    ms: Seq<T::Model>,
    i: int,
    offset: int,
    data: Seq<u8>,
) -> bool
    decreases ms.len() - i,
{
    if i < 0 || i >= ms.len() {
        true
    } else {
        let (m0, r0) = T::parse_spec(ms[i], offset, data);
        T::parse_safe(ms[i], offset, data) && match r0 {
            Err(_) => true,
            Ok(n) => elems_parse_safe::<T>(ms.update(i, m0), i + 1, offset + n, data),
        }
    }
}

/// The sum of the sizes of the elements `ms` from the `i`-th on.
pub open spec fn elems_size<T: SOMType>(ms: Seq<T::Model>, i: int) -> nat
    decreases ms.len() - i,
{
    if i < 0 || i >= ms.len() {
        0
    } else {
        T::size_spec(ms[i]) + elems_size::<T>(ms, i + 1)
    }
}

/// The bytes of an array at `offset`: its length field, then its elements;
/// or the error: of a length outside its bounds, of no room for the length
/// field, or of the first element that fails.
pub open spec fn array_ser<T: SOMType>(m: ArrayModel<T::Model>, offset: int, buf: Seq<u8>) -> Result<
    Seq<u8>,
    SOMErrorView,
> {
    let k = lengthfield_size(m.lengthfield);
    if !array_length_ok(m) {
        Err(array_len_error(m, offset))
    } else if offset + k > buf.len() {
        Err(ser_exhausted(offset, k))
    } else {
        match elems_ser::<T>(m.elements, 0, offset + k, buf) {
            Err(e) => Err(e),
            Ok(b) => if array_dynamic(m) {
                Ok(lengthfield_bytes(m.lengthfield, b.len()) + b)
            } else {
                Ok(buf.subrange(offset, offset + k) + b)
            },
        }
    }
}

/// Reading an array at `offset`: the check of its length, its length field,
/// its elements in turn, and the check of the length field's value.
pub open spec fn array_parse<T: SOMType>(m: ArrayModel<T::Model>, offset: int, data: Seq<u8>) -> (
    ArrayModel<T::Model>,
    Result<nat, SOMErrorView>,
) {
    let k = lengthfield_size(m.lengthfield);
    if !array_length_ok(m) {
        (m, Err(array_len_error(m, offset)))
    } else if offset + k > data.len() {
        (m, Err(parse_exhausted(offset, k)))
    } else {
        let lfv = lengthfield_value(m.lengthfield, data, offset);
        let (es, r) = elems_parse::<T>(m.elements, 0, offset + k, data);
        let m2 = ArrayModel { elements: es, ..m };
        match r {
            Err(e) => (m2, Err(e)),
            Ok(n) => if array_dynamic(m) && lfv != n {
                (m2, Err(SOMErrorView::InvalidPayload(msg_lengthfield_value(lfv, offset as nat))))
            } else {
                (m2, Ok(k + n))
            },
        }
    }
}

/// Whether reading an array at `offset` runs to its end.
pub open spec fn array_parse_safe<T: SOMType>(
    m: ArrayModel<T::Model>,
    offset: int,
    data: Seq<u8>,
) -> bool {
    let k = lengthfield_size(m.lengthfield);
    array_length_ok(m) && offset + k <= data.len() ==> elems_parse_safe::<T>(
        m.elements,
        0,
        offset + k,
        data,
    )
}

/// An array of values of one type.
#[derive(Debug)]
pub struct SOMArrayType<T> {
    pub(crate) lengthfield: SOMLengthField,
    pub(crate) elements: Vec<T>,
    pub(crate) min: usize,
    pub(crate) max: usize,
    pub(crate) meta: Option<SOMTypeMeta>,
    pub(crate) template: Option<Box<T>>,
}

impl<T> SOMArrayType<T> {
    /// The length field.
    pub closed spec fn spec_lengthfield(&self) -> SOMLengthField {
        self.lengthfield
    }

    /// The elements.
    pub closed spec fn spec_elements(&self) -> Seq<T> {
        self.elements@
    }

    /// The minimum number of elements.
    pub closed spec fn spec_min(&self) -> nat {
        self.min as nat
    }

    /// The maximum number of elements.
    pub closed spec fn spec_max(&self) -> nat {
        self.max as nat
    }

    /// The name and description that the array is shown with.
    pub closed spec fn spec_meta(&self) -> Option<SOMTypeMeta> {
        self.meta
    }

    /// The value that the elements of the array are made after, if any.
    /// It is not written or read: only the elements are.
    pub closed spec fn spec_template(&self) -> Option<T> {
        match self.template {
            Some(t) => Some(*t),
            None => None,
        }
    }

    /// What the array's accessors give is what its fields hold.
    pub(crate) proof fn lemma_fields(&self)
        ensures
            self.spec_lengthfield() == self.lengthfield,
            self.spec_elements() == self.elements@,
            self.spec_min() == self.min,
            self.spec_max() == self.max,
            self.spec_meta() == self.meta,
            self.spec_template() == (match self.template {
                Some(t) => Some(*t),
                None => None::<T>,
            }),
    {
    }

    /// An empty array of `size` elements exactly, without length field.
    pub fn fixed(size: usize) -> (r: SOMArrayType<T>)
        ensures
            r.spec_lengthfield() == SOMLengthField::NoField,
            r.spec_elements() == Seq::<T>::empty(),
            r.spec_min() == size,
            r.spec_max() == size,
            r.spec_meta() == None::<SOMTypeMeta>,
            r.spec_template() == None::<T>,
    {
        SOMArrayType {
            lengthfield: SOMLengthField::NoField,
            elements: Vec::new(),
            min: size,
            max: size,
            meta: None,
            template: None,
        }
    }

    /// An empty array of `min` to `max` elements with the length field
    /// `lengthfield`.
    pub fn dynamic(lengthfield: SOMLengthField, min: usize, max: usize) -> (r: SOMArrayType<T>)
        ensures
            r.spec_lengthfield() == lengthfield,
            r.spec_elements() == Seq::<T>::empty(),
            r.spec_min() == min,
            r.spec_max() == max,
            r.spec_meta() == None::<SOMTypeMeta>,
            r.spec_template() == None::<T>,
    {
        SOMArrayType { lengthfield, elements: Vec::new(), min, max, meta: None, template: None }
    }

    /// Whether the array's length is not fixed: its bounds differ.
    pub fn is_dynamic(&self) -> (r: bool)
        ensures
            r == (self.spec_min() != self.spec_max()),
    {
        self.min != self.max
    }

    /// The number of elements.
    pub fn len(&self) -> (r: usize)
        ensures
            r == self.spec_elements().len(),
    {
        self.elements.len()
    }

    /// Removes and returns the element at `index`, moving those after it
    /// down by one.
    pub fn remove(&mut self, index: usize) -> (r: T)
        requires
            index < old(self).spec_elements().len(),
        ensures
            r == old(self).spec_elements()[index as int],
            final(self).spec_elements() == old(self).spec_elements().remove(index as int),
            final(self).spec_lengthfield() == old(self).spec_lengthfield(),
            final(self).spec_min() == old(self).spec_min(),
            final(self).spec_max() == old(self).spec_max(),
            final(self).spec_meta() == old(self).spec_meta(),
            final(self).spec_template() == old(self).spec_template(),
    {
        self.elements.remove(index)
    }

    /// The element at `index`, if there is one.
    pub fn get(&self, index: usize) -> (r: Option<&T>)
        ensures
            index < self.spec_elements().len() ==> r == Some(&self.spec_elements()[index as int]),
            index >= self.spec_elements().len() ==> r is None,
    {
        if index < self.elements.len() {
            Some(&self.elements[index])
        } else {
            None
        }
    }

    /// Fails where the number of elements lies outside the bounds.
    pub fn check_length(&self, offset: usize) -> (r: Result<(), SOMError>)
        ensures
            (self.spec_min() <= self.spec_elements().len() <= self.spec_max()) ==> r is Ok,
            !(self.spec_min() <= self.spec_elements().len() <= self.spec_max()) ==> (r matches Err(e)
                && e@ == SOMErrorView::InvalidType(
                msg_array_len(self.spec_elements().len(), offset as nat),
            )),
    {
        let length = self.elements.len();
        if length < self.min || length > self.max {
            return Err(
                SOMError::InvalidType(
                    crate::som::message2("Invalid Array length: ", length, " at offset: ", offset),
                ),
            );
        }
        Ok(())
    }

    /// The array shown with the name and description `meta`.
    pub fn with_meta(self, meta: SOMTypeMeta) -> (r: SOMArrayType<T>)
        ensures
            r.spec_lengthfield() == self.spec_lengthfield(),
            r.spec_elements() == self.spec_elements(),
            r.spec_min() == self.spec_min(),
            r.spec_max() == self.spec_max(),
            r.spec_meta() == Some(meta),
            r.spec_template() == self.spec_template(),
    {
        SOMArrayType { meta: Some(meta), ..self }
    }

    /// The array with `template` as the value that its elements are made
    /// after.
    pub fn with_template(self, template: T) -> (r: SOMArrayType<T>)
        ensures
            r.spec_lengthfield() == self.spec_lengthfield(),
            r.spec_elements() == self.spec_elements(),
            r.spec_min() == self.spec_min(),
            r.spec_max() == self.spec_max(),
            r.spec_meta() == self.spec_meta(),
            r.spec_template() == Some(template),
    {
        SOMArrayType { template: Some(Box::new(template)), ..self }
    }

    /// The value that the elements of the array are made after, if any.
    pub fn template(&self) -> (r: Option<&T>)
        ensures
            r is None <==> self.spec_template() is None,
            r matches Some(t) ==> self.spec_template() == Some(*t),
    {
        match &self.template {
            Some(t) => Some(&**t),
            None => None,
        }
    }

    /// The name and description that the array is shown with, if any.
    pub fn meta(&self) -> (r: Option<&SOMTypeMeta>)
        ensures
            r is None <==> self.spec_meta() is None,
            r matches Some(m) ==> self.spec_meta() == Some(*m),
    {
        match &self.meta {
            Some(m) => Some(m),
            None => None,
        }
    }
}

impl<T: SOMType> SOMArrayType<T> {
    /// The model of the array.
    pub open spec fn array_model(&self) -> ArrayModel<T::Model> {
        ArrayModel {
            lengthfield: self.spec_lengthfield(),
            elements: self.spec_elements().map_values(|e: T| e.model()),
            min: self.spec_min(),
            max: self.spec_max(),
            meta: self.spec_meta(),
        }
    }

    /// Appends `obj`.
    pub fn add(&mut self, obj: T)
        ensures
            final(self).spec_elements() == old(self).spec_elements().push(obj),
            final(self).spec_lengthfield() == old(self).spec_lengthfield(),
            final(self).spec_min() == old(self).spec_min(),
            final(self).spec_max() == old(self).spec_max(),
            final(self).spec_meta() == old(self).spec_meta(),
            final(self).spec_template() == old(self).spec_template(),
    {
        self.elements.push(obj);
    }

    /// An array of `min` to `max` elements with the length field
    /// `lengthfield` that holds `elements`.
    pub fn from(lengthfield: SOMLengthField, min: usize, max: usize, elements: Vec<T>) -> (r:
        SOMArrayType<T>)
        ensures
            r.spec_lengthfield() == lengthfield,
            r.spec_elements() == elements@,
            r.spec_min() == min,
            r.spec_max() == max,
            r.spec_meta() == None::<SOMTypeMeta>,
            r.spec_template() == None::<T>,
    {
        SOMArrayType { lengthfield, elements, min, max, meta: None, template: None }
    }
}

/// Writes `elements` in turn, or fails at the first that fails.
fn serialize_elements<T: SOMType>(elements: &Vec<T>, serializer: &mut SOMSerializer) -> (r: Result<
    usize,
    SOMError,
>)
    requires
        old(serializer).wf(),
        forall|i: int| 0 <= i < elements@.len() ==> #[trigger] T::ser_safe(elements@[i].model()),
    ensures
        serialized(
            elems_ser::<T>(
                elements@.map_values(|e: T| e.model()),
                0,
                old(serializer).pos(),
                old(serializer).buffer(),
            ),
            *old(serializer),
            *final(serializer),
            r,
        ),
{
    let ghost ms = elements@.map_values(|e: T| e.model());
    let ghost off0 = serializer.pos();
    let ghost buf0 = serializer.buffer();
    let ghost mut acc: Seq<u8> = Seq::empty();
    proof {
        serializer.lemma_wf();
        assert(overwrite(buf0, off0, acc) =~= buf0);
        match elems_ser::<T>(ms, 0, off0, buf0) {
            Ok(rest) => {
                assert(acc + rest =~= rest);
            },
            Err(_) => {},
        }
    }
    let mut written: usize = 0;
    let mut i: usize = 0;
    while i < elements.len()
        invariant
            ms == elements@.map_values(|e: T| e.model()),
            forall|j: int| 0 <= j < elements@.len() ==> #[trigger] T::ser_safe(elements@[j].model()),
            serializer.wf(),
            0 <= off0,
            off0 == old(serializer).pos(),
            buf0 == old(serializer).buffer(),
            serializer.buffer().len() == buf0.len(),
            i <= elements@.len(),
            written == acc.len(),
            serializer.pos() == off0 + acc.len(),
            serializer.buffer() == overwrite(buf0, off0, acc),
            elems_ser::<T>(ms, 0, off0, buf0) == match elems_ser::<T>(
                ms,
                i as int,
                serializer.pos(),
                serializer.buffer(),
            ) {
                Ok(rest) => Ok(acc + rest),
                Err(e) => Err::<Seq<u8>, SOMErrorView>(e),
            },
        decreases elements@.len() - i,
    {
        proof {
            assert(ms[i as int] == elements@[i as int].model());
            assert(T::ser_safe(elements@[i as int].model()));
        }
        let ghost pos = serializer.pos();
        let ghost before = serializer.buffer();
        let n = match elements[i].serialize(serializer) {
            Ok(n) => n,
            Err(e) => return Err(e),
        };
        proof {
            serializer.lemma_wf();
            let b = match T::ser_spec(ms[i as int], pos, before) {
                Ok(b) => b,
                Err(_) => Seq::empty(),
            };
            lemma_overwrite_concat(buf0, off0, acc, b);
            match elems_ser::<T>(ms, i + 1, serializer.pos(), serializer.buffer()) {
                Ok(rest) => {
                    assert(acc + (b + rest) =~= (acc + b) + rest);
                },
                Err(_) => {},
            }
            acc = acc + b;
        }
        written = written + n;
        i = i + 1;
    }
    proof {
        assert(acc + Seq::<u8>::empty() =~= acc);
    }
    Ok(written)
}

/// Reads `elements` in turn, or fails at the first that fails.
fn parse_elements<T: SOMType>(elements: &mut Vec<T>, parser: &mut SOMParser) -> (r: Result<
    usize,
    SOMError,
>)
    requires
        old(parser).wf(),
        elems_parse_safe::<T>(
            old(elements)@.map_values(|e: T| e.model()),
            0,
            old(parser).pos(),
            old(parser).data(),
        ),
    ensures
        parsed(
            elems_parse::<T>(
                old(elements)@.map_values(|e: T| e.model()),
                0,
                old(parser).pos(),
                old(parser).data(),
            ),
            final(elements)@.map_values(|e: T| e.model()),
            *old(parser),
            *final(parser),
            r,
        ),
{
    let ghost ms0 = elements@.map_values(|e: T| e.model());
    let ghost d = parser.data();
    let ghost off0 = parser.pos();
    let ghost mut consumed: nat = 0;
    proof {
        parser.lemma_wf();
    }
    let mut read: usize = 0;
    let mut i: usize = 0;
    let len = elements.len();
    while i < len
        invariant
            len == elements@.len(),
            len == old(elements)@.len(),
            parser.wf(),
            parser.data() == d,
            d == old(parser).data(),
            off0 == old(parser).pos(),
            0 <= off0,
            ms0 == old(elements)@.map_values(|e: T| e.model()),
            i <= len,
            read == consumed,
            parser.pos() == off0 + consumed,
            elems_parse_safe::<T>(elements@.map_values(|e: T| e.model()), i as int, parser.pos(), d),
            elems_parse::<T>(ms0, 0, off0, d) == ({
                let (ms2, r) = elems_parse::<T>(
                    elements@.map_values(|e: T| e.model()),
                    i as int,
                    parser.pos(),
                    d,
                );
                (
                    ms2,
                    match r {
                        Ok(n2) => Ok::<nat, SOMErrorView>(consumed + n2),
                        Err(e) => Err(e),
                    },
                )
            }),
        decreases len - i,
    {
        let ghost ms = elements@.map_values(|e: T| e.model());
        let ghost pos = parser.pos();
        proof {
            parser.lemma_wf();
            assert(ms[i as int] == elements@[i as int].model());
        }
        let ghost old_elems = elements@;
        let res = elements[i].parse(parser);
        proof {
            assert(elements@ == old_elems.update(i as int, elements@[i as int]));
            assert(elements@.map_values(|e: T| e.model()) =~= ms.update(
                i as int,
                elements@[i as int].model(),
            ));
        }
        let n = match res {
            Ok(n) => n,
            Err(e) => return Err(e),
        };
        proof {
            parser.lemma_wf();
            assert(parser.pos() == pos + n);
            consumed = (consumed + n) as nat;
        }
        read = read + n;
        i = i + 1;
    }
    proof {
        assert(elements@.map_values(|e: T| e.model()) == elems_parse::<T>(
            elements@.map_values(|e: T| e.model()),
            i as int,
            parser.pos(),
            d,
        ).0);
    }
    Ok(read)
}

/// The sum of the sizes of `elements`.
fn size_of_elements<T: SOMType>(elements: &Vec<T>) -> (r: usize)
    requires
        elems_size::<T>(elements@.map_values(|e: T| e.model()), 0) <= usize::MAX,
    ensures
        r == elems_size::<T>(elements@.map_values(|e: T| e.model()), 0),
{
    let ghost ms = elements@.map_values(|e: T| e.model());
    let mut total: usize = 0;
    let mut i: usize = 0;
    while i < elements.len()
        invariant
            ms == elements@.map_values(|e: T| e.model()),
            i <= elements@.len(),
            elems_size::<T>(ms, 0) <= usize::MAX,
            total + elems_size::<T>(ms, i as int) == elems_size::<T>(ms, 0),
        decreases elements@.len() - i,
    {
        proof {
            assert(ms[i as int] == elements@[i as int].model());
        }
        let s = elements[i].size();
        total = total + s;
        i = i + 1;
    }
    total
}

impl<T: SOMType> SOMType for SOMArrayType<T> {
    type Model = ArrayModel<T::Model>;

    open spec fn model(&self) -> ArrayModel<T::Model> {
        self.array_model()
    }

    open spec fn ser_spec(m: ArrayModel<T::Model>, offset: int, buf: Seq<u8>) -> Result<
        Seq<u8>,
        SOMErrorView,
    > {
        array_ser::<T>(m, offset, buf)
    }

    open spec fn parse_spec(m: ArrayModel<T::Model>, offset: int, data: Seq<u8>) -> (
        ArrayModel<T::Model>,
        Result<nat, SOMErrorView>,
    ) {
        array_parse::<T>(m, offset, data)
    }

    open spec fn parse_safe(m: ArrayModel<T::Model>, offset: int, data: Seq<u8>) -> bool {
        array_parse_safe::<T>(m, offset, data)
    }

    open spec fn ser_safe(m: ArrayModel<T::Model>) -> bool {
        forall|i: int| 0 <= i < m.elements.len() ==> #[trigger] T::ser_safe(m.elements[i])
    }

    open spec fn size_spec(m: ArrayModel<T::Model>) -> nat {
        lengthfield_size(m.lengthfield) + elems_size::<T>(m.elements, 0)
    }

    open spec fn info_spec(m: ArrayModel<T::Model>) -> SOMTypeInfo {
        if array_dynamic(m) {
            SOMTypeInfo::ExplicitLength
        } else {
            SOMTypeInfo::ImplicitLength
        }
    }

    fn serialize(&self, serializer: &mut SOMSerializer) -> (r: Result<usize, SOMError>) {
        let ghost m = self.array_model();
        let ghost buf0 = serializer.buffer();
        let ghost off = serializer.pos();
        proof {
            serializer.lemma_wf();
        }
        let offset = serializer.offset();
        match self.check_length(offset) {
            Ok(()) => {},
            Err(e) => return Err(e),
        }
        let k = self.lengthfield.size();
        let promise = match serializer.promise(k) {
            Ok(p) => p,
            Err(e) => return Err(e),
        };
        proof {
            assert forall|i: int| 0 <= i < self.elements@.len() implies #[trigger] T::ser_safe(
                self.elements@[i].model(),
            ) by {
                assert(m.elements[i] == self.elements@[i].model());
            }
        }
        let n = match serialize_elements(&self.elements, serializer) {
            Ok(n) => n,
            Err(e) => return Err(e),
        };
        proof {
            serializer.lemma_wf();
        }
        let size = serializer.offset() - offset;
        if self.is_dynamic() {
            match serializer.write_lengthfield(promise, self.lengthfield, size - k) {
                Ok(()) => {},
                Err(e) => return Err(e),
            }
            proof {
                match elems_ser::<T>(m.elements, 0, off + k, buf0) {
                    Ok(bb) => {
                        lemma_overwrite_before(
                            buf0,
                            off,
                            lengthfield_bytes(m.lengthfield, bb.len()),
                            bb,
                        );
                    },
                    Err(_) => {},
                }
            }
        } else {
            proof {
                match elems_ser::<T>(m.elements, 0, off + k, buf0) {
                    Ok(bb) => {
                        let pre = buf0.subrange(off, off + k);
                        lemma_overwrite_same(buf0, off, k as int);
                        lemma_overwrite_concat(buf0, off, pre, bb);
                    },
                    Err(_) => {},
                }
            }
        }
        Ok(size)
    }

    fn parse(&mut self, parser: &mut SOMParser) -> (r: Result<usize, SOMError>) {
        let ghost m = self.array_model();
        let ghost d = parser.data();
        let ghost off = parser.pos();
        proof {
            parser.lemma_wf();
        }
        let offset = parser.offset();
        match self.check_length(offset) {
            Ok(()) => {},
            Err(e) => return Err(e),
        }
        let k = self.lengthfield.size();
        let lfv = match parser.read_lengthfield(self.lengthfield) {
            Ok(v) => v,
            Err(e) => return Err(e),
        };
        let n = match parse_elements(&mut self.elements, parser) {
            Ok(n) => n,
            Err(e) => return Err(e),
        };
        proof {
            parser.lemma_wf();
        }
        let size = parser.offset() - offset;
        if self.is_dynamic() && (lfv != (size - k)) {
            return Err(
                SOMError::InvalidPayload(
                    crate::som::message2("Invalid Length-Field value: ", lfv, " at offset: ", offset),
                ),
            );
        }
        Ok(size)
    }

    fn size(&self) -> (r: usize) {
        let k = self.lengthfield.size();
        let s = size_of_elements(&self.elements);
        k + s
    }

    fn info(&self) -> (r: SOMTypeInfo) {
        if self.is_dynamic() {
            SOMTypeInfo::ExplicitLength
        } else {
            SOMTypeInfo::ImplicitLength
        }
    }
}

} // verus!
