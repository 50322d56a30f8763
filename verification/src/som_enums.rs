//! Enumerations: named values of an unsigned integer type, of which one is
//! selected.

use crate::som::{
    message1, msg_uninitialized, parsed, serialized, SOMEndian, SOMError, SOMErrorView,
    SOMParser, SOMSerializer, SOMType, SOMTypeInfo, SOMTypeMeta,
};
use crate::som_primitives::{prim_parse, prim_ser, WirePrim};
use crate::text::dec;
use vstd::prelude::*;

verus! {

/// A named value of an enumeration.
#[derive(Debug)]
pub struct SOMEnumTypeItem<T> {
    key: String,
    value: T,
}

impl<T: WirePrim> SOMEnumTypeItem<T> {
    /// The name.
    pub closed spec fn spec_key(&self) -> Seq<char> {
        self.key@
    }

    /// The value.
    pub closed spec fn spec_value(&self) -> T {
        self.value
    }

    /// The value `value` named `key`.
    pub fn from(key: String, value: T) -> (r: SOMEnumTypeItem<T>)
        ensures
            r.spec_key() == key@,
            r.spec_value() == value,
    {
        SOMEnumTypeItem { key, value }
    }

    /// The name and the value.
    pub fn get(&self) -> (r: (&str, T))
        ensures
            r.0@ == self.spec_key(),
            r.1 == self.spec_value(),
    {
        (self.key.as_str(), self.value)
    }
}

/// The name and value of an item.
pub open spec fn item_view<T: WirePrim>(i: SOMEnumTypeItem<T>) -> (Seq<char>, T) {
    (i.spec_key(), i.spec_value())
}

/// The names and values of items.
pub open spec fn items_view<T: WirePrim>(s: Seq<SOMEnumTypeItem<T>>) -> Seq<(Seq<char>, T)> {
    s.map_values(|i: SOMEnumTypeItem<T>| item_view(i))
}

/// Whether an item has the name `key` or the value `value`.
pub open spec fn view_matches<T>(s: Seq<(Seq<char>, T)>, key: Seq<char>, value: T) -> bool {
    exists|i: int| 0 <= i < s.len() && (#[trigger] s[i].0 == key || s[i].1 == value)
}

/// The items that adding each of `xs` in turn keeps: those whose name and
/// value no item before them that was kept has.
pub open spec fn added_items<T>(xs: Seq<(Seq<char>, T)>) -> Seq<(Seq<char>, T)>
    decreases xs.len(),
{
    if xs.len() == 0 {
        Seq::empty()
    } else {
        let prev = added_items(xs.drop_last());
        let (k, v) = xs.last();
        if view_matches(prev, k, v) {
            prev
        } else {
            prev.push((k, v))
        }
    }
}

/// An item matches among items exactly where it matches among their views.
proof fn lemma_matches_view<T: WirePrim>(s: Seq<SOMEnumTypeItem<T>>, key: Seq<char>, value: T)
    ensures
        (exists|i: int| 0 <= i < s.len() && #[trigger] item_matches(s[i], key, value)) <==> view_matches(items_view(s), key, value),
{
    let v = items_view(s);
    if exists|i: int| 0 <= i < s.len() && #[trigger] item_matches(s[i], key, value) {
        let i = choose|i: int| 0 <= i < s.len() && #[trigger] item_matches(s[i], key, value);
        assert(v[i].0 == key || v[i].1 == value);
    }
    if view_matches(v, key, value) {
        let i = choose|i: int| 0 <= i < v.len() && (#[trigger] v[i].0 == key || v[i].1 == value);
        assert(item_matches(s[i], key, value));
    }
}

/// Whether an item has the name `key` or the value `value`.
pub open spec fn item_matches<T: WirePrim>(item: SOMEnumTypeItem<T>, key: Seq<char>, value: T) -> bool {
    item.spec_key() == key || item.spec_value() == value
}

/// The index of the first item named `key`, if any.
pub open spec fn first_key_index<T: WirePrim>(s: Seq<SOMEnumTypeItem<T>>, key: Seq<char>) -> Option<
    int,
> {
    if exists|i: int| 0 <= i < s.len() && #[trigger] s[i].spec_key() == key {
        Some(
            choose|i: int|
                0 <= i < s.len() && #[trigger] s[i].spec_key() == key && forall|j: int|
                    0 <= j < i ==> s[j].spec_key() != key,
        )
    } else {
        None
    }
}

/// The index of the first item of value `value`, if any.
pub open spec fn first_value_index<T: WirePrim>(s: Seq<SOMEnumTypeItem<T>>, value: T) -> Option<
    int,
> {
    if exists|i: int| 0 <= i < s.len() && #[trigger] s[i].spec_value() == value {
        Some(
            choose|i: int|
                0 <= i < s.len() && #[trigger] s[i].spec_value() == value && forall|j: int|
                    0 <= j < i ==> s[j].spec_value() != value,
        )
    } else {
        None
    }
}

/// The message of a value that names no item.
pub open spec fn msg_enum_value<T: WirePrim>(value: T, offset: nat) -> Seq<char> {
    "Invalid Enum value: "@ + T::text_spec(value) + " at offset: "@ + dec(offset)
}

/// An enumeration: named values, and the position from one of the selected
/// item, or zero where none is selected.
#[derive(Debug)]
pub struct SOMEnumType<T> {
    variants: Vec<SOMEnumTypeItem<T>>,
    index: usize,
    meta: Option<SOMTypeMeta>,
}

impl<T: WirePrim> SOMEnumType<T> {
    /// The items.
    pub closed spec fn spec_variants(&self) -> Seq<SOMEnumTypeItem<T>> {
        self.variants@
    }

    /// The position from one of the selected item, or zero.
    pub closed spec fn spec_index(&self) -> nat {
        self.index as nat
    }

    /// The name and description that the value is shown with.
    pub closed spec fn spec_meta(&self) -> Option<SOMTypeMeta> {
        self.meta
    }

    /// The same enumeration with the item at position `index` from one
    /// selected.
    pub closed spec fn with_index(self, index: nat) -> Self {
        SOMEnumType { index: index as usize, ..self }
    }

    /// Selecting an item keeps the items and the meta data.
    pub proof fn lemma_with_index(self, index: nat)
        ensures
            self.spec_index() <= usize::MAX,
            self.with_index(index).spec_variants() == self.spec_variants(),
            index <= usize::MAX ==> self.with_index(index).spec_index() == index,
            self.with_index(index).spec_meta() == self.spec_meta(),
    {
    }

    /// An enumeration without items.
    pub fn new() -> (r: SOMEnumType<T>)
        ensures
            r.spec_variants() == Seq::<SOMEnumTypeItem<T>>::empty(),
            r.spec_index() == 0,
            r.spec_meta() == None::<SOMTypeMeta>,
    {
        SOMEnumType { variants: Vec::new(), index: 0, meta: None }
    }

    /// An enumeration of the given items, each added in turn.
    pub fn from(variants: Vec<SOMEnumTypeItem<T>>) -> (r: SOMEnumType<T>)
        ensures
            r.spec_index() == 0,
            r.spec_meta() == None::<SOMTypeMeta>,
            items_view(r.spec_variants()) == added_items(items_view(variants@)),
    {
        let ghost all = items_view(variants@);
        let mut result = SOMEnumType::new();
        let mut items = variants;
        let ghost mut taken: nat = 0;
        proof {
            assert(items_view(result.spec_variants()) =~= added_items(all.take(0)));
        }
        while items.len() > 0
            invariant
                result.spec_index() == 0,
                result.spec_meta() == None::<SOMTypeMeta>,
                taken <= all.len(),
                items_view(items@) == all.skip(taken as int),
                items_view(result.spec_variants()) == added_items(all.take(taken as int)),
            decreases items@.len(),
        {
            let ghost before = items_view(result.spec_variants());
            let ghost old_items = items@;
            proof {
                assert(items_view(old_items).len() == old_items.len());
                assert(items_view(old_items)[0] == item_view(old_items[0]));
                assert(all.skip(taken as int)[0] == all[taken as int]);
            }
            let item = items.remove(0);
            proof {
                assert(items@ == old_items.remove(0));
                assert(items_view(items@) =~= items_view(old_items).skip(1));
                assert(items_view(items@) =~= all.skip(taken as int + 1));
                assert(all[taken as int] == item_view(item));
                assert(all.take(taken as int + 1).drop_last() =~= all.take(taken as int));
                assert(all.take(taken as int + 1).last() == item_view(item));
            }
            let ghost key = item.spec_key();
            let ghost value = item.spec_value();
            let ghost old_variants = result.spec_variants();
            proof {
                lemma_matches_view(old_variants, key, value);
            }
            result.add(item.key, item.value);
            proof {
                if !view_matches(before, key, value) {
                    assert(items_view(result.spec_variants()) =~= before.push((key, value)));
                }
                taken = taken + 1;
            }
        }
        proof {
            assert(all.take(all.len() as int) =~= all);
        }
        result
    }

    /// The number of items.
    pub fn len(&self) -> (r: usize)
        ensures
            r == self.spec_variants().len(),
    {
        self.variants.len()
    }

    /// Adds the value `value` named `key`, unless an item has that name or
    /// that value already.
    pub fn add(&mut self, key: String, value: T)
        ensures
            final(self).spec_index() == old(self).spec_index(),
            final(self).spec_meta() == old(self).spec_meta(),
            (exists|i: int|
                0 <= i < old(self).spec_variants().len() && #[trigger] item_matches(
                    old(self).spec_variants()[i],
                    key@,
                    value,
                )) ==> final(self).spec_variants() == old(self).spec_variants(),
            !(exists|i: int|
                0 <= i < old(self).spec_variants().len() && #[trigger] item_matches(
                    old(self).spec_variants()[i],
                    key@,
                    value,
                )) ==> (final(self).spec_variants().len()
                == old(self).spec_variants().len() + 1 && final(self).spec_variants().drop_last()
                == old(self).spec_variants() && final(self).spec_variants().last().spec_key()
                == key@ && final(self).spec_variants().last().spec_value() == value),
    {
        if self.holds_key_or_value(&key, value) {
            return;
        }
        self.variants.push(SOMEnumTypeItem { key, value });
        proof {
            assert(self.variants@.drop_last() =~= old(self).spec_variants());
        }
    }

    /// Whether an item has the name `key` or the value `value`.
    fn holds_key_or_value(&self, key: &String, value: T) -> (r: bool)
        ensures
            r == exists|i: int|
                0 <= i < self.spec_variants().len() && #[trigger] item_matches(
                    self.spec_variants()[i],
                    key@,
                    value,
                ),
    {
        let mut i: usize = 0;
        while i < self.variants.len()
            invariant
                i <= self.variants@.len(),
                forall|j: int|
                    0 <= j < i ==> !#[trigger] item_matches(self.variants@[j], key@, value),
            decreases self.variants@.len() - i,
        {
            let same_key = self.variants[i].key == *key;
            let same_value = T::equals(self.variants[i].value, value);
            if same_key || same_value {
                proof {
                    assert(item_matches(self.spec_variants()[i as int], key@, value));
                }
                return true;
            }
            proof {
                assert(!item_matches(self.variants@[i as int], key@, value));
            }
            i = i + 1;
        }
        false
    }

    /// Whether an item is selected.
    pub fn has_value(&self) -> (r: bool)
        ensures
            r == (self.spec_index() != 0),
    {
        self.index != 0
    }

    /// The selected item, if any: the item at the position from one that the
    /// selection names, where there is one.
    pub open spec fn selected(&self) -> Option<SOMEnumTypeItem<T>> {
        if 1 <= self.spec_index() <= self.spec_variants().len() {
            Some(self.spec_variants()[self.spec_index() - 1])
        } else {
            None
        }
    }

    /// The value of the selected item, if any.
    pub fn get(&self) -> (r: Option<T>)
        ensures
            self.selected() is None ==> r == None::<T>,
            self.selected() matches Some(item) ==> r == Some(item.spec_value()),
    {
        if self.index != 0 && self.index <= self.variants.len() {
            Some(self.variants[self.index - 1].value)
        } else {
            None
        }
    }

    /// The selected item, if any.
    pub fn value(&self) -> (r: Option<&SOMEnumTypeItem<T>>)
        ensures
            self.selected() is None ==> r is None,
            self.selected() matches Some(item) ==> r == Some(&item),
    {
        if self.index != 0 && self.index <= self.variants.len() {
            Some(&self.variants[self.index - 1])
        } else {
            None
        }
    }

    /// Selects the first item named `key`; false where there is none.
    pub fn set(&mut self, key: String) -> (r: bool)
        ensures
            final(self).spec_variants() == old(self).spec_variants(),
            final(self).spec_meta() == old(self).spec_meta(),
            r == first_key_index(old(self).spec_variants(), key@) is Some,
            r ==> *final(self) == old(self).with_index(
                (first_key_index(old(self).spec_variants(), key@)->0 + 1) as nat,
            ),
            !r ==> *final(self) == *old(self),
    {
        let mut i: usize = 0;
        while i < self.variants.len()
            invariant
                i <= self.variants@.len(),
                *self == *old(self),
                forall|j: int| 0 <= j < i ==> #[trigger] self.variants@[j].key@ != key@,
            decreases self.variants@.len() - i,
        {
            if self.variants[i].key == key {
                self.index = i + 1;
                proof {
                    let s = old(self).spec_variants();
                    let c = first_key_index(s, key@)->0;
                    assert(s[i as int].spec_key() == key@);
                    if c < i {
                        assert(s[c].spec_key() == key@);
                    }
                    if c > i {
                        assert(s[i as int].spec_key() == key@);
                    }
                }
                return true;
            }
            i = i + 1;
        }
        false
    }

    /// Selects the first item of value `value`; false where there is none.
    pub fn set_value(&mut self, value: T) -> (r: bool)
        ensures
            final(self).spec_variants() == old(self).spec_variants(),
            final(self).spec_meta() == old(self).spec_meta(),
            r == first_value_index(old(self).spec_variants(), value) is Some,
            r ==> *final(self) == old(self).with_index(
                (first_value_index(old(self).spec_variants(), value)->0 + 1) as nat,
            ),
            !r ==> *final(self) == *old(self),
    {
        let mut i: usize = 0;
        while i < self.variants.len()
            invariant
                i <= self.variants@.len(),
                *self == *old(self),
                forall|j: int| 0 <= j < i ==> #[trigger] self.variants@[j].value != value,
            decreases self.variants@.len() - i,
        {
            if T::equals(self.variants[i].value, value) {
                self.index = i + 1;
                proof {
                    let s = old(self).spec_variants();
                    let c = first_value_index(s, value)->0;
                    assert(s[i as int].spec_value() == value);
                    if c < i {
                        assert(s[c].spec_value() == value);
                    }
                }
                return true;
            }
            i = i + 1;
        }
        false
    }

    /// Selects no item.
    pub fn clear(&mut self)
        ensures
            final(self).spec_variants() == old(self).spec_variants(),
            final(self).spec_meta() == old(self).spec_meta(),
            final(self).spec_index() == 0,
    {
        self.index = 0;
    }

    /// The enumeration shown with the name and description `meta`.
    pub fn with_meta(self, meta: SOMTypeMeta) -> (r: SOMEnumType<T>)
        ensures
            r.spec_variants() == self.spec_variants(),
            r.spec_index() == self.spec_index(),
            r.spec_meta() == Some(meta),
    {
        SOMEnumType { variants: self.variants, index: self.index, meta: Some(meta) }
    }

    /// The name and description that the value is shown with, if any.
    pub fn meta(&self) -> (r: Option<&SOMTypeMeta>)
        ensures
            r is None <==> self.spec_meta() is None,
            r matches Some(m) ==> self.spec_meta() == Some(*m),
    {
        match &self.meta {
            Some(m) => Some(m),
            None => None,
        }
    }
}

/// The bytes of an enumeration at `offset`: the value of the selected item.
pub open spec fn enum_ser<T: WirePrim>(
    e: SOMEnumType<T>,
    endian: SOMEndian,
    offset: int,
    buf: Seq<u8>,
) -> Result<Seq<u8>, SOMErrorView> {
    match e.selected() {
        None => Err(SOMErrorView::InvalidType(msg_uninitialized(offset as nat))),
        Some(item) => prim_ser(Some(item.spec_value()), endian, offset, buf),
    }
}

/// An enumeration after reading at `offset`: the item of the value read is
/// selected.
pub open spec fn enum_parse<T: WirePrim>(
    e: SOMEnumType<T>,
    endian: SOMEndian,
    offset: int,
    data: Seq<u8>,
) -> (SOMEnumType<T>, Result<nat, SOMErrorView>) {
    match prim_parse::<T>(endian, offset, data) {
        Err(err) => (e, Err(err)),
        Ok(v) => match first_value_index(e.spec_variants(), v) {
            Some(i) => (e.with_index((i + 1) as nat), Ok(T::width())),
            None => (
                e,
                Err(SOMErrorView::InvalidPayload(msg_enum_value(v, offset as nat))),
            ),
        },
    }
}

/// Writes an enumeration, or fails as `enum_ser` says.
fn enum_serialize<T: WirePrim>(
    e: &SOMEnumType<T>,
    endian: SOMEndian,
    serializer: &mut SOMSerializer,
) -> (r: Result<usize, SOMError>)
    requires
        old(serializer).wf(),
    ensures
        serialized(
            enum_ser(*e, endian, old(serializer).pos(), old(serializer).buffer()),
            *old(serializer),
            *final(serializer),
            r,
        ),
{
    let offset = serializer.offset();
    match e.get() {
        Some(v) => crate::som_primitives::prim_write(Some(v), endian, serializer),
        None => Err(SOMError::InvalidType(message1("Uninitialized Type at offset: ", offset))),
    }
}

/// Reads an enumeration, or fails as `enum_parse` says.
fn enum_read<T: WirePrim>(e: &mut SOMEnumType<T>, endian: SOMEndian, parser: &mut SOMParser) -> (r:
    Result<usize, SOMError>)
    requires
        old(parser).wf(),
    ensures
        parsed(
            enum_parse(*old(e), endian, old(parser).pos(), old(parser).data()),
            *final(e),
            *old(parser),
            *final(parser),
            r,
        ),
{
    let offset = parser.offset();
    let v = match crate::som_primitives::prim_get::<T>(endian, parser) {
        Ok(v) => v,
        Err(err) => return Err(err),
    };
    if !e.set_value(v) {
        let mut m = String::from_str("Invalid Enum value: ");
        let t = T::text(v);
        crate::text::push_str(&mut m, &t);
        m.append(" at offset: ");
        let o = crate::text::usize_text(offset);
        crate::text::push_str(&mut m, &o);
        return Err(SOMError::InvalidPayload(m));
    }
    proof {
        assert(*final(e) == old(e).with_index(final(e).spec_index()));
    }
    Ok(T::wire_width())
}

impl<T: WirePrim> SOMType for SOMEnumType<T> {
    type Model = SOMEnumType<T>;

    open spec fn model(&self) -> Self {
        *self
    }

    open spec fn ser_spec(m: Self, offset: int, buf: Seq<u8>) -> Result<Seq<u8>, SOMErrorView> {
        enum_ser(m, SOMEndian::Big, offset, buf)
    }

    open spec fn parse_spec(m: Self, offset: int, data: Seq<u8>) -> (Self, Result<nat, SOMErrorView>) {
        enum_parse(m, SOMEndian::Big, offset, data)
    }

    open spec fn parse_safe(m: Self, offset: int, data: Seq<u8>) -> bool {
        true
    }

    open spec fn ser_safe(m: Self) -> bool {
        true
    }

    open spec fn size_spec(m: Self) -> nat {
        T::width()
    }

    open spec fn info_spec(m: Self) -> SOMTypeInfo {
        SOMTypeInfo::FixedLength
    }

    fn serialize(&self, serializer: &mut SOMSerializer) -> (r: Result<usize, SOMError>) {
        enum_serialize(self, SOMEndian::Big, serializer)
    }

    fn parse(&mut self, parser: &mut SOMParser) -> (r: Result<usize, SOMError>) {
        enum_read(self, SOMEndian::Big, parser)
    }

    fn size(&self) -> (r: usize) {
        T::wire_width()
    }

    fn info(&self) -> (r: SOMTypeInfo) {
        SOMTypeInfo::FixedLength
    }
}

/// An enumeration with a byte order.
#[derive(Debug)]
pub struct SOMEnumTypeWithEndian<T> {
    /// The enumeration.
    pub enumeration: SOMEnumType<T>,
    /// The byte order.
    pub endian: SOMEndian,
}

impl<T: WirePrim> SOMEnumTypeWithEndian<T> {
    /// An enumeration without items.
    pub fn new(endian: SOMEndian) -> (r: SOMEnumTypeWithEndian<T>)
        ensures
            r.enumeration.spec_variants() == Seq::<SOMEnumTypeItem<T>>::empty(),
            r.enumeration.spec_index() == 0,
            r.enumeration.spec_meta() == None::<SOMTypeMeta>,
            r.endian == endian,
    {
        SOMEnumTypeWithEndian { enumeration: SOMEnumType::new(), endian }
    }

    /// An enumeration of the given items, each added in turn.
    pub fn from(endian: SOMEndian, variants: Vec<SOMEnumTypeItem<T>>) -> (r:
        SOMEnumTypeWithEndian<T>)
        ensures
            r.enumeration.spec_index() == 0,
            r.enumeration.spec_meta() == None::<SOMTypeMeta>,
            items_view(r.enumeration.spec_variants()) == added_items(items_view(variants@)),
            r.endian == endian,
    {
        SOMEnumTypeWithEndian { enumeration: SOMEnumType::from(variants), endian }
    }

    /// The number of items.
    pub fn len(&self) -> (r: usize)
        ensures
            r == self.enumeration.spec_variants().len(),
    {
        self.enumeration.len()
    }

    /// Adds the value `value` named `key`, unless an item has that name or
    /// that value already.
    pub fn add(&mut self, key: String, value: T)
        ensures
            final(self).endian == old(self).endian,
            final(self).enumeration.spec_index() == old(self).enumeration.spec_index(),
            (exists|i: int|
                0 <= i < old(self).enumeration.spec_variants().len() && #[trigger] item_matches(
                    old(self).enumeration.spec_variants()[i],
                    key@,
                    value,
                )) ==> final(self).enumeration.spec_variants() == old(self).enumeration.spec_variants(),
            !(exists|i: int|
                0 <= i < old(self).enumeration.spec_variants().len() && #[trigger] item_matches(
                    old(self).enumeration.spec_variants()[i],
                    key@,
                    value,
                )) ==> (final(self).enumeration.spec_variants().len() == old(self).enumeration.spec_variants().len() + 1 && final(self).enumeration.spec_variants().drop_last() == old(self).enumeration.spec_variants()
                && final(self).enumeration.spec_variants().last().spec_key() == key@ && final(self).enumeration.spec_variants().last().spec_value() == value),
    {
        self.enumeration.add(key, value);
    }

    /// Whether an item is selected.
    pub fn has_value(&self) -> (r: bool)
        ensures
            r == (self.enumeration.spec_index() != 0),
    {
        self.enumeration.has_value()
    }

    /// The value of the selected item, if any.
    pub fn get(&self) -> (r: Option<T>)
        ensures
            self.enumeration.selected() is None ==> r == None::<T>,
            self.enumeration.selected() matches Some(item) ==> r == Some(item.spec_value()),
    {
        self.enumeration.get()
    }

    /// Selects the first item named `key`; false where there is none.
    pub fn set(&mut self, key: String) -> (r: bool)
        ensures
            final(self).endian == old(self).endian,
            r == first_key_index(old(self).enumeration.spec_variants(), key@) is Some,
            r ==> final(self).enumeration == old(self).enumeration.with_index(
                (first_key_index(old(self).enumeration.spec_variants(), key@)->0 + 1) as nat,
            ),
            !r ==> final(self).enumeration == old(self).enumeration,
    {
        self.enumeration.set(key)
    }

    /// Selects the first item of value `value`; false where there is none.
    pub fn set_value(&mut self, value: T) -> (r: bool)
        ensures
            final(self).endian == old(self).endian,
            r == first_value_index(old(self).enumeration.spec_variants(), value) is Some,
            r ==> final(self).enumeration == old(self).enumeration.with_index(
                (first_value_index(old(self).enumeration.spec_variants(), value)->0 + 1) as nat,
            ),
            !r ==> final(self).enumeration == old(self).enumeration,
    {
        self.enumeration.set_value(value)
    }

    /// Selects no item.
    pub fn clear(&mut self)
        ensures
            final(self).endian == old(self).endian,
            final(self).enumeration.spec_variants() == old(self).enumeration.spec_variants(),
            final(self).enumeration.spec_meta() == old(self).enumeration.spec_meta(),
            final(self).enumeration.spec_index() == 0,
    {
        self.enumeration.clear()
    }

    /// The enumeration without its byte order.
    pub fn enumeration(&self) -> (r: &SOMEnumType<T>)
        ensures
            *r == self.enumeration,
    {
        &self.enumeration
    }

    /// The enumeration shown with the name and description `meta`.
    pub fn with_meta(self, meta: SOMTypeMeta) -> (r: SOMEnumTypeWithEndian<T>)
        ensures
            r.enumeration.spec_variants() == self.enumeration.spec_variants(),
            r.enumeration.spec_index() == self.enumeration.spec_index(),
            r.enumeration.spec_meta() == Some(meta),
            r.endian == self.endian,
    {
        SOMEnumTypeWithEndian { enumeration: self.enumeration.with_meta(meta), endian: self.endian }
    }

    /// The name and description that the value is shown with, if any.
    pub fn meta(&self) -> (r: Option<&SOMTypeMeta>)
        ensures
            r is None <==> self.enumeration.spec_meta() is None,
            r matches Some(m) ==> self.enumeration.spec_meta() == Some(*m),
    {
        self.enumeration.meta()
    }
}

impl<T: WirePrim> SOMType for SOMEnumTypeWithEndian<T> {
    type Model = SOMEnumTypeWithEndian<T>;

    open spec fn model(&self) -> Self {
        *self
    }

    open spec fn ser_spec(m: Self, offset: int, buf: Seq<u8>) -> Result<Seq<u8>, SOMErrorView> {
        enum_ser(m.enumeration, m.endian, offset, buf)
    }

    open spec fn parse_spec(m: Self, offset: int, data: Seq<u8>) -> (Self, Result<nat, SOMErrorView>) {
        let (e, r) = enum_parse(m.enumeration, m.endian, offset, data);
        (SOMEnumTypeWithEndian { enumeration: e, endian: m.endian }, r)
    }

    open spec fn parse_safe(m: Self, offset: int, data: Seq<u8>) -> bool {
        true
    }

    open spec fn ser_safe(m: Self) -> bool {
        true
    }

    open spec fn size_spec(m: Self) -> nat {
        T::width()
    }

    open spec fn info_spec(m: Self) -> SOMTypeInfo {
        SOMTypeInfo::FixedLength
    }

    fn serialize(&self, serializer: &mut SOMSerializer) -> (r: Result<usize, SOMError>) {
        enum_serialize(&self.enumeration, self.endian, serializer)
    }

    fn parse(&mut self, parser: &mut SOMParser) -> (r: Result<usize, SOMError>) {
        enum_read(&mut self.enumeration, self.endian, parser)
    }

    fn size(&self) -> (r: usize) {
        T::wire_width()
    }

    fn info(&self) -> (r: SOMTypeInfo) {
        SOMTypeInfo::FixedLength
    }
}

/// A named value of an enumeration.
pub type SOMEnum<T> = SOMEnumTypeItem<T>;

/// An enumeration of one-byte values.
pub type SOMu8Enum = SOMEnumType<u8>;

/// An enumeration of two-byte values.
pub type SOMu16Enum = SOMEnumTypeWithEndian<u16>;

/// An enumeration of four-byte values.
pub type SOMu32Enum = SOMEnumTypeWithEndian<u32>;

/// An enumeration of eight-byte values.
pub type SOMu64Enum = SOMEnumTypeWithEndian<u64>;

} // verus!
