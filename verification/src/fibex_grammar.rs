//! The model that the events of a FIBEX document describe.
//!
//! Each element of the document is read from the event after its start
//! event up to its end event. `x_run(evs, i, state)` reads the element `x`
//! from the event at `i` on, with what was read of it before `i` in
//! `state`; it gives the value of the element and the position after its
//! end event, or `None` where the element is malformed (a value is missing
//! or cannot be read) or the events end before it does.

use vstd::prelude::*;
use crate::fibex::{primitive_named, FibexArrayDimension, FibexPrimitive};
use crate::fibex_parser::{capitalize_text, decapitalize_text, usize_of};
use crate::fibex_view::{
    AttrV, CodingAttrV, CodingV, DatatypeV, DeclV, EnumItemV, MethodV, ModelV, ServiceV, TypeV,
};
use crate::fibex_xml::FibexEvent;

verus! {

/// The truth value that a text writes.
pub open spec fn bool_of(s: Seq<char>) -> Option<bool> {
    if s == "true"@ {
        Some(true)
    } else if s == "false"@ {
        Some(false)
    } else {
        None
    }
}

/// The utilization of a type: its attributes, in the order of the events.
pub open spec fn utilization_run(evs: Seq<FibexEvent>, i: int, attrs: Seq<AttrV>) -> Option<(Seq<AttrV>, int)>
    decreases evs.len() - i,
{
    if i < 0 || i >= evs.len() {
        None
    } else {
        match evs[i] {
            FibexEvent::HighLowByteOrder(v) => match bool_of(v@) {
                Some(b) => utilization_run(evs, i + 1, attrs.push(AttrV::HighLowByteOrder(b))),
                None => None,
            },
            FibexEvent::LengthField(v) => match usize_of(v@) {
                Some(n) => utilization_run(evs, i + 1, attrs.push(AttrV::LengthField(n))),
                None => None,
            },
            FibexEvent::ArrayLengthField(v) => match usize_of(v@) {
                Some(n) => utilization_run(evs, i + 1, attrs.push(AttrV::ArrayLengthField(n))),
                None => None,
            },
            FibexEvent::TypeLengthField(v) => match usize_of(v@) {
                Some(n) => utilization_run(evs, i + 1, attrs.push(AttrV::TypeLengthField(n))),
                None => None,
            },
            FibexEvent::BitLength(v) => match usize_of(v@) {
                Some(n) => utilization_run(evs, i + 1, attrs.push(AttrV::BitLength(n))),
                None => None,
            },
            FibexEvent::MinBitLength(v) => match usize_of(v@) {
                Some(n) => utilization_run(evs, i + 1, attrs.push(AttrV::MinBitLength(n))),
                None => None,
            },
            FibexEvent::MaxBitLength(v) => match usize_of(v@) {
                Some(n) => utilization_run(evs, i + 1, attrs.push(AttrV::MaxBitLength(n))),
                None => None,
            },
            FibexEvent::UtilizationEnd => Some((attrs, i + 1)),
            FibexEvent::Eof => None,
            _ => utilization_run(evs, i + 1, attrs),
        }
    }
}

/// What is read of an array declaration: the dimensions so far, and the
/// number, minimum and maximum size of the current one.
pub struct ArrayState {
    pub dims: Seq<FibexArrayDimension>,
    pub index: Option<usize>,
    pub min: Option<usize>,
    pub max: Option<usize>,
}

/// A number, or 0 where none is given.
pub open spec fn or_zero(v: Option<usize>) -> usize {
    match v {
        Some(n) => n,
        None => 0,
    }
}

/// An array declaration: its dimensions, each with its number and its
/// minimum and maximum size (0 where none is given).
pub open spec fn array_run(evs: Seq<FibexEvent>, i: int, st: ArrayState) -> Option<(AttrV, int)>
    decreases evs.len() - i,
{
    if i < 0 || i >= evs.len() {
        None
    } else {
        match evs[i] {
            FibexEvent::ArrayDimensionStart => array_run(
                evs,
                i + 1,
                ArrayState { index: None, min: None, max: None, ..st },
            ),
            FibexEvent::ArrayDimension(v) => match usize_of(v@) {
                Some(n) => array_run(evs, i + 1, ArrayState { index: Some(n), ..st }),
                None => None,
            },
            FibexEvent::MinimumSize(v) => match usize_of(v@) {
                Some(n) => array_run(evs, i + 1, ArrayState { min: Some(n), ..st }),
                None => None,
            },
            FibexEvent::MaximumSize(v) => match usize_of(v@) {
                Some(n) => array_run(evs, i + 1, ArrayState { max: Some(n), ..st }),
                None => None,
            },
            FibexEvent::ArrayDimensionEnd => match st.index {
                Some(n) => array_run(
                    evs,
                    i + 1,
                    ArrayState {
                        dims: st.dims.push(
                            FibexArrayDimension { index: n, min: or_zero(st.min), max: or_zero(st.max) },
                        ),
                        ..st
                    },
                ),
                None => None,
            },
            FibexEvent::ArrayDeclarationEnd => Some((AttrV::ArrayDeclaration(st.dims), i + 1)),
            FibexEvent::Eof => None,
            _ => array_run(evs, i + 1, st),
        }
    }
}

/// The state an array declaration starts in.
pub open spec fn array_start() -> ArrayState {
    ArrayState { dims: Seq::empty(), index: None, min: None, max: None }
}

/// An item of an enumeration: its name and value, the last given of each.
pub open spec fn enum_item_run(
    evs: Seq<FibexEvent>,
    i: int,
    name: Option<Seq<char>>,
    value: Option<Seq<char>>,
) -> Option<(EnumItemV, int)>
    decreases evs.len() - i,
{
    if i < 0 || i >= evs.len() {
        None
    } else {
        match evs[i] {
            FibexEvent::EnumName(n) => enum_item_run(evs, i + 1, Some(n@), value),
            FibexEvent::EnumValue(v) => enum_item_run(evs, i + 1, name, Some(v@)),
            FibexEvent::EnumEnd => match (name, value) {
                (Some(n), Some(v)) => Some((EnumItemV { name: n, value: v }, i + 1)),
                _ => None,
            },
            FibexEvent::Eof => None,
            _ => enum_item_run(evs, i + 1, name, value),
        }
    }
}

/// The attributes of a coded type: those of its texts that are not empty,
/// in the order base type, category, encoding, byte order mark,
/// termination.
pub open spec fn coded_type_attrs(
    base_type: Seq<char>,
    category: Seq<char>,
    encoding: Seq<char>,
    bom: Seq<char>,
    termination: Seq<char>,
) -> Seq<CodingAttrV> {
    let a0: Seq<CodingAttrV> = if base_type.len() > 0 {
        seq![CodingAttrV::BaseType(base_type)]
    } else {
        seq![]
    };
    let a1 = if category.len() > 0 {
        a0.push(CodingAttrV::Category(category))
    } else {
        a0
    };
    let a2 = if encoding.len() > 0 {
        a1.push(CodingAttrV::Encoding(encoding))
    } else {
        a1
    };
    let a3 = if bom.len() > 0 {
        a2.push(CodingAttrV::Bom(bom))
    } else {
        a2
    };
    if termination.len() > 0 {
        a3.push(CodingAttrV::Termination(termination))
    } else {
        a3
    }
}

/// A coding: its name (the last given), and its attributes in the order of
/// the events; a length that is given as an empty text is left out.
pub open spec fn coding_run(
    evs: Seq<FibexEvent>,
    i: int,
    id: Seq<char>,
    name: Option<Seq<char>>,
    attrs: Seq<CodingAttrV>,
) -> Option<(CodingV, int)>
    decreases evs.len() - i,
{
    if i < 0 || i >= evs.len() {
        None
    } else {
        match evs[i] {
            FibexEvent::ShortName(n) => coding_run(evs, i + 1, id, Some(n@), attrs),
            FibexEvent::CodedType(b, c, e, m, t) => coding_run(
                evs,
                i + 1,
                id,
                name,
                attrs + coded_type_attrs(b@, c@, e@, m@, t@),
            ),
            FibexEvent::MinLength(v) => if v@.len() == 0 {
                coding_run(evs, i + 1, id, name, attrs)
            } else {
                match usize_of(v@) {
                    Some(n) => coding_run(evs, i + 1, id, name, attrs.push(CodingAttrV::MinLength(n))),
                    None => None,
                }
            },
            FibexEvent::MaxLength(v) => if v@.len() == 0 {
                coding_run(evs, i + 1, id, name, attrs)
            } else {
                match usize_of(v@) {
                    Some(n) => coding_run(evs, i + 1, id, name, attrs.push(CodingAttrV::MaxLength(n))),
                    None => None,
                }
            },
            FibexEvent::BitLength(v) => if v@.len() == 0 {
                coding_run(evs, i + 1, id, name, attrs)
            } else {
                match usize_of(v@) {
                    Some(n) => coding_run(evs, i + 1, id, name, attrs.push(CodingAttrV::BitLength(n))),
                    None => None,
                }
            },
            FibexEvent::CodingInfoEnd => match name {
                Some(n) => Some((CodingV { id, name: n, attributes: attrs }, i + 1)),
                None => None,
            },
            FibexEvent::Eof => None,
            _ => coding_run(evs, i + 1, id, name, attrs),
        }
    }
}

/// The processing information: its codings.
pub open spec fn processing_run(evs: Seq<FibexEvent>, i: int, codings: Seq<CodingV>) -> Option<(Seq<CodingV>, int)>
    decreases evs.len() - i,
{
    if i < 0 || i >= evs.len() {
        None
    } else {
        match evs[i] {
            FibexEvent::CodingInfoStart(cid) => match coding_run(evs, i + 1, cid@, None, seq![]) {
                Some((c, j)) => if i < j <= evs.len() {
                    processing_run(evs, j, codings.push(c))
                } else {
                    None
                },
                None => None,
            },
            FibexEvent::ProcessingInfoEnd => Some((codings, i + 1)),
            FibexEvent::Eof => None,
            _ => processing_run(evs, i + 1, codings),
        }
    }
}

/// An item of an enumeration data type read from the event at `i` on.
pub open spec fn enum_item_at(evs: Seq<FibexEvent>, i: int) -> Option<(EnumItemV, int)> {
    enum_item_run(evs, i, None, None)
}

/// An enumeration data type: its name (the last given, first character in
/// upper case), its coding and its items.
pub open spec fn enum_type_run(
    evs: Seq<FibexEvent>,
    i: int,
    id: Seq<char>,
    name: Option<Seq<char>>,
    coding: Option<Seq<char>>,
    items: Seq<EnumItemV>,
) -> Option<(TypeV, int)>
    decreases evs.len() - i,
{
    if i < 0 || i >= evs.len() {
        None
    } else {
        match evs[i] {
            FibexEvent::ShortName(n) => enum_type_run(evs, i + 1, id, Some(n@), coding, items),
            FibexEvent::CodingRef(c) => enum_type_run(evs, i + 1, id, name, Some(c@), items),
            FibexEvent::DatatypeEnd => match (name, coding) {
                (Some(n), Some(c)) => Some(
                    (
                        TypeV {
                            id,
                            name: capitalize_text(n, false),
                            datatype: DatatypeV::Enum(FibexPrimitive::Unknown, items),
                            coding_ref: Some(c),
                        },
                        i + 1,
                    ),
                ),
                _ => None,
            },
            FibexEvent::EnumStart => match enum_item_at(evs, i + 1) {
                Some((item, j)) => if i < j <= evs.len() {
                    enum_type_run(evs, j, id, name, coding, items.push(item))
                } else {
                    None
                },
                None => None,
            },
            FibexEvent::Eof => None,
            _ => enum_type_run(evs, i + 1, id, name, coding, items),
        }
    }
}

/// A member or parameter: its name (the last given, first character in
/// lower case), the identifier of its type (the last given), and its
/// array declarations, utilizations and positions in the order of the
/// events.
pub open spec fn member_run(
    evs: Seq<FibexEvent>,
    i: int,
    id: Seq<char>,
    name: Option<Seq<char>>,
    type_id: Option<Seq<char>>,
    attrs: Seq<AttrV>,
) -> Option<(DeclV, int)>
    decreases evs.len() - i,
{
    if i < 0 || i >= evs.len() {
        None
    } else {
        match evs[i] {
            FibexEvent::ShortName(n) => member_run(evs, i + 1, id, Some(n@), type_id, attrs),
            FibexEvent::DatatypeRef(t) => member_run(evs, i + 1, id, name, Some(t@), attrs),
            FibexEvent::ArrayDeclarationStart => match array_run(evs, i + 1, array_start()) {
                Some((a, j)) => if i < j <= evs.len() {
                    member_run(evs, j, id, name, type_id, attrs.push(a))
                } else {
                    None
                },
                None => None,
            },
            FibexEvent::UtilizationStart => match utilization_run(evs, i + 1, seq![]) {
                Some((u, j)) => if i < j <= evs.len() {
                    member_run(evs, j, id, name, type_id, attrs + u)
                } else {
                    None
                },
                None => None,
            },
            FibexEvent::Position(v) => match usize_of(v@) {
                Some(n) => member_run(evs, i + 1, id, name, type_id, attrs.push(AttrV::Position(n))),
                None => None,
            },
            FibexEvent::DatatypeMemberEnd => match (name, type_id) {
                (Some(n), Some(t)) => Some(
                    (
                        DeclV {
                            id,
                            name: decapitalize_text(n, false),
                            id_ref: t,
                            type_ref: None,
                            attributes: attrs,
                        },
                        i + 1,
                    ),
                ),
                _ => None,
            },
            FibexEvent::Eof => None,
            _ => member_run(evs, i + 1, id, name, type_id, attrs),
        }
    }
}

/// A member read from the event at `i` on.
pub open spec fn member_at(evs: Seq<FibexEvent>, i: int, id: Seq<char>) -> Option<(DeclV, int)> {
    member_run(evs, i, id, None, None, seq![])
}

/// The position of a member: that of its first position attribute, 0
/// where it has none.
pub open spec fn position_in(attrs: Seq<AttrV>) -> usize
    decreases attrs.len(),
{
    if attrs.len() == 0 {
        0
    } else {
        match attrs[0] {
            AttrV::Position(n) => n,
            _ => position_in(attrs.drop_first()),
        }
    }
}

/// `x` inserted into `s` after every member whose position is no greater.
pub open spec fn insert_by_position(s: Seq<DeclV>, x: DeclV) -> Seq<DeclV>
    decreases s.len(),
{
    if s.len() == 0 {
        seq![x]
    } else if position_in(s.last().attributes) > position_in(x.attributes) {
        insert_by_position(s.drop_last(), x).push(s.last())
    } else {
        s.push(x)
    }
}

/// The members ordered by their positions, members of one position in the
/// order they came in (a stable sort, by insertion).
pub open spec fn sorted_by_position(s: Seq<DeclV>) -> Seq<DeclV>
    decreases s.len(),
{
    if s.len() == 0 {
        s
    } else {
        insert_by_position(sorted_by_position(s.drop_last()), s.last())
    }
}

/// A common data type: its name (the last given, first character in upper
/// case), the primitive type that the last name naming one names, and its
/// coding (the last given).
pub open spec fn common_type_run(
    evs: Seq<FibexEvent>,
    i: int,
    id: Seq<char>,
    name: Option<Seq<char>>,
    datatype: DatatypeV,
    coding: Option<Seq<char>>,
) -> Option<(TypeV, int)>
    decreases evs.len() - i,
{
    if i < 0 || i >= evs.len() {
        None
    } else {
        match evs[i] {
            FibexEvent::ShortName(n) => {
                let p = primitive_named(n@);
                common_type_run(
                    evs,
                    i + 1,
                    id,
                    Some(n@),
                    if p != FibexPrimitive::Unknown {
                        DatatypeV::Primitive(p)
                    } else {
                        datatype
                    },
                    coding,
                )
            },
            FibexEvent::CodingRef(c) => common_type_run(evs, i + 1, id, name, datatype, Some(c@)),
            FibexEvent::DatatypeEnd => match name {
                Some(n) => Some(
                    (TypeV { id, name: capitalize_text(n, false), datatype, coding_ref: coding }, i + 1),
                ),
                None => None,
            },
            FibexEvent::Eof => None,
            _ => common_type_run(evs, i + 1, id, name, datatype, coding),
        }
    }
}

/// A complex data type: a structure (or type definition) once its class
/// says so, from which on its members are read; the members are ordered by
/// their positions.
pub open spec fn complex_type_run(
    evs: Seq<FibexEvent>,
    i: int,
    id: Seq<char>,
    name: Option<Seq<char>>,
    members: Option<Seq<DeclV>>,
) -> Option<(TypeV, int)>
    decreases evs.len() - i,
{
    if i < 0 || i >= evs.len() {
        None
    } else {
        match evs[i] {
            FibexEvent::ShortName(n) => complex_type_run(evs, i + 1, id, Some(n@), members),
            FibexEvent::DatatypeClass(c) => complex_type_run(
                evs,
                i + 1,
                id,
                name,
                if c@ == "STRUCTURE"@ || c@ == "TYPEDEF"@ {
                    Some(seq![])
                } else {
                    members
                },
            ),
            FibexEvent::DatatypeMemberStart(mid) => match members {
                Some(ms) => match member_at(evs, i + 1, mid@) {
                    Some((d, j)) => if i < j <= evs.len() {
                        complex_type_run(evs, j, id, name, Some(ms.push(d)))
                    } else {
                        None
                    },
                    None => None,
                },
                None => complex_type_run(evs, i + 1, id, name, members),
            },
            FibexEvent::DatatypeEnd => match name {
                Some(n) => Some(
                    (
                        TypeV {
                            id,
                            name: capitalize_text(n, false),
                            datatype: match members {
                                Some(ms) => DatatypeV::Struct(sorted_by_position(ms)),
                                None => DatatypeV::Unknown,
                            },
                            coding_ref: None,
                        },
                        i + 1,
                    ),
                ),
                None => None,
            },
            FibexEvent::Eof => None,
            _ => complex_type_run(evs, i + 1, id, name, members),
        }
    }
}

/// The parameters of a method: a structure with the identifier `id` and no
/// name, of the members ordered by their positions.
pub open spec fn parameter_run(evs: Seq<FibexEvent>, i: int, id: Seq<char>, members: Seq<DeclV>) -> Option<(TypeV, int)>
    decreases evs.len() - i,
{
    if i < 0 || i >= evs.len() {
        None
    } else {
        match evs[i] {
            FibexEvent::DatatypeMemberStart(mid) => match member_at(evs, i + 1, mid@) {
                Some((d, j)) => if i < j <= evs.len() {
                    parameter_run(evs, j, id, members.push(d))
                } else {
                    None
                },
                None => None,
            },
            FibexEvent::MethodParamEnd => Some(
                (
                    TypeV {
                        id,
                        name: seq![],
                        datatype: DatatypeV::Struct(sorted_by_position(members)),
                        coding_ref: None,
                    },
                    i + 1,
                ),
            ),
            FibexEvent::Eof => None,
            _ => parameter_run(evs, i + 1, id, members),
        }
    }
}

/// What is read of a method: its name, its method id, and the declarations
/// of its request and response.
pub struct MethodState {
    pub name: Option<Seq<char>>,
    pub method_id: Option<usize>,
    pub request: Option<DeclV>,
    pub response: Option<DeclV>,
}

/// The state a method starts in.
pub open spec fn method_start() -> MethodState {
    MethodState { name: None, method_id: None, request: None, response: None }
}

/// The declaration of the request or response of a method that refers to
/// the type `t`, at `k` in the table of types.
pub open spec fn parameter_decl(id: Seq<char>, suffix: Seq<char>, t: TypeV, k: int) -> DeclV {
    DeclV { id: id + "/"@ + suffix, name: seq![], id_ref: t.id, type_ref: Some(k as usize), attributes: seq![] }
}

/// A method or event: its name (the last given, first character in lower
/// case), its method id, and the structures of its input and return
/// parameters, which are added to the table of types `types`; the
/// declarations of its request and response refer to them.
pub open spec fn method_run(
    evs: Seq<FibexEvent>,
    i: int,
    id: Seq<char>,
    st: MethodState,
    types: Seq<TypeV>,
) -> Option<(MethodV, Seq<TypeV>, int)>
    decreases evs.len() - i,
{
    if i < 0 || i >= evs.len() {
        None
    } else {
        match evs[i] {
            FibexEvent::ShortName(n) => method_run(evs, i + 1, id, MethodState { name: Some(n@), ..st }, types),
            FibexEvent::MethodIdentifier(v) => match usize_of(v@) {
                Some(n) => method_run(evs, i + 1, id, MethodState { method_id: Some(n), ..st }, types),
                None => None,
            },
            FibexEvent::MethodInputStart => match parameter_run(evs, i + 1, id + "/"@ + "Request"@, seq![]) {
                Some((t, j)) => if i < j <= evs.len() {
                    method_run(
                        evs,
                        j,
                        id,
                        MethodState { request: Some(parameter_decl(id, "Request"@, t, types.len() as int)), ..st },
                        types.push(t),
                    )
                } else {
                    None
                },
                None => None,
            },
            FibexEvent::MethodOutputStart => match parameter_run(evs, i + 1, id + "/"@ + "Response"@, seq![]) {
                Some((t, j)) => if i < j <= evs.len() {
                    method_run(
                        evs,
                        j,
                        id,
                        MethodState { response: Some(parameter_decl(id, "Response"@, t, types.len() as int)), ..st },
                        types.push(t),
                    )
                } else {
                    None
                },
                None => None,
            },
            FibexEvent::MethodEnd => match (st.name, st.method_id) {
                (Some(n), Some(m)) => Some(
                    (
                        MethodV {
                            id,
                            name: decapitalize_text(n, false),
                            method_id: m,
                            request: st.request,
                            response: st.response,
                        },
                        types,
                        i + 1,
                    ),
                ),
                _ => None,
            },
            FibexEvent::Eof => None,
            _ => method_run(evs, i + 1, id, st, types),
        }
    }
}

/// The declaration of the value of the accessor `accessor` of the field
/// `id`, whose type is at `type_ref`.
pub open spec fn accessor_decl(id: Seq<char>, accessor: Seq<char>, type_ref: usize) -> DeclV {
    DeclV { id: id + "/"@ + accessor, name: seq![], id_ref: id, type_ref: Some(type_ref), attributes: seq![] }
}

/// An accessor of a field: its method id (the last given); it takes the
/// type of the field as its request, its response, or both.
pub open spec fn accessor_run(
    evs: Seq<FibexEvent>,
    i: int,
    id: Seq<char>,
    accessor: Seq<char>,
    name: Seq<char>,
    type_ref: usize,
    has_request: bool,
    has_response: bool,
    method_id: Option<usize>,
) -> Option<(MethodV, int)>
    decreases evs.len() - i,
{
    if i < 0 || i >= evs.len() {
        None
    } else {
        match evs[i] {
            FibexEvent::MethodIdentifier(v) => match usize_of(v@) {
                Some(n) => accessor_run(evs, i + 1, id, accessor, name, type_ref, has_request, has_response, Some(n)),
                None => None,
            },
            FibexEvent::NotificationIdentifier(v) => match usize_of(v@) {
                Some(n) => accessor_run(evs, i + 1, id, accessor, name, type_ref, has_request, has_response, Some(n)),
                None => None,
            },
            FibexEvent::FieldAccessorEnd => match method_id {
                Some(m) => Some(
                    (
                        MethodV {
                            id: id + "/"@ + accessor,
                            name,
                            method_id: m,
                            request: if has_request {
                                Some(accessor_decl(id, accessor, type_ref))
                            } else {
                                None
                            },
                            response: if has_response {
                                Some(accessor_decl(id, accessor, type_ref))
                            } else {
                                None
                            },
                        },
                        i + 1,
                    ),
                ),
                None => None,
            },
            FibexEvent::Eof => None,
            _ => accessor_run(evs, i + 1, id, accessor, name, type_ref, has_request, has_response, method_id),
        }
    }
}

/// What is read of a field: its name, the name and type identifier of its
/// one member (once its type is given), its accessors, and the attributes
/// of its member.
pub struct FieldState {
    pub name: Option<Seq<char>>,
    pub member: Option<(Seq<char>, Seq<char>)>,
    pub methods: Seq<MethodV>,
    pub attrs: Seq<AttrV>,
}

/// The state a field starts in.
pub open spec fn field_start() -> FieldState {
    FieldState { name: None, member: None, methods: seq![], attrs: seq![] }
}

/// The type of a field: a structure with the identifier of the field and
/// one member, of the field's name with its first character in lower case.
pub open spec fn field_type(id: Seq<char>, member_name: Seq<char>, id_ref: Seq<char>, attrs: Seq<AttrV>) -> TypeV {
    TypeV {
        id,
        name: seq![],
        datatype: DatatypeV::Struct(
            seq![DeclV { id, name: member_name, id_ref, type_ref: None, attributes: attrs }],
        ),
        coding_ref: None,
    }
}

/// An accessor of a field read from the event at `i` on, where the field
/// has a name and a type.
pub open spec fn field_accessor(
    evs: Seq<FibexEvent>,
    i: int,
    id: Seq<char>,
    slot: usize,
    st: FieldState,
    accessor: Seq<char>,
    name: Seq<char>,
    has_request: bool,
    has_response: bool,
) -> Option<(MethodV, int)> {
    if st.name is Some && st.member is Some {
        accessor_run(evs, i, id, accessor, name, slot, has_request, has_response, None)
    } else {
        None
    }
}

/// A field: its name (the last given), its type and utilization, and its
/// getter, setter and notifier. Its type is the structure of one member
/// that the last type reference gives, with the attributes of the field;
/// it takes the position `slot` in the table of types, and the accessors
/// refer to it.
pub open spec fn field_run(evs: Seq<FibexEvent>, i: int, id: Seq<char>, slot: usize, st: FieldState) -> Option<(Seq<MethodV>, TypeV, int)>
    decreases evs.len() - i,
{
    if i < 0 || i >= evs.len() {
        None
    } else {
        let n = match st.name {
            Some(n) => n,
            None => seq![],
        };
        match evs[i] {
            FibexEvent::ShortName(x) => field_run(evs, i + 1, id, slot, FieldState { name: Some(x@), ..st }),
            FibexEvent::DatatypeRef(r) => match st.name {
                Some(x) => field_run(
                    evs,
                    i + 1,
                    id,
                    slot,
                    FieldState { member: Some((decapitalize_text(x, false), r@)), ..st },
                ),
                None => None,
            },
            FibexEvent::ArrayDeclarationStart => match array_run(evs, i + 1, array_start()) {
                Some((a, j)) => if i < j <= evs.len() {
                    field_run(evs, j, id, slot, FieldState { attrs: st.attrs.push(a), ..st })
                } else {
                    None
                },
                None => None,
            },
            FibexEvent::UtilizationStart => match utilization_run(evs, i + 1, seq![]) {
                Some((u, j)) => if i < j <= evs.len() {
                    field_run(evs, j, id, slot, FieldState { attrs: st.attrs + u, ..st })
                } else {
                    None
                },
                None => None,
            },
            FibexEvent::FieldGetterStart => match field_accessor(
                evs,
                i + 1,
                id,
                slot,
                st,
                "Getter"@,
                "get"@ + capitalize_text(n, false),
                false,
                true,
            ) {
                Some((m, j)) => if i < j <= evs.len() {
                    field_run(evs, j, id, slot, FieldState { methods: st.methods.push(m), ..st })
                } else {
                    None
                },
                None => None,
            },
            FibexEvent::FieldSetterStart => match field_accessor(
                evs,
                i + 1,
                id,
                slot,
                st,
                "Setter"@,
                "set"@ + capitalize_text(n, false),
                true,
                true,
            ) {
                Some((m, j)) => if i < j <= evs.len() {
                    field_run(evs, j, id, slot, FieldState { methods: st.methods.push(m), ..st })
                } else {
                    None
                },
                None => None,
            },
            FibexEvent::FieldNotifierStart => match field_accessor(
                evs,
                i + 1,
                id,
                slot,
                st,
                "Notifier"@,
                decapitalize_text(n, false),
                true,
                false,
            ) {
                Some((m, j)) => if i < j <= evs.len() {
                    field_run(evs, j, id, slot, FieldState { methods: st.methods.push(m), ..st })
                } else {
                    None
                },
                None => None,
            },
            FibexEvent::FieldEnd => match st.member {
                Some((mn, r)) => Some((st.methods, field_type(id, mn, r, st.attrs), i + 1)),
                None => None,
            },
            FibexEvent::Eof => None,
            _ => field_run(evs, i + 1, id, slot, st),
        }
    }
}

/// What is read of a service: its name, id and versions, and its methods.
pub struct ServiceState {
    pub name: Option<Seq<char>>,
    pub service_id: Option<usize>,
    pub major_version: Option<usize>,
    pub minor_version: Option<usize>,
    pub methods: Seq<MethodV>,
}

/// The state a service starts in.
pub open spec fn service_start() -> ServiceState {
    ServiceState { name: None, service_id: None, major_version: None, minor_version: None, methods: seq![] }
}

/// A service: its name (the last given, first character in upper case),
/// id and versions, and its methods, events and field accessors in the
/// order of the events; the types of their parameters and fields are added
/// to the table of types `types`.
pub open spec fn service_run(
    evs: Seq<FibexEvent>,
    i: int,
    id: Seq<char>,
    st: ServiceState,
    types: Seq<TypeV>,
) -> Option<(ServiceV, Seq<TypeV>, int)>
    decreases evs.len() - i,
{
    if i < 0 || i >= evs.len() {
        None
    } else {
        match evs[i] {
            FibexEvent::ShortName(n) => service_run(evs, i + 1, id, ServiceState { name: Some(n@), ..st }, types),
            FibexEvent::ServiceIdentifier(v) => match usize_of(v@) {
                Some(n) => service_run(evs, i + 1, id, ServiceState { service_id: Some(n), ..st }, types),
                None => None,
            },
            FibexEvent::MajorVersion(v) => match usize_of(v@) {
                Some(n) => service_run(evs, i + 1, id, ServiceState { major_version: Some(n), ..st }, types),
                None => None,
            },
            FibexEvent::MinorVersion(v) => match usize_of(v@) {
                Some(n) => service_run(evs, i + 1, id, ServiceState { minor_version: Some(n), ..st }, types),
                None => None,
            },
            FibexEvent::MethodStart(mid) => match method_run(evs, i + 1, mid@, method_start(), types) {
                Some((m, ts, j)) => if i < j <= evs.len() {
                    service_run(evs, j, id, ServiceState { methods: st.methods.push(m), ..st }, ts)
                } else {
                    None
                },
                None => None,
            },
            FibexEvent::FieldStart(fid) => match field_run(evs, i + 1, fid@, types.len() as usize, field_start()) {
                Some((ms, t, j)) => if i < j <= evs.len() {
                    service_run(evs, j, id, ServiceState { methods: st.methods + ms, ..st }, types.push(t))
                } else {
                    None
                },
                None => None,
            },
            FibexEvent::ServiceEnd => match (st.name, st.service_id, st.major_version, st.minor_version) {
                (Some(n), Some(s), Some(a), Some(b)) => Some(
                    (
                        ServiceV {
                            id,
                            name: capitalize_text(n, false),
                            service_id: s,
                            major_version: a,
                            minor_version: b,
                            methods: st.methods,
                        },
                        types,
                        i + 1,
                    ),
                ),
                _ => None,
            },
            FibexEvent::Eof => None,
            _ => service_run(evs, i + 1, id, st, types),
        }
    }
}

/// A data type read from the event at `i` on, of the kind `kind`; `None`
/// for a kind that is not read.
pub open spec fn datatype_at(evs: Seq<FibexEvent>, i: int, id: Seq<char>, kind: Seq<char>) -> Option<Option<(TypeV, int)>> {
    if kind == "fx:COMMON-DATATYPE-TYPE"@ {
        Some(common_type_run(evs, i, id, None, DatatypeV::Unknown, None))
    } else if kind == "fx:COMPLEX-DATATYPE-TYPE"@ {
        Some(complex_type_run(evs, i, id, None, None))
    } else if kind == "fx:ENUM-DATATYPE-TYPE"@ {
        Some(enum_type_run(evs, i, id, None, None, seq![]))
    } else {
        None
    }
}

/// A document: its services, its data types (those of the document in
/// their order, each after the types of the parameters and fields of the
/// services before it), and the codings of its processing information, up
/// to the end of the document.
pub open spec fn fibex_run(evs: Seq<FibexEvent>, i: int, m: ModelV) -> Option<ModelV>
    decreases evs.len() - i,
{
    if i < 0 || i >= evs.len() {
        None
    } else {
        match evs[i] {
            FibexEvent::ServiceStart(id) => match service_run(evs, i + 1, id@, service_start(), m.types) {
                Some((s, ts, j)) => if i < j <= evs.len() {
                    fibex_run(evs, j, ModelV { services: m.services.push(s), types: ts, ..m })
                } else {
                    None
                },
                None => None,
            },
            FibexEvent::DatatypeStart(id, kind) => match datatype_at(evs, i + 1, id@, kind@) {
                Some(Some((t, j))) => if i < j <= evs.len() {
                    fibex_run(evs, j, ModelV { types: m.types.push(t), ..m })
                } else {
                    None
                },
                Some(None) => None,
                None => fibex_run(evs, i + 1, m),
            },
            FibexEvent::ProcessingInfoStart => match processing_run(evs, i + 1, seq![]) {
                Some((cs, j)) => if i < j <= evs.len() {
                    fibex_run(evs, j, ModelV { codings: m.codings + cs, ..m })
                } else {
                    None
                },
                None => None,
            },
            FibexEvent::Eof => Some(m),
            _ => fibex_run(evs, i + 1, m),
        }
    }
}

/// The model that the events of a document describe, before its codings
/// are applied and its references resolved.
pub open spec fn events_model(evs: Seq<FibexEvent>) -> Option<ModelV> {
    fibex_run(evs, 0, ModelV { services: seq![], types: seq![], codings: seq![] })
}

} // verus!
