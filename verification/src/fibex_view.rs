//! The mathematical values of the FIBEX model: each type of the model seen
//! with its texts as sequences of characters and its vectors as sequences.

use vstd::prelude::*;
use crate::fibex::{
    FibexArrayDimension, FibexCodingAttribute, FibexDatatype, FibexEnumDeclaration, FibexModel,
    FibexPrimitive, FibexServiceInterface, FibexServiceMethod, FibexString, FibexTypeAttribute,
    FibexTypeCoding, FibexTypeDeclaration, FibexTypeInstance,
};

verus! {

/// An attribute of a declaration.
pub enum AttrV {
    HighLowByteOrder(bool),
    LengthField(usize),
    ArrayLengthField(usize),
    ArrayDeclaration(Seq<FibexArrayDimension>),
    TypeLengthField(usize),
    BitLength(usize),
    MinBitLength(usize),
    MaxBitLength(usize),
    Position(usize),
}

/// A declaration of a value of some type.
pub struct DeclV {
    pub id: Seq<char>,
    pub name: Seq<char>,
    pub id_ref: Seq<char>,
    pub type_ref: Option<usize>,
    pub attributes: Seq<AttrV>,
}

/// An item of an enumeration.
pub struct EnumItemV {
    pub name: Seq<char>,
    pub value: Seq<char>,
}

/// What a data type is.
pub enum DatatypeV {
    Unknown,
    Primitive(FibexPrimitive),
    Struct(Seq<DeclV>),
    Enum(FibexPrimitive, Seq<EnumItemV>),
    String(FibexString),
}

/// A data type.
pub struct TypeV {
    pub id: Seq<char>,
    pub name: Seq<char>,
    pub datatype: DatatypeV,
    pub coding_ref: Option<Seq<char>>,
}

/// An attribute of a coding.
pub enum CodingAttrV {
    BaseType(Seq<char>),
    Category(Seq<char>),
    Encoding(Seq<char>),
    Bom(Seq<char>),
    Termination(Seq<char>),
    MinLength(usize),
    MaxLength(usize),
    BitLength(usize),
}

/// A coding.
pub struct CodingV {
    pub id: Seq<char>,
    pub name: Seq<char>,
    pub attributes: Seq<CodingAttrV>,
}

/// A method, event or field accessor.
pub struct MethodV {
    pub id: Seq<char>,
    pub name: Seq<char>,
    pub method_id: usize,
    pub request: Option<DeclV>,
    pub response: Option<DeclV>,
}

/// A service.
pub struct ServiceV {
    pub id: Seq<char>,
    pub name: Seq<char>,
    pub service_id: usize,
    pub major_version: usize,
    pub minor_version: usize,
    pub methods: Seq<MethodV>,
}

/// A model.
pub struct ModelV {
    pub services: Seq<ServiceV>,
    pub types: Seq<TypeV>,
    pub codings: Seq<CodingV>,
}

impl View for FibexTypeAttribute {
    type V = AttrV;

    open spec fn view(&self) -> AttrV {
        match self {
            FibexTypeAttribute::HighLowByteOrder(b) => AttrV::HighLowByteOrder(*b),
            FibexTypeAttribute::LengthField(v) => AttrV::LengthField(*v),
            FibexTypeAttribute::ArrayLengthField(v) => AttrV::ArrayLengthField(*v),
            FibexTypeAttribute::ArrayDeclaration(d) => AttrV::ArrayDeclaration(d@),
            FibexTypeAttribute::TypeLengthField(v) => AttrV::TypeLengthField(*v),
            FibexTypeAttribute::BitLength(v) => AttrV::BitLength(*v),
            FibexTypeAttribute::MinBitLength(v) => AttrV::MinBitLength(*v),
            FibexTypeAttribute::MaxBitLength(v) => AttrV::MaxBitLength(*v),
            FibexTypeAttribute::Position(v) => AttrV::Position(*v),
        }
    }
}

/// The values of attributes.
pub open spec fn attrs_view(s: Seq<FibexTypeAttribute>) -> Seq<AttrV> {
    s.map_values(|a: FibexTypeAttribute| a@)
}

impl View for FibexTypeDeclaration {
    type V = DeclV;

    open spec fn view(&self) -> DeclV {
        DeclV {
            id: self.id@,
            name: self.name@,
            id_ref: self.id_ref@,
            type_ref: self.type_ref,
            attributes: attrs_view(self.attributes@),
        }
    }
}

/// The values of declarations.
pub open spec fn decls_view(s: Seq<FibexTypeDeclaration>) -> Seq<DeclV> {
    s.map_values(|d: FibexTypeDeclaration| d@)
}

/// The values of declarations, if any.
pub open spec fn opt_decls_view(s: Option<Vec<FibexTypeDeclaration>>) -> Option<Seq<DeclV>> {
    match s {
        Some(v) => Some(decls_view(v@)),
        None => None,
    }
}

/// The value of a declaration, if any.
pub open spec fn opt_decl_view(d: Option<FibexTypeDeclaration>) -> Option<DeclV> {
    match d {
        Some(x) => Some(x@),
        None => None,
    }
}

impl View for FibexEnumDeclaration {
    type V = EnumItemV;

    open spec fn view(&self) -> EnumItemV {
        EnumItemV { name: self.name@, value: self.value@ }
    }
}

/// The values of items of an enumeration.
pub open spec fn items_view(s: Seq<FibexEnumDeclaration>) -> Seq<EnumItemV> {
    s.map_values(|d: FibexEnumDeclaration| d@)
}

impl View for FibexDatatype {
    type V = DatatypeV;

    open spec fn view(&self) -> DatatypeV {
        match self {
            FibexDatatype::Unknown => DatatypeV::Unknown,
            FibexDatatype::Primitive(p) => DatatypeV::Primitive(*p),
            FibexDatatype::Struct(s) => DatatypeV::Struct(decls_view(s.members@)),
            FibexDatatype::Enum(e) => DatatypeV::Enum(e.primitive, items_view(e.variants@)),
            FibexDatatype::String(s) => DatatypeV::String(*s),
        }
    }
}

/// The text, if any.
pub open spec fn opt_text_view(s: Option<String>) -> Option<Seq<char>> {
    match s {
        Some(x) => Some(x@),
        None => None,
    }
}

impl View for FibexTypeInstance {
    type V = TypeV;

    open spec fn view(&self) -> TypeV {
        TypeV {
            id: self.id@,
            name: self.name@,
            datatype: self.datatype@,
            coding_ref: opt_text_view(self.coding_ref),
        }
    }
}

/// The values of data types.
pub open spec fn types_view(s: Seq<FibexTypeInstance>) -> Seq<TypeV> {
    s.map_values(|t: FibexTypeInstance| t@)
}

impl View for FibexCodingAttribute {
    type V = CodingAttrV;

    open spec fn view(&self) -> CodingAttrV {
        match self {
            FibexCodingAttribute::BaseType(s) => CodingAttrV::BaseType(s@),
            FibexCodingAttribute::Category(s) => CodingAttrV::Category(s@),
            FibexCodingAttribute::Encoding(s) => CodingAttrV::Encoding(s@),
            FibexCodingAttribute::Bom(s) => CodingAttrV::Bom(s@),
            FibexCodingAttribute::Termination(s) => CodingAttrV::Termination(s@),
            FibexCodingAttribute::MinLength(v) => CodingAttrV::MinLength(*v),
            FibexCodingAttribute::MaxLength(v) => CodingAttrV::MaxLength(*v),
            FibexCodingAttribute::BitLength(v) => CodingAttrV::BitLength(*v),
        }
    }
}

/// The values of attributes of a coding.
pub open spec fn coding_attrs_view(s: Seq<FibexCodingAttribute>) -> Seq<CodingAttrV> {
    s.map_values(|a: FibexCodingAttribute| a@)
}

impl View for FibexTypeCoding {
    type V = CodingV;

    open spec fn view(&self) -> CodingV {
        CodingV { id: self.id@, name: self.name@, attributes: coding_attrs_view(self.attributes@) }
    }
}

/// The values of codings.
pub open spec fn codings_view(s: Seq<FibexTypeCoding>) -> Seq<CodingV> {
    s.map_values(|c: FibexTypeCoding| c@)
}

impl View for FibexServiceMethod {
    type V = MethodV;

    open spec fn view(&self) -> MethodV {
        MethodV {
            id: self.id@,
            name: self.name@,
            method_id: self.method_id,
            request: opt_decl_view(self.request),
            response: opt_decl_view(self.response),
        }
    }
}

/// The values of methods.
pub open spec fn methods_view(s: Seq<FibexServiceMethod>) -> Seq<MethodV> {
    s.map_values(|m: FibexServiceMethod| m@)
}

impl View for FibexServiceInterface {
    type V = ServiceV;

    open spec fn view(&self) -> ServiceV {
        ServiceV {
            id: self.id@,
            name: self.name@,
            service_id: self.service_id,
            major_version: self.major_version,
            minor_version: self.minor_version,
            methods: methods_view(self.methods@),
        }
    }
}

/// The values of services.
pub open spec fn services_view(s: Seq<FibexServiceInterface>) -> Seq<ServiceV> {
    s.map_values(|x: FibexServiceInterface| x@)
}

impl View for FibexModel {
    type V = ModelV;

    open spec fn view(&self) -> ModelV {
        ModelV {
            services: services_view(self.services@),
            types: types_view(self.types@),
            codings: codings_view(self.codings@),
        }
    }
}

/// The value of a sequence with one more element.
pub broadcast proof fn lemma_attrs_view_push(s: Seq<FibexTypeAttribute>, x: FibexTypeAttribute)
    ensures
        #[trigger] attrs_view(s.push(x)) == attrs_view(s).push(x@),
{
    assert(attrs_view(s.push(x)) =~= attrs_view(s).push(x@));
}

/// The value of two sequences one after the other.
pub broadcast proof fn lemma_attrs_view_add(s: Seq<FibexTypeAttribute>, u: Seq<FibexTypeAttribute>)
    ensures
        #[trigger] attrs_view(s + u) == attrs_view(s) + attrs_view(u),
{
    assert(attrs_view(s + u) =~= attrs_view(s) + attrs_view(u));
}

/// The value of a sequence with one more element.
pub broadcast proof fn lemma_decls_view_push(s: Seq<FibexTypeDeclaration>, x: FibexTypeDeclaration)
    ensures
        #[trigger] decls_view(s.push(x)) == decls_view(s).push(x@),
{
    assert(decls_view(s.push(x)) =~= decls_view(s).push(x@));
}

/// The value of two sequences one after the other.
pub broadcast proof fn lemma_decls_view_add(s: Seq<FibexTypeDeclaration>, u: Seq<FibexTypeDeclaration>)
    ensures
        #[trigger] decls_view(s + u) == decls_view(s) + decls_view(u),
{
    assert(decls_view(s + u) =~= decls_view(s) + decls_view(u));
}

/// The value of a sequence with one more element.
pub broadcast proof fn lemma_items_view_push(s: Seq<FibexEnumDeclaration>, x: FibexEnumDeclaration)
    ensures
        #[trigger] items_view(s.push(x)) == items_view(s).push(x@),
{
    assert(items_view(s.push(x)) =~= items_view(s).push(x@));
}

/// The value of two sequences one after the other.
pub broadcast proof fn lemma_items_view_add(s: Seq<FibexEnumDeclaration>, u: Seq<FibexEnumDeclaration>)
    ensures
        #[trigger] items_view(s + u) == items_view(s) + items_view(u),
{
    assert(items_view(s + u) =~= items_view(s) + items_view(u));
}

/// The value of a sequence with one more element.
pub broadcast proof fn lemma_types_view_push(s: Seq<FibexTypeInstance>, x: FibexTypeInstance)
    ensures
        #[trigger] types_view(s.push(x)) == types_view(s).push(x@),
{
    assert(types_view(s.push(x)) =~= types_view(s).push(x@));
}

/// The value of two sequences one after the other.
pub broadcast proof fn lemma_types_view_add(s: Seq<FibexTypeInstance>, u: Seq<FibexTypeInstance>)
    ensures
        #[trigger] types_view(s + u) == types_view(s) + types_view(u),
{
    assert(types_view(s + u) =~= types_view(s) + types_view(u));
}

/// The value of a sequence with one more element.
pub broadcast proof fn lemma_coding_attrs_view_push(s: Seq<FibexCodingAttribute>, x: FibexCodingAttribute)
    ensures
        #[trigger] coding_attrs_view(s.push(x)) == coding_attrs_view(s).push(x@),
{
    assert(coding_attrs_view(s.push(x)) =~= coding_attrs_view(s).push(x@));
}

/// The value of two sequences one after the other.
pub broadcast proof fn lemma_coding_attrs_view_add(s: Seq<FibexCodingAttribute>, u: Seq<FibexCodingAttribute>)
    ensures
        #[trigger] coding_attrs_view(s + u) == coding_attrs_view(s) + coding_attrs_view(u),
{
    assert(coding_attrs_view(s + u) =~= coding_attrs_view(s) + coding_attrs_view(u));
}

/// The value of a sequence with one more element.
pub broadcast proof fn lemma_codings_view_push(s: Seq<FibexTypeCoding>, x: FibexTypeCoding)
    ensures
        #[trigger] codings_view(s.push(x)) == codings_view(s).push(x@),
{
    assert(codings_view(s.push(x)) =~= codings_view(s).push(x@));
}

/// The value of two sequences one after the other.
pub broadcast proof fn lemma_codings_view_add(s: Seq<FibexTypeCoding>, u: Seq<FibexTypeCoding>)
    ensures
        #[trigger] codings_view(s + u) == codings_view(s) + codings_view(u),
{
    assert(codings_view(s + u) =~= codings_view(s) + codings_view(u));
}

/// The value of a sequence with one more element.
pub broadcast proof fn lemma_methods_view_push(s: Seq<FibexServiceMethod>, x: FibexServiceMethod)
    ensures
        #[trigger] methods_view(s.push(x)) == methods_view(s).push(x@),
{
    assert(methods_view(s.push(x)) =~= methods_view(s).push(x@));
}

/// The value of two sequences one after the other.
pub broadcast proof fn lemma_methods_view_add(s: Seq<FibexServiceMethod>, u: Seq<FibexServiceMethod>)
    ensures
        #[trigger] methods_view(s + u) == methods_view(s) + methods_view(u),
{
    assert(methods_view(s + u) =~= methods_view(s) + methods_view(u));
}

/// The value of a sequence with one more element.
pub broadcast proof fn lemma_services_view_push(s: Seq<FibexServiceInterface>, x: FibexServiceInterface)
    ensures
        #[trigger] services_view(s.push(x)) == services_view(s).push(x@),
{
    assert(services_view(s.push(x)) =~= services_view(s).push(x@));
}

/// The value of two sequences one after the other.
pub broadcast proof fn lemma_services_view_add(s: Seq<FibexServiceInterface>, u: Seq<FibexServiceInterface>)
    ensures
        #[trigger] services_view(s + u) == services_view(s) + services_view(u),
{
    assert(services_view(s + u) =~= services_view(s) + services_view(u));
}

/// The values of sequences that grow.
pub broadcast group group_views {
    lemma_attrs_view_push,
    lemma_attrs_view_add,
    lemma_decls_view_push,
    lemma_decls_view_add,
    lemma_items_view_push,
    lemma_items_view_add,
    lemma_types_view_push,
    lemma_types_view_add,
    lemma_coding_attrs_view_push,
    lemma_coding_attrs_view_add,
    lemma_codings_view_push,
    lemma_codings_view_add,
    lemma_methods_view_push,
    lemma_methods_view_add,
    lemma_services_view_push,
    lemma_services_view_add,
}

} // verus!
