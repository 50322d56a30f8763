//! The FIBEX service model: services with their methods, the data types
//! that their parameters are declared with, and the codings that primitive
//! and string types take their encoding from.
//!
//! The types of a model stand in one table, `FibexModel::types`; a type
//! declaration refers to its type by its position in that table.

use vstd::prelude::*;
use quick_xml::Error as XmlError;

verus! {

/// The error type of the XML reader.
#[verifier::external_type_specification]
#[verifier::external_body]
pub struct ExXmlError(XmlError);

/// Errors of the FIBEX reader, parser and type builder.
#[derive(Debug)]
pub enum FibexError {
    /// The model is not well formed.
    Parse(String),
    /// A value of the model is missing or malformed.
    Model(String),
    /// The XML could not be read.
    Xml(XmlError),
}

/// The position of the first element of `a`, from position `i` on, that
/// `p` holds of, or the length of `a` where there is none.
pub open spec fn first_where<A>(a: Seq<A>, p: spec_fn(A) -> bool, i: int) -> int
    decreases a.len() - i,
{
    if i >= a.len() {
        a.len() as int
    } else if p(a[i]) {
        i
    } else {
        first_where(a, p, i + 1)
    }
}

/// The first position that `first_where` finds lies between `i` and the
/// length, and `p` holds there unless it is the length.
pub proof fn lemma_first_where<A>(a: Seq<A>, p: spec_fn(A) -> bool, i: int)
    requires
        0 <= i <= a.len(),
    ensures
        i <= first_where(a, p, i) <= a.len(),
        first_where(a, p, i) < a.len() ==> p(a[first_where(a, p, i)]),
        forall|j: int| i <= j < first_where(a, p, i) ==> !p(#[trigger] a[j]),
    decreases a.len() - i,
{
    if i < a.len() && !p(a[i]) {
        lemma_first_where(a, p, i + 1);
    }
}

/// `first_where` finds `k` where `p` holds of no element from `i` to `k`
/// and holds of the one at `k`, if there is one.
pub proof fn lemma_first_where_is<A>(a: Seq<A>, p: spec_fn(A) -> bool, i: int, k: int)
    requires
        0 <= i <= k <= a.len(),
        forall|j: int| i <= j < k ==> !p(#[trigger] a[j]),
        k < a.len() ==> p(a[k]),
    ensures
        first_where(a, p, i) == k,
    decreases k - i,
{
    if i < k {
        assert(!p(a[i]));
        lemma_first_where_is(a, p, i + 1, k);
    }
}

/// Whether two strings hold the same text.
pub fn str_eq(a: &str, b: &str) -> (r: bool)
    ensures
        r == (a@ == b@),
{
    String::from_str(a) == String::from_str(b)
}

/// A copy of a string.
pub fn copy_string(s: &String) -> (r: String)
    ensures
        r@ == s@,
{
    String::from_str(s.as_str())
}

/// The model: services and data types, and the codings that types refer to.
#[derive(Debug)]
pub struct FibexModel {
    /// The services.
    pub services: Vec<FibexServiceInterface>,
    /// The data types; a declaration refers to one by its position here.
    pub types: Vec<FibexTypeInstance>,
    /// The codings that types refer to.
    pub codings: Vec<FibexTypeCoding>,
}

/// A service interface.
#[derive(Debug)]
pub struct FibexServiceInterface {
    /// The identifier of the element.
    pub id: String,
    /// The name.
    pub name: String,
    /// The service id.
    pub service_id: usize,
    /// The major version.
    pub major_version: usize,
    /// The minor version.
    pub minor_version: usize,
    /// The methods, events and field accessors.
    pub methods: Vec<FibexServiceMethod>,
}

/// A method, event or field accessor of a service.
#[derive(Debug)]
pub struct FibexServiceMethod {
    /// The identifier of the element.
    pub id: String,
    /// The name.
    pub name: String,
    /// The method id.
    pub method_id: usize,
    /// The type of the request payload, if any.
    pub request: Option<FibexTypeDeclaration>,
    /// The type of the response payload, if any.
    pub response: Option<FibexTypeDeclaration>,
}

/// The declaration of a value of some type: a member, a parameter or a
/// field.
#[derive(Debug)]
pub struct FibexTypeDeclaration {
    /// The identifier of the element.
    pub id: String,
    /// The name.
    pub name: String,
    /// The identifier of the declared type.
    pub id_ref: String,
    /// The position of the declared type in the model's table of types,
    /// once it is resolved.
    pub type_ref: Option<usize>,
    /// The attributes of the declaration.
    pub attributes: Vec<FibexTypeAttribute>,
}

/// An attribute of a declaration.
#[derive(Debug)]
pub enum FibexTypeAttribute {
    /// Whether the value is in big endian byte order.
    HighLowByteOrder(bool),
    /// The size of the length field, in bits.
    LengthField(usize),
    /// The size of the length field of an array, in bits.
    ArrayLengthField(usize),
    /// The dimensions of an array.
    ArrayDeclaration(Vec<FibexArrayDimension>),
    /// The size of the type field, in bits.
    TypeLengthField(usize),
    /// The length, in bits.
    BitLength(usize),
    /// The minimum length, in bits.
    MinBitLength(usize),
    /// The maximum length, in bits.
    MaxBitLength(usize),
    /// The position of a member.
    Position(usize),
}

/// A dimension of an array.
#[derive(Debug, Clone, Copy, PartialEq, Eq, Structural)]
pub struct FibexArrayDimension {
    /// The number of the dimension.
    pub index: usize,
    /// The minimum number of elements.
    pub min: usize,
    /// The maximum number of elements.
    pub max: usize,
}

/// A data type.
#[derive(Debug)]
pub struct FibexTypeInstance {
    /// The identifier of the element.
    pub id: String,
    /// The name.
    pub name: String,
    /// What the type is.
    pub datatype: FibexDatatype,
    /// The identifier of the coding of the type, if any.
    pub coding_ref: Option<String>,
}

/// What a data type is.
#[derive(Debug)]
pub enum FibexDatatype {
    /// Not known (yet).
    Unknown,
    /// A primitive.
    Primitive(FibexPrimitive),
    /// A structure.
    Struct(FibexStruct),
    /// An enumeration.
    Enum(FibexEnum),
    /// A string.
    String(FibexString),
}

/// The primitive types.
#[derive(Debug, Clone, Copy, PartialEq, Eq, Structural)]
pub enum FibexPrimitive {
    /// Not a known primitive.
    Unknown,
    /// `BOOL`
    Bool,
    /// `UINT8`
    Uint8,
    /// `UINT16`
    Uint16,
    /// `UINT24`
    Uint24,
    /// `UINT32`
    Uint32,
    /// `UINT64`
    Uint64,
    /// `INT8`
    Int8,
    /// `INT16`
    Int16,
    /// `INT24`
    Int24,
    /// `INT32`
    Int32,
    /// `INT64`
    Int64,
    /// `FLOAT32`
    Float32,
    /// `FLOAT64`
    Float64,
}

/// The primitive type of a name.
pub open spec fn primitive_named(s: Seq<char>) -> FibexPrimitive {
    if s == "BOOL"@ {
        FibexPrimitive::Bool
    } else if s == "UINT8"@ {
        FibexPrimitive::Uint8
    } else if s == "UINT16"@ {
        FibexPrimitive::Uint16
    } else if s == "UINT24"@ {
        FibexPrimitive::Uint24
    } else if s == "UINT32"@ {
        FibexPrimitive::Uint32
    } else if s == "UINT64"@ {
        FibexPrimitive::Uint64
    } else if s == "INT8"@ {
        FibexPrimitive::Int8
    } else if s == "INT16"@ {
        FibexPrimitive::Int16
    } else if s == "INT24"@ {
        FibexPrimitive::Int24
    } else if s == "INT32"@ {
        FibexPrimitive::Int32
    } else if s == "INT64"@ {
        FibexPrimitive::Int64
    } else if s == "FLOAT32"@ {
        FibexPrimitive::Float32
    } else if s == "FLOAT64"@ {
        FibexPrimitive::Float64
    } else {
        FibexPrimitive::Unknown
    }
}

impl FibexPrimitive {
    /// The primitive type of a name, `Unknown` for any other name.
    pub fn from(name: &str) -> (r: FibexPrimitive)
        ensures
            r == primitive_named(name@),
    {
        if str_eq(name, "BOOL") {
            FibexPrimitive::Bool
        } else if str_eq(name, "UINT8") {
            FibexPrimitive::Uint8
        } else if str_eq(name, "UINT16") {
            FibexPrimitive::Uint16
        } else if str_eq(name, "UINT24") {
            FibexPrimitive::Uint24
        } else if str_eq(name, "UINT32") {
            FibexPrimitive::Uint32
        } else if str_eq(name, "UINT64") {
            FibexPrimitive::Uint64
        } else if str_eq(name, "INT8") {
            FibexPrimitive::Int8
        } else if str_eq(name, "INT16") {
            FibexPrimitive::Int16
        } else if str_eq(name, "INT24") {
            FibexPrimitive::Int24
        } else if str_eq(name, "INT32") {
            FibexPrimitive::Int32
        } else if str_eq(name, "INT64") {
            FibexPrimitive::Int64
        } else if str_eq(name, "FLOAT32") {
            FibexPrimitive::Float32
        } else if str_eq(name, "FLOAT64") {
            FibexPrimitive::Float64
        } else {
            FibexPrimitive::Unknown
        }
    }
}

/// A structure: its members, in the order of their positions.
#[derive(Debug)]
pub struct FibexStruct {
    /// The members.
    pub members: Vec<FibexTypeDeclaration>,
}

/// An enumeration.
#[derive(Debug)]
pub struct FibexEnum {
    /// The primitive type of the values.
    pub primitive: FibexPrimitive,
    /// The items.
    pub variants: Vec<FibexEnumDeclaration>,
}

/// An item of an enumeration.
#[derive(Debug)]
pub struct FibexEnumDeclaration {
    /// The name.
    pub name: String,
    /// The value, as written in the model.
    pub value: String,
}

/// A string type.
#[derive(Debug, Clone, Copy, PartialEq, Eq, Structural)]
pub struct FibexString {
    /// The encoding.
    pub encoding: FibexStringEncoding,
    /// Whether the string has a length field.
    pub is_dynamic: bool,
    /// Whether the string starts with a byte order mark.
    pub has_bom: bool,
    /// Whether the string ends with a termination.
    pub has_termination: bool,
    /// The minimum length, if given.
    pub min_length: Option<usize>,
    /// The maximum length, if given.
    pub max_length: Option<usize>,
    /// The length in bits, if given.
    pub bit_length: Option<usize>,
}

/// The encodings of strings.
#[derive(Debug, Clone, Copy, PartialEq, Eq, Structural)]
pub enum FibexStringEncoding {
    /// Not a known encoding.
    Unknown,
    /// UTF-8
    UTF8,
    /// UTF-16 (and its subset UCS-2)
    UTF16,
}

/// The encoding of a name.
pub open spec fn encoding_named(s: Seq<char>) -> FibexStringEncoding {
    if s == "UTF-8"@ {
        FibexStringEncoding::UTF8
    } else if s == "UTF-16"@ {
        FibexStringEncoding::UTF16
    } else if s == "UCS-2"@ {
        FibexStringEncoding::UTF16
    } else {
        FibexStringEncoding::Unknown
    }
}

impl FibexStringEncoding {
    /// The encoding of a name, `Unknown` for any other name.
    pub fn from(name: &str) -> (r: FibexStringEncoding)
        ensures
            r == encoding_named(name@),
    {
        if str_eq(name, "UTF-8") {
            FibexStringEncoding::UTF8
        } else if str_eq(name, "UTF-16") {
            FibexStringEncoding::UTF16
        } else if str_eq(name, "UCS-2") {
            FibexStringEncoding::UTF16
        } else {
            FibexStringEncoding::Unknown
        }
    }
}

/// A coding: how a type is encoded.
#[derive(Debug)]
pub struct FibexTypeCoding {
    /// The identifier of the element.
    pub id: String,
    /// The name.
    pub name: String,
    /// The attributes.
    pub attributes: Vec<FibexCodingAttribute>,
}

/// An attribute of a coding.
#[derive(Debug)]
pub enum FibexCodingAttribute {
    /// The base data type.
    BaseType(String),
    /// The category.
    Category(String),
    /// The encoding.
    Encoding(String),
    /// Whether a byte order mark is present.
    Bom(String),
    /// The termination.
    Termination(String),
    /// The minimum length.
    MinLength(usize),
    /// The maximum length.
    MaxLength(usize),
    /// The length in bits.
    BitLength(usize),
}

/// Holds of a byte order attribute.
pub open spec fn byte_order_attr() -> spec_fn(FibexTypeAttribute) -> bool {
    |a: FibexTypeAttribute| a is HighLowByteOrder
}

/// Holds of a length field attribute.
pub open spec fn length_field_attr() -> spec_fn(FibexTypeAttribute) -> bool {
    |a: FibexTypeAttribute| a is LengthField
}

/// Holds of an array length field attribute.
pub open spec fn array_length_field_attr() -> spec_fn(FibexTypeAttribute) -> bool {
    |a: FibexTypeAttribute| a is ArrayLengthField
}

/// Holds of a type field attribute.
pub open spec fn type_length_field_attr() -> spec_fn(FibexTypeAttribute) -> bool {
    |a: FibexTypeAttribute| a is TypeLengthField
}

/// Holds of a bit length attribute.
pub open spec fn bit_length_attr() -> spec_fn(FibexTypeAttribute) -> bool {
    |a: FibexTypeAttribute| a is BitLength
}

/// Holds of a minimum bit length attribute.
pub open spec fn min_bit_length_attr() -> spec_fn(FibexTypeAttribute) -> bool {
    |a: FibexTypeAttribute| a is MinBitLength
}

/// Holds of a maximum bit length attribute.
pub open spec fn max_bit_length_attr() -> spec_fn(FibexTypeAttribute) -> bool {
    |a: FibexTypeAttribute| a is MaxBitLength
}

/// Holds of a position attribute.
pub open spec fn position_attr() -> spec_fn(FibexTypeAttribute) -> bool {
    |a: FibexTypeAttribute| a is Position
}

/// Holds of an array declaration.
pub open spec fn array_attr() -> spec_fn(FibexTypeAttribute) -> bool {
    |a: FibexTypeAttribute| a is ArrayDeclaration
}

/// Holds of an array declaration with more than `index` dimensions.
pub open spec fn array_attr_with(index: nat) -> spec_fn(FibexTypeAttribute) -> bool {
    |a: FibexTypeAttribute|
        match a {
            FibexTypeAttribute::ArrayDeclaration(d) => index < d@.len(),
            _ => false,
        }
}

/// The number that the first attribute that `p` holds of carries, if any.
pub open spec fn attr_number(attrs: Seq<FibexTypeAttribute>, p: spec_fn(FibexTypeAttribute) -> bool) -> Option<usize> {
    let k = first_where(attrs, p, 0);
    if k < attrs.len() {
        match attrs[k] {
            FibexTypeAttribute::LengthField(v) => Some(v),
            FibexTypeAttribute::ArrayLengthField(v) => Some(v),
            FibexTypeAttribute::TypeLengthField(v) => Some(v),
            FibexTypeAttribute::BitLength(v) => Some(v),
            FibexTypeAttribute::MinBitLength(v) => Some(v),
            FibexTypeAttribute::MaxBitLength(v) => Some(v),
            FibexTypeAttribute::Position(v) => Some(v),
            _ => None,
        }
    } else {
        None
    }
}

/// Whether the declared value is in big endian byte order: the first byte
/// order attribute, true where there is none.
pub open spec fn high_low_byte_order(attrs: Seq<FibexTypeAttribute>) -> bool {
    let k = first_where(attrs, byte_order_attr(), 0);
    if k < attrs.len() {
        match attrs[k] {
            FibexTypeAttribute::HighLowByteOrder(v) => v,
            _ => true,
        }
    } else {
        true
    }
}

/// The dimensions of the first array declaration, empty where there is none.
pub open spec fn array_dimensions(attrs: Seq<FibexTypeAttribute>) -> Seq<FibexArrayDimension> {
    let k = first_where(attrs, array_attr(), 0);
    if k < attrs.len() {
        match attrs[k] {
            FibexTypeAttribute::ArrayDeclaration(d) => d@,
            _ => Seq::empty(),
        }
    } else {
        Seq::empty()
    }
}

/// The dimension `index` of the first array declaration that has one.
pub open spec fn array_dimension(attrs: Seq<FibexTypeAttribute>, index: nat) -> Option<FibexArrayDimension> {
    let k = first_where(attrs, array_attr_with(index), 0);
    if k < attrs.len() {
        match attrs[k] {
            FibexTypeAttribute::ArrayDeclaration(d) => Some(d@[index as int]),
            _ => None,
        }
    } else {
        None
    }
}

/// A size in bits as a size in bytes, `4` where none is given.
pub open spec fn bytes_or_four(bits: Option<usize>) -> usize {
    match bits {
        Some(v) => (v / 8) as usize,
        None => 4,
    }
}

/// An attribute with the first dimension of an array declaration removed.
pub open spec fn attr_downdim(new: FibexTypeAttribute, old: FibexTypeAttribute) -> bool {
    match (new, old) {
        (FibexTypeAttribute::ArrayDeclaration(n), FibexTypeAttribute::ArrayDeclaration(o)) => n@
            == (if o@.len() > 0 {
            o@.drop_first()
        } else {
            o@
        }),
        (FibexTypeAttribute::ArrayDeclaration(_), _) => false,
        _ => new == old,
    }
}

/// A copy of the dimensions of an array.
fn copy_dimensions(d: &Vec<FibexArrayDimension>, skip: usize) -> (r: Vec<FibexArrayDimension>)
    requires
        skip <= d@.len(),
    ensures
        r@ == d@.skip(skip as int),
{
    let mut r: Vec<FibexArrayDimension> = Vec::new();
    let mut i: usize = skip;
    while i < d.len()
        invariant
            skip <= i <= d@.len(),
            r@ == d@.subrange(skip as int, i as int),
        decreases d@.len() - i,
    {
        r.push(d[i]);
        i = i + 1;
    }
    r
}

impl FibexTypeAttribute {
    /// A copy of the attribute, with the first dimension of an array
    /// declaration removed where `downdim` is set.
    fn copy(&self, downdim: bool) -> (r: FibexTypeAttribute)
        ensures
            downdim ==> attr_downdim(r, *self),
            !downdim ==> match (r, *self) {
                (FibexTypeAttribute::ArrayDeclaration(n), FibexTypeAttribute::ArrayDeclaration(o)) => n@ == o@,
                (FibexTypeAttribute::ArrayDeclaration(_), _) => false,
                _ => r == *self,
            },
    {
        match self {
            FibexTypeAttribute::HighLowByteOrder(v) => FibexTypeAttribute::HighLowByteOrder(*v),
            FibexTypeAttribute::LengthField(v) => FibexTypeAttribute::LengthField(*v),
            FibexTypeAttribute::ArrayLengthField(v) => FibexTypeAttribute::ArrayLengthField(*v),
            FibexTypeAttribute::ArrayDeclaration(d) => {
                let skip: usize = if downdim && d.len() > 0 { 1 } else { 0 };
                let c = copy_dimensions(d, skip);
                proof {
                    if skip == 0 {
                        assert(d@.skip(0) =~= d@);
                    }
                }
                FibexTypeAttribute::ArrayDeclaration(c)
            },
            FibexTypeAttribute::TypeLengthField(v) => FibexTypeAttribute::TypeLengthField(*v),
            FibexTypeAttribute::BitLength(v) => FibexTypeAttribute::BitLength(*v),
            FibexTypeAttribute::MinBitLength(v) => FibexTypeAttribute::MinBitLength(*v),
            FibexTypeAttribute::MaxBitLength(v) => FibexTypeAttribute::MaxBitLength(*v),
            FibexTypeAttribute::Position(v) => FibexTypeAttribute::Position(*v),
        }
    }
}

/// Taking the first dimension of each array declaration keeps which
/// attributes are array declarations and byte orders, so that the first
/// array declaration loses its first dimension and the byte order stays.
pub proof fn lemma_downdim_lookups(new: Seq<FibexTypeAttribute>, old: Seq<FibexTypeAttribute>)
    requires
        new.len() == old.len(),
        forall|j: int| 0 <= j < old.len() ==> attr_downdim(#[trigger] new[j], old[j]),
    ensures
        array_dimensions(new) == (if array_dimensions(old).len() > 0 {
            array_dimensions(old).drop_first()
        } else {
            array_dimensions(old)
        }),
        high_low_byte_order(new) == high_low_byte_order(old),
{
    let k = first_where(old, array_attr(), 0);
    lemma_first_where(old, array_attr(), 0);
    assert forall|j: int| 0 <= j < k implies !array_attr()(#[trigger] new[j]) by {
        assert(attr_downdim(new[j], old[j]));
        assert(!array_attr()(old[j]));
    }
    if k < old.len() {
        assert(attr_downdim(new[k], old[k]));
    }
    lemma_first_where_is(new, array_attr(), 0, k);
    let b = first_where(old, byte_order_attr(), 0);
    lemma_first_where(old, byte_order_attr(), 0);
    assert forall|j: int| 0 <= j < b implies !byte_order_attr()(#[trigger] new[j]) by {
        assert(attr_downdim(new[j], old[j]));
        assert(!byte_order_attr()(old[j]));
    }
    if b < old.len() {
        assert(attr_downdim(new[b], old[b]));
    }
    lemma_first_where_is(new, byte_order_attr(), 0, b);
}

impl FibexTypeDeclaration {
    /// The number that the first attribute that `p` holds of carries.
    fn find_number(&self, Ghost(p): Ghost<spec_fn(FibexTypeAttribute) -> bool>, kind: u8) -> (r: Option<usize>)
        requires
            kind == 0 ==> p == length_field_attr(),
            kind == 1 ==> p == array_length_field_attr(),
            kind == 2 ==> p == type_length_field_attr(),
            kind == 3 ==> p == bit_length_attr(),
            kind == 4 ==> p == min_bit_length_attr(),
            kind == 5 ==> p == max_bit_length_attr(),
            kind == 6 ==> p == position_attr(),
            kind <= 6,
        ensures
            r == attr_number(self.attributes@, p),
    {
        let mut i: usize = 0;
        while i < self.attributes.len()
            invariant
                i <= self.attributes@.len(),
                first_where(self.attributes@, p, 0) == first_where(self.attributes@, p, i as int),
                kind == 0 ==> p == length_field_attr(),
                kind == 1 ==> p == array_length_field_attr(),
                kind == 2 ==> p == type_length_field_attr(),
                kind == 3 ==> p == bit_length_attr(),
                kind == 4 ==> p == min_bit_length_attr(),
                kind == 5 ==> p == max_bit_length_attr(),
                kind == 6 ==> p == position_attr(),
                kind <= 6,
            decreases self.attributes@.len() - i,
        {
            let found: Option<usize> = match (&self.attributes[i], kind) {
                (FibexTypeAttribute::LengthField(v), 0) => Some(*v),
                (FibexTypeAttribute::ArrayLengthField(v), 1) => Some(*v),
                (FibexTypeAttribute::TypeLengthField(v), 2) => Some(*v),
                (FibexTypeAttribute::BitLength(v), 3) => Some(*v),
                (FibexTypeAttribute::MinBitLength(v), 4) => Some(*v),
                (FibexTypeAttribute::MaxBitLength(v), 5) => Some(*v),
                (FibexTypeAttribute::Position(v), 6) => Some(*v),
                _ => None,
            };
            if found.is_some() {
                return found;
            }
            i = i + 1;
        }
        None
    }

    /// Whether the value is in big endian byte order (the default).
    pub fn is_high_low_byte_order(&self) -> (r: bool)
        ensures
            r == high_low_byte_order(self.attributes@),
    {
        let mut i: usize = 0;
        while i < self.attributes.len()
            invariant
                i <= self.attributes@.len(),
                first_where(self.attributes@, byte_order_attr(), 0) == first_where(
                    self.attributes@,
                    byte_order_attr(),
                    i as int,
                ),
            decreases self.attributes@.len() - i,
        {
            if let FibexTypeAttribute::HighLowByteOrder(value) = &self.attributes[i] {
                return *value;
            }
            i = i + 1;
        }
        true
    }

    /// Whether the value is an array.
    pub fn is_array(&self) -> (r: bool)
        ensures
            r == (array_dimensions(self.attributes@).len() > 0),
    {
        self.num_array_dimensions() > 0
    }

    /// Whether the value is an array of more than one dimension.
    pub fn is_multidim_array(&self) -> (r: bool)
        ensures
            r == (array_dimensions(self.attributes@).len() > 1),
    {
        self.num_array_dimensions() > 1
    }

    /// The number of dimensions of the array (of the first array
    /// declaration), zero where the value is no array.
    pub fn num_array_dimensions(&self) -> (r: usize)
        ensures
            r == array_dimensions(self.attributes@).len(),
    {
        let mut i: usize = 0;
        while i < self.attributes.len()
            invariant
                i <= self.attributes@.len(),
                first_where(self.attributes@, array_attr(), 0) == first_where(
                    self.attributes@,
                    array_attr(),
                    i as int,
                ),
            decreases self.attributes@.len() - i,
        {
            if let FibexTypeAttribute::ArrayDeclaration(dimensions) = &self.attributes[i] {
                return dimensions.len();
            }
            i = i + 1;
        }
        0
    }

    /// The dimension `index` of the first array declaration that has one.
    pub fn get_array_dimension(&self, index: usize) -> (r: Option<&FibexArrayDimension>)
        ensures
            r matches Some(d) ==> array_dimension(self.attributes@, index as nat) == Some(*d),
            r is None ==> array_dimension(self.attributes@, index as nat) is None,
    {
        let mut i: usize = 0;
        while i < self.attributes.len()
            invariant
                i <= self.attributes@.len(),
                first_where(self.attributes@, array_attr_with(index as nat), 0) == first_where(
                    self.attributes@,
                    array_attr_with(index as nat),
                    i as int,
                ),
            decreases self.attributes@.len() - i,
        {
            if let FibexTypeAttribute::ArrayDeclaration(dimensions) = &self.attributes[i] {
                if index < dimensions.len() {
                    return Some(&dimensions[index]);
                }
            }
            i = i + 1;
        }
        None
    }

    /// A copy of the declaration with the first dimension of each array
    /// declaration removed.
    pub fn downdim_array(&self) -> (r: Self)
        ensures
            array_dimensions(r.attributes@) == (if array_dimensions(self.attributes@).len() > 0 {
                array_dimensions(self.attributes@).drop_first()
            } else {
                array_dimensions(self.attributes@)
            }),
            high_low_byte_order(r.attributes@) == high_low_byte_order(self.attributes@),
            r.id@ == self.id@,
            r.name@ == self.name@,
            r.id_ref@ == self.id_ref@,
            r.type_ref == self.type_ref,
            r.attributes@.len() == self.attributes@.len(),
            forall|j: int|
                0 <= j < self.attributes@.len() ==> attr_downdim(
                    #[trigger] r.attributes@[j],
                    self.attributes@[j],
                ),
    {
        let r = self.copy_with(true);
        proof {
            lemma_downdim_lookups(r.attributes@, self.attributes@);
        }
        r
    }

    /// A copy of the declaration, with the first dimension of each array
    /// declaration removed where `downdim` is set.
    fn copy_with(&self, downdim: bool) -> (r: Self)
        ensures
            r.id@ == self.id@,
            r.name@ == self.name@,
            r.id_ref@ == self.id_ref@,
            r.type_ref == self.type_ref,
            r.attributes@.len() == self.attributes@.len(),
            downdim ==> forall|j: int|
                0 <= j < self.attributes@.len() ==> attr_downdim(
                    #[trigger] r.attributes@[j],
                    self.attributes@[j],
                ),
    {
        let mut attributes: Vec<FibexTypeAttribute> = Vec::new();
        let mut i: usize = 0;
        while i < self.attributes.len()
            invariant
                i <= self.attributes@.len(),
                attributes@.len() == i,
                downdim ==> forall|j: int|
                    0 <= j < i ==> attr_downdim(#[trigger] attributes@[j], self.attributes@[j]),
            decreases self.attributes@.len() - i,
        {
            attributes.push(self.attributes[i].copy(downdim));
            i = i + 1;
        }
        FibexTypeDeclaration {
            id: copy_string(&self.id),
            name: copy_string(&self.name),
            id_ref: copy_string(&self.id_ref),
            type_ref: self.type_ref,
            attributes,
        }
    }

    /// The size of the length field in bytes (4 where none is given).
    pub fn get_length_field_size(&self) -> (r: usize)
        ensures
            r == bytes_or_four(attr_number(self.attributes@, length_field_attr())),
    {
        match self.find_number(Ghost(length_field_attr()), 0) {
            Some(v) => v / 8,
            None => 4,
        }
    }

    /// The size of the length field of an array in bytes (4 where none is
    /// given).
    pub fn get_array_length_field_size(&self) -> (r: usize)
        ensures
            r == bytes_or_four(attr_number(self.attributes@, array_length_field_attr())),
    {
        match self.find_number(Ghost(array_length_field_attr()), 1) {
            Some(v) => v / 8,
            None => 4,
        }
    }

    /// The size of the type field in bytes (4 where none is given).
    pub fn get_type_length_field_size(&self) -> (r: usize)
        ensures
            r == bytes_or_four(attr_number(self.attributes@, type_length_field_attr())),
    {
        match self.find_number(Ghost(type_length_field_attr()), 2) {
            Some(v) => v / 8,
            None => 4,
        }
    }

    /// The length in bits, if given.
    pub fn get_bit_length(&self) -> (r: Option<usize>)
        ensures
            r == attr_number(self.attributes@, bit_length_attr()),
    {
        self.find_number(Ghost(bit_length_attr()), 3)
    }

    /// The minimum length in bits, if given.
    pub fn get_min_bit_length(&self) -> (r: Option<usize>)
        ensures
            r == attr_number(self.attributes@, min_bit_length_attr()),
    {
        self.find_number(Ghost(min_bit_length_attr()), 4)
    }

    /// The maximum length in bits, if given.
    pub fn get_max_bit_length(&self) -> (r: Option<usize>)
        ensures
            r == attr_number(self.attributes@, max_bit_length_attr()),
    {
        self.find_number(Ghost(max_bit_length_attr()), 5)
    }

    /// The position of a member (0 where none is given).
    pub fn get_position(&self) -> (r: usize)
        ensures
            r == match attr_number(self.attributes@, position_attr()) {
                Some(v) => v,
                None => 0,
            },
    {
        match self.find_number(Ghost(position_attr()), 6) {
            Some(v) => v,
            None => 0,
        }
    }
}

impl FibexArrayDimension {
    /// Whether the number of elements may vary.
    pub fn is_dynamic(&self) -> (r: bool)
        ensures
            r == (self.min != self.max),
    {
        self.min != self.max
    }
}

/// Holds of the coding attributes of kind `kind`: base type, category,
/// encoding, byte order mark, termination, minimum length, maximum length
/// and bit length, in this order from zero.
pub open spec fn coding_attr(kind: u8) -> spec_fn(FibexCodingAttribute) -> bool {
    |a: FibexCodingAttribute|
        match a {
            FibexCodingAttribute::BaseType(_) => kind == 0,
            FibexCodingAttribute::Category(_) => kind == 1,
            FibexCodingAttribute::Encoding(_) => kind == 2,
            FibexCodingAttribute::Bom(_) => kind == 3,
            FibexCodingAttribute::Termination(_) => kind == 4,
            FibexCodingAttribute::MinLength(_) => kind == 5,
            FibexCodingAttribute::MaxLength(_) => kind == 6,
            FibexCodingAttribute::BitLength(_) => kind == 7,
        }
}

/// The text that the first coding attribute of kind `kind` carries, if any.
pub open spec fn coding_text(attrs: Seq<FibexCodingAttribute>, kind: u8) -> Option<Seq<char>> {
    let k = first_where(attrs, coding_attr(kind), 0);
    if k < attrs.len() {
        match attrs[k] {
            FibexCodingAttribute::BaseType(v) => Some(v@),
            FibexCodingAttribute::Category(v) => Some(v@),
            FibexCodingAttribute::Encoding(v) => Some(v@),
            FibexCodingAttribute::Bom(v) => Some(v@),
            FibexCodingAttribute::Termination(v) => Some(v@),
            _ => None,
        }
    } else {
        None
    }
}

/// The number that the first coding attribute of kind `kind` carries, if any.
pub open spec fn coding_number(attrs: Seq<FibexCodingAttribute>, kind: u8) -> Option<usize> {
    let k = first_where(attrs, coding_attr(kind), 0);
    if k < attrs.len() {
        match attrs[k] {
            FibexCodingAttribute::MinLength(v) => Some(v),
            FibexCodingAttribute::MaxLength(v) => Some(v),
            FibexCodingAttribute::BitLength(v) => Some(v),
            _ => None,
        }
    } else {
        None
    }
}

/// The encoding of a coding: that of its first encoding attribute.
pub open spec fn coding_encoding(attrs: Seq<FibexCodingAttribute>) -> FibexStringEncoding {
    match coding_text(attrs, 2) {
        Some(v) => encoding_named(v),
        None => FibexStringEncoding::Unknown,
    }
}

/// Whether a text attribute, where present, equals `value`; `absent` where
/// there is none.
pub open spec fn coding_flag(attrs: Seq<FibexCodingAttribute>, kind: u8, value: Seq<char>, absent: bool) -> bool {
    match coding_text(attrs, kind) {
        Some(v) => v == value,
        None => absent,
    }
}

/// The string type that a coding describes.
pub open spec fn coding_string(attrs: Seq<FibexCodingAttribute>) -> FibexString {
    FibexString {
        encoding: coding_encoding(attrs),
        is_dynamic: coding_flag(attrs, 1, "LEADING-LENGTH-INFO-TYPE"@, false),
        has_bom: coding_flag(attrs, 3, "EXPLICIT"@, true),
        has_termination: coding_flag(attrs, 4, "ZERO"@, true),
        min_length: coding_number(attrs, 5),
        max_length: coding_number(attrs, 6),
        bit_length: coding_number(attrs, 7),
    }
}

/// What the first group of the regular expression `pattern` captures in
/// `text`, where it matches.
pub uninterp spec fn regex_group_one(pattern: Seq<char>, text: Seq<char>) -> Option<Seq<char>>;

/// What `^A_(.*)$` captures in `text`: the text after a leading `A_`, where
/// it holds no line feed.
pub open spec fn a_prefixed(text: Seq<char>) -> Option<Seq<char>> {
    if text.len() >= 2 && text[0] == 'A' && text[1] == '_' && !text.skip(2).contains('\n') {
        Some(text.skip(2))
    } else {
        None
    }
}

/// The pattern that a base type names a primitive with.
pub open spec fn base_type_pattern() -> Seq<char> {
    "^A_(.*)$"@
}

/// `regex::Regex::new(pattern)`, then `captures(text)` and the text of its
/// group 1. The result is named by `regex_group_one`, a function of the
/// pattern and the text; for the one pattern the library uses, `^A_(.*)$`,
/// the regex documentation (`^` and `$` anchor at the ends of the text, `.`
/// matches any character but a line feed, `*` is greedy) gives it as
/// `a_prefixed`.
#[verifier::external_body]
fn regex_capture(pattern: &str, text: &str) -> (r: Option<String>)
    ensures
        r matches Some(g) ==> regex_group_one(pattern@, text@) == Some(g@),
        r is None ==> regex_group_one(pattern@, text@) is None,
        pattern@ == base_type_pattern() ==> match r {
            Some(g) => a_prefixed(text@) == Some(g@),
            None => a_prefixed(text@) is None,
        },
{
    match regex::Regex::new(pattern) {
        Ok(re) => re.captures(text).and_then(|c| c.get(1)).map(|m| m.as_str().to_string()),
        Err(_) => None,
    }
}

/// The primitive type that a base type names through `^A_(.*)$`.
pub open spec fn base_primitive(capture: Option<Seq<char>>) -> Option<FibexPrimitive> {
    match capture {
        Some(g) => if primitive_named(g) != FibexPrimitive::Unknown {
            Some(primitive_named(g))
        } else {
            None
        },
        None => None,
    }
}

/// The data type that a coding resolves to: a string where it has a known
/// encoding, else the primitive that its name or its base type names.
pub open spec fn coding_datatype(c: FibexTypeCoding) -> Option<FibexDatatype> {
    let attrs = c.attributes@;
    let base = match coding_text(attrs, 0) {
        Some(v) => v,
        None => Seq::<char>::empty(),
    };
    if coding_encoding(attrs) != FibexStringEncoding::Unknown {
        Some(FibexDatatype::String(coding_string(attrs)))
    } else if primitive_named(c.name@) != FibexPrimitive::Unknown {
        Some(FibexDatatype::Primitive(primitive_named(c.name@)))
    } else {
        match base_primitive(a_prefixed(base)) {
            Some(p) => Some(FibexDatatype::Primitive(p)),
            None => None,
        }
    }
}

/// The primitive type that a capture of `^A_(.*)$` names, if any.
pub fn primitive_of_capture(capture: &Option<String>) -> (r: Option<FibexPrimitive>)
    ensures
        r == base_primitive(
            match capture {
                Some(g) => Some(g@),
                None => None,
            },
        ),
{
    match capture {
        Some(g) => {
            let primitive = FibexPrimitive::from(g.as_str());
            if primitive != FibexPrimitive::Unknown {
                Some(primitive)
            } else {
                None
            }
        },
        None => None,
    }
}

impl FibexTypeCoding {
    /// The position of the first attribute of kind `kind`, or the number of
    /// attributes.
    fn find(&self, kind: u8) -> (r: usize)
        requires
            kind <= 7,
        ensures
            r == first_where(self.attributes@, coding_attr(kind), 0),
            r <= self.attributes@.len(),
    {
        proof {
            lemma_first_where(self.attributes@, coding_attr(kind), 0);
        }
        let mut i: usize = 0;
        while i < self.attributes.len()
            invariant
                i <= self.attributes@.len(),
                first_where(self.attributes@, coding_attr(kind), 0) == first_where(
                    self.attributes@,
                    coding_attr(kind),
                    i as int,
                ),
            decreases self.attributes@.len() - i,
        {
            let hit = match &self.attributes[i] {
                FibexCodingAttribute::BaseType(_) => kind == 0,
                FibexCodingAttribute::Category(_) => kind == 1,
                FibexCodingAttribute::Encoding(_) => kind == 2,
                FibexCodingAttribute::Bom(_) => kind == 3,
                FibexCodingAttribute::Termination(_) => kind == 4,
                FibexCodingAttribute::MinLength(_) => kind == 5,
                FibexCodingAttribute::MaxLength(_) => kind == 6,
                FibexCodingAttribute::BitLength(_) => kind == 7,
            };
            if hit {
                return i;
            }
            i = i + 1;
        }
        i
    }

    /// The text of the first attribute of kind `kind`, if any.
    fn text(&self, kind: u8) -> (r: Option<&String>)
        requires
            kind <= 4,
        ensures
            r matches Some(v) ==> coding_text(self.attributes@, kind) == Some(v@),
            r is None ==> coding_text(self.attributes@, kind) is None,
    {
        let k = self.find(kind);
        if k < self.attributes.len() {
            match &self.attributes[k] {
                FibexCodingAttribute::BaseType(v) => Some(v),
                FibexCodingAttribute::Category(v) => Some(v),
                FibexCodingAttribute::Encoding(v) => Some(v),
                FibexCodingAttribute::Bom(v) => Some(v),
                FibexCodingAttribute::Termination(v) => Some(v),
                _ => None,
            }
        } else {
            None
        }
    }

    /// The number of the first attribute of kind `kind`, if any.
    fn number(&self, kind: u8) -> (r: Option<usize>)
        requires
            5 <= kind <= 7,
        ensures
            r == coding_number(self.attributes@, kind),
    {
        let k = self.find(kind);
        if k < self.attributes.len() {
            match &self.attributes[k] {
                FibexCodingAttribute::MinLength(v) => Some(*v),
                FibexCodingAttribute::MaxLength(v) => Some(*v),
                FibexCodingAttribute::BitLength(v) => Some(*v),
                _ => None,
            }
        } else {
            None
        }
    }

    /// Whether the text attribute of kind `kind` equals `value`, `absent`
    /// where there is none.
    fn flag(&self, kind: u8, value: &str, absent: bool) -> (r: bool)
        requires
            kind <= 4,
        ensures
            r == coding_flag(self.attributes@, kind, value@, absent),
    {
        match self.text(kind) {
            Some(v) => str_eq(v.as_str(), value),
            None => absent,
        }
    }

    /// Whether the coding describes a string: whether it has a known
    /// encoding.
    pub fn is_string(&self) -> (r: bool)
        ensures
            r == (coding_encoding(self.attributes@) != FibexStringEncoding::Unknown),
    {
        self.encoding() != FibexStringEncoding::Unknown
    }

    /// Whether the string has a length field.
    pub fn is_dynamic(&self) -> (r: bool)
        ensures
            r == coding_flag(self.attributes@, 1, "LEADING-LENGTH-INFO-TYPE"@, false),
    {
        self.flag(1, "LEADING-LENGTH-INFO-TYPE", false)
    }

    /// The encoding of the string.
    pub fn encoding(&self) -> (r: FibexStringEncoding)
        ensures
            r == coding_encoding(self.attributes@),
    {
        match self.text(2) {
            Some(v) => FibexStringEncoding::from(v.as_str()),
            None => FibexStringEncoding::Unknown,
        }
    }

    /// Whether the string has a byte order mark (the default).
    pub fn has_bom(&self) -> (r: bool)
        ensures
            r == coding_flag(self.attributes@, 3, "EXPLICIT"@, true),
    {
        self.flag(3, "EXPLICIT", true)
    }

    /// Whether the string has a termination (the default).
    pub fn has_termination(&self) -> (r: bool)
        ensures
            r == coding_flag(self.attributes@, 4, "ZERO"@, true),
    {
        self.flag(4, "ZERO", true)
    }

    /// The minimum length, if given.
    pub fn min_length(&self) -> (r: Option<usize>)
        ensures
            r == coding_number(self.attributes@, 5),
    {
        self.number(5)
    }

    /// The maximum length, if given.
    pub fn max_length(&self) -> (r: Option<usize>)
        ensures
            r == coding_number(self.attributes@, 6),
    {
        self.number(6)
    }

    /// The length in bits, if given.
    pub fn bit_length(&self) -> (r: Option<usize>)
        ensures
            r == coding_number(self.attributes@, 7),
    {
        self.number(7)
    }

    /// The base data type, empty where none is given.
    pub fn base_type(&self) -> (r: String)
        ensures
            r@ == match coding_text(self.attributes@, 0) {
                Some(v) => v,
                None => Seq::<char>::empty(),
            },
    {
        match self.text(0) {
            Some(v) => copy_string(v),
            None => String::new(),
        }
    }

    /// The data type that the coding resolves to, if any.
    pub fn resolve(&self) -> (r: Option<FibexDatatype>)
        ensures
            r == coding_datatype(*self),
    {
        if self.is_string() {
            return Some(
                FibexDatatype::String(
                    FibexString {
                        encoding: self.encoding(),
                        is_dynamic: self.is_dynamic(),
                        has_bom: self.has_bom(),
                        has_termination: self.has_termination(),
                        min_length: self.min_length(),
                        max_length: self.max_length(),
                        bit_length: self.bit_length(),
                    },
                ),
            );
        }
        let primitive = FibexPrimitive::from(self.name.as_str());
        if primitive != FibexPrimitive::Unknown {
            return Some(FibexDatatype::Primitive(primitive));
        }
        let base = self.base_type();
        let capture = regex_capture("^A_(.*)$", base.as_str());
        match primitive_of_capture(&capture) {
            Some(p) => Some(FibexDatatype::Primitive(p)),
            None => None,
        }
    }
}

/// The data type of the last coding among the first `n` with identifier
/// `id` that resolves to one.
pub open spec fn last_resolution(codings: Seq<FibexTypeCoding>, id: Seq<char>, n: int) -> Option<FibexDatatype>
    decreases n,
{
    if n <= 0 {
        None
    } else if codings[n - 1].id@ == id && coding_datatype(codings[n - 1]) is Some {
        coding_datatype(codings[n - 1])
    } else {
        last_resolution(codings, id, n - 1)
    }
}

/// The primitive of the last coding among the first `n` with identifier
/// `id` that resolves to a primitive.
pub open spec fn last_primitive(codings: Seq<FibexTypeCoding>, id: Seq<char>, n: int) -> Option<FibexPrimitive>
    decreases n,
{
    if n <= 0 {
        None
    } else if codings[n - 1].id@ == id && coding_datatype(codings[n - 1]) matches Some(
        FibexDatatype::Primitive(_),
    ) {
        match coding_datatype(codings[n - 1]) {
            Some(FibexDatatype::Primitive(p)) => Some(p),
            _ => None,
        }
    } else {
        last_primitive(codings, id, n - 1)
    }
}

/// The data type of a type once its coding is applied: an unknown type
/// takes the data type that its coding resolves to, an enumeration the
/// primitive of its coding; where several codings carry the identifier, the
/// last one counts.
pub open spec fn packed_datatype(t: FibexTypeInstance, codings: Seq<FibexTypeCoding>) -> FibexDatatype {
    match t.coding_ref {
        None => t.datatype,
        Some(c) => {
            let d = if t.datatype is Unknown {
                match last_resolution(codings, c@, codings.len() as int) {
                    Some(dt) => dt,
                    None => FibexDatatype::Unknown,
                }
            } else {
                t.datatype
            };
            match d {
                FibexDatatype::Enum(e) => match last_primitive(codings, c@, codings.len() as int) {
                    Some(p) => FibexDatatype::Enum(FibexEnum { primitive: p, variants: e.variants }),
                    None => d,
                },
                _ => d,
            }
        },
    }
}

/// A type with its coding applied.
pub open spec fn packed_instance(t: FibexTypeInstance, codings: Seq<FibexTypeCoding>) -> FibexTypeInstance {
    FibexTypeInstance { datatype: packed_datatype(t, codings), ..t }
}

/// The identifier of each type, and whether its data type is known.
pub open spec fn current_keys(types: Seq<FibexTypeInstance>) -> Seq<(Seq<char>, bool)> {
    Seq::new(types.len(), |i: int| (types[i].id@, !(types[i].datatype is Unknown)))
}

/// The identifier of each type, and whether its data type is known once the
/// codings are applied.
pub open spec fn type_keys(types: Seq<FibexTypeInstance>, codings: Seq<FibexTypeCoding>) -> Seq<(Seq<char>, bool)> {
    current_keys(Seq::new(types.len(), |i: int| packed_instance(types[i], codings)))
}

/// The position of the last of the first `n` types that has identifier `id`
/// and a known data type.
pub open spec fn known_index(keys: Seq<(Seq<char>, bool)>, id: Seq<char>, n: int) -> Option<usize>
    decreases n,
{
    if n <= 0 {
        None
    } else if keys[n - 1].0 == id && keys[n - 1].1 {
        Some((n - 1) as usize)
    } else {
        known_index(keys, id, n - 1)
    }
}

/// The type that a declaration refers to once references are resolved.
pub open spec fn resolved_ref(m: FibexTypeDeclaration, keys: Seq<(Seq<char>, bool)>) -> Option<usize> {
    match m.type_ref {
        Some(k) => Some(k),
        None => known_index(keys, m.id_ref@, keys.len() as int),
    }
}

/// Whether a declaration refers to no type, resolved or not.
pub open spec fn unresolvable(m: FibexTypeDeclaration, keys: Seq<(Seq<char>, bool)>) -> bool {
    resolved_ref(m, keys) is None
}

/// The members of a data type that is a structure, else none.
pub open spec fn struct_members(d: FibexDatatype) -> Seq<FibexTypeDeclaration> {
    match d {
        FibexDatatype::Struct(s) => s.members@,
        _ => Seq::empty(),
    }
}

/// Whether the member `m` of the type `i` refers to no type.
pub open spec fn member_unresolvable(types: Seq<FibexTypeInstance>, codings: Seq<FibexTypeCoding>, i: int, m: int) -> bool {
    let members = struct_members(packed_datatype(types[i], codings));
    0 <= i < types.len() && 0 <= m < members.len() && unresolvable(
        members[m],
        type_keys(types, codings),
    )
}

/// The message of a reference that cannot be resolved.
pub open spec fn msg_unresolved(id_ref: Seq<char>, id: Seq<char>) -> Seq<char> {
    "Unresolved reference "@ + id_ref + " at "@ + id
}

/// A member that differs from another at most in its reference.
pub open spec fn same_but_ref(new: FibexTypeDeclaration, old: FibexTypeDeclaration) -> bool {
    new.id == old.id && new.name == old.name && new.id_ref == old.id_ref && new.attributes
        == old.attributes
}

/// A type with the references of the members of a structure resolved:
/// all of them where `upto` is negative, else those before `upto`.
pub open spec fn refs_resolved(
    new: FibexTypeInstance,
    old: FibexTypeInstance,
    keys: Seq<(Seq<char>, bool)>,
    upto: int,
) -> bool {
    &&& new.id == old.id
    &&& new.name == old.name
    &&& new.coding_ref == old.coding_ref
    &&& match old.datatype {
        FibexDatatype::Struct(s) => match new.datatype {
            FibexDatatype::Struct(s2) => {
                &&& s2.members@.len() == s.members@.len()
                &&& forall|m: int|
                    0 <= m < s.members@.len() ==> same_but_ref(
                        #[trigger] s2.members@[m],
                        s.members@[m],
                    ) && (if upto < 0 || m < upto {
                        s2.members@[m].type_ref == resolved_ref(s.members@[m], keys)
                    } else {
                        s2.members@[m].type_ref == s.members@[m].type_ref
                    })
            },
            _ => false,
        },
        d => new.datatype == d,
    }
}

/// The first member, at or after `m`, of the structure `t` that refers to
/// no type, or the number of members.
pub open spec fn first_unresolvable(t: FibexTypeInstance, keys: Seq<(Seq<char>, bool)>) -> int {
    first_where(struct_members(t.datatype), |d: FibexTypeDeclaration| unresolvable(d, keys), 0)
}

impl FibexModel {
    /// An empty model.
    pub fn new() -> (r: FibexModel)
        ensures
            r.services@.len() == 0,
            r.types@.len() == 0,
            r.codings@.len() == 0,
    {
        FibexModel { services: Vec::new(), types: Vec::new(), codings: Vec::new() }
    }

    /// The first service with the service id and major version given.
    pub fn get_service(&self, service_id: usize, service_version: usize) -> (r: Option<&FibexServiceInterface>)
        ensures
            r matches Some(s) ==> exists|i: int|
                0 <= i < self.services@.len() && self.services@[i] == *s && s.service_id
                    == service_id && s.major_version == service_version && forall|j: int|
                    0 <= j < i ==> !(#[trigger] self.services@[j].service_id == service_id
                        && self.services@[j].major_version == service_version),
            r is None ==> forall|j: int|
                0 <= j < self.services@.len() ==> !(#[trigger] self.services@[j].service_id
                    == service_id && self.services@[j].major_version == service_version),
    {
        let mut i: usize = 0;
        while i < self.services.len()
            invariant
                i <= self.services@.len(),
                forall|j: int|
                    0 <= j < i ==> !(#[trigger] self.services@[j].service_id == service_id
                        && self.services@[j].major_version == service_version),
            decreases self.services@.len() - i,
        {
            let service = &self.services[i];
            if service.service_id == service_id && service.major_version == service_version {
                return Some(service);
            }
            i = i + 1;
        }
        None
    }

    /// The position of the last type with identifier `id` whose data type
    /// is known.
    fn find_known(&self, id: &String) -> (r: Option<usize>)
        ensures
            r == known_index(current_keys(self.types@), id@, self.types@.len() as int),
    {
        let ghost keys = current_keys(self.types@);
        let mut found: Option<usize> = None;
        let mut i: usize = 0;
        while i < self.types.len()
            invariant
                i <= self.types@.len(),
                keys == current_keys(self.types@),
                found == known_index(keys, id@, i as int),
            decreases self.types@.len() - i,
        {
            let known = match &self.types[i].datatype {
                FibexDatatype::Unknown => false,
                _ => true,
            };
            if known && self.types[i].id == *id {
                found = Some(i);
            }
            i = i + 1;
        }
        found
    }

    /// Applies the codings to the type at `i`.
    fn apply_codings(&mut self, i: usize)
        requires
            i < old(self).types@.len(),
        ensures
            final(self).codings == old(self).codings,
            final(self).services == old(self).services,
            final(self).types@ == old(self).types@.update(
                i as int,
                FibexTypeInstance {
                    datatype: packed_datatype(old(self).types@[i as int], old(self).codings@),
                    ..old(self).types@[i as int]
                },
            ),
    {
        let coding_ref = match &self.types[i].coding_ref {
            Some(c) => Some(copy_string(c)),
            None => None,
        };
        let ghost t = self.types@[i as int];
        if let Some(c) = coding_ref {
            let unknown = match &self.types[i].datatype {
                FibexDatatype::Unknown => true,
                _ => false,
            };
            if unknown {
                let mut j: usize = 0;
                while j < self.codings.len()
                    invariant
                        i < self.types@.len(),
                        i < old(self).types@.len(),
                        j <= self.codings@.len(),
                        self.codings == old(self).codings,
                        self.services == old(self).services,
                        self.types@ == old(self).types@.update(
                            i as int,
                            FibexTypeInstance {
                                datatype: match last_resolution(self.codings@, c@, j as int) {
                                    Some(dt) => dt,
                                    None => FibexDatatype::Unknown,
                                },
                                ..t
                            },
                        ),
                    decreases self.codings@.len() - j,
                {
                    if self.codings[j].id == c {
                        if let Some(dt) = self.codings[j].resolve() {
                            self.types[i].datatype = dt;
                        }
                    }
                    proof {
                        let d = match last_resolution(self.codings@, c@, j + 1) {
                            Some(dt) => dt,
                            None => FibexDatatype::Unknown,
                        };
                        assert(self.types@ =~= old(self).types@.update(
                            i as int,
                            FibexTypeInstance { datatype: d, ..t },
                        ));
                    }
                    j = j + 1;
                }
            }
            let is_enum = match &self.types[i].datatype {
                FibexDatatype::Enum(_) => true,
                _ => false,
            };
            if is_enum {
                let mut j: usize = 0;
                let ghost t1 = self.types@[i as int];
                while j < self.codings.len()
                    invariant
                        i < self.types@.len(),
                        i < old(self).types@.len(),
                        j <= self.codings@.len(),
                        self.codings == old(self).codings,
                        self.services == old(self).services,
                        t1.datatype is Enum,
                        self.types@ == old(self).types@.update(
                            i as int,
                            FibexTypeInstance {
                                datatype: match last_primitive(self.codings@, c@, j as int) {
                                    Some(p) => FibexDatatype::Enum(
                                        FibexEnum { primitive: p, variants: t1.datatype->Enum_0.variants },
                                    ),
                                    None => t1.datatype,
                                },
                                ..t1
                            },
                        ),
                    decreases self.codings@.len() - j,
                {
                    if self.codings[j].id == c {
                        let resolved = self.codings[j].resolve();
                        if let Some(FibexDatatype::Primitive(p)) = resolved {
                            let mut d = FibexDatatype::Unknown;
                            core::mem::swap(&mut d, &mut self.types[i].datatype);
                            match d {
                                FibexDatatype::Enum(e) => {
                                    self.types[i].datatype = FibexDatatype::Enum(
                                        FibexEnum { primitive: p, variants: e.variants },
                                    );
                                },
                                _ => {
                                    self.types[i].datatype = d;
                                },
                            }
                        }
                    }
                    proof {
                        let d = match last_primitive(self.codings@, c@, j + 1) {
                            Some(p) => FibexDatatype::Enum(
                                FibexEnum { primitive: p, variants: t1.datatype->Enum_0.variants },
                            ),
                            None => t1.datatype,
                        };
                        assert(self.types@ =~= old(self).types@.update(
                            i as int,
                            FibexTypeInstance { datatype: d, ..t1 },
                        ));
                    }
                    j = j + 1;
                }
            }
        }
    }
}

impl FibexModel {
    /// Resolves the references of the members of the type at `i` that have
    /// none yet; with `strict`, stops with an error at the first member
    /// whose reference cannot be resolved.
    fn resolve_type(&mut self, i: usize, strict: bool) -> (r: Result<(), FibexError>)
        requires
            i < old(self).types@.len(),
        ensures
            final(self).services == old(self).services,
            final(self).codings == old(self).codings,
            final(self).types@.len() == old(self).types@.len(),
            forall|k: int|
                0 <= k < old(self).types@.len() && k != i ==> final(self).types@[k] == old(
                    self,
                ).types@[k],
            current_keys(final(self).types@) == current_keys(old(self).types@),
            ({
                let keys = current_keys(old(self).types@);
                let t = old(self).types@[i as int];
                let f = first_unresolvable(t, keys);
                &&& r is Ok <==> !(strict && f < struct_members(t.datatype).len())
                &&& r is Ok ==> refs_resolved(final(self).types@[i as int], t, keys, -1)
                &&& r is Err ==> (r matches Err(FibexError::Parse(msg)) && msg@ == msg_unresolved(
                    struct_members(t.datatype)[f].id_ref@,
                    struct_members(t.datatype)[f].id@,
                ) && refs_resolved(final(self).types@[i as int], t, keys, f))
            }),
    {
        let ghost keys = current_keys(self.types@);
        let ghost t = self.types@[i as int];
        let ghost members = struct_members(t.datatype);
        let ghost p = |d: FibexTypeDeclaration| unresolvable(d, keys);
        let n: usize = match &self.types[i].datatype {
            FibexDatatype::Struct(st) => st.members.len(),
            _ => 0,
        };
        let mut m: usize = 0;
        while m < n
            invariant
                i < self.types@.len(),
                i < old(self).types@.len(),
                keys == current_keys(old(self).types@),
                t == old(self).types@[i as int],
                members == struct_members(t.datatype),
                p == |d: FibexTypeDeclaration| unresolvable(d, keys),
                n == members.len(),
                m <= n,
                self.services == old(self).services,
                self.codings == old(self).codings,
                self.types@.len() == old(self).types@.len(),
                forall|k: int|
                    0 <= k < old(self).types@.len() && k != i ==> self.types@[k] == old(
                        self,
                    ).types@[k],
                current_keys(self.types@) == keys,
                refs_resolved(self.types@[i as int], t, keys, m as int),
                strict ==> forall|j: int| 0 <= j < m ==> !p(#[trigger] members[j]),
            decreases n - m,
        {
            let lookup: Option<Option<usize>> = match &self.types[i].datatype {
                FibexDatatype::Struct(st) => {
                    if st.members[m].type_ref.is_none() {
                        Some(self.find_known(&st.members[m].id_ref))
                    } else {
                        None
                    }
                },
                _ => None,
            };
            match lookup {
                Some(Some(k)) => {
                    let ghost before = self.types@;
                    if let FibexDatatype::Struct(st) = &mut self.types[i].datatype {
                        st.members[m].type_ref = Some(k);
                    }
                    proof {
                        assert forall|j: int|
                            0 <= j < self.types@.len() implies #[trigger] current_keys(
                            self.types@,
                        )[j] == keys[j] by {
                            if j == i {
                                assert(self.types@[j].id == before[j].id);
                            }
                        }
                        assert(current_keys(self.types@) =~= keys);
                    }
                },
                Some(None) => {
                    if strict {
                        let mut msg = String::from_str("Unresolved reference ");
                        match &self.types[i].datatype {
                            FibexDatatype::Struct(st) => {
                                push_text(&mut msg, &st.members[m].id_ref);
                                msg.append(" at ");
                                push_text(&mut msg, &st.members[m].id);
                            },
                            _ => {},
                        }
                        proof {
                            lemma_first_where_is(members, p, 0, m as int);
                        }
                        return Err(FibexError::Parse(msg));
                    }
                },
                None => {},
            }
            m = m + 1;
        }
        proof {
            if strict {
                lemma_first_where_is(members, p, 0, n as int);
            }
        }
        Ok(())
    }
}

/// Appends the text of `t` to `s`.
fn push_text(s: &mut String, t: &String)
    ensures
        final(s)@ == old(s)@ + t@,
{
    s.append(t.as_str());
}

/// Whether some member of a structure of the model refers to no type once
/// the codings are applied.
pub open spec fn has_unresolvable(types: Seq<FibexTypeInstance>, codings: Seq<FibexTypeCoding>) -> bool {
    exists|k: int, m: int| member_unresolvable(types, codings, k, m)
}

impl FibexModel {
    /// Applies the codings to the types, then resolves the references of
    /// the members of structures to the types of the model; a reference to
    /// no known type is an error where `strict` is set, and is left
    /// unresolved otherwise.
    pub fn pack(&mut self, strict: bool) -> (r: Result<(), FibexError>)
        ensures
            final(self).services == old(self).services,
            final(self).codings == old(self).codings,
            final(self).types@.len() == old(self).types@.len(),
            r is Ok <==> !(strict && has_unresolvable(old(self).types@, old(self).codings@)),
            r is Ok ==> forall|k: int|
                0 <= k < old(self).types@.len() ==> refs_resolved(
                    #[trigger] final(self).types@[k],
                    packed_instance(old(self).types@[k], old(self).codings@),
                    type_keys(old(self).types@, old(self).codings@),
                    -1,
                ),
            refs_within(old(self).services@, old(self).types@) ==> refs_within(
                final(self).services@,
                final(self).types@,
            ),
            r is Err ==> exists|k: int|
                0 <= k < old(self).types@.len() && pack_failed_at(
                    r,
                    final(self).types@,
                    old(self).types@,
                    old(self).codings@,
                    k,
                ),
    {
        let ghost codings = self.codings@;
        let ghost len = self.types@.len();
        let mut i: usize = 0;
        while i < self.types.len()
            invariant
                i <= self.types@.len(),
                self.types@.len() == len,
                len == old(self).types@.len(),
                codings == old(self).codings@,
                self.services == old(self).services,
                self.codings == old(self).codings,
                forall|k: int|
                    0 <= k < i ==> self.types@[k] == packed_instance(old(self).types@[k], codings),
                forall|k: int| i <= k < len ==> self.types@[k] == old(self).types@[k],
            decreases len - i,
        {
            self.apply_codings(i);
            i = i + 1;
        }
        let ghost mid = self.types@;
        let ghost keys = current_keys(mid);
        proof {
            assert(mid =~= Seq::new(len, |k: int| packed_instance(old(self).types@[k], codings)));
            if refs_within(old(self).services@, old(self).types@) {
                assert forall|k: int| 0 <= k < len implies members_below(#[trigger] mid[k], len) by {
                    lemma_packed_members(old(self).types@[k], codings);
                    assert(members_below(old(self).types@[k], len));
                }
            }
        }
        let mut i: usize = 0;
        while i < self.types.len()
            invariant
                i <= self.types@.len(),
                self.types@.len() == len,
                mid.len() == len,
                len == old(self).types@.len(),
                codings == old(self).codings@,
                mid == Seq::new(len, |k: int| packed_instance(old(self).types@[k], codings)),
                keys == current_keys(mid),
                keys == type_keys(old(self).types@, codings),
                self.services == old(self).services,
                self.codings == old(self).codings,
                current_keys(self.types@) == keys,
                forall|k: int|
                    0 <= k < i ==> refs_resolved(#[trigger] self.types@[k], mid[k], keys, -1),
                forall|k: int| i <= k < len ==> self.types@[k] == mid[k],
                strict ==> forall|k: int| 0 <= k < i ==> first_unresolvable(#[trigger] mid[k], keys) == struct_members(mid[k].datatype).len(),
                refs_within(old(self).services@, old(self).types@) ==> forall|k: int| 0 <= k < len ==> members_below(#[trigger] mid[k], len),
                refs_within(old(self).services@, old(self).types@) ==> forall|k: int| 0 <= k < len ==> members_below(#[trigger] self.types@[k], len),
            decreases len - i,
        {
            let ghost before = self.types@;
            proof {
                lemma_first_unresolvable(mid[i as int], keys);
            }
            let res = self.resolve_type(i, strict);
            proof {
                if refs_within(old(self).services@, old(self).types@) {
                    let t = before[i as int];
                    assert(t == mid[i as int]);
                    if res is Ok {
                        lemma_refs_resolved_below(self.types@[i as int], t, keys, -1);
                    } else {
                        lemma_refs_resolved_below(self.types@[i as int], t, keys, first_unresolvable(t, keys));
                    }
                    assert forall|k: int| 0 <= k < len implies members_below(#[trigger] self.types@[k], len) by {
                        if k != i {
                            assert(self.types@[k] == before[k]);
                        }
                    }
                }
            }
            match res {
                Err(e) => {
                    proof {
                        lemma_first_unresolvable(mid[i as int], keys);
                        assert forall|j: int, m: int| 0 <= j < i implies !member_unresolvable(old(self).types@, codings, j, m) by {
                            lemma_first_unresolvable(mid[j], keys);
                        }
                        assert forall|j: int| i < j < len implies #[trigger] self.types@[j] == packed_instance(old(self).types@[j], codings) by {
                            assert(before[j] == mid[j]);
                        }
                        assert(pack_failed_at(Err(e), self.types@, old(self).types@, codings, i as int));
                    }
                    return Err(e);
                },
                Ok(()) => {},
            }
            i = i + 1;
        }
        proof {
            if strict {
                assert forall|k: int, m: int| !member_unresolvable(old(self).types@, codings, k, m) by {
                    if 0 <= k < len {
                        lemma_first_unresolvable(mid[k], keys);
                    }
                }
            }
        }
        Ok(())
    }
}

/// The first member of a structure that refers to no type is one, and none
/// before it is.
pub proof fn lemma_first_unresolvable(t: FibexTypeInstance, keys: Seq<(Seq<char>, bool)>)
    ensures
        0 <= first_unresolvable(t, keys) <= struct_members(t.datatype).len(),
        first_unresolvable(t, keys) < struct_members(t.datatype).len() ==> unresolvable(
            struct_members(t.datatype)[first_unresolvable(t, keys)],
            keys,
        ),
        forall|m: int|
            0 <= m < first_unresolvable(t, keys) ==> !unresolvable(
                #[trigger] struct_members(t.datatype)[m],
                keys,
            ),
{
    let p = |d: FibexTypeDeclaration| unresolvable(d, keys);
    lemma_first_where(struct_members(t.datatype), p, 0);
    assert forall|m: int| 0 <= m < first_unresolvable(t, keys) implies !unresolvable(
        #[trigger] struct_members(t.datatype)[m],
        keys,
    ) by {
        assert(!p(struct_members(t.datatype)[m]));
    }
}

/// How `pack` fails at the type `k`: with the message of the first member
/// of that type that refers to no type, no such member in the types
/// before, and the references resolved up to there.
pub open spec fn pack_failed_at(
    r: Result<(), FibexError>,
    types: Seq<FibexTypeInstance>,
    old_types: Seq<FibexTypeInstance>,
    codings: Seq<FibexTypeCoding>,
    k: int,
) -> bool {
    let keys = type_keys(old_types, codings);
    let t = packed_instance(old_types[k], codings);
    let members = struct_members(t.datatype);
    let f = first_unresolvable(t, keys);
    &&& f < members.len()
    &&& r matches Err(FibexError::Parse(msg)) && msg@ == msg_unresolved(members[f].id_ref@, members[f].id@)
    &&& member_unresolvable(old_types, codings, k, f)
    &&& forall|j: int, m: int| 0 <= j < k ==> !member_unresolvable(old_types, codings, j, m)
    &&& forall|m: int| 0 <= m < f ==> !member_unresolvable(old_types, codings, k, m)
    &&& forall|j: int| 0 <= j < k ==> refs_resolved(#[trigger] types[j], packed_instance(old_types[j], codings), keys, -1)
    &&& refs_resolved(types[k], t, keys, f)
    &&& forall|j: int| k < j < old_types.len() ==> #[trigger] types[j] == packed_instance(old_types[j], codings)
}

impl Default for FibexModel {
    fn default() -> (r: FibexModel)
        ensures
            r.services@.len() == 0,
            r.types@.len() == 0,
            r.codings@.len() == 0,
    {
        FibexModel::new()
    }
}

impl FibexServiceInterface {
    /// The first method with the method id given.
    pub fn get_method(&self, method_id: usize) -> (r: Option<&FibexServiceMethod>)
        ensures
            r matches Some(mth) ==> exists|i: int|
                0 <= i < self.methods@.len() && self.methods@[i] == *mth && mth.method_id
                    == method_id && forall|j: int|
                    0 <= j < i ==> #[trigger] self.methods@[j].method_id != method_id,
            r is None ==> forall|j: int|
                0 <= j < self.methods@.len() ==> #[trigger] self.methods@[j].method_id != method_id,
    {
        let mut i: usize = 0;
        while i < self.methods.len()
            invariant
                i <= self.methods@.len(),
                forall|j: int| 0 <= j < i ==> #[trigger] self.methods@[j].method_id != method_id,
            decreases self.methods@.len() - i,
        {
            if self.methods[i].method_id == method_id {
                return Some(&self.methods[i]);
            }
            i = i + 1;
        }
        None
    }
}

impl FibexServiceMethod {
    /// The type of the request payload, if any.
    pub fn get_request(&self) -> (r: Option<&FibexTypeDeclaration>)
        ensures
            r matches Some(d) ==> self.request == Some(*d),
            r is None ==> self.request is None,
    {
        self.request.as_ref()
    }

    /// The type of the response payload, if any.
    pub fn get_response(&self) -> (r: Option<&FibexTypeDeclaration>)
        ensures
            r matches Some(d) ==> self.response == Some(*d),
            r is None ==> self.response is None,
    {
        self.response.as_ref()
    }
}

/// A reference, if any, that points into a table of `n` types.
pub open spec fn ref_below(r: Option<usize>, n: nat) -> bool {
    r matches Some(k) ==> k < n
}

/// A declaration, if any, whose reference points into a table of `n`
/// types.
pub open spec fn decl_below(d: Option<FibexTypeDeclaration>, n: nat) -> bool {
    d matches Some(x) ==> ref_below(x.type_ref, n)
}

/// Whether the requests and responses of the methods refer into a table
/// of `n` types.
pub open spec fn methods_below(methods: Seq<FibexServiceMethod>, n: nat) -> bool {
    forall|j: int|
        0 <= j < methods.len() ==> decl_below(#[trigger] methods[j].request, n) && decl_below(
            methods[j].response,
            n,
        )
}

/// Whether the members of a type refer into a table of `n` types.
pub open spec fn members_below(t: FibexTypeInstance, n: nat) -> bool {
    forall|j: int|
        0 <= j < struct_members(t.datatype).len() ==> ref_below(
            (#[trigger] struct_members(t.datatype)[j]).type_ref,
            n,
        )
}

/// Whether every reference of the services and types points into the
/// table of types.
pub open spec fn refs_within(services: Seq<FibexServiceInterface>, types: Seq<FibexTypeInstance>) -> bool {
    &&& forall|i: int| 0 <= i < services.len() ==> methods_below(#[trigger] services[i].methods@, types.len())
    &&& forall|i: int| 0 <= i < types.len() ==> members_below(#[trigger] types[i], types.len())
}

/// No coding resolves to a structure.
pub proof fn lemma_last_resolution_not_struct(codings: Seq<FibexTypeCoding>, id: Seq<char>, n: int)
    ensures
        last_resolution(codings, id, n) matches Some(dt) ==> !(dt is Struct),
    decreases n,
{
    if n > 0 {
        lemma_last_resolution_not_struct(codings, id, n - 1);
    }
}

/// Applying the codings leaves the members of a structure as they are.
pub proof fn lemma_packed_members(t: FibexTypeInstance, codings: Seq<FibexTypeCoding>)
    ensures
        struct_members(packed_datatype(t, codings)) == struct_members(t.datatype),
{
    if let Some(c) = t.coding_ref {
        lemma_last_resolution_not_struct(codings, c@, codings.len() as int);
    }
}

/// Resolving the references of a type keeps them in the table of types.
pub proof fn lemma_refs_resolved_below(
    new: FibexTypeInstance,
    old: FibexTypeInstance,
    keys: Seq<(Seq<char>, bool)>,
    upto: int,
)
    requires
        refs_resolved(new, old, keys, upto),
        members_below(old, keys.len()),
    ensures
        members_below(new, keys.len()),
{
    assert forall|j: int|
        0 <= j < struct_members(new.datatype).len() implies ref_below(
        (#[trigger] struct_members(new.datatype)[j]).type_ref,
        keys.len(),
    ) by {
        let m = struct_members(old.datatype)[j];
        assert(ref_below(m.type_ref, keys.len()));
        lemma_known_index_below(keys, m.id_ref@, keys.len() as int);
    }
}

/// A reference that `known_index` finds points among the first `n` types.
pub proof fn lemma_known_index_below(keys: Seq<(Seq<char>, bool)>, id: Seq<char>, n: int)
    ensures
        known_index(keys, id, n) matches Some(k) ==> k < n,
    decreases n,
{
    if n > 0 {
        lemma_known_index_below(keys, id, n - 1);
    }
}

} // verus!
