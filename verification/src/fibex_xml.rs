//! Reading FIBEX XML: the elements of a FIBEX document as a stream of
//! events, which the parser builds the model from.
//!
//! The XML itself is read by `quick_xml`; what each element stands for is
//! decided here.

use vstd::prelude::*;
use quick_xml::Error as XmlError;
use quick_xml::events::BytesStart;
use crate::xml_source::{xml_next_reply, xml_text_reply, XmlSource};
use crate::fibex::{copy_string, first_where, lemma_first_where, str_eq, FibexError};

verus! {

/// A start tag of the XML reader.
#[verifier::external_type_specification]
#[verifier::external_body]
pub struct ExBytesStart<'a>(BytesStart<'a>);

/// The events of a FIBEX document.
#[derive(Debug)]
pub enum FibexEvent {
    /// The name of an element.
    ShortName(String),
    /// A service begins, with its identifier.
    ServiceStart(String),
    /// A service ends.
    ServiceEnd,
    /// The service id.
    ServiceIdentifier(String),
    /// The method id.
    MethodIdentifier(String),
    /// The notification id of a notifier.
    NotificationIdentifier(String),
    /// The major version.
    MajorVersion(String),
    /// The minor version.
    MinorVersion(String),
    /// A method or event begins, with its identifier.
    MethodStart(String),
    /// A method or event ends.
    MethodEnd,
    /// The input parameters begin.
    MethodInputStart,
    /// The return parameters begin.
    MethodOutputStart,
    /// The parameters end.
    MethodParamEnd,
    /// A field begins, with its identifier.
    FieldStart(String),
    /// A field ends.
    FieldEnd,
    /// The getter of a field begins.
    FieldGetterStart,
    /// The setter of a field begins.
    FieldSetterStart,
    /// The notifier of a field begins.
    FieldNotifierStart,
    /// An accessor of a field ends.
    FieldAccessorEnd,
    /// An array declaration begins.
    ArrayDeclarationStart,
    /// An array declaration ends.
    ArrayDeclarationEnd,
    /// A dimension of an array begins.
    ArrayDimensionStart,
    /// The number of the dimension.
    ArrayDimension(String),
    /// A dimension of an array ends.
    ArrayDimensionEnd,
    /// The minimum size of a dimension.
    MinimumSize(String),
    /// The maximum size of a dimension.
    MaximumSize(String),
    /// The utilization of a type begins.
    UtilizationStart,
    /// The utilization of a type ends.
    UtilizationEnd,
    /// The byte order.
    HighLowByteOrder(String),
    /// The size of the length field.
    LengthField(String),
    /// The size of the length field of an array.
    ArrayLengthField(String),
    /// The size of the type field.
    TypeLengthField(String),
    /// A data type begins, with its identifier and its kind.
    DatatypeStart(String, String),
    /// A data type ends.
    DatatypeEnd,
    /// A member or parameter begins, with its identifier.
    DatatypeMemberStart(String),
    /// A member or parameter ends.
    DatatypeMemberEnd,
    /// The class of a complex data type.
    DatatypeClass(String),
    /// The identifier of a referenced data type.
    DatatypeRef(String),
    /// The identifier of a referenced coding.
    CodingRef(String),
    /// The position of a member.
    Position(String),
    /// An item of an enumeration begins.
    EnumStart,
    /// An item of an enumeration ends.
    EnumEnd,
    /// The name of an item of an enumeration.
    EnumName(String),
    /// The value of an item of an enumeration.
    EnumValue(String),
    /// The processing information begins.
    ProcessingInfoStart,
    /// The processing information ends.
    ProcessingInfoEnd,
    /// A coding begins, with its identifier.
    CodingInfoStart(String),
    /// A coding ends.
    CodingInfoEnd,
    /// The coded type: base type, category, encoding, byte order mark and
    /// termination.
    CodedType(String, String, String, String, String),
    /// The minimum length.
    MinLength(String),
    /// The maximum length.
    MaxLength(String),
    /// The length in bits.
    BitLength(String),
    /// The minimum length in bits.
    MinBitLength(String),
    /// The maximum length in bits.
    MaxBitLength(String),
    /// The end of an unrelated element that was skipped.
    Eou,
    /// The end of the document.
    Eof,
}

/// What a start tag makes.
#[derive(Debug)]
pub enum StartAction {
    /// An event from the text of the element.
    Text(TextKind),
    /// An event from the `ID` attribute.
    Id(IdKind),
    /// The event given.
    Marker(FibexEvent),
    /// A data type: from the attributes `ID` and `xsi:type`.
    Datatype,
    /// A coded type: from the attributes `ho:BASE-DATA-TYPE`, `CATEGORY`,
    /// `ENCODING`, `BYTE-ORDER-MARK` and `TERMINATION`.
    CodedType,
    /// Nothing: the element is skipped up to its end.
    Skip,
    /// Nothing.
    Ignore,
}

/// An attribute of a tag: its key, and its value or the error of decoding
/// it.
pub struct XmlAttribute {
    /// The key, with its namespace prefix.
    pub key: String,
    /// The value, unescaped and decoded.
    pub value: Result<String, XmlError>,
}

/// A start tag or an empty element tag.
pub struct XmlTag {
    /// The name, with its namespace prefix, as bytes.
    pub name: Vec<u8>,
    /// The name without its namespace prefix.
    pub local: String,
    /// The attributes, up to the first malformed one.
    pub attributes: Vec<XmlAttribute>,
    /// The error of the first malformed attribute, if any.
    pub malformed: Option<XmlError>,
}

/// A tag by its view: its name, its local name, its attributes (key, and
/// value or `None` where it cannot be decoded), and whether a malformed
/// attribute ends them.
pub struct XmlTagV {
    /// The name, with its namespace prefix.
    pub name: Seq<u8>,
    /// The name without its namespace prefix.
    pub local: Seq<char>,
    /// The attributes.
    pub attributes: Seq<(Seq<char>, Option<Seq<char>>)>,
    /// Whether a malformed attribute ends the attributes.
    pub malformed: bool,
}

/// A token of the XML reader by its view.
pub enum XmlTokenV {
    /// A start tag.
    Start(XmlTagV),
    /// An empty element tag.
    Empty(XmlTagV),
    /// An end tag, by its name without namespace prefix.
    End(Seq<char>),
    /// The end of the document.
    Eof,
    /// Anything else.
    Other,
}

/// The view of an attribute: its key, and its value where it can be
/// decoded.
pub open spec fn attribute_view(a: XmlAttribute) -> (Seq<char>, Option<Seq<char>>) {
    (
        a.key@,
        match a.value {
            Ok(v) => Some(v@),
            Err(_) => None,
        },
    )
}

impl View for XmlTag {
    type V = XmlTagV;

    open spec fn view(&self) -> XmlTagV {
        XmlTagV {
            name: self.name@,
            local: self.local@,
            attributes: self.attributes@.map_values(|a: XmlAttribute| attribute_view(a)),
            malformed: self.malformed is Some,
        }
    }
}

impl View for XmlToken {
    type V = XmlTokenV;

    open spec fn view(&self) -> XmlTokenV {
        match self {
            XmlToken::Start(tag) => XmlTokenV::Start(tag@),
            XmlToken::Empty(tag) => XmlTokenV::Empty(tag@),
            XmlToken::End(local) => XmlTokenV::End(local@),
            XmlToken::Eof => XmlTokenV::Eof,
            XmlToken::Other => XmlTokenV::Other,
        }
    }
}

/// What the XML reader gives.
pub enum XmlToken {
    /// A start tag.
    Start(XmlTag),
    /// An empty element tag.
    Empty(XmlTag),
    /// An end tag, by its name without namespace prefix.
    End(String),
    /// The end of the document.
    Eof,
    /// Anything else: text, comments, declarations.
    Other,
}

/// The kinds of start tags whose text makes an event.
#[derive(Debug, Clone, Copy, PartialEq, Eq, Structural)]
pub enum TextKind {
    /// `SHORT-NAME`
    ShortName,
    /// `SERVICE-IDENTIFIER`
    ServiceIdentifier,
    /// `MAJOR`
    MajorVersion,
    /// `MINOR`
    MinorVersion,
    /// `METHOD-IDENTIFIER`
    MethodIdentifier,
    /// `NOTIFICATION-IDENTIFIER`
    NotificationIdentifier,
    /// `DIMENSION`
    ArrayDimension,
    /// `MINIMUM-SIZE`
    MinimumSize,
    /// `MAXIMUM-SIZE`
    MaximumSize,
    /// `IS-HIGH-LOW-BYTE-ORDER`
    HighLowByteOrder,
    /// `LENGTH-FIELD-SIZE`
    LengthField,
    /// `ARRAY-LENGTH-FIELD-SIZE`
    ArrayLengthField,
    /// `TYPE-FIELD-SIZE`
    TypeLengthField,
    /// `MIN-LENGTH`
    MinLength,
    /// `MAX-LENGTH`
    MaxLength,
    /// `BIT-LENGTH`
    BitLength,
    /// `MIN-BIT-LENGTH`
    MinBitLength,
    /// `MAX-BIT-LENGTH`
    MaxBitLength,
    /// `COMPLEX-DATATYPE-CLASS`
    DatatypeClass,
    /// `POSITION`
    Position,
    /// `SYNONYM`
    EnumName,
    /// `VALUE`
    EnumValue,
}

/// The kinds of start tags whose `ID` attribute makes an event.
#[derive(Debug, Clone, Copy, PartialEq, Eq, Structural)]
pub enum IdKind {
    /// `ServiceStart`
    ServiceStart,
    /// `MethodStart`
    MethodStart,
    /// `FieldStart`
    FieldStart,
    /// `DatatypeMemberStart`
    DatatypeMemberStart,
    /// `CodingInfoStart`
    CodingInfoStart,
}

/// What a start tag with the local name `local` makes.
pub open spec fn start_action_of(local: Seq<char>) -> StartAction {
    if local == "SHORT-NAME"@ {
        StartAction::Text(TextKind::ShortName)
    } else if local == "SERVICE-IDENTIFIER"@ {
        StartAction::Text(TextKind::ServiceIdentifier)
    } else if local == "MAJOR"@ {
        StartAction::Text(TextKind::MajorVersion)
    } else if local == "MINOR"@ {
        StartAction::Text(TextKind::MinorVersion)
    } else if local == "METHOD-IDENTIFIER"@ {
        StartAction::Text(TextKind::MethodIdentifier)
    } else if local == "NOTIFICATION-IDENTIFIER"@ {
        StartAction::Text(TextKind::NotificationIdentifier)
    } else if local == "DIMENSION"@ {
        StartAction::Text(TextKind::ArrayDimension)
    } else if local == "MINIMUM-SIZE"@ {
        StartAction::Text(TextKind::MinimumSize)
    } else if local == "MAXIMUM-SIZE"@ {
        StartAction::Text(TextKind::MaximumSize)
    } else if local == "IS-HIGH-LOW-BYTE-ORDER"@ {
        StartAction::Text(TextKind::HighLowByteOrder)
    } else if local == "LENGTH-FIELD-SIZE"@ {
        StartAction::Text(TextKind::LengthField)
    } else if local == "ARRAY-LENGTH-FIELD-SIZE"@ {
        StartAction::Text(TextKind::ArrayLengthField)
    } else if local == "TYPE-FIELD-SIZE"@ {
        StartAction::Text(TextKind::TypeLengthField)
    } else if local == "MIN-LENGTH"@ {
        StartAction::Text(TextKind::MinLength)
    } else if local == "MAX-LENGTH"@ {
        StartAction::Text(TextKind::MaxLength)
    } else if local == "BIT-LENGTH"@ {
        StartAction::Text(TextKind::BitLength)
    } else if local == "MIN-BIT-LENGTH"@ {
        StartAction::Text(TextKind::MinBitLength)
    } else if local == "MAX-BIT-LENGTH"@ {
        StartAction::Text(TextKind::MaxBitLength)
    } else if local == "COMPLEX-DATATYPE-CLASS"@ {
        StartAction::Text(TextKind::DatatypeClass)
    } else if local == "POSITION"@ {
        StartAction::Text(TextKind::Position)
    } else if local == "SYNONYM"@ {
        StartAction::Text(TextKind::EnumName)
    } else if local == "VALUE"@ {
        StartAction::Text(TextKind::EnumValue)
    } else if local == "SERVICE-INTERFACE"@ {
        StartAction::Id(IdKind::ServiceStart)
    } else if local == "METHOD"@ {
        StartAction::Id(IdKind::MethodStart)
    } else if local == "EVENT"@ {
        StartAction::Id(IdKind::MethodStart)
    } else if local == "FIELD"@ {
        StartAction::Id(IdKind::FieldStart)
    } else if local == "INPUT-PARAMETER"@ {
        StartAction::Id(IdKind::DatatypeMemberStart)
    } else if local == "RETURN-PARAMETER"@ {
        StartAction::Id(IdKind::DatatypeMemberStart)
    } else if local == "MEMBER"@ {
        StartAction::Id(IdKind::DatatypeMemberStart)
    } else if local == "CODING"@ {
        StartAction::Id(IdKind::CodingInfoStart)
    } else if local == "INPUT-PARAMETERS"@ {
        StartAction::Marker(FibexEvent::MethodInputStart)
    } else if local == "RETURN-PARAMETERS"@ {
        StartAction::Marker(FibexEvent::MethodOutputStart)
    } else if local == "GETTER"@ {
        StartAction::Marker(FibexEvent::FieldGetterStart)
    } else if local == "SETTER"@ {
        StartAction::Marker(FibexEvent::FieldSetterStart)
    } else if local == "NOTIFIER"@ {
        StartAction::Marker(FibexEvent::FieldNotifierStart)
    } else if local == "ARRAY-DECLARATION"@ {
        StartAction::Marker(FibexEvent::ArrayDeclarationStart)
    } else if local == "ARRAY-DIMENSION"@ {
        StartAction::Marker(FibexEvent::ArrayDimensionStart)
    } else if local == "UTILIZATION"@ {
        StartAction::Marker(FibexEvent::UtilizationStart)
    } else if local == "ENUM-ELEMENT"@ {
        StartAction::Marker(FibexEvent::EnumStart)
    } else if local == "PROCESSING-INFORMATION"@ {
        StartAction::Marker(FibexEvent::ProcessingInfoStart)
    } else if local == "DATATYPE"@ {
        StartAction::Datatype
    } else if local == "CODED-TYPE"@ {
        StartAction::CodedType
    } else if local == "EVENT-GROUP"@ {
        StartAction::Skip
    } else if local == "COMPU-METHODS"@ {
        StartAction::Skip
    } else if local == "MANUFACTURER-EXTENSION"@ {
        StartAction::Skip
    } else {
        StartAction::Ignore
    }
}

/// What a start tag with the local name `local` makes.
pub fn start_action(local: &str) -> (r: StartAction)
    ensures
        r == start_action_of(local@),
{
        if str_eq(local, "SHORT-NAME") {
            StartAction::Text(TextKind::ShortName)
        } else if str_eq(local, "SERVICE-IDENTIFIER") {
            StartAction::Text(TextKind::ServiceIdentifier)
        } else if str_eq(local, "MAJOR") {
            StartAction::Text(TextKind::MajorVersion)
        } else if str_eq(local, "MINOR") {
            StartAction::Text(TextKind::MinorVersion)
        } else if str_eq(local, "METHOD-IDENTIFIER") {
            StartAction::Text(TextKind::MethodIdentifier)
        } else if str_eq(local, "NOTIFICATION-IDENTIFIER") {
            StartAction::Text(TextKind::NotificationIdentifier)
        } else if str_eq(local, "DIMENSION") {
            StartAction::Text(TextKind::ArrayDimension)
        } else if str_eq(local, "MINIMUM-SIZE") {
            StartAction::Text(TextKind::MinimumSize)
        } else if str_eq(local, "MAXIMUM-SIZE") {
            StartAction::Text(TextKind::MaximumSize)
        } else if str_eq(local, "IS-HIGH-LOW-BYTE-ORDER") {
            StartAction::Text(TextKind::HighLowByteOrder)
        } else if str_eq(local, "LENGTH-FIELD-SIZE") {
            StartAction::Text(TextKind::LengthField)
        } else if str_eq(local, "ARRAY-LENGTH-FIELD-SIZE") {
            StartAction::Text(TextKind::ArrayLengthField)
        } else if str_eq(local, "TYPE-FIELD-SIZE") {
            StartAction::Text(TextKind::TypeLengthField)
        } else if str_eq(local, "MIN-LENGTH") {
            StartAction::Text(TextKind::MinLength)
        } else if str_eq(local, "MAX-LENGTH") {
            StartAction::Text(TextKind::MaxLength)
        } else if str_eq(local, "BIT-LENGTH") {
            StartAction::Text(TextKind::BitLength)
        } else if str_eq(local, "MIN-BIT-LENGTH") {
            StartAction::Text(TextKind::MinBitLength)
        } else if str_eq(local, "MAX-BIT-LENGTH") {
            StartAction::Text(TextKind::MaxBitLength)
        } else if str_eq(local, "COMPLEX-DATATYPE-CLASS") {
            StartAction::Text(TextKind::DatatypeClass)
        } else if str_eq(local, "POSITION") {
            StartAction::Text(TextKind::Position)
        } else if str_eq(local, "SYNONYM") {
            StartAction::Text(TextKind::EnumName)
        } else if str_eq(local, "VALUE") {
            StartAction::Text(TextKind::EnumValue)
        } else if str_eq(local, "SERVICE-INTERFACE") {
            StartAction::Id(IdKind::ServiceStart)
        } else if str_eq(local, "METHOD") {
            StartAction::Id(IdKind::MethodStart)
        } else if str_eq(local, "EVENT") {
            StartAction::Id(IdKind::MethodStart)
        } else if str_eq(local, "FIELD") {
            StartAction::Id(IdKind::FieldStart)
        } else if str_eq(local, "INPUT-PARAMETER") {
            StartAction::Id(IdKind::DatatypeMemberStart)
        } else if str_eq(local, "RETURN-PARAMETER") {
            StartAction::Id(IdKind::DatatypeMemberStart)
        } else if str_eq(local, "MEMBER") {
            StartAction::Id(IdKind::DatatypeMemberStart)
        } else if str_eq(local, "CODING") {
            StartAction::Id(IdKind::CodingInfoStart)
        } else if str_eq(local, "INPUT-PARAMETERS") {
            StartAction::Marker(FibexEvent::MethodInputStart)
        } else if str_eq(local, "RETURN-PARAMETERS") {
            StartAction::Marker(FibexEvent::MethodOutputStart)
        } else if str_eq(local, "GETTER") {
            StartAction::Marker(FibexEvent::FieldGetterStart)
        } else if str_eq(local, "SETTER") {
            StartAction::Marker(FibexEvent::FieldSetterStart)
        } else if str_eq(local, "NOTIFIER") {
            StartAction::Marker(FibexEvent::FieldNotifierStart)
        } else if str_eq(local, "ARRAY-DECLARATION") {
            StartAction::Marker(FibexEvent::ArrayDeclarationStart)
        } else if str_eq(local, "ARRAY-DIMENSION") {
            StartAction::Marker(FibexEvent::ArrayDimensionStart)
        } else if str_eq(local, "UTILIZATION") {
            StartAction::Marker(FibexEvent::UtilizationStart)
        } else if str_eq(local, "ENUM-ELEMENT") {
            StartAction::Marker(FibexEvent::EnumStart)
        } else if str_eq(local, "PROCESSING-INFORMATION") {
            StartAction::Marker(FibexEvent::ProcessingInfoStart)
        } else if str_eq(local, "DATATYPE") {
            StartAction::Datatype
        } else if str_eq(local, "CODED-TYPE") {
            StartAction::CodedType
        } else if str_eq(local, "EVENT-GROUP") {
            StartAction::Skip
        } else if str_eq(local, "COMPU-METHODS") {
            StartAction::Skip
        } else if str_eq(local, "MANUFACTURER-EXTENSION") {
            StartAction::Skip
        } else {
            StartAction::Ignore
        }
}

/// The event that an end tag with the local name `local` makes, if any.
pub open spec fn end_event_of(local: Seq<char>) -> Option<FibexEvent> {
    if local == "SERVICE-INTERFACE"@ {
        Some(FibexEvent::ServiceEnd)
    } else if local == "METHOD"@ {
        Some(FibexEvent::MethodEnd)
    } else if local == "EVENT"@ {
        Some(FibexEvent::MethodEnd)
    } else if local == "FIELD"@ {
        Some(FibexEvent::FieldEnd)
    } else if local == "INPUT-PARAMETERS"@ {
        Some(FibexEvent::MethodParamEnd)
    } else if local == "INPUT-PARAMETER"@ {
        Some(FibexEvent::DatatypeMemberEnd)
    } else if local == "RETURN-PARAMETERS"@ {
        Some(FibexEvent::MethodParamEnd)
    } else if local == "RETURN-PARAMETER"@ {
        Some(FibexEvent::DatatypeMemberEnd)
    } else if local == "GETTER"@ {
        Some(FibexEvent::FieldAccessorEnd)
    } else if local == "SETTER"@ {
        Some(FibexEvent::FieldAccessorEnd)
    } else if local == "NOTIFIER"@ {
        Some(FibexEvent::FieldAccessorEnd)
    } else if local == "ARRAY-DECLARATION"@ {
        Some(FibexEvent::ArrayDeclarationEnd)
    } else if local == "ARRAY-DIMENSION"@ {
        Some(FibexEvent::ArrayDimensionEnd)
    } else if local == "UTILIZATION"@ {
        Some(FibexEvent::UtilizationEnd)
    } else if local == "DATATYPE"@ {
        Some(FibexEvent::DatatypeEnd)
    } else if local == "MEMBER"@ {
        Some(FibexEvent::DatatypeMemberEnd)
    } else if local == "ENUM-ELEMENT"@ {
        Some(FibexEvent::EnumEnd)
    } else if local == "PROCESSING-INFORMATION"@ {
        Some(FibexEvent::ProcessingInfoEnd)
    } else if local == "CODING"@ {
        Some(FibexEvent::CodingInfoEnd)
    } else {
        None
    }
}

/// The event that an end tag with the local name `local` makes, if any.
pub fn end_event(local: &str) -> (r: Option<FibexEvent>)
    ensures
        r == end_event_of(local@),
{
        if str_eq(local, "SERVICE-INTERFACE") {
            Some(FibexEvent::ServiceEnd)
        } else if str_eq(local, "METHOD") {
            Some(FibexEvent::MethodEnd)
        } else if str_eq(local, "EVENT") {
            Some(FibexEvent::MethodEnd)
        } else if str_eq(local, "FIELD") {
            Some(FibexEvent::FieldEnd)
        } else if str_eq(local, "INPUT-PARAMETERS") {
            Some(FibexEvent::MethodParamEnd)
        } else if str_eq(local, "INPUT-PARAMETER") {
            Some(FibexEvent::DatatypeMemberEnd)
        } else if str_eq(local, "RETURN-PARAMETERS") {
            Some(FibexEvent::MethodParamEnd)
        } else if str_eq(local, "RETURN-PARAMETER") {
            Some(FibexEvent::DatatypeMemberEnd)
        } else if str_eq(local, "GETTER") {
            Some(FibexEvent::FieldAccessorEnd)
        } else if str_eq(local, "SETTER") {
            Some(FibexEvent::FieldAccessorEnd)
        } else if str_eq(local, "NOTIFIER") {
            Some(FibexEvent::FieldAccessorEnd)
        } else if str_eq(local, "ARRAY-DECLARATION") {
            Some(FibexEvent::ArrayDeclarationEnd)
        } else if str_eq(local, "ARRAY-DIMENSION") {
            Some(FibexEvent::ArrayDimensionEnd)
        } else if str_eq(local, "UTILIZATION") {
            Some(FibexEvent::UtilizationEnd)
        } else if str_eq(local, "DATATYPE") {
            Some(FibexEvent::DatatypeEnd)
        } else if str_eq(local, "MEMBER") {
            Some(FibexEvent::DatatypeMemberEnd)
        } else if str_eq(local, "ENUM-ELEMENT") {
            Some(FibexEvent::EnumEnd)
        } else if str_eq(local, "PROCESSING-INFORMATION") {
            Some(FibexEvent::ProcessingInfoEnd)
        } else if str_eq(local, "CODING") {
            Some(FibexEvent::CodingInfoEnd)
        } else {
            None
        }
}

/// Whether `e` is the event of a text of kind `kind` with the text `text`.
pub open spec fn is_text_event(e: FibexEvent, kind: TextKind, text: Seq<char>) -> bool {
    match kind {
        TextKind::ShortName => e matches FibexEvent::ShortName(s) && s@ == text,
        TextKind::ServiceIdentifier => e matches FibexEvent::ServiceIdentifier(s) && s@ == text,
        TextKind::MajorVersion => e matches FibexEvent::MajorVersion(s) && s@ == text,
        TextKind::MinorVersion => e matches FibexEvent::MinorVersion(s) && s@ == text,
        TextKind::MethodIdentifier => e matches FibexEvent::MethodIdentifier(s) && s@ == text,
        TextKind::NotificationIdentifier => e matches FibexEvent::NotificationIdentifier(s) && s@ == text,
        TextKind::ArrayDimension => e matches FibexEvent::ArrayDimension(s) && s@ == text,
        TextKind::MinimumSize => e matches FibexEvent::MinimumSize(s) && s@ == text,
        TextKind::MaximumSize => e matches FibexEvent::MaximumSize(s) && s@ == text,
        TextKind::HighLowByteOrder => e matches FibexEvent::HighLowByteOrder(s) && s@ == text,
        TextKind::LengthField => e matches FibexEvent::LengthField(s) && s@ == text,
        TextKind::ArrayLengthField => e matches FibexEvent::ArrayLengthField(s) && s@ == text,
        TextKind::TypeLengthField => e matches FibexEvent::TypeLengthField(s) && s@ == text,
        TextKind::MinLength => e matches FibexEvent::MinLength(s) && s@ == text,
        TextKind::MaxLength => e matches FibexEvent::MaxLength(s) && s@ == text,
        TextKind::BitLength => e matches FibexEvent::BitLength(s) && s@ == text,
        TextKind::MinBitLength => e matches FibexEvent::MinBitLength(s) && s@ == text,
        TextKind::MaxBitLength => e matches FibexEvent::MaxBitLength(s) && s@ == text,
        TextKind::DatatypeClass => e matches FibexEvent::DatatypeClass(s) && s@ == text,
        TextKind::Position => e matches FibexEvent::Position(s) && s@ == text,
        TextKind::EnumName => e matches FibexEvent::EnumName(s) && s@ == text,
        TextKind::EnumValue => e matches FibexEvent::EnumValue(s) && s@ == text,
    }
}

/// The event of a text of kind `kind`.
pub fn text_event(kind: TextKind, text: String) -> (r: FibexEvent)
    ensures
        is_text_event(r, kind, text@),
{
    match kind {
        TextKind::ShortName => FibexEvent::ShortName(text),
        TextKind::ServiceIdentifier => FibexEvent::ServiceIdentifier(text),
        TextKind::MajorVersion => FibexEvent::MajorVersion(text),
        TextKind::MinorVersion => FibexEvent::MinorVersion(text),
        TextKind::MethodIdentifier => FibexEvent::MethodIdentifier(text),
        TextKind::NotificationIdentifier => FibexEvent::NotificationIdentifier(text),
        TextKind::ArrayDimension => FibexEvent::ArrayDimension(text),
        TextKind::MinimumSize => FibexEvent::MinimumSize(text),
        TextKind::MaximumSize => FibexEvent::MaximumSize(text),
        TextKind::HighLowByteOrder => FibexEvent::HighLowByteOrder(text),
        TextKind::LengthField => FibexEvent::LengthField(text),
        TextKind::ArrayLengthField => FibexEvent::ArrayLengthField(text),
        TextKind::TypeLengthField => FibexEvent::TypeLengthField(text),
        TextKind::MinLength => FibexEvent::MinLength(text),
        TextKind::MaxLength => FibexEvent::MaxLength(text),
        TextKind::BitLength => FibexEvent::BitLength(text),
        TextKind::MinBitLength => FibexEvent::MinBitLength(text),
        TextKind::MaxBitLength => FibexEvent::MaxBitLength(text),
        TextKind::DatatypeClass => FibexEvent::DatatypeClass(text),
        TextKind::Position => FibexEvent::Position(text),
        TextKind::EnumName => FibexEvent::EnumName(text),
        TextKind::EnumValue => FibexEvent::EnumValue(text),
    }
}

/// Whether `e` is the event of an identifier of kind `kind`.
pub open spec fn is_id_event(e: FibexEvent, kind: IdKind, id: Seq<char>) -> bool {
    match kind {
        IdKind::ServiceStart => e matches FibexEvent::ServiceStart(s) && s@ == id,
        IdKind::MethodStart => e matches FibexEvent::MethodStart(s) && s@ == id,
        IdKind::FieldStart => e matches FibexEvent::FieldStart(s) && s@ == id,
        IdKind::DatatypeMemberStart => e matches FibexEvent::DatatypeMemberStart(s) && s@ == id,
        IdKind::CodingInfoStart => e matches FibexEvent::CodingInfoStart(s) && s@ == id,
    }
}

/// The event of an identifier of kind `kind`.
pub fn id_event(kind: IdKind, id: String) -> (r: FibexEvent)
    ensures
        is_id_event(r, kind, id@),
{
    match kind {
        IdKind::ServiceStart => FibexEvent::ServiceStart(id),
        IdKind::MethodStart => FibexEvent::MethodStart(id),
        IdKind::FieldStart => FibexEvent::FieldStart(id),
        IdKind::DatatypeMemberStart => FibexEvent::DatatypeMemberStart(id),
        IdKind::CodingInfoStart => FibexEvent::CodingInfoStart(id),
    }
}

/// Holds of an attribute with the key `name`.
pub open spec fn key_is(name: Seq<char>) -> spec_fn(XmlAttribute) -> bool {
    |a: XmlAttribute| a.key@ == name
}

/// The value of the attribute `name` of a tag: the first attribute with the
/// key `name`, or empty where there is none.
pub open spec fn attribute_value(tag: XmlTag, name: Seq<char>) -> Result<Seq<char>, ()> {
    let k = first_where(tag.attributes@, key_is(name), 0);
    if k < tag.attributes@.len() {
        match tag.attributes@[k].value {
            Ok(v) => Ok(v@),
            Err(_) => Err(()),
        }
    } else if tag.malformed is Some {
        Err(())
    } else {
        Ok(Seq::empty())
    }
}

/// The value of the attribute `name` of a tag, empty where it has none; the
/// error where the value cannot be decoded or a malformed attribute comes
/// first.
pub fn get_attribute(tag: &mut XmlTag, name: &str) -> (r: Result<String, FibexError>)
    ensures
        match attribute_value(*old(tag), name@) {
            Ok(v) => r matches Ok(s) && s@ == v,
            Err(_) => r matches Err(FibexError::Xml(_)),
        },
        r is Ok ==> *final(tag) == *old(tag),
{
    proof {
        lemma_first_where(tag.attributes@, key_is(name@), 0);
    }
    let mut i: usize = 0;
    while i < tag.attributes.len()
        invariant
            i <= tag.attributes@.len(),
            *tag == *old(tag),
            first_where(tag.attributes@, key_is(name@), 0) == first_where(
                tag.attributes@,
                key_is(name@),
                i as int,
            ),
        decreases tag.attributes@.len() - i,
    {
        let hit = str_eq(tag.attributes[i].key.as_str(), name);
        proof {
            assert(key_is(name@)(tag.attributes@[i as int]) == hit);
        }
        if hit {
            if let Ok(v) = &tag.attributes[i].value {
                return Ok(copy_string(v));
            }
            let mut value: Result<String, XmlError> = Ok(String::new());
            core::mem::swap(&mut value, &mut tag.attributes[i].value);
            return match value {
                Ok(v) => Ok(v),
                Err(e) => Err(FibexError::Xml(e)),
            };
        }
        i = i + 1;
    }
    match tag.malformed.take() {
        Some(e) => Err(FibexError::Xml(e)),
        None => Ok(String::new()),
    }
}

/// The event that a data type tag gives: its identifier and kind, from its
/// attributes `ID` and `xsi:type`.
pub open spec fn datatype_gives(tag: XmlTag, r: Result<FibexEvent, FibexError>) -> bool {
    match (attribute_value(tag, "ID"@), attribute_value(tag, "xsi:type"@)) {
        (Ok(id), Ok(kind)) => r matches Ok(FibexEvent::DatatypeStart(a, b)) && a@ == id && b@ == kind,
        _ => r matches Err(FibexError::Xml(_)),
    }
}

/// The event of a data type tag.
pub fn datatype_event(tag: &mut XmlTag) -> (r: Result<FibexEvent, FibexError>)
    ensures
        datatype_gives(*old(tag), r),
{
    let id = match get_attribute(tag, "ID") {
        Ok(v) => v,
        Err(e) => return Err(e),
    };
    let kind = match get_attribute(tag, "xsi:type") {
        Ok(v) => v,
        Err(e) => return Err(e),
    };
    Ok(FibexEvent::DatatypeStart(id, kind))
}

/// The event that a coded type tag gives: its base type, category,
/// encoding, byte order mark and termination, from its attributes.
pub open spec fn coded_type_gives(tag: XmlTag, r: Result<FibexEvent, FibexError>) -> bool {
    match (
        attribute_value(tag, "ho:BASE-DATA-TYPE"@),
        attribute_value(tag, "CATEGORY"@),
        attribute_value(tag, "ENCODING"@),
        attribute_value(tag, "BYTE-ORDER-MARK"@),
        attribute_value(tag, "TERMINATION"@),
    ) {
        (Ok(a), Ok(b), Ok(c), Ok(d), Ok(e)) => r matches Ok(FibexEvent::CodedType(x1, x2, x3, x4, x5))
            && x1@ == a && x2@ == b && x3@ == c && x4@ == d && x5@ == e,
        _ => r matches Err(FibexError::Xml(_)),
    }
}

/// The event of a coded type tag.
pub fn coded_type_event(tag: &mut XmlTag) -> (r: Result<FibexEvent, FibexError>)
    ensures
        coded_type_gives(*old(tag), r),
{
    let base = match get_attribute(tag, "ho:BASE-DATA-TYPE") {
        Ok(v) => v,
        Err(e) => return Err(e),
    };
    let category = match get_attribute(tag, "CATEGORY") {
        Ok(v) => v,
        Err(e) => return Err(e),
    };
    let encoding = match get_attribute(tag, "ENCODING") {
        Ok(v) => v,
        Err(e) => return Err(e),
    };
    let bom = match get_attribute(tag, "BYTE-ORDER-MARK") {
        Ok(v) => v,
        Err(e) => return Err(e),
    };
    let termination = match get_attribute(tag, "TERMINATION") {
        Ok(v) => v,
        Err(e) => return Err(e),
    };
    Ok(FibexEvent::CodedType(base, category, encoding, bom, termination))
}

/// The event that an empty element tag gives, if any: a reference to a
/// data type or a coding, from the attribute `ID-REF`.
pub open spec fn empty_gives(tag: XmlTag, r: Option<Result<FibexEvent, FibexError>>) -> bool {
    if tag.local@ == "DATATYPE-REF"@ {
        match attribute_value(tag, "ID-REF"@) {
            Ok(v) => r matches Some(Ok(FibexEvent::DatatypeRef(s))) && s@ == v,
            Err(_) => r matches Some(Err(FibexError::Xml(_))),
        }
    } else if tag.local@ == "CODING-REF"@ {
        match attribute_value(tag, "ID-REF"@) {
            Ok(v) => r matches Some(Ok(FibexEvent::CodingRef(s))) && s@ == v,
            Err(_) => r matches Some(Err(FibexError::Xml(_))),
        }
    } else {
        r is None
    }
}

/// The event of an empty element tag, if it makes one: a reference to a
/// data type or a coding, from the attribute `ID-REF`.
pub fn empty_event(tag: &mut XmlTag) -> (r: Option<Result<FibexEvent, FibexError>>)
    ensures
        empty_gives(*old(tag), r),
{
    if str_eq(tag.local.as_str(), "DATATYPE-REF") {
        Some(
            match get_attribute(tag, "ID-REF") {
                Ok(v) => Ok(FibexEvent::DatatypeRef(v)),
                Err(e) => Err(e),
            },
        )
    } else if str_eq(tag.local.as_str(), "CODING-REF") {
        Some(
            match get_attribute(tag, "ID-REF") {
                Ok(v) => Ok(FibexEvent::CodingRef(v)),
                Err(e) => Err(e),
            },
        )
    } else {
        None
    }
}

/// Whether an end tag ends an element that is skipped.
pub open spec fn ends_unrelated(local: Seq<char>) -> bool {
    local == "EVENT-GROUP"@ || local == "COMPU-METHODS"@ || local == "MANUFACTURER-EXTENSION"@
}

/// The position of the first token from the `i`-th on that ends the
/// skipping of an unrelated element, or the number of tokens where none
/// does.
pub open spec fn skip_end(ts: Seq<XmlToken>, i: int) -> int
    decreases ts.len() - i,
{
    if i < 0 || i >= ts.len() {
        ts.len() as int
    } else if ends_skip(ts[i]) {
        i
    } else {
        skip_end(ts, i + 1)
    }
}

/// Whether a token makes no event and is passed over: a start tag that is
/// ignored, an empty element tag or end tag that makes no event, or
/// anything that is not a tag.
pub open spec fn passed_over(t: XmlToken) -> bool {
    match t {
        XmlToken::Start(tag) => start_action_of(tag.local@) is Ignore,
        XmlToken::Empty(tag) => empty_gives(tag, None),
        XmlToken::End(local) => end_event_of(local@) is None,
        XmlToken::Other => true,
        XmlToken::Eof => false,
    }
}

/// Whether a start tag begins an unrelated element, which is skipped.
pub open spec fn starts_skip(t: XmlToken) -> bool {
    (t matches XmlToken::Start(tag) && start_action_of(tag.local@) is Skip)
}

/// Whether the tokens are passed over as a whole: tokens that make no
/// event, and unrelated elements skipped up to (and with) the end tag that
/// ends them.
pub open spec fn passed(ts: Seq<XmlToken>) -> bool
    decreases ts.len(),
{
    if ts.len() == 0 {
        true
    } else if starts_skip(ts[0]) {
        let j = skip_end(ts, 1);
        1 <= j < ts.len() && !(ts[j] is Eof) && passed(ts.skip(j + 1))
    } else {
        passed_over(ts[0]) && passed(ts.drop_first())
    }
}

/// What the token `t` gives as an event, with the texts read for it: a
/// text element its text (or the error of reading it), a start tag its
/// event from its attributes, an empty element tag or end tag its event,
/// the end of the document the end.
pub open spec fn last_gives(t: XmlToken, texts: Seq<Result<String, XmlError>>, r: Result<FibexEvent, FibexError>) -> bool {
    match t {
        XmlToken::Start(tag) => match start_action_of(tag.local@) {
            StartAction::Text(kind) => texts.len() == 1 && match texts[0] {
                Ok(text) => r matches Ok(e) && is_text_event(e, kind, text@),
                Err(e) => r == Err::<FibexEvent, FibexError>(FibexError::Xml(e)),
            },
            StartAction::Id(kind) => texts.len() == 0 && match attribute_value(tag, "ID"@) {
                Ok(id) => r matches Ok(e) && is_id_event(e, kind, id),
                Err(_) => r matches Err(FibexError::Xml(_)),
            },
            StartAction::Marker(e) => texts.len() == 0 && r == Ok::<FibexEvent, FibexError>(e),
            StartAction::Datatype => texts.len() == 0 && datatype_gives(tag, r),
            StartAction::CodedType => texts.len() == 0 && coded_type_gives(tag, r),
            _ => false,
        },
        XmlToken::Empty(tag) => texts.len() == 0 && empty_gives(tag, Some(r)),
        XmlToken::End(local) => texts.len() == 0 && (r matches Ok(e) && end_event_of(local@) == Some(e)),
        XmlToken::Eof => texts.len() == 0 && r == Ok::<FibexEvent, FibexError>(FibexEvent::Eof),
        XmlToken::Other => false,
    }
}

/// Whether the tokens are an unrelated element that the end of the document
/// ends.
pub open spec fn skipped_to_eof(ts: Seq<XmlToken>) -> bool {
    ts.len() > 0 && starts_skip(ts[0]) && skip_end(ts, 1) == ts.len() - 1 && ts.len() >= 2
        && ts[ts.len() - 1] is Eof
}

/// Whether the tokens `ts`, with the texts read for them, give `r`: tokens
/// that are passed over, then either a token that gives `r`, or an
/// unrelated element that the end of the document ends (which gives the
/// end of the document).
pub open spec fn tokens_give(ts: Seq<XmlToken>, texts: Seq<Result<String, XmlError>>, r: Result<FibexEvent, FibexError>) -> bool {
    exists|k: int|
        0 <= k < ts.len() && #[trigger] passed(ts.take(k)) && ((k == ts.len() - 1 && last_gives(ts[k], texts, r))
            || (skipped_to_eof(ts.skip(k)) && texts.len() == 0 && r == Ok::<FibexEvent, FibexError>(
            FibexEvent::Eof,
        )))
}

/// Where the first token that ends a skip lies within `a`, it lies there
/// in `a` followed by `b` too.
proof fn lemma_skip_end_prefix(a: Seq<XmlToken>, b: Seq<XmlToken>, i: int)
    requires
        0 <= i,
        skip_end(a, i) < a.len(),
    ensures
        skip_end(a + b, i) == skip_end(a, i),
    decreases a.len() - i,
{
    if i < a.len() && !ends_skip(a[i]) {
        lemma_skip_end_prefix(a, b, i + 1);
    }
}

/// Tokens passed over, then tokens passed over, are passed over.
proof fn lemma_passed_concat(a: Seq<XmlToken>, b: Seq<XmlToken>)
    requires
        passed(a),
        passed(b),
    ensures
        passed(a + b),
    decreases a.len(),
{
    if a.len() == 0 {
        assert(a + b =~= b);
    } else if starts_skip(a[0]) {
        let j = skip_end(a, 1);
        lemma_skip_end_prefix(a, b, 1);
        assert((a + b)[0] == a[0]);
        assert((a + b)[j] == a[j]);
        assert((a + b).skip(j + 1) =~= a.skip(j + 1) + b);
        lemma_passed_concat(a.skip(j + 1), b);
    } else {
        assert((a + b)[0] == a[0]);
        assert((a + b).drop_first() =~= a.drop_first() + b);
        lemma_passed_concat(a.drop_first(), b);
    }
}

/// Where no token from the `i`-th on but the last ends a skip and the last
/// does, the skip ends at the last.
proof fn lemma_skip_end_last(ts: Seq<XmlToken>, i: int)
    requires
        0 <= i < ts.len(),
        forall|k: int| i <= k < ts.len() - 1 ==> !ends_skip(#[trigger] ts[k]),
        ends_skip(ts[ts.len() - 1]),
    ensures
        skip_end(ts, i) == ts.len() - 1,
    decreases ts.len() - i,
{
    if i < ts.len() - 1 {
        lemma_skip_end_last(ts, i + 1);
    }
}

/// Tokens passed over, then one more token passed over, are passed over.
proof fn lemma_pass_one(p: Seq<XmlToken>, t: XmlToken)
    requires
        passed(p),
        passed_over(t),
    ensures
        passed(p.push(t)),
{
    let one = seq![t];
    assert(one[0] == t);
    assert(!starts_skip(t));
    assert(one.drop_first() =~= Seq::<XmlToken>::empty());
    assert(passed(one.drop_first()));
    assert(passed(one));
    lemma_passed_concat(p, one);
    assert(p + one =~= p.push(t));
}

/// Tokens passed over, then an unrelated element skipped up to an end tag
/// that ends it, are passed over.
proof fn lemma_pass_skip(p: Seq<XmlToken>, s: Seq<XmlToken>)
    requires
        passed(p),
        s.len() >= 2,
        starts_skip(s[0]),
        skip_end(s, 1) == s.len() - 1,
        !(s[s.len() - 1] is Eof),
    ensures
        passed(p + s),
{
    assert(s.skip(s.len() as int) =~= Seq::<XmlToken>::empty());
    assert(passed(s.skip(skip_end(s, 1) + 1)));
    assert(passed(s));
    lemma_passed_concat(p, s);
}

/// Tokens passed over, then a token that gives `r`, give `r`.
proof fn lemma_give_last(p: Seq<XmlToken>, t: XmlToken, texts: Seq<Result<String, XmlError>>, r: Result<FibexEvent, FibexError>)
    requires
        passed(p),
    ensures
        last_gives(t, texts, r) ==> tokens_give(p.push(t), texts, r),
{
    let ts = p.push(t);
    let k = p.len() as int;
    assert(ts.take(k) =~= p);
    assert(ts[k] == t);
    assert(passed(ts.take(k)));
}

/// Tokens passed over, then an unrelated element that the end of the
/// document ends, give the end of the document.
proof fn lemma_give_skip_eof(p: Seq<XmlToken>, s: Seq<XmlToken>)
    requires
        passed(p),
        s.len() >= 2,
        starts_skip(s[0]),
        skip_end(s, 1) == s.len() - 1,
        s[s.len() - 1] is Eof,
    ensures
        tokens_give(p + s, Seq::<Result<String, XmlError>>::empty(), Ok(FibexEvent::Eof)),
{
    let ts = p + s;
    let k = p.len() as int;
    assert(ts.take(k) =~= p);
    assert(ts.skip(k) =~= s);
    assert(passed(ts.take(k)));
}

/// Reads the events of a FIBEX document from its bytes.
pub struct FibexXmlReader<'a> {
    reader: XmlSource<'a>,
    buffer: Vec<u8>,
    buffer2: Vec<u8>,
    budget: usize,
    tokens: Ghost<Seq<XmlToken>>,
    tok_calls: Ghost<Seq<int>>,
    text_calls: Ghost<Seq<int>>,
    texts: Ghost<Seq<Result<String, XmlError>>>,
    events: Ghost<Seq<FibexEvent>>,
    marks: Ghost<Seq<(int, int, int, int)>>,
}

/// The number of tokens the reader of `input` may read before it gives the
/// end of the document: one more than its bytes (as many, for `usize::MAX`
/// bytes).
pub open spec fn initial_budget(input: Seq<u8>) -> nat {
    if input.len() < usize::MAX {
        input.len() + 1
    } else {
        input.len()
    }
}

/// The number of calls that read the next token.
pub open spec fn count_next(calls: Seq<Option<Seq<u8>>>) -> nat
    decreases calls.len(),
{
    if calls.len() == 0 {
        0
    } else {
        count_next(calls.drop_last()) + if calls.last() is None {
            1nat
        } else {
            0nat
        }
    }
}

/// Whether the token `t` is the reply of the call at `k`, which read the
/// next token; or, where `k` is -1, the end of the document given once the
/// budget is spent.
pub open spec fn token_logged(input: Seq<u8>, calls: Seq<Option<Seq<u8>>>, t: XmlToken, k: int, budget: nat) -> bool {
    if k < 0 {
        k == -1 && t is Eof && budget == 0
    } else {
        &&& k < calls.len()
        &&& calls[k] is None
        &&& xml_next_reply(input, calls.take(k)) == Some(t@)
    }
}

/// Whether the text `x` is the reply of the call at `k`, which read the
/// text up to the end tag named as the start tag that the call before it
/// gave (one of `ts`, by the calls `tc` that gave them).
pub open spec fn text_logged(
    input: Seq<u8>,
    calls: Seq<Option<Seq<u8>>>,
    ts: Seq<XmlToken>,
    tc: Seq<int>,
    x: Result<String, XmlError>,
    k: int,
) -> bool {
    &&& 1 <= k < calls.len()
    &&& calls[k] is Some
    &&& exists|i: int|
        0 <= i < ts.len() && #[trigger] tc[i] == k - 1 && (ts[i] matches XmlToken::Start(tag)
            && tag.name@ == calls[k]->0)
    &&& match x {
        Ok(s) => xml_text_reply(input, calls.take(k), calls[k]->0) == Some(s@),
        Err(_) => xml_text_reply(input, calls.take(k), calls[k]->0) is None,
    }
}

/// Whether the tokens `ts` and texts `xs` are the replies of the calls
/// `calls` made on a reader of `input`, the calls that gave them being
/// `tc` and `xc`, in the order of the calls, and whether the budget left is
/// what the calls that read a token leave.
pub open spec fn log_holds(
    input: Seq<u8>,
    calls: Seq<Option<Seq<u8>>>,
    ts: Seq<XmlToken>,
    xs: Seq<Result<String, XmlError>>,
    tc: Seq<int>,
    xc: Seq<int>,
    budget: nat,
) -> bool {
    &&& tc.len() == ts.len()
    &&& xc.len() == xs.len()
    &&& forall|i: int| 0 <= i < ts.len() ==> #[trigger] token_logged(input, calls, ts[i], tc[i], budget)
    &&& forall|j: int| 0 <= j < xs.len() ==> #[trigger] text_logged(input, calls, ts, tc, xs[j], xc[j])
    &&& forall|i: int, j: int|
        #![trigger tc[i], tc[j]]
        0 <= i < j < tc.len() && tc[j] >= 0 ==> tc[i] >= 0 && tc[i] < tc[j]
    &&& forall|i: int, j: int| #![trigger xc[i], xc[j]] 0 <= i < j < xc.len() ==> xc[i] < xc[j]
    &&& forall|i: int, j: int|
        #![trigger tc[i], xc[j]]
        0 <= i < tc.len() && 0 <= j < xc.len() ==> tc[i] != xc[j]
    &&& budget + count_next(calls) == initial_budget(input)
}

/// Whether the call at `k` is among `tc` or `xc`.
pub open spec fn logged_by(tc: Seq<int>, xc: Seq<int>, k: int) -> bool {
    ||| exists|i: int| 0 <= i < tc.len() && #[trigger] tc[i] == k
    ||| exists|j: int| 0 <= j < xc.len() && #[trigger] xc[j] == k
}

/// Reading the text of the element whose start tag the last call gave keeps
/// the tokens and texts the replies of the calls.
proof fn lemma_log_text(
    input: Seq<u8>,
    c: Seq<Option<Seq<u8>>>,
    ts: Seq<XmlToken>,
    xs: Seq<Result<String, XmlError>>,
    tc: Seq<int>,
    xc: Seq<int>,
    b: nat,
    name: Seq<u8>,
    x: Result<String, XmlError>,
)
    requires
        log_holds(input, c, ts, xs, tc, xc, b),
        ts.len() > 0,
        tc.last() == c.len() - 1,
        ts.last() matches XmlToken::Start(tag) && tag.name@ == name,
        match x {
            Ok(s) => xml_text_reply(input, c, name) == Some(s@),
            Err(_) => xml_text_reply(input, c, name) is None,
        },
    ensures
        log_holds(input, c.push(Some(name)), ts, xs.push(x), tc, xc.push(c.len() as int), b),
{
    let c2 = c.push(Some(name));
    let xs2 = xs.push(x);
    let xc2 = xc.push(c.len() as int);
    assert(c2.take(c.len() as int) =~= c);
    assert(ts.take(ts.len() as int) =~= ts);
    assert(tc.take(ts.len() as int) =~= tc);
    assert(xs2.take(xs.len() as int) =~= xs);
    assert(xc2.take(xs.len() as int) =~= xc);
    lemma_logged_keep(input, c, ts, xs, tc, xc, b, c2, ts, xs2, tc, xc2, b);
    let n = ts.len() - 1;
    assert(tc[n] == c.len() - 1);
    assert(c.len() >= 1) by {
        lemma_logged_one(input, c, ts, xs, tc, xc, b, n);
    }
    assert(text_logged(input, c2, ts, tc, x, c.len() as int));
    assert(text_logged(input, c2, ts, tc, xs2[xs.len() as int], xc2[xs.len() as int]));
    assert forall|i: int, j: int| #![trigger xc2[i], xc2[j]] 0 <= i < j < xc2.len() implies xc2[i] < xc2[j] by {
        if j < xs.len() {
            assert(xc2[i] == xc[i] && xc2[j] == xc[j]);
        } else {
            assert(xc2[i] == xc[i]);
        }
    }
    assert forall|i: int, j: int| #![trigger tc[i], xc2[j]] 0 <= i < tc.len() && 0 <= j < xc2.len() implies tc[i] != xc2[j] by {
        lemma_logged_one(input, c, ts, xs, tc, xc, b, i);
        if j < xs.len() {
            assert(xc2[j] == xc[j]);
        }
    }
    assert(c2.drop_last() =~= c);
    assert(count_next(c2) == count_next(c));
}

/// Whether the spans of `m` from the `from`-th on follow each other, the
/// first starting at token `t` and text `x`.
pub open spec fn marks_chain(m: Seq<(int, int, int, int)>, from: int, t: int, x: int) -> bool {
    &&& 0 <= from <= m.len()
    &&& m.len() > from ==> m[from].0 == t && m[from].2 == x
    &&& forall|i: int| from < i < m.len() ==> (#[trigger] m[i]).0 == m[i - 1].1 && m[i].2 == m[i - 1].3
}

/// Where the spans of `m` from the `from`-th on end: the token and text
/// after the last of them, or `t` and `x` where there is none.
pub open spec fn chain_end(m: Seq<(int, int, int, int)>, from: int, t: int, x: int) -> (int, int) {
    if m.len() > from {
        (m.last().1, m.last().3)
    } else {
        (t, x)
    }
}

/// Whether the tokens are passed over, then, where an unrelated element
/// starts after them, tokens that do not end it.
pub open spec fn in_progress(ts: Seq<XmlToken>) -> bool {
    exists|k: int|
        0 <= k <= ts.len() && #[trigger] passed(ts.take(k)) && (k == ts.len() || (starts_skip(ts[k])
            && forall|j: int| k < j < ts.len() ==> !ends_skip(#[trigger] ts[j])))
}

/// A prefix of a prefix is a prefix.
proof fn lemma_take_take<T>(a: Seq<T>, b: Seq<T>, c: Seq<T>)
    requires
        c.len() <= b.len() <= a.len(),
        a.take(b.len() as int) == b,
        b.take(c.len() as int) == c,
    ensures
        a.take(c.len() as int) == c,
{
    assert forall|q: int| 0 <= q < c.len() implies a.take(c.len() as int)[q] == c[q] by {
        assert(a.take(b.len() as int)[q] == a[q]);
        assert(b.take(c.len() as int)[q] == b[q]);
    }
    assert(a.take(c.len() as int) =~= c);
}

/// Calls among `tc` or `xc` are still among them where these grow at their
/// end.
proof fn lemma_logged_grow(tc: Seq<int>, xc: Seq<int>, tc2: Seq<int>, xc2: Seq<int>, from: int, to: int)
    requires
        tc.len() <= tc2.len(),
        tc2.take(tc.len() as int) == tc,
        xc.len() <= xc2.len(),
        xc2.take(xc.len() as int) == xc,
        forall|k: int| from <= k < to ==> #[trigger] logged_by(tc, xc, k),
    ensures
        forall|k: int| from <= k < to ==> #[trigger] logged_by(tc2, xc2, k),
{
    assert forall|k: int| from <= k < to implies #[trigger] logged_by(tc2, xc2, k) by {
        assert(logged_by(tc, xc, k));
        if exists|i: int| 0 <= i < tc.len() && #[trigger] tc[i] == k {
            let i = choose|i: int| 0 <= i < tc.len() && #[trigger] tc[i] == k;
            assert(tc2[i] == tc2.take(tc.len() as int)[i]);
        } else {
            let j = choose|j: int| 0 <= j < xc.len() && #[trigger] xc[j] == k;
            assert(xc2[j] == xc2.take(xc.len() as int)[j]);
        }
    }
}

/// Where the calls, tokens and texts grow at their end and the budget does
/// not grow, the tokens and texts kept before are still the replies of the
/// same calls; and those calls came before the ones that are added.
proof fn lemma_logged_keep(
    input: Seq<u8>,
    c: Seq<Option<Seq<u8>>>,
    ts: Seq<XmlToken>,
    xs: Seq<Result<String, XmlError>>,
    tc: Seq<int>,
    xc: Seq<int>,
    b: nat,
    c2: Seq<Option<Seq<u8>>>,
    ts2: Seq<XmlToken>,
    xs2: Seq<Result<String, XmlError>>,
    tc2: Seq<int>,
    xc2: Seq<int>,
    b2: nat,
)
    requires
        log_holds(input, c, ts, xs, tc, xc, b),
        c.len() <= c2.len(),
        c2.take(c.len() as int) == c,
        ts.len() <= ts2.len(),
        ts2.take(ts.len() as int) == ts,
        tc2.len() == ts2.len(),
        tc2.take(ts.len() as int) == tc,
        xs.len() <= xs2.len(),
        xs2.take(xs.len() as int) == xs,
        xc2.len() == xs2.len(),
        xc2.take(xs.len() as int) == xc,
        b2 <= b,
        b == 0 ==> b2 == 0,
    ensures
        forall|i: int| 0 <= i < ts.len() ==> #[trigger] token_logged(input, c2, ts2[i], tc2[i], b2),
        forall|j: int| 0 <= j < xs.len() ==> #[trigger] text_logged(input, c2, ts2, tc2, xs2[j], xc2[j]),
        forall|i: int| 0 <= i < ts.len() ==> #[trigger] tc2[i] < c.len(),
        forall|j: int| 0 <= j < xs.len() ==> #[trigger] xc2[j] < c.len(),
{
    assert forall|i: int| 0 <= i < ts.len() implies #[trigger] token_logged(input, c2, ts2[i], tc2[i], b2) && tc2[i] < c.len() by {
        lemma_logged_one(input, c, ts, xs, tc, xc, b, i);
        assert(ts2[i] == ts2.take(ts.len() as int)[i]);
        assert(tc2[i] == tc2.take(ts.len() as int)[i]);
        assert(token_logged(input, c, ts[i], tc[i], b));
        let k = tc[i];
        if k >= 0 {
            assert(c2.take(k) =~= c.take(k)) by {
                assert forall|q: int| 0 <= q < k implies c2.take(k)[q] == c.take(k)[q] by {
                    assert(c2.take(c.len() as int)[q] == c2[q]);
                }
            }
            assert(c2[k] == c2.take(c.len() as int)[k]);
        }
    }
    assert forall|j: int| 0 <= j < xs.len() implies #[trigger] text_logged(input, c2, ts2, tc2, xs2[j], xc2[j]) && xc2[j] < c.len() by {
        assert(xs2[j] == xs2.take(xs.len() as int)[j]);
        assert(xc2[j] == xc2.take(xs.len() as int)[j]);
        assert(text_logged(input, c, ts, tc, xs[j], xc[j]));
        let k = xc[j];
        assert(c2.take(k) =~= c.take(k)) by {
            assert forall|q: int| 0 <= q < k implies c2.take(k)[q] == c.take(k)[q] by {
                assert(c2.take(c.len() as int)[q] == c2[q]);
            }
        }
        assert(c2[k] == c2.take(c.len() as int)[k]);
        let i = choose|i: int|
            0 <= i < ts.len() && #[trigger] tc[i] == k - 1 && (ts[i] matches XmlToken::Start(tag)
                && tag.name@ == c[k]->0);
        assert(ts2[i] == ts2.take(ts.len() as int)[i]);
        assert(tc2[i] == tc2.take(ts.len() as int)[i]);
        assert(tc2[i] == k - 1);
    }
    assert forall|i: int| 0 <= i < ts.len() implies #[trigger] tc2[i] < c.len() by {
        assert(tc2[i] == tc2.take(ts.len() as int)[i]);
        lemma_logged_one(input, c, ts, xs, tc, xc, b, i);
    }
    assert forall|j: int| 0 <= j < xs.len() implies #[trigger] xc2[j] < c.len() by {
        assert(xc2[j] == xc2.take(xs.len() as int)[j]);
        assert(text_logged(input, c, ts, tc, xs[j], xc[j]));
    }
}

/// A token kept is the reply of a call made before, or the end of the
/// document once the budget is spent.
proof fn lemma_logged_one(
    input: Seq<u8>,
    c: Seq<Option<Seq<u8>>>,
    ts: Seq<XmlToken>,
    xs: Seq<Result<String, XmlError>>,
    tc: Seq<int>,
    xc: Seq<int>,
    b: nat,
    i: int,
)
    requires
        log_holds(input, c, ts, xs, tc, xc, b),
        0 <= i < ts.len(),
    ensures
        token_logged(input, c, ts[i], tc[i], b),
        tc[i] < c.len(),
{
    assert(token_logged(input, c, ts[i], tc[i], b));
}

/// Whether `e` is the event that the tokens from `span.0` up to `span.1` and
/// the texts from `span.2` up to `span.3` give (`tokens_give`).
pub open spec fn read_from(
    ts: Seq<XmlToken>,
    texts: Seq<Result<String, XmlError>>,
    span: (int, int, int, int),
    e: FibexEvent,
) -> bool {
    &&& 0 <= span.0 <= span.1 <= ts.len()
    &&& 0 <= span.2 <= span.3 <= texts.len()
    &&& tokens_give(
        ts.subrange(span.0, span.1),
        texts.subrange(span.2, span.3),
        Ok::<FibexEvent, FibexError>(e),
    )
}

/// Where the tokens and texts grow at their end, the events that the ones
/// read before give are still given by them, each by the same tokens and
/// texts.
proof fn lemma_events_read_grow(
    t0: Seq<XmlToken>,
    t1: Seq<XmlToken>,
    x0: Seq<Result<String, XmlError>>,
    x1: Seq<Result<String, XmlError>>,
    marks: Seq<(int, int, int, int)>,
    events: Seq<FibexEvent>,
)
    requires
        t0.len() <= t1.len(),
        t1.subrange(0, t0.len() as int) == t0,
        x0.len() <= x1.len(),
        x1.subrange(0, x0.len() as int) == x0,
        forall|i: int| 0 <= i < marks.len() ==> #[trigger] read_from(t0, x0, marks[i], events[i]),
    ensures
        forall|i: int| 0 <= i < marks.len() ==> #[trigger] read_from(t1, x1, marks[i], events[i]),
{
    assert forall|i: int| 0 <= i < marks.len() implies #[trigger] read_from(t1, x1, marks[i], events[i]) by {
        let m = marks[i];
        assert(read_from(t0, x0, m, events[i]));
        assert(t1.subrange(m.0, m.1) =~= t0.subrange(m.0, m.1)) by {
            assert forall|k: int| 0 <= k < m.1 - m.0 implies t1.subrange(m.0, m.1)[k] == t0.subrange(m.0, m.1)[k] by {
                assert(t1.subrange(0, t0.len() as int)[m.0 + k] == t1[m.0 + k]);
            }
        }
        assert(x1.subrange(m.2, m.3) =~= x0.subrange(m.2, m.3)) by {
            assert forall|k: int| 0 <= k < m.3 - m.2 implies x1.subrange(m.2, m.3)[k] == x0.subrange(m.2, m.3)[k] by {
                assert(x1.subrange(0, x0.len() as int)[m.2 + k] == x1[m.2 + k]);
            }
        }
    }
}

/// Whether a token ends the skipping of an unrelated element: the end tag
/// of one of the elements that are skipped, or the end of the document.
pub open spec fn ends_skip(t: XmlToken) -> bool {
    match t {
        XmlToken::End(local) => ends_unrelated(local@),
        XmlToken::Eof => true,
        _ => false,
    }
}

impl<'a> FibexXmlReader<'a> {
    /// A reader of the document `input`.
    /// The reader reads `input` from its start: it has handed out no token
    /// yet, and may read one more token than `input` has bytes (as many, for
    /// an input of `usize::MAX` bytes) before it gives the end of the
    /// document.
    pub fn from_reader(input: &'a [u8]) -> (r: Result<Self, FibexError>)
        ensures
            r matches Ok(x) && x.input() == input@ && x.tokens() == Seq::<XmlToken>::empty()
                && x.texts() == Seq::<Result<String, XmlError>>::empty() && x.events() == Seq::<FibexEvent>::empty()
                && x.marks() == Seq::<(int, int, int, int)>::empty() && x.events_read()
                && x.calls() == Seq::<Option<Seq<u8>>>::empty() && x.log_ok() && x.fresh()
                && x.budget() == (if input@.len() < usize::MAX {
                input@.len() + 1
            } else {
                input@.len()
            }),
    {
        let budget = if input.len() < usize::MAX { input.len() + 1 } else { input.len() };
        Ok(
            FibexXmlReader {
                reader: XmlSource::new(input),
                buffer: Vec::new(),
                buffer2: Vec::new(),
                budget,
                tokens: Ghost(Seq::empty()),
                tok_calls: Ghost(Seq::empty()),
                text_calls: Ghost(Seq::empty()),
                texts: Ghost(Seq::empty()),
                events: Ghost(Seq::empty()),
                marks: Ghost(Seq::empty()),
            },
        )
    }

    /// How many more tokens the reader may read before it gives the end of
    /// the document.
    pub closed spec fn budget(&self) -> nat {
        self.budget as nat
    }

    /// The bytes of the document that the reader reads.
    pub closed spec fn input(&self) -> Seq<u8> {
        self.reader.input()
    }

    /// The calls made on the XML reader, in order (`xml_source`).
    pub closed spec fn calls(&self) -> Seq<Option<Seq<u8>>> {
        self.reader.calls()
    }

    /// For each token handed out, the position among the calls of the one
    /// that gave it, or -1 for the end of the document given once the
    /// budget is spent.
    pub closed spec fn tok_calls(&self) -> Seq<int> {
        self.tok_calls@
    }

    /// For each text read, the position among the calls of the one that
    /// gave it.
    pub closed spec fn text_calls(&self) -> Seq<int> {
        self.text_calls@
    }

    /// Whether the tokens and texts are the replies of the calls made
    /// (`log_holds`).
    pub open spec fn log_ok(&self) -> bool {
        log_holds(
            self.input(),
            self.calls(),
            self.tokens(),
            self.texts(),
            self.tok_calls(),
            self.text_calls(),
            self.budget(),
        )
    }

    /// Whether the reader has made no call and handed out nothing.
    pub open spec fn fresh(&self) -> bool {
        &&& self.calls().len() == 0
        &&& self.tokens().len() == 0
        &&& self.texts().len() == 0
        &&& self.events().len() == 0
        &&& self.marks().len() == 0
        &&& self.budget() == initial_budget(self.input())
    }

    /// Whether the call at `k` gave a token or a text that the reader
    /// keeps.
    pub open spec fn call_logged(&self, k: int) -> bool {
        logged_by(self.tok_calls(), self.text_calls(), k)
    }

    /// Whether the calls from `from` up to `to` each gave a token or a text
    /// that the reader keeps.
    pub open spec fn calls_logged(&self, from: int, to: int) -> bool {
        forall|k: int| from <= k < to ==> #[trigger] self.call_logged(k)
    }

    /// Whether the last call read the next token and failed.
    pub open spec fn last_call_failed(&self) -> bool {
        &&& self.calls().len() > 0
        &&& self.calls().last() is None
        &&& xml_next_reply(self.input(), self.calls().drop_last()) is None
    }

    /// Whether `cur` is `start` after reading the events `evs`: it has kept
    /// what `start` had, its new spans follow each other up to the tokens
    /// and texts it has read, and each call made since gave a token or text
    /// that it keeps.
    pub open spec fn reading_on(start: FibexXmlReader<'a>, cur: FibexXmlReader<'a>, evs: Seq<FibexEvent>) -> bool {
        &&& cur.input() == start.input()
        &&& start.calls().len() <= cur.calls().len()
        &&& cur.calls().take(start.calls().len() as int) == start.calls()
        &&& start.tok_calls().len() <= cur.tok_calls().len()
        &&& cur.tok_calls().take(start.tok_calls().len() as int) == start.tok_calls()
        &&& start.text_calls().len() <= cur.text_calls().len()
        &&& cur.text_calls().take(start.text_calls().len() as int) == start.text_calls()
        &&& cur.marks().len() == start.marks().len() + evs.len()
        &&& marks_chain(cur.marks(), start.marks().len() as int, start.tokens().len() as int, start.texts().len() as int)
        &&& chain_end(cur.marks(), start.marks().len() as int, start.tokens().len() as int, start.texts().len() as int)
            == (cur.tokens().len() as int, cur.texts().len() as int)
        &&& cur.calls_logged(start.calls().len() as int, cur.calls().len() as int)
    }

    /// Whether `fin` is `start` after reading the events `evs` of the
    /// document up to its end (`end` is `None`, the last event the end of
    /// the document) or up to the error `end`: the tokens and texts read
    /// after the last event give that error, or the last call failed, the
    /// tokens read before it after the last event being passed over or
    /// within an unrelated element. Every other call made since gave a
    /// token or text that the reader keeps.
    pub open spec fn reads_to_end(
        start: FibexXmlReader<'a>,
        fin: FibexXmlReader<'a>,
        evs: Seq<FibexEvent>,
        end: Option<FibexError>,
    ) -> bool {
        let (t, x) = chain_end(fin.marks(), start.marks().len() as int, start.tokens().len() as int, start.texts().len() as int);
        let sc = start.calls().len() as int;
        &&& fin.input() == start.input()
        &&& fin.events() == start.events() + evs
        &&& start.calls().len() <= fin.calls().len()
        &&& fin.calls().take(sc) == start.calls()
        &&& fin.marks().len() == start.marks().len() + evs.len()
        &&& marks_chain(fin.marks(), start.marks().len() as int, start.tokens().len() as int, start.texts().len() as int)
        &&& 0 <= t <= fin.tokens().len()
        &&& 0 <= x <= fin.texts().len()
        &&& match end {
            None => {
                &&& t == fin.tokens().len() && x == fin.texts().len()
                &&& evs.len() > 0 && evs.last() is Eof
                &&& fin.calls_logged(sc, fin.calls().len() as int)
            },
            Some(e) => {
                ||| tokens_give(fin.tokens().skip(t), fin.texts().skip(x), Err::<FibexEvent, FibexError>(e))
                    && fin.calls_logged(sc, fin.calls().len() as int)
                ||| (e matches FibexError::Xml(_)) && fin.last_call_failed() && x == fin.texts().len()
                    && in_progress(fin.tokens().skip(t)) && fin.calls_logged(sc, fin.calls().len() - 1)
            },
        }
    }

    /// The tokens that the reader has handed out, in order (the text of an
    /// element that is read as a whole is not among them).
    pub closed spec fn tokens(&self) -> Seq<XmlToken> {
        self.tokens@
    }

    /// The texts of elements that the reader has read as a whole, in order.
    pub closed spec fn texts(&self) -> Seq<Result<String, XmlError>> {
        self.texts@
    }

    /// The events that `read_fibex` has returned, in order.
    pub closed spec fn events(&self) -> Seq<FibexEvent> {
        self.events@
    }

    /// For each of the reader's events, the tokens and texts that were read
    /// for it: the tokens from the first number up to the second, the texts
    /// from the third up to the fourth.
    pub closed spec fn marks(&self) -> Seq<(int, int, int, int)> {
        self.marks@
    }

    /// Whether each event that the reader has returned is what the tokens
    /// and texts read for it give (`read_from`), and whether those were read
    /// one event after the other, in the order of the events.
    pub open spec fn events_read(&self) -> bool {
        &&& self.marks().len() == self.events().len()
        &&& forall|i: int|
            0 <= i < self.events().len() ==> read_from(
                self.tokens(),
                self.texts(),
                #[trigger] self.marks()[i],
                self.events()[i],
            )
        &&& forall|i: int, j: int|
            #![trigger self.marks()[i], self.marks()[j]]
            0 <= i < j < self.marks().len() ==> self.marks()[i].1 <= self.marks()[j].0
                && self.marks()[i].3 <= self.marks()[j].2
    }

    /// How far the reader has read, in bytes.
    pub fn position(&self) -> usize {
        self.reader.position()
    }

    /// The next token, or the end of the document once as many tokens have
    /// been read as the document has bytes, plus one (the XML reader takes
    /// at least one byte for each token before the end of the document, so
    /// that this bound is never reached first).
    fn next_token(&mut self, second: bool) -> (r: Result<XmlToken, XmlError>)
        ensures
            old(self).budget > 0 ==> final(self).budget == old(self).budget - 1,
            old(self).budget == 0 ==> final(self).budget == 0 && r matches Ok(XmlToken::Eof),
            r matches Ok(t) ==> final(self).tokens() == old(self).tokens().push(t),
            r is Err ==> final(self).tokens() == old(self).tokens(),
            final(self).input() == old(self).input(),
            final(self).texts() == old(self).texts(),
            final(self).events() == old(self).events(),
            final(self).marks() == old(self).marks(),
            final(self).text_calls() == old(self).text_calls(),
            old(self).budget == 0 ==> final(self).calls() == old(self).calls(),
            old(self).budget > 0 ==> final(self).calls() == old(self).calls().push(None),
            r is Ok && old(self).budget == 0 ==> final(self).tok_calls() == old(self).tok_calls().push(-1),
            r is Ok && old(self).budget > 0 ==> final(self).tok_calls() == old(self).tok_calls().push(
                old(self).calls().len() as int,
            ),
            r is Err ==> final(self).tok_calls() == old(self).tok_calls() && final(self).last_call_failed(),
            old(self).log_ok() ==> final(self).log_ok(),
            r is Ok ==> final(self).calls_logged(old(self).calls().len() as int, final(self).calls().len() as int),
    {
        let ghost c = self.calls();
        let ghost ts = self.tokens@;
        let ghost xs = self.texts@;
        let ghost tc = self.tok_calls@;
        let ghost xc = self.text_calls@;
        let ghost b = self.budget as nat;
        let ghost input = self.input();
        if self.budget == 0 {
            self.tokens = Ghost(self.tokens@.push(XmlToken::Eof));
            self.tok_calls = Ghost(self.tok_calls@.push(-1));
            proof {
                assert(c.take(c.len() as int) =~= c);
                if log_holds(input, c, ts, xs, tc, xc, b) {
                    assert(self.tokens@.take(ts.len() as int) =~= ts);
                    assert(self.tok_calls@.take(ts.len() as int) =~= tc);
                    assert(xs.take(xs.len() as int) =~= xs);
                    assert(xc.take(xs.len() as int) =~= xc);
                    lemma_logged_keep(input, c, ts, xs, tc, xc, b, c, self.tokens@, xs, self.tok_calls@, xc, 0);
                    assert(token_logged(input, c, self.tokens@[ts.len() as int], -1, 0));
                    let tc2 = self.tok_calls@;
                    assert forall|i: int, j: int|
                        0 <= i < j < tc2.len() && tc2[j] >= 0 implies tc2[i] >= 0 && #[trigger] tc2[i] < #[trigger] tc2[j] by {
                        assert(j < ts.len());
                        assert(tc2[i] == tc[i] && tc2[j] == tc[j]);
                    }
                    assert forall|i: int, j: int|
                        0 <= i < tc2.len() && 0 <= j < xc.len() implies #[trigger] tc2[i] != #[trigger] xc[j] by {
                        if i < ts.len() {
                            assert(tc2[i] == tc[i]);
                        } else {
                            assert(text_logged(input, c, ts, tc, xs[j], xc[j]));
                        }
                    }
                    assert(log_holds(input, c, self.tokens@, xs, tc2, xc, 0));
                }
            }
            return Ok(XmlToken::Eof);
        }
        self.budget = self.budget - 1;
        let r = if second {
            self.reader.next(&mut self.buffer2)
        } else {
            self.reader.next(&mut self.buffer)
        };
        proof {
            assert(self.calls().drop_last() =~= c);
            assert(self.calls().take(c.len() as int) =~= c);
        }
        match &r {
            Ok(t) => {
                self.tokens = Ghost(self.tokens@.push(*t));
                self.tok_calls = Ghost(self.tok_calls@.push(c.len() as int));
                proof {
                    let c2 = self.calls();
                    if log_holds(input, c, ts, xs, tc, xc, b) {
                        assert(self.tokens@.take(ts.len() as int) =~= ts);
                        assert(self.tok_calls@.take(ts.len() as int) =~= tc);
                        assert(xs.take(xs.len() as int) =~= xs);
                        assert(xc.take(xs.len() as int) =~= xc);
                        lemma_logged_keep(input, c, ts, xs, tc, xc, b, c2, self.tokens@, xs, self.tok_calls@, xc, (b - 1) as nat);
                        assert(self.tokens@[ts.len() as int] == *t);
                        assert(c2.take(c.len() as int) == c);
                        assert(c2[c.len() as int] is None);
                        assert(xml_next_reply(input, c) == Some(t@));
                        assert(token_logged(input, c2, self.tokens@[ts.len() as int], c.len() as int, (b - 1) as nat));
                        let tc2 = self.tok_calls@;
                        assert forall|i: int| 0 <= i < ts.len() implies tc2[i] >= 0 && #[trigger] tc2[i] < c.len() by {
                            lemma_logged_one(input, c, ts, xs, tc, xc, b, i);
                            assert(tc2[i] == tc[i]);
                        }
                        assert forall|i: int, j: int|
                            0 <= i < j < tc2.len() && tc2[j] >= 0 implies tc2[i] >= 0 && #[trigger] tc2[i] < #[trigger] tc2[j] by {
                            if j < ts.len() {
                                assert(tc2[i] == tc[i] && tc2[j] == tc[j]);
                            }
                        }
                        assert forall|i: int, j: int|
                            0 <= i < tc2.len() && 0 <= j < xc.len() implies #[trigger] tc2[i] != #[trigger] xc[j] by {
                            if i < ts.len() {
                                assert(tc2[i] == tc[i]);
                            }
                        }
                        assert(count_next(c2) == count_next(c) + 1);
                        assert(log_holds(input, c2, self.tokens@, xs, self.tok_calls@, xc, (b - 1) as nat));
                    }
                    assert(self.tok_calls()[tc.len() as int] == c.len() as int);
                    assert(self.call_logged(c.len() as int));
                }
            },
            Err(_) => {
                proof {
                    let c2 = self.calls();
                    if log_holds(input, c, ts, xs, tc, xc, b) {
                        assert(ts.take(ts.len() as int) =~= ts);
                        assert(tc.take(ts.len() as int) =~= tc);
                        assert(xs.take(xs.len() as int) =~= xs);
                        assert(xc.take(xs.len() as int) =~= xc);
                        lemma_logged_keep(input, c, ts, xs, tc, xc, b, c2, ts, xs, tc, xc, (b - 1) as nat);
                        assert(count_next(c2) == count_next(c) + 1);
                    }
                }
            },
        }
        r
    }

    /// Skips up to the end of an unrelated element; whether the document
    /// ended first.
    ///
    /// The tokens it reads are those after the ones handed out before, up
    /// to and including the first that ends the skipping (`ends_skip`):
    /// `Ok(true)` where that is the end of the document, `Ok(false)` where it
    /// is an end tag; where the reader fails first, its error.
    fn skip_unrelated(&mut self) -> (r: Result<bool, FibexError>)
        ensures
            r is Err ==> r matches Err(FibexError::Xml(_)),
            final(self).budget <= old(self).budget,
            final(self).input() == old(self).input(),
            final(self).texts() == old(self).texts(),
            final(self).events() == old(self).events(),
            final(self).marks() == old(self).marks(),
            old(self).tokens().len() <= final(self).tokens().len(),
            final(self).tokens().subrange(0, old(self).tokens().len() as int) == old(self).tokens(),
            forall|k: int|
                old(self).tokens().len() <= k < final(self).tokens().len() - 1 ==> !ends_skip(
                    #[trigger] final(self).tokens()[k],
                ),
            r matches Ok(eof) ==> final(self).tokens().len() > old(self).tokens().len() && ends_skip(
                final(self).tokens().last(),
            ) && (eof <==> final(self).tokens().last() is Eof),
            r is Err && final(self).tokens().len() > old(self).tokens().len() ==> !ends_skip(
                final(self).tokens().last(),
            ),
            final(self).text_calls() == old(self).text_calls(),
            old(self).tok_calls().len() <= final(self).tok_calls().len(),
            final(self).tok_calls().take(old(self).tok_calls().len() as int) == old(self).tok_calls(),
            old(self).calls().len() <= final(self).calls().len(),
            final(self).calls().take(old(self).calls().len() as int) == old(self).calls(),
            old(self).log_ok() ==> final(self).log_ok(),
            r is Ok ==> final(self).calls_logged(old(self).calls().len() as int, final(self).calls().len() as int),
            r is Err ==> final(self).last_call_failed() && final(self).calls_logged(
                old(self).calls().len() as int,
                final(self).calls().len() - 1,
            ),
    {
        loop
            invariant
                self.budget <= old(self).budget,
                self.input() == old(self).input(),
                self.texts() == old(self).texts(),
                self.events() == old(self).events(),
                self.marks() == old(self).marks(),
                old(self).tokens().len() <= self.tokens().len(),
                self.tokens().subrange(0, old(self).tokens().len() as int) == old(self).tokens(),
                forall|k: int|
                    old(self).tokens().len() <= k < self.tokens().len() ==> !ends_skip(
                        #[trigger] self.tokens()[k],
                    ),
                self.text_calls() == old(self).text_calls(),
                old(self).tok_calls().len() <= self.tok_calls().len(),
                self.tok_calls().take(old(self).tok_calls().len() as int) == old(self).tok_calls(),
                old(self).calls().len() <= self.calls().len(),
                self.calls().take(old(self).calls().len() as int) == old(self).calls(),
                old(self).log_ok() ==> self.log_ok(),
                self.calls_logged(old(self).calls().len() as int, self.calls().len() as int),
            decreases self.budget,
        {
            let ghost tc0 = self.tok_calls();
            let ghost xc0 = self.text_calls();
            let ghost c0 = self.calls();
            assert forall|k: int| old(self).calls().len() <= k < c0.len() implies #[trigger] logged_by(tc0, xc0, k) by {
                assert(self.call_logged(k));
            }
            let step = self.next_token(true);
            proof {
                assert(self.tok_calls().take(tc0.len() as int) =~= tc0);
                assert(self.tok_calls().take(old(self).tok_calls().len() as int) =~= old(self).tok_calls());
                assert(self.calls().take(old(self).calls().len() as int) =~= old(self).calls());
                assert(self.text_calls().take(self.text_calls().len() as int) =~= self.text_calls());
                lemma_logged_grow(tc0, xc0, self.tok_calls(), self.text_calls(), old(self).calls().len() as int, c0.len() as int);
            }
            match step {
                Ok(XmlToken::End(local)) => {
                    if str_eq(local.as_str(), "EVENT-GROUP") || str_eq(local.as_str(), "COMPU-METHODS")
                        || str_eq(local.as_str(), "MANUFACTURER-EXTENSION") {
                        return Ok(false);
                    }
                },
                Ok(XmlToken::Eof) => return Ok(true),
                Ok(_) => {},
                Err(e) => return Err(FibexError::Xml(e)),
            }
        }
    }

    /// The events of the document, each with the position of the reader
    /// after it: those that `read_fibex` returns, in order (so that the
    /// reader's events grow by them, each given by the tokens and texts read
    /// for it: `events_read`). Reading stops at the end of the
    /// document, whose event is the last one, or at the first error, which
    /// is given back.
    pub fn read_events(&mut self) -> (r: (Vec<FibexEvent>, Vec<usize>, Option<FibexError>))
        ensures
            r.0@.len() == r.1@.len(),
            r.2 is None ==> r.0@.len() > 0 && r.0@.last() is Eof,
            forall|k: int| 0 <= k < r.0@.len() - 1 ==> !(#[trigger] r.0@[k] is Eof),
            forall|k: int| 0 <= k < r.0@.len() ==> !(#[trigger] r.0@[k] is Eou),
            final(self).events() == old(self).events() + r.0@,
            final(self).input() == old(self).input(),
            old(self).events_read() ==> final(self).events_read(),
            old(self).log_ok() ==> final(self).log_ok(),
            Self::reads_to_end(*old(self), *final(self), r.0@, r.2),
    {
        let mut events: Vec<FibexEvent> = Vec::new();
        let mut positions: Vec<usize> = Vec::new();
        proof {
            assert(self.events() =~= old(self).events() + events@);
            assert(self.calls().take(self.calls().len() as int) =~= self.calls());
            assert(self.tok_calls().take(self.tok_calls().len() as int) =~= self.tok_calls());
            assert(self.text_calls().take(self.text_calls().len() as int) =~= self.text_calls());
        }
        loop
            invariant
                self.events() == old(self).events() + events@,
                self.input() == old(self).input(),
                old(self).events_read() ==> self.events_read(),
                old(self).log_ok() ==> self.log_ok(),
                events@.len() == positions@.len(),
                forall|k: int| 0 <= k < events@.len() ==> !(#[trigger] events@[k] is Eof),
                forall|k: int| 0 <= k < events@.len() ==> !(#[trigger] events@[k] is Eou),
                Self::reading_on(*old(self), *self, events@),
            decreases self.budget(),
        {
            let ghost mid = *self;
            let ghost tc0 = self.tok_calls();
            let ghost xc0 = self.text_calls();
            let ghost c0 = self.calls();
            assert forall|k: int| old(self).calls().len() <= k < c0.len() implies #[trigger] logged_by(tc0, xc0, k) by {
                assert(self.call_logged(k));
            }
            let step = self.read_fibex();
            proof {
                lemma_take_take(self.calls(), c0, old(self).calls());
                lemma_take_take(self.tok_calls(), tc0, old(self).tok_calls());
                lemma_take_take(self.text_calls(), xc0, old(self).text_calls());
                lemma_logged_grow(tc0, xc0, self.tok_calls(), self.text_calls(), old(self).calls().len() as int, c0.len() as int);
                let o = old(self).calls().len() as int;
                let n = self.calls().len() as int;
                if step is Ok {
                    assert forall|k: int| o <= k < n implies #[trigger] self.call_logged(k) by {
                        if k < c0.len() {
                            assert(logged_by(self.tok_calls(), self.text_calls(), k));
                        }
                    }
                } else if self.calls_logged(c0.len() as int, n) {
                    assert forall|k: int| o <= k < n implies #[trigger] self.call_logged(k) by {
                        if k < c0.len() {
                            assert(logged_by(self.tok_calls(), self.text_calls(), k));
                        }
                    }
                } else {
                    assert forall|k: int| o <= k < n - 1 implies #[trigger] self.call_logged(k) by {
                        if k < c0.len() {
                            assert(logged_by(self.tok_calls(), self.text_calls(), k));
                        }
                    }
                }
            }
            match step {
                Ok(e) => {
                    let end = matches!(e, FibexEvent::Eof);
                    let ghost before = events@;
                    events.push(e);
                    proof {
                        assert(old(self).events() + events@ =~= (old(self).events() + before).push(e));
                        let m = self.marks();
                        let f = old(self).marks().len() as int;
                        assert(m.drop_last() == mid.marks());
                        assert forall|i: int| f < i < m.len() implies (#[trigger] m[i]).0 == m[i - 1].1 && m[i].2 == m[i - 1].3 by {
                            if i < m.len() - 1 {
                                assert(m[i] == mid.marks()[i]);
                                assert(m[i - 1] == mid.marks()[i - 1]);
                            } else {
                                assert(m[i - 1] == mid.marks()[i - 1]);
                                assert(mid.marks().last() == mid.marks()[i - 1]);
                            }
                        }
                        if m.len() - 1 > f {
                            assert(m[f] == mid.marks()[f]);
                        }
                    }
                    positions.push(self.position());
                    if end {
                        return (events, positions, None);
                    }
                },
                Err(e) => {
                    proof {
                        assert(self.marks() == mid.marks());
                    }
                    return (events, positions, Some(e));
                },
            }
        }
    }

    /// The next event of the document: that of the next tag that makes
    /// one (`start_action`, `end_event`, `empty_event`), or the end of the
    /// document. The tokens it reads after those handed out before give the
    /// event (`tokens_give`), and it is recorded among the reader's events,
    /// with the span of tokens and texts read for it (`marks`); an error
    /// that the tokens do not give is one of the XML reader.
    pub fn read_fibex(&mut self) -> (r: Result<FibexEvent, FibexError>)
        ensures
            r matches Ok(e) ==> !(e is Eou),
            final(self).budget() <= old(self).budget(),
            old(self).budget() == 0 ==> r matches Ok(FibexEvent::Eof),
            r matches Ok(e) && !(e is Eof) ==> final(self).budget() < old(self).budget(),
            final(self).input() == old(self).input(),
            old(self).tokens().len() <= final(self).tokens().len(),
            final(self).tokens().subrange(0, old(self).tokens().len() as int) == old(self).tokens(),
            old(self).texts().len() <= final(self).texts().len(),
            final(self).texts().subrange(0, old(self).texts().len() as int) == old(self).texts(),
            r is Ok ==> tokens_give(
                final(self).tokens().skip(old(self).tokens().len() as int),
                final(self).texts().skip(old(self).texts().len() as int),
                r,
            ),
            r is Err ==> (tokens_give(
                final(self).tokens().skip(old(self).tokens().len() as int),
                final(self).texts().skip(old(self).texts().len() as int),
                r,
            ) && final(self).calls_logged(old(self).calls().len() as int, final(self).calls().len() as int))
                || (r matches Err(FibexError::Xml(_)) && final(self).last_call_failed() && final(self).calls_logged(
                old(self).calls().len() as int,
                final(self).calls().len() - 1,
            ) && final(self).texts() == old(self).texts() && in_progress(
                final(self).tokens().skip(old(self).tokens().len() as int),
            )),
            r matches Ok(e) ==> final(self).events() == old(self).events().push(e),
            r is Ok ==> final(self).marks() == old(self).marks().push(
                (
                    old(self).tokens().len() as int,
                    final(self).tokens().len() as int,
                    old(self).texts().len() as int,
                    final(self).texts().len() as int,
                ),
            ),
            r is Err ==> final(self).events() == old(self).events(),
            r is Err ==> final(self).marks() == old(self).marks(),
            old(self).tok_calls().len() <= final(self).tok_calls().len(),
            final(self).tok_calls().take(old(self).tok_calls().len() as int) == old(self).tok_calls(),
            old(self).text_calls().len() <= final(self).text_calls().len(),
            final(self).text_calls().take(old(self).text_calls().len() as int) == old(self).text_calls(),
            old(self).calls().len() <= final(self).calls().len(),
            final(self).calls().take(old(self).calls().len() as int) == old(self).calls(),
            old(self).log_ok() ==> final(self).log_ok(),
            r is Ok ==> final(self).calls_logged(old(self).calls().len() as int, final(self).calls().len() as int),
            old(self).events_read() ==> final(self).events_read(),
    {
        let ghost t0 = self.tokens@;
        let ghost x0 = self.texts@;
        let r = self.read_event();
        let ghost tc1 = self.tok_calls();
        let ghost xc1 = self.text_calls();
        let ghost c1 = self.calls();
        proof {
            if r is Ok {
                assert forall|k: int| old(self).calls().len() <= k < c1.len() implies #[trigger] logged_by(tc1, xc1, k) by {
                    assert(self.call_logged(k));
                }
            }
        }
        match &r {
            Ok(e) => {
                let ghost span = (t0.len() as int, self.tokens@.len() as int, x0.len() as int, self.texts@.len() as int);
                proof {
                    assert(self.tokens@.subrange(span.0, span.1) =~= self.tokens@.skip(span.0));
                    assert(self.texts@.subrange(span.2, span.3) =~= self.texts@.skip(span.2));
                }
                self.events = Ghost(self.events@.push(*e));
                self.marks = Ghost(self.marks@.push(span));
            },
            Err(_) => {},
        }
        proof {
            if old(self).events_read() {
                lemma_events_read_grow(t0, self.tokens@, x0, self.texts@, old(self).marks@, old(self).events@);
            }
            if r is Ok {
                assert forall|k: int| old(self).calls().len() <= k < c1.len() implies #[trigger] self.call_logged(k) by {
                    assert(logged_by(tc1, xc1, k));
                }
            }
        }
        r
    }

    /// The next event of the document, as `read_fibex` says, without
    /// recording it.
    fn read_event(&mut self) -> (r: Result<FibexEvent, FibexError>)
        ensures
            r matches Ok(e) ==> !(e is Eou),
            final(self).budget() <= old(self).budget(),
            old(self).budget() == 0 ==> r matches Ok(FibexEvent::Eof),
            r matches Ok(e) && !(e is Eof) ==> final(self).budget() < old(self).budget(),
            final(self).input() == old(self).input(),
            final(self).events() == old(self).events(),
            final(self).marks() == old(self).marks(),
            old(self).tokens().len() <= final(self).tokens().len(),
            final(self).tokens().subrange(0, old(self).tokens().len() as int) == old(self).tokens(),
            old(self).texts().len() <= final(self).texts().len(),
            final(self).texts().subrange(0, old(self).texts().len() as int) == old(self).texts(),
            r is Ok ==> tokens_give(
                final(self).tokens().skip(old(self).tokens().len() as int),
                final(self).texts().skip(old(self).texts().len() as int),
                r,
            ),
            r is Err ==> (tokens_give(
                final(self).tokens().skip(old(self).tokens().len() as int),
                final(self).texts().skip(old(self).texts().len() as int),
                r,
            ) && final(self).calls_logged(old(self).calls().len() as int, final(self).calls().len() as int))
                || (r matches Err(FibexError::Xml(_)) && final(self).last_call_failed() && final(self).calls_logged(
                old(self).calls().len() as int,
                final(self).calls().len() - 1,
            ) && final(self).texts() == old(self).texts() && in_progress(
                final(self).tokens().skip(old(self).tokens().len() as int),
            )),
            old(self).tok_calls().len() <= final(self).tok_calls().len(),
            final(self).tok_calls().take(old(self).tok_calls().len() as int) == old(self).tok_calls(),
            old(self).text_calls().len() <= final(self).text_calls().len(),
            final(self).text_calls().take(old(self).text_calls().len() as int) == old(self).text_calls(),
            old(self).calls().len() <= final(self).calls().len(),
            final(self).calls().take(old(self).calls().len() as int) == old(self).calls(),
            old(self).log_ok() ==> final(self).log_ok(),
            r is Ok ==> final(self).calls_logged(old(self).calls().len() as int, final(self).calls().len() as int),
    {
        let ghost n0 = self.tokens@.len() as int;
        let ghost x0 = self.texts@.len() as int;
        proof {
            assert(self.tokens@.skip(n0) =~= Seq::<XmlToken>::empty());
            assert(self.tokens@.subrange(0, n0) =~= self.tokens@);
            assert(self.texts@.subrange(0, x0) =~= self.texts@);
        }
        loop
            invariant
                self.budget <= old(self).budget,
                old(self).budget == 0 ==> self.budget == 0,
                self.input() == old(self).input(),
                self.events() == old(self).events(),
                self.marks() == old(self).marks(),
                self.texts() == old(self).texts(),
                n0 == old(self).tokens().len(),
                x0 == old(self).texts().len(),
                n0 <= self.tokens().len(),
                self.tokens().subrange(0, n0) == old(self).tokens(),
                passed(self.tokens().skip(n0)),
                old(self).tok_calls().len() <= self.tok_calls().len(),
                self.tok_calls().take(old(self).tok_calls().len() as int) == old(self).tok_calls(),
                self.text_calls() == old(self).text_calls(),
                old(self).calls().len() <= self.calls().len(),
                self.calls().take(old(self).calls().len() as int) == old(self).calls(),
                old(self).log_ok() ==> self.log_ok(),
                self.calls_logged(old(self).calls().len() as int, self.calls().len() as int),
            decreases self.budget,
        {
            let ghost p = self.tokens@.skip(n0);
            let ghost before = self.tokens@;
            let ghost tc0 = self.tok_calls();
            let ghost xc0 = self.text_calls();
            let ghost c0 = self.calls();
            assert forall|k: int| old(self).calls().len() <= k < c0.len() implies #[trigger] logged_by(tc0, xc0, k) by {
                assert(self.call_logged(k));
            }
            let step = self.next_token(false);
            proof {
                assert(self.tok_calls().take(tc0.len() as int) =~= tc0);
                assert(self.tok_calls().take(old(self).tok_calls().len() as int) =~= old(self).tok_calls());
                assert(self.calls().take(old(self).calls().len() as int) =~= old(self).calls());
                assert(xc0.take(xc0.len() as int) =~= xc0);
                lemma_logged_grow(tc0, xc0, self.tok_calls(), self.text_calls(), old(self).calls().len() as int, c0.len() as int);
            }
            let token = match step {
                Ok(t) => t,
                Err(e) => {
                    proof {
                        let q = self.tokens@.skip(n0);
                        assert(q.take(q.len() as int) =~= q);
                        assert(passed(q.take(q.len() as int)));
                    }
                    return Err(FibexError::Xml(e));
                },
            };
            let ghost t = token;
            proof {
                assert(self.tokens@.skip(n0) =~= p.push(t));
                assert(self.tokens@.subrange(0, n0) =~= before.subrange(0, n0));
                assert(self.texts@.skip(x0) =~= Seq::<Result<String, XmlError>>::empty());
            }
            match token {
                XmlToken::Start(mut tag) => {
                    match start_action(tag.local.as_str()) {
                        StartAction::Text(kind) => {
                            let ghost c1 = self.calls();
                            let ghost tc1 = self.tok_calls();
                            let ghost xc1 = self.text_calls();
                            let ghost ts1 = self.tokens@;
                            let ghost xs1 = self.texts@;
                            let ghost b1 = self.budget as nat;
                            assert forall|k: int| old(self).calls().len() <= k < c1.len() implies #[trigger] logged_by(tc1, xc1, k) by {
                                assert(self.call_logged(k));
                            }
                            let text = self.reader.read_text(&tag.name, &mut self.buffer2);
                            self.texts = Ghost(self.texts@.push(text));
                            self.text_calls = Ghost(self.text_calls@.push(c1.len() as int));
                            proof {
                                assert(self.calls().take(old(self).calls().len() as int) =~= old(self).calls());
                                assert(self.text_calls().take(old(self).text_calls().len() as int) =~= old(self).text_calls());
                                assert(tc1.take(tc1.len() as int) =~= tc1);
                                assert(self.text_calls().take(xc1.len() as int) =~= xc1);
                                lemma_logged_grow(tc1, xc1, tc1, self.text_calls(), old(self).calls().len() as int, c1.len() as int);
                                assert(self.text_calls()[xc1.len() as int] == c1.len() as int);
                                assert(self.call_logged(c1.len() as int));
                                if old(self).log_ok() {
                                    assert(ts1.last() == t);
                                    lemma_log_text(self.input(), c1, ts1, xs1, tc1, xc1, b1, tag.name@, text);
                                }
                            }
                            proof {
                                assert(self.texts@.skip(x0) =~= seq![text]);
                                assert(self.texts@.subrange(0, x0) =~= old(self).texts());
                            }
                            return match text {
                                Ok(s) => {
                                    let e = text_event(kind, s);
                                    proof {
                                        lemma_give_last(p, t, self.texts@.skip(x0), Ok(e));
                                    }
                                    Ok(e)
                                },
                                Err(e) => {
                                    proof {
                                        lemma_give_last(p, t, self.texts@.skip(x0), Err(FibexError::Xml(e)));
                                    }
                                    Err(FibexError::Xml(e))
                                },
                            };
                        },
                        StartAction::Id(kind) => {
                            let r = match get_attribute(&mut tag, "ID") {
                                Ok(id) => Ok(id_event(kind, id)),
                                Err(e) => Err(e),
                            };
                            proof {
                                lemma_give_last(p, t, self.texts@.skip(x0), r);
                            }
                            return r;
                        },
                        StartAction::Marker(event) => {
                            proof {
                                lemma_give_last(p, t, self.texts@.skip(x0), Ok(event));
                            }
                            return Ok(event);
                        },
                        StartAction::Datatype => {
                            let r = datatype_event(&mut tag);
                            proof {
                                lemma_give_last(p, t, self.texts@.skip(x0), r);
                            }
                            return r;
                        },
                        StartAction::CodedType => {
                            let r = coded_type_event(&mut tag);
                            proof {
                                lemma_give_last(p, t, self.texts@.skip(x0), r);
                            }
                            return r;
                        },
                        StartAction::Skip => {
                            let ghost mid = self.tokens@;
                            let ghost tc2 = self.tok_calls();
                            let ghost xc2 = self.text_calls();
                            let ghost c2 = self.calls();
                            assert forall|k: int| old(self).calls().len() <= k < c2.len() implies #[trigger] logged_by(tc2, xc2, k) by {
                                assert(self.call_logged(k));
                            }
                            let res = self.skip_unrelated();
                            proof {
                                assert(self.tok_calls().take(old(self).tok_calls().len() as int) =~= old(self).tok_calls()) by {
                                    assert(self.tok_calls().take(tc2.len() as int) == tc2);
                                    assert forall|q: int| 0 <= q < old(self).tok_calls().len() implies self.tok_calls().take(old(self).tok_calls().len() as int)[q] == old(self).tok_calls()[q] by {
                                        assert(self.tok_calls().take(tc2.len() as int)[q] == self.tok_calls()[q]);
                                        assert(tc2.take(old(self).tok_calls().len() as int)[q] == tc2[q]);
                                    }
                                }
                                assert(self.calls().take(old(self).calls().len() as int) =~= old(self).calls()) by {
                                    assert(self.calls().take(c2.len() as int) == c2);
                                    assert forall|q: int| 0 <= q < old(self).calls().len() implies self.calls().take(old(self).calls().len() as int)[q] == old(self).calls()[q] by {
                                        assert(self.calls().take(c2.len() as int)[q] == self.calls()[q]);
                                        assert(c2.take(old(self).calls().len() as int)[q] == c2[q]);
                                    }
                                }
                                assert(xc2.take(xc2.len() as int) =~= xc2);
                                lemma_logged_grow(tc2, xc2, self.tok_calls(), self.text_calls(), old(self).calls().len() as int, c2.len() as int);
                                assert(mid =~= before.push(t));
                                let b = before.len() as int;
                                assert(self.tokens@.subrange(0, mid.len() as int) == mid);
                                assert(self.tokens@[b] == self.tokens@.subrange(0, mid.len() as int)[b]);
                                assert forall|k: int| n0 <= k < b implies #[trigger] self.tokens@[k] == before[k] by {
                                    assert(self.tokens@[k] == self.tokens@.subrange(0, mid.len() as int)[k]);
                                    assert(mid[k] == before[k]);
                                }
                                assert(p =~= self.tokens@.subrange(n0, b));
                                let s = self.tokens@.skip(b);
                                assert(self.tokens@.skip(n0) =~= p + s);
                                assert(self.tokens@.subrange(0, n0) =~= mid.subrange(0, n0));
                                assert(s[0] == t);
                                assert forall|k: int| 1 <= k < s.len() - 1 implies !ends_skip(#[trigger] s[k]) by {
                                    assert(s[k] == self.tokens@[n0 + p.len() + k]);
                                }
                                if res is Ok {
                                    assert(s.last() == self.tokens@.last());
                                    lemma_skip_end_last(s, 1);
                                }
                                match res {
                                    Ok(true) => {
                                        lemma_give_skip_eof(p, s);
                                    },
                                    Ok(false) => {
                                        lemma_pass_skip(p, s);
                                    },
                                    Err(_) => {
                                        let q = self.tokens@.skip(n0);
                                        let k = p.len() as int;
                                        assert(q.take(k) =~= p);
                                        assert(q[k] == s[0]);
                                        assert forall|j: int| k < j < q.len() implies !ends_skip(#[trigger] q[j]) by {
                                            assert(q[j] == s[j - k]);
                                            if j - k == s.len() - 1 {
                                                assert(s[j - k] == self.tokens@.last());
                                            }
                                        }
                                        assert(passed(q.take(k)));
                                    },
                                }
                            }
                            match res {
                                Ok(true) => return Ok(FibexEvent::Eof),
                                Ok(false) => {},
                                Err(e) => return Err(e),
                            }
                        },
                        StartAction::Ignore => {
                            proof {
                                lemma_pass_one(p, t);
                            }
                        },
                    }
                },
                XmlToken::Empty(mut tag) => {
                    match empty_event(&mut tag) {
                        Some(r) => {
                            proof {
                                lemma_give_last(p, t, self.texts@.skip(x0), r);
                            }
                            return r;
                        },
                        None => {
                            proof {
                                lemma_pass_one(p, t);
                            }
                        },
                    }
                },
                XmlToken::End(local) => {
                    match end_event(local.as_str()) {
                        Some(event) => {
                            proof {
                                lemma_give_last(p, t, self.texts@.skip(x0), Ok(event));
                            }
                            return Ok(event);
                        },
                        None => {
                            proof {
                                lemma_pass_one(p, t);
                            }
                        },
                    }
                },
                XmlToken::Eof => {
                    proof {
                        lemma_give_last(p, t, self.texts@.skip(x0), Ok(FibexEvent::Eof));
                    }
                    return Ok(FibexEvent::Eof);
                },
                XmlToken::Other => {
                    proof {
                        lemma_pass_one(p, t);
                    }
                },
            }
        }
    }
}

} // verus!
