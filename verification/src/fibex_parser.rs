//! The FIBEX parser: builds the model from the events of a document.
//!
//! The events of the document are read first; the model is then read from
//! them by one function for each element, from the event after the
//! element's start event up to its end event. Each function gives exactly
//! what `fibex_grammar` says the events describe. The types of method
//! parameters and fields are added to the model's table of types as they
//! are read, and the declarations that use them refer to their position
//! there.

use vstd::prelude::*;
use crate::fibex::{
    copy_string, decl_below, has_unresolvable, members_below, packed_instance, refs_resolved, type_keys, methods_below, refs_within, str_eq, FibexArrayDimension,
    FibexCodingAttribute, FibexDatatype, FibexEnum, FibexEnumDeclaration, FibexError, FibexModel,
    FibexPrimitive, FibexServiceInterface, FibexServiceMethod, FibexStruct, FibexTypeAttribute,
    FibexTypeCoding, FibexTypeDeclaration, FibexTypeInstance,
};
use crate::fibex_grammar::{
    accessor_decl, accessor_run, array_run, array_start, bool_of, coded_type_attrs, coding_run,
    common_type_run, complex_type_run, enum_item_run, enum_type_run, events_model, field_run,
    field_start, fibex_run, insert_by_position, member_at, member_run, method_run, method_start,
    parameter_decl, parameter_run, position_in, processing_run, service_run, service_start,
    sorted_by_position, utilization_run, ArrayState, FieldState, MethodState, ServiceState,
};
use crate::fibex_view::{
    attrs_view, coding_attrs_view, codings_view, decls_view, group_views, items_view, methods_view,
    opt_decl_view, opt_decls_view, opt_text_view, services_view, types_view, DatatypeV, DeclV, ModelV,
};
use crate::fibex_xml::{FibexEvent, FibexXmlReader};
use crate::text::{dec, push_str, usize_text};

verus! {

broadcast use group_views;

/// Parses FIBEX documents.
pub struct FibexXmlParser;

/// The parser of FIBEX documents.
pub type FibexParser = FibexXmlParser;

/// The reader of FIBEX documents.
pub type FibexReader<'a> = FibexXmlReader<'a>;

impl FibexXmlParser {
    /// Parses the document; a reference to no known type is an error.
    /// It reads the events of the document to its end or to the first
    /// error (`FibexXmlReader::read_events`, each event given by the replies
    /// of the XML reader to the calls made on it), then gives what
    /// `parse_read_events` gives for them (`document_parsed`).
    pub fn parse(reader: FibexXmlReader) -> (r: Result<FibexModel, FibexError>)
        ensures
            r matches Ok(m) ==> refs_within(m.services@, m.types@) && parsed_model(m, true),
            reader.log_ok() && reader.events_read() ==> document_parsed(reader, true, r),
    {
        parse_fibex(reader, true)
    }

    /// Parses the document; a reference to no known type is left
    /// unresolved.
    pub fn try_parse(reader: FibexXmlReader) -> (r: Result<FibexModel, FibexError>)
        ensures
            r matches Ok(m) ==> refs_within(m.services@, m.types@) && parsed_model(m, false),
            reader.log_ok() && reader.events_read() ==> document_parsed(reader, false, r),
    {
        parse_fibex(reader, false)
    }

    /// Reads the model that the events of a document describe, before its
    /// codings are applied and its references resolved.
    pub fn parse_events(events: &Vec<FibexEvent>, positions: &Vec<usize>) -> (r: Result<FibexModel, ParseStop>)
        ensures
            match events_model(events@) {
                Some(m) => r matches Ok(x) && x@ == m,
                None => r is Err,
            },
            r matches Ok(m) ==> refs_within(m.services@, m.types@),
    {
        let mut model = FibexModel::new();
        let mut i: usize = 0;
        proof {
            assert(services_view(model.services@) =~= seq![]);
            assert(types_view(model.types@) =~= seq![]);
            assert(codings_view(model.codings@) =~= seq![]);
            assert(model@ == ModelV { services: seq![], types: seq![], codings: seq![] });
        }
        loop
            invariant
                events_model(events@) == fibex_run(events@, i as int, model@),
                refs_within(model.services@, model.types@),
            decreases events@.len() - i,
        {
            if i >= events.len() {
                return Err(ParseStop::Ended);
            }
            match &events[i] {
                FibexEvent::ServiceStart(id) => {
                    let (service, next) = parse_service_interface(events, positions, i + 1, copy_string(id), &mut model.types)?;
                    model.services.push(service);
                    i = next;
                },
                FibexEvent::DatatypeStart(id, datatype_type) => {
                    if str_eq(datatype_type.as_str(), "fx:COMMON-DATATYPE-TYPE") {
                        let (t, next) = parse_common_datatype(events, positions, i + 1, copy_string(id))?;
                        model.types.push(t);
                        i = next;
                    } else if str_eq(datatype_type.as_str(), "fx:COMPLEX-DATATYPE-TYPE") {
                        let (t, next) = parse_complex_datatype(events, positions, i + 1, copy_string(id))?;
                        model.types.push(t);
                        i = next;
                    } else if str_eq(datatype_type.as_str(), "fx:ENUM-DATATYPE-TYPE") {
                        let (t, next) = parse_enum_datatype(events, positions, i + 1, copy_string(id))?;
                        model.types.push(t);
                        i = next;
                    } else {
                        i = i + 1;
                    }
                },
                FibexEvent::ProcessingInfoStart => {
                    let (mut codings, next) = parse_processing_info(events, positions, i + 1, "ProcessingInfo")?;
                    model.codings.append(&mut codings);
                    i = next;
                },
                FibexEvent::Eof => {
                    return Ok(model);
                },
                _ => {
                    i = i + 1;
                },
            }
        }
    }
}

/// The text that `voca_rs::case::capitalize(subject, rest_to_lower)` gives.
pub uninterp spec fn capitalize_text(subject: Seq<char>, rest_to_lower: bool) -> Seq<char>;

/// The text that `voca_rs::case::decapitalize(subject, rest_to_lower)`
/// gives.
pub uninterp spec fn decapitalize_text(subject: Seq<char>, rest_to_lower: bool) -> Seq<char>;

/// `voca_rs::case::capitalize`: the text with its first character in upper
/// case (and, where `rest_to_lower` is set, the rest in lower case). The
/// result is named by `capitalize_text`; the source returns an empty text
/// as it is.
#[verifier::external_body]
fn capitalize(subject: &str, rest_to_lower: bool) -> (r: String)
    ensures
        r@ == capitalize_text(subject@, rest_to_lower),
        subject@.len() == 0 ==> r@.len() == 0,
{
    voca_rs::case::capitalize(subject, rest_to_lower)
}

/// `voca_rs::case::decapitalize`: the text with its first character in
/// lower case (and, where `rest_to_lower` is set, the rest in lower case).
/// The result is named by `decapitalize_text`; the source returns an empty
/// text as it is.
#[verifier::external_body]
fn decapitalize(subject: &str, rest_to_lower: bool) -> (r: String)
    ensures
        r@ == decapitalize_text(subject@, rest_to_lower),
        subject@.len() == 0 ==> r@.len() == 0,
{
    voca_rs::case::decapitalize(subject, rest_to_lower)
}

/// The name of a service or type: its first character in upper case.
pub fn first_to_upper(s: &str) -> (r: String)
    ensures
        r@ == capitalize_text(s@, false),
{
    capitalize(s, false)
}

/// The name of a method or member: its first character in lower case.
pub fn first_to_lower(s: &str) -> (r: String)
    ensures
        r@ == decapitalize_text(s@, false),
{
    decapitalize(s, false)
}

/// The value of the decimal digits `s`.
pub open spec fn digits_value(s: Seq<char>) -> int
    decreases s.len(),
{
    if s.len() == 0 {
        0
    } else {
        digits_value(s.drop_last()) * 10 + (s.last() as int - '0' as int)
    }
}

/// Whether `s` holds only decimal digits.
pub open spec fn all_digits(s: Seq<char>) -> bool {
    forall|i: int| 0 <= i < s.len() ==> '0' <= #[trigger] s[i] <= '9'
}

/// The number that `s` writes as `str::parse` reads an unsigned integer of
/// at most `max`: decimal digits, at least one, after an optional `+`, of a
/// value no greater than `max`.
pub open spec fn unsigned_of(s: Seq<char>, max: u64) -> Option<u64> {
    let d = if s.len() > 0 && s[0] == '+' {
        s.drop_first()
    } else {
        s
    };
    if d.len() > 0 && all_digits(d) && digits_value(d) <= max {
        Some(digits_value(d) as u64)
    } else {
        None
    }
}

/// The number that `s` writes as `str::parse::<usize>` reads it.
pub open spec fn usize_of(s: Seq<char>) -> Option<usize> {
    match unsigned_of(s, usize::MAX as u64) {
        Some(v) => Some(v as usize),
        None => None,
    }
}

/// The value of digits is no negative number.
proof fn lemma_digits_value_nonneg(s: Seq<char>)
    requires
        all_digits(s),
    ensures
        digits_value(s) >= 0,
    decreases s.len(),
{
    if s.len() > 0 {
        assert(all_digits(s.drop_last()));
        lemma_digits_value_nonneg(s.drop_last());
    }
}

/// The number that `s` writes, if it writes one no greater than `max`.
pub fn parse_unsigned(s: &str, max: u64) -> (r: Option<u64>)
    ensures
        r == unsigned_of(s@, max),
        r matches Some(v) ==> v <= max,
{
    let len = s.unicode_len();
    let mut start: usize = 0;
    if len > 0 && s.get_char(0) == '+' {
        start = 1;
    }
    let ghost d = if s@.len() > 0 && s@[0] == '+' {
        s@.drop_first()
    } else {
        s@
    };
    proof {
        assert(d =~= s@.skip(start as int));
    }
    if start >= len {
        proof {
            assert(d.len() == 0);
        }
        return None;
    }
    let mut value: u64 = 0;
    let mut i: usize = start;
    while i < len
        invariant
            start <= i <= len,
            len == s@.len(),
            start < len,
            d =~= s@.skip(start as int),
            d == (if s@.len() > 0 && s@[0] == '+' {
                s@.drop_first()
            } else {
                s@
            }),
            all_digits(s@.subrange(start as int, i as int)),
            value as int == digits_value(s@.subrange(start as int, i as int)),
            value <= max,
        decreases len - i,
    {
        let c = s.get_char(i);
        let ghost prefix = s@.subrange(start as int, i as int);
        let ghost next = s@.subrange(start as int, i as int + 1);
        proof {
            assert(next.drop_last() =~= prefix);
            assert(next.last() == c);
        }
        if c < '0' || c > '9' {
            proof {
                assert(d[i - start] == c);
                assert(!('0' <= d[i - start] <= '9'));
                assert(!all_digits(d));
            }
            return None;
        }
        let digit = (c as u32 - '0' as u32) as u64;
        proof {
            assert(all_digits(next));
            lemma_digits_value_nonneg(prefix);
        }
        let grown = match value.checked_mul(10) {
            Some(v) => v.checked_add(digit),
            None => None,
        };
        match grown {
            Some(w) => {
                if w <= max {
                    value = w;
                } else {
                    proof {
                        lemma_digits_rest_nonneg(s@, start as int, i as int + 1);
                        assert(s@.skip(start as int) =~= d);
                    }
                    return None;
                }
            },
            None => {
                proof {
                    lemma_digits_rest_nonneg(s@, start as int, i as int + 1);
                    assert(s@.skip(start as int) =~= d);
                }
                return None;
            },
        }
        i = i + 1;
    }
    proof {
        assert(s@.subrange(start as int, len as int) =~= d);
    }
    Some(value)
}

/// The number that `s` writes, if it writes one that fits.
pub fn parse_usize(s: &str) -> (r: Option<usize>)
    ensures
        r == usize_of(s@),
{
    match parse_unsigned(s, usize::MAX as u64) {
        Some(v) => Some(v as usize),
        None => None,
    }
}

/// The value of more digits is at least that of fewer.
proof fn lemma_digits_rest_nonneg(s: Seq<char>, start: int, k: int)
    requires
        0 <= start <= k <= s.len(),
        all_digits(s.subrange(start, k)),
    ensures
        all_digits(s.skip(start)) ==> digits_value(s.skip(start)) >= digits_value(s.subrange(start, k)),
    decreases s.len() - k,
{
    if k < s.len() && all_digits(s.skip(start)) {
        assert(all_digits(s.subrange(start, k + 1)));
        lemma_digits_rest_nonneg(s, start, k + 1);
        let next = s.subrange(start, k + 1);
        assert(next.drop_last() =~= s.subrange(start, k));
        lemma_digits_value_nonneg(s.subrange(start, k));
    } else if k == s.len() {
        assert(s.subrange(start, k) =~= s.skip(start));
    }
}

/// The message of an element that the document ends in.
pub open spec fn msg_unexpected_eof(id: Seq<char>) -> Seq<char> {
    "Unexpected EOF at "@ + id
}


/// The message of a value that is missing, at a position of the document.
pub open spec fn msg_missing(position: nat) -> Seq<char> {
    "Missing value at "@ + dec(position)
}

/// The message of a malformed value: `prefix`, the value, and a position
/// of the document.
pub open spec fn msg_invalid(prefix: Seq<char>, value: Seq<char>, position: nat) -> Seq<char> {
    prefix + value + " at "@ + dec(position)
}

/// Types added to a table: those before stay, each added one refers to no
/// type.
pub open spec fn types_extended(new: Seq<FibexTypeInstance>, old: Seq<FibexTypeInstance>) -> bool {
    &&& old.len() <= new.len()
    &&& forall|k: int| 0 <= k < old.len() ==> #[trigger] new[k] == old[k]
    &&& forall|k: int| old.len() <= k < new.len() ==> members_below(#[trigger] new[k], 0)
}


/// Why the model could not be read from the events.
#[derive(Debug)]
pub enum ParseStop {
    /// The model is malformed.
    Failed(FibexError),
    /// The events end before the document does.
    Ended,
}

/// Whether the outcome `r` of reading an element is what the events
/// describe, `s`, with the value of the element taken by `f`.
pub open spec fn outcome<T, V>(r: Result<(T, usize), ParseStop>, s: Option<(V, int)>, f: spec_fn(T) -> V) -> bool {
    match s {
        Some((v, n)) => r matches Ok((t, m)) && f(t) == v && m == n,
        None => r is Err,
    }
}

/// The position in the document after the event at `i` (0 where none is
/// known).
fn position_at(positions: &Vec<usize>, i: usize) -> (r: usize)
    ensures
        r == (if i < positions@.len() {
            positions@[i as int]
        } else {
            0
        }),
{
    if i < positions.len() {
        positions[i]
    } else {
        0
    }
}

/// The message `prefix` followed by a position of the document.
fn at_position(prefix: &str, position: usize) -> (r: String)
    ensures
        r@ == prefix@ + dec(position as nat),
{
    let mut msg = String::from_str(prefix);
    let p = usize_text(position);
    push_str(&mut msg, &p);
    msg
}

/// The error of an element that the document ends in.
fn unexpected_eof(id: &str) -> (r: ParseStop)
    ensures
        r matches ParseStop::Failed(FibexError::Parse(msg)) && msg@ == msg_unexpected_eof(id@),
{
    let mut msg = String::from_str("Unexpected EOF at ");
    msg.append(id);
    ParseStop::Failed(FibexError::Parse(msg))
}

/// The value where it is present, else the error that it is missing at the
/// position after the event at `i`.
fn value_at<T>(positions: &Vec<usize>, i: usize, value: Option<T>) -> (r: Result<T, ParseStop>)
    ensures
        value matches Some(v) ==> r == Ok::<T, ParseStop>(v),
        value is None ==> (r matches Err(ParseStop::Failed(FibexError::Model(msg))) && exists|p: nat|
            msg@ == msg_missing(p)),
{
    match value {
        Some(v) => Ok(v),
        None => {
            let position = position_at(positions, i);
            let msg = at_position("Missing value at ", position);
            proof {
                assert(msg@ == msg_missing(position as nat));
            }
            Err(ParseStop::Failed(FibexError::Model(msg)))
        },
    }
}

/// The message of a malformed value at a position of the document.
fn invalid_at(prefix: &str, value: &str, position: usize) -> (r: String)
    ensures
        r@ == msg_invalid(prefix@, value@, position as nat),
{
    let mut msg = String::from_str(prefix);
    msg.append(value);
    msg.append(" at ");
    let p = usize_text(position);
    push_str(&mut msg, &p);
    msg
}

/// The number that the value of the event at `i` writes, else the error
/// that it is malformed.
fn number_at(positions: &Vec<usize>, i: usize, value: &String) -> (r: Result<usize, ParseStop>)
    ensures
        usize_of(value@) matches Some(n) ==> r == Ok::<usize, ParseStop>(n),
        usize_of(value@) is None ==> (r matches Err(ParseStop::Failed(FibexError::Model(msg))) && exists|p: nat|
            msg@ == msg_invalid("Invalid number "@, value@, p)),
{
    match parse_usize(value.as_str()) {
        Some(n) => Ok(n),
        None => Err(ParseStop::Failed(FibexError::Model(invalid_at("Invalid number ", value.as_str(), position_at(positions, i))))),
    }
}

/// The truth value that the value of the event at `i` writes, else the
/// error that it is malformed.
fn bool_at(positions: &Vec<usize>, i: usize, value: &String) -> (r: Result<bool, ParseStop>)
    ensures
        bool_of(value@) matches Some(b) ==> r == Ok::<bool, ParseStop>(b),
        bool_of(value@) is None ==> (r matches Err(ParseStop::Failed(FibexError::Model(msg))) && exists|p: nat|
            msg@ == msg_invalid("Invalid bool "@, value@, p)),
        bool_of(value@) is None ==> (r matches Err(ParseStop::Failed(FibexError::Model(msg))) && msg@ == msg_invalid(
            "Invalid bool "@,
            value@,
            (if i < positions@.len() {
                positions@[i as int]
            } else {
                0
            }) as nat,
        )),
{
    if str_eq(value.as_str(), "true") {
        return Ok(true);
    }
    if str_eq(value.as_str(), "false") {
        return Ok(false);
    }
    Err(ParseStop::Failed(FibexError::Model(invalid_at("Invalid bool ", value.as_str(), position_at(positions, i)))))
}

/// Reads the utilization of a type, from the event at `start` on: its byte
/// order, the sizes of its length and type fields, and its lengths in bits.
fn parse_type_utilization(events: &Vec<FibexEvent>, positions: &Vec<usize>, start: usize, id: &str)
    -> (r: Result<(Vec<FibexTypeAttribute>, usize), ParseStop>)
    ensures
        outcome(r, utilization_run(events@, start as int, seq![]), |a: Vec<FibexTypeAttribute>| attrs_view(a@)),
        r matches Ok((a, n)) ==> start < n <= events@.len()
            && forall|j: int| 0 <= j < a@.len() ==> !(#[trigger] a@[j] is ArrayDeclaration),
{
    let mut attributes: Vec<FibexTypeAttribute> = Vec::new();
    let mut i: usize = start;
    proof {
        assert(attrs_view(attributes@) =~= seq![]);
    }
    loop
        invariant
            start <= i,
            utilization_run(events@, start as int, seq![]) == utilization_run(events@, i as int, attrs_view(attributes@)),
            forall|j: int| 0 <= j < attributes@.len() ==> !(#[trigger] attributes@[j] is ArrayDeclaration),
        decreases events@.len() - i,
    {
        if i >= events.len() {
            return Err(ParseStop::Ended);
        }
        match &events[i] {
            FibexEvent::HighLowByteOrder(value) => {
                let b = bool_at(positions, i, value)?;
                attributes.push(FibexTypeAttribute::HighLowByteOrder(b));
            },
            FibexEvent::LengthField(value) => {
                let n = number_at(positions, i, value)?;
                attributes.push(FibexTypeAttribute::LengthField(n));
            },
            FibexEvent::ArrayLengthField(value) => {
                let n = number_at(positions, i, value)?;
                attributes.push(FibexTypeAttribute::ArrayLengthField(n));
            },
            FibexEvent::TypeLengthField(value) => {
                let n = number_at(positions, i, value)?;
                attributes.push(FibexTypeAttribute::TypeLengthField(n));
            },
            FibexEvent::BitLength(value) => {
                let n = number_at(positions, i, value)?;
                attributes.push(FibexTypeAttribute::BitLength(n));
            },
            FibexEvent::MinBitLength(value) => {
                let n = number_at(positions, i, value)?;
                attributes.push(FibexTypeAttribute::MinBitLength(n));
            },
            FibexEvent::MaxBitLength(value) => {
                let n = number_at(positions, i, value)?;
                attributes.push(FibexTypeAttribute::MaxBitLength(n));
            },
            FibexEvent::UtilizationEnd => {
                return Ok((attributes, i + 1));
            },
            FibexEvent::Eof => {
                return Err(unexpected_eof(id));
            },
            _ => {},
        }
        i = i + 1;
    }
}

/// Reads an array declaration, from the event at `start` on: its
/// dimensions, each with its number and its minimum and maximum size (0
/// where none is given).
fn parse_array_declaration(events: &Vec<FibexEvent>, positions: &Vec<usize>, start: usize, id: &str)
    -> (r: Result<(FibexTypeAttribute, usize), ParseStop>)
    ensures
        outcome(r, array_run(events@, start as int, array_start()), |a: FibexTypeAttribute| a@),
        r matches Ok((a, n)) ==> start < n <= events@.len() && a is ArrayDeclaration,
{
    let mut dimensions: Vec<FibexArrayDimension> = Vec::new();
    let mut index: Option<usize> = None;
    let mut min: Option<usize> = None;
    let mut max: Option<usize> = None;
    let mut i: usize = start;
    proof {
        assert(dimensions@ =~= seq![]);
    }
    loop
        invariant
            start <= i,
            array_run(events@, start as int, array_start()) == array_run(
                events@,
                i as int,
                ArrayState { dims: dimensions@, index, min, max },
            ),
        decreases events@.len() - i,
    {
        if i >= events.len() {
            return Err(ParseStop::Ended);
        }
        match &events[i] {
            FibexEvent::ArrayDimensionStart => {
                index = None;
                min = None;
                max = None;
            },
            FibexEvent::ArrayDimension(value) => {
                index = Some(number_at(positions, i, value)?);
            },
            FibexEvent::MinimumSize(value) => {
                min = Some(number_at(positions, i, value)?);
            },
            FibexEvent::MaximumSize(value) => {
                max = Some(number_at(positions, i, value)?);
            },
            FibexEvent::ArrayDimensionEnd => {
                let n = value_at(positions, i, index)?;
                dimensions.push(
                    FibexArrayDimension {
                        index: n,
                        min: match min {
                            Some(v) => v,
                            None => 0,
                        },
                        max: match max {
                            Some(v) => v,
                            None => 0,
                        },
                    },
                );
            },
            FibexEvent::ArrayDeclarationEnd => {
                return Ok((FibexTypeAttribute::ArrayDeclaration(dimensions), i + 1));
            },
            FibexEvent::Eof => {
                return Err(unexpected_eof(id));
            },
            _ => {},
        }
        i = i + 1;
    }
}

/// Reads an item of an enumeration, from the event at `start` on: its name
/// and value.
fn parse_enum_element(events: &Vec<FibexEvent>, positions: &Vec<usize>, start: usize, id: &str)
    -> (r: Result<(FibexEnumDeclaration, usize), ParseStop>)
    ensures
        outcome(r, enum_item_run(events@, start as int, None, None), |d: FibexEnumDeclaration| d@),
        r matches Ok((d, n)) ==> start < n <= events@.len(),
{
    let mut element_name: Option<String> = None;
    let mut element_value: Option<String> = None;
    let mut i: usize = start;
    loop
        invariant
            start <= i,
            enum_item_run(events@, start as int, None, None) == enum_item_run(
                events@,
                i as int,
                opt_text_view(element_name),
                opt_text_view(element_value),
            ),
        decreases events@.len() - i,
    {
        if i >= events.len() {
            return Err(ParseStop::Ended);
        }
        match &events[i] {
            FibexEvent::EnumName(name) => {
                element_name = Some(copy_string(name));
            },
            FibexEvent::EnumValue(value) => {
                element_value = Some(copy_string(value));
            },
            FibexEvent::EnumEnd => {
                let name = value_at(positions, i, element_name)?;
                let value = value_at(positions, i, element_value)?;
                return Ok((FibexEnumDeclaration { name, value }, i + 1));
            },
            FibexEvent::Eof => {
                return Err(unexpected_eof(id));
            },
            _ => {},
        }
        i = i + 1;
    }
}

/// Whether a text is empty.
fn is_empty_text(s: &String) -> (r: bool)
    ensures
        r == (s@.len() == 0),
{
    s.as_str().unicode_len() == 0
}

/// The attributes of a coded type: those of its texts that are not empty.
fn coded_type_attributes(base_type: &String, category: &String, encoding: &String, bom: &String, termination: &String)
    -> (r: Vec<FibexCodingAttribute>)
    ensures
        coding_attrs_view(r@) == coded_type_attrs(base_type@, category@, encoding@, bom@, termination@),
{
    let mut attributes: Vec<FibexCodingAttribute> = Vec::new();
    proof {
        assert(coding_attrs_view(attributes@) =~= seq![]);
    }
    if !is_empty_text(base_type) {
        attributes.push(FibexCodingAttribute::BaseType(copy_string(base_type)));
    }
    if !is_empty_text(category) {
        attributes.push(FibexCodingAttribute::Category(copy_string(category)));
    }
    if !is_empty_text(encoding) {
        attributes.push(FibexCodingAttribute::Encoding(copy_string(encoding)));
    }
    if !is_empty_text(bom) {
        attributes.push(FibexCodingAttribute::Bom(copy_string(bom)));
    }
    if !is_empty_text(termination) {
        attributes.push(FibexCodingAttribute::Termination(copy_string(termination)));
    }
    attributes
}

/// Reads a coding, from the event at `start` on: its name, its coded type
/// and its lengths.
fn parse_coding_info(events: &Vec<FibexEvent>, positions: &Vec<usize>, start: usize, id: String)
    -> (r: Result<(FibexTypeCoding, usize), ParseStop>)
    ensures
        outcome(r, coding_run(events@, start as int, id@, None, seq![]), |c: FibexTypeCoding| c@),
        r matches Ok((c, n)) ==> start < n <= events@.len(),
{
    let mut coding_name: Option<String> = None;
    let mut attributes: Vec<FibexCodingAttribute> = Vec::new();
    let mut i: usize = start;
    proof {
        assert(coding_attrs_view(attributes@) =~= seq![]);
    }
    loop
        invariant
            start <= i,
            coding_run(events@, start as int, id@, None, seq![]) == coding_run(
                events@,
                i as int,
                id@,
                opt_text_view(coding_name),
                coding_attrs_view(attributes@),
            ),
        decreases events@.len() - i,
    {
        if i >= events.len() {
            return Err(ParseStop::Ended);
        }
        match &events[i] {
            FibexEvent::ShortName(name) => {
                coding_name = Some(copy_string(name));
            },
            FibexEvent::CodedType(base_type, category, encoding, bom, termination) => {
                let mut coded = coded_type_attributes(base_type, category, encoding, bom, termination);
                attributes.append(&mut coded);
            },
            FibexEvent::MinLength(value) => {
                if !is_empty_text(value) {
                    let n = number_at(positions, i, value)?;
                    attributes.push(FibexCodingAttribute::MinLength(n));
                }
            },
            FibexEvent::MaxLength(value) => {
                if !is_empty_text(value) {
                    let n = number_at(positions, i, value)?;
                    attributes.push(FibexCodingAttribute::MaxLength(n));
                }
            },
            FibexEvent::BitLength(value) => {
                if !is_empty_text(value) {
                    let n = number_at(positions, i, value)?;
                    attributes.push(FibexCodingAttribute::BitLength(n));
                }
            },
            FibexEvent::CodingInfoEnd => {
                let name = value_at(positions, i, coding_name)?;
                return Ok((FibexTypeCoding { id, name, attributes }, i + 1));
            },
            FibexEvent::Eof => {
                return Err(unexpected_eof(id.as_str()));
            },
            _ => {},
        }
        i = i + 1;
    }
}

/// Reads the processing information, from the event at `start` on: its
/// codings.
fn parse_processing_info(events: &Vec<FibexEvent>, positions: &Vec<usize>, start: usize, id: &str)
    -> (r: Result<(Vec<FibexTypeCoding>, usize), ParseStop>)
    ensures
        outcome(r, processing_run(events@, start as int, seq![]), |c: Vec<FibexTypeCoding>| codings_view(c@)),
        r matches Ok((c, n)) ==> start < n <= events@.len(),
{
    let mut codings: Vec<FibexTypeCoding> = Vec::new();
    let mut i: usize = start;
    proof {
        assert(codings_view(codings@) =~= seq![]);
    }
    loop
        invariant
            start <= i,
            processing_run(events@, start as int, seq![]) == processing_run(events@, i as int, codings_view(codings@)),
        decreases events@.len() - i,
    {
        if i >= events.len() {
            return Err(ParseStop::Ended);
        }
        match &events[i] {
            FibexEvent::CodingInfoStart(coding_id) => {
                let (coding, next) = parse_coding_info(events, positions, i + 1, copy_string(coding_id))?;
                codings.push(coding);
                i = next;
            },
            FibexEvent::ProcessingInfoEnd => {
                return Ok((codings, i + 1));
            },
            FibexEvent::Eof => {
                return Err(unexpected_eof(id));
            },
            _ => {
                i = i + 1;
            },
        }
    }
}

/// Reads an enumeration data type, from the event at `start` on: its name,
/// coding and items.
fn parse_enum_datatype(events: &Vec<FibexEvent>, positions: &Vec<usize>, start: usize, id: String)
    -> (r: Result<(FibexTypeInstance, usize), ParseStop>)
    ensures
        outcome(r, enum_type_run(events@, start as int, id@, None, None, seq![]), |t: FibexTypeInstance| t@),
        r matches Ok((t, n)) ==> start < n <= events@.len() && members_below(t, 0),
{
    let mut enum_name: Option<String> = None;
    let mut enum_coding: Option<String> = None;
    let mut variants: Vec<FibexEnumDeclaration> = Vec::new();
    let mut i: usize = start;
    proof {
        assert(items_view(variants@) =~= seq![]);
    }
    loop
        invariant
            start <= i,
            enum_type_run(events@, start as int, id@, None, None, seq![]) == enum_type_run(
                events@,
                i as int,
                id@,
                opt_text_view(enum_name),
                opt_text_view(enum_coding),
                items_view(variants@),
            ),
        decreases events@.len() - i,
    {
        if i >= events.len() {
            return Err(ParseStop::Ended);
        }
        match &events[i] {
            FibexEvent::ShortName(name) => {
                enum_name = Some(copy_string(name));
                i = i + 1;
            },
            FibexEvent::CodingRef(id_ref) => {
                enum_coding = Some(copy_string(id_ref));
                i = i + 1;
            },
            FibexEvent::DatatypeEnd => {
                let name = value_at(positions, i, enum_name)?;
                let coding = value_at(positions, i, enum_coding)?;
                let t = FibexTypeInstance {
                    id,
                    name: first_to_upper(name.as_str()),
                    datatype: FibexDatatype::Enum(FibexEnum { primitive: FibexPrimitive::Unknown, variants }),
                    coding_ref: Some(coding),
                };
                return Ok((t, i + 1));
            },
            FibexEvent::EnumStart => {
                let (variant, next) = parse_enum_element(events, positions, i + 1, id.as_str())?;
                variants.push(variant);
                i = next;
            },
            FibexEvent::Eof => {
                return Err(unexpected_eof(id.as_str()));
            },
            _ => {
                i = i + 1;
            },
        }
    }
}

/// Reads a member or parameter, from the event at `start` on: its name, the
/// identifier of its type, and its array declarations, utilizations and
/// positions.
fn parse_datatype_member(events: &Vec<FibexEvent>, positions: &Vec<usize>, start: usize, id: String)
    -> (r: Result<(FibexTypeDeclaration, usize), ParseStop>)
    ensures
        outcome(r, member_at(events@, start as int, id@), |d: FibexTypeDeclaration| d@),
        r matches Ok((d, n)) ==> start < n <= events@.len() && d.type_ref is None,
{
    let mut member_name: Option<String> = None;
    let mut member_type: Option<String> = None;
    let mut attributes: Vec<FibexTypeAttribute> = Vec::new();
    let mut i: usize = start;
    proof {
        assert(attrs_view(attributes@) =~= seq![]);
    }
    loop
        invariant
            start <= i,
            member_at(events@, start as int, id@) == member_run(
                events@,
                i as int,
                id@,
                opt_text_view(member_name),
                opt_text_view(member_type),
                attrs_view(attributes@),
            ),
        decreases events@.len() - i,
    {
        if i >= events.len() {
            return Err(ParseStop::Ended);
        }
        match &events[i] {
            FibexEvent::ShortName(name) => {
                member_name = Some(copy_string(name));
                i = i + 1;
            },
            FibexEvent::DatatypeRef(id_ref) => {
                member_type = Some(copy_string(id_ref));
                i = i + 1;
            },
            FibexEvent::ArrayDeclarationStart => {
                let (a, next) = parse_array_declaration(events, positions, i + 1, id.as_str())?;
                attributes.push(a);
                i = next;
            },
            FibexEvent::UtilizationStart => {
                let (mut u, next) = parse_type_utilization(events, positions, i + 1, id.as_str())?;
                attributes.append(&mut u);
                i = next;
            },
            FibexEvent::Position(value) => {
                let n = number_at(positions, i, value)?;
                attributes.push(FibexTypeAttribute::Position(n));
                i = i + 1;
            },
            FibexEvent::DatatypeMemberEnd => {
                let name = value_at(positions, i, member_name)?;
                let id_ref = value_at(positions, i, member_type)?;
                let d = FibexTypeDeclaration {
                    id,
                    name: first_to_lower(name.as_str()),
                    id_ref,
                    type_ref: None,
                    attributes,
                };
                return Ok((d, i + 1));
            },
            FibexEvent::Eof => {
                return Err(unexpected_eof(id.as_str()));
            },
            _ => {
                i = i + 1;
            },
        }
    }
}

/// The position of a member: that of its first position attribute, 0
/// where it has none.
fn decl_position(d: &FibexTypeDeclaration) -> (r: usize)
    ensures
        r == position_in(attrs_view(d.attributes@)),
{
    let ghost av = attrs_view(d.attributes@);
    let mut i: usize = 0;
    proof {
        assert(av.skip(0) =~= av);
    }
    while i < d.attributes.len()
        invariant
            i <= d.attributes@.len(),
            av == attrs_view(d.attributes@),
            position_in(av) == position_in(av.skip(i as int)),
        decreases d.attributes@.len() - i,
    {
        proof {
            assert(av.skip(i as int).drop_first() =~= av.skip(i as int + 1));
            assert(av.skip(i as int)[0] == av[i as int]);
        }
        match &d.attributes[i] {
            FibexTypeAttribute::Position(n) => {
                return *n;
            },
            _ => {},
        }
        i = i + 1;
    }
    proof {
        assert(av.skip(i as int) =~= seq![]);
    }
    0
}

/// The members ordered by their positions, members of one position in the
/// order they came in.
fn sort_by_position(members: Vec<FibexTypeDeclaration>) -> (r: Vec<FibexTypeDeclaration>)
    ensures
        decls_view(r@) == sorted_by_position(decls_view(members@)),
        (forall|k: int| 0 <= k < members@.len() ==> (#[trigger] members@[k]).type_ref is None) ==> forall|k: int|
            0 <= k < r@.len() ==> (#[trigger] r@[k]).type_ref is None,
{
    let ghost all = decls_view(members@);
    let ghost none = forall|k: int| 0 <= k < members@.len() ==> (#[trigger] members@[k]).type_ref is None;
    let mut rest = members;
    let mut out: Vec<FibexTypeDeclaration> = Vec::new();
    proof {
        assert(all.take(0) =~= seq![]);
        assert(decls_view(out@) =~= seq![]);
        assert(all.skip(0) =~= all);
    }
    while rest.len() > 0
        invariant
            all.len() == out@.len() + rest@.len(),
            decls_view(out@) == sorted_by_position(all.take(out@.len() as int)),
            decls_view(rest@) == all.skip(out@.len() as int),
            none ==> forall|k: int| 0 <= k < rest@.len() ==> (#[trigger] rest@[k]).type_ref is None,
            none ==> forall|k: int| 0 <= k < out@.len() ==> (#[trigger] out@[k]).type_ref is None,
        decreases rest@.len(),
    {
        let ghost k = out@.len() as int;
        let ghost old_rest = rest@;
        let x = rest.remove(0);
        proof {
            assert(x@ == decls_view(old_rest)[0]);
            assert(x@ == all[k]);
            assert forall|m: int| 0 <= m < rest@.len() implies #[trigger] rest@[m] == old_rest[m + 1] by {}
            assert forall|m: int| 0 <= m < rest@.len() implies #[trigger] decls_view(rest@)[m] == all.skip(k + 1)[m] by {
                assert(rest@[m] == old_rest[m + 1]);
                assert(decls_view(old_rest)[m + 1] == all.skip(k)[m + 1]);
            }
            assert(decls_view(rest@) =~= all.skip(k + 1));
            if none {
                assert(old_rest[0].type_ref is None);
                assert forall|m: int| 0 <= m < rest@.len() implies (#[trigger] rest@[m]).type_ref is None by {
                    assert(rest@[m] == old_rest[m + 1]);
                }
            }
        }
        let px = decl_position(&x);
        let ghost dv = decls_view(out@);
        let mut j: usize = out.len();
        proof {
            assert(dv.take(j as int) =~= dv);
            assert(dv.skip(j as int) =~= seq![]);
            assert(insert_by_position(dv, x@) + seq![] =~= insert_by_position(dv, x@));
        }
        loop
            invariant
                j <= out@.len(),
                dv == decls_view(out@),
                px == position_in(x@.attributes),
                insert_by_position(dv, x@) == insert_by_position(dv.take(j as int), x@) + dv.skip(j as int),
            ensures
                j <= out@.len(),
                insert_by_position(dv, x@) == insert_by_position(dv.take(j as int), x@) + dv.skip(j as int),
                j == 0 || position_in(dv[j - 1].attributes) <= px,
            decreases j,
        {
            if j == 0 {
                break;
            }
            let pj = decl_position(&out[j - 1]);
            if pj <= px {
                break;
            }
            proof {
                let t = dv.take(j as int);
                assert(t.drop_last() =~= dv.take(j as int - 1));
                assert(t.last() == dv[j - 1]);
                assert(dv.skip(j as int - 1) =~= seq![dv[j - 1]] + dv.skip(j as int));
                assert(insert_by_position(dv.take(j as int - 1), x@).push(dv[j - 1]) + dv.skip(j as int)
                    =~= insert_by_position(dv.take(j as int - 1), x@) + dv.skip(j as int - 1));
            }
            j = j - 1;
        }
        proof {
            if j > 0 {
                assert(dv.take(j as int).last() == dv[j - 1]);
            } else {
                assert(dv.take(0) =~= seq![]);
            }
        }
        let ghost old_out = out@;
        out.insert(j, x);
        proof {
            assert(decls_view(out@) =~= dv.take(j as int).push(x@) + dv.skip(j as int));
            assert(all.take(k + 1).drop_last() =~= all.take(k));
            assert(all.take(k + 1).last() == all[k]);
            if none {
                assert forall|m: int| 0 <= m < out@.len() implies (#[trigger] out@[m]).type_ref is None by {
                    if m < j {
                        assert(out@[m] == old_out[m]);
                    } else if m > j {
                        assert(out@[m] == old_out[m - 1]);
                    }
                }
            }
        }
    }
    proof {
        assert(all.take(all.len() as int) =~= all);
    }
    out
}

/// Reads a common data type, from the event at `start` on: its name, which
/// names its primitive type where it is one, and its coding.
fn parse_common_datatype(events: &Vec<FibexEvent>, positions: &Vec<usize>, start: usize, id: String)
    -> (r: Result<(FibexTypeInstance, usize), ParseStop>)
    ensures
        outcome(
            r,
            common_type_run(events@, start as int, id@, None, DatatypeV::Unknown, None),
            |t: FibexTypeInstance| t@,
        ),
        r matches Ok((t, n)) ==> start < n <= events@.len() && members_below(t, 0),
{
    let mut datatype_name: Option<String> = None;
    let mut datatype_type = FibexDatatype::Unknown;
    let mut datatype_coding: Option<String> = None;
    let mut i: usize = start;
    loop
        invariant
            start <= i,
            datatype_type is Unknown || datatype_type is Primitive,
            common_type_run(events@, start as int, id@, None, DatatypeV::Unknown, None) == common_type_run(
                events@,
                i as int,
                id@,
                opt_text_view(datatype_name),
                datatype_type@,
                opt_text_view(datatype_coding),
            ),
        decreases events@.len() - i,
    {
        if i >= events.len() {
            return Err(ParseStop::Ended);
        }
        match &events[i] {
            FibexEvent::ShortName(name) => {
                let primitive = FibexPrimitive::from(name.as_str());
                if primitive != FibexPrimitive::Unknown {
                    datatype_type = FibexDatatype::Primitive(primitive);
                }
                datatype_name = Some(copy_string(name));
            },
            FibexEvent::CodingRef(id_ref) => {
                datatype_coding = Some(copy_string(id_ref));
            },
            FibexEvent::DatatypeEnd => {
                let name = value_at(positions, i, datatype_name)?;
                let t = FibexTypeInstance {
                    id,
                    name: first_to_upper(name.as_str()),
                    datatype: datatype_type,
                    coding_ref: datatype_coding,
                };
                return Ok((t, i + 1));
            },
            FibexEvent::Eof => {
                return Err(unexpected_eof(id.as_str()));
            },
            _ => {},
        }
        i = i + 1;
    }
}

/// Reads a complex data type, from the event at `start` on: a structure (or
/// type definition) with its members ordered by their positions.
fn parse_complex_datatype(events: &Vec<FibexEvent>, positions: &Vec<usize>, start: usize, id: String)
    -> (r: Result<(FibexTypeInstance, usize), ParseStop>)
    ensures
        outcome(r, complex_type_run(events@, start as int, id@, None, None), |t: FibexTypeInstance| t@),
        r matches Ok((t, n)) ==> start < n <= events@.len() && members_below(t, 0),
{
    let mut datatype_name: Option<String> = None;
    let mut members: Option<Vec<FibexTypeDeclaration>> = None;
    let mut i: usize = start;
    loop
        invariant
            start <= i,
            complex_type_run(events@, start as int, id@, None, None) == complex_type_run(
                events@,
                i as int,
                id@,
                opt_text_view(datatype_name),
                opt_decls_view(members),
            ),
            members matches Some(v) ==> forall|k: int| 0 <= k < v@.len() ==> (#[trigger] v@[k]).type_ref is None,
        decreases events@.len() - i,
    {
        if i >= events.len() {
            return Err(ParseStop::Ended);
        }
        match &events[i] {
            FibexEvent::ShortName(name) => {
                datatype_name = Some(copy_string(name));
                i = i + 1;
            },
            FibexEvent::DatatypeClass(datatype_class) => {
                if str_eq(datatype_class.as_str(), "STRUCTURE") || str_eq(datatype_class.as_str(), "TYPEDEF") {
                    let empty: Vec<FibexTypeDeclaration> = Vec::new();
                    proof {
                        assert(decls_view(empty@) =~= seq![]);
                    }
                    members = Some(empty);
                }
                i = i + 1;
            },
            FibexEvent::DatatypeMemberStart(member_id) => {
                if members.is_some() {
                    let (member, next) = parse_datatype_member(events, positions, i + 1, copy_string(member_id))?;
                    let mut v = match members {
                        Some(v) => v,
                        None => Vec::new(),
                    };
                    v.push(member);
                    members = Some(v);
                    i = next;
                } else {
                    i = i + 1;
                }
            },
            FibexEvent::DatatypeEnd => {
                let datatype = match members {
                    Some(v) => FibexDatatype::Struct(FibexStruct { members: sort_by_position(v) }),
                    None => FibexDatatype::Unknown,
                };
                let name = value_at(positions, i, datatype_name)?;
                let t = FibexTypeInstance {
                    id,
                    name: first_to_upper(name.as_str()),
                    datatype,
                    coding_ref: None,
                };
                return Ok((t, i + 1));
            },
            FibexEvent::Eof => {
                return Err(unexpected_eof(id.as_str()));
            },
            _ => {
                i = i + 1;
            },
        }
    }
}

/// The identifier `id` followed by `/` and `suffix`.
fn child_id(id: &str, suffix: &str) -> (r: String)
    ensures
        r@ == id@ + "/"@ + suffix@,
{
    let mut s = String::from_str(id);
    s.append("/");
    s.append(suffix);
    s
}

/// Reads the parameters of a method, from the event at `start` on, into a
/// structure named after the method and `parameter`, its members ordered
/// by their positions.
fn parse_method_parameter(events: &Vec<FibexEvent>, positions: &Vec<usize>, start: usize, id: &str, parameter: &str)
    -> (r: Result<(FibexTypeInstance, usize), ParseStop>)
    ensures
        outcome(r, parameter_run(events@, start as int, id@ + "/"@ + parameter@, seq![]), |t: FibexTypeInstance| t@),
        r matches Ok((t, n)) ==> start < n <= events@.len() && members_below(t, 0) && t.id@ == id@ + "/"@ + parameter@,
{
    let mut members: Vec<FibexTypeDeclaration> = Vec::new();
    let mut i: usize = start;
    let ghost pid = id@ + "/"@ + parameter@;
    proof {
        assert(decls_view(members@) =~= seq![]);
    }
    loop
        invariant
            start <= i,
            pid == id@ + "/"@ + parameter@,
            parameter_run(events@, start as int, pid, seq![]) == parameter_run(events@, i as int, pid, decls_view(members@)),
            forall|k: int| 0 <= k < members@.len() ==> (#[trigger] members@[k]).type_ref is None,
        decreases events@.len() - i,
    {
        if i >= events.len() {
            return Err(ParseStop::Ended);
        }
        match &events[i] {
            FibexEvent::DatatypeMemberStart(member_id) => {
                let (member, next) = parse_datatype_member(events, positions, i + 1, copy_string(member_id))?;
                members.push(member);
                i = next;
            },
            FibexEvent::MethodParamEnd => {
                let sorted = sort_by_position(members);
                let t = FibexTypeInstance {
                    id: child_id(id, parameter),
                    name: String::new(),
                    datatype: FibexDatatype::Struct(FibexStruct { members: sorted }),
                    coding_ref: None,
                };
                proof {
                    assert(t.name@ =~= seq![]);
                }
                return Ok((t, i + 1));
            },
            FibexEvent::Eof => {
                return Err(unexpected_eof(id));
            },
            _ => {
                i = i + 1;
            },
        }
    }
}

/// The declaration of the request or response of a method, named
/// `id/suffix`, that refers to the type at `type_ref`.
fn parameter_declaration(id: &str, suffix: &str, id_ref: String, type_ref: usize) -> (r: FibexTypeDeclaration)
    ensures
        r@ == (DeclV { id: id@ + "/"@ + suffix@, name: seq![], id_ref: id_ref@, type_ref: Some(type_ref), attributes: seq![] }),
{
    let d = FibexTypeDeclaration {
        id: child_id(id, suffix),
        name: String::new(),
        id_ref,
        type_ref: Some(type_ref),
        attributes: Vec::new(),
    };
    proof {
        assert(d.name@ =~= seq![]);
        assert(attrs_view(d.attributes@) =~= seq![]);
    }
    d
}

/// Reads a method or event, from the event at `start` on: its name and id,
/// and the structures of its input and return parameters, which are added
/// to `types`.
fn parse_service_method(
    events: &Vec<FibexEvent>,
    positions: &Vec<usize>,
    start: usize,
    id: String,
    types: &mut Vec<FibexTypeInstance>,
) -> (r: Result<(FibexServiceMethod, usize), ParseStop>)
    ensures
        match method_run(events@, start as int, id@, method_start(), types_view(old(types)@)) {
            Some((m, ts, n)) => r matches Ok((x, k)) && x@ == m && k == n && types_view(final(types)@) == ts,
            None => r is Err,
        },
        types_extended(final(types)@, old(types)@),
        r matches Ok((m, n)) ==> start < n <= events@.len() && decl_below(m.request, final(types)@.len())
            && decl_below(m.response, final(types)@.len()),
{
    let mut method_name: Option<String> = None;
    let mut method_id: Option<usize> = None;
    let mut request: Option<FibexTypeDeclaration> = None;
    let mut response: Option<FibexTypeDeclaration> = None;
    let mut i: usize = start;
    loop
        invariant
            start <= i,
            method_run(events@, start as int, id@, method_start(), types_view(old(types)@)) == method_run(
                events@,
                i as int,
                id@,
                MethodState {
                    name: opt_text_view(method_name),
                    method_id,
                    request: opt_decl_view(request),
                    response: opt_decl_view(response),
                },
                types_view(types@),
            ),
            types_extended(types@, old(types)@),
            decl_below(request, types@.len()),
            decl_below(response, types@.len()),
        decreases events@.len() - i,
    {
        if i >= events.len() {
            return Err(ParseStop::Ended);
        }
        match &events[i] {
            FibexEvent::ShortName(name) => {
                method_name = Some(copy_string(name));
                i = i + 1;
            },
            FibexEvent::MethodIdentifier(identifier) => {
                method_id = Some(number_at(positions, i, identifier)?);
                i = i + 1;
            },
            FibexEvent::MethodInputStart => {
                let (parameter, next) = parse_method_parameter(events, positions, i + 1, id.as_str(), "Request")?;
                let id_ref = copy_string(&parameter.id);
                let k = types.len();
                let ghost tv = parameter@;
                types.push(parameter);
                request = Some(parameter_declaration(id.as_str(), "Request", id_ref, k));
                proof {
                    assert(opt_decl_view(request) == Some(parameter_decl(id@, "Request"@, tv, k as int)));
                }
                i = next;
            },
            FibexEvent::MethodOutputStart => {
                let (parameter, next) = parse_method_parameter(events, positions, i + 1, id.as_str(), "Response")?;
                let id_ref = copy_string(&parameter.id);
                let k = types.len();
                let ghost tv = parameter@;
                types.push(parameter);
                response = Some(parameter_declaration(id.as_str(), "Response", id_ref, k));
                proof {
                    assert(opt_decl_view(response) == Some(parameter_decl(id@, "Response"@, tv, k as int)));
                }
                i = next;
            },
            FibexEvent::MethodEnd => {
                let name = value_at(positions, i, method_name)?;
                let method_id = value_at(positions, i, method_id)?;
                let m = FibexServiceMethod { id, name: first_to_lower(name.as_str()), method_id, request, response };
                return Ok((m, i + 1));
            },
            FibexEvent::Eof => {
                return Err(unexpected_eof(id.as_str()));
            },
            _ => {
                i = i + 1;
            },
        }
    }
}

/// The declaration of the value of the accessor `accessor` of the field
/// `id`.
fn accessor_declaration(id: &str, accessor: &str, type_ref: usize) -> (r: FibexTypeDeclaration)
    ensures
        r@ == accessor_decl(id@, accessor@, type_ref),
{
    let d = FibexTypeDeclaration {
        id: child_id(id, accessor),
        name: String::new(),
        id_ref: String::from_str(id),
        type_ref: Some(type_ref),
        attributes: Vec::new(),
    };
    proof {
        assert(d.name@ =~= seq![]);
        assert(attrs_view(d.attributes@) =~= seq![]);
    }
    d
}

/// Reads an accessor of a field, from the event at `start` on: its method
/// id; the accessor takes the type of the field as its request, its
/// response, or both.
fn parse_field_accessor(
    events: &Vec<FibexEvent>,
    positions: &Vec<usize>,
    start: usize,
    id: &str,
    accessor: &str,
    name: String,
    type_ref: usize,
    has_request: bool,
    has_response: bool,
) -> (r: Result<(FibexServiceMethod, usize), ParseStop>)
    ensures
        outcome(
            r,
            accessor_run(events@, start as int, id@, accessor@, name@, type_ref, has_request, has_response, None),
            |m: FibexServiceMethod| m@,
        ),
        r matches Ok((m, n)) ==> start < n <= events@.len() && (m.request matches Some(d) ==> d.type_ref == Some(type_ref))
            && (m.response matches Some(d) ==> d.type_ref == Some(type_ref)),
{
    let mut method_id: Option<usize> = None;
    let mut i: usize = start;
    loop
        invariant
            start <= i,
            accessor_run(events@, start as int, id@, accessor@, name@, type_ref, has_request, has_response, None)
                == accessor_run(events@, i as int, id@, accessor@, name@, type_ref, has_request, has_response, method_id),
        decreases events@.len() - i,
    {
        if i >= events.len() {
            return Err(ParseStop::Ended);
        }
        match &events[i] {
            FibexEvent::MethodIdentifier(identifier) => {
                method_id = Some(number_at(positions, i, identifier)?);
            },
            FibexEvent::NotificationIdentifier(identifier) => {
                method_id = Some(number_at(positions, i, identifier)?);
            },
            FibexEvent::FieldAccessorEnd => {
                let method_id = value_at(positions, i, method_id)?;
                let request = if has_request {
                    Some(accessor_declaration(id, accessor, type_ref))
                } else {
                    None
                };
                let response = if has_response {
                    Some(accessor_declaration(id, accessor, type_ref))
                } else {
                    None
                };
                let m = FibexServiceMethod { id: child_id(id, accessor), name, method_id, request, response };
                return Ok((m, i + 1));
            },
            FibexEvent::Eof => {
                return Err(unexpected_eof(id));
            },
            _ => {},
        }
        i = i + 1;
    }
}

/// The name of a getter or setter: `prefix` followed by the name of the
/// field with its first character in upper case.
fn accessor_name(prefix: &str, field: &String) -> (r: String)
    ensures
        r@ == prefix@ + capitalize_text(field@, false),
{
    let mut s = String::from_str(prefix);
    let upper = first_to_upper(field.as_str());
    push_str(&mut s, &upper);
    s
}

/// The value that an option holds, else the error that it is missing at the
/// position after the event at `i`.
fn ref_value<'a, T>(positions: &Vec<usize>, i: usize, value: Option<&'a T>) -> (r: Result<&'a T, ParseStop>)
    ensures
        value matches Some(v) ==> r matches Ok(x) && x == v,
        value is None ==> (r matches Err(ParseStop::Failed(FibexError::Model(msg))) && exists|p: nat|
            msg@ == msg_missing(p)),
{
    match value {
        Some(v) => Ok(v),
        None => {
            let position = position_at(positions, i);
            let msg = at_position("Missing value at ", position);
            proof {
                assert(msg@ == msg_missing(position as nat));
            }
            Err(ParseStop::Failed(FibexError::Model(msg)))
        },
    }
}

/// The name and type identifier of the member of a field, if given.
spec fn opt_member_view(m: Option<(String, String)>) -> Option<(Seq<char>, Seq<char>)> {
    match m {
        Some((n, r)) => Some((n@, r@)),
        None => None,
    }
}

/// Reads a field, from the event at `start` on: its name, its type and
/// utilization, and its getter, setter and notifier. The type of the field,
/// a structure of one member, is added to `types`, and the accessors refer
/// to it.
fn parse_service_field(
    events: &Vec<FibexEvent>,
    positions: &Vec<usize>,
    start: usize,
    id: String,
    types: &mut Vec<FibexTypeInstance>,
) -> (r: Result<(Vec<FibexServiceMethod>, usize), ParseStop>)
    ensures
        match field_run(events@, start as int, id@, old(types)@.len() as usize, field_start()) {
            Some((ms, t, n)) => r matches Ok((x, k)) && methods_view(x@) == ms && k == n
                && types_view(final(types)@) == types_view(old(types)@).push(t),
            None => r is Err,
        },
        types_extended(final(types)@, old(types)@),
        r matches Ok((ms, n)) ==> start < n <= events@.len() && final(types)@.len() == old(types)@.len() + 1
            && methods_below(ms@, final(types)@.len()),
{
    let slot = types.len();
    let mut field_name: Option<String> = None;
    let mut member: Option<(String, String)> = None;
    let mut methods: Vec<FibexServiceMethod> = Vec::new();
    let mut attributes: Vec<FibexTypeAttribute> = Vec::new();
    let mut i: usize = start;
    proof {
        assert(methods_view(methods@) =~= seq![]);
        assert(attrs_view(attributes@) =~= seq![]);
    }
    loop
        invariant
            start <= i,
            types@ == old(types)@,
            slot == types@.len(),
            field_run(events@, start as int, id@, slot, field_start()) == field_run(
                events@,
                i as int,
                id@,
                slot,
                FieldState {
                    name: opt_text_view(field_name),
                    member: opt_member_view(member),
                    methods: methods_view(methods@),
                    attrs: attrs_view(attributes@),
                },
            ),
            methods_below(methods@, (slot + 1) as nat),
        decreases events@.len() - i,
    {
        if i >= events.len() {
            return Err(ParseStop::Ended);
        }
        match &events[i] {
            FibexEvent::ShortName(name) => {
                field_name = Some(copy_string(name));
                i = i + 1;
            },
            FibexEvent::DatatypeRef(id_ref) => {
                let name = ref_value(positions, i, field_name.as_ref())?;
                member = Some((first_to_lower(name.as_str()), copy_string(id_ref)));
                i = i + 1;
            },
            FibexEvent::ArrayDeclarationStart => {
                let (a, next) = parse_array_declaration(events, positions, i + 1, id.as_str())?;
                attributes.push(a);
                i = next;
            },
            FibexEvent::UtilizationStart => {
                let (mut u, next) = parse_type_utilization(events, positions, i + 1, id.as_str())?;
                attributes.append(&mut u);
                i = next;
            },
            FibexEvent::FieldGetterStart => {
                let name = accessor_name("get", ref_value(positions, i, field_name.as_ref())?);
                ref_value(positions, i, member.as_ref())?;
                let (m, next) = parse_field_accessor(events, positions, i + 1, id.as_str(), "Getter", name, slot, false, true)?;
                methods.push(m);
                i = next;
            },
            FibexEvent::FieldSetterStart => {
                let name = accessor_name("set", ref_value(positions, i, field_name.as_ref())?);
                ref_value(positions, i, member.as_ref())?;
                let (m, next) = parse_field_accessor(events, positions, i + 1, id.as_str(), "Setter", name, slot, true, true)?;
                methods.push(m);
                i = next;
            },
            FibexEvent::FieldNotifierStart => {
                let name = first_to_lower(ref_value(positions, i, field_name.as_ref())?.as_str());
                ref_value(positions, i, member.as_ref())?;
                let (m, next) = parse_field_accessor(events, positions, i + 1, id.as_str(), "Notifier", name, slot, true, false)?;
                methods.push(m);
                i = next;
            },
            FibexEvent::FieldEnd => {
                let (member_name, id_ref) = value_at(positions, i, member)?;
                let mut members: Vec<FibexTypeDeclaration> = Vec::new();
                members.push(
                    FibexTypeDeclaration { id: copy_string(&id), name: member_name, id_ref, type_ref: None, attributes },
                );
                let t = FibexTypeInstance {
                    id,
                    name: String::new(),
                    datatype: FibexDatatype::Struct(FibexStruct { members }),
                    coding_ref: None,
                };
                proof {
                    assert(t.name@ =~= seq![]);
                    assert(decls_view(members@) =~= seq![members@[0]@]);
                }
                types.push(t);
                return Ok((methods, i + 1));
            },
            FibexEvent::Eof => {
                return Err(unexpected_eof(id.as_str()));
            },
            _ => {
                i = i + 1;
            },
        }
    }
}

/// Reads a service, from the event at `start` on: its name, id and
/// version, and its methods, events and fields; the types of their
/// parameters are added to `types`.
fn parse_service_interface(
    events: &Vec<FibexEvent>,
    positions: &Vec<usize>,
    start: usize,
    id: String,
    types: &mut Vec<FibexTypeInstance>,
) -> (r: Result<(FibexServiceInterface, usize), ParseStop>)
    ensures
        match service_run(events@, start as int, id@, service_start(), types_view(old(types)@)) {
            Some((sv, ts, n)) => r matches Ok((x, k)) && x@ == sv && k == n && types_view(final(types)@) == ts,
            None => r is Err,
        },
        types_extended(final(types)@, old(types)@),
        r matches Ok((s, n)) ==> start < n <= events@.len() && methods_below(s.methods@, final(types)@.len()),
{
    let mut service_name: Option<String> = None;
    let mut service_id: Option<usize> = None;
    let mut major_version: Option<usize> = None;
    let mut minor_version: Option<usize> = None;
    let mut methods: Vec<FibexServiceMethod> = Vec::new();
    let mut i: usize = start;
    proof {
        assert(methods_view(methods@) =~= seq![]);
    }
    loop
        invariant
            start <= i,
            service_run(events@, start as int, id@, service_start(), types_view(old(types)@)) == service_run(
                events@,
                i as int,
                id@,
                ServiceState {
                    name: opt_text_view(service_name),
                    service_id,
                    major_version,
                    minor_version,
                    methods: methods_view(methods@),
                },
                types_view(types@),
            ),
            types_extended(types@, old(types)@),
            methods_below(methods@, types@.len()),
        decreases events@.len() - i,
    {
        if i >= events.len() {
            return Err(ParseStop::Ended);
        }
        match &events[i] {
            FibexEvent::ShortName(name) => {
                service_name = Some(copy_string(name));
                i = i + 1;
            },
            FibexEvent::ServiceIdentifier(identifier) => {
                service_id = Some(number_at(positions, i, identifier)?);
                i = i + 1;
            },
            FibexEvent::MajorVersion(version) => {
                major_version = Some(number_at(positions, i, version)?);
                i = i + 1;
            },
            FibexEvent::MinorVersion(version) => {
                minor_version = Some(number_at(positions, i, version)?);
                i = i + 1;
            },
            FibexEvent::MethodStart(method_id) => {
                let (m, next) = parse_service_method(events, positions, i + 1, copy_string(method_id), types)?;
                methods.push(m);
                i = next;
            },
            FibexEvent::FieldStart(field_id) => {
                let (mut field_methods, next) = parse_service_field(events, positions, i + 1, copy_string(field_id), types)?;
                methods.append(&mut field_methods);
                i = next;
            },
            FibexEvent::ServiceEnd => {
                let name = value_at(positions, i, service_name)?;
                let service_id = value_at(positions, i, service_id)?;
                let major_version = value_at(positions, i, major_version)?;
                let minor_version = value_at(positions, i, minor_version)?;
                let s = FibexServiceInterface {
                    id,
                    name: first_to_upper(name.as_str()),
                    service_id,
                    major_version,
                    minor_version,
                    methods,
                };
                return Ok((s, i + 1));
            },
            FibexEvent::Eof => {
                return Err(unexpected_eof(id.as_str()));
            },
            _ => {
                i = i + 1;
            },
        }
    }
}

/// What `FibexModel::pack` makes of the model `old`, with `strict` set or
/// not, where it succeeds: the same services and codings, and each type
/// with the codings applied and the references of its members resolved.
pub open spec fn packed_model(old: FibexModel, new: FibexModel, strict: bool) -> bool {
    &&& new.services == old.services
    &&& new.codings == old.codings
    &&& new.types@.len() == old.types@.len()
    &&& !(strict && has_unresolvable(old.types@, old.codings@))
    &&& forall|k: int|
        0 <= k < old.types@.len() ==> refs_resolved(
            #[trigger] new.types@[k],
            packed_instance(old.types@[k], old.codings@),
            type_keys(old.types@, old.codings@),
            -1,
        )
}

/// Whether `m` is the packing of a model that some document describes.
pub open spec fn parsed_model(m: FibexModel, strict: bool) -> bool {
    exists|evs: Seq<FibexEvent>, m0: FibexModel|
        #![trigger events_model(evs), packed_model(m0, m, strict)]
        events_model(evs) == Some(m0@) && packed_model(m0, m, strict)
}

/// Whether `r` is what reading the model from `events` and packing it
/// gives: a model packed from the one the events describe, where they
/// describe one and packing succeeds (always, where `strict` is not set or
/// every reference names a known type); an error otherwise.
pub open spec fn read_outcome(events: Seq<FibexEvent>, strict: bool, r: Result<FibexModel, FibexError>) -> bool {
    match events_model(events) {
        None => r is Err,
        Some(mv) => {
            &&& r matches Ok(m) ==> exists|m0: FibexModel|
                #![trigger packed_model(m0, m, strict)]
                m0@ == mv && packed_model(m0, m, strict)
            &&& r is Err ==> strict && exists|m0: FibexModel|
                #![trigger has_unresolvable(m0.types@, m0.codings@)]
                m0@ == mv && has_unresolvable(m0.types@, m0.codings@)
            &&& (!strict || forall|m0: FibexModel|
                #![trigger has_unresolvable(m0.types@, m0.codings@)]
                m0@ == mv ==> !has_unresolvable(m0.types@, m0.codings@)) ==> r is Ok
        },
    }
}

impl FibexXmlParser {
    /// Reads the model from the events of a document (`parse_events`) and
    /// packs it (`FibexModel::pack`); where the events end before the
    /// document does, the error that stopped the reader, `end`, is given.
    pub fn parse_read_events(
        events: &Vec<FibexEvent>,
        positions: &Vec<usize>,
        end: Option<FibexError>,
        strict: bool,
    ) -> (r: Result<FibexModel, FibexError>)
        ensures
            read_outcome(events@, strict, r),
            r matches Ok(m) ==> refs_within(m.services@, m.types@),
    {
        match FibexXmlParser::parse_events(events, positions) {
            Ok(mut model) => {
                let ghost m0 = model;
                let packed = model.pack(strict);
                match packed {
                    Ok(()) => {
                        let r = Ok(model);
                        proof {
                            assert(packed_model(m0, model, strict));
                            assert(events_model(events@) == Some(m0@));
                            assert(r matches Ok(m) && packed_model(m0, m, strict));
                            if strict {
                                assert(!has_unresolvable(m0.types@, m0.codings@));
                            }
                        }
                        r
                    },
                    Err(e) => {
                        proof {
                            assert(events_model(events@) == Some(m0@));
                            assert(strict && has_unresolvable(m0.types@, m0.codings@));
                        }
                        Err(e)
                    },
                }
            },
            Err(ParseStop::Failed(e)) => Err(e),
            Err(ParseStop::Ended) => match end {
                Some(e) => Err(e),
                None => Err(FibexError::Parse(String::from_str("Unexpected end of events"))),
            },
        }
    }
}

/// Reads the events of the document (`FibexXmlReader::read_events`), then
/// reads and packs the model from them (`parse_read_events`).
fn parse_fibex(mut reader: FibexXmlReader, strict: bool) -> (r: Result<FibexModel, FibexError>)
    ensures
        r matches Ok(m) ==> refs_within(m.services@, m.types@) && parsed_model(m, strict),
        reader.log_ok() && reader.events_read() ==> document_parsed(reader, strict, r),
{
    let ghost start = reader;
    let (events, positions, end) = reader.read_events();
    let ghost fin = reader;
    let r = FibexXmlParser::parse_read_events(&events, &positions, end, strict);
    proof {
        if r is Ok {
            let m = r->Ok_0;
            let m0 = choose|m0: FibexModel| #![trigger packed_model(m0, m, strict)] m0@ == events_model(events@)->0 && packed_model(m0, m, strict);
            assert(events_model(events@) == Some(m0@) && packed_model(m0, m, strict));
        }
        if start.log_ok() && start.events_read() {
            assert(FibexXmlReader::reads_to_end(start, fin, events@, end) && fin.log_ok() && fin.events_read()
                && read_outcome(events@, strict, r));
        }
    }
    r
}

/// Whether `r` is what parsing the document that `reader` reads gives: the
/// reader, read on to the end of the document or to the first error
/// (`FibexXmlReader::reads_to_end`), keeps the replies of the XML reader to
/// the calls made and the events they give; and `r` is what reading the
/// model from those events and packing it gives (`read_outcome`).
pub open spec fn document_parsed(reader: FibexXmlReader, strict: bool, r: Result<FibexModel, FibexError>) -> bool {
    exists|fin: FibexXmlReader, evs: Seq<FibexEvent>, end: Option<FibexError>|
        #[trigger] FibexXmlReader::reads_to_end(reader, fin, evs, end) && fin.log_ok() && fin.events_read()
            && read_outcome(evs, strict, r)
}

} // verus!
