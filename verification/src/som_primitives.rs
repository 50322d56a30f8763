//! The primitive payload types: booleans, integers of one to eight bytes,
//! and floating-point numbers carried as their bit patterns.

use crate::bytes::{
    be16, be24, be32, be64, from_be16, from_be24, from_be32, from_be64, lemma_be16_roundtrip,
    lemma_be24_roundtrip, lemma_be32_roundtrip, lemma_be64_roundtrip, lemma_ordered_twice,
    ordered, ordered_vec, push_be16, push_be24, push_be32, push_be64, read_be16, read_be24,
    read_be32, read_be64,
};
use crate::som::{
    message1, message2, msg_invalid_bool, msg_uninitialized, parsed, serialized, parse_exhausted, ser_exhausted, SOMEndian, SOMError,
    SOMErrorView, SOMParser, SOMSerializer, SOMType, SOMTypeInfo, SOMTypeMeta,
};
use crate::text::{dec, hex, hex_text, i64_text, idec, u64_text};
use vstd::prelude::*;

verus! {

/// A value that has a fixed-width encoding on the wire.
pub trait WirePrim: Copy + Sized {
    /// The number of bytes of the encoding.
    spec fn width() -> nat;

    /// The values that the type holds.
    spec fn valid(v: Self) -> bool;

    /// The bytes of `v` in the byte order `endian`.
    spec fn encode(v: Self, endian: SOMEndian) -> Seq<u8>;

    /// The value that the bytes `b` encode in the byte order `endian`, if
    /// they encode one.
    spec fn decode(b: Seq<u8>, endian: SOMEndian) -> Option<Self>;

    /// The text of a value.
    spec fn text_spec(v: Self) -> Seq<char>;

    /// The name of the type.
    spec fn name_spec() -> Seq<char>;

    /// The number of bytes of the encoding.
    fn wire_width() -> (r: usize)
        ensures
            r == Self::width(),
            1 <= r <= 8,
    ;

    /// The bytes of `v` in the byte order `endian`.
    fn encode_vec(v: Self, endian: SOMEndian) -> (r: Vec<u8>)
        ensures
            r@ == Self::encode(v, endian),
    ;

    /// The value that the bytes `b` encode in the byte order `endian`.
    fn decode_slice(b: &[u8], endian: SOMEndian) -> (r: Option<Self>)
        requires
            b@.len() == Self::width(),
        ensures
            r == Self::decode(b@, endian),
    ;

    /// The text of a value.
    fn text(v: Self) -> (r: String)
        ensures
            r@ == Self::text_spec(v),
    ;

    /// The name of the type.
    fn name() -> (r: &'static str)
        ensures
            r@ == Self::name_spec(),
    ;

    /// Whether two values are equal.
    fn equals(a: Self, b: Self) -> (r: bool)
        ensures
            r == (a == b),
    ;

    /// Every value's encoding has the type's width.
    proof fn lemma_encode_len(v: Self, endian: SOMEndian)
        ensures
            Self::encode(v, endian).len() == Self::width(),
    ;

    /// The encoding of a valid value decodes to the value.
    proof fn lemma_roundtrip(v: Self, endian: SOMEndian)
        requires
            Self::valid(v),
        ensures
            Self::encode(v, endian).len() == Self::width(),
            Self::decode(Self::encode(v, endian), endian) == Some(v),
    ;

    /// Decoding gives valid values only.
    proof fn lemma_decode_valid(b: Seq<u8>, endian: SOMEndian)
        requires
            b.len() == Self::width(),
        ensures
            Self::decode(b, endian) matches Some(v) ==> Self::valid(v),
    ;
}

/// Whether the byte order is little-endian.
pub open spec fn is_little(endian: SOMEndian) -> bool {
    endian == SOMEndian::Little
}

/// The text of a boolean.
pub open spec fn bool_text(v: bool) -> Seq<char> {
    if v {
        "true"@
    } else {
        "false"@
    }
}

impl WirePrim for bool {
    open spec fn width() -> nat {
        1
    }

    open spec fn valid(v: Self) -> bool {
        true
    }

    open spec fn encode(v: Self, endian: SOMEndian) -> Seq<u8> {
        seq![if v { 1u8 } else { 0u8 }]
    }

    open spec fn decode(b: Seq<u8>, endian: SOMEndian) -> Option<Self> {
        if b[0] == 1 {
            Some(true)
        } else if b[0] == 0 {
            Some(false)
        } else {
            None
        }
    }

    open spec fn text_spec(v: Self) -> Seq<char> {
        bool_text(v)
    }

    open spec fn name_spec() -> Seq<char> {
        "bool"@
    }

    fn wire_width() -> (r: usize) {
        1
    }

    fn encode_vec(v: Self, endian: SOMEndian) -> (r: Vec<u8>) {
        let mut out: Vec<u8> = Vec::new();
        out.push(if v { 1u8 } else { 0u8 });
        proof {
            assert(out@ =~= Self::encode(v, endian));
        }
        out
    }

    fn decode_slice(b: &[u8], endian: SOMEndian) -> (r: Option<Self>) {
        if b[0] == 1 {
            Some(true)
        } else if b[0] == 0 {
            Some(false)
        } else {
            None
        }
    }

    fn text(v: Self) -> (r: String) {
        if v {
            String::from_str("true")
        } else {
            String::from_str("false")
        }
    }

    fn name() -> (r: &'static str) {
        "bool"
    }

    fn equals(a: Self, b: Self) -> (r: bool) {
        a == b
    }

    proof fn lemma_encode_len(v: Self, endian: SOMEndian) {
    }

    proof fn lemma_roundtrip(v: Self, endian: SOMEndian) {
    }

    proof fn lemma_decode_valid(b: Seq<u8>, endian: SOMEndian) {
    }
}

impl WirePrim for u8 {
    open spec fn width() -> nat {
        1
    }

    open spec fn valid(v: Self) -> bool {
        true
    }

    open spec fn encode(v: Self, endian: SOMEndian) -> Seq<u8> {
        seq![v]
    }

    open spec fn decode(b: Seq<u8>, endian: SOMEndian) -> Option<Self> {
        Some(b[0])
    }

    open spec fn text_spec(v: Self) -> Seq<char> {
        dec(v as nat)
    }

    open spec fn name_spec() -> Seq<char> {
        "u8"@
    }

    fn wire_width() -> (r: usize) {
        1
    }

    fn encode_vec(v: Self, endian: SOMEndian) -> (r: Vec<u8>) {
        let mut out: Vec<u8> = Vec::new();
        out.push(v);
        proof {
            assert(out@ =~= Self::encode(v, endian));
        }
        out
    }

    fn decode_slice(b: &[u8], endian: SOMEndian) -> (r: Option<Self>) {
        Some(b[0])
    }

    fn text(v: Self) -> (r: String) {
        u64_text(v as u64)
    }

    fn name() -> (r: &'static str) {
        "u8"
    }

    fn equals(a: Self, b: Self) -> (r: bool) {
        a == b
    }

    proof fn lemma_encode_len(v: Self, endian: SOMEndian) {
    }

    proof fn lemma_roundtrip(v: Self, endian: SOMEndian) {
    }

    proof fn lemma_decode_valid(b: Seq<u8>, endian: SOMEndian) {
    }
}

impl WirePrim for i8 {
    open spec fn width() -> nat {
        1
    }

    open spec fn valid(v: Self) -> bool {
        true
    }

    open spec fn encode(v: Self, endian: SOMEndian) -> Seq<u8> {
        seq![v as u8]
    }

    open spec fn decode(b: Seq<u8>, endian: SOMEndian) -> Option<Self> {
        Some(b[0] as i8)
    }

    open spec fn text_spec(v: Self) -> Seq<char> {
        idec(v as int)
    }

    open spec fn name_spec() -> Seq<char> {
        "i8"@
    }

    fn wire_width() -> (r: usize) {
        1
    }

    fn encode_vec(v: Self, endian: SOMEndian) -> (r: Vec<u8>) {
        let mut out: Vec<u8> = Vec::new();
        out.push(v as u8);
        proof {
            assert(out@ =~= Self::encode(v, endian));
        }
        out
    }

    fn decode_slice(b: &[u8], endian: SOMEndian) -> (r: Option<Self>) {
        Some(b[0] as i8)
    }

    fn text(v: Self) -> (r: String) {
        i64_text(v as i64)
    }

    fn name() -> (r: &'static str) {
        "i8"
    }

    fn equals(a: Self, b: Self) -> (r: bool) {
        a == b
    }

    proof fn lemma_encode_len(v: Self, endian: SOMEndian) {
        lemma_ordered_twice(Self::encode(v, endian), is_little(endian));
    }

    proof fn lemma_roundtrip(v: Self, endian: SOMEndian) {
        assert((v as u8) as i8 == v) by (bit_vector);
    }

    proof fn lemma_decode_valid(b: Seq<u8>, endian: SOMEndian) {
    }
}


impl WirePrim for u16 {
    open spec fn width() -> nat {
        2
    }

    open spec fn valid(v: Self) -> bool {
        true
    }

    open spec fn encode(v: Self, endian: SOMEndian) -> Seq<u8> {
        ordered(be16(v), is_little(endian))
    }

    open spec fn decode(b: Seq<u8>, endian: SOMEndian) -> Option<Self> {
        Some(from_be16(ordered(b, is_little(endian))))
    }

    open spec fn text_spec(v: Self) -> Seq<char> {
        dec(v as nat)
    }

    open spec fn name_spec() -> Seq<char> {
        "u16"@
    }

    fn wire_width() -> (r: usize) {
        2
    }

    fn encode_vec(v: Self, endian: SOMEndian) -> (r: Vec<u8>) {
        let mut be: Vec<u8> = Vec::new();
        push_be16(&mut be, v);
        proof {
            assert(be@ =~= be16(v));
        }
        ordered_vec(be.as_slice(), endian == SOMEndian::Little)
    }

    fn decode_slice(b: &[u8], endian: SOMEndian) -> (r: Option<Self>) {
        let o = ordered_vec(b, endian == SOMEndian::Little);
        proof {
            lemma_ordered_twice(b@, is_little(endian));
            assert(o@.subrange(0, 2) =~= o@);
        }
        Some(read_be16(o.as_slice(), 0))
    }

    fn text(v: Self) -> (r: String) {
        u64_text(v as u64)
    }

    fn name() -> (r: &'static str) {
        "u16"
    }

    fn equals(a: Self, b: Self) -> (r: bool) {
        a == b
    }

    proof fn lemma_encode_len(v: Self, endian: SOMEndian) {
        lemma_ordered_twice(Self::encode(v, endian), is_little(endian));
    }

    proof fn lemma_roundtrip(v: Self, endian: SOMEndian) {
        lemma_ordered_twice(be16(v), is_little(endian));
        lemma_be16_roundtrip(v);
        
    }

    proof fn lemma_decode_valid(b: Seq<u8>, endian: SOMEndian) {
    }
}

impl WirePrim for i16 {
    open spec fn width() -> nat {
        2
    }

    open spec fn valid(v: Self) -> bool {
        true
    }

    open spec fn encode(v: Self, endian: SOMEndian) -> Seq<u8> {
        ordered(be16(v as u16), is_little(endian))
    }

    open spec fn decode(b: Seq<u8>, endian: SOMEndian) -> Option<Self> {
        Some(from_be16(ordered(b, is_little(endian))) as i16)
    }

    open spec fn text_spec(v: Self) -> Seq<char> {
        idec(v as int)
    }

    open spec fn name_spec() -> Seq<char> {
        "i16"@
    }

    fn wire_width() -> (r: usize) {
        2
    }

    fn encode_vec(v: Self, endian: SOMEndian) -> (r: Vec<u8>) {
        let mut be: Vec<u8> = Vec::new();
        push_be16(&mut be, v as u16);
        proof {
            assert(be@ =~= be16(v as u16));
        }
        ordered_vec(be.as_slice(), endian == SOMEndian::Little)
    }

    fn decode_slice(b: &[u8], endian: SOMEndian) -> (r: Option<Self>) {
        let o = ordered_vec(b, endian == SOMEndian::Little);
        proof {
            lemma_ordered_twice(b@, is_little(endian));
            assert(o@.subrange(0, 2) =~= o@);
        }
        Some(read_be16(o.as_slice(), 0) as i16)
    }

    fn text(v: Self) -> (r: String) {
        i64_text(v as i64)
    }

    fn name() -> (r: &'static str) {
        "i16"
    }

    fn equals(a: Self, b: Self) -> (r: bool) {
        a == b
    }

    proof fn lemma_encode_len(v: Self, endian: SOMEndian) {
        lemma_ordered_twice(Self::encode(v, endian), is_little(endian));
    }

    proof fn lemma_roundtrip(v: Self, endian: SOMEndian) {
        lemma_ordered_twice(be16(v as u16), is_little(endian));
        lemma_be16_roundtrip(v as u16);
        assert(((v as u16) as i16) == v) by (bit_vector);
    }

    proof fn lemma_decode_valid(b: Seq<u8>, endian: SOMEndian) {
    }
}

impl WirePrim for u32 {
    open spec fn width() -> nat {
        4
    }

    open spec fn valid(v: Self) -> bool {
        true
    }

    open spec fn encode(v: Self, endian: SOMEndian) -> Seq<u8> {
        ordered(be32(v), is_little(endian))
    }

    open spec fn decode(b: Seq<u8>, endian: SOMEndian) -> Option<Self> {
        Some(from_be32(ordered(b, is_little(endian))))
    }

    open spec fn text_spec(v: Self) -> Seq<char> {
        dec(v as nat)
    }

    open spec fn name_spec() -> Seq<char> {
        "u32"@
    }

    fn wire_width() -> (r: usize) {
        4
    }

    fn encode_vec(v: Self, endian: SOMEndian) -> (r: Vec<u8>) {
        let mut be: Vec<u8> = Vec::new();
        push_be32(&mut be, v);
        proof {
            assert(be@ =~= be32(v));
        }
        ordered_vec(be.as_slice(), endian == SOMEndian::Little)
    }

    fn decode_slice(b: &[u8], endian: SOMEndian) -> (r: Option<Self>) {
        let o = ordered_vec(b, endian == SOMEndian::Little);
        proof {
            lemma_ordered_twice(b@, is_little(endian));
            assert(o@.subrange(0, 4) =~= o@);
        }
        Some(read_be32(o.as_slice(), 0))
    }

    fn text(v: Self) -> (r: String) {
        u64_text(v as u64)
    }

    fn name() -> (r: &'static str) {
        "u32"
    }

    fn equals(a: Self, b: Self) -> (r: bool) {
        a == b
    }

    proof fn lemma_encode_len(v: Self, endian: SOMEndian) {
        lemma_ordered_twice(Self::encode(v, endian), is_little(endian));
    }

    proof fn lemma_roundtrip(v: Self, endian: SOMEndian) {
        lemma_ordered_twice(be32(v), is_little(endian));
        lemma_be32_roundtrip(v);
        
    }

    proof fn lemma_decode_valid(b: Seq<u8>, endian: SOMEndian) {
    }
}

impl WirePrim for i32 {
    open spec fn width() -> nat {
        4
    }

    open spec fn valid(v: Self) -> bool {
        true
    }

    open spec fn encode(v: Self, endian: SOMEndian) -> Seq<u8> {
        ordered(be32(v as u32), is_little(endian))
    }

    open spec fn decode(b: Seq<u8>, endian: SOMEndian) -> Option<Self> {
        Some(from_be32(ordered(b, is_little(endian))) as i32)
    }

    open spec fn text_spec(v: Self) -> Seq<char> {
        idec(v as int)
    }

    open spec fn name_spec() -> Seq<char> {
        "i32"@
    }

    fn wire_width() -> (r: usize) {
        4
    }

    fn encode_vec(v: Self, endian: SOMEndian) -> (r: Vec<u8>) {
        let mut be: Vec<u8> = Vec::new();
        push_be32(&mut be, v as u32);
        proof {
            assert(be@ =~= be32(v as u32));
        }
        ordered_vec(be.as_slice(), endian == SOMEndian::Little)
    }

    fn decode_slice(b: &[u8], endian: SOMEndian) -> (r: Option<Self>) {
        let o = ordered_vec(b, endian == SOMEndian::Little);
        proof {
            lemma_ordered_twice(b@, is_little(endian));
            assert(o@.subrange(0, 4) =~= o@);
        }
        Some(read_be32(o.as_slice(), 0) as i32)
    }

    fn text(v: Self) -> (r: String) {
        i64_text(v as i64)
    }

    fn name() -> (r: &'static str) {
        "i32"
    }

    fn equals(a: Self, b: Self) -> (r: bool) {
        a == b
    }

    proof fn lemma_encode_len(v: Self, endian: SOMEndian) {
        lemma_ordered_twice(Self::encode(v, endian), is_little(endian));
    }

    proof fn lemma_roundtrip(v: Self, endian: SOMEndian) {
        lemma_ordered_twice(be32(v as u32), is_little(endian));
        lemma_be32_roundtrip(v as u32);
        assert(((v as u32) as i32) == v) by (bit_vector);
    }

    proof fn lemma_decode_valid(b: Seq<u8>, endian: SOMEndian) {
    }
}

impl WirePrim for u64 {
    open spec fn width() -> nat {
        8
    }

    open spec fn valid(v: Self) -> bool {
        true
    }

    open spec fn encode(v: Self, endian: SOMEndian) -> Seq<u8> {
        ordered(be64(v), is_little(endian))
    }

    open spec fn decode(b: Seq<u8>, endian: SOMEndian) -> Option<Self> {
        Some(from_be64(ordered(b, is_little(endian))))
    }

    open spec fn text_spec(v: Self) -> Seq<char> {
        dec(v as nat)
    }

    open spec fn name_spec() -> Seq<char> {
        "u64"@
    }

    fn wire_width() -> (r: usize) {
        8
    }

    fn encode_vec(v: Self, endian: SOMEndian) -> (r: Vec<u8>) {
        let mut be: Vec<u8> = Vec::new();
        push_be64(&mut be, v);
        proof {
            assert(be@ =~= be64(v));
        }
        ordered_vec(be.as_slice(), endian == SOMEndian::Little)
    }

    fn decode_slice(b: &[u8], endian: SOMEndian) -> (r: Option<Self>) {
        let o = ordered_vec(b, endian == SOMEndian::Little);
        proof {
            lemma_ordered_twice(b@, is_little(endian));
            assert(o@.subrange(0, 8) =~= o@);
        }
        Some(read_be64(o.as_slice(), 0))
    }

    fn text(v: Self) -> (r: String) {
        u64_text(v)
    }

    fn name() -> (r: &'static str) {
        "u64"
    }

    fn equals(a: Self, b: Self) -> (r: bool) {
        a == b
    }

    proof fn lemma_encode_len(v: Self, endian: SOMEndian) {
        lemma_ordered_twice(Self::encode(v, endian), is_little(endian));
    }

    proof fn lemma_roundtrip(v: Self, endian: SOMEndian) {
        lemma_ordered_twice(be64(v), is_little(endian));
        lemma_be64_roundtrip(v);
        
    }

    proof fn lemma_decode_valid(b: Seq<u8>, endian: SOMEndian) {
    }
}

impl WirePrim for i64 {
    open spec fn width() -> nat {
        8
    }

    open spec fn valid(v: Self) -> bool {
        true
    }

    open spec fn encode(v: Self, endian: SOMEndian) -> Seq<u8> {
        ordered(be64(v as u64), is_little(endian))
    }

    open spec fn decode(b: Seq<u8>, endian: SOMEndian) -> Option<Self> {
        Some(from_be64(ordered(b, is_little(endian))) as i64)
    }

    open spec fn text_spec(v: Self) -> Seq<char> {
        idec(v as int)
    }

    open spec fn name_spec() -> Seq<char> {
        "i64"@
    }

    fn wire_width() -> (r: usize) {
        8
    }

    fn encode_vec(v: Self, endian: SOMEndian) -> (r: Vec<u8>) {
        let mut be: Vec<u8> = Vec::new();
        push_be64(&mut be, v as u64);
        proof {
            assert(be@ =~= be64(v as u64));
        }
        ordered_vec(be.as_slice(), endian == SOMEndian::Little)
    }

    fn decode_slice(b: &[u8], endian: SOMEndian) -> (r: Option<Self>) {
        let o = ordered_vec(b, endian == SOMEndian::Little);
        proof {
            lemma_ordered_twice(b@, is_little(endian));
            assert(o@.subrange(0, 8) =~= o@);
        }
        Some(read_be64(o.as_slice(), 0) as i64)
    }

    fn text(v: Self) -> (r: String) {
        i64_text(v)
    }

    fn name() -> (r: &'static str) {
        "i64"
    }

    fn equals(a: Self, b: Self) -> (r: bool) {
        a == b
    }

    proof fn lemma_encode_len(v: Self, endian: SOMEndian) {
        lemma_ordered_twice(Self::encode(v, endian), is_little(endian));
    }

    proof fn lemma_roundtrip(v: Self, endian: SOMEndian) {
        lemma_ordered_twice(be64(v as u64), is_little(endian));
        lemma_be64_roundtrip(v as u64);
        assert(((v as u64) as i64) == v) by (bit_vector);
    }

    proof fn lemma_decode_valid(b: Seq<u8>, endian: SOMEndian) {
    }
}


/// An unsigned integer of 24 bits.
#[derive(Debug, Clone, Copy, PartialEq, Eq, Structural)]
pub struct U24 {
    value: u32,
}

impl U24 {
    /// The number.
    pub closed spec fn spec_value(&self) -> u32 {
        self.value
    }

    /// The 24-bit integer `value`.
    pub fn new(value: u32) -> (r: U24)
        requires
            value < 0x100_0000,
        ensures
            r.spec_value() == value,
    {
        U24 { value }
    }

    /// The number.
    pub fn value(&self) -> (r: u32)
        ensures
            r == self.spec_value(),
    {
        self.value
    }
}

/// A signed integer of 24 bits.
#[derive(Debug, Clone, Copy, PartialEq, Eq, Structural)]
pub struct I24 {
    value: i32,
}

/// The 24-bit value `x` read as a two's complement number.
pub open spec fn sign_extend24(x: u32) -> i32 {
    if x >= 0x80_0000 {
        (x as int - 0x100_0000) as i32
    } else {
        x as i32
    }
}

impl I24 {
    /// The number.
    pub closed spec fn spec_value(&self) -> i32 {
        self.value
    }

    /// The 24-bit integer `value`.
    pub fn new(value: i32) -> (r: I24)
        requires
            -0x80_0000 <= value < 0x80_0000,
        ensures
            r.spec_value() == value,
    {
        I24 { value }
    }

    /// The number.
    pub fn value(&self) -> (r: i32)
        ensures
            r == self.spec_value(),
    {
        self.value
    }
}

/// A 32-bit floating-point number, carried as its bit pattern.
#[derive(Debug, Clone, Copy, PartialEq, Eq, Structural)]
pub struct F32 {
    /// The IEEE 754 bit pattern.
    pub bits: u32,
}

/// A 64-bit floating-point number, carried as its bit pattern.
#[derive(Debug, Clone, Copy, PartialEq, Eq, Structural)]
pub struct F64 {
    /// The IEEE 754 bit pattern.
    pub bits: u64,
}

impl WirePrim for U24 {
    open spec fn width() -> nat {
        3
    }

    open spec fn valid(v: Self) -> bool {
        v.spec_value() < 0x100_0000
    }

    open spec fn encode(v: Self, endian: SOMEndian) -> Seq<u8> {
        ordered(be24(v.spec_value()), is_little(endian))
    }

    closed spec fn decode(b: Seq<u8>, endian: SOMEndian) -> Option<Self> {
        Some(U24 { value: from_be24(ordered(b, is_little(endian))) })
    }

    open spec fn text_spec(v: Self) -> Seq<char> {
        dec(v.spec_value() as nat)
    }

    open spec fn name_spec() -> Seq<char> {
        "u24"@
    }

    fn wire_width() -> (r: usize) {
        3
    }

    fn encode_vec(v: Self, endian: SOMEndian) -> (r: Vec<u8>) {
        let mut be: Vec<u8> = Vec::new();
        push_be24(&mut be, v.value);
        proof {
            assert(be@ =~= be24(v.value));
        }
        ordered_vec(be.as_slice(), endian == SOMEndian::Little)
    }

    fn decode_slice(b: &[u8], endian: SOMEndian) -> (r: Option<Self>) {
        let o = ordered_vec(b, endian == SOMEndian::Little);
        proof {
            assert(o@.subrange(0, 3) =~= o@);
        }
        Some(U24 { value: read_be24(o.as_slice(), 0) })
    }

    fn text(v: Self) -> (r: String) {
        u64_text(v.value as u64)
    }

    fn name() -> (r: &'static str) {
        "u24"
    }

    fn equals(a: Self, b: Self) -> (r: bool) {
        a == b
    }

    proof fn lemma_encode_len(v: Self, endian: SOMEndian) {
        lemma_ordered_twice(Self::encode(v, endian), is_little(endian));
    }

    proof fn lemma_roundtrip(v: Self, endian: SOMEndian) {
        lemma_ordered_twice(be24(v.value), is_little(endian));
        lemma_be24_roundtrip(v.value);
    }

    proof fn lemma_decode_valid(b: Seq<u8>, endian: SOMEndian) {
        let o = ordered(b, is_little(endian));
        lemma_ordered_twice(b, is_little(endian));
        let b0 = o[0];
        let b1 = o[1];
        let b2 = o[2];
        assert((((b0 as u32) << 16u32) | ((b1 as u32) << 8u32) | (b2 as u32)) < 0x100_0000u32)
            by (bit_vector);
    }
}

impl WirePrim for I24 {
    open spec fn width() -> nat {
        3
    }

    open spec fn valid(v: Self) -> bool {
        -0x80_0000 <= v.spec_value() < 0x80_0000
    }

    open spec fn encode(v: Self, endian: SOMEndian) -> Seq<u8> {
        ordered(be24(v.spec_value() as u32), is_little(endian))
    }

    closed spec fn decode(b: Seq<u8>, endian: SOMEndian) -> Option<Self> {
        Some(I24 { value: sign_extend24(from_be24(ordered(b, is_little(endian)))) })
    }

    open spec fn text_spec(v: Self) -> Seq<char> {
        idec(v.spec_value() as int)
    }

    open spec fn name_spec() -> Seq<char> {
        "i24"@
    }

    fn wire_width() -> (r: usize) {
        3
    }

    fn encode_vec(v: Self, endian: SOMEndian) -> (r: Vec<u8>) {
        let mut be: Vec<u8> = Vec::new();
        push_be24(&mut be, v.value as u32);
        proof {
            assert(be@ =~= be24(v.value as u32));
        }
        ordered_vec(be.as_slice(), endian == SOMEndian::Little)
    }

    fn decode_slice(b: &[u8], endian: SOMEndian) -> (r: Option<Self>) {
        let o = ordered_vec(b, endian == SOMEndian::Little);
        proof {
            assert(o@.subrange(0, 3) =~= o@);
        }
        let x = read_be24(o.as_slice(), 0);
        let ghost xo = from_be24(ordered(b@, is_little(endian)));
        proof {
            let b0 = o@[0];
            let b1 = o@[1];
            let b2 = o@[2];
            assert((((b0 as u32) << 16u32) | ((b1 as u32) << 8u32) | (b2 as u32)) < 0x100_0000u32)
                by (bit_vector);
        }
        let value: i32 = if x >= 0x80_0000 {
            (x as i32) - 0x100_0000
        } else {
            x as i32
        };
        Some(I24 { value })
    }

    fn text(v: Self) -> (r: String) {
        i64_text(v.value as i64)
    }

    fn name() -> (r: &'static str) {
        "i24"
    }

    fn equals(a: Self, b: Self) -> (r: bool) {
        a == b
    }

    proof fn lemma_encode_len(v: Self, endian: SOMEndian) {
        lemma_ordered_twice(Self::encode(v, endian), is_little(endian));
    }

    proof fn lemma_roundtrip(v: Self, endian: SOMEndian) {
        let u = v.value as u32;
        lemma_ordered_twice(be24(u), is_little(endian));
        let b0 = (u >> 16u32) as u8;
        let b1 = (u >> 8u32) as u8;
        let b2 = u as u8;
        let x = ((b0 as u32) << 16u32) | ((b1 as u32) << 8u32) | (b2 as u32);
        let w = v.value;
        assert(x == (u & 0xFF_FFFFu32)) by (bit_vector)
            requires
                b0 == (u >> 16u32) as u8,
                b1 == (u >> 8u32) as u8,
                b2 == u as u8,
                x == ((b0 as u32) << 16u32) | ((b1 as u32) << 8u32) | (b2 as u32),
        ;
        assert(((u & 0xFF_FFFFu32) >= 0x80_0000u32 ==> (u & 0xFF_FFFFu32) as int - 0x100_0000
            == w as int) && ((u & 0xFF_FFFFu32) < 0x80_0000u32 ==> (u & 0xFF_FFFFu32) as int
            == w as int)) by (bit_vector)
            requires
                u == w as u32,
                -0x80_0000i32 <= w < 0x80_0000i32,
        ;
    }

    proof fn lemma_decode_valid(b: Seq<u8>, endian: SOMEndian) {
        let o = ordered(b, is_little(endian));
        let b0 = o[0];
        let b1 = o[1];
        let b2 = o[2];
        assert((((b0 as u32) << 16u32) | ((b1 as u32) << 8u32) | (b2 as u32)) < 0x100_0000u32)
            by (bit_vector);
    }
}

impl WirePrim for F32 {
    open spec fn width() -> nat {
        4
    }

    open spec fn valid(v: Self) -> bool {
        true
    }

    open spec fn encode(v: Self, endian: SOMEndian) -> Seq<u8> {
        ordered(be32(v.bits), is_little(endian))
    }

    open spec fn decode(b: Seq<u8>, endian: SOMEndian) -> Option<Self> {
        Some(F32 { bits: from_be32(ordered(b, is_little(endian))) })
    }

    open spec fn text_spec(v: Self) -> Seq<char> {
        "0x"@ + hex(v.bits as nat)
    }

    open spec fn name_spec() -> Seq<char> {
        "f32"@
    }

    fn wire_width() -> (r: usize) {
        4
    }

    fn encode_vec(v: Self, endian: SOMEndian) -> (r: Vec<u8>) {
        let mut be: Vec<u8> = Vec::new();
        push_be32(&mut be, v.bits);
        proof {
            assert(be@ =~= be32(v.bits));
        }
        ordered_vec(be.as_slice(), endian == SOMEndian::Little)
    }

    fn decode_slice(b: &[u8], endian: SOMEndian) -> (r: Option<Self>) {
        let o = ordered_vec(b, endian == SOMEndian::Little);
        proof {
            assert(o@.subrange(0, 4) =~= o@);
        }
        Some(F32 { bits: read_be32(o.as_slice(), 0) })
    }

    fn text(v: Self) -> (r: String) {
        hex_text(v.bits as u64)
    }

    fn name() -> (r: &'static str) {
        "f32"
    }

    fn equals(a: Self, b: Self) -> (r: bool) {
        a == b
    }

    proof fn lemma_encode_len(v: Self, endian: SOMEndian) {
        lemma_ordered_twice(Self::encode(v, endian), is_little(endian));
    }

    proof fn lemma_roundtrip(v: Self, endian: SOMEndian) {
        lemma_ordered_twice(be32(v.bits), is_little(endian));
        lemma_be32_roundtrip(v.bits);
    }

    proof fn lemma_decode_valid(b: Seq<u8>, endian: SOMEndian) {
    }
}

impl WirePrim for F64 {
    open spec fn width() -> nat {
        8
    }

    open spec fn valid(v: Self) -> bool {
        true
    }

    open spec fn encode(v: Self, endian: SOMEndian) -> Seq<u8> {
        ordered(be64(v.bits), is_little(endian))
    }

    open spec fn decode(b: Seq<u8>, endian: SOMEndian) -> Option<Self> {
        Some(F64 { bits: from_be64(ordered(b, is_little(endian))) })
    }

    open spec fn text_spec(v: Self) -> Seq<char> {
        "0x"@ + hex(v.bits as nat)
    }

    open spec fn name_spec() -> Seq<char> {
        "f64"@
    }

    fn wire_width() -> (r: usize) {
        8
    }

    fn encode_vec(v: Self, endian: SOMEndian) -> (r: Vec<u8>) {
        let mut be: Vec<u8> = Vec::new();
        push_be64(&mut be, v.bits);
        proof {
            assert(be@ =~= be64(v.bits));
        }
        ordered_vec(be.as_slice(), endian == SOMEndian::Little)
    }

    fn decode_slice(b: &[u8], endian: SOMEndian) -> (r: Option<Self>) {
        let o = ordered_vec(b, endian == SOMEndian::Little);
        proof {
            assert(o@.subrange(0, 8) =~= o@);
        }
        Some(F64 { bits: read_be64(o.as_slice(), 0) })
    }

    fn text(v: Self) -> (r: String) {
        hex_text(v.bits)
    }

    fn name() -> (r: &'static str) {
        "f64"
    }

    fn equals(a: Self, b: Self) -> (r: bool) {
        a == b
    }

    proof fn lemma_encode_len(v: Self, endian: SOMEndian) {
        lemma_ordered_twice(Self::encode(v, endian), is_little(endian));
    }

    proof fn lemma_roundtrip(v: Self, endian: SOMEndian) {
        lemma_ordered_twice(be64(v.bits), is_little(endian));
        lemma_be64_roundtrip(v.bits);
    }

    proof fn lemma_decode_valid(b: Seq<u8>, endian: SOMEndian) {
    }
}


/// The bytes of a primitive value at `offset` into a buffer that holds
/// `buf`: the error of a missing value first, then that of a buffer without
/// room.
pub open spec fn prim_ser<T: WirePrim>(
    value: Option<T>,
    endian: SOMEndian,
    offset: int,
    buf: Seq<u8>,
) -> Result<Seq<u8>, SOMErrorView> {
    match value {
        None => Err(SOMErrorView::InvalidType(msg_uninitialized(offset as nat))),
        Some(v) => if offset + T::width() > buf.len() {
            Err(ser_exhausted(offset, T::width()))
        } else {
            Ok(T::encode(v, endian))
        },
    }
}

/// The primitive value read at `offset` from `data`.
pub open spec fn prim_parse<T: WirePrim>(endian: SOMEndian, offset: int, data: Seq<u8>) -> Result<
    T,
    SOMErrorView,
> {
    if offset + T::width() > data.len() {
        Err(parse_exhausted(offset, T::width()))
    } else {
        match T::decode(data.subrange(offset, offset + T::width()), endian) {
            None => Err(
                SOMErrorView::InvalidPayload(msg_invalid_bool(data[offset] as nat, offset as nat)),
            ),
            Some(v) => Ok(v),
        }
    }
}

/// Writes a primitive value, or fails as `prim_ser` says.
pub fn prim_write<T: WirePrim>(
    value: Option<T>,
    endian: SOMEndian,
    serializer: &mut SOMSerializer,
) -> (r: Result<usize, SOMError>)
    requires
        old(serializer).wf(),
    ensures
        serialized(
            prim_ser(value, endian, old(serializer).pos(), old(serializer).buffer()),
            *old(serializer),
            *final(serializer),
            r,
        ),
{
    let offset = serializer.offset();
    match value {
        None => Err(SOMError::InvalidType(message1("Uninitialized Type at offset: ", offset))),
        Some(v) => {
            let bytes = T::encode_vec(v, endian);
            proof {
                T::lemma_encode_len(v, endian);
            }
            serializer.write_bytes(bytes.as_slice())
        },
    }
}

/// Reads a primitive value, or fails as `prim_parse` says.
pub fn prim_get<T: WirePrim>(endian: SOMEndian, parser: &mut SOMParser) -> (r: Result<T, SOMError>)
    requires
        old(parser).wf(),
    ensures
        final(parser).wf(),
        final(parser).data() == old(parser).data(),
        match r {
            Ok(v) => prim_parse::<T>(endian, old(parser).pos(), old(parser).data()) == Ok::<
                T,
                SOMErrorView,
            >(v) && final(parser).pos() == old(parser).pos() + T::width(),
            Err(e) => prim_parse::<T>(endian, old(parser).pos(), old(parser).data()) matches Err(
                ev,
            ) && e@ == ev,
        },
{
    let offset = parser.offset();
    let w = T::wire_width();
    let b = match parser.read_bytes(w) {
        Ok(b) => b,
        Err(e) => return Err(e),
    };
    match T::decode_slice(b, endian) {
        Some(v) => Ok(v),
        None => Err(
            SOMError::InvalidPayload(
                message2("Invalid Bool value: ", b[0] as usize, " at offset: ", offset),
            ),
        ),
    }
}

/// A primitive value without byte order, which may hold no value yet.
#[derive(Debug)]
pub struct SOMPrimitiveType<T> {
    /// The value, if set.
    pub value: Option<T>,
    /// The name and description that the value is shown with, if any.
    pub meta: Option<SOMTypeMeta>,
}

impl<T: WirePrim> SOMPrimitiveType<T> {
    /// The name and description that the value is shown with.
    pub open spec fn spec_meta(&self) -> Option<SOMTypeMeta> {
        self.meta
    }

    /// A value that holds nothing yet.
    pub fn empty() -> (r: SOMPrimitiveType<T>)
        ensures
            r.value == None::<T>,
            r.spec_meta() == None::<SOMTypeMeta>,
    {
        SOMPrimitiveType { value: None, meta: None }
    }

    /// A value that holds `value`.
    pub fn new(value: T) -> (r: SOMPrimitiveType<T>)
        ensures
            r.value == Some(value),
            r.spec_meta() == None::<SOMTypeMeta>,
    {
        SOMPrimitiveType { value: Some(value), meta: None }
    }

    /// A value that holds `value`.
    pub fn from(value: T) -> (r: SOMPrimitiveType<T>)
        ensures
            r.value == Some(value),
            r.spec_meta() == None::<SOMTypeMeta>,
    {
        SOMPrimitiveType { value: Some(value), meta: None }
    }

    /// Sets the value.
    pub fn set(&mut self, value: T)
        ensures
            final(self).value == Some(value),
            final(self).spec_meta() == old(self).spec_meta(),
    {
        self.value = Some(value);
    }

    /// The value, if set.
    pub fn get(&self) -> (r: Option<T>)
        ensures
            r == self.value,
    {
        self.value
    }

    /// The value shown with the name and description `meta`.
    pub fn with_meta(self, meta: SOMTypeMeta) -> (r: SOMPrimitiveType<T>)
        ensures
            r.value == self.value,
            r.spec_meta() == Some(meta),
    {
        SOMPrimitiveType { value: self.value, meta: Some(meta) }
    }

    /// The name and description that the value is shown with, if any.
    pub fn meta(&self) -> (r: Option<&SOMTypeMeta>)
        ensures
            r is None <==> self.spec_meta() is None,
            r matches Some(m) ==> self.spec_meta() == Some(*m),
    {
        match &self.meta {
            Some(m) => Some(m),
            None => None,
        }
    }
}

impl<T: WirePrim> SOMType for SOMPrimitiveType<T> {
    type Model = SOMPrimitiveType<T>;

    open spec fn model(&self) -> Self {
        *self
    }

    open spec fn ser_spec(m: Self, offset: int, buf: Seq<u8>) -> Result<Seq<u8>, SOMErrorView> {
        prim_ser(m.value, SOMEndian::Big, offset, buf)
    }

    open spec fn parse_spec(m: Self, offset: int, data: Seq<u8>) -> (Self, Result<nat, SOMErrorView>) {
        match prim_parse::<T>(SOMEndian::Big, offset, data) {
            Ok(v) => (SOMPrimitiveType { value: Some(v), ..m }, Ok(T::width())),
            Err(e) => (m, Err(e)),
        }
    }

    open spec fn parse_safe(m: Self, offset: int, data: Seq<u8>) -> bool {
        true
    }

    open spec fn ser_safe(m: Self) -> bool {
        true
    }

    open spec fn size_spec(m: Self) -> nat {
        T::width()
    }

    open spec fn info_spec(m: Self) -> SOMTypeInfo {
        SOMTypeInfo::FixedLength
    }

    fn serialize(&self, serializer: &mut SOMSerializer) -> (r: Result<usize, SOMError>) {
        prim_write(self.value, SOMEndian::Big, serializer)
    }

    fn parse(&mut self, parser: &mut SOMParser) -> (r: Result<usize, SOMError>) {
        match prim_get::<T>(SOMEndian::Big, parser) {
            Ok(v) => {
                self.value = Some(v);
                Ok(T::wire_width())
            },
            Err(e) => Err(e),
        }
    }

    fn size(&self) -> (r: usize) {
        T::wire_width()
    }

    fn info(&self) -> (r: SOMTypeInfo) {
        SOMTypeInfo::FixedLength
    }
}

/// A primitive value with a byte order, which may hold no value yet.
#[derive(Debug)]
pub struct SOMPrimitiveTypeWithEndian<T> {
    /// The value.
    pub primitive: SOMPrimitiveType<T>,
    /// The byte order.
    pub endian: SOMEndian,
}

impl<T: WirePrim> SOMPrimitiveTypeWithEndian<T> {
    /// A value that holds nothing yet.
    pub fn empty(endian: SOMEndian) -> (r: SOMPrimitiveTypeWithEndian<T>)
        ensures
            r.primitive.value == None::<T>,
            r.primitive.spec_meta() == None::<SOMTypeMeta>,
            r.endian == endian,
    {
        SOMPrimitiveTypeWithEndian { primitive: SOMPrimitiveType::empty(), endian }
    }

    /// A value that holds `value`.
    pub fn new(endian: SOMEndian, value: T) -> (r: SOMPrimitiveTypeWithEndian<T>)
        ensures
            r.primitive.value == Some(value),
            r.primitive.spec_meta() == None::<SOMTypeMeta>,
            r.endian == endian,
    {
        SOMPrimitiveTypeWithEndian { endian, primitive: SOMPrimitiveType::new(value) }
    }

    /// A value that holds `value`.
    pub fn from(endian: SOMEndian, value: T) -> (r: SOMPrimitiveTypeWithEndian<T>)
        ensures
            r.primitive.value == Some(value),
            r.primitive.spec_meta() == None::<SOMTypeMeta>,
            r.endian == endian,
    {
        SOMPrimitiveTypeWithEndian { endian, primitive: SOMPrimitiveType::new(value) }
    }

    /// Sets the value.
    pub fn set(&mut self, value: T)
        ensures
            final(self).primitive.value == Some(value),
            final(self).primitive.spec_meta() == old(self).primitive.spec_meta(),
            final(self).endian == old(self).endian,
    {
        self.primitive.set(value);
    }

    /// The value, if set.
    pub fn get(&self) -> (r: Option<T>)
        ensures
            r == self.primitive.value,
    {
        self.primitive.get()
    }

    /// The value without its byte order.
    pub fn primitive(&self) -> (r: &SOMPrimitiveType<T>)
        ensures
            *r == self.primitive,
    {
        &self.primitive
    }

    /// The value shown with the name and description `meta`.
    pub fn with_meta(self, meta: SOMTypeMeta) -> (r: SOMPrimitiveTypeWithEndian<T>)
        ensures
            r.primitive.value == self.primitive.value,
            r.primitive.spec_meta() == Some(meta),
            r.endian == self.endian,
    {
        SOMPrimitiveTypeWithEndian { primitive: self.primitive.with_meta(meta), endian: self.endian }
    }

    /// The name and description that the value is shown with, if any.
    pub fn meta(&self) -> (r: Option<&SOMTypeMeta>)
        ensures
            r is None <==> self.primitive.spec_meta() is None,
            r matches Some(m) ==> self.primitive.spec_meta() == Some(*m),
    {
        self.primitive.meta()
    }
}

impl<T: WirePrim> SOMType for SOMPrimitiveTypeWithEndian<T> {
    type Model = SOMPrimitiveTypeWithEndian<T>;

    open spec fn model(&self) -> Self {
        *self
    }

    open spec fn ser_spec(m: Self, offset: int, buf: Seq<u8>) -> Result<Seq<u8>, SOMErrorView> {
        prim_ser(m.primitive.value, m.endian, offset, buf)
    }

    open spec fn parse_spec(m: Self, offset: int, data: Seq<u8>) -> (Self, Result<nat, SOMErrorView>) {
        match prim_parse::<T>(m.endian, offset, data) {
            Ok(v) => (
                SOMPrimitiveTypeWithEndian {
                    primitive: SOMPrimitiveType { value: Some(v), ..m.primitive },
                    endian: m.endian,
                },
                Ok(T::width()),
            ),
            Err(e) => (m, Err(e)),
        }
    }

    open spec fn parse_safe(m: Self, offset: int, data: Seq<u8>) -> bool {
        true
    }

    open spec fn ser_safe(m: Self) -> bool {
        true
    }

    open spec fn size_spec(m: Self) -> nat {
        T::width()
    }

    open spec fn info_spec(m: Self) -> SOMTypeInfo {
        SOMTypeInfo::FixedLength
    }

    fn serialize(&self, serializer: &mut SOMSerializer) -> (r: Result<usize, SOMError>) {
        prim_write(self.primitive.value, self.endian, serializer)
    }

    fn parse(&mut self, parser: &mut SOMParser) -> (r: Result<usize, SOMError>) {
        match prim_get::<T>(self.endian, parser) {
            Ok(v) => {
                self.primitive.value = Some(v);
                Ok(T::wire_width())
            },
            Err(e) => Err(e),
        }
    }

    fn size(&self) -> (r: usize) {
        T::wire_width()
    }

    fn info(&self) -> (r: SOMTypeInfo) {
        SOMTypeInfo::FixedLength
    }
}

/// A boolean.
pub type SOMBool = SOMPrimitiveType<bool>;

/// An unsigned 8-bit integer.
pub type SOMu8 = SOMPrimitiveType<u8>;

/// A signed 8-bit integer.
pub type SOMi8 = SOMPrimitiveType<i8>;

/// An unsigned 16-bit integer.
pub type SOMu16 = SOMPrimitiveTypeWithEndian<u16>;

/// A signed 16-bit integer.
pub type SOMi16 = SOMPrimitiveTypeWithEndian<i16>;

/// An unsigned 24-bit integer.
pub type SOMu24 = SOMPrimitiveTypeWithEndian<U24>;

/// A signed 24-bit integer.
pub type SOMi24 = SOMPrimitiveTypeWithEndian<I24>;

/// An unsigned 32-bit integer.
pub type SOMu32 = SOMPrimitiveTypeWithEndian<u32>;

/// A signed 32-bit integer.
pub type SOMi32 = SOMPrimitiveTypeWithEndian<i32>;

/// An unsigned 64-bit integer.
pub type SOMu64 = SOMPrimitiveTypeWithEndian<u64>;

/// A signed 64-bit integer.
pub type SOMi64 = SOMPrimitiveTypeWithEndian<i64>;

/// A 32-bit floating-point number.
pub type SOMf32 = SOMPrimitiveTypeWithEndian<F32>;

/// A 64-bit floating-point number.
pub type SOMf64 = SOMPrimitiveTypeWithEndian<F64>;

} // verus!
