//! Tests of the payload types: writing and reading values of each type.

use someip::som::{
    SOMEndian, SOMError, SOMLengthField, SOMParser, SOMSerializer, SOMType, SOMTypeField,
};
use someip::som_enums::{SOMu16Enum, SOMu32Enum, SOMu64Enum, SOMu8Enum};
use someip::som_primitives::{
    SOMBool, SOMf32, SOMf64, SOMi16, SOMi24, SOMi32, SOMi64, SOMi8, SOMu16, SOMu24, SOMu32,
    SOMu64, SOMu8, F32, F64, I24, U24,
};
use someip::som_strings::{SOMString, SOMStringEncoding, SOMStringFormat};
use someip::som_wrapper::{
    SOMArray, SOMArrayMember, SOMOptional, SOMOptionalMember, SOMStruct, SOMStructMember,
    SOMUnion, SOMUnionMember, SOMu16Array, SOMu8Array,
};

fn serialize_parse<T: SOMType>(obj1: &T, obj2: &mut T, data: &[u8]) {
    serialize(obj1, data);
    parse(obj2, data);
}

fn serialize<T: SOMType>(obj1: &T, data: &[u8]) {
    let size = data.len();
    assert_eq!(size, obj1.size());

    let buffer = vec![0u8; size];
    let mut serializer = SOMSerializer::new(buffer);
    assert_eq!(size, obj1.serialize(&mut serializer).unwrap());
    assert_eq!(serializer.into_buffer(), data);
}

fn parse<T: SOMType>(obj2: &mut T, data: &[u8]) {
    let mut parser = SOMParser::new(data);
    let size = data.len();
    assert_eq!(size, obj2.parse(&mut parser).unwrap());
    assert_eq!(size, obj2.size());
}

fn serialize_fail<T: SOMType>(obj: &T, buffer: &mut [u8], error: &str) {
    let mut serializer = SOMSerializer::new(buffer.to_vec());
    match obj.serialize(&mut serializer) {
        Err(err) => match err {
            SOMError::BufferExhausted(msg) => assert_eq!(msg, error),
            SOMError::InvalidPayload(msg) => assert_eq!(msg, error),
            SOMError::InvalidType(msg) => assert_eq!(msg, error),
        },
        _ => panic!(),
    }
}

fn parse_fail<T: SOMType>(obj: &mut T, buffer: &[u8], error: &str) {
    let mut parser = SOMParser::new(&buffer[..]);
    match obj.parse(&mut parser) {
        Err(err) => match err {
            SOMError::BufferExhausted(msg) => assert_eq!(msg, error),
            SOMError::InvalidPayload(msg) => assert_eq!(msg, error),
            SOMError::InvalidType(msg) => assert_eq!(msg, error),
        },
        _ => panic!(),
    }
}


#[test]
fn test_som_primitive() {
    // generic
    {
        let obj = SOMu8::new(1u8);
        assert_eq!(1u8, obj.get().unwrap());

        let mut obj = SOMu8::empty();
        assert_eq!(None, obj.get());
        obj.set(1u8);
        assert_eq!(1u8, obj.get().unwrap());

        let obj = SOMu16::new(SOMEndian::Big, 1u16);
        assert_eq!(1u16, obj.get().unwrap());

        let mut obj = SOMu16::empty(SOMEndian::Big);
        assert_eq!(None, obj.get());
        obj.set(1u16);
        assert_eq!(1u16, obj.get().unwrap());
    }

    // bool
    {
        let obj1 = SOMBool::new(true);
        let mut obj2 = SOMBool::empty();
        serialize_parse(&obj1, &mut obj2, &[0x01]);
        assert_eq!(true, obj2.get().unwrap());

        let obj1 = SOMBool::new(false);
        let mut obj2 = SOMBool::empty();
        serialize_parse(&obj1, &mut obj2, &[0x00]);
        assert_eq!(false, obj2.get().unwrap());

        let mut obj = SOMBool::new(true);
        serialize_fail(
            &obj,
            &mut [0u8; 0],
            "Serializer exausted at offset: 0 for Object size: 1",
        );
        parse_fail(
            &mut obj,
            &[0u8; 0],
            "Parser exausted at offset: 0 for Object size: 1",
        );

        let mut obj = SOMBool::empty();
        serialize_fail(&obj, &mut [0u8; 1], "Uninitialized Type at offset: 0");
        parse_fail(&mut obj, &[0x2], "Invalid Bool value: 2 at offset: 0");
    }

    // u8
    {
        let obj1 = SOMu8::new(195u8);
        let mut obj2 = SOMu8::empty();
        serialize_parse(&obj1, &mut obj2, &[0xC3]);
        assert_eq!(195u8, obj2.get().unwrap());

        let mut obj = SOMu8::new(195u8);
        serialize_fail(
            &obj,
            &mut [0u8; 0],
            "Serializer exausted at offset: 0 for Object size: 1",
        );
        parse_fail(
            &mut obj,
            &[0u8; 0],
            "Parser exausted at offset: 0 for Object size: 1",
        );

        let obj = SOMu8::empty();
        serialize_fail(&obj, &mut [0u8; 1], "Uninitialized Type at offset: 0");
    }

    // i8
    {
        let obj1 = SOMi8::new(-95i8);
        let mut obj2 = SOMi8::empty();
        serialize_parse(&obj1, &mut obj2, &[0xA1]);
        assert_eq!(-95i8, obj2.get().unwrap());

        let mut obj = SOMi8::new(-95i8);
        serialize_fail(
            &obj,
            &mut [0u8; 0],
            "Serializer exausted at offset: 0 for Object size: 1",
        );
        parse_fail(
            &mut obj,
            &[0u8; 0],
            "Parser exausted at offset: 0 for Object size: 1",
        );

        let obj = SOMi8::empty();
        serialize_fail(&obj, &mut [0u8; 1], "Uninitialized Type at offset: 0");
    }

    // u16
    {
        let obj1 = SOMu16::new(SOMEndian::Big, 49200u16);
        let mut obj2 = SOMu16::empty(SOMEndian::Big);
        serialize_parse(&obj1, &mut obj2, &[0xC0, 0x30]);
        assert_eq!(49200u16, obj2.get().unwrap());

        let obj1 = SOMu16::new(SOMEndian::Little, 49200u16);
        let mut obj2 = SOMu16::empty(SOMEndian::Little);
        serialize_parse(&obj1, &mut obj2, &[0x30, 0xC0]);
        assert_eq!(49200u16, obj2.get().unwrap());

        let mut obj = SOMu16::new(SOMEndian::Big, 49200u16);
        serialize_fail(
            &obj,
            &mut [0u8; 1],
            "Serializer exausted at offset: 0 for Object size: 2",
        );
        parse_fail(
            &mut obj,
            &[0u8; 1],
            "Parser exausted at offset: 0 for Object size: 2",
        );

        let obj = SOMu16::empty(SOMEndian::Big);
        serialize_fail(&obj, &mut [0u8; 2], "Uninitialized Type at offset: 0");
    }

    // i16
    {
        let obj1 = SOMi16::new(SOMEndian::Big, -9200i16);
        let mut obj2 = SOMi16::empty(SOMEndian::Big);
        serialize_parse(&obj1, &mut obj2, &[0xDC, 0x10]);
        assert_eq!(-9200i16, obj2.get().unwrap());

        let obj1 = SOMi16::new(SOMEndian::Little, -9200i16);
        let mut obj2 = SOMi16::empty(SOMEndian::Little);
        serialize_parse(&obj1, &mut obj2, &[0x10, 0xDC]);
        assert_eq!(-9200i16, obj2.get().unwrap());

        let mut obj = SOMi16::new(SOMEndian::Big, -9200i16);
        serialize_fail(
            &obj,
            &mut [0u8; 1],
            "Serializer exausted at offset: 0 for Object size: 2",
        );
        parse_fail(
            &mut obj,
            &[0u8; 1],
            "Parser exausted at offset: 0 for Object size: 2",
        );

        let obj = SOMi16::empty(SOMEndian::Big);
        serialize_fail(&obj, &mut [0u8; 2], "Uninitialized Type at offset: 0");
    }

    // u24
    {
        let obj1 = SOMu24::new(SOMEndian::Big, U24::new(12513060u32));
        let mut obj2 = SOMu24::empty(SOMEndian::Big);
        serialize_parse(&obj1, &mut obj2, &[0xBE, 0xEF, 0x24]);
        assert_eq!(U24::new(12513060u32), obj2.get().unwrap());

        let obj1 = SOMu24::new(SOMEndian::Little, U24::new(12513060u32));
        let mut obj2 = SOMu24::empty(SOMEndian::Little);
        serialize_parse(&obj1, &mut obj2, &[0x24, 0xEF, 0xBE]);
        assert_eq!(U24::new(12513060u32), obj2.get().unwrap());

        let mut obj = SOMu24::new(SOMEndian::Big, U24::new(12513060u32));
        serialize_fail(
            &obj,
            &mut [0u8; 2],
            "Serializer exausted at offset: 0 for Object size: 3",
        );
        parse_fail(
            &mut obj,
            &[0u8; 2],
            "Parser exausted at offset: 0 for Object size: 3",
        );

        let obj = SOMu24::empty(SOMEndian::Big);
        serialize_fail(&obj, &mut [0u8; 2], "Uninitialized Type at offset: 0");
    }

    // i24
    {
        let obj1 = SOMi24::new(SOMEndian::Big, I24::new(-2513060i32));
        let mut obj2 = SOMi24::empty(SOMEndian::Big);
        serialize_parse(&obj1, &mut obj2, &[0xD9, 0xA7, 0x5C]);
        assert_eq!(I24::new(-2513060i32), obj2.get().unwrap());

        let obj1 = SOMi24::new(SOMEndian::Little, I24::new(-2513060i32));
        let mut obj2 = SOMi24::empty(SOMEndian::Little);
        serialize_parse(&obj1, &mut obj2, &[0x5C, 0xA7, 0xD9]);
        assert_eq!(I24::new(-2513060i32), obj2.get().unwrap());

        let mut obj = SOMi24::new(SOMEndian::Big, I24::new(-2513060i32));
        serialize_fail(
            &obj,
            &mut [0u8; 2],
            "Serializer exausted at offset: 0 for Object size: 3",
        );
        parse_fail(
            &mut obj,
            &[0u8; 2],
            "Parser exausted at offset: 0 for Object size: 3",
        );

        let obj = SOMi24::empty(SOMEndian::Big);
        serialize_fail(&obj, &mut [0u8; 2], "Uninitialized Type at offset: 0");
    }

    // u32
    {
        let obj1 = SOMu32::new(SOMEndian::Big, 3405691582u32);
        let mut obj2 = SOMu32::empty(SOMEndian::Big);
        serialize_parse(&obj1, &mut obj2, &[0xCA, 0xFE, 0xBA, 0xBE]);
        assert_eq!(3405691582u32, obj2.get().unwrap());

        let obj1 = SOMu32::new(SOMEndian::Little, 3405691582u32);
        let mut obj2 = SOMu32::empty(SOMEndian::Little);
        serialize_parse(&obj1, &mut obj2, &[0xBE, 0xBA, 0xFE, 0xCA]);
        assert_eq!(3405691582u32, obj2.get().unwrap());

        let mut obj = SOMu32::new(SOMEndian::Big, 3405691582u32);
        serialize_fail(
            &obj,
            &mut [0u8; 3],
            "Serializer exausted at offset: 0 for Object size: 4",
        );
        parse_fail(
            &mut obj,
            &[0u8; 3],
            "Parser exausted at offset: 0 for Object size: 4",
        );

        let obj = SOMu32::empty(SOMEndian::Big);
        serialize_fail(&obj, &mut [0u8; 2], "Uninitialized Type at offset: 0");
    }

    // i32
    {
        let obj1 = SOMi32::new(SOMEndian::Big, -405691582i32);
        let mut obj2 = SOMi32::empty(SOMEndian::Big);
        serialize_parse(&obj1, &mut obj2, &[0xE7, 0xD1, 0xA3, 0x42]);
        assert_eq!(-405691582i32, obj2.get().unwrap());

        let obj1 = SOMi32::new(SOMEndian::Little, -405691582i32);
        let mut obj2 = SOMi32::empty(SOMEndian::Little);
        serialize_parse(&obj1, &mut obj2, &[0x42, 0xA3, 0xD1, 0xE7]);
        assert_eq!(-405691582i32, obj2.get().unwrap());

        let mut obj = SOMi32::new(SOMEndian::Big, -405691582i32);
        serialize_fail(
            &obj,
            &mut [0u8; 3],
            "Serializer exausted at offset: 0 for Object size: 4",
        );
        parse_fail(
            &mut obj,
            &[0u8; 3],
            "Parser exausted at offset: 0 for Object size: 4",
        );

        let obj = SOMi32::empty(SOMEndian::Big);
        serialize_fail(&obj, &mut [0u8; 2], "Uninitialized Type at offset: 0");
    }

    // u64
    {
        let obj1 = SOMu64::new(SOMEndian::Big, 16045704242864831166u64);
        let mut obj2 = SOMu64::empty(SOMEndian::Big);
        serialize_parse(
            &obj1,
            &mut obj2,
            &[0xDE, 0xAD, 0xCA, 0xFE, 0xBE, 0xEF, 0xBA, 0xBE],
        );
        assert_eq!(16045704242864831166u64, obj2.get().unwrap());

        let obj1 = SOMu64::new(SOMEndian::Little, 16045704242864831166u64);
        let mut obj2 = SOMu64::empty(SOMEndian::Little);
        serialize_parse(
            &obj1,
            &mut obj2,
            &[0xBE, 0xBA, 0xEF, 0xBE, 0xFE, 0xCA, 0xAD, 0xDE],
        );
        assert_eq!(16045704242864831166u64, obj2.get().unwrap());

        let mut obj = SOMu64::new(SOMEndian::Big, 16045704242864831166u64);
        serialize_fail(
            &obj,
            &mut [0u8; 7],
            "Serializer exausted at offset: 0 for Object size: 8",
        );
        parse_fail(
            &mut obj,
            &[0u8; 7],
            "Parser exausted at offset: 0 for Object size: 8",
        );

        let obj = SOMu64::empty(SOMEndian::Big);
        serialize_fail(&obj, &mut [0u8; 2], "Uninitialized Type at offset: 0");
    }

    // i64
    {
        let obj1 = SOMi64::new(SOMEndian::Big, -6045704242864831166i64);
        let mut obj2 = SOMi64::empty(SOMEndian::Big);
        serialize_parse(
            &obj1,
            &mut obj2,
            &[0xAC, 0x19, 0x58, 0x05, 0xCA, 0xF8, 0x45, 0x42],
        );
        assert_eq!(-6045704242864831166i64, obj2.get().unwrap());

        let obj1 = SOMi64::new(SOMEndian::Little, -6045704242864831166i64);
        let mut obj2 = SOMi64::empty(SOMEndian::Little);
        serialize_parse(
            &obj1,
            &mut obj2,
            &[0x42, 0x45, 0xF8, 0xCA, 0x05, 0x58, 0x19, 0xAC],
        );
        assert_eq!(-6045704242864831166i64, obj2.get().unwrap());

        let mut obj = SOMi64::new(SOMEndian::Big, -6045704242864831166i64);
        serialize_fail(
            &obj,
            &mut [0u8; 7],
            "Serializer exausted at offset: 0 for Object size: 8",
        );
        parse_fail(
            &mut obj,
            &[0u8; 7],
            "Parser exausted at offset: 0 for Object size: 8",
        );

        let obj = SOMi64::empty(SOMEndian::Big);
        serialize_fail(&obj, &mut [0u8; 2], "Uninitialized Type at offset: 0");
    }

    // f32
    {
        let obj1 = SOMf32::new(SOMEndian::Big, F32 { bits: 1.0f32.to_bits() });
        let mut obj2 = SOMf32::empty(SOMEndian::Big);
        serialize_parse(&obj1, &mut obj2, &[0x3F, 0x80, 0x00, 0x00]);
        assert_eq!(1.0f32, f32::from_bits(obj2.get().unwrap().bits));

        let obj1 = SOMf32::new(SOMEndian::Little, F32 { bits: 1.0f32.to_bits() });
        let mut obj2 = SOMf32::empty(SOMEndian::Little);
        serialize_parse(&obj1, &mut obj2, &[0x00, 0x00, 0x80, 0x3F]);
        assert_eq!(1.0f32, f32::from_bits(obj2.get().unwrap().bits));

        let mut obj = SOMf32::new(SOMEndian::Big, F32 { bits: 1.0f32.to_bits() });
        serialize_fail(
            &obj,
            &mut [0u8; 3],
            "Serializer exausted at offset: 0 for Object size: 4",
        );
        parse_fail(
            &mut obj,
            &[0u8; 3],
            "Parser exausted at offset: 0 for Object size: 4",
        );

        let obj = SOMf32::empty(SOMEndian::Big);
        serialize_fail(&obj, &mut [0u8; 2], "Uninitialized Type at offset: 0");
    }

    // f64
    {
        let obj1 = SOMf64::new(SOMEndian::Big, F64 { bits: 1.0f64.to_bits() });
        let mut obj2 = SOMf64::empty(SOMEndian::Big);
        serialize_parse(
            &obj1,
            &mut obj2,
            &[0x3F, 0xF0, 0x00, 0x00, 0x00, 0x00, 0x00, 0x00],
        );
        assert_eq!(1.0f64, f64::from_bits(obj2.get().unwrap().bits));

        let obj1 = SOMf64::new(SOMEndian::Little, F64 { bits: 1.0f64.to_bits() });
        let mut obj2 = SOMf64::empty(SOMEndian::Little);
        serialize_parse(
            &obj1,
            &mut obj2,
            &[0x00, 0x00, 0x00, 0x00, 0x00, 0x00, 0xF0, 0x3F],
        );
        assert_eq!(1.0f64, f64::from_bits(obj2.get().unwrap().bits));

        let mut obj = SOMf64::new(SOMEndian::Big, F64 { bits: 1.0f64.to_bits() });
        serialize_fail(
            &obj,
            &mut [0u8; 7],
            "Serializer exausted at offset: 0 for Object size: 8",
        );
        parse_fail(
            &mut obj,
            &[0u8; 7],
            "Parser exausted at offset: 0 for Object size: 8",
        );

        let obj = SOMf64::empty(SOMEndian::Big);
        serialize_fail(&obj, &mut [0u8; 2], "Uninitialized Type at offset: 0");
    }
}

#[test]
fn test_som_struct() {
    // empty struct
    {
        let obj1 = SOMStruct::new();
        assert_eq!(0, obj1.len());

        let mut obj2 = SOMStruct::new();
        serialize_parse(&obj1, &mut obj2, &[]);
        assert_eq!(0, obj2.len());
    }

    // simple struct
    {
        let mut obj1 = SOMStruct::new();
        obj1.add(SOMStructMember::Bool(SOMBool::new(true)));
        obj1.add(SOMStructMember::U16(SOMu16::new(SOMEndian::Big, 49200u16)));
        assert_eq!(2, obj1.len());

        let mut obj2 = SOMStruct::new();
        obj2.add(SOMStructMember::Bool(SOMBool::empty()));
        obj2.add(SOMStructMember::U16(SOMu16::empty(SOMEndian::Big)));

        serialize_parse(
            &obj1,
            &mut obj2,
            &[
                0x01, // Bool-Memeber
                0xC0, 0x30, // U16-Member
            ],
        );
        assert_eq!(2, obj2.len());

        if let Some(SOMStructMember::Bool(sub)) = obj2.get(0) {
            assert_eq!(true, sub.get().unwrap());
        } else {
            panic!();
        }

        if let Some(SOMStructMember::U16(sub)) = obj2.get(1) {
            assert_eq!(49200u16, sub.get().unwrap());
        } else {
            panic!();
        }

        serialize_fail(
            &obj1,
            &mut [0u8; 2],
            "Serializer exausted at offset: 1 for Object size: 2",
        );
        parse_fail(
            &mut obj2,
            &[0u8; 2],
            "Parser exausted at offset: 1 for Object size: 2",
        );
    }

    // complex struct
    {
        let mut sub1 = SOMStruct::new();
        sub1.add(SOMStructMember::Bool(SOMBool::new(true)));
        sub1.add(SOMStructMember::U16(SOMu16::new(SOMEndian::Big, 49200u16)));

        let mut sub2 = SOMStruct::new();
        sub2.add(SOMStructMember::U16(SOMu16::new(
            SOMEndian::Little,
            49200u16,
        )));
        sub2.add(SOMStructMember::Bool(SOMBool::new(true)));

        let mut obj1 = SOMStruct::new();
        obj1.add(SOMStructMember::Struct(sub1));
        obj1.add(SOMStructMember::Struct(sub2));
        assert_eq!(2, obj1.len());

        let mut sub1 = SOMStruct::new();
        sub1.add(SOMStructMember::Bool(SOMBool::empty()));
        sub1.add(SOMStructMember::U16(SOMu16::empty(SOMEndian::Big)));

        let mut sub2 = SOMStruct::new();
        sub2.add(SOMStructMember::U16(SOMu16::empty(SOMEndian::Little)));
        sub2.add(SOMStructMember::Bool(SOMBool::empty()));

        let mut obj2 = SOMStruct::new();
        obj2.add(SOMStructMember::Struct(sub1));
        obj2.add(SOMStructMember::Struct(sub2));

        serialize_parse(
            &obj1,
            &mut obj2,
            &[
                0x01, // Bool-Member
                0xC0, 0x30, // U16-Member
                0x30, 0xC0, // U16-Member
                0x01, // Bool-Member
            ],
        );
        assert_eq!(2, obj2.len());

        if let Some(SOMStructMember::Struct(sub)) = obj2.get(0) {
            if let Some(SOMStructMember::Bool(subsub)) = sub.get(0) {
                assert_eq!(true, subsub.get().unwrap());
            } else {
                panic!();
            }

            if let Some(SOMStructMember::U16(subsub)) = sub.get(1) {
                assert_eq!(49200u16, subsub.get().unwrap());
            } else {
                panic!();
            }
        } else {
            panic!();
        }

        if let Some(SOMStructMember::Struct(sub)) = obj2.get(1) {
            if let Some(SOMStructMember::U16(subsub)) = sub.get(0) {
                assert_eq!(49200u16, subsub.get().unwrap());
            } else {
                panic!();
            }

            if let Some(SOMStructMember::Bool(subsub)) = sub.get(1) {
                assert_eq!(true, subsub.get().unwrap());
            } else {
                panic!();
            }
        } else {
            panic!();
        }

        serialize_fail(
            &obj1,
            &mut [0u8; 5],
            "Serializer exausted at offset: 5 for Object size: 1",
        );
        parse_fail(
            &mut obj2,
            &[0u8; 5],
            "Parser exausted at offset: 5 for Object size: 1",
        );

        let mut obj = SOMStruct::new();
        obj.add(SOMStructMember::Bool(SOMBool::empty()));

        serialize_fail(&obj, &mut [0u8; 1], "Uninitialized Type at offset: 0");
        parse_fail(&mut obj, &[0x2], "Invalid Bool value: 2 at offset: 0");
    }

    // struct with array
    {
        let mut sub1 = SOMu16Array::fixed(3);
        let mut sub2 = SOMu16Array::fixed(3);
        for i in 0..3 {
            sub1.add(SOMu16::new(SOMEndian::Big, (i + 1) as u16));
            sub2.add(SOMu16::empty(SOMEndian::Big));
        }

        let mut obj1 = SOMStruct::new();
        obj1.add(SOMStructMember::ArrayU16(sub1));
        assert_eq!(1, obj1.len());

        let mut obj2 = SOMStruct::new();
        obj2.add(SOMStructMember::ArrayU16(sub2));

        serialize_parse(
            &obj1,
            &mut obj2,
            &[
                0x00, 0x01, // Array-Member (U16)
                0x00, 0x02, // Array-Member (U16)
                0x00, 0x03, // Array-Member (U16)
            ],
        );
        assert_eq!(1, obj2.len());

        if let Some(SOMStructMember::ArrayU16(sub)) = obj2.get(0) {
            assert_eq!(3, sub.len());
            for i in 0..3 {
                assert_eq!((i + 1) as u16, sub.get(i).unwrap().get().unwrap());
            }
        } else {
            panic!();
        }
    }

    // struct with array of array
    {
        let mut subsub1 = SOMu8Array::fixed(3);
        let mut subsub2 = SOMu8Array::fixed(3);
        for i in 0..3 {
            subsub1.add(SOMu8::new((i + 1) as u8));
            subsub2.add(SOMu8::empty());
        }

        let mut sub1 = SOMArray::dynamic(SOMLengthField::U8, 0, 3);
        sub1.add(SOMArrayMember::ArrayU8(subsub1));

        let mut sub2 = SOMArray::dynamic(SOMLengthField::U8, 0, 3);
        sub2.add(SOMArrayMember::ArrayU8(subsub2));

        let mut obj1 = SOMStruct::new();
        obj1.add(SOMStructMember::Array(sub1));
        assert_eq!(1, obj1.len());

        let mut obj2 = SOMStruct::new();
        obj2.add(SOMStructMember::Array(sub2));

        serialize_parse(
            &obj1,
            &mut obj2,
            &[
                0x03, // Length-Field (U8)
                0x01, // Array-Mamber (U8)
                0x02, // Array-Mamber (U8)
                0x03, // Array-Mamber (U8)
            ],
        );
        assert_eq!(1, obj2.len());

        if let Some(SOMStructMember::Array(sub)) = obj2.get(0) {
            assert_eq!(1, sub.len());
            if let Some(SOMArrayMember::ArrayU8(subsub)) = sub.get(0) {
                assert_eq!(3, subsub.len());
                for i in 0..3 {
                    assert_eq!((i + 1) as u8, subsub.get(i).unwrap().get().unwrap());
                }
            } else {
                panic!();
            }
        } else {
            panic!();
        }
    }

    //  struct with union
    {
        let mut sub1 = SOMUnion::new(SOMTypeField::U8);
        sub1.add(SOMUnionMember::Bool(SOMBool::empty()));
        sub1.add(SOMUnionMember::U16(SOMu16::empty(SOMEndian::Big)));

        if let Some(SOMUnionMember::U16(subsub)) = sub1.get_mut(2) {
            subsub.set(49200u16);
        } else {
            panic!();
        }
        assert!(sub1.has_value());

        let mut obj1 = SOMStruct::new();
        obj1.add(SOMStructMember::Union(sub1));
        assert_eq!(1, obj1.len());

        let mut sub1 = SOMUnion::new(SOMTypeField::U8);
        sub1.add(SOMUnionMember::Bool(SOMBool::empty()));
        sub1.add(SOMUnionMember::U16(SOMu16::empty(SOMEndian::Big)));

        let mut obj2 = SOMStruct::new();
        obj2.add(SOMStructMember::Union(sub1));

        serialize_parse(
            &obj1,
            &mut obj2,
            &[
                0x02, // Type-Field (U8)
                0xC0, 0x30, // U16-Value
            ],
        );
        assert_eq!(1, obj2.len());

        if let Some(SOMStructMember::Union(sub)) = obj2.get(0) {
            if let Some(SOMUnionMember::U16(subsub)) = sub.get() {
                assert_eq!(49200u16, subsub.get().unwrap());
            } else {
                panic!();
            }
        } else {
            panic!();
        }

        serialize_fail(
            &obj1,
            &mut [0u8; 0],
            "Serializer exausted at offset: 0 for Object size: 1",
        );
        parse_fail(
            &mut obj2,
            &[0u8; 0],
            "Parser exausted at offset: 0 for Object size: 1",
        );
    }

    //  struct with enum
    {
        let mut sub1 = SOMu16Enum::new(SOMEndian::Little);
        sub1.add(String::from("A"), 49200u16);
        assert!(sub1.set(String::from("A")));

        let mut obj1 = SOMStruct::new();
        obj1.add(SOMStructMember::EnumU16(sub1));
        assert_eq!(1, obj1.len());

        let mut sub1 = SOMu16Enum::new(SOMEndian::Little);
        sub1.add(String::from("A"), 49200u16);

        let mut obj2 = SOMStruct::new();
        obj2.add(SOMStructMember::EnumU16(sub1));

        serialize_parse(
            &obj1,
            &mut obj2,
            &[
                0x30, 0xC0, // U16-Value
            ],
        );
        assert_eq!(1, obj2.len());

        if let Some(SOMStructMember::EnumU16(sub)) = obj2.get(0) {
            assert_eq!(49200u16, sub.get().unwrap());
        } else {
            panic!();
        }

        serialize_fail(
            &obj1,
            &mut [0u8; 0],
            "Serializer exausted at offset: 0 for Object size: 2",
        );
        parse_fail(
            &mut obj2,
            &[0u8; 0],
            "Parser exausted at offset: 0 for Object size: 2",
        );
    }

    // struct with string
    {
        let mut obj1 = SOMStruct::new();
        obj1.add(SOMStructMember::String(SOMString::fixed(
            SOMStringEncoding::Utf8,
            SOMStringFormat::Plain,
            3,
        )));
        obj1.add(SOMStructMember::String(SOMString::dynamic(
            SOMLengthField::U8,
            SOMStringEncoding::Utf16Be,
            SOMStringFormat::Plain,
            1,
            3,
        )));
        assert_eq!(2, obj1.len());

        if let Some(SOMStructMember::String(sub)) = obj1.get_mut(0) {
            sub.set(String::from("foo"));
        } else {
            panic!();
        }

        if let Some(SOMStructMember::String(sub)) = obj1.get_mut(1) {
            sub.set(String::from("bar"));
        } else {
            panic!();
        }

        let mut obj2 = SOMStruct::new();
        obj2.add(SOMStructMember::String(SOMString::fixed(
            SOMStringEncoding::Utf8,
            SOMStringFormat::Plain,
            3,
        )));
        obj2.add(SOMStructMember::String(SOMString::dynamic(
            SOMLengthField::U8,
            SOMStringEncoding::Utf16Be,
            SOMStringFormat::Plain,
            1,
            3,
        )));

        serialize_parse(
            &obj1,
            &mut obj2,
            &[
                0x66, 0x6F, 0x6F, // String-Memeber (UTF8)
                0x06, // Lenght-Field (U8)
                0x00, 0x62, 0x00, 0x61, 0x00, 0x72, // String-Memeber (UTF16)
            ],
        );
        assert_eq!(2, obj2.len());

        if let Some(SOMStructMember::String(sub)) = obj2.get(0) {
            assert_eq!(String::from("foo"), sub.get());
        } else {
            panic!();
        }

        if let Some(SOMStructMember::String(sub)) = obj2.get(1) {
            assert_eq!(String::from("bar"), sub.get());
        } else {
            panic!();
        }
    }

    // struct with optional
    {
        let mut sub1 = SOMOptional::new(SOMLengthField::U32);
        sub1.add(1, SOMOptionalMember::Bool(SOMBool::empty()), true);
        assert_eq!(1, sub1.len());

        if let Some(SOMOptionalMember::Bool(sub)) = sub1.get_mut(1) {
            sub.set(true);
        } else {
            panic!();
        }

        let mut obj1 = SOMStruct::new();
        obj1.add(SOMStructMember::Optional(sub1));
        assert_eq!(1, obj1.len());

        let mut sub2 = SOMOptional::new(SOMLengthField::U32);
        sub2.add(1, SOMOptionalMember::Bool(SOMBool::empty()), true);

        let mut obj2 = SOMStruct::new();
        obj2.add(SOMStructMember::Optional(sub2));

        serialize_parse(
            &obj1,
            &mut obj2,
            &[
                0x00, 0x00, 0x00, 0x03, // Lenght-Field (U32)
                0x00, 0x01, // TLV-Tag (U16)
                0x01, // Bool-Member
            ],
        );
        assert_eq!(1, obj2.len());

        if let Some(SOMStructMember::Optional(sub)) = obj2.get(0) {
            assert_eq!(1, sub.len());
            if let Some(SOMStructMember::Bool(subsub)) = sub.get(1) {
                assert!(subsub.get().unwrap());
            } else {
                panic!();
            }
        } else {
            panic!();
        }
    }
}

#[test]
fn test_som_array() {
    // static array
    {
        let mut obj1 = SOMu16Array::fixed(3);
        let mut obj2 = SOMu16Array::fixed(3);
        assert!(!obj1.is_dynamic());
        assert_eq!(0, obj1.len());

        for i in 0..3 {
            obj1.add(SOMu16::new(SOMEndian::Big, (i + 1) as u16));
            obj2.add(SOMu16::empty(SOMEndian::Big));
        }
        assert_eq!(3, obj1.len());

        serialize_parse(
            &obj1,
            &mut obj2,
            &[
                0x00, 0x01, // Array-Member (U16)
                0x00, 0x02, // Array-Member (U16)
                0x00, 0x03, // Array-Member (U16)
            ],
        );
        assert!(!obj2.is_dynamic());
        assert_eq!(3, obj2.len());
        for i in 0..3 {
            assert_eq!((i + 1) as u16, obj2.get(i).unwrap().get().unwrap());
        }

        serialize_fail(
            &obj1,
            &mut [0u8; 5],
            "Serializer exausted at offset: 4 for Object size: 2",
        );
        parse_fail(
            &mut obj2,
            &[0u8; 5],
            "Parser exausted at offset: 4 for Object size: 2",
        );
    }

    // dynamic array
    {
        let mut obj1 = SOMu16Array::dynamic(SOMLengthField::U32, 0, 3);
        let mut obj2 = SOMu16Array::dynamic(SOMLengthField::U32, 0, 3);
        assert!(obj1.is_dynamic());
        assert_eq!(0, obj1.len());

        for i in 0..3 {
            obj1.add(SOMu16::new(SOMEndian::Big, (i + 1) as u16));
            obj2.add(SOMu16::empty(SOMEndian::Big));
        }
        assert_eq!(3, obj1.len());

        serialize_parse(
            &obj1,
            &mut obj2,
            &[
                0x00, 0x00, 0x00, 0x06, // Length-Field (U32)
                0x00, 0x01, // Array-Member (U16)
                0x00, 0x02, // Array-Member (U16)
                0x00, 0x03, // Array-Member (U16)
            ],
        );
        assert!(obj2.is_dynamic());
        assert_eq!(3, obj2.len());
        for i in 0..3 {
            assert_eq!((i + 1) as u16, obj2.get(i).unwrap().get().unwrap());
        }

        serialize_fail(
            &obj1,
            &mut [0u8; 3],
            "Serializer exausted at offset: 0 for Object size: 4",
        );
        parse_fail(
            &mut obj2,
            &[0u8; 3],
            "Parser exausted at offset: 0 for Object size: 4",
        );

        serialize_fail(
            &obj1,
            &mut [0u8; 9],
            "Serializer exausted at offset: 8 for Object size: 2",
        );
        parse_fail(
            &mut obj2,
            &[0u8; 9],
            "Parser exausted at offset: 8 for Object size: 2",
        );
    }

    // invalid length
    {
        let mut obj = SOMu8Array::dynamic(SOMLengthField::U8, 1, 3);

        serialize_fail(&obj, &mut [0u8; 4], "Invalid Array length: 0 at offset: 0");
        parse_fail(&mut obj, &[0u8; 4], "Invalid Array length: 0 at offset: 0");
    }

    // invalid member
    {
        let mut obj = SOMArray::fixed(3);

        obj.add(SOMArrayMember::Bool(SOMBool::new(true)));
        assert_eq!(1, obj.len());

        obj.add(SOMArrayMember::U8(SOMu8::new(1u8)));
        assert_eq!(1, obj.len());
    }
}

#[test]
fn test_som_union() {
    // empty union
    {
        let mut obj1 = SOMUnion::new(SOMTypeField::U8);
        assert_eq!(0, obj1.len());
        assert!(!obj1.has_value());
        assert!(obj1.get().is_none());
        assert!(obj1.get_mut(1).is_none());

        let mut obj2 = SOMUnion::new(SOMTypeField::U8);
        serialize_parse(
            &obj1,
            &mut obj2,
            &[
                0x00, // Type-Field (U8)
            ],
        );
        assert_eq!(0, obj2.len());
        assert!(!obj2.has_value());

        let mut obj3 = SOMUnion::new(SOMTypeField::U8);
        obj3.get_mut(1); // invalid
        assert!(!obj3.has_value());

        obj3.add(SOMUnionMember::Bool(SOMBool::empty()));
        obj3.get_mut(1);
        assert!(obj3.has_value());

        obj3.clear();
        assert!(!obj3.has_value());
    }

    // primitive union
    {
        let mut obj1 = SOMUnion::new(SOMTypeField::U8);
        obj1.add(SOMUnionMember::Bool(SOMBool::empty()));
        obj1.add(SOMUnionMember::U16(SOMu16::empty(SOMEndian::Big)));
        assert_eq!(2, obj1.len());

        if let Some(SOMUnionMember::U16(sub)) = obj1.get_mut(2) {
            sub.set(49200u16);
        } else {
            panic!();
        }
        assert!(obj1.has_value());

        let mut obj2 = SOMUnion::new(SOMTypeField::U8);
        obj2.add(SOMUnionMember::Bool(SOMBool::empty()));
        obj2.add(SOMUnionMember::U16(SOMu16::empty(SOMEndian::Big)));

        serialize_parse(
            &obj1,
            &mut obj2,
            &[
                0x02, // Type-Field (U8)
                0xC0, 0x30, // U16-Value
            ],
        );
        assert_eq!(2, obj2.len());
        assert!(obj2.has_value());

        if let Some(SOMUnionMember::U16(sub)) = obj2.get() {
            assert_eq!(49200u16, sub.get().unwrap());
        } else {
            panic!();
        }

        serialize_fail(
            &obj1,
            &mut [0u8; 0],
            "Serializer exausted at offset: 0 for Object size: 1",
        );
        parse_fail(
            &mut obj2,
            &[0u8; 0],
            "Parser exausted at offset: 0 for Object size: 1",
        );
        serialize_fail(
            &obj1,
            &mut [0u8; 2],
            "Serializer exausted at offset: 1 for Object size: 2",
        );
        parse_fail(
            &mut obj2,
            &[0x02, 0x01],
            "Parser exausted at offset: 1 for Object size: 2",
        );
        parse_fail(&mut obj2, &[0x03], "Invalid Union index: 3 at offset: 0");

        obj1.clear();
        serialize_parse(
            &obj1,
            &mut obj2,
            &[
                0x00, // Type-Field (U8)
            ],
        );
        assert!(!obj2.has_value());
    }

    // complex union
    {
        let mut sub1 = SOMStruct::new();
        sub1.add(SOMStructMember::Bool(SOMBool::empty()));
        sub1.add(SOMStructMember::U16(SOMu16::empty(SOMEndian::Big)));

        let mut obj1 = SOMUnion::new(SOMTypeField::U16);
        obj1.add(SOMUnionMember::Bool(SOMBool::empty()));
        obj1.add(SOMUnionMember::Struct(sub1));
        assert_eq!(2, obj1.len());

        if let Some(SOMUnionMember::Struct(sub)) = obj1.get_mut(2) {
            if let Some(SOMStructMember::Bool(subsub)) = sub.get_mut(0) {
                subsub.set(true);
            } else {
                panic!();
            }

            if let Some(SOMStructMember::U16(subsub)) = sub.get_mut(1) {
                subsub.set(49200u16);
            } else {
                panic!();
            }
        } else {
            panic!();
        }
        assert!(obj1.has_value());

        let mut sub2 = SOMStruct::new();
        sub2.add(SOMStructMember::Bool(SOMBool::empty()));
        sub2.add(SOMStructMember::U16(SOMu16::empty(SOMEndian::Big)));

        let mut obj2 = SOMUnion::new(SOMTypeField::U16);
        obj2.add(SOMUnionMember::Bool(SOMBool::empty()));
        obj2.add(SOMUnionMember::Struct(sub2));

        serialize_parse(
            &obj1,
            &mut obj2,
            &[
                0x00, 0x02, // Type-Field (U16)
                0x01, // Struct-Value Bool-Member
                0xC0, 0x30, // Struct-Value U16-Member
            ],
        );
        assert_eq!(2, obj2.len());
        assert!(obj2.has_value());

        if let Some(SOMUnionMember::Struct(sub)) = obj2.get() {
            if let Some(SOMStructMember::Bool(subsub)) = sub.get(0) {
                assert_eq!(true, subsub.get().unwrap());
            } else {
                panic!();
            }

            if let Some(SOMStructMember::U16(subsub)) = sub.get(1) {
                assert_eq!(49200u16, subsub.get().unwrap());
            } else {
                panic!();
            }
        } else {
            panic!();
        }

        serialize_fail(
            &obj1,
            &mut [0u8; 0],
            "Serializer exausted at offset: 0 for Object size: 2",
        );
        parse_fail(
            &mut obj2,
            &[0u8; 0],
            "Parser exausted at offset: 0 for Object size: 2",
        );
        serialize_fail(
            &obj1,
            &mut [0u8; 4],
            "Serializer exausted at offset: 3 for Object size: 2",
        );
        parse_fail(
            &mut obj2,
            &[0x00, 0x02, 0x01],
            "Parser exausted at offset: 3 for Object size: 2",
        );
    }
}

#[test]
fn test_som_enum() {
    // empty enum
    {
        let mut obj = SOMu8Enum::new();
        assert_eq!(0, obj.len());
        assert!(!obj.has_value());
        assert!(obj.get().is_none());
        assert!(!obj.set(String::from("foo")));
        assert!(obj.get().is_none());
    }

    // u8 enum
    {
        let mut obj1 = SOMu8Enum::new();
        obj1.add(String::from("A"), 23u8);
        obj1.add(String::from("B"), 42u8);
        assert_eq!(2, obj1.len());
        assert!(!obj1.has_value());

        assert!(obj1.set(String::from("A")));
        assert!(obj1.has_value());
        assert_eq!(23u8, obj1.get().unwrap());

        let mut obj2 = SOMu8Enum::new();
        obj2.add(String::from("A"), 23u8);
        obj2.add(String::from("B"), 42u8);

        serialize_parse(
            &obj1,
            &mut obj2,
            &[
                0x17, // U8-Value
            ],
        );
        assert_eq!(2, obj2.len());
        assert!(obj2.has_value());
        assert_eq!(23u8, obj2.get().unwrap());

        serialize_fail(
            &obj1,
            &mut [0u8; 0],
            "Serializer exausted at offset: 0 for Object size: 1",
        );
        parse_fail(
            &mut obj2,
            &[0u8; 0],
            "Parser exausted at offset: 0 for Object size: 1",
        );
        parse_fail(&mut obj2, &[0u8; 1], "Invalid Enum value: 0 at offset: 0");
    }

    // u16 enum
    {
        let mut obj1 = SOMu16Enum::new(SOMEndian::Big);
        obj1.add(String::from("A"), 49200u16);
        assert!(obj1.set(String::from("A")));

        let mut obj2 = SOMu16Enum::new(SOMEndian::Big);
        obj2.add(String::from("A"), 49200u16);
        serialize_parse(&obj1, &mut obj2, &[0xC0, 0x30]);
        assert_eq!(49200u16, obj2.get().unwrap());

        let mut obj3 = SOMu16Enum::new(SOMEndian::Little);
        obj3.add(String::from("A"), 49200u16);
        assert!(obj3.set(String::from("A")));

        let mut obj4 = SOMu16Enum::new(SOMEndian::Little);
        obj4.add(String::from("A"), 49200u16);
        serialize_parse(&obj3, &mut obj4, &[0x30, 0xC0]);
        assert_eq!(49200u16, obj4.get().unwrap());
    }

    // u32 enum
    {
        let mut obj1 = SOMu32Enum::new(SOMEndian::Big);
        obj1.add(String::from("A"), 3405691582u32);
        assert!(obj1.set(String::from("A")));

        let mut obj2 = SOMu32Enum::new(SOMEndian::Big);
        obj2.add(String::from("A"), 3405691582u32);
        serialize_parse(&obj1, &mut obj2, &[0xCA, 0xFE, 0xBA, 0xBE]);
        assert_eq!(3405691582u32, obj2.get().unwrap());
    }

    // u64 enum
    {
        let mut obj1 = SOMu64Enum::new(SOMEndian::Big);
        obj1.add(String::from("A"), 16045704242864831166u64);
        assert!(obj1.set(String::from("A")));

        let mut obj2 = SOMu64Enum::new(SOMEndian::Big);
        obj2.add(String::from("A"), 16045704242864831166u64);
        serialize_parse(
            &obj1,
            &mut obj2,
            &[0xDE, 0xAD, 0xCA, 0xFE, 0xBE, 0xEF, 0xBA, 0xBE],
        );
        assert_eq!(16045704242864831166u64, obj2.get().unwrap());
    }

    // invalid key
    {
        let mut obj1 = SOMu8Enum::new();

        obj1.add(String::from("A"), 23u8);
        assert_eq!(1, obj1.len());

        obj1.add(String::from("A"), 42u8);
        assert_eq!(1, obj1.len());
    }

    // invalid value
    {
        let mut obj1 = SOMu8Enum::new();

        obj1.add(String::from("A"), 23u8);
        assert_eq!(1, obj1.len());

        obj1.add(String::from("B"), 23u8);
        assert_eq!(1, obj1.len());
    }
}

#[test]
fn test_som_string() {
    // empty strings
    {
        let obj1 = SOMString::fixed(SOMStringEncoding::Utf8, SOMStringFormat::Plain, 0);
        assert!(!obj1.is_dynamic());
        assert_eq!(0, obj1.len());
        assert_eq!(0, obj1.size());

        let obj2 = SOMString::dynamic(
            SOMLengthField::U32,
            SOMStringEncoding::Utf8,
            SOMStringFormat::Plain,
            0,
            3,
        );
        assert!(obj2.is_dynamic());
        assert_eq!(0, obj2.len());
        assert_eq!(4, obj2.size());

        let obj3 = SOMString::fixed(
            SOMStringEncoding::Utf8,
            SOMStringFormat::WithBOMandTermination,
            4,
        );
        assert!(!obj3.is_dynamic());
        assert_eq!(4, obj3.len());
        assert_eq!(4, obj3.size());

        let obj4 = SOMString::dynamic(
            SOMLengthField::U32,
            SOMStringEncoding::Utf8,
            SOMStringFormat::WithBOMandTermination,
            4,
            7,
        );
        assert!(obj4.is_dynamic());
        assert_eq!(4, obj4.len());
        assert_eq!(8, obj4.size());

        let obj5 = SOMString::fixed(SOMStringEncoding::Utf16Be, SOMStringFormat::Plain, 0);
        assert!(!obj5.is_dynamic());
        assert_eq!(0, obj5.len());
        assert_eq!(0, obj5.size());

        let obj6 = SOMString::dynamic(
            SOMLengthField::U32,
            SOMStringEncoding::Utf16Be,
            SOMStringFormat::Plain,
            0,
            3,
        );
        assert!(obj6.is_dynamic());
        assert_eq!(0, obj6.len());
        assert_eq!(4, obj6.size());

        let obj7 = SOMString::fixed(
            SOMStringEncoding::Utf16Le,
            SOMStringFormat::WithBOMandTermination,
            5,
        );
        assert!(!obj7.is_dynamic());
        assert_eq!(2, obj7.len());
        assert_eq!(4 + 6, obj7.size());

        let obj8 = SOMString::dynamic(
            SOMLengthField::U32,
            SOMStringEncoding::Utf16Le,
            SOMStringFormat::WithBOMandTermination,
            2,
            5,
        );
        assert!(obj8.is_dynamic());
        assert_eq!(2, obj8.len());
        assert_eq!(8, obj8.size());
    }

    // fixed utf8 string without bom and termination
    {
        let mut obj1 = SOMString::fixed(SOMStringEncoding::Utf8, SOMStringFormat::Plain, 3);
        assert!(obj1.set(String::from("foo")));
        assert_eq!(3, obj1.len());
        assert_eq!(3, obj1.size());

        let mut obj2 = SOMString::fixed(SOMStringEncoding::Utf8, SOMStringFormat::Plain, 3);
        serialize_parse(
            &obj1,
            &mut obj2,
            &[
                0x66, 0x6F, 0x6F, // Content
            ],
        );

        assert_eq!(String::from("foo"), obj2.get());
        assert_eq!(3, obj2.len());
        assert_eq!(3, obj2.size());

        serialize_fail(
            &obj2,
            &mut [0u8; 0],
            "Serializer exausted at offset: 0 for Object size: 1",
        );
        parse_fail(
            &mut obj2,
            &[0u8; 0],
            "Parser exausted at offset: 0 for Object size: 1",
        );
    }

    // fixed utf8 string with bom and termination
    {
        let mut obj1 = SOMString::fixed(
            SOMStringEncoding::Utf8,
            SOMStringFormat::WithBOMandTermination,
            7,
        );
        assert_eq!(3 + 1, obj1.len());
        assert_eq!(3 + 3 + 1, obj1.size());

        assert!(obj1.set(String::from("foo")));
        assert_eq!(3 + 3 + 1, obj1.len());
        assert_eq!(3 + 3 + 1, obj1.size());

        let mut obj2 = SOMString::fixed(
            SOMStringEncoding::Utf8,
            SOMStringFormat::WithBOMandTermination,
            7,
        );
        serialize_parse(
            &obj1,
            &mut obj2,
            &[
                0xEF, 0xBB, 0xBF, // BOM
                0x66, 0x6F, 0x6F, // Content
                0x00, // Termination
            ],
        );

        assert_eq!(String::from("foo"), obj2.get());
        assert_eq!(3 + 3 + 1, obj2.len());
        assert_eq!(3 + 3 + 1, obj2.size());
    }

    // fixed utf16-be string with bom and termination
    {
        let mut obj1 = SOMString::fixed(
            SOMStringEncoding::Utf16Be,
            SOMStringFormat::WithBOMandTermination,
            5,
        );
        assert_eq!(1 + 1, obj1.len());
        assert_eq!((1 + 3 + 1) * 2, obj1.size());

        assert!(obj1.set(String::from("foo")));
        assert_eq!(1 + 3 + 1, obj1.len());
        assert_eq!((1 + 3 + 1) * 2, obj1.size());

        let mut obj2 = SOMString::fixed(
            SOMStringEncoding::Utf16Be,
            SOMStringFormat::WithBOMandTermination,
            5,
        );
        serialize_parse(
            &obj1,
            &mut obj2,
            &[
                0xFE, 0xFF, // BOM
                0x00, 0x66, 0x00, 0x6F, 0x00, 0x6F, // Content
                0x00, 0x00, // Termination
            ],
        );

        assert_eq!(String::from("foo"), obj2.get());
        assert_eq!(1 + 3 + 1, obj2.len());
        assert_eq!((1 + 3 + 1) * 2, obj2.size());
    }

    // incomplete fixed utf16-le string with termination only
    {
        let mut obj1 = SOMString::fixed(
            SOMStringEncoding::Utf16Le,
            SOMStringFormat::WithTermination,
            10,
        );
        assert_eq!(1, obj1.len());
        assert_eq!((9 + 1) * 2, obj1.size());

        assert!(obj1.set(String::from("foo")));
        assert_eq!(3 + 1, obj1.len());
        assert_eq!((3 + 6 + 1) * 2, obj1.size());

        let mut obj2 = SOMString::fixed(
            SOMStringEncoding::Utf16Le,
            SOMStringFormat::WithTermination,
            10,
        );
        serialize_parse(
            &obj1,
            &mut obj2,
            &[
                0x66, 0x00, 0x6F, 0x00, 0x6F, 0x00, // Content
                0x00, 0x00, 0x00, 0x00, 0x00, 0x00, 0x00, 0x00, 0x00, 0x00, 0x00,
                0x00, // Filler
                0x00, 0x00, // Termination
            ],
        );

        assert_eq!(String::from("foo"), obj2.get());
        assert_eq!(3 + 1, obj2.len());
        assert_eq!((3 + 6 + 1) * 2, obj2.size());
    }

    // dynamic utf8 string without bom and termination
    {
        let mut obj1 = SOMString::dynamic(
            SOMLengthField::U32,
            SOMStringEncoding::Utf8,
            SOMStringFormat::Plain,
            0,
            3,
        );
        assert!(obj1.set(String::from("foo")));
        assert_eq!(3, obj1.len());
        assert_eq!(4 + 3, obj1.size());

        let mut obj2 = SOMString::dynamic(
            SOMLengthField::U32,
            SOMStringEncoding::Utf8,
            SOMStringFormat::Plain,
            0,
            3,
        );
        serialize_parse(
            &obj1,
            &mut obj2,
            &[
                0x00, 0x00, 0x00, 0x03, // Length-Field (U32)
                0x66, 0x6F, 0x6F, // Content
            ],
        );

        assert_eq!(String::from("foo"), obj2.get());
        assert_eq!(3, obj2.len());
        assert_eq!(4 + 3, obj2.size());

        serialize_fail(
            &obj2,
            &mut [0u8; 0],
            "Serializer exausted at offset: 0 for Object size: 4",
        );
        parse_fail(
            &mut obj2,
            &[0u8; 0],
            "Parser exausted at offset: 0 for Object size: 4",
        );
    }

    // dynamic utf8 string with bom and termination
    {
        let mut obj1 = SOMString::dynamic(
            SOMLengthField::U32,
            SOMStringEncoding::Utf8,
            SOMStringFormat::WithBOMandTermination,
            4,
            7,
        );
        assert_eq!(3 + 1, obj1.len());
        assert_eq!(4 + 3 + 1, obj1.size());

        assert!(obj1.set(String::from("foo")));
        assert_eq!(3 + 3 + 1, obj1.len());
        assert_eq!(4 + 3 + 3 + 1, obj1.size());

        let mut obj2 = SOMString::dynamic(
            SOMLengthField::U32,
            SOMStringEncoding::Utf8,
            SOMStringFormat::WithBOMandTermination,
            4,
            7,
        );
        serialize_parse(
            &obj1,
            &mut obj2,
            &[
                0x00, 0x00, 0x00, 0x07, // Length-Field (U32)
                0xEF, 0xBB, 0xBF, // BOM
                0x66, 0x6F, 0x6F, // Content
                0x00, // Termination
            ],
        );

        assert_eq!(String::from("foo"), obj2.get());
        assert_eq!(3 + 3 + 1, obj2.len());
        assert_eq!(4 + 3 + 3 + 1, obj2.size());
    }

    // dynamic utf16-be string with bom and termination
    {
        let mut obj1 = SOMString::dynamic(
            SOMLengthField::U32,
            SOMStringEncoding::Utf16Be,
            SOMStringFormat::WithBOMandTermination,
            2,
            5,
        );
        assert_eq!(1 + 1, obj1.len());
        assert_eq!(4 + (1 + 1) * 2, obj1.size());

        assert!(obj1.set(String::from("foo")));
        assert_eq!(1 + 3 + 1, obj1.len());
        assert_eq!(4 + (1 + 3 + 1) * 2, obj1.size());

        let mut obj2 = SOMString::dynamic(
            SOMLengthField::U32,
            SOMStringEncoding::Utf16Be,
            SOMStringFormat::WithBOMandTermination,
            2,
            5,
        );
        serialize_parse(
            &obj1,
            &mut obj2,
            &[
                0x00, 0x00, 0x00, 0x0A, // Length-Field (U32)
                0xFE, 0xFF, // BOM
                0x00, 0x66, 0x00, 0x6F, 0x00, 0x6F, // Content
                0x00, 0x00, // Termination
            ],
        );

        assert_eq!(String::from("foo"), obj2.get());
        assert_eq!(1 + 3 + 1, obj2.len());
        assert_eq!(4 + (1 + 3 + 1) * 2, obj2.size());
    }

    // incomplete dynamic utf16-le string with bom only
    {
        let mut obj1 = SOMString::dynamic(
            SOMLengthField::U32,
            SOMStringEncoding::Utf16Le,
            SOMStringFormat::WithBOM,
            0,
            10,
        );
        assert_eq!(1, obj1.len());
        assert_eq!(4 + 1 * 2, obj1.size());

        assert!(obj1.set(String::from("foo")));
        assert_eq!(1 + 3, obj1.len());
        assert_eq!(4 + (1 + 3) * 2, obj1.size());

        let mut obj2 = SOMString::dynamic(
            SOMLengthField::U32,
            SOMStringEncoding::Utf16Le,
            SOMStringFormat::WithBOM,
            0,
            10,
        );
        serialize_parse(
            &obj1,
            &mut obj2,
            &[
                0x00, 0x00, 0x00, 0x08, // Length-Field (U32)
                0xFF, 0xFE, // BOM
                0x66, 0x00, 0x6F, 0x00, 0x6F, 0x00, // Content
            ],
        );

        assert_eq!(String::from("foo"), obj2.get());
        assert_eq!(1 + 3, obj2.len());
        assert_eq!(4 + (1 + 3) * 2, obj2.size());
    }

    // incomplete length
    {
        let mut obj1 = SOMString::fixed(SOMStringEncoding::Utf8, SOMStringFormat::Plain, 3);
        assert!(!obj1.set(String::from("foobar")));
        assert_eq!(0, obj1.len());
        assert_eq!(3, obj1.size());
        assert!(obj1.set(String::from("f")));
        assert_eq!(1, obj1.len());
        assert_eq!(3, obj1.size());

        serialize(&obj1, &mut [0x66, 0x00, 0x00]);

        let mut obj2 = SOMString::dynamic(
            SOMLengthField::U8,
            SOMStringEncoding::Utf8,
            SOMStringFormat::Plain,
            2,
            3,
        );
        assert!(!obj2.set(String::from("foobar")));
        assert_eq!(0, obj2.len());
        assert_eq!(1, obj2.size());
        assert!(obj2.set(String::from("f")));
        assert_eq!(1, obj2.len());
        assert_eq!(1 + 1, obj2.size());

        serialize_fail(
            &obj2,
            &mut [0u8; 2],
            "Invalid String length: 1 at offset: 0",
        );
    }
}

#[test]
fn test_som_optional() {
    // empty optional
    {
        let obj1 = SOMOptional::new(SOMLengthField::U32);
        assert_eq!(0, obj1.len());

        let mut obj2 = SOMOptional::new(SOMLengthField::U32);
        serialize_parse(
            &obj1,
            &mut obj2,
            &[
                0x00, 0x00, 0x00, 0x00, // Length-Field (U32)
            ],
        );
        assert_eq!(0, obj2.len());
    }

    // simple optional
    {
        let mut obj1 = SOMOptional::new(SOMLengthField::U32);
        obj1.add(1, SOMOptionalMember::Bool(SOMBool::empty()), true);
        obj1.add(
            2,
            SOMOptionalMember::U16(SOMu16::empty(SOMEndian::Big)),
            false,
        );
        assert_eq!(2, obj1.len());

        if let Some(SOMUnionMember::Bool(sub)) = obj1.get_mut(1) {
            sub.set(true);
        } else {
            panic!();
        }

        if let Some(SOMUnionMember::U16(sub)) = obj1.get_mut(2) {
            sub.set(49200u16);
        } else {
            panic!();
        }

        let mut obj2 = SOMOptional::new(SOMLengthField::U32);
        obj2.add(1, SOMOptionalMember::Bool(SOMBool::empty()), true);
        obj2.add(
            2,
            SOMOptionalMember::U16(SOMu16::empty(SOMEndian::Big)),
            false,
        );

        serialize_parse(
            &obj1,
            &mut obj2,
            &[
                0x00, 0x00, 0x00, 0x07, // Length-Field (U32)
                0x00, 0x01, // TLV-Tag (U16)
                0x01, // Bool-Memeber
                0x10, 0x02, // TLV-Tag (U16)
                0xC0, 0x30, // U16-Member
            ],
        );
        assert_eq!(2, obj2.len());

        if let Some(SOMStructMember::Bool(sub)) = obj2.get(1) {
            assert_eq!(true, sub.get().unwrap());
        } else {
            panic!();
        }

        if let Some(SOMStructMember::U16(sub)) = obj2.get(2) {
            assert_eq!(49200u16, sub.get().unwrap());
        } else {
            panic!();
        }

        serialize_fail(
            &obj1,
            &mut [0u8; 0],
            "Serializer exausted at offset: 0 for Object size: 4",
        );
        parse_fail(
            &mut obj2,
            &[0u8; 0],
            "Parser exausted at offset: 0 for Object size: 4",
        );
    }

    // complex optional
    {
        let sub11 = SOMString::fixed(SOMStringEncoding::Utf8, SOMStringFormat::Plain, 3);
        let sub12 = SOMu16Array::dynamic(SOMLengthField::U8, 1, 3);
        let mut obj1 = SOMOptional::new(SOMLengthField::U32);
        obj1.add(1, SOMOptionalMember::Bool(SOMBool::empty()), true);
        obj1.add(2, SOMOptionalMember::String(sub11), true);
        obj1.add(3, SOMOptionalMember::ArrayU16(sub12), false);
        assert_eq!(3, obj1.len());

        if let Some(SOMUnionMember::Bool(sub)) = obj1.get_mut(1) {
            sub.set(true);
        } else {
            panic!();
        }

        if let Some(SOMUnionMember::String(sub)) = obj1.get_mut(2) {
            sub.set(String::from("foo"));
        } else {
            panic!();
        }

        if let Some(SOMUnionMember::ArrayU16(sub)) = obj1.get_mut(3) {
            for i in 0..3 {
                sub.add(SOMu16::new(SOMEndian::Big, (i + 1) as u16));
            }
        } else {
            panic!();
        }

        let sub21 = SOMString::fixed(SOMStringEncoding::Utf8, SOMStringFormat::Plain, 3);
        let sub22 = SOMu16Array::dynamic(SOMLengthField::U8, 1, 3);
        let mut obj2 = SOMOptional::new(SOMLengthField::U32);
        obj2.add(1, SOMOptionalMember::Bool(SOMBool::empty()), true);
        obj2.add(2, SOMOptionalMember::String(sub21), true);
        obj2.add(3, SOMOptionalMember::ArrayU16(sub22), false);
        assert_eq!(3, obj2.len());

        if let Some(SOMUnionMember::ArrayU16(sub)) = obj2.get_mut(3) {
            for _ in 0..3 {
                sub.add(SOMu16::empty(SOMEndian::Big));
            }
        } else {
            panic!();
        }

        serialize_parse(
            &obj1,
            &mut obj2,
            &[
                0x00, 0x00, 0x00, 0x15, // Length-Field (U32)
                0x00, 0x01, // TLV-Tag (U16)
                0x01, // Bool-Memeber
                0x40, 0x02, // TLV-Tag (U16)
                0x00, 0x00, 0x00, 0x03, // Length-Field (U32)
                0x66, 0x6F, 0x6F, // String-Member
                0x40, 0x03, // TLV-Tag (U16)
                0x06, // Length-Field (U8)
                0x00, 0x01, // Array-Mamber (U16)
                0x00, 0x02, // Array-Mamber (U16)
                0x00, 0x03, // Array-Mamber (U16)
            ],
        );
        assert_eq!(3, obj2.len());

        if let Some(SOMStructMember::Bool(sub)) = obj2.get(1) {
            assert_eq!(true, sub.get().unwrap());
        } else {
            panic!();
        }

        if let Some(SOMStructMember::String(sub)) = obj2.get(2) {
            assert_eq!(String::from("foo"), sub.get());
        } else {
            panic!();
        }

        if let Some(SOMStructMember::ArrayU16(sub)) = obj2.get(3) {
            assert_eq!(3, sub.len());
            for i in 0..3 {
                assert_eq!((i + 1) as u16, sub.get(i).unwrap().get().unwrap());
            }
        } else {
            panic!();
        }
    }

    // missing mandatory
    {
        let mut obj1 = SOMOptional::new(SOMLengthField::U32);
        obj1.add(1, SOMOptionalMember::Bool(SOMBool::empty()), true);
        obj1.add(
            2,
            SOMOptionalMember::U16(SOMu16::empty(SOMEndian::Big)),
            true,
        );

        serialize_fail(
            &obj1,
            &mut [0u8; 11],
            "Uninitialized mandatory member: 1 at offset: 0",
        );

        if let Some(SOMUnionMember::Bool(sub)) = obj1.get_mut(1) {
            sub.set(true);
        } else {
            panic!();
        }

        serialize_fail(
            &obj1,
            &mut [0u8; 11],
            "Uninitialized mandatory member: 2 at offset: 0",
        );

        parse_fail(
            &mut obj1,
            &[
                0x00, 0x00, 0x00, 0x00, // Length-Field (U32)
            ],
            "Uninitialized mandatory member: : 1 at offset: 0",
        );

        parse_fail(
            &mut obj1,
            &[
                0x00, 0x00, 0x00, 0x03, // Length-Field (U32)
                0x00, 0x01, // TLV-Tag (U16)
                0x01, // Bool-Memeber
            ],
            "Uninitialized mandatory member: : 2 at offset: 0",
        );
    }
}
