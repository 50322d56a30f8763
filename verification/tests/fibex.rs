//! The FIBEX parser on documents given as text.

use someip::fibex::{FibexDatatype, FibexPrimitive, FibexStringEncoding, FibexTypeInstance};
use someip::fibex_parser::{FibexParser, FibexReader};

#[test]
fn test_parse_service() {
    let xml = r#"
        <fx:SERVICE-INTERFACE ID="/SOMEIP/TEST/ServiceInterface_TestService">
            <ho:SHORT-NAME>TestService</ho:SHORT-NAME>
            <fx:SERVICE-IDENTIFIER>123</fx:SERVICE-IDENTIFIER>
            <fx:PACKAGE-REF ID-REF="/SOMEIP/TEST"/>
            <service:API-VERSION>
                <service:MAJOR>1</service:MAJOR>
                <service:MINOR>2</service:MINOR>
            </service:API-VERSION>
        </fx:SERVICE-INTERFACE>
    "#;

    let reader = FibexReader::from_reader(xml.as_bytes()).unwrap();
    let model = FibexParser::parse(reader).expect("parse failed");

    assert_eq!(0, model.types.len());
    assert_eq!(1, model.services.len());

    let service = model.services.get(0).unwrap();

    assert_eq!(service.id, "/SOMEIP/TEST/ServiceInterface_TestService");
    assert_eq!(service.name, "TestService");
    assert_eq!(123, service.service_id);
    assert_eq!(1, service.major_version);
    assert_eq!(2, service.minor_version);
    assert_eq!(0, service.methods.len());
}

#[test]
fn test_parse_service_method() {
    let xml = r#"
        <fx:SERVICE-INTERFACE ID="/SOMEIP/TEST/ServiceInterface_TestService">
            <ho:SHORT-NAME>TestService</ho:SHORT-NAME>
            <fx:SERVICE-IDENTIFIER>123</fx:SERVICE-IDENTIFIER>
            <fx:PACKAGE-REF ID-REF="/SOMEIP/TEST"/>
            <service:API-VERSION>
                <service:MAJOR>1</service:MAJOR>
                <service:MINOR>2</service:MINOR>
            </service:API-VERSION>
            <service:METHODS>
                <service:METHOD ID="/SOMEIP/TEST/ServiceInterface_TestService/Method_TestMethod">
                    <ho:SHORT-NAME>TestMethod</ho:SHORT-NAME>
                    <service:METHOD-IDENTIFIER>100</service:METHOD-IDENTIFIER>
                    <service:INPUT-PARAMETERS>
                        <service:INPUT-PARAMETER ID="/SOMEIP/TEST/ServiceInterface_TestService/Method_TestMethod/in/Parameter_Input">
                            <ho:SHORT-NAME>Input</ho:SHORT-NAME>
                            <fx:DATATYPE-REF ID-REF="/CommonDatatype_UINT8"/>
                            <fx:UTILIZATION>
                                <fx:IS-HIGH-LOW-BYTE-ORDER>true</fx:IS-HIGH-LOW-BYTE-ORDER>
                            </fx:UTILIZATION>
                            <service:POSITION>0</service:POSITION>
                        </service:INPUT-PARAMETER>
                    </service:INPUT-PARAMETERS>
                    <service:RETURN-PARAMETERS>
                        <service:RETURN-PARAMETER ID="/SOMEIP/TEST/ServiceInterface_TestService/Method_TestMethod/ret/Parameter_Output">
                            <ho:SHORT-NAME>Output</ho:SHORT-NAME>
                            <fx:DATATYPE-REF ID-REF="/CommonDatatype_UINT8"/>
                            <fx:UTILIZATION>
                                <fx:IS-HIGH-LOW-BYTE-ORDER>false</fx:IS-HIGH-LOW-BYTE-ORDER>
                            </fx:UTILIZATION>
                            <service:POSITION>0</service:POSITION>
                        </service:RETURN-PARAMETER>
                    </service:RETURN-PARAMETERS>
                </service:METHOD>
            </service:METHODS>
        </fx:SERVICE-INTERFACE>
        <fx:DATATYPE xsi:type="fx:COMMON-DATATYPE-TYPE" ID="/CommonDatatype_UINT8">
            <ho:SHORT-NAME>UINT8</ho:SHORT-NAME>
        </fx:DATATYPE>
    "#;

    let reader = FibexReader::from_reader(xml.as_bytes()).unwrap();
    let model = FibexParser::parse(reader).expect("parse failed");

    assert_eq!(3, model.types.len());
    assert_eq!(1, model.services.len());

    let service = model.services.get(0).unwrap();
    assert_eq!(1, service.methods.len());

    let method = service.methods.get(0).unwrap();
    assert_eq!(
        method.id,
        "/SOMEIP/TEST/ServiceInterface_TestService/Method_TestMethod"
    );
    assert_eq!(method.name, "testMethod");
    assert_eq!(100, method.method_id);

    // request
    {
        let request = method.request.as_ref().unwrap();
        assert_eq!(
            request.id,
            "/SOMEIP/TEST/ServiceInterface_TestService/Method_TestMethod/Request"
        );
        assert!(request.name.is_empty());

        let request_type = &model.types[request.type_ref.unwrap()];
        assert_eq!(
            request_type.id,
            "/SOMEIP/TEST/ServiceInterface_TestService/Method_TestMethod/Request"
        );
        assert!(request_type.name.is_empty());

        let struct_type = match &request_type.datatype {
                FibexDatatype::Struct(datatype) => datatype,
                _ => panic!(),
            };

        assert_eq!(1, struct_type.members.len());
        let member = struct_type.members.get(0).unwrap();

        assert_eq!(
            member.id,
            "/SOMEIP/TEST/ServiceInterface_TestService/Method_TestMethod/in/Parameter_Input"
        );
        assert_eq!(member.name, "input");
        assert_eq!(member.id_ref, "/CommonDatatype_UINT8");

        assert!(member.is_high_low_byte_order());
        assert!(!member.is_array());

        let member_type = &model.types[member.type_ref.unwrap()];
        assert_eq!(member_type.id, "/CommonDatatype_UINT8");
        assert!(matches!(member_type.datatype, FibexDatatype::Primitive(FibexPrimitive::Uint8)));
    }

    // response
    {
        let response = method.response.as_ref().unwrap();
        assert_eq!(
            response.id,
            "/SOMEIP/TEST/ServiceInterface_TestService/Method_TestMethod/Response"
        );
        assert!(response.name.is_empty());

        let response_type = &model.types[response.type_ref.unwrap()];
        assert_eq!(
            response_type.id,
            "/SOMEIP/TEST/ServiceInterface_TestService/Method_TestMethod/Response"
        );
        assert!(response_type.name.is_empty());

        let struct_type = match &response_type.datatype {
                FibexDatatype::Struct(datatype) => datatype,
                _ => panic!(),
            };

        assert_eq!(1, struct_type.members.len());
        let member = struct_type.members.get(0).unwrap();

        assert_eq!(
            member.id,
            "/SOMEIP/TEST/ServiceInterface_TestService/Method_TestMethod/ret/Parameter_Output"
        );
        assert_eq!(member.name, "output");
        assert_eq!(member.id_ref, "/CommonDatatype_UINT8");
        assert!(!member.is_high_low_byte_order());
        assert!(!member.is_array());

        let member_type = &model.types[member.type_ref.unwrap()];
        assert_eq!(member_type.id, "/CommonDatatype_UINT8");
        assert!(matches!(member_type.datatype, FibexDatatype::Primitive(FibexPrimitive::Uint8)));
    }
}

#[test]
fn test_parse_service_method_array() {
    let xml = r#"
        <fx:SERVICE-INTERFACE ID="/SOMEIP/TEST/ServiceInterface_TestService">
            <ho:SHORT-NAME>TestService</ho:SHORT-NAME>
            <fx:SERVICE-IDENTIFIER>123</fx:SERVICE-IDENTIFIER>
            <fx:PACKAGE-REF ID-REF="/SOMEIP/TEST"/>
            <service:API-VERSION>
                <service:MAJOR>1</service:MAJOR>
                <service:MINOR>2</service:MINOR>
            </service:API-VERSION>
            <service:METHODS>
                <service:METHOD ID="/SOMEIP/TEST/ServiceInterface_TestService/Method_TestMethod">
                    <ho:SHORT-NAME>TestMethod</ho:SHORT-NAME>
                    <service:METHOD-IDENTIFIER>100</service:METHOD-IDENTIFIER>
                    <service:INPUT-PARAMETERS>
                        <service:INPUT-PARAMETER ID="/SOMEIP/TEST/ServiceInterface_TestService/Method_TestMethod/in/Parameter_Input">
                            <ho:SHORT-NAME>Input</ho:SHORT-NAME>
                            <fx:DATATYPE-REF ID-REF="/CommonDatatype_UINT8"/>
                            <fx:ARRAY-DECLARATION>
                                <fx:ARRAY-DIMENSION>
                                <fx:DIMENSION>1</fx:DIMENSION>
                                <fx:MINIMUM-SIZE>3</fx:MINIMUM-SIZE>
                                <fx:MAXIMUM-SIZE>5</fx:MAXIMUM-SIZE>
                                </fx:ARRAY-DIMENSION>
                            </fx:ARRAY-DECLARATION>
                            <fx:UTILIZATION>
                                <fx:IS-HIGH-LOW-BYTE-ORDER>true</fx:IS-HIGH-LOW-BYTE-ORDER>
                                <fx:SERIALIZATION-ATTRIBUTES>
                                    <fx:ARRAY-LENGTH-FIELD-SIZE>8</fx:ARRAY-LENGTH-FIELD-SIZE>
                                </fx:SERIALIZATION-ATTRIBUTES>
                            </fx:UTILIZATION>
                            <service:POSITION>0</service:POSITION>
                        </service:INPUT-PARAMETER>
                    </service:INPUT-PARAMETERS>
                </service:METHOD>
            </service:METHODS>
        </fx:SERVICE-INTERFACE>
        <fx:DATATYPE xsi:type="fx:COMMON-DATATYPE-TYPE" ID="/CommonDatatype_UINT8">
            <ho:SHORT-NAME>UINT8</ho:SHORT-NAME>
        </fx:DATATYPE>
    "#;

    let reader = FibexReader::from_reader(xml.as_bytes()).unwrap();
    let model = FibexParser::parse(reader).expect("parse failed");

    assert_eq!(1, model.services.len());
    let service = model.services.get(0).unwrap();

    assert_eq!(1, service.methods.len());
    let method = service.methods.get(0).unwrap();

    // request
    {
        let request = method.request.as_ref().unwrap();
        let request_type = &model.types[request.type_ref.unwrap()];

        let struct_type = match &request_type.datatype {
                FibexDatatype::Struct(datatype) => datatype,
                _ => panic!(),
            };

        assert_eq!(1, struct_type.members.len());
        let member = struct_type.members.get(0).unwrap();

        assert!(member.is_high_low_byte_order());
        assert!(member.is_array());

        assert_eq!(1, member.num_array_dimensions());
        let array_dimension = member.get_array_dimension(0).unwrap();
        assert_eq!(1, array_dimension.index);
        assert_eq!(3, array_dimension.min);
        assert_eq!(5, array_dimension.max);

        assert_eq!(1, member.get_array_length_field_size());

        let member_type = &model.types[member.type_ref.unwrap()];
        assert!(matches!(member_type.datatype, FibexDatatype::Primitive(FibexPrimitive::Uint8)));
    }
}

#[test]
fn test_parse_service_event() {
    let xml = r#"
        <fx:SERVICE-INTERFACE ID="/SOMEIP/TEST/ServiceInterface_TestService">
            <ho:SHORT-NAME>TestService</ho:SHORT-NAME>
            <fx:SERVICE-IDENTIFIER>123</fx:SERVICE-IDENTIFIER>
            <fx:PACKAGE-REF ID-REF="/SOMEIP/TEST"/>
            <service:API-VERSION>
                <service:MAJOR>1</service:MAJOR>
                <service:MINOR>2</service:MINOR>
            </service:API-VERSION>
            <service:EVENTS>
                <service:EVENT ID="/SOMEIP/TEST/ServiceInterface_TestService/Method_TestEvent">
                    <ho:SHORT-NAME>TestEvent</ho:SHORT-NAME>
                    <service:METHOD-IDENTIFIER>32768</service:METHOD-IDENTIFIER>
                    <service:CALL-SEMANTIC>FIRE_AND_FORGET</service:CALL-SEMANTIC>
                    <service:INPUT-PARAMETERS>
                        <service:INPUT-PARAMETER ID="/SOMEIP/TEST/ServiceInterface_TestService/Method_TestEvent/in/Parameter_Value2">
                            <ho:SHORT-NAME>Value2</ho:SHORT-NAME>
                            <fx:DATATYPE-REF ID-REF="/CommonDatatype_UINT8"/>
                            <fx:UTILIZATION>
                                <fx:IS-HIGH-LOW-BYTE-ORDER>false</fx:IS-HIGH-LOW-BYTE-ORDER>
                            </fx:UTILIZATION>
                            <service:POSITION>1</service:POSITION>
                        </service:INPUT-PARAMETER>
                        <service:INPUT-PARAMETER ID="/SOMEIP/TEST/ServiceInterface_TestService/Method_TestEvent/in/Parameter_Value1">
                            <ho:SHORT-NAME>Value1</ho:SHORT-NAME>
                            <fx:DATATYPE-REF ID-REF="/CommonDatatype_UINT8"/>
                            <fx:UTILIZATION>
                                <fx:IS-HIGH-LOW-BYTE-ORDER>false</fx:IS-HIGH-LOW-BYTE-ORDER>
                            </fx:UTILIZATION>
                            <service:POSITION>0</service:POSITION>
                        </service:INPUT-PARAMETER>
                    </service:INPUT-PARAMETERS>
                </service:EVENT>
            </service:EVENTS>
        </fx:SERVICE-INTERFACE>
        <fx:DATATYPE xsi:type="fx:COMMON-DATATYPE-TYPE" ID="/CommonDatatype_UINT8">
            <ho:SHORT-NAME>UINT8</ho:SHORT-NAME>
        </fx:DATATYPE>
    "#;

    let reader = FibexReader::from_reader(xml.as_bytes()).unwrap();
    let model = FibexParser::parse(reader).expect("parse failed");

    assert_eq!(2, model.types.len());
    assert_eq!(1, model.services.len());

    let service = model.services.get(0).unwrap();
    assert_eq!(1, service.methods.len());

    let method = service.methods.get(0).unwrap();
    assert_eq!(
        method.id,
        "/SOMEIP/TEST/ServiceInterface_TestService/Method_TestEvent"
    );
    assert_eq!(method.name, "testEvent");
    assert_eq!(32768, method.method_id);

    // request
    {
        let request = method.request.as_ref().unwrap();
        assert_eq!(
            request.id,
            "/SOMEIP/TEST/ServiceInterface_TestService/Method_TestEvent/Request"
        );
        assert!(request.name.is_empty());

        let request_type = &model.types[request.type_ref.unwrap()];
        assert_eq!(
            request_type.id,
            "/SOMEIP/TEST/ServiceInterface_TestService/Method_TestEvent/Request"
        );
        assert!(request_type.name.is_empty());

        let struct_type = match &request_type.datatype {
                FibexDatatype::Struct(datatype) => datatype,
                _ => panic!(),
            };

        assert_eq!(2, struct_type.members.len());

        let member = struct_type.members.get(0).unwrap();
        assert_eq!(
            member.id,
            "/SOMEIP/TEST/ServiceInterface_TestService/Method_TestEvent/in/Parameter_Value1"
        );
        assert_eq!(member.name, "value1");
        assert_eq!(member.id_ref, "/CommonDatatype_UINT8");
        assert!(!member.is_high_low_byte_order());
        assert!(!member.is_array());

        let member_type = &model.types[member.type_ref.unwrap()];
        assert_eq!(member_type.id, "/CommonDatatype_UINT8");
        assert!(matches!(member_type.datatype, FibexDatatype::Primitive(FibexPrimitive::Uint8)));

        let member = struct_type.members.get(1).unwrap();
        assert_eq!(
            member.id,
            "/SOMEIP/TEST/ServiceInterface_TestService/Method_TestEvent/in/Parameter_Value2"
        );
        assert_eq!(member.name, "value2");
        assert_eq!(member.id_ref, "/CommonDatatype_UINT8");
        assert!(!member.is_high_low_byte_order());
        assert!(!member.is_array());

        let member_type = &model.types[member.type_ref.unwrap()];
        assert_eq!(member_type.id, "/CommonDatatype_UINT8");
        assert!(matches!(member_type.datatype, FibexDatatype::Primitive(FibexPrimitive::Uint8)));
    }

    assert!(method.response.is_none());
}

#[test]
fn test_parse_service_field() {
    let xml = r#"
        <fx:SERVICE-INTERFACE ID="/SOMEIP/TEST/ServiceInterface_TestService">
            <ho:SHORT-NAME>TestService</ho:SHORT-NAME>
            <fx:SERVICE-IDENTIFIER>123</fx:SERVICE-IDENTIFIER>
            <fx:PACKAGE-REF ID-REF="/SOMEIP/TEST"/>
            <service:API-VERSION>
                <service:MAJOR>1</service:MAJOR>
                <service:MINOR>2</service:MINOR>
            </service:API-VERSION>
            <service:FIELDS>
                <service:FIELD ID="/SOMEIP/TEST/ServiceInterface_TestService/Field_TestField">
                    <ho:SHORT-NAME>TestField</ho:SHORT-NAME>
                    <fx:DATATYPE-REF ID-REF="/CommonDatatype_UINT8"/>
                    <fx:UTILIZATION>
                        <fx:IS-HIGH-LOW-BYTE-ORDER>false</fx:IS-HIGH-LOW-BYTE-ORDER>
                    </fx:UTILIZATION>
                    <service:ACCESS-PERMISSION>NOTIFY_READ_WRITE</service:ACCESS-PERMISSION>
                    <service:GETTER>
                        <service:METHOD-IDENTIFIER>10</service:METHOD-IDENTIFIER>
                    </service:GETTER>
                    <service:SETTER>
                        <service:METHOD-IDENTIFIER>11</service:METHOD-IDENTIFIER>
                    </service:SETTER>
                    <service:NOTIFIER>
                        <service:NOTIFICATION-IDENTIFIER>32770</service:NOTIFICATION-IDENTIFIER>
                    </service:NOTIFIER>
                </service:FIELD>
            </service:FIELDS>
        </fx:SERVICE-INTERFACE>
        <fx:DATATYPE xsi:type="fx:COMMON-DATATYPE-TYPE" ID="/CommonDatatype_UINT8">
            <ho:SHORT-NAME>UINT8</ho:SHORT-NAME>
        </fx:DATATYPE>
    "#;

    let reader = FibexReader::from_reader(xml.as_bytes()).unwrap();
    let model = FibexParser::parse(reader).expect("parse failed");

    assert_eq!(2, model.types.len());
    assert_eq!(1, model.services.len());

    let service = model.services.get(0).unwrap();
    assert_eq!(3, service.methods.len());

    // getter
    {
        let method = service.methods.get(0).unwrap();
        assert_eq!(
            method.id,
            "/SOMEIP/TEST/ServiceInterface_TestService/Field_TestField/Getter"
        );
        assert_eq!(method.name, "getTestField");
        assert_eq!(10, method.method_id);

        assert!(method.request.is_none());

        let response = method.response.as_ref().unwrap();
        assert_eq!(
            response.id,
            "/SOMEIP/TEST/ServiceInterface_TestService/Field_TestField/Getter"
        );
        assert!(response.name.is_empty());

        let response_type = &model.types[response.type_ref.unwrap()];
        assert_test_field(&model.types, &response_type);
    }

    // setter
    {
        let method = service.methods.get(1).unwrap();
        assert_eq!(
            method.id,
            "/SOMEIP/TEST/ServiceInterface_TestService/Field_TestField/Setter"
        );
        assert_eq!(method.name, "setTestField");
        assert_eq!(11, method.method_id);

        let request = method.request.as_ref().unwrap();
        assert_eq!(
            request.id,
            "/SOMEIP/TEST/ServiceInterface_TestService/Field_TestField/Setter"
        );
        assert!(request.name.is_empty());

        let request_type = &model.types[request.type_ref.unwrap()];
        assert_test_field(&model.types, &request_type);

        let response = method.response.as_ref().unwrap();
        assert_eq!(
            response.id,
            "/SOMEIP/TEST/ServiceInterface_TestService/Field_TestField/Setter"
        );
        assert!(response.name.is_empty());

        let response_type = &model.types[response.type_ref.unwrap()];
        assert_test_field(&model.types, &response_type);
    }

    // notifier
    {
        let method = service.methods.get(2).unwrap();
        assert_eq!(
            method.id,
            "/SOMEIP/TEST/ServiceInterface_TestService/Field_TestField/Notifier"
        );
        assert_eq!(method.name, "testField");
        assert_eq!(32770, method.method_id);

        let request = method.request.as_ref().unwrap();
        assert_eq!(
            request.id,
            "/SOMEIP/TEST/ServiceInterface_TestService/Field_TestField/Notifier"
        );
        assert!(request.name.is_empty());

        let request_type = &model.types[request.type_ref.unwrap()];
        assert_test_field(&model.types, &request_type);

        assert!(method.response.is_none());
    }

    fn assert_test_field(types: &[FibexTypeInstance], field_type: &FibexTypeInstance) {
        assert_eq!(
            field_type.id,
            "/SOMEIP/TEST/ServiceInterface_TestService/Field_TestField"
        );
        assert!(field_type.name.is_empty());

        let struct_type = match &field_type.datatype {
                FibexDatatype::Struct(datatype) => datatype,
                _ => panic!(),
            };

        assert_eq!(1, struct_type.members.len());
        let member = struct_type.members.get(0).unwrap();

        assert_eq!(
            member.id,
            "/SOMEIP/TEST/ServiceInterface_TestService/Field_TestField"
        );
        assert_eq!(member.name, "testField");
        assert_eq!(member.id_ref, "/CommonDatatype_UINT8");
        assert!(!member.is_high_low_byte_order());
        assert!(!member.is_array());

        let member_type = &types[member.type_ref.unwrap()];
        assert_eq!(member_type.id, "/CommonDatatype_UINT8");
        assert!(matches!(member_type.datatype, FibexDatatype::Primitive(FibexPrimitive::Uint8)));
    }
}

#[test]
fn test_parse_service_field_array() {
    let xml = r#"
        <fx:SERVICE-INTERFACE ID="/SOMEIP/TEST/ServiceInterface_TestService">
            <ho:SHORT-NAME>TestService</ho:SHORT-NAME>
            <fx:SERVICE-IDENTIFIER>123</fx:SERVICE-IDENTIFIER>
            <fx:PACKAGE-REF ID-REF="/SOMEIP/TEST"/>
            <service:API-VERSION>
                <service:MAJOR>1</service:MAJOR>
                <service:MINOR>2</service:MINOR>
            </service:API-VERSION>
            <service:FIELDS>
                <service:FIELD ID="/SOMEIP/TEST/ServiceInterface_TestService/Field_TestField">
                    <ho:SHORT-NAME>TestField</ho:SHORT-NAME>
                    <fx:DATATYPE-REF ID-REF="/CommonDatatype_UINT8"/>
                    <fx:ARRAY-DECLARATION>
                        <fx:ARRAY-DIMENSION>
                        <fx:DIMENSION>1</fx:DIMENSION>
                        <fx:MAXIMUM-SIZE>5</fx:MAXIMUM-SIZE>
                        </fx:ARRAY-DIMENSION>
                    </fx:ARRAY-DECLARATION>
                    <fx:UTILIZATION>
                        <fx:IS-HIGH-LOW-BYTE-ORDER>false</fx:IS-HIGH-LOW-BYTE-ORDER>
                    </fx:UTILIZATION>
                    <service:ACCESS-PERMISSION>NOTIFY_READ_WRITE</service:ACCESS-PERMISSION>
                    <service:GETTER>
                        <service:METHOD-IDENTIFIER>10</service:METHOD-IDENTIFIER>
                    </service:GETTER>
                    <service:SETTER>
                        <service:METHOD-IDENTIFIER>11</service:METHOD-IDENTIFIER>
                    </service:SETTER>
                    <service:NOTIFIER>
                        <service:NOTIFICATION-IDENTIFIER>32770</service:NOTIFICATION-IDENTIFIER>
                    </service:NOTIFIER>
                </service:FIELD>
            </service:FIELDS>
        </fx:SERVICE-INTERFACE>
        <fx:DATATYPE xsi:type="fx:COMMON-DATATYPE-TYPE" ID="/CommonDatatype_UINT8">
            <ho:SHORT-NAME>UINT8</ho:SHORT-NAME>
        </fx:DATATYPE>
    "#;

    let reader = FibexReader::from_reader(xml.as_bytes()).unwrap();
    let model = FibexParser::parse(reader).expect("parse failed");

    assert_eq!(1, model.services.len());
    let service = model.services.get(0).unwrap();

    assert_eq!(3, service.methods.len());

    // getter
    {
        let method = service.methods.get(0).unwrap();

        assert!(method.request.is_none());

        let response = method.response.as_ref().unwrap();
        let response_type = &model.types[response.type_ref.unwrap()];
        assert_test_field_array(&model.types, &response_type);
    }

    // setter
    {
        let method = service.methods.get(1).unwrap();

        let request = method.request.as_ref().unwrap();
        let request_type = &model.types[request.type_ref.unwrap()];
        assert_test_field_array(&model.types, &request_type);

        let response = method.response.as_ref().unwrap();
        let response_type = &model.types[response.type_ref.unwrap()];
        assert_test_field_array(&model.types, &response_type);
    }

    // notifier
    {
        let method = service.methods.get(2).unwrap();

        let request = method.request.as_ref().unwrap();
        let request_type = &model.types[request.type_ref.unwrap()];
        assert_test_field_array(&model.types, &request_type);

        assert!(method.response.is_none());
    }

    fn assert_test_field_array(types: &[FibexTypeInstance], payload: &FibexTypeInstance) {
        let struct_type =
            match &payload.datatype {
                FibexDatatype::Struct(datatype) => datatype,
                _ => panic!(),
            };

        assert_eq!(1, struct_type.members.len());
        let member = struct_type.members.get(0).unwrap();

        assert!(!member.is_high_low_byte_order());
        assert!(member.is_array());

        assert_eq!(1, member.num_array_dimensions());
        let array_dimension = member.get_array_dimension(0).unwrap();
        assert_eq!(1, array_dimension.index);
        assert_eq!(0, array_dimension.min);
        assert_eq!(5, array_dimension.max);

        assert_eq!(4, member.get_array_length_field_size());

        let member_type = &types[member.type_ref.unwrap()];
        assert!(matches!(member_type.datatype, FibexDatatype::Primitive(FibexPrimitive::Uint8)));
    }
}

#[test]
fn test_parse_primitives() {
    let xml = r#"
        <fx:DATATYPE xsi:type="fx:COMMON-DATATYPE-TYPE" ID="/CommonDatatype_BOOL">
            <ho:SHORT-NAME>BOOL</ho:SHORT-NAME>
        </fx:DATATYPE>
        <fx:DATATYPE xsi:type="fx:COMMON-DATATYPE-TYPE" ID="/CommonDatatype_UINT8">
            <ho:SHORT-NAME>UINT8</ho:SHORT-NAME>
        </fx:DATATYPE>
        <fx:DATATYPE xsi:type="fx:COMMON-DATATYPE-TYPE" ID="/CommonDatatype_FLOAT32">
            <ho:SHORT-NAME>FLOAT32</ho:SHORT-NAME>
        </fx:DATATYPE>
    "#;

    let reader = FibexReader::from_reader(xml.as_bytes()).unwrap();
    let model = FibexParser::parse(reader).expect("parse failed");

    assert_eq!(3, model.types.len());

    let common_type = model.types.get(0).unwrap();
    assert_eq!(common_type.id, "/CommonDatatype_BOOL");
    assert_eq!(common_type.name, "BOOL");
    assert!(matches!(&common_type.datatype, FibexDatatype::Primitive(FibexPrimitive::Bool)));

    let common_type = model.types.get(1).unwrap();
    assert_eq!(common_type.id, "/CommonDatatype_UINT8");
    assert_eq!(common_type.name, "UINT8");
    assert!(matches!(&common_type.datatype, FibexDatatype::Primitive(FibexPrimitive::Uint8)));

    let common_type = model.types.get(2).unwrap();
    assert_eq!(common_type.id, "/CommonDatatype_FLOAT32");
    assert_eq!(common_type.name, "FLOAT32");
    assert!(matches!(&common_type.datatype, FibexDatatype::Primitive(FibexPrimitive::Float32)));
}

#[test]
fn test_parse_coded_primitives() {
    let xml = r#"
        <fx:DATATYPE xsi:type="fx:COMMON-DATATYPE-TYPE" ID="/CommonDatatype_AUint16">
            <ho:SHORT-NAME>AUint16</ho:SHORT-NAME>
            <fx:CODING-REF ID-REF="/Coding_UINT16"/>
        </fx:DATATYPE>
        <fx:DATATYPE xsi:type="fx:COMMON-DATATYPE-TYPE" ID="/CommonDatatype_AUint32">
            <ho:SHORT-NAME>AUint32</ho:SHORT-NAME>
            <fx:CODING-REF ID-REF="/Coding_UINT32"/>
        </fx:DATATYPE>
        <fx:PROCESSING-INFORMATION>
            <fx:CODINGS>
                <fx:CODING ID="/Coding_UINT16">
                    <ho:SHORT-NAME>UINT16</ho:SHORT-NAME>
                </fx:CODING>
                <fx:CODING ID="/Coding_UINT32">
                    <ho:SHORT-NAME>AUint32Coding</ho:SHORT-NAME>
                    <ho:CODED-TYPE ho:BASE-DATA-TYPE="A_UINT32" CATEGORY="STANDARD-LENGTH-TYPE">
                        <ho:BIT-LENGTH>32</ho:BIT-LENGTH>
                    </ho:CODED-TYPE>
                </fx:CODING>
            </fx:CODINGS>
        </fx:PROCESSING-INFORMATION>
    "#;

    let reader = FibexReader::from_reader(xml.as_bytes()).unwrap();
    let model = FibexParser::parse(reader).expect("parse failed");

    assert_eq!(2, model.types.len());
    assert_eq!(2, model.codings.len());

    let common_type = model.types.get(0).unwrap();
    assert_eq!(common_type.id, "/CommonDatatype_AUint16");
    assert_eq!(common_type.name, "AUint16");
    assert!(matches!(&common_type.datatype, FibexDatatype::Primitive(FibexPrimitive::Uint16)));

    let common_type = model.types.get(1).unwrap();
    assert_eq!(common_type.id, "/CommonDatatype_AUint32");
    assert_eq!(common_type.name, "AUint32");
    assert!(matches!(&common_type.datatype, FibexDatatype::Primitive(FibexPrimitive::Uint32)));
}

#[test]
fn test_parse_struct_of_primitives() {
    let xml = r#"
        <fx:DATATYPE xsi:type="fx:COMMON-DATATYPE-TYPE" ID="/CommonDatatype_UINT8">
            <ho:SHORT-NAME>UINT8</ho:SHORT-NAME>
        </fx:DATATYPE>
        <fx:DATATYPE xsi:type="fx:COMMON-DATATYPE-TYPE" ID="/CommonDatatype_UINT16">
            <ho:SHORT-NAME>UINT16</ho:SHORT-NAME>
        </fx:DATATYPE>
        <fx:DATATYPE xsi:type="fx:COMPLEX-DATATYPE-TYPE" ID="/ComplexDatatype_Struct">
            <ho:SHORT-NAME>Struct</ho:SHORT-NAME>
            <fx:COMPLEX-DATATYPE-CLASS>STRUCTURE</fx:COMPLEX-DATATYPE-CLASS>
            <fx:MEMBERS>
                <fx:MEMBER ID="/ComplexDatatype_Struct/ComplexDatatypeMember_Member2">
                <ho:SHORT-NAME>Member2</ho:SHORT-NAME>
                <fx:DATATYPE-REF ID-REF="/CommonDatatype_UINT16"/>
                <fx:UTILIZATION>
                    <fx:IS-HIGH-LOW-BYTE-ORDER>false</fx:IS-HIGH-LOW-BYTE-ORDER>
                </fx:UTILIZATION>
                <fx:POSITION>1</fx:POSITION>
                </fx:MEMBER>
                <fx:MEMBER ID="/ComplexDatatype_Struct/ComplexDatatypeMember_Member1">
                <ho:SHORT-NAME>Member1</ho:SHORT-NAME>
                <fx:DATATYPE-REF ID-REF="/CommonDatatype_UINT8"/>
                <fx:UTILIZATION>
                    <fx:IS-HIGH-LOW-BYTE-ORDER>true</fx:IS-HIGH-LOW-BYTE-ORDER>
                </fx:UTILIZATION>
                <fx:POSITION>0</fx:POSITION>
                </fx:MEMBER>
            </fx:MEMBERS>
        </fx:DATATYPE>
    "#;

    let reader = FibexReader::from_reader(xml.as_bytes()).unwrap();
    let model = FibexParser::parse(reader).expect("parse failed");

    assert_eq!(3, model.types.len());

    let common_type = model.types.get(0).unwrap();
    assert_eq!(common_type.id, "/CommonDatatype_UINT8");
    assert!(matches!(&common_type.datatype, FibexDatatype::Primitive(FibexPrimitive::Uint8)));

    let common_type = model.types.get(1).unwrap();
    assert_eq!(common_type.id, "/CommonDatatype_UINT16");
    assert!(matches!(&common_type.datatype, FibexDatatype::Primitive(FibexPrimitive::Uint16)));

    let complex_type = model.types.get(2).unwrap();
    assert_eq!(complex_type.id, "/ComplexDatatype_Struct");
    assert_eq!(complex_type.name, "Struct");

    let struct_type = match &complex_type.datatype {
                FibexDatatype::Struct(datatype) => datatype,
                _ => panic!(),
            };
    assert_eq!(2, struct_type.members.len());

    // member 1
    {
        let member = struct_type.members.get(0).unwrap();
        assert_eq!(
            member.id,
            "/ComplexDatatype_Struct/ComplexDatatypeMember_Member1"
        );
        assert_eq!(member.name, "member1");
        assert_eq!(member.id_ref, "/CommonDatatype_UINT8");

        assert!(member.is_high_low_byte_order());
        assert!(!member.is_array());

        let member_type = &model.types[member.type_ref.unwrap()];
        assert_eq!(member_type.id, "/CommonDatatype_UINT8");
        assert!(matches!(&member_type.datatype, FibexDatatype::Primitive(FibexPrimitive::Uint8)));
    }

    // member 2
    {
        let member = struct_type.members.get(1).unwrap();
        assert_eq!(
            member.id,
            "/ComplexDatatype_Struct/ComplexDatatypeMember_Member2"
        );
        assert_eq!(member.name, "member2");
        assert_eq!(member.id_ref, "/CommonDatatype_UINT16");
        assert!(!member.is_high_low_byte_order());
        assert!(!member.is_array());

        let member_type = &model.types[member.type_ref.unwrap()];
        assert_eq!(member_type.id, "/CommonDatatype_UINT16");
        assert!(matches!(&member_type.datatype, FibexDatatype::Primitive(FibexPrimitive::Uint16)));
    }
}

#[test]
fn test_parse_struct_of_structs_with_multidim_array() {
    let xml = r#"
        <fx:DATATYPE xsi:type="fx:COMMON-DATATYPE-TYPE" ID="/CommonDatatype_BOOL">
            <ho:SHORT-NAME>BOOL</ho:SHORT-NAME>
        </fx:DATATYPE>
        <fx:DATATYPE xsi:type="fx:COMMON-DATATYPE-TYPE" ID="/CommonDatatype_INT16">
            <ho:SHORT-NAME>INT16</ho:SHORT-NAME>
        </fx:DATATYPE>
        <fx:DATATYPE xsi:type="fx:COMMON-DATATYPE-TYPE" ID="/CommonDatatype_INT32">
            <ho:SHORT-NAME>INT32</ho:SHORT-NAME>
        </fx:DATATYPE>
        <fx:DATATYPE xsi:type="fx:COMPLEX-DATATYPE-TYPE" ID="/ComplexDatatype_Struct">
            <ho:SHORT-NAME>Struct</ho:SHORT-NAME>
            <fx:COMPLEX-DATATYPE-CLASS>STRUCTURE</fx:COMPLEX-DATATYPE-CLASS>
            <fx:MEMBERS>
                <fx:MEMBER ID="/ComplexDatatype_Struct/ComplexDatatypeMember_Member1">
                <ho:SHORT-NAME>Member1</ho:SHORT-NAME>
                <fx:DATATYPE-REF ID-REF="/CommonDatatype_BOOL"/>
                <fx:POSITION>0</fx:POSITION>
                </fx:MEMBER>
                <fx:MEMBER ID="/ComplexDatatype_Struct/ComplexDatatypeMember_Member2">
                <ho:SHORT-NAME>Member2</ho:SHORT-NAME>
                <fx:DATATYPE-REF ID-REF="/ComplexDatatype_SubStruct"/>
                <fx:POSITION>1</fx:POSITION>
                </fx:MEMBER>
            </fx:MEMBERS>
        </fx:DATATYPE>
        <fx:DATATYPE xsi:type="fx:COMPLEX-DATATYPE-TYPE" ID="/ComplexDatatype_SubStruct">
            <ho:SHORT-NAME>SubStruct</ho:SHORT-NAME>
            <fx:COMPLEX-DATATYPE-CLASS>STRUCTURE</fx:COMPLEX-DATATYPE-CLASS>
            <fx:MEMBERS>
                <fx:MEMBER ID="/ComplexDatatype_SubStruct/ComplexDatatypeMember_Member1">
                <ho:SHORT-NAME>Member1</ho:SHORT-NAME>
                <fx:DATATYPE-REF ID-REF="/CommonDatatype_INT16"/>
                <fx:UTILIZATION>
                    <fx:IS-HIGH-LOW-BYTE-ORDER>true</fx:IS-HIGH-LOW-BYTE-ORDER>
                </fx:UTILIZATION>
                <fx:POSITION>0</fx:POSITION>
                </fx:MEMBER>
                <fx:MEMBER ID="/ComplexDatatype_SubStruct/ComplexDatatypeMember_Member2">
                <ho:SHORT-NAME>Member2</ho:SHORT-NAME>
                <fx:DATATYPE-REF ID-REF="/CommonDatatype_INT32"/>
                <fx:ARRAY-DECLARATION>
                    <fx:ARRAY-DIMENSION>
                        <fx:DIMENSION>1</fx:DIMENSION>
                        <fx:MAXIMUM-SIZE>3</fx:MAXIMUM-SIZE>
                    </fx:ARRAY-DIMENSION>
                    <fx:ARRAY-DIMENSION>
                        <fx:DIMENSION>2</fx:DIMENSION>
                        <fx:MINIMUM-SIZE>1</fx:MINIMUM-SIZE>
                        <fx:MAXIMUM-SIZE>5</fx:MAXIMUM-SIZE>
                    </fx:ARRAY-DIMENSION>
                </fx:ARRAY-DECLARATION>
                <fx:UTILIZATION>
                    <fx:IS-HIGH-LOW-BYTE-ORDER>false</fx:IS-HIGH-LOW-BYTE-ORDER>
                </fx:UTILIZATION>
                <fx:POSITION>1</fx:POSITION>
                </fx:MEMBER>
            </fx:MEMBERS>
        </fx:DATATYPE>
    "#;

    let reader = FibexReader::from_reader(xml.as_bytes()).unwrap();
    let model = FibexParser::parse(reader).expect("parse failed");

    assert_eq!(5, model.types.len());

    let common_type = model.types.get(0).unwrap();
    assert_eq!(common_type.id, "/CommonDatatype_BOOL");
    assert!(matches!(&common_type.datatype, FibexDatatype::Primitive(FibexPrimitive::Bool)));

    let common_type = model.types.get(1).unwrap();
    assert_eq!(common_type.id, "/CommonDatatype_INT16");
    assert!(matches!(&common_type.datatype, FibexDatatype::Primitive(FibexPrimitive::Int16)));

    let common_type = model.types.get(2).unwrap();
    assert_eq!(common_type.id, "/CommonDatatype_INT32");
    assert!(matches!(&common_type.datatype, FibexDatatype::Primitive(FibexPrimitive::Int32)));

    let complex_type = model.types.get(3).unwrap();
    assert_eq!(complex_type.id, "/ComplexDatatype_Struct");
    assert_eq!(complex_type.name, "Struct");

    let struct_type = match &complex_type.datatype {
                FibexDatatype::Struct(datatype) => datatype,
                _ => panic!(),
            };
    assert_eq!(2, struct_type.members.len());

    // member 1
    {
        let member = struct_type.members.get(0).unwrap();
        assert_eq!(
            member.id,
            "/ComplexDatatype_Struct/ComplexDatatypeMember_Member1"
        );
        assert_eq!(member.name, "member1");
        assert_eq!(member.id_ref, "/CommonDatatype_BOOL");
        assert!(!member.is_array());

        let member_type = &model.types[member.type_ref.unwrap()];
        assert_eq!(member_type.id, "/CommonDatatype_BOOL");
        assert!(matches!(&member_type.datatype, FibexDatatype::Primitive(FibexPrimitive::Bool)));
    }

    // member 2
    {
        let member = struct_type.members.get(1).unwrap();
        assert_eq!(
            member.id,
            "/ComplexDatatype_Struct/ComplexDatatypeMember_Member2"
        );
        assert_eq!(member.id_ref, "/ComplexDatatype_SubStruct");
        assert!(!member.is_array());

        let member_type = &model.types[member.type_ref.unwrap()];

        let struct_type = match &member_type.datatype {
                FibexDatatype::Struct(datatype) => datatype,
                _ => panic!(),
            };
        assert_eq!(2, struct_type.members.len());

        // sub member 1
        {
            let member = struct_type.members.get(0).unwrap();
            assert_eq!(
                member.id,
                "/ComplexDatatype_SubStruct/ComplexDatatypeMember_Member1"
            );
            assert_eq!(member.name, "member1");
            assert_eq!(member.id_ref, "/CommonDatatype_INT16");

            assert!(member.is_high_low_byte_order());
            assert!(!member.is_array());

            let member_type = &model.types[member.type_ref.unwrap()];
            assert_eq!(member_type.id, "/CommonDatatype_INT16");
            assert!(matches!(&member_type.datatype, FibexDatatype::Primitive(FibexPrimitive::Int16)));
        }

        // sub member 2
        {
            let member = struct_type.members.get(1).unwrap();
            assert_eq!(
                member.id,
                "/ComplexDatatype_SubStruct/ComplexDatatypeMember_Member2"
            );
            assert_eq!(member.name, "member2");
            assert_eq!(member.id_ref, "/CommonDatatype_INT32");
            assert!(!member.is_high_low_byte_order());
            assert!(member.is_array());

            assert_eq!(2, member.num_array_dimensions());
            let array_dimension = member.get_array_dimension(0).unwrap();
            assert_eq!(1, array_dimension.index);
            assert_eq!(0, array_dimension.min);
            assert_eq!(3, array_dimension.max);

            let array_dimension = member.get_array_dimension(1).unwrap();
            assert_eq!(2, array_dimension.index);
            assert_eq!(1, array_dimension.min);
            assert_eq!(5, array_dimension.max);

            let member_type = &model.types[member.type_ref.unwrap()];
            assert_eq!(member_type.id, "/CommonDatatype_INT32");
            assert!(matches!(&member_type.datatype, FibexDatatype::Primitive(FibexPrimitive::Int32)));
        }
    }
}

#[test]
fn test_parse_enum() {
    let xml = r#"
        <fx:DATATYPE xsi:type="fx:ENUM-DATATYPE-TYPE" ID="/SOMEIP/TEST/EnumDatatype_AEnum">
            <ho:SHORT-NAME>AEnum</ho:SHORT-NAME>
            <fx:PACKAGE-REF ID-REF="/SOMEIP/TEST"/>
            <fx:CODING-REF ID-REF="/Coding_UINT16"/>
            <fx:ENUMERATION-ELEMENTS>
                <fx:ENUM-ELEMENT>
                    <fx:VALUE>1</fx:VALUE>
                    <fx:SYNONYM>A</fx:SYNONYM>
                </fx:ENUM-ELEMENT>
                <fx:ENUM-ELEMENT>
                    <fx:VALUE>2</fx:VALUE>
                    <fx:SYNONYM>B</fx:SYNONYM>
                </fx:ENUM-ELEMENT>
                <fx:ENUM-ELEMENT>
                    <fx:VALUE>3</fx:VALUE>
                    <fx:SYNONYM>C</fx:SYNONYM>
                </fx:ENUM-ELEMENT>
            </fx:ENUMERATION-ELEMENTS>
        </fx:DATATYPE>
        <fx:PROCESSING-INFORMATION>
            <fx:CODINGS>
                <fx:CODING ID="/Coding_UINT16">
                    <ho:SHORT-NAME>UINT16</ho:SHORT-NAME>
                </fx:CODING>
            </fx:CODINGS>
        </fx:PROCESSING-INFORMATION>
    "#;

    let reader = FibexReader::from_reader(xml.as_bytes()).unwrap();
    let model = FibexParser::parse(reader).expect("parse failed");

    assert_eq!(1, model.types.len());
    assert_eq!(1, model.codings.len());

    let complex_type = model.types.get(0).unwrap();
    assert_eq!(complex_type.id, "/SOMEIP/TEST/EnumDatatype_AEnum");
    assert_eq!(complex_type.name, "AEnum");

    let enum_type = match &complex_type.datatype {
                FibexDatatype::Enum(datatype) => datatype,
                _ => panic!(),
            };
    assert_eq!(3, enum_type.variants.len());

    // primitive
    {
        let primitive = &enum_type.primitive;

        assert!(matches!(&primitive, FibexPrimitive::Uint16));
    }

    // variants
    {
        let enum_variant = enum_type.variants.get(0).unwrap();
        assert_eq!(enum_variant.name, "A");
        assert_eq!(enum_variant.value, "1");

        let enum_variant = enum_type.variants.get(1).unwrap();
        assert_eq!(enum_variant.name, "B");
        assert_eq!(enum_variant.value, "2");

        let enum_variant = enum_type.variants.get(2).unwrap();
        assert_eq!(enum_variant.name, "C");
        assert_eq!(enum_variant.value, "3");
    }
}

#[test]
fn test_parse_struct_of_strings() {
    let xml = r#"
        <fx:DATATYPE xsi:type="fx:COMPLEX-DATATYPE-TYPE" ID="/ComplexDatatype_Struct">
            <ho:SHORT-NAME>Struct</ho:SHORT-NAME>
            <fx:COMPLEX-DATATYPE-CLASS>STRUCTURE</fx:COMPLEX-DATATYPE-CLASS>
            <fx:MEMBERS>
                <fx:MEMBER ID="/ComplexDatatype_Struct/ComplexDatatypeMember_Member1">
                <ho:SHORT-NAME>Member1</ho:SHORT-NAME>
                <fx:DATATYPE-REF ID-REF="/CommonDatatype_STRINGUTF8FIXED"/>
                <fx:UTILIZATION>
                    <fx:BIT-LENGTH>40</fx:BIT-LENGTH>
                    <fx:IS-HIGH-LOW-BYTE-ORDER>true</fx:IS-HIGH-LOW-BYTE-ORDER>
                </fx:UTILIZATION>
                <fx:POSITION>0</fx:POSITION>
                </fx:MEMBER>
                <fx:MEMBER ID="/ComplexDatatype_Struct/ComplexDatatypeMember_Member2">
                <ho:SHORT-NAME>Member2</ho:SHORT-NAME>
                <fx:DATATYPE-REF ID-REF="/CommonDatatype_STRINGUTF16DYNAMIC"/>
                <fx:UTILIZATION>
                    <fx:MAX-BIT-LENGTH>80</fx:MAX-BIT-LENGTH>
                    <fx:IS-HIGH-LOW-BYTE-ORDER>false</fx:IS-HIGH-LOW-BYTE-ORDER>
                    <fx:SERIALIZATION-ATTRIBUTES>
                        <fx:LENGTH-FIELD-SIZE>8</fx:LENGTH-FIELD-SIZE>
                    </fx:SERIALIZATION-ATTRIBUTES>
                </fx:UTILIZATION>
                <fx:POSITION>1</fx:POSITION>
                </fx:MEMBER>
            </fx:MEMBERS>
        </fx:DATATYPE>
        <fx:DATATYPE xsi:type="fx:COMMON-DATATYPE-TYPE" ID="/CommonDatatype_STRINGUTF8FIXED">
            <ho:SHORT-NAME>STRINGUTF8FIXED</ho:SHORT-NAME>
            <fx:CODING-REF ID-REF="/Coding_STRINGUTF8FIXED"/>
        </fx:DATATYPE>
        <fx:DATATYPE xsi:type="fx:COMMON-DATATYPE-TYPE" ID="/CommonDatatype_STRINGUTF16DYNAMIC">
            <ho:SHORT-NAME>STRINGUTF16DYNAMIC</ho:SHORT-NAME>
            <fx:CODING-REF ID-REF="/Coding_STRINGUTF16DYNAMIC"/>
        </fx:DATATYPE>
        <fx:PROCESSING-INFORMATION>
            <fx:CODINGS>
                <fx:CODING ID="/Coding_STRINGUTF8FIXED">
                    <ho:SHORT-NAME>STRINGUTF8FIXED</ho:SHORT-NAME>
                    <ho:CODED-TYPE 
                            ho:BASE-DATA-TYPE="A_UNICODE2STRING" 
                            CATEGORY="STANDARD-LENGTH-TYPE" 
                            ENCODING="UTF-8" 
                            BYTE-ORDER-MARK="NONE"
                            TERMINATION="NONE"
                    >
                    </ho:CODED-TYPE>
                </fx:CODING>
                <fx:CODING ID="/Coding_STRINGUTF16DYNAMIC">
                    <ho:SHORT-NAME>STRINGUTF16DYNAMIC</ho:SHORT-NAME>
                    <ho:CODED-TYPE 
                        ho:BASE-DATA-TYPE="A_UNICODE2STRING" 
                        CATEGORY="LEADING-LENGTH-INFO-TYPE" 
                        ENCODING="UTF-16" 
                        BYTE-ORDER-MARK="EXPLICIT"
                        TERMINATION="ZERO"
                    >
                        <ho:MIN-LENGTH>2</ho:MIN-LENGTH>
                    </ho:CODED-TYPE>
                </fx:CODING>
            </fx:CODINGS>
        </fx:PROCESSING-INFORMATION>
    "#;

    let reader = FibexReader::from_reader(xml.as_bytes()).unwrap();
    let model = FibexParser::parse(reader).expect("parse failed");

    assert_eq!(3, model.types.len());
    assert_eq!(2, model.codings.len());

    let complex_type = model.types.get(0).unwrap();

    let struct_type = match &complex_type.datatype {
                FibexDatatype::Struct(datatype) => datatype,
                _ => panic!(),
            };
    assert_eq!(2, struct_type.members.len());

    // member 1
    {
        let member = struct_type.members.get(0).unwrap();
        assert_eq!(member.id_ref, "/CommonDatatype_STRINGUTF8FIXED");

        assert!(member.is_high_low_byte_order());
        assert_eq!(member.get_bit_length().unwrap(), 40);

        let member_type = &model.types[member.type_ref.unwrap()];
        assert_eq!(member_type.id, "/CommonDatatype_STRINGUTF8FIXED");

        let string_type = match &member_type.datatype {
                FibexDatatype::String(datatype) => datatype,
                _ => panic!(),
            };

        assert!(!string_type.is_dynamic);
        assert_eq!(string_type.encoding, FibexStringEncoding::UTF8);
        assert!(!string_type.has_bom);
        assert!(!string_type.has_termination);
    }

    // member 2
    {
        let member = struct_type.members.get(1).unwrap();
        assert_eq!(member.id_ref, "/CommonDatatype_STRINGUTF16DYNAMIC");

        assert!(!member.is_high_low_byte_order());
        assert_eq!(member.get_length_field_size(), 1);
        assert_eq!(member.get_max_bit_length().unwrap(), 80);

        let member_type = &model.types[member.type_ref.unwrap()];
        assert_eq!(member_type.id, "/CommonDatatype_STRINGUTF16DYNAMIC");

        let string_type = match &member_type.datatype {
                FibexDatatype::String(datatype) => datatype,
                _ => panic!(),
            };

        assert!(string_type.is_dynamic);
        assert_eq!(string_type.encoding, FibexStringEncoding::UTF16);
        assert!(string_type.has_bom);
        assert!(string_type.has_termination);
        assert_eq!(string_type.min_length.unwrap(), 2);
    }
}

