use savon::rpser::document::parse_document;
use savon::wsdl::{
    parse, read, split_namespace, ComplexType, Message, Occurence, Operation, ParseFailure,
    SimpleType, Type, TypeAttribute, WsdlError,
};

const EXAMPLE: &str = r#"<?xml version="1.0" encoding="UTF-8"?>
<definitions xmlns="http://schemas.xmlsoap.org/wsdl/" xmlns:xs="http://www.w3.org/2001/XMLSchema" xmlns:tns="http://www.oorsprong.org/websamples.countryinfo" name="CountryInfoService" targetNamespace="http://www.oorsprong.org/websamples.countryinfo">
  <types>
    <xs:schema elementFormDefault="qualified" targetNamespace="http://www.oorsprong.org/websamples.countryinfo">
      <xs:complexType name="tContinent">
        <xs:sequence>
          <xs:element name="sCode" type="xs:string"/>
          <xs:element name="sName" type="xs:string" nillable="true"/>
          <xs:element name="iRank" type="xs:int" minOccurs="0"/>
          <xs:element name="bActive" type="xs:boolean" nillable="false"/>
          <xs:element name="fArea" type="xs:float"/>
          <xs:element name="dFounded" type="xs:dateTime"/>
        </xs:sequence>
      </xs:complexType>
      <xs:complexType name="ArrayOftContinent">
        <xs:sequence>
          <xs:element name="tContinent" type="tns:tContinent" minOccurs="0" maxOccurs="unbounded" nillable="true"/>
        </xs:sequence>
      </xs:complexType>
      <xs:element name="ListOfContinentsByName">
        <xs:complexType>
          <xs:sequence/>
        </xs:complexType>
      </xs:element>
      <xs:element name="ListOfContinentsByNameResponse">
        <xs:complexType>
          <xs:sequence>
            <xs:element name="ListOfContinentsByNameResult" type="tns:ArrayOftContinent"/>
          </xs:sequence>
        </xs:complexType>
      </xs:element>
    </xs:schema>
  </types>
  <message name="ListOfContinentsByNameSoapRequest">
    <part name="parameters" element="tns:ListOfContinentsByName"/>
  </message>
  <message name="ListOfContinentsByNameSoapResponse">
    <part name="parameters" element="tns:ListOfContinentsByNameResponse"/>
  </message>
  <portType name="CountryInfoServiceSoapType">
    <documentation>The operations.</documentation>
    <operation name="ListOfContinentsByName">
      <input message="tns:ListOfContinentsByNameSoapRequest"/>
      <output message="tns:ListOfContinentsByNameSoapResponse"/>
    </operation>
  </portType>
  <binding name="CountryInfoServiceSoapBinding" type="tns:CountryInfoServiceSoapType"/>
  <service name="CountryInfoService">
    <port name="CountryInfoServiceSoap" binding="tns:CountryInfoServiceSoapBinding"/>
  </service>
</definitions>"#;

fn plain(kind: SimpleType) -> (TypeAttribute, SimpleType) {
    (TypeAttribute { nillable: false, min_occurs: None, max_occurs: None }, kind)
}

fn document(types: &str, rest: &str) -> String {
    format!(
        "<definitions targetNamespace=\"urn:t\"><types><schema>{}</schema></types>{}<portType/><service name=\"S\"/></definitions>",
        types, rest
    )
}

fn fails_with_element(text: &str, name: &str) {
    match parse(text.as_bytes()) {
        Err(WsdlError::ElementNotFound(found)) => assert_eq!(found, name),
        other => panic!("{:?}", other),
    }
}

fn fails_with_attribute(text: &str, name: &str) {
    match parse(text.as_bytes()) {
        Err(WsdlError::AttributeNotFound(found)) => assert_eq!(found, name),
        other => panic!("{:?}", other),
    }
}

#[test]
fn parse_example() {
    let res = parse(EXAMPLE.as_bytes());
    println!("res: {:?}", res);
    let wsdl = res.unwrap();
    assert_eq!(wsdl.name, "CountryInfoService");
    assert_eq!(wsdl.target_namespace, "http://www.oorsprong.org/websamples.countryinfo");
    let names: Vec<&str> = wsdl.types.iter().map(|t| t.0.as_str()).collect();
    assert_eq!(
        names,
        vec![
            "tContinent",
            "ArrayOftContinent",
            "ListOfContinentsByName",
            "ListOfContinentsByNameResponse"
        ]
    );
    assert_eq!(
        wsdl.types[0].1,
        Type::Complex(ComplexType {
            fields: vec![
                ("sCode".to_string(), plain(SimpleType::String)),
                (
                    "sName".to_string(),
                    (
                        TypeAttribute { nillable: true, min_occurs: None, max_occurs: None },
                        SimpleType::String
                    )
                ),
                (
                    "iRank".to_string(),
                    (
                        TypeAttribute {
                            nillable: false,
                            min_occurs: Some(Occurence::Num(0)),
                            max_occurs: None
                        },
                        SimpleType::Int
                    )
                ),
                ("bActive".to_string(), plain(SimpleType::Boolean)),
                ("fArea".to_string(), plain(SimpleType::Float)),
                ("dFounded".to_string(), plain(SimpleType::DateTime)),
            ]
        })
    );
    assert_eq!(
        wsdl.types[1].1,
        Type::Complex(ComplexType {
            fields: vec![(
                "tContinent".to_string(),
                (
                    TypeAttribute {
                        nillable: true,
                        min_occurs: Some(Occurence::Num(0)),
                        max_occurs: Some(Occurence::Unbounded)
                    },
                    SimpleType::Complex("tContinent".to_string())
                )
            )]
        })
    );
    assert_eq!(wsdl.types[2].1, Type::Complex(ComplexType { fields: vec![] }));
    assert_eq!(
        wsdl.messages,
        vec![
            (
                "ListOfContinentsByNameSoapRequest".to_string(),
                Message {
                    part_name: "parameters".to_string(),
                    part_element: "ListOfContinentsByName".to_string()
                }
            ),
            (
                "ListOfContinentsByNameSoapResponse".to_string(),
                Message {
                    part_name: "parameters".to_string(),
                    part_element: "ListOfContinentsByNameResponse".to_string()
                }
            ),
        ]
    );
    assert_eq!(
        wsdl.operations,
        vec![(
            "ListOfContinentsByName".to_string(),
            Operation {
                name: "ListOfContinentsByName".to_string(),
                input: Some("ListOfContinentsByNameSoapRequest".to_string()),
                output: Some("ListOfContinentsByNameSoapResponse".to_string()),
                faults: None,
            }
        )]
    );
}

#[test]
fn parse_is_repeatable() {
    let first = format!("{:?}", parse(EXAMPLE.as_bytes()).unwrap());
    for _ in 0..10 {
        assert_eq!(format!("{:?}", parse(EXAMPLE.as_bytes()).unwrap()), first);
    }
}

#[test]
fn read_takes_a_tree() {
    let root = parse_document(EXAMPLE.as_bytes()).unwrap();
    let wsdl = read(&root).unwrap();
    assert_eq!(wsdl.name, "CountryInfoService");
    assert_eq!(wsdl.types.len(), 4);
}

#[test]
fn split_namespace_strips_first_prefix() {
    assert_eq!(split_namespace("tns:Name"), "Name");
    assert_eq!(split_namespace("Name"), "Name");
    assert_eq!(split_namespace("a:b:c"), "b:c");
    assert_eq!(split_namespace(":x"), "x");
    assert_eq!(split_namespace("x:"), "");
    assert_eq!(split_namespace(""), "");
    assert_eq!(split_namespace("préfixe:nom"), "nom");
}

#[test]
fn parse_rejects_malformed_xml() {
    match parse(b"<definitions><types></definitions>") {
        Err(WsdlError::Parse(ParseFailure::Xml(_))) => {}
        other => panic!("{:?}", other),
    }
}

#[test]
fn parse_needs_types() {
    fails_with_element("<definitions/>", "types");
}

#[test]
fn parse_needs_schema() {
    match parse(b"<definitions><types/></definitions>") {
        Err(WsdlError::Empty) => {}
        other => panic!("{:?}", other),
    }
}

#[test]
fn parse_needs_type_name() {
    fails_with_attribute(&document("<complexType><sequence/></complexType>", ""), "name");
}

#[test]
fn parse_needs_complex_type_in_element() {
    match parse(document("<element name=\"E\"/>", "").as_bytes()) {
        Err(WsdlError::Empty) => {}
        other => panic!("{:?}", other),
    }
    match parse(document("<element name=\"E\">text</element>", "").as_bytes()) {
        Err(WsdlError::NotAnElement) => {}
        other => panic!("{:?}", other),
    }
    fails_with_element(&document("<element name=\"E\"><simpleType/></element>", ""), "complexType");
}

#[test]
fn parse_needs_field_container() {
    match parse(document("<complexType name=\"T\"/>", "").as_bytes()) {
        Err(WsdlError::Empty) => {}
        other => panic!("{:?}", other),
    }
    match parse(document("<complexType name=\"T\"><!-- c --><sequence/></complexType>", "").as_bytes()) {
        Err(WsdlError::NotAnElement) => {}
        other => panic!("{:?}", other),
    }
}

#[test]
fn parse_needs_field_name_and_type() {
    fails_with_attribute(
        &document("<complexType name=\"T\"><sequence><element type=\"string\"/></sequence></complexType>", ""),
        "name",
    );
    fails_with_attribute(
        &document("<complexType name=\"T\"><sequence><element name=\"f\"/></sequence></complexType>", ""),
        "type",
    );
}

#[test]
fn parse_rejects_occurrence_that_is_no_number() {
    for bound in ["many", "", "-1", "1.5", "4294967296", "Unbounded"] {
        let text = document(
            &format!(
                "<complexType name=\"T\"><sequence><element name=\"f\" type=\"string\" minOccurs=\"{}\"/></sequence></complexType>",
                bound
            ),
            "",
        );
        match parse(text.as_bytes()) {
            Err(WsdlError::Parse(ParseFailure::Occurrence(found))) => assert_eq!(found, bound),
            other => panic!("{:?}", other),
        }
    }
    let text = document(
        "<complexType name=\"T\"><sequence><element name=\"f\" type=\"string\" maxOccurs=\"x\"/></sequence></complexType>",
        "",
    );
    match parse(text.as_bytes()) {
        Err(WsdlError::Parse(ParseFailure::Occurrence(found))) => assert_eq!(found, "x"),
        other => panic!("{:?}", other),
    }
}

#[test]
fn parse_reads_occurrences() {
    let text = document(
        "<complexType name=\"T\"><sequence><element name=\"f\" type=\"x:string\" minOccurs=\"2\" maxOccurs=\"4294967295\"/><element name=\"g\" type=\"other\" minOccurs=\"unbounded\" maxOccurs=\"+3\" nillable=\"TRUE\"/></sequence></complexType>",
        "",
    );
    let wsdl = parse(text.as_bytes()).unwrap();
    assert_eq!(
        wsdl.types,
        vec![(
            "T".to_string(),
            Type::Complex(ComplexType {
                fields: vec![
                    (
                        "f".to_string(),
                        (
                            TypeAttribute {
                                nillable: false,
                                min_occurs: Some(Occurence::Num(2)),
                                max_occurs: Some(Occurence::Num(4294967295)),
                            },
                            SimpleType::String
                        )
                    ),
                    (
                        "g".to_string(),
                        (
                            TypeAttribute {
                                nillable: false,
                                min_occurs: Some(Occurence::Unbounded),
                                max_occurs: Some(Occurence::Num(3)),
                            },
                            SimpleType::Complex("other".to_string())
                        )
                    ),
                ]
            })
        )]
    );
}

#[test]
fn parse_keeps_field_order_and_last_of_a_name() {
    let text = document(
        "<complexType name=\"T\"><sequence><element name=\"z\" type=\"int\"/><element name=\"a\" type=\"int\"/><element name=\"m\" type=\"int\"/><element name=\"z\" type=\"string\"/></sequence></complexType>",
        "",
    );
    let wsdl = parse(text.as_bytes()).unwrap();
    assert_eq!(
        wsdl.types[0].1,
        Type::Complex(ComplexType {
            fields: vec![
                ("z".to_string(), plain(SimpleType::String)),
                ("a".to_string(), plain(SimpleType::Int)),
                ("m".to_string(), plain(SimpleType::Int)),
            ]
        })
    );
}

#[test]
fn parse_keeps_last_type_of_a_name_in_first_place() {
    let text = document(
        "<complexType name=\"A\"><s><e name=\"x\" type=\"int\"/></s></complexType><complexType name=\"B\"><s/></complexType><complexType name=\"A\"><s/></complexType>",
        "",
    );
    let wsdl = parse(text.as_bytes()).unwrap();
    assert_eq!(
        wsdl.types,
        vec![
            ("A".to_string(), Type::Complex(ComplexType { fields: vec![] })),
            ("B".to_string(), Type::Complex(ComplexType { fields: vec![] })),
        ]
    );
}

#[test]
fn parse_needs_message_parts() {
    fails_with_attribute(&document("", "<message><part name=\"p\" element=\"e\"/></message>"), "name");
    match parse(document("", "<message name=\"M\"/>").as_bytes()) {
        Err(WsdlError::Empty) => {}
        other => panic!("{:?}", other),
    }
    fails_with_attribute(&document("", "<message name=\"M\"><part element=\"e\"/></message>"), "name");
    fails_with_attribute(&document("", "<message name=\"M\"><part name=\"p\"/></message>"), "element");
}

#[test]
fn parse_needs_port_type_and_service() {
    fails_with_element(
        "<definitions targetNamespace=\"urn:t\"><types><schema/></types><service name=\"S\"/></definitions>",
        "portType",
    );
    fails_with_element(
        "<definitions targetNamespace=\"urn:t\"><types><schema/></types><portType/></definitions>",
        "service",
    );
    fails_with_attribute(
        "<definitions targetNamespace=\"urn:t\"><types><schema/></types><portType/><service/></definitions>",
        "name",
    );
    fails_with_attribute(
        "<definitions><types><schema/></types><portType/><service name=\"S\"/></definitions>",
        "targetNamespace",
    );
}

fn with_operations(operations: &str) -> String {
    format!(
        "<definitions targetNamespace=\"urn:t\"><types><schema/></types><portType>{}</portType><service name=\"S\"/></definitions>",
        operations
    )
}

#[test]
fn parse_reads_operation_shapes() {
    let text = with_operations(
        "<operation name=\"one\"><input message=\"t:In\"/></operation>\
         <operation name=\"two\"><input message=\"In\"/><output message=\"t:Out\"/></operation>\
         <operation name=\"three\"><input message=\"In\"/><output message=\"Out\"/><fault message=\"t:F1\"/><fault message=\"F2\"/></operation>\
         <operation name=\"four\"><fault message=\"F\"/><input message=\"In\"/></operation>\
         <operation name=\"five\"/>",
    );
    let wsdl = parse(text.as_bytes()).unwrap();
    let some = |s: &str| Some(s.to_string());
    assert_eq!(
        wsdl.operations,
        vec![
            (
                "one".to_string(),
                Operation { name: "one".to_string(), input: some("In"), output: None, faults: None }
            ),
            (
                "two".to_string(),
                Operation { name: "two".to_string(), input: some("In"), output: some("Out"), faults: None }
            ),
            (
                "three".to_string(),
                Operation {
                    name: "three".to_string(),
                    input: some("In"),
                    output: some("Out"),
                    faults: Some(vec!["F1".to_string(), "F2".to_string()])
                }
            ),
            (
                "four".to_string(),
                Operation {
                    name: "four".to_string(),
                    input: some("In"),
                    output: None,
                    faults: Some(vec!["F".to_string()])
                }
            ),
            (
                "five".to_string(),
                Operation { name: "five".to_string(), input: None, output: None, faults: None }
            ),
        ]
    );
}

#[test]
fn parse_takes_last_input_and_output() {
    let text = with_operations(
        "<operation name=\"op\"><input message=\"A\"/><output message=\"X\"/><input message=\"B\"/><output message=\"Y\"/></operation>",
    );
    let wsdl = parse(text.as_bytes()).unwrap();
    assert_eq!(wsdl.operations[0].1.input, Some("B".to_string()));
    assert_eq!(wsdl.operations[0].1.output, Some("Y".to_string()));
}

#[test]
fn parse_rejects_unknown_operation_member() {
    fails_with_element(
        &with_operations("<operation name=\"op\"><inout message=\"A\"/></operation>"),
        "operation member",
    );
    fails_with_attribute(
        &with_operations("<operation name=\"op\"><input/></operation>"),
        "message",
    );
    fails_with_attribute(
        &with_operations("<operation name=\"op\"><documentation>text</documentation></operation>"),
        "message",
    );
    fails_with_attribute(&with_operations("<operation><input message=\"A\"/></operation>"), "name");
}

#[test]
fn parse_reads_only_operations_of_port_type() {
    let text = with_operations("<documentation/><operation name=\"op\"/><other name=\"x\"/>");
    let wsdl = parse(text.as_bytes()).unwrap();
    assert_eq!(wsdl.operations.len(), 1);
    assert_eq!(wsdl.operations[0].0, "op");
}

#[test]
fn parse_reports_first_defect() {
    fails_with_element("<definitions><message/></definitions>", "types");
    fails_with_attribute(
        "<definitions><types><schema/></types><message/></definitions>",
        "name",
    );
}
