use savon::gen::{plan, BindingPlan, ToElements};
use savon::record::{FieldValue, Record, Value};
use savon::rpser::xml::{Element, Error, Node};
use savon::wsdl::{ComplexType, Occurence, SimpleType, Type, TypeAttribute, Wsdl};

fn attribute(nillable: bool, sequence: bool) -> TypeAttribute {
    TypeAttribute {
        nillable,
        min_occurs: if sequence { Some(Occurence::Num(0)) } else { None },
        max_occurs: if sequence { Some(Occurence::Unbounded) } else { None },
    }
}

fn complex(fields: Vec<(&str, TypeAttribute, SimpleType)>) -> Type {
    Type::Complex(ComplexType {
        fields: fields.into_iter().map(|(n, a, t)| (n.to_string(), (a, t))).collect(),
    })
}

fn bindings(types: Vec<(&str, Type)>) -> BindingPlan {
    plan(&Wsdl {
        name: "Service".to_string(),
        target_namespace: "urn:service".to_string(),
        types: types.into_iter().map(|(n, t)| (n.to_string(), t)).collect(),
        messages: vec![],
        operations: vec![],
    })
    .unwrap()
}

fn record(fields: Vec<(&str, FieldValue)>) -> Record {
    Record { fields: fields.into_iter().map(|(n, f)| (n.to_string(), f)).collect() }
}

fn text(s: &str) -> Value {
    Value::Text(s.to_string())
}

fn root(children: Vec<Element>) -> Element {
    Element::node("root").with_children(children)
}

fn primitives() -> BindingPlan {
    bindings(vec![(
        "Primitives",
        complex(vec![
            ("flag", attribute(false, false), SimpleType::Boolean),
            ("count", attribute(false, false), SimpleType::Int),
            ("note", attribute(false, false), SimpleType::String),
        ]),
    )])
}

fn one_field(kind: SimpleType, nillable: bool) -> BindingPlan {
    bindings(vec![
        ("Item", complex(vec![("n", attribute(false, false), SimpleType::Int)])),
        ("T", complex(vec![("f", attribute(nillable, false), kind)])),
    ])
}

fn read_one(kind: SimpleType, nillable: bool, element: Element) -> Result<Record, Error> {
    Record::from_element(&one_field(kind, nillable), "T", &root(vec![element]))
}

#[test]
fn primitive_record_round_trip() {
    let plan = primitives();
    let r = record(vec![
        ("flag", FieldValue::One(Value::Boolean(true))),
        ("count", FieldValue::One(Value::Integer(42))),
        ("note", FieldValue::One(text("hi"))),
    ]);
    let written = r.to_elements();
    assert_eq!(
        written,
        vec![
            Element::node("flag").with_text("true"),
            Element::node("count").with_text("42"),
            Element::node("note").with_text("hi"),
        ]
    );
    assert_eq!(
        root(r.to_elements()).to_string(),
        "<?xml version=\"1.0\" encoding=\"UTF-8\"?><root><flag>true</flag><count>42</count><note>hi</note></root>"
    );
    assert_eq!(Record::from_element(&plan, "Primitives", &root(written)), Ok(r));
}

#[test]
fn repeated_complex_field_round_trip() {
    let plan = bindings(vec![
        ("Item", complex(vec![("name", attribute(false, false), SimpleType::String)])),
        ("Basket", complex(vec![("items", attribute(false, true), SimpleType::Complex("Item".to_string()))])),
    ]);
    let item = |name: &str| Value::Record(record(vec![("name", FieldValue::One(text(name)))]));
    let r = record(vec![("items", FieldValue::Many(vec![item("first"), item("second"), item("third")]))]);
    let written = r.to_elements();
    let names: Vec<&str> = written.iter().map(|e| e.name.as_str()).collect();
    assert_eq!(names, vec!["items", "items", "items"]);
    assert_eq!(
        written[1],
        Element::node("items").with_child(Element::node("name").with_text("second"))
    );
    assert_eq!(Record::from_element(&plan, "Basket", &root(written)), Ok(r));
}

#[test]
fn sequences_of_any_length_round_trip() {
    let plan = bindings(vec![("Numbers", complex(vec![("n", attribute(false, true), SimpleType::Int)]))]);
    for length in 0..6 {
        let items: Vec<Value> = (0..length).map(|i| Value::Integer(i * 7 - 3)).collect();
        let r = record(vec![("n", FieldValue::Many(items))]);
        let written = r.to_elements();
        assert_eq!(written.len(), length as usize);
        assert_eq!(Record::from_element(&plan, "Numbers", &root(written)), Ok(r));
    }
}

#[test]
fn nillable_sequence_round_trips_as_present() {
    let plan = bindings(vec![("Numbers", complex(vec![("n", attribute(true, true), SimpleType::Int)]))]);
    let r = record(vec![("n", FieldValue::Many(vec![Value::Integer(1), Value::Integer(2)]))]);
    assert_eq!(Record::from_element(&plan, "Numbers", &root(r.to_elements())), Ok(r));
    let empty = record(vec![("n", FieldValue::Many(vec![]))]);
    assert_eq!(Record::from_element(&plan, "Numbers", &Element::node("root")), Ok(empty));
}

#[test]
fn sequence_reads_every_child_element() {
    let plan = bindings(vec![(
        "Mixed",
        complex(vec![
            ("n", attribute(false, true), SimpleType::Int),
            ("flag", attribute(true, false), SimpleType::Boolean),
        ]),
    )]);
    let element = root(vec![
        Element::node("n").with_text("1"),
        Element::node("other").with_text("2"),
    ]);
    assert_eq!(
        Record::from_element(&plan, "Mixed", &element),
        Ok(record(vec![
            ("n", FieldValue::Many(vec![Value::Integer(1), Value::Integer(2)])),
            ("flag", FieldValue::Absent),
        ]))
    );
}

#[test]
fn nillable_absent_round_trip() {
    let plan = bindings(vec![(
        "T",
        complex(vec![
            ("id", attribute(false, false), SimpleType::Int),
            ("note", attribute(true, false), SimpleType::String),
        ]),
    )]);
    let element = root(vec![Element::node("id").with_text("7")]);
    let r = Record::from_element(&plan, "T", &element).unwrap();
    assert_eq!(
        r,
        record(vec![("id", FieldValue::One(Value::Integer(7))), ("note", FieldValue::Absent)])
    );
    let written = r.to_elements();
    assert_eq!(written, vec![Element::node("id").with_text("7")]);
    assert!(written.iter().all(|e| e.name != "note"));
}

#[test]
fn nillable_present_is_read() {
    assert_eq!(
        read_one(SimpleType::Int, true, Element::node("f").with_text("5")),
        Ok(record(vec![("f", FieldValue::One(Value::Integer(5)))]))
    );
}

#[test]
fn nillable_malformed_is_absent() {
    assert_eq!(
        read_one(SimpleType::Int, true, Element::node("f").with_text("five")),
        Ok(record(vec![("f", FieldValue::Absent)]))
    );
    assert_eq!(
        read_one(SimpleType::Int, true, Element::node("f")),
        Ok(record(vec![("f", FieldValue::Absent)]))
    );
    assert_eq!(
        read_one(SimpleType::Complex("Item".to_string()), true, Element::node("f")),
        Ok(record(vec![("f", FieldValue::Absent)]))
    );
    assert_eq!(
        read_one(SimpleType::DateTime, true, Element::node("f").with_text("soon")),
        Ok(record(vec![("f", FieldValue::Absent)]))
    );
}

#[test]
fn required_missing_is_an_error() {
    assert_eq!(
        read_one(SimpleType::Int, false, Element::node("g").with_text("5")),
        Err(Error::NotFoundAtPath { path: vec!["f".to_string()] })
    );
}

#[test]
fn required_malformed_is_an_error() {
    assert_eq!(
        read_one(SimpleType::Int, false, Element::node("f").with_text("five")),
        Err(Error::ParseIntError { name: "f".to_string() })
    );
    assert_eq!(
        read_one(SimpleType::Float, false, Element::node("f").with_text("1.5.5")),
        Err(Error::ParseFloatError { name: "f".to_string() })
    );
    match read_one(SimpleType::DateTime, false, Element::node("f").with_text("soon")) {
        Err(Error::ParseDateTimeError { name, .. }) => assert_eq!(name, "f"),
        other => panic!("{:?}", other),
    }
    assert_eq!(read_one(SimpleType::String, false, Element::node("f")), Err(Error::Empty));
    assert_eq!(read_one(SimpleType::Boolean, false, Element::node("f")), Err(Error::Empty));
    assert_eq!(
        read_one(SimpleType::Complex("Item".to_string()), false, Element::node("f")),
        Err(Error::NotFoundAtPath { path: vec!["n".to_string()] })
    );
}

#[test]
fn values_are_read_by_kind() {
    assert_eq!(
        read_one(SimpleType::Boolean, false, Element::node("f").with_text("true")),
        Ok(record(vec![("f", FieldValue::One(Value::Boolean(true)))]))
    );
    assert_eq!(
        read_one(SimpleType::Boolean, false, Element::node("f").with_text("yes")),
        Ok(record(vec![("f", FieldValue::One(Value::Boolean(false)))]))
    );
    assert_eq!(
        read_one(SimpleType::Int, false, Element::node("f").with_text("-9223372036854775808")),
        Ok(record(vec![("f", FieldValue::One(Value::Integer(i64::MIN)))]))
    );
    assert_eq!(
        read_one(SimpleType::Float, false, Element::node("f").with_text("-1.5e3")),
        Ok(record(vec![("f", FieldValue::One(Value::Float("-1.5e3".to_string())))]))
    );
    assert_eq!(
        read_one(SimpleType::DateTime, false, Element::node("f").with_text("2015-05-15T00:00:00Z")),
        Ok(record(vec![("f", FieldValue::One(Value::Instant("2015-05-15T00:00:00Z".to_string())))]))
    );
    assert_eq!(
        read_one(SimpleType::String, false, Element::node("f").with_text("")),
        Ok(record(vec![("f", FieldValue::One(text("")))]))
    );
}

#[test]
fn values_are_written_by_kind() {
    let r = record(vec![
        ("a", FieldValue::One(Value::Boolean(false))),
        ("b", FieldValue::One(Value::Integer(-17))),
        ("c", FieldValue::One(Value::Float("2.5".to_string()))),
        ("d", FieldValue::One(Value::Instant("2015-05-15T00:00:00Z".to_string()))),
        ("e", FieldValue::Absent),
        ("f", FieldValue::Many(vec![text("x"), text("y")])),
        ("g", FieldValue::One(Value::Record(record(vec![("h", FieldValue::One(text("z")))])))),
    ]);
    assert_eq!(
        r.to_elements(),
        vec![
            Element::node("a").with_text("false"),
            Element::node("b").with_text("-17"),
            Element::node("c").with_text("2.5"),
            Element::node("d").with_text("2015-05-15T00:00:00Z"),
            Element::node("f").with_text("x"),
            Element::node("f").with_text("y"),
            Element::node("g").with_child(Element::node("h").with_text("z")),
        ]
    );
}

#[test]
fn nested_records_round_trip() {
    let plan = bindings(vec![
        ("Leaf", complex(vec![("value", attribute(false, false), SimpleType::Int)])),
        ("Leaves", complex(vec![("leaf", attribute(false, true), SimpleType::Complex("Leaf".to_string()))])),
        (
            "Tree",
            complex(vec![
                ("name", attribute(false, false), SimpleType::String),
                ("leaves", attribute(false, false), SimpleType::Complex("Leaves".to_string())),
                ("when", attribute(false, false), SimpleType::DateTime),
                ("weight", attribute(false, false), SimpleType::Float),
            ]),
        ),
    ]);
    let leaf = |n: i64| Value::Record(record(vec![("value", FieldValue::One(Value::Integer(n)))]));
    let r = record(vec![
        ("name", FieldValue::One(text("oak"))),
        (
            "leaves",
            FieldValue::One(Value::Record(record(vec![(
                "leaf",
                FieldValue::Many(vec![leaf(3), leaf(1), leaf(2)]),
            )]))),
        ),
        ("when", FieldValue::One(Value::Instant("2020-01-02T03:04:05Z".to_string()))),
        ("weight", FieldValue::One(Value::Float("12.5".to_string()))),
    ]);
    assert_eq!(Record::from_element(&plan, "Tree", &root(r.to_elements())), Ok(r));
}

#[test]
fn cyclic_types_are_read_by_the_tree() {
    let plan = bindings(vec![(
        "Node",
        complex(vec![
            ("label", attribute(false, false), SimpleType::String),
            ("next", attribute(true, false), SimpleType::Complex("Node".to_string())),
        ]),
    )]);
    let element = root(vec![
        Element::node("label").with_text("a"),
        Element::node("next").with_children(vec![
            Element::node("label").with_text("b"),
            Element::node("next").with_children(vec![Element::node("label").with_text("c")]),
        ]),
    ]);
    let node = |label: &str, next: FieldValue| record(vec![("label", FieldValue::One(text(label))), ("next", next)]);
    assert_eq!(
        Record::from_element(&plan, "Node", &element),
        Ok(node(
            "a",
            FieldValue::One(Value::Record(node(
                "b",
                FieldValue::One(Value::Record(node("c", FieldValue::Absent)))
            )))
        ))
    );
}

#[test]
fn unknown_record_is_an_error() {
    let plan = primitives();
    assert_eq!(
        Record::from_element(&plan, "Nothing", &Element::node("root")),
        Err(Error::ExpectedElementWithType {
            name: "root".to_string(),
            expected_type: "Nothing".to_string(),
            given: None,
        })
    );
}

#[test]
fn scalar_reads_first_element_of_its_name() {
    let mut element = Element::node("root");
    element.children.push(Node::Text("noise".to_string()));
    element.children.push(Node::Element(Element::node("f").with_text("1")));
    element.children.push(Node::Element(Element::node("f").with_text("2")));
    assert_eq!(
        Record::from_element(&one_field(SimpleType::Int, false), "T", &element),
        Ok(record(vec![("f", FieldValue::One(Value::Integer(1)))]))
    );
}
