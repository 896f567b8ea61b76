use savon::rpser::document::parse_document;
use savon::rpser::xml::{Element, Error, Instant, Node};

fn names(path: &[&str]) -> Vec<String> {
    path.iter().map(|s| s.to_string()).collect()
}

fn typed(name: &str, xsd: &str, text: &str) -> Element {
    Element::node(name).with_attr("type", xsd).with_text(text)
}

#[test]
fn node_has_name_only() {
    let e = Element::node("tag");
    assert_eq!(e.name, "tag");
    assert_eq!(e.prefix, None);
    assert_eq!(e.namespace, None);
    assert!(e.children.is_empty());
    assert!(e.attributes.is_empty());
    assert_eq!(e.get_text(), None);
}

#[test]
fn document_of_nested_elements() {
    assert_eq!(
        Element::node("tag").with_child(Element::node("hello").with_text("world")).to_string(),
        "<?xml version=\"1.0\" encoding=\"UTF-8\"?><tag><hello>world</hello></tag>"
    );
}

#[test]
fn document_closes_empty_elements_without_space() {
    assert_eq!(
        Element::node("a").with_child(Element::node("b")).to_string(),
        "<?xml version=\"1.0\" encoding=\"UTF-8\"?><a><b/></a>"
    );
}

#[test]
fn document_keeps_attribute_order() {
    let e = Element::node("a")
        .with_attr("z", "1")
        .with_attr("y", "2")
        .with_attr("x", "3")
        .with_attr("m", "4");
    assert_eq!(
        e.to_string(),
        "<?xml version=\"1.0\" encoding=\"UTF-8\"?><a z=\"1\" y=\"2\" x=\"3\" m=\"4\"/>"
    );
}

#[test]
fn document_escapes_text() {
    let e = Element::node("a").with_text("1 < 2 & 3");
    assert_eq!(
        e.to_string(),
        "<?xml version=\"1.0\" encoding=\"UTF-8\"?><a>1 &lt; 2 &amp; 3</a>"
    );
}

#[test]
fn with_name_renames() {
    let e = Element::node("a").with_attr("k", "v").with_child(Element::node("c")).with_name("b");
    assert_eq!(e.name, "b");
    assert_eq!(e.attributes, vec![("k".to_string(), "v".to_string())]);
    assert_eq!(e.children.len(), 1);
}

#[test]
fn with_attr_appends_and_overrides_in_place() {
    let e = Element::node("a").with_attr("k", "1").with_attr("l", "2").with_attr("k", "3");
    assert_eq!(
        e.attributes,
        vec![("k".to_string(), "3".to_string()), ("l".to_string(), "2".to_string())]
    );
    assert_eq!(e.attribute("k"), Some(&"3".to_string()));
    assert_eq!(e.attribute("l"), Some(&"2".to_string()));
    assert_eq!(e.attribute("m"), None);
}

#[test]
fn with_text_sets_and_overrides() {
    let e = Element::node("a").with_text("one");
    assert_eq!(e.get_text(), Some("one".to_string()));
    let e = e.with_child(Element::node("c")).with_text("two");
    assert_eq!(e.get_text(), Some("two".to_string()));
    assert_eq!(
        e.children,
        vec![Node::Text("two".to_string()), Node::Element(Element::node("c"))]
    );
}

#[test]
fn get_text_joins_text_and_cdata() {
    let mut e = Element::node("a");
    e.children.push(Node::Text("ab".to_string()));
    e.children.push(Node::Comment("no".to_string()));
    e.children.push(Node::CData("cd".to_string()));
    e.children.push(Node::Element(Element::node("x").with_text("inner")));
    e.children.push(Node::Text("ef".to_string()));
    assert_eq!(e.get_text(), Some("abcdef".to_string()));
}

#[test]
fn get_text_of_empty_text_is_present() {
    assert_eq!(Element::node("a").with_text("").get_text(), Some(String::new()));
}

#[test]
fn with_children_appends_in_order() {
    let e = Element::node("a")
        .with_child(Element::node("first"))
        .with_children(vec![Element::node("second"), Element::node("third")]);
    let found: Vec<&str> = e
        .children
        .iter()
        .map(|n| match n {
            Node::Element(e) => e.name.as_str(),
            _ => "",
        })
        .collect();
    assert_eq!(found, vec!["first", "second", "third"]);
}

#[test]
fn with_children_from_iter_copies() {
    let items = vec![Element::node("x").with_text("1"), Element::node("y")];
    let e = Element::node("a").with_children_from_iter(&items);
    assert_eq!(e.children.len(), 2);
    assert_eq!(e.children[0], Node::Element(Element::node("x").with_text("1")));
    assert_eq!(e.children[1], Node::Element(Element::node("y")));
    assert_eq!(items.len(), 2);
}

#[test]
fn cloned_is_equal_and_deep() {
    let e = Element::node("a")
        .with_attr("k", "v")
        .with_child(Element::node("b").with_child(Element::node("c").with_text("t")));
    let copy = e.cloned();
    assert_eq!(copy, e);
    let changed = copy.with_name("z");
    assert_eq!(e.name, "a");
    assert_eq!(changed.name, "z");
}

#[test]
fn descend_empty_path_is_identity() {
    let e = Element::node("a").with_child(Element::node("b"));
    assert_eq!(e.cloned().descend(&[]), Ok(e));
}

#[test]
fn descend_picks_first_of_each_name() {
    let e = Element::node("a")
        .with_child(Element::node("b").with_child(Element::node("c").with_text("first")))
        .with_child(Element::node("b").with_child(Element::node("c").with_text("second")));
    let found = e.descend(&["b", "c"]).unwrap();
    assert_eq!(found.get_text(), Some("first".to_string()));
}

#[test]
fn descend_does_not_look_behind_the_first_match() {
    let e = Element::node("a")
        .with_child(Element::node("b"))
        .with_child(Element::node("b").with_child(Element::node("c")));
    assert_eq!(e.descend(&["b", "c"]), Err(Error::NotFoundAtPath { path: names(&["b", "c"]) }));
}

#[test]
fn descend_reports_trace_up_to_missing_name() {
    let e = Element::node("a").with_child(Element::node("b").with_child(Element::node("c")));
    assert_eq!(
        e.cloned().descend(&["b", "x", "y"]),
        Err(Error::NotFoundAtPath { path: names(&["b", "x"]) })
    );
    assert_eq!(e.descend(&["q", "c"]), Err(Error::NotFoundAtPath { path: names(&["q"]) }));
}

#[test]
fn descend_skips_nodes_that_are_no_elements() {
    let mut e = Element::node("a");
    e.children.push(Node::Text("b".to_string()));
    e.children.push(Node::Comment("b".to_string()));
    e.children.push(Node::Element(Element::node("b").with_attr("found", "yes")));
    let found = e.descend(&["b"]).unwrap();
    assert_eq!(found.attribute("found"), Some(&"yes".to_string()));
}

#[test]
fn get_at_path_copies_and_leaves_source() {
    let e = Element::node("a").with_child(Element::node("b").with_child(Element::node("c")));
    let before = e.cloned();
    assert_eq!(e.get_at_path(&["b", "c"]), Ok(Element::node("c")));
    assert_eq!(e.get_at_path(&[]), Ok(before.cloned()));
    assert_eq!(
        e.get_at_path(&["b", "d"]),
        Err(Error::NotFoundAtPath { path: names(&["b", "d"]) })
    );
    assert_eq!(e, before);
}

#[test]
fn descend_first_gives_first_child_element() {
    let mut e = Element::node("a");
    e.children.push(Node::Text("text".to_string()));
    e.children.push(Node::Element(Element::node("one")));
    e.children.push(Node::Element(Element::node("two")));
    assert_eq!(e.descend_first(), Ok(Element::node("one")));
}

#[test]
fn descend_first_of_empty_element_fails() {
    assert_eq!(
        Element::node("lonely").descend_first(),
        Err(Error::ExpectedNotEmpty { parent: "lonely".to_string() })
    );
    assert_eq!(
        Element::node("texty").with_text("only text").descend_first(),
        Err(Error::ExpectedNotEmpty { parent: "texty".to_string() })
    );
}

#[test]
fn as_long_reads_signed_64_bit() {
    assert_eq!(typed("n", "xsd:long", "42").as_long(), Ok(42));
    assert_eq!(typed("n", "xsd:long", "-9223372036854775808").as_long(), Ok(i64::MIN));
    assert_eq!(typed("n", "xsd:long", "9223372036854775807").as_long(), Ok(i64::MAX));
    assert_eq!(typed("n", "xsd:long", "+7").as_long(), Ok(7));
    assert_eq!(typed("n", "xsd:long", "007").as_long(), Ok(7));
    assert_eq!(typed("n", "xsd:long", "-0").as_long(), Ok(0));
}

#[test]
fn as_long_rejects_what_is_no_number() {
    for text in ["", "9223372036854775808", "-9223372036854775809", "4 2", " 42", "42 ", "4x", "-", "+", "--1", "1.0", "٣"] {
        assert_eq!(
            typed("n", "xsd:long", text).as_long(),
            Err(Error::ParseIntError { name: "n".to_string() }),
            "{:?}",
            text
        );
    }
}

#[test]
fn as_int_reads_signed_32_bit() {
    assert_eq!(typed("n", "xsd:int", "42").as_int(), Ok(42));
    assert_eq!(typed("n", "xsd:int", "-2147483648").as_int(), Ok(i32::MIN));
    assert_eq!(typed("n", "xsd:int", "2147483647").as_int(), Ok(i32::MAX));
    assert_eq!(
        typed("n", "xsd:int", "2147483648").as_int(),
        Err(Error::ParseIntError { name: "n".to_string() })
    );
    assert_eq!(
        typed("n", "xsd:int", "-2147483649").as_int(),
        Err(Error::ParseIntError { name: "n".to_string() })
    );
}

#[test]
fn as_boolean_matches_true_literally() {
    assert_eq!(typed("b", "xsd:boolean", "true").as_boolean(), Ok(true));
    assert_eq!(typed("b", "xsd:boolean", "false").as_boolean(), Ok(false));
    assert_eq!(typed("b", "xsd:boolean", "True").as_boolean(), Ok(false));
    assert_eq!(typed("b", "xsd:boolean", "1").as_boolean(), Ok(false));
}

#[test]
fn as_string_gives_text() {
    assert_eq!(typed("s", "xsd:string", "a3a8ecc6d5").as_string(), Ok("a3a8ecc6d5".to_string()));
}

#[test]
fn as_datetime_reads_instant() {
    assert_eq!(
        typed("t", "xsd:dateTime", "2015-05-15T00:00:00Z").as_datetime(),
        Ok(Instant { seconds: 1431648000, nanos: 0 })
    );
    assert_eq!(
        typed("t", "xsd:dateTime", "2015-05-15 02:00:00.5+02:00").as_datetime(),
        Ok(Instant { seconds: 1431648000, nanos: 500_000_000 })
    );
    assert_eq!(
        typed("t", "xsd:dateTime", "1969-12-31T23:59:59Z").as_datetime(),
        Ok(Instant { seconds: -1, nanos: 0 })
    );
}

#[test]
fn as_datetime_rejects_what_is_no_date() {
    match typed("t", "xsd:dateTime", "yesterday").as_datetime() {
        Err(Error::ParseDateTimeError { name, .. }) => assert_eq!(name, "t"),
        other => panic!("{:?}", other),
    }
}

#[test]
fn typed_accessor_checks_type_attribute() {
    let wrong = Element::node("n").with_attr("type", "xsd:string").with_text("42");
    assert_eq!(
        wrong.as_long(),
        Err(Error::ExpectedElementWithType {
            name: "n".to_string(),
            expected_type: "*:long".to_string(),
            given: Some("xsd:string".to_string()),
        })
    );
    let untyped = Element::node("n").with_text("42");
    assert_eq!(
        untyped.as_int(),
        Err(Error::ExpectedElementWithType {
            name: "n".to_string(),
            expected_type: "*:int".to_string(),
            given: None,
        })
    );
    let no_text = Element::node("n").with_attr("type", "xsd:boolean");
    assert_eq!(
        no_text.as_boolean(),
        Err(Error::ExpectedElementWithType {
            name: "n".to_string(),
            expected_type: "*:boolean".to_string(),
            given: Some("xsd:boolean".to_string()),
        })
    );
    assert_eq!(
        Element::node("n").with_attr("type", "xsd:string").with_text("x").as_datetime().is_err(),
        true
    );
    assert_eq!(
        Element::node("n").as_string(),
        Err(Error::ExpectedElementWithType {
            name: "n".to_string(),
            expected_type: "*:string".to_string(),
            given: None,
        })
    );
}

#[test]
fn typed_accessor_accepts_any_prefix_and_bare_name() {
    assert_eq!(typed("n", "long", "1").as_long(), Ok(1));
    assert_eq!(typed("n", "anything:long", "1").as_long(), Ok(1));
    assert_eq!(typed("n", "verylong", "1").as_long(), Ok(1));
}

#[test]
fn parse_document_reads_tree() {
    let root = parse_document(
        b"<a k=\"v\" l=\"w\"><!-- c --><b>text</b><n:c xmlns:n=\"urn:n\" n:p=\"q\"/>tail</a>",
    )
    .unwrap();
    assert_eq!(root.name, "a");
    assert_eq!(
        root.attributes,
        vec![("k".to_string(), "v".to_string()), ("l".to_string(), "w".to_string())]
    );
    assert_eq!(root.children.len(), 4);
    assert_eq!(root.children[0], Node::Comment(" c ".to_string()));
    assert_eq!(root.children[1], Node::Element(Element::node("b").with_text("text")));
    match &root.children[2] {
        Node::Element(c) => {
            assert_eq!(c.name, "c");
            assert_eq!(c.prefix, Some("n".to_string()));
            assert_eq!(c.namespace, Some("urn:n".to_string()));
            assert_eq!(c.attributes, vec![("p".to_string(), "q".to_string())]);
        }
        other => panic!("{:?}", other),
    }
    assert_eq!(root.children[3], Node::Text("tail".to_string()));
}

#[test]
fn parse_document_rejects_malformed() {
    assert!(parse_document(b"<a><b></a>").is_err());
    assert!(parse_document(b"").is_err());
    assert!(parse_document(b"no xml").is_err());
}

#[test]
fn parse_document_is_repeatable() {
    let text = b"<a z=\"1\" y=\"2\" x=\"3\" w=\"4\" v=\"5\"><b/><c/></a>";
    let first = parse_document(text).unwrap();
    for _ in 0..20 {
        assert_eq!(parse_document(text).unwrap(), first);
    }
}

#[test]
fn written_document_reads_back() {
    let e = Element::node("a")
        .with_attr("k", "v")
        .with_child(Element::node("b").with_text("1 < 2"))
        .with_child(Element::node("c"));
    assert_eq!(parse_document(e.to_string().as_bytes()).unwrap(), e);
}

#[test]
fn parse_document_without_root_fails() {
    for text in [
        "<?xml version=\"1.0\"?>",
        "<!-- only a comment -->",
        "   ",
        "<?pi x?>",
        "<?xml version=\"1.0\"?><!-- c --><?pi x?>",
        "</a>",
        "<a/><b/>",
        "<a/>trailing",
        "<!DOCTYPE a>",
        "\u{feff}",
    ] {
        let _ = parse_document(text.as_bytes()).map(|e| e.name);
    }
    assert!(parse_document(b"<!-- only a comment -->").is_err());
    assert!(parse_document(b"<?xml version=\"1.0\"?>").is_err());
    assert!(parse_document(&[0xff, 0xfe, 0x00]).is_err());
}

#[test]
fn to_string_takes_any_tree() {
    let mut odd = Element::node("");
    odd.prefix = Some("p q".to_string());
    odd.namespace = Some("".to_string());
    odd.attributes.push(("".to_string(), "\"'<>&".to_string()));
    odd.attributes.push(("k".to_string(), "1".to_string()));
    odd.attributes.push(("k".to_string(), "2".to_string()));
    odd.children.push(Node::Comment("a -- b -->".to_string()));
    odd.children.push(Node::CData("x ]]> y".to_string()));
    odd.children.push(Node::ProcessingInstruction("".to_string(), None));
    odd.children.push(Node::ProcessingInstruction("pi".to_string(), Some("?> data".to_string())));
    odd.children.push(Node::Text("\u{0}\u{1}\r\n".to_string()));
    odd.children.push(Node::Element(Element::node("a b").with_attr("x y", "z")));
    let first = odd.to_string();
    assert!(first.starts_with("<?xml version=\"1.0\" encoding=\"UTF-8\"?>"));
    assert_eq!(odd.to_string(), first);
}

#[test]
fn to_string_writes_prefix_and_namespace() {
    let mut e = Element::node("a");
    e.prefix = Some("p".to_string());
    e.namespace = Some("urn:p".to_string());
    let text = e.to_string();
    assert!(text.contains("<p:a"), "{}", text);
}
