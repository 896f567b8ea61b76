use savon::rpser::xml::{Element, Error, Node};
use savon::rpser::{Method, Response, RpcError};

#[test]
fn can_deal_with_fault() {
    let faulty_response = r#"<?xml version="1.0" encoding="utf-8"?>
            <soapenv:Envelope xmlns:soapenv="http://schemas.xmlsoap.org/soap/envelope/" xmlns:xsd="http://www.w3.org/2001/XMLSchema" xmlns:xsi="http://www.w3.org/2001/XMLSchema-instance">
                <soapenv:Body>
                    <soapenv:Fault>
                        <faultcode>soapenv:Server.userException</faultcode>
                        <faultstring>com.atlassian.confluence.rpc.AuthenticationFailedException: Attempt to log in user 'ADUser' failed - incorrect username/password combination.</faultstring>
                        <detail>
                            <com.atlassian.confluence.rpc.AuthenticationFailedException xsi:type="ns1:AuthenticationFailedException" xmlns:ns1="http://rpc.confluence.atlassian.com"/>
                            <ns2:hostname xmlns:ns2="http://xml.apache.org/axis/">jira</ns2:hostname>
                        </detail>
                    </soapenv:Fault>
                </soapenv:Body>
            </soapenv:Envelope>
        "#;

    match Response::from_xml(faulty_response) {
        Err(RpcError::Fault { fault_code, fault_string, .. }) => {
            assert_eq!(fault_code, "soapenv:Server.userException");
            assert_eq!(fault_string, "com.atlassian.confluence.rpc.AuthenticationFailedException: Attempt to log in user 'ADUser' failed - incorrect username/password combination.");
        }
        other => panic!("expected to receive fault in this test, received {:?}", other),
    };
}

#[test]
fn returns_result_element() {
    let ok_response = r#"<?xml version="1.0" encoding="utf-8"?>
            <soapenv:Envelope xmlns:soapenv="http://schemas.xmlsoap.org/soap/envelope/" xmlns:xsd="http://www.w3.org/2001/XMLSchema" xmlns:xsi="http://www.w3.org/2001/XMLSchema-instance">
                <soapenv:Body>
                    <ns1:loginResponse soapenv:encodingStyle="http://schemas.xmlsoap.org/soap/encoding/" xmlns:ns1="https://confluence/plugins/servlet/soap-axis1/confluenceservice-v2">
                        <loginReturn xsi:type="xsd:string">a3a8ecc6d5</loginReturn>
                    </ns1:loginResponse>
                </soapenv:Body>
            </soapenv:Envelope>
        "#;

    match Response::from_xml(ok_response) {
        Ok(response) => {
            assert_eq!(response.body.name, "loginResponse");
            let return_element = response.body.descend_first().unwrap();
            assert_eq!(return_element.name, "loginReturn");
            assert_eq!(return_element.get_text(), Some("a3a8ecc6d5".into()));
        }
        other => panic!("expected to receive fault in this test, received {:?}", other),
    };
}

#[test]
fn fault_is_extracted_with_detail() {
    let text = "<Envelope xmlns=\"http://schemas.xmlsoap.org/soap/envelope/\"><Body><Fault><faultcode>soapenv:Server.userException</faultcode><faultstring>login failed</faultstring><detail/></Fault></Body></Envelope>";
    match Response::from_xml(text) {
        Err(RpcError::Fault { fault_code, fault_string, fault_detail }) => {
            assert_eq!(fault_code, "soapenv:Server.userException");
            assert_eq!(fault_string, "login failed");
            assert_eq!(fault_detail.name, "detail");
            assert!(fault_detail.children.is_empty());
            assert!(fault_detail.attributes.is_empty());
        }
        other => panic!("{:?}", other),
    }
}

#[test]
fn fault_texts_default_to_empty() {
    let text = "<Envelope><Body><Fault><faultcode/><faultstring></faultstring><detail><why>so</why></detail></Fault></Body></Envelope>";
    match Response::from_xml(text) {
        Err(RpcError::Fault { fault_code, fault_string, fault_detail }) => {
            assert_eq!(fault_code, "");
            assert_eq!(fault_string, "");
            assert_eq!(
                *fault_detail,
                Element::node("detail").with_child(Element::node("why").with_text("so"))
            );
        }
        other => panic!("{:?}", other),
    }
}

#[test]
fn fault_without_its_parts_names_the_missing_part() {
    let missing = |text: &str, part: &str| match Response::from_xml(text) {
        Err(RpcError::XmlError { error }) => {
            assert_eq!(error, Error::NotFoundAtPath { path: vec![part.to_string()] })
        }
        other => panic!("{:?}", other),
    };
    missing("<Envelope><Body><Fault/></Body></Envelope>", "faultcode");
    missing("<Envelope><Body><Fault><faultcode>c</faultcode></Fault></Body></Envelope>", "faultstring");
    missing(
        "<Envelope><Body><Fault><faultcode>c</faultcode><faultstring>s</faultstring></Fault></Body></Envelope>",
        "detail",
    );
}

#[test]
fn scalar_response_is_first_body_child() {
    let text = "<Envelope xmlns:xsi=\"http://www.w3.org/2001/XMLSchema-instance\" xmlns:ns1=\"urn:x\"><Body><ns1:loginResponse><loginReturn xsi:type=\"xsd:string\">a3a8ecc6d5</loginReturn></ns1:loginResponse></Body></Envelope>";
    let response = Response::from_xml(text).unwrap();
    assert_eq!(response.body.name, "loginResponse");
    let first = response.body.descend_first().unwrap();
    assert_eq!(first.name, "loginReturn");
    assert_eq!(first.as_string(), Ok("a3a8ecc6d5".to_string()));
}

#[test]
fn root_must_be_envelope() {
    match Response::from_xml("<Other><Body><x/></Body></Other>") {
        Err(RpcError::UnexpectedElement { tag }) => assert_eq!(tag, "Other"),
        other => panic!("{:?}", other),
    }
}

#[test]
fn envelope_prefix_is_ignored() {
    assert!(Response::from_xml("<s:Envelope xmlns:s=\"urn:s\"><s:Body><x/></s:Body></s:Envelope>").is_ok());
}

#[test]
fn envelope_without_body_fails() {
    match Response::from_xml("<Envelope><Header/></Envelope>") {
        Err(RpcError::XmlError { error }) => {
            assert_eq!(error, Error::NotFoundAtPath { path: vec!["Body".to_string()] })
        }
        other => panic!("{:?}", other),
    }
}

#[test]
fn envelope_with_empty_body_fails() {
    match Response::from_xml("<Envelope><Body/></Envelope>") {
        Err(RpcError::XmlError { error }) => {
            assert_eq!(error, Error::ExpectedNotEmpty { parent: "Body".to_string() })
        }
        other => panic!("{:?}", other),
    }
}

#[test]
fn response_that_is_no_xml_fails() {
    match Response::from_xml("this is no xml") {
        Err(RpcError::XmlParse { .. }) => {}
        other => panic!("{:?}", other),
    }
    match Response::from_xml("<Envelope><Body></Envelope>") {
        Err(RpcError::XmlParse { .. }) => {}
        other => panic!("{:?}", other),
    }
}

#[test]
fn from_element_reads_envelope() {
    let root = Element::node("Envelope")
        .with_child(Element::node("Header"))
        .with_child(Element::node("Body").with_child(Element::node("answer").with_text("42")));
    let response = Response::from_element(root).unwrap();
    assert_eq!(response.body, Element::node("answer").with_text("42"));
}

#[test]
fn method_collects_arguments() {
    let m = Method::new("login").with(Element::node("user")).with(Element::node("password"));
    assert_eq!(m.name, "login");
    assert_eq!(m.args, vec![Element::node("user"), Element::node("password")]);
    assert!(Method::new("x").args.is_empty());
}

#[test]
fn envelope_without_arguments() {
    assert_eq!(
        Method::new("listContinents").as_xml("http://example/api"),
        "<?xml version=\"1.0\" encoding=\"UTF-8\"?><soap:Envelope xmlns:soap=\"http://schemas.xmlsoap.org/soap/envelope/\" xmlns:api=\"http://example/api\"><soap:Header/><soap:Body><api:listContinents/></soap:Body></soap:Envelope>"
    );
}

#[test]
fn envelope_holds_arguments_in_order() {
    let m = Method::new("login")
        .with(Element::node("user").with_text("me"))
        .with(Element::node("password").with_text("secret"));
    assert_eq!(
        m.as_xml("urn:api"),
        "<?xml version=\"1.0\" encoding=\"UTF-8\"?><soap:Envelope xmlns:soap=\"http://schemas.xmlsoap.org/soap/envelope/\" xmlns:api=\"urn:api\"><soap:Header/><soap:Body><api:login><user>me</user><password>secret</password></api:login></soap:Body></soap:Envelope>"
    );
}

#[test]
fn request_tree_of_method() {
    let e = Method::new("op").with(Element::node("arg")).request("urn:ns");
    assert_eq!(e.name, "soap:Envelope");
    assert_eq!(
        e.attributes,
        vec![
            ("xmlns:soap".to_string(), "http://schemas.xmlsoap.org/soap/envelope/".to_string()),
            ("xmlns:api".to_string(), "urn:ns".to_string()),
        ]
    );
    assert_eq!(
        e.children,
        vec![
            Node::Element(Element::node("soap:Header")),
            Node::Element(
                Element::node("soap:Body")
                    .with_child(Element::node("api:op").with_child(Element::node("arg")))
            ),
        ]
    );
}

#[test]
fn envelope_is_the_same_each_time() {
    let m = Method::new("op").with(Element::node("a").with_attr("x", "1").with_attr("y", "2"));
    let first = m.as_xml("urn:ns");
    for _ in 0..20 {
        assert_eq!(m.as_xml("urn:ns"), first);
    }
}
