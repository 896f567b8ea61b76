use savon::gen::{FromElement, ToElements};
use savon::http::{call, headers, output, output_or_fault, request, request_of, response_body, settle};
use savon::rpser::xml::Element;
use savon::rpser::RpcError;
use savon::Error;

#[derive(Debug, PartialEq)]
struct Login {
    user: String,
}

impl ToElements for Login {
    fn to_elements(&self) -> Vec<Element> {
        vec![Element::node("user").with_text(&self.user)]
    }
}

#[derive(Debug, PartialEq)]
struct Token(String);

impl FromElement for Token {
    fn from_element(element: &Element) -> Result<Self, Error> {
        let found = element.get_at_path(&["loginReturn"])?;
        Ok(Token(found.as_string()?))
    }
}

#[derive(Debug, PartialEq)]
struct Denied(String);

impl FromElement for Denied {
    fn from_element(element: &Element) -> Result<Self, Error> {
        let found = element.get_at_path(&["reason"])?;
        found.get_text().map(Denied).ok_or(Error::Rpser(savon::rpser::xml::Error::Empty))
    }
}

const GRANTED: &str = "<Envelope><Body><loginResponse><loginReturn type=\"xsd:string\">a3a8ecc6d5</loginReturn></loginResponse></Body></Envelope>";
const DENIED: &str = "<Envelope><Body><loginDenied><reason>locked</reason></loginDenied></Body></Envelope>";
const OTHER: &str = "<Envelope><Body><surprise/></Body></Envelope>";
const FAULT: &str = "<Envelope><Body><Fault><faultcode>c</faultcode><faultstring>s</faultstring><detail/></Fault></Body></Envelope>";

#[test]
fn headers_of_a_call() {
    assert_eq!(headers(), vec![("Content-Type", "text/xml"), ("MessageType", "Call")]);
}

#[test]
fn call_takes_arguments_in_order() {
    let m = call("op", vec![Element::node("a"), Element::node("b")]);
    assert_eq!(m.name, "op");
    assert_eq!(m.args, vec![Element::node("a"), Element::node("b")]);
}

#[test]
fn request_wraps_input_elements() {
    let expected = "<?xml version=\"1.0\" encoding=\"UTF-8\"?><soap:Envelope xmlns:soap=\"http://schemas.xmlsoap.org/soap/envelope/\" xmlns:api=\"urn:api\"><soap:Header/><soap:Body><api:login><user>me</user></api:login></soap:Body></soap:Envelope>";
    assert_eq!(request("urn:api", "login", &Login { user: "me".to_string() }), expected);
    assert_eq!(
        request_of("urn:api", "login", vec![Element::node("user").with_text("me")]),
        expected
    );
}

#[test]
fn response_body_is_first_child_of_body() {
    let body = response_body(GRANTED).unwrap();
    assert_eq!(body.name, "loginResponse");
    match response_body(FAULT) {
        Err(Error::Rpc(RpcError::Fault { fault_code, fault_string, .. })) => {
            assert_eq!(fault_code, "c");
            assert_eq!(fault_string, "s");
        }
        other => panic!("{:?}", other),
    }
}

#[test]
fn output_reads_body() {
    assert_eq!(output::<Token>(GRANTED).unwrap(), Token("a3a8ecc6d5".to_string()));
}

#[test]
fn output_propagates_failures() {
    match output::<Token>(OTHER) {
        Err(Error::Rpser(savon::rpser::xml::Error::NotFoundAtPath { path })) => {
            assert_eq!(path, vec!["loginReturn".to_string()])
        }
        other => panic!("{:?}", other),
    }
    match output::<Token>(FAULT) {
        Err(Error::Rpc(RpcError::Fault { .. })) => {}
        other => panic!("{:?}", other),
    }
    match output::<Token>("no xml") {
        Err(Error::Rpc(RpcError::XmlParse { .. })) => {}
        other => panic!("{:?}", other),
    }
}

#[test]
fn output_or_fault_gives_declared_fault() {
    assert_eq!(
        output_or_fault::<Token, Denied>(GRANTED).unwrap(),
        Ok(Token("a3a8ecc6d5".to_string()))
    );
    assert_eq!(
        output_or_fault::<Token, Denied>(DENIED).unwrap(),
        Err(Denied("locked".to_string()))
    );
    match output_or_fault::<Token, Denied>(OTHER) {
        Err(Error::Rpser(savon::rpser::xml::Error::NotFoundAtPath { path })) => {
            assert_eq!(path, vec!["loginReturn".to_string()])
        }
        other => panic!("{:?}", other),
    }
    match output_or_fault::<Token, Denied>(FAULT) {
        Err(Error::Rpc(RpcError::Fault { .. })) => {}
        other => panic!("{:?}", other),
    }
}

#[test]
fn settle_prefers_output_then_fault_then_output_error() {
    let fine: Result<Result<u8, u16>, Error> = settle(Ok(1), Ok(2));
    assert!(matches!(fine, Ok(Ok(1))));
    let fine: Result<Result<u8, u16>, Error> = settle(Ok(1), Err(Error::Unimplemented));
    assert!(matches!(fine, Ok(Ok(1))));
    let declared: Result<Result<u8, u16>, Error> =
        settle(Err(Error::Rpser(savon::rpser::xml::Error::Empty)), Ok(2));
    assert!(matches!(declared, Ok(Err(2))));
    let failed: Result<Result<u8, u16>, Error> =
        settle(Err(Error::Rpser(savon::rpser::xml::Error::Empty)), Err(Error::Unimplemented));
    assert!(matches!(failed, Err(Error::Rpser(savon::rpser::xml::Error::Empty))));
}

#[test]
fn errors_convert_into_the_common_error() {
    let e: Error = savon::rpser::xml::Error::Empty.into();
    assert!(matches!(e, Error::Rpser(savon::rpser::xml::Error::Empty)));
    let e: Error = savon::wsdl::WsdlError::NotAnElement.into();
    assert!(matches!(e, Error::Wsdl(savon::wsdl::WsdlError::NotAnElement)));
    let e: Error = RpcError::UnexpectedElement { tag: "x".to_string() }.into();
    assert!(matches!(e, Error::Rpc(RpcError::UnexpectedElement { .. })));
}
