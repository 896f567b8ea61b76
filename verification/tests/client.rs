use savon::client::{answer, answer_of, call, Answer};
use savon::gen::{plan, BindingPlan};
use savon::record::{FieldValue, Record, Value};
use savon::rpser::xml::Element;
use savon::rpser::RpcError;
use savon::wsdl::parse;
use savon::Error;

const SERVICE: &str = r#"<definitions targetNamespace="urn:shop">
  <types>
    <schema>
      <complexType name="order"><sequence>
        <element name="article" type="string"/>
        <element name="count" type="int"/>
      </sequence></complexType>
      <complexType name="receipt"><sequence>
        <element name="number" type="int"/>
      </sequence></complexType>
      <complexType name="sold_out"><sequence>
        <element name="article" type="string"/>
      </sequence></complexType>
      <complexType name="closed"><sequence>
        <element name="until" type="dateTime"/>
      </sequence></complexType>
    </schema>
  </types>
  <message name="OrderIn"><part name="p" element="order"/></message>
  <message name="OrderOut"><part name="p" element="receipt"/></message>
  <message name="SoldOut"><part name="p" element="sold_out"/></message>
  <message name="Closed"><part name="p" element="closed"/></message>
  <portType>
    <operation name="notify"><input message="OrderIn"/></operation>
    <operation name="place"><input message="OrderIn"/><output message="OrderOut"/></operation>
    <operation name="placeOrFail"><input message="OrderIn"/><output message="OrderOut"/><fault message="Closed"/><fault message="SoldOut"/></operation>
    <operation name="stub"><input message="OrderIn"/><fault message="Closed"/></operation>
  </portType>
  <service name="Shop"/>
</definitions>"#;

fn bindings() -> BindingPlan {
    plan(&parse(SERVICE.as_bytes()).unwrap()).unwrap()
}

fn record(fields: Vec<(&str, Value)>) -> Record {
    Record {
        fields: fields.into_iter().map(|(n, v)| (n.to_string(), FieldValue::One(v))).collect(),
    }
}

fn envelope(body: &str) -> String {
    format!("<Envelope><Body>{}</Body></Envelope>", body)
}

#[test]
fn call_wraps_the_record_in_the_operation() {
    let plan = bindings();
    let order = record(vec![("article", Value::Text("tea".to_string())), ("count", Value::Integer(2))]);
    assert_eq!(
        call(&plan.operations[1], &order).unwrap(),
        "<?xml version=\"1.0\" encoding=\"UTF-8\"?><soap:Envelope xmlns:soap=\"http://schemas.xmlsoap.org/soap/envelope/\" xmlns:api=\"urn:shop\"><soap:Header/><soap:Body><api:place><article>tea</article><count>2</count></api:place></soap:Body></soap:Envelope>"
    );
    assert!(call(&plan.operations[2], &order).unwrap().contains("<api:placeOrFail>"));
    assert!(call(&plan.operations[0], &order).unwrap().contains("<api:notify>"));
    assert!(matches!(call(&plan.operations[3], &order), Err(Error::Unimplemented)));
}

#[test]
fn one_way_is_done_whatever_comes_back() {
    let plan = bindings();
    assert_eq!(answer(&plan, &plan.operations[0], "").unwrap(), Answer::Done);
    assert_eq!(answer(&plan, &plan.operations[0], "no xml at all").unwrap(), Answer::Done);
    assert_eq!(
        answer(&plan, &plan.operations[0], &envelope("<Fault/>")).unwrap(),
        Answer::Done
    );
}

#[test]
fn answer_reads_output() {
    let plan = bindings();
    let response = envelope("<placeResponse><number>17</number></placeResponse>");
    assert_eq!(
        answer(&plan, &plan.operations[1], &response).unwrap(),
        Answer::Output(record(vec![("number", Value::Integer(17))]))
    );
    assert_eq!(
        answer(&plan, &plan.operations[2], &response).unwrap(),
        Answer::Output(record(vec![("number", Value::Integer(17))]))
    );
}

#[test]
fn answer_without_faults_propagates_output_error() {
    let plan = bindings();
    let response = envelope("<soldOut><article>tea</article></soldOut>");
    match answer(&plan, &plan.operations[1], &response) {
        Err(Error::Rpser(savon::rpser::xml::Error::NotFoundAtPath { path })) => {
            assert_eq!(path, vec!["number".to_string()])
        }
        other => panic!("{:?}", other),
    }
}

#[test]
fn answer_gives_first_declared_fault_that_reads() {
    let plan = bindings();
    let sold_out = envelope("<x><article>tea</article></x>");
    assert_eq!(
        answer(&plan, &plan.operations[2], &sold_out).unwrap(),
        Answer::Fault {
            name: "SoldOut".to_string(),
            fault: record(vec![("article", Value::Text("tea".to_string()))]),
        }
    );
    let closed = envelope("<x><until>2030-01-01T00:00:00Z</until></x>");
    assert_eq!(
        answer(&plan, &plan.operations[2], &closed).unwrap(),
        Answer::Fault {
            name: "Closed".to_string(),
            fault: record(vec![("until", Value::Instant("2030-01-01T00:00:00Z".to_string()))]),
        }
    );
    let both = envelope("<x><article>tea</article><until>2030-01-01T00:00:00Z</until></x>");
    match answer(&plan, &plan.operations[2], &both).unwrap() {
        Answer::Fault { name, .. } => assert_eq!(name, "Closed"),
        other => panic!("{:?}", other),
    }
}

#[test]
fn answer_with_faults_falls_back_to_output_error() {
    let plan = bindings();
    match answer(&plan, &plan.operations[2], &envelope("<x><y/></x>")) {
        Err(Error::Rpser(savon::rpser::xml::Error::NotFoundAtPath { path })) => {
            assert_eq!(path, vec!["number".to_string()])
        }
        other => panic!("{:?}", other),
    }
}

#[test]
fn answer_surfaces_envelope_errors() {
    let plan = bindings();
    let fault = envelope("<Fault><faultcode>c</faultcode><faultstring>s</faultstring><detail/></Fault>");
    for operation in [&plan.operations[1], &plan.operations[2]] {
        match answer(&plan, operation, &fault) {
            Err(Error::Rpc(RpcError::Fault { fault_code, .. })) => assert_eq!(fault_code, "c"),
            other => panic!("{:?}", other),
        }
        match answer(&plan, operation, "no xml") {
            Err(Error::Rpc(RpcError::XmlParse { .. })) => {}
            other => panic!("{:?}", other),
        }
    }
}

#[test]
fn operation_with_faults_and_no_output_is_unimplemented() {
    let plan = bindings();
    match answer(&plan, &plan.operations[3], &envelope("<x/>")) {
        Err(Error::Unimplemented) => {}
        other => panic!("{:?}", other),
    }
}

#[test]
fn answer_of_takes_the_body() {
    let plan = bindings();
    let body = Element::node("any").with_child(Element::node("number").with_text("5"));
    assert_eq!(
        answer_of(&plan, &plan.operations[1], &body).unwrap(),
        Answer::Output(record(vec![("number", Value::Integer(5))]))
    );
}
