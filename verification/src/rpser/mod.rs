//! Remote procedure calls and their XML form: the request envelope of a method call, and
//! what a response envelope carries.

pub mod document;
pub mod xml;

use vstd::prelude::*;
use vstd::string::StringSliceAdditionalSpecFns;

use crate::entries::lemma_key_position_is;
use crate::rpser::document::{document_text, parse_document, parsed_tree};
use crate::rpser::xml::{as_nodes, elements_view, Element, ElementView, ErrorView, NodeView};
use crate::text::{same_text, slices};
use crate::views::view_result;

verus! {

/// A method call: the name of the operation and its argument elements.
#[derive(Debug)]
pub struct Method {
    pub name: String,
    pub args: Vec<Element>,
}

/// A method call as a mathematical value.
pub struct MethodView {
    pub name: Seq<char>,
    pub args: Seq<ElementView>,
}

impl View for Method {
    type V = MethodView;

    open spec fn view(&self) -> MethodView {
        MethodView { name: self.name@, args: elements_view(self.args@) }
    }
}

/// The request envelope of a call of `method` in the namespace `namespace`: a `soap:Header`
/// without content, and a `soap:Body` whose one child is called `api:` and the method's
/// name and holds the arguments in their order.
pub open spec fn envelope(method: Seq<char>, namespace: Seq<char>, args: Seq<ElementView>)
    -> ElementView {
    let call = ElementView { children: as_nodes(args), ..ElementView::leaf("api:"@ + method) };
    let body = ElementView {
        children: seq![NodeView::Element(call)],
        ..ElementView::leaf("soap:Body"@)
    };
    ElementView {
        attributes: seq![
            ("xmlns:soap"@, "http://schemas.xmlsoap.org/soap/envelope/"@),
            ("xmlns:api"@, namespace),
        ],
        children: seq![
            NodeView::Element(ElementView::leaf("soap:Header"@)),
            NodeView::Element(body),
        ],
        ..ElementView::leaf("soap:Envelope"@)
    }
}

impl Method {
    /// Creates a call of the method `name` without arguments.
    pub fn new(name: &str) -> (r: Method)
        ensures
            r@ == (MethodView { name: name@, args: Seq::empty() }),
    {
        let r = Method { name: name.to_owned(), args: Vec::new() };
        assert(r@.args =~= Seq::empty());
        r
    }

    /// Adds an argument behind the others.
    pub fn with(self, arg: Element) -> (r: Method)
        ensures
            r@ == (MethodView { name: self@.name, args: self@.args.push(arg@) }),
    {
        let Method { name, args } = self;
        let mut args = args;
        args.push(arg);
        let r = Method { name, args };
        assert(r@.args =~= self@.args.push(arg@));
        r
    }

    /// The request envelope of the call, for the service namespace `api_url`.
    pub fn request(&self, api_url: &str) -> (r: Element)
        ensures
            r@ == envelope(self.name@, api_url@, elements_view(self.args@)),
    {
        let call = Element::node(
            String::from_str("api:").concat(self.name.as_str()).as_str(),
        ).with_children_from_iter(self.args.as_slice());
        let body = Element::node("soap:Body").with_child(call);
        let mut parts: Vec<Element> = Vec::new();
        parts.push(Element::node("soap:Header"));
        parts.push(body);
        let bare = Element::node("soap:Envelope").with_attr(
            "xmlns:soap",
            "http://schemas.xmlsoap.org/soap/envelope/",
        );
        proof {
            reveal_strlit("xmlns:soap");
            reveal_strlit("xmlns:api");
            assert("xmlns:soap"@[6] != "xmlns:api"@[6]);
            lemma_key_position_is(bare@.attributes, "xmlns:api"@, 1);
        }
        let r = bare.with_attr("xmlns:api", api_url).with_children(parts);
        proof {
            let wanted = envelope(self.name@, api_url@, elements_view(self.args@));
            assert(call@.children =~= as_nodes(elements_view(self.args@)));
            assert(body@.children =~= seq![NodeView::Element(call@)]);
            assert(r@.attributes =~= wanted.attributes);
            assert(r@.children =~= wanted.children);
        }
        r
    }

    /// The request envelope of the call as the text of an XML document.
    pub fn as_xml(&self, api_url: &str) -> (r: String)
        ensures
            r@ == document_text(envelope(self.name@, api_url@, elements_view(self.args@))),
    {
        self.request(api_url).to_string()
    }
}

/// What a response envelope carries where the call succeeded.
#[derive(Debug)]
pub struct Response {
    pub body: Element,
}

/// A response as a mathematical value.
pub struct ResponseView {
    pub body: ElementView,
}

impl View for Response {
    type V = ResponseView;

    open spec fn view(&self) -> ResponseView {
        ResponseView { body: self.body@ }
    }
}

/// Why a response gives no result.
#[derive(Debug)]
#[allow(inconsistent_fields)]
pub enum RpcError {
    /// The service answered with a fault.
    Fault { fault_code: String, fault_string: String, fault_detail: Box<Element> },
    /// An element of the envelope is missing.
    XmlError { error: self::xml::Error },
    /// The response is no well-formed XML document.
    XmlParse { error: xmltree::ParseError },
    /// The root of the response is no envelope.
    UnexpectedElement { tag: String },
}

/// The reason why a response gives no result, as a mathematical value.
pub enum RpcErrorView {
    Fault { fault_code: Seq<char>, fault_string: Seq<char>, fault_detail: ElementView },
    XmlError { error: ErrorView },
    XmlParse,
    UnexpectedElement { tag: Seq<char> },
}

impl View for RpcError {
    type V = RpcErrorView;

    open spec fn view(&self) -> RpcErrorView {
        match self {
            RpcError::Fault { fault_code, fault_string, fault_detail } => RpcErrorView::Fault {
                fault_code: fault_code@,
                fault_string: fault_string@,
                fault_detail: (**fault_detail)@,
            },
            RpcError::XmlError { error } => RpcErrorView::XmlError { error: error@ },
            RpcError::XmlParse { error } => RpcErrorView::XmlParse,
            RpcError::UnexpectedElement { tag } => RpcErrorView::UnexpectedElement { tag: tag@ },
        }
    }
}

/// The text of an element, or the empty text where it holds none.
pub open spec fn text_or_empty(element: ElementView) -> Seq<char> {
    match element.text() {
        Some(text) => text,
        None => Seq::empty(),
    }
}

/// What a fault element reports: the texts of its `faultcode` and `faultstring` and the
/// whole of its `detail`. Where one of the three is missing, the error names it.
pub open spec fn read_fault(fault: ElementView) -> RpcErrorView {
    match fault.descend(seq!["faultcode"@]) {
        Err(error) => RpcErrorView::XmlError { error },
        Ok(code) => match fault.descend(seq!["faultstring"@]) {
            Err(error) => RpcErrorView::XmlError { error },
            Ok(string) => match fault.descend(seq!["detail"@]) {
                Err(error) => RpcErrorView::XmlError { error },
                Ok(detail) => RpcErrorView::Fault {
                    fault_code: text_or_empty(code),
                    fault_string: text_or_empty(string),
                    fault_detail: detail,
                },
            },
        },
    }
}

/// What the envelope with the root `root` carries: the first child element of its `Body`,
/// as the result where that is no `Fault`, and as the fault that it reports where it is.
pub open spec fn read_envelope(root: ElementView) -> Result<ResponseView, RpcErrorView> {
    if root.name != "Envelope"@ {
        Err(RpcErrorView::UnexpectedElement { tag: root.name })
    } else {
        match root.descend(seq!["Body"@]) {
            Err(error) => Err(RpcErrorView::XmlError { error }),
            Ok(body) => match body.descend_first() {
                Err(error) => Err(RpcErrorView::XmlError { error }),
                Ok(first) => if first.name == "Fault"@ {
                    Err(read_fault(first))
                } else {
                    Ok(ResponseView { body: first })
                },
            },
        }
    }
}

/// What a response document carries, given what the XML parser made of it.
pub open spec fn read_response(parsed: Option<ElementView>) -> Result<ResponseView, RpcErrorView> {
    match parsed {
        Some(root) => read_envelope(root),
        None => Err(RpcErrorView::XmlParse),
    }
}

/// A path of one name.
fn single(name: &str) -> (r: Vec<&str>)
    ensures
        slices(r@) == seq![name@],
{
    let mut path: Vec<&str> = Vec::new();
    path.push(name);
    assert(slices(path@) =~= seq![name@]);
    path
}

/// The text of an element, or the empty text where it holds none.
fn text_of_or_empty(element: &Element) -> (r: String)
    ensures
        r@ == text_or_empty(element@),
{
    match element.get_text() {
        Some(text) => text,
        None => String::new(),
    }
}

/// Reads what a fault element reports.
fn fault_of(fault: &Element) -> (r: RpcError)
    ensures
        r@ == read_fault(fault@),
{
    let code = match fault.get_at_path(single("faultcode").as_slice()) {
        Ok(code) => code,
        Err(error) => {
            return RpcError::XmlError { error };
        },
    };
    let string = match fault.get_at_path(single("faultstring").as_slice()) {
        Ok(string) => string,
        Err(error) => {
            return RpcError::XmlError { error };
        },
    };
    let detail = match fault.get_at_path(single("detail").as_slice()) {
        Ok(detail) => detail,
        Err(error) => {
            return RpcError::XmlError { error };
        },
    };
    RpcError::Fault {
        fault_code: text_of_or_empty(&code),
        fault_string: text_of_or_empty(&string),
        fault_detail: Box::new(detail),
    }
}

impl Response {
    /// Reads what the envelope with the root `root` carries.
    pub fn from_element(root: Element) -> (r: Result<Response, RpcError>)
        ensures
            view_result(r) == read_envelope(root@),
    {
        if !same_text(root.name.as_str(), "Envelope") {
            return Err(RpcError::UnexpectedElement { tag: root.name });
        }
        let body = match root.descend(single("Body").as_slice()) {
            Ok(body) => body,
            Err(error) => {
                return Err(RpcError::XmlError { error });
            },
        };
        let first = match body.descend_first() {
            Ok(first) => first,
            Err(error) => {
                return Err(RpcError::XmlError { error });
            },
        };
        if same_text(first.name.as_str(), "Fault") {
            Err(fault_of(&first))
        } else {
            Ok(Response { body: first })
        }
    }

    /// Reads what a response document carries.
    pub fn from_xml(xml: &str) -> (r: Result<Response, RpcError>)
        ensures
            view_result(r) == read_response(parsed_tree(xml.spec_bytes())),
    {
        match parse_document(xml.as_bytes()) {
            Ok(root) => Response::from_element(root),
            Err(error) => Err(RpcError::XmlParse { error }),
        }
    }
}

/// A response whose body begins with a fault is read as that fault, with the texts of its
/// `faultcode` and its `faultstring` as they stand: the root is called `Envelope`, the
/// first child element of its first `Body` is called `Fault`, and the fault holds the
/// three elements.
pub proof fn lemma_fault_is_recognised(
    root: ElementView,
    body: ElementView,
    fault: ElementView,
    code: ElementView,
    string: ElementView,
    detail: ElementView,
)
    requires
        root.name == "Envelope"@,
        root.descend(seq!["Body"@]) == Ok::<ElementView, ErrorView>(body),
        body.descend_first() == Ok::<ElementView, ErrorView>(fault),
        fault.name == "Fault"@,
        fault.descend(seq!["faultcode"@]) == Ok::<ElementView, ErrorView>(code),
        fault.descend(seq!["faultstring"@]) == Ok::<ElementView, ErrorView>(string),
        fault.descend(seq!["detail"@]) == Ok::<ElementView, ErrorView>(detail),
    ensures
        read_response(Some(root)) == Err::<ResponseView, RpcErrorView>(
            RpcErrorView::Fault {
                fault_code: text_or_empty(code),
                fault_string: text_or_empty(string),
                fault_detail: detail,
            },
        ),
        code.text() is Some ==> read_response(Some(root))->Err_0->fault_code == code.text()->0,
        string.text() is Some ==> read_response(Some(root))->Err_0->fault_string
            == string.text()->0,
{
}

/// A response whose body begins with anything but a fault is read as that element.
pub proof fn lemma_result_is_first_child(root: ElementView, body: ElementView, first: ElementView)
    requires
        root.name == "Envelope"@,
        root.descend(seq!["Body"@]) == Ok::<ElementView, ErrorView>(body),
        body.descend_first() == Ok::<ElementView, ErrorView>(first),
        first.name != "Fault"@,
    ensures
        read_response(Some(root)) == Ok::<ResponseView, RpcErrorView>(
            ResponseView { body: first },
        ),
{
}

} // verus!
