//! Calls over HTTP: the request that a call sends, and what its response gives.

use vstd::prelude::*;
use vstd::string::StringSliceAdditionalSpecFns;

use crate::error::FailureView;
use crate::gen::{FromElement, ToElements};
use crate::rpser::document::{document_text, parsed_tree};
use crate::rpser::xml::{elements_view, Element, ElementView};
use crate::rpser::{envelope, read_response, Method, MethodView, Response};
use crate::Error;

verus! {

/// The headers of a request, by name: the body is XML, and the message is a call.
pub fn headers() -> (r: Vec<(&'static str, &'static str)>)
    ensures
        r@.len() == 2,
        r@[0].0@ == "Content-Type"@,
        r@[0].1@ == "text/xml"@,
        r@[1].0@ == "MessageType"@,
        r@[1].1@ == "Call"@,
{
    let mut r: Vec<(&'static str, &'static str)> = Vec::new();
    r.push(("Content-Type", "text/xml"));
    r.push(("MessageType", "Call"));
    r
}

/// The call of `method` with the argument elements of its input, in their order.
pub fn call(method: &str, arguments: Vec<Element>) -> (r: Method)
    ensures
        r@ == (MethodView { name: method@, args: elements_view(arguments@) }),
{
    let mut m = Method::new(method);
    let ghost all = arguments@;
    assert(elements_view(all.take(0)) =~= Seq::empty());
    for argument in it: arguments.into_iter()
        invariant
            it.seq() == all,
            m@ == (MethodView { name: method@, args: elements_view(all.take(it.index() as int)) }),
    {
        proof {
            let k = it.index() as int;
            assert(elements_view(all.take(k + 1)) =~= elements_view(all.take(k)).push(argument@));
        }
        m = m.with(argument);
    }
    assert(all.take(all.len() as int) == all);
    m
}

/// The body of the request that calls `method` of the service in the namespace `ns` with
/// the argument elements of its input.
pub fn request_of(ns: &str, method: &str, arguments: Vec<Element>) -> (r: String)
    ensures
        r@ == document_text(envelope(method@, ns@, elements_view(arguments@))),
{
    call(method, arguments).as_xml(ns)
}

/// The body of the request that calls `method` of the service in the namespace `ns` with
/// an input: the request envelope around the elements that the input writes.
pub fn request<I: ToElements>(ns: &str, method: &str, input: &I) -> (r: String)
    ensures
        exists|arguments: Seq<ElementView>|
            r@ == document_text(#[trigger] envelope(method@, ns@, arguments)),
{
    let arguments = input.to_elements();
    let ghost views = elements_view(arguments@);
    let r = request_of(ns, method, arguments);
    assert(r@ == document_text(envelope(method@, ns@, views)));
    r
}

/// What the body of a response carries: the first child element of its `Body`, or the
/// reason why there is none.
pub fn response_body(response: &str) -> (r: Result<Element, Error>)
    ensures
        match read_response(parsed_tree(response.spec_bytes())) {
            Ok(carried) => r is Ok && r->Ok_0@ == carried.body,
            Err(error) => r is Err && r->Err_0@ == FailureView::Rpc(error),
        },
{
    match Response::from_xml(response) {
        Ok(carried) => Ok(carried.body),
        Err(error) => Err(Error::Rpc(error)),
    }
}

/// The answer of an operation without declared faults: the output that was read from the
/// body, or the error of reading it.
pub fn output<O: FromElement>(response: &str) -> (r: Result<O, Error>)
    ensures
        read_response(parsed_tree(response.spec_bytes())) matches Err(error) ==> r is Err
            && r->Err_0@ == FailureView::Rpc(error),
{
    match response_body(response) {
        Ok(body) => O::from_element(&body),
        Err(error) => Err(error),
    }
}

/// What a call gives, by what was read from the body of its response: the output where it
/// was read; else the declared fault where that was read; else the error of reading the
/// output.
pub fn settle<O, F>(output: Result<O, Error>, fault: Result<F, Error>) -> (r: Result<
    Result<O, F>,
    Error,
>)
    ensures
        r == match output {
            Ok(value) => Ok::<Result<O, F>, Error>(Ok(value)),
            Err(error) => match fault {
                Ok(declared) => Ok::<Result<O, F>, Error>(Err(declared)),
                Err(_) => Err::<Result<O, F>, Error>(error),
            },
        },
{
    match output {
        Ok(value) => Ok(Ok(value)),
        Err(error) => match fault {
            Ok(declared) => Ok(Err(declared)),
            Err(_) => Err(error),
        },
    }
}

/// The answer of an operation with declared faults: the body is read as the output and as
/// a fault, and `settle` chooses between the two.
pub fn output_or_fault<O: FromElement, F: FromElement>(response: &str) -> (r: Result<
    Result<O, F>,
    Error,
>)
    ensures
        read_response(parsed_tree(response.spec_bytes())) matches Err(error) ==> r is Err
            && r->Err_0@ == FailureView::Rpc(error),
{
    match response_body(response) {
        Ok(body) => settle(O::from_element(&body), F::from_element(&body)),
        Err(error) => Err(error),
    }
}

} // verus!
