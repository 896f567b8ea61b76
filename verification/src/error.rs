//! What a call of a service can fail with.

use vstd::prelude::*;
use vstd::std_specs::convert::FromSpecImpl;

use crate::rpser::xml;
use crate::rpser::{RpcError, RpcErrorView};
use crate::wsdl::{WsdlError, WsdlErrorView};

verus! {

/// Why a call of a service gives no result.
#[derive(Debug)]
pub enum Error {
    /// The service description cannot be read.
    Wsdl(WsdlError),
    /// An element of a response does not hold what the bindings expect.
    Rpser(xml::Error),
    /// The response is no envelope with a result.
    Rpc(RpcError),
    /// The operation has no binding.
    Unimplemented,
}

/// The reason why a call gives no result, as a mathematical value.
pub enum FailureView {
    Wsdl(WsdlErrorView),
    Rpser(xml::ErrorView),
    Rpc(RpcErrorView),
    Unimplemented,
}

impl View for Error {
    type V = FailureView;

    open spec fn view(&self) -> FailureView {
        match self {
            Error::Wsdl(error) => FailureView::Wsdl(error@),
            Error::Rpser(error) => FailureView::Rpser(error@),
            Error::Rpc(error) => FailureView::Rpc(error@),
            Error::Unimplemented => FailureView::Unimplemented,
        }
    }
}

impl From<WsdlError> for Error {
    /// The error of reading a service description as the error of a call.
    fn from(e: WsdlError) -> (r: Error) {
        Error::Wsdl(e)
    }
}

impl FromSpecImpl<WsdlError> for Error {
    open spec fn obeys_from_spec() -> bool {
        true
    }

    open spec fn from_spec(e: WsdlError) -> Error {
        Error::Wsdl(e)
    }
}

impl From<xml::Error> for Error {
    /// The error of reading an element as the error of a call.
    fn from(e: xml::Error) -> (r: Error) {
        Error::Rpser(e)
    }
}

impl FromSpecImpl<xml::Error> for Error {
    open spec fn obeys_from_spec() -> bool {
        true
    }

    open spec fn from_spec(e: xml::Error) -> Error {
        Error::Rpser(e)
    }
}

impl From<RpcError> for Error {
    /// The error of reading an envelope as the error of a call.
    fn from(e: RpcError) -> (r: Error) {
        Error::Rpc(e)
    }
}

impl FromSpecImpl<RpcError> for Error {
    open spec fn obeys_from_spec() -> bool {
        true
    }

    open spec fn from_spec(e: RpcError) -> Error {
        Error::Rpc(e)
    }
}

} // verus!
