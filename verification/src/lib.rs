//! Typed SOAP client bindings from WSDL service descriptions.

pub mod client;
pub mod entries;
pub mod error;
pub mod gen;
pub mod http;
pub mod naming;
pub mod record;
pub mod rpser;
pub mod text;
pub mod views;
pub mod wsdl;

pub use error::Error;
