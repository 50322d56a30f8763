//! SOME/IP (Scalable service-Oriented MiddlewarE over IP): the message
//! formats of the protocol, its service discovery payloads, the SOME/IP
//! payload type system with its wire encoding, and the FIBEX service model
//! from which payload types are built.

pub mod builder;
pub mod bytes;
pub mod error;
pub mod fibex;
pub mod fibex2som;
pub mod fibex_grammar;
pub mod fibex_parser;
pub mod fibex_view;
pub mod fibex_xml;
pub mod laws;
pub mod laws_codes;
pub mod laws_message;
pub mod laws_som;
pub mod laws_strings;
pub mod laws_wrapper;
pub mod parser;
pub mod serializer;
pub mod som;
pub mod som_arrays;
pub mod som_enums;
pub mod som_primitives;
pub mod som_strings;
pub mod som_text;
pub mod som_wrapper;
pub mod text;
pub mod types;
pub mod xml_source;

pub use error::Error;

pub use error::IoErrorKind;
