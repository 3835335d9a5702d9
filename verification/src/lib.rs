//! Lightweight parsing of ADF 1.0 XML leads.
//!
//! A document is read with `quick_xml`, built into an XML tree, and read from there
//! into a typed model. What the model does not know is kept as extensions. Checks
//! that are specific to ADF are separate from parsing.

use vstd::prelude::*;

pub mod acceptance;
pub mod account;
pub mod borrowed;
pub mod borrowing;
pub mod builder;
pub mod building;
pub mod characters;
pub mod content;
pub mod convert;
pub mod declaration;
pub mod declared;
pub mod document;
pub mod entities;
pub mod error;
pub mod events;
pub mod findings;
pub mod kept;
pub mod lexical;
pub mod limits;
pub mod model;
pub mod options;
pub mod order;
pub mod ownership;
pub mod parse;
pub mod reader;
pub mod reading;
pub mod references;
pub mod spans;
pub mod text;
pub mod tree;
pub mod validate;
pub mod written;

pub use document::{AdfDocument, Attribute, Span, XmlElement, XmlNode};
pub use error::Error;
pub use model::{
    Address, Adf, ColorCombination, Contact, Customer, Finance, Id, Name, Price, Prospect,
    Provider, TextElement, TextPart, Timeframe, Vehicle, VehicleOption, Vendor,
};
pub use options::{ParseLimit, ParseOptions};
pub use parse::{parse, parse_bytes, parse_owned, parse_with};
pub use validate::{Severity, ValidationIssue, ValidationReport};

verus! {

} // verus!
