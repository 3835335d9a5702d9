//! What can go wrong in parsing.

use crate::options::ParseLimit;
use crate::{reader, text};
use quick_xml::encoding::EncodingError;
use quick_xml::events::attributes::AttrError;
use std::str::Utf8Error;
use vstd::prelude::*;

verus! {

/// Why a document was refused.
#[allow(inconsistent_fields)]
#[derive(Debug)]
#[non_exhaustive]
pub enum Error {
    /// The XML reader failed.
    Xml { position: u64, source: quick_xml::Error },
    /// A name or the input is not UTF-8.
    Utf8 { position: u64, source: Utf8Error },
    /// The bytes of a text cannot be decoded.
    Encoding { position: u64, source: EncodingError },
    /// An attribute is malformed or repeated.
    Attribute { position: u64, source: AttrError },
    /// An end tag without its start, or an element that is not closed.
    UnexpectedEnd { name: String, position: u64 },
    /// An end tag that closes another element than the innermost.
    MismatchedEnd { expected: String, found: String, position: u64 },
    /// A `<!DOCTYPE ...>` declaration where none is allowed.
    DocTypeForbidden { position: u64 },
    /// A `<!DOCTYPE ...>` declaration that is too long.
    DocTypeTooLong { length: usize, limit: usize, position: u64 },
    /// Content before or after the root element.
    ContentOutsideRoot { position: u64 },
    /// A document without a root element.
    MissingRoot,
    /// A second root element.
    MultipleRoots,
    /// A root element that is not `adf`.
    UnexpectedRoot { found: String, position: u64 },
    /// A declared encoding that is not UTF-8.
    UnsupportedEncoding { encoding: String, position: u64 },
    /// A limit of the parse options.
    LimitExceeded { limit: ParseLimit, maximum: usize, actual: usize, position: u64 },
    /// A character reference that names no XML character.
    InvalidCharacterReference { reference: String, position: u64 },
    /// An entity reference that is not closed, or whose name is no XML name.
    InvalidEntityReference { reference: String, position: u64 },
    /// A character that XML does not allow.
    IllegalCharacter { character: char, position: u64 },
}

/// The model of an [`Error`]. Of the error below, it holds how many bytes are valid UTF-8
/// where that is what it tells, and nothing of those of the reader and of attributes.
#[allow(inconsistent_fields)]
#[verifier::ext_equal]
pub enum ErrorView {
    Xml { position: u64 },
    Utf8 { position: u64, valid_up_to: nat },
    Encoding { position: u64, valid_up_to: nat },
    Attribute { position: u64 },
    UnexpectedEnd { name: Seq<char>, position: u64 },
    MismatchedEnd { expected: Seq<char>, found: Seq<char>, position: u64 },
    DocTypeForbidden { position: u64 },
    DocTypeTooLong { length: usize, limit: usize, position: u64 },
    ContentOutsideRoot { position: u64 },
    MissingRoot,
    MultipleRoots,
    UnexpectedRoot { found: Seq<char>, position: u64 },
    UnsupportedEncoding { encoding: Seq<char>, position: u64 },
    LimitExceeded { limit: ParseLimit, maximum: usize, actual: usize, position: u64 },
    InvalidCharacterReference { reference: Seq<char>, position: u64 },
    InvalidEntityReference { reference: Seq<char>, position: u64 },
    IllegalCharacter { character: char, position: u64 },
}

impl View for Error {
    type V = ErrorView;

    open spec fn view(&self) -> ErrorView {
        match *self {
            Error::Xml { position, source } => ErrorView::Xml { position },
            Error::Utf8 { position, source } => ErrorView::Utf8 {
                position,
                valid_up_to: text::error_index(source),
            },
            Error::Encoding { position, source } => ErrorView::Encoding {
                position,
                valid_up_to: reader::encoding_error_index(source),
            },
            Error::Attribute { position, source } => ErrorView::Attribute { position },
            Error::UnexpectedEnd { name, position } => ErrorView::UnexpectedEnd {
                name: name@,
                position,
            },
            Error::MismatchedEnd { expected, found, position } => ErrorView::MismatchedEnd {
                expected: expected@,
                found: found@,
                position,
            },
            Error::DocTypeForbidden { position } => ErrorView::DocTypeForbidden { position },
            Error::DocTypeTooLong { length, limit, position } => ErrorView::DocTypeTooLong {
                length,
                limit,
                position,
            },
            Error::ContentOutsideRoot { position } => ErrorView::ContentOutsideRoot { position },
            Error::MissingRoot => ErrorView::MissingRoot,
            Error::MultipleRoots => ErrorView::MultipleRoots,
            Error::UnexpectedRoot { found, position } => ErrorView::UnexpectedRoot {
                found: found@,
                position,
            },
            Error::UnsupportedEncoding { encoding, position } => ErrorView::UnsupportedEncoding {
                encoding: encoding@,
                position,
            },
            Error::LimitExceeded { limit, maximum, actual, position } => ErrorView::LimitExceeded {
                limit,
                maximum,
                actual,
                position,
            },
            Error::InvalidCharacterReference { reference, position } =>
                ErrorView::InvalidCharacterReference { reference: reference@, position },
            Error::InvalidEntityReference { reference, position } =>
                ErrorView::InvalidEntityReference { reference: reference@, position },
            Error::IllegalCharacter { character, position } => ErrorView::IllegalCharacter {
                character,
                position,
            },
        }
    }
}

/// The model of what a fallible function returns.
pub open spec fn outcome<T: View>(r: Result<T, Error>) -> Result<T::V, ErrorView> {
    match r {
        Ok(value) => Ok(value@),
        Err(error) => Err(error@),
    }
}

impl Error {
    /// The error of a failed read.
    pub fn xml(position: u64, source: quick_xml::Error) -> (r: Self)
        ensures
            r == (Error::Xml { position, source }),
    {
        Error::Xml { position, source }
    }

    /// The error of bytes that cannot be decoded.
    pub fn encoding(position: u64, source: EncodingError) -> (r: Self)
        ensures
            r == (Error::Encoding { position, source }),
    {
        Error::Encoding { position, source }
    }
}

} // verus!
