//! How strictly a document is parsed, and how much of it.

use vstd::prelude::*;

verus! {

/// Default ceiling, in bytes, on the length of a `<!DOCTYPE ...>` declaration's
/// payload. Legitimate ADF documents rarely carry a DTD at all; the cap keeps
/// entity-definition payloads bounded while leaving room for a small
/// declaration.
pub const DEFAULT_MAX_DOCTYPE_LEN: usize = 4096;

/// Default maximum input size accepted by the parser.
pub const DEFAULT_MAX_INPUT_LEN: usize = 16 * 1024 * 1024;

/// Default maximum XML element nesting depth.
pub const DEFAULT_MAX_DEPTH: usize = 128;

/// Default maximum number of XML nodes.
pub const DEFAULT_MAX_NODES: usize = 100_000;

/// Default maximum number of attributes on one element.
pub const DEFAULT_MAX_ATTRIBUTES_PER_ELEMENT: usize = 256;

/// Parser resource whose configured limit was exceeded.
#[derive(Debug, Clone, Copy, PartialEq, Eq, Structural)]
#[non_exhaustive]
pub enum ParseLimit {
    InputLength,
    Depth,
    Nodes,
    AttributesPerElement,
}

/// Options controlling how strictly the input is treated.
///
/// The defaults preserve partner data (DOCTYPE declarations are kept, not
/// rejected) while still bounding the size of any DTD declaration payload.
#[derive(Debug, Clone, Copy, PartialEq, Eq, Structural)]
#[non_exhaustive]
pub struct ParseOptions {
    /// Reject any document that contains a `<!DOCTYPE ...>` declaration.
    pub reject_doctype: bool,
    /// Maximum allowed length, in bytes, of a `<!DOCTYPE ...>` declaration's
    /// payload. `None` disables the limit. Ignored when
    /// `reject_doctype` is set, since the declaration is rejected outright.
    pub max_doctype_len: Option<usize>,
    /// Maximum input length in bytes.
    pub max_input_len: Option<usize>,
    /// Maximum element nesting depth.
    pub max_depth: Option<usize>,
    /// Maximum total XML node count.
    pub max_nodes: Option<usize>,
    /// Maximum attributes allowed on one element.
    pub max_attributes_per_element: Option<usize>,
}

/// The options that [`ParseOptions::default`] gives.
pub open spec fn default_options() -> ParseOptions {
    ParseOptions {
        reject_doctype: false,
        max_doctype_len: Some(4096),
        max_input_len: Some(16_777_216),
        max_depth: Some(128),
        max_nodes: Some(100_000),
        max_attributes_per_element: Some(256),
    }
}

impl Default for ParseOptions {
    fn default() -> (r: Self)
        ensures
            r == default_options(),
            !r.reject_doctype,
            r.max_doctype_len == Some(4096usize),
            r.max_input_len == Some(16_777_216usize),
            r.max_depth == Some(128usize),
            r.max_nodes == Some(100_000usize),
            r.max_attributes_per_element == Some(256usize),
    {
        ParseOptions {
            reject_doctype: false,
            max_doctype_len: Some(DEFAULT_MAX_DOCTYPE_LEN),
            max_input_len: Some(DEFAULT_MAX_INPUT_LEN),
            max_depth: Some(DEFAULT_MAX_DEPTH),
            max_nodes: Some(DEFAULT_MAX_NODES),
            max_attributes_per_element: Some(DEFAULT_MAX_ATTRIBUTES_PER_ELEMENT),
        }
    }
}

impl ParseOptions {
    /// Reject any document that contains a `<!DOCTYPE ...>` declaration.
    #[must_use]
    pub fn reject_doctype(self, reject: bool) -> (r: Self)
        ensures
            r == (ParseOptions { reject_doctype: reject, ..self }),
    {
        ParseOptions { reject_doctype: reject, ..self }
    }

    /// Cap the byte length of a `<!DOCTYPE ...>` declaration's payload.
    #[must_use]
    pub fn max_doctype_len(self, limit: usize) -> (r: Self)
        ensures
            r == (ParseOptions { max_doctype_len: Some(limit), ..self }),
    {
        ParseOptions { max_doctype_len: Some(limit), ..self }
    }

    /// Remove the limit on `<!DOCTYPE ...>` declaration length.
    #[must_use]
    pub fn without_doctype_limit(self) -> (r: Self)
        ensures
            r == (ParseOptions { max_doctype_len: None, ..self }),
    {
        ParseOptions { max_doctype_len: None, ..self }
    }

    /// Set the maximum input length in bytes.
    #[must_use]
    pub fn max_input_len(self, limit: usize) -> (r: Self)
        ensures
            r == (ParseOptions { max_input_len: Some(limit), ..self }),
    {
        ParseOptions { max_input_len: Some(limit), ..self }
    }

    /// Disable the maximum input length.
    #[must_use]
    pub fn without_input_limit(self) -> (r: Self)
        ensures
            r == (ParseOptions { max_input_len: None, ..self }),
    {
        ParseOptions { max_input_len: None, ..self }
    }

    /// Set the maximum element nesting depth.
    #[must_use]
    pub fn max_depth(self, limit: usize) -> (r: Self)
        ensures
            r == (ParseOptions { max_depth: Some(limit), ..self }),
    {
        ParseOptions { max_depth: Some(limit), ..self }
    }

    /// Disable the maximum element nesting depth.
    #[must_use]
    pub fn without_depth_limit(self) -> (r: Self)
        ensures
            r == (ParseOptions { max_depth: None, ..self }),
    {
        ParseOptions { max_depth: None, ..self }
    }

    /// Set the maximum total XML node count.
    #[must_use]
    pub fn max_nodes(self, limit: usize) -> (r: Self)
        ensures
            r == (ParseOptions { max_nodes: Some(limit), ..self }),
    {
        ParseOptions { max_nodes: Some(limit), ..self }
    }

    /// Disable the maximum XML node count.
    #[must_use]
    pub fn without_node_limit(self) -> (r: Self)
        ensures
            r == (ParseOptions { max_nodes: None, ..self }),
    {
        ParseOptions { max_nodes: None, ..self }
    }

    /// Set the maximum attributes allowed on one element.
    #[must_use]
    pub fn max_attributes_per_element(self, limit: usize) -> (r: Self)
        ensures
            r == (ParseOptions { max_attributes_per_element: Some(limit), ..self }),
    {
        ParseOptions { max_attributes_per_element: Some(limit), ..self }
    }

    /// Disable the per-element attribute limit.
    #[must_use]
    pub fn without_attribute_limit(self) -> (r: Self)
        ensures
            r == (ParseOptions { max_attributes_per_element: None, ..self }),
    {
        ParseOptions { max_attributes_per_element: None, ..self }
    }
}

/// How many bytes of a stream are worth reading: one more than the input limit,
/// which is enough to tell that the limit is exceeded.
pub fn read_bound(options: &ParseOptions) -> (r: u64)
    ensures
        match options.max_input_len {
            Some(maximum) => r == (if maximum < usize::MAX { maximum + 1 } else { maximum as int }),
            None => r == u64::MAX,
        },
{
    match options.max_input_len {
        Some(maximum) => maximum.saturating_add(1) as u64,
        None => u64::MAX,
    }
}

} // verus!
