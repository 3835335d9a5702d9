//! Parsing a document.

use crate::document::{AdfDocument, DocumentView};
use crate::error::{Error, ErrorView};
use crate::options::{ParseLimit, ParseOptions};
use crate::{
    borrowing, builder, convert, document, error, limits, options, reader, spans, text, tree, written,
};
use std::borrow::Cow;
use vstd::prelude::*;
use vstd::utf8::*;

verus! {

/// The document that a text is parsed into: the tree of the text, its root read as
/// ADF. The text itself is kept, and nothing has been changed.
pub open spec fn parsed_document(input: Seq<char>, options: ParseOptions) -> Result<
    DocumentView,
    ErrorView,
> {
    match builder::document_tree(input, options) {
        Err(e) => Err(e),
        Ok(parsed) => match convert::adf_of_root(parsed.root) {
            Err(e) => Err(e),
            Ok((adf, prospect_spans)) => Ok(
                document::new_document(
                    input,
                    options,
                    adf,
                    prospect_spans,
                    parsed.prolog,
                    parsed.epilog,
                ),
            ),
        },
    }
}

/// The prospects of a document stand in its text one behind the other, and are written
/// there. A byte order mark is not counted.
pub open spec fn prospects_placed(document: DocumentView) -> bool {
    let text = reader::body(encode_utf8(document.original));
    &&& spans::ranges_ordered(document.prospect_spans, 0, text.len() as int)
    &&& forall|i: int|
        0 <= i < document.prospect_spans.len() ==> written::range_written(
            text,
            #[trigger] document.prospect_spans[i],
            "prospect"@,
        )
}

/// A document that comes out of parsing keeps its text, has not been changed, and knows
/// of each of its prospects where it stands.
pub proof fn law_parsed_document_is_clean(input: Seq<char>, options: ParseOptions)
    ensures
        parsed_document(input, options) matches Ok(document) ==> {
            &&& document.original == input
            &&& document.parse_options == options
            &&& document.dirty_prospects.len() == 0
            &&& !document.dirty_all
            &&& document.prospect_spans.len() == document.adf.prospects.len()
            &&& forall|i: int|
                0 <= i < document.prospect_spans.len() ==> {
                    &&& (#[trigger] document.prospect_spans[i]).start
                        == document.adf.prospects[i].span.start
                    &&& document.prospect_spans[i].end == document.adf.prospects[i].span.end
                }
        },
{
}

/// Parsing asks for nothing that is specific to ADF but the name of the root: a document
/// is accepted if and only if it has a tree whose root is `adf`, and the model is read
/// from that root.
pub proof fn law_any_adf_tree_is_accepted(input: Seq<char>, options: ParseOptions)
    ensures
        parsed_document(input, options) is Ok <==> (builder::document_tree(
            input,
            options,
        ) matches Ok(parsed) && parsed.root.name == "adf"@),
        parsed_document(input, options) matches Ok(document) ==> document.adf == convert::adf_of(
            builder::document_tree(input, options)->Ok_0.root,
        ),
{
}

/// Whether a document is accepted depends on the options; what it is parsed into does
/// not, but for the options that it records.
pub proof fn law_options_do_not_change_document(
    input: Seq<char>,
    a: ParseOptions,
    b: ParseOptions,
)
    ensures
        parsed_document(input, a) is Ok && parsed_document(input, b) is Ok ==> parsed_document(
            input,
            b,
        )->Ok_0 == (DocumentView { parse_options: b, ..parsed_document(input, a)->Ok_0 }),
{
    limits::law_options_only_refuse(input, a, b);
}

/// Bytes are parsed as the text that they encode. Bytes that are not UTF-8 are refused for
/// their number, where they are too many, and else where the longest prefix that is UTF-8
/// ends.
pub proof fn law_bytes_are_parsed_as_their_text(
    input: Seq<char>,
    bytes: Seq<u8>,
    valid: nat,
    options: ParseOptions,
)
    requires
        bytes.len() <= usize::MAX,
    ensures
        parsed_bytes(encode_utf8(input), options) == parsed_document(input, options),
        !valid_utf8(bytes) && text::is_longest_valid_prefix(bytes, valid as int) ==> parsed_bytes(
            bytes,
            options,
        ) == Err::<DocumentView, ErrorView>(
            if limits::at_most(bytes.len(), options.max_input_len) {
                ErrorView::Utf8 { position: valid as u64, valid_up_to: valid }
            } else {
                ErrorView::LimitExceeded {
                    limit: ParseLimit::InputLength,
                    maximum: options.max_input_len->0,
                    actual: bytes.len() as usize,
                    position: 0,
                }
            },
        ),
{
    broadcast use {encode_utf8_valid_utf8, encode_utf8_decode_utf8};

    if !valid_utf8(bytes) && text::is_longest_valid_prefix(bytes, valid as int) {
        text::lemma_valid_up_to(bytes, valid);
    }
}

/// A document holds what stands before and behind the root of its tree, no copy of the
/// root itself, and nothing where there is no tree: the error is that of the tree then.
pub proof fn law_document_is_that_of_its_tree(input: Seq<char>, options: ParseOptions)
    ensures
        builder::document_tree(input, options) matches Err(e) ==> parsed_document(input, options)
            == Err::<DocumentView, ErrorView>(e),
        parsed_document(input, options) matches Ok(document) ==> {
            &&& builder::document_tree(input, options) matches Ok(parsed)
            &&& document.prolog == parsed.prolog
            &&& document.epilog == parsed.epilog
            &&& document.raw_root is None
        },
{
}

/// Parses a text. What it can, the document borrows from the text. Its prospects stand
/// in the text one behind the other.
pub fn parse_with<'a>(input: &'a str, options: &ParseOptions) -> (r: Result<AdfDocument<'a>, Error>)
    ensures
        error::outcome(r) == parsed_document(input@, *options),
        r matches Ok(document) ==> prospects_placed(document@),
        r matches Ok(document) ==> borrowing::document_borrows(
            document,
            reader::document_steps(input@, false, true),
        ),
{
    let parsed = builder::parse_document_tree(input, options)?;
    proof {
        spans::law_prospects_are_placed(parsed@.root);
        written::law_prospects_are_written(parsed@.root, reader::body(encode_utf8(input@)));
    }
    let ghost tree = parsed;
    let (adf, prospect_spans) = convert::adf_from_root(parsed.root)?;
    let document = AdfDocument::new(
        input,
        *options,
        adf,
        prospect_spans,
        parsed.prolog,
        parsed.epilog,
    );
    proof {
        borrowing::lemma_document_borrows(
            document,
            tree,
            reader::document_steps(input@, false, true),
        );
    }
    Ok(document)
}

/// Parses a text with the default options.
pub fn parse<'a>(input: &'a str) -> (r: Result<AdfDocument<'a>, Error>)
    ensures
        error::outcome(r) == parsed_document(input@, options::default_options()),
        r matches Ok(document) ==> prospects_placed(document@),
        r matches Ok(document) ==> borrowing::document_borrows(
            document,
            reader::document_steps(input@, false, true),
        ),
{
    parse_with(input, &ParseOptions::default())
}

/// Parses a text into a document that owns it.
pub fn parse_owned(input: String, options: &ParseOptions) -> (r: Result<
    AdfDocument<'static>,
    Error,
>)
    ensures
        error::outcome(r) == parsed_document(input@, *options),
        r matches Ok(document) ==> prospects_placed(document@),
{
    let parsed = parse_with(input.as_str(), options)?;
    let AdfDocument {
        original: _,
        parse_options,
        raw_root,
        prolog,
        epilog,
        adf,
        prospect_spans,
        dirty_prospects,
        dirty_all,
    } = parsed.into_owned();
    Ok(
        AdfDocument {
            original: Cow::Owned(input),
            parse_options,
            raw_root,
            prolog,
            epilog,
            adf,
            prospect_spans,
            dirty_prospects,
            dirty_all,
        },
    )
}

/// The document that bytes are parsed into: that of the text which they encode. Bytes
/// that are not UTF-8 are refused at the end of the longest prefix that is, unless they
/// are too many.
pub open spec fn parsed_bytes(input: Seq<u8>, options: ParseOptions) -> Result<
    DocumentView,
    ErrorView,
> {
    if valid_utf8(input) {
        parsed_document(decode_utf8(input), options)
    } else {
        match tree::within(options.max_input_len, input.len(), ParseLimit::InputLength, 0) {
            Err(e) => Err(e),
            Ok(_) => Err(
                ErrorView::Utf8 {
                    position: text::valid_up_to(input) as u64,
                    valid_up_to: text::valid_up_to(input),
                },
            ),
        }
    }
}

/// Parses bytes into a document that owns its text.
pub fn parse_bytes(input: &[u8], options: &ParseOptions) -> (r: Result<
    AdfDocument<'static>,
    Error,
>)
    ensures
        error::outcome(r) == parsed_bytes(input@, *options),
        r matches Ok(document) ==> prospects_placed(document@),
{
    proof {
        if valid_utf8(input@) {
            decode_utf8_encode_utf8(input@);
        }
    }
    tree::check_limit(options.max_input_len, input.len(), ParseLimit::InputLength, 0)?;
    match core::str::from_utf8(input) {
        Ok(value) => {
            proof {
                encode_utf8_decode_utf8(value@);
            }
            parse_owned(value.to_owned(), options)
        },
        Err(source) => {
            proof {
                text::lemma_valid_up_to(input@, text::error_index(source));
            }
            Err(Error::Utf8 { position: source.valid_up_to() as u64, source })
        },
    }
}

} // verus!
