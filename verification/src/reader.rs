//! The XML reader of `quick_xml`, as a source of plain events.

use crate::text;
use quick_xml::encoding::{Decoder, EncodingError};
use quick_xml::events::attributes::{AttrError, Attribute as RawAttributePair, Attributes};
use quick_xml::events::{BytesStart, BytesText, Event};
use quick_xml::{Error as ReaderError, Reader};
use std::borrow::Cow;
use vstd::prelude::*;
use vstd::utf8::*;

verus! {

/// The pull reader of `quick_xml`.
#[verifier::external_type_specification]
#[verifier::external_body]
#[verifier::reject_recursive_types(R)]
pub struct ExReader<R>(Reader<R>);

/// The error of a failed read.
#[verifier::external_type_specification]
#[verifier::external_body]
pub struct ExReaderError(ReaderError);

/// The error of bytes that cannot be decoded.
#[verifier::external_type_specification]
#[verifier::external_body]
pub struct ExEncodingError(EncodingError);

/// The decoder of a reader.
#[verifier::external_type_specification]
#[verifier::external_body]
pub struct ExDecoder(Decoder);

/// A start tag or an empty-element tag.
#[verifier::external_type_specification]
#[verifier::external_body]
pub struct ExBytesStart<'a>(BytesStart<'a>);

/// The iterator over the attributes of a start tag.
#[verifier::external_type_specification]
#[verifier::external_body]
pub struct ExAttributes<'a>(Attributes<'a>);

/// What that iterator gives for a well-formed attribute.
#[verifier::external_type_specification]
#[verifier::external_body]
pub struct ExAttribute<'a>(RawAttributePair<'a>);

/// The error of a malformed or repeated attribute.
#[verifier::external_type_specification]
#[verifier::external_body]
pub struct ExAttrError(AttrError);

/// What a tag holds: the bytes between its brackets, without the closing slash.
pub uninterp spec fn tag_content(tag: BytesStart<'_>) -> Seq<u8>;

/// How many of the first of these bytes are the name of the tag.
pub uninterp spec fn tag_name_len(tag: BytesStart<'_>) -> nat;

/// A tag: the bytes between its brackets, and how many of the first of them are its
/// name.
#[verifier::ext_equal]
pub struct TagView {
    pub content: Seq<u8>,
    pub name_len: nat,
}

/// The model of a tag.
pub open spec fn tag_view(tag: BytesStart<'_>) -> TagView {
    TagView { content: tag_content(tag), name_len: tag_name_len(tag) }
}

/// One event of the reader, with its raw bytes. Those of an end tag are its name.
#[derive(Debug, PartialEq, Eq)]
pub enum XmlEvent<'a> {
    Start(BytesStart<'a>),
    Empty(BytesStart<'a>),
    End(Vec<u8>),
    Text(Cow<'a, [u8]>),
    CData(Cow<'a, [u8]>),
    Comment(Cow<'a, [u8]>),
    PI(Cow<'a, [u8]>),
    Decl(Vec<u8>),
    DocType(Cow<'a, [u8]>),
    GeneralRef(Cow<'a, [u8]>),
    Eof,
}

#[verifier::ext_equal]
pub enum EventView {
    Start(TagView),
    Empty(TagView),
    End(Seq<u8>),
    Text(Seq<u8>),
    CData(Seq<u8>),
    Comment(Seq<u8>),
    PI(Seq<u8>),
    Decl(Seq<u8>),
    DocType(Seq<u8>),
    GeneralRef(Seq<u8>),
    Eof,
}

impl<'a> View for XmlEvent<'a> {
    type V = EventView;

    open spec fn view(&self) -> EventView {
        match self {
            XmlEvent::Start(tag) => EventView::Start(tag_view(*tag)),
            XmlEvent::Empty(tag) => EventView::Empty(tag_view(*tag)),
            XmlEvent::End(name) => EventView::End(name@),
            XmlEvent::Text(bytes) => EventView::Text(bytes@),
            XmlEvent::CData(bytes) => EventView::CData(bytes@),
            XmlEvent::Comment(bytes) => EventView::Comment(bytes@),
            XmlEvent::PI(bytes) => EventView::PI(bytes@),
            XmlEvent::Decl(bytes) => EventView::Decl(bytes@),
            XmlEvent::DocType(bytes) => EventView::DocType(bytes@),
            XmlEvent::GeneralRef(bytes) => EventView::GeneralRef(bytes@),
            XmlEvent::Eof => EventView::Eof,
        }
    }
}

/// The name of a tag does not go beyond its content.
pub open spec fn well_named(event: EventView) -> bool {
    match event {
        EventView::Start(tag) => tag.name_len <= tag.content.len(),
        EventView::Empty(tag) => tag.name_len <= tag.content.len(),
        _ => true,
    }
}

/// The bytes of an event are borrowed from the document. Those of tags and declarations
/// are not considered.
pub open spec fn borrows_bytes(event: XmlEvent<'_>) -> bool {
    match event {
        XmlEvent::Text(bytes) => bytes is Borrowed,
        XmlEvent::CData(bytes) => bytes is Borrowed,
        XmlEvent::Comment(bytes) => bytes is Borrowed,
        XmlEvent::PI(bytes) => bytes is Borrowed,
        XmlEvent::DocType(bytes) => bytes is Borrowed,
        XmlEvent::GeneralRef(bytes) => bytes is Borrowed,
        _ => true,
    }
}

/// What one read gives: an event, or `None` where the read fails, and the byte
/// position of the reader after it.
pub struct ReadStep {
    pub event: Option<EventView>,
    pub end: nat,
}

/// The position before the `i`-th of the steps of a reader that stands at `from`.
pub open spec fn step_start(steps: Seq<ReadStep>, from: nat, i: int) -> nat {
    if i <= 0 {
        from
    } else {
        steps[i - 1].end
    }
}

/// Every step takes at least one byte and none goes past `limit`.
pub open spec fn steps_advance(steps: Seq<ReadStep>, from: nat, limit: nat) -> bool {
    &&& from <= limit
    &&& forall|i: int|
        0 <= i < steps.len() ==> step_start(steps, from, i) < (#[trigger] steps[i]).end <= limit
}

/// The steps that are left after the first still advance.
pub proof fn lemma_steps_advance(steps: Seq<ReadStep>, from: nat, limit: nat)
    requires
        steps.len() > 0,
        steps_advance(steps, from, limit),
    ensures
        from < steps[0].end <= limit,
        steps_advance(steps.drop_first(), steps[0].end, limit),
{
    let rest = steps.drop_first();
    assert forall|i: int| 0 <= i < rest.len() implies step_start(rest, steps[0].end, i) < (
    #[trigger] rest[i]).end <= limit by {
        assert(rest[i] == steps[i + 1]);
        if i > 0 {
            assert(rest[i - 1] == steps[i]);
        }
    }
}

/// How many bytes the byte order mark takes up at the beginning of a text. The
/// positions of the reader leave it out.
pub open spec fn mark_len(bytes: Seq<u8>) -> int {
    if bytes.len() >= 3 && bytes[0] == 0xEF && bytes[1] == 0xBB && bytes[2] == 0xBF {
        3
    } else {
        0
    }
}

/// The bytes that the positions of the reader count.
pub open spec fn body(bytes: Seq<u8>) -> Seq<u8> {
    bytes.skip(mark_len(bytes))
}

/// How a tag is written: its content stands in brackets, behind the slash of an end tag
/// and before that of an empty-element tag.
pub open spec fn tag_written(event: Option<EventView>, bytes: Seq<u8>) -> bool {
    match event {
        Some(EventView::Start(tag)) => {
            &&& bytes == seq![0x3Cu8] + tag.content + seq![0x3Eu8]
            &&& tag.name_len <= tag.content.len()
        },
        Some(EventView::Empty(tag)) => {
            &&& bytes == seq![0x3Cu8] + tag.content + seq![0x2Fu8, 0x3Eu8]
            &&& tag.name_len <= tag.content.len()
        },
        Some(EventView::End(_)) => bytes.len() > 0 && bytes.last() == 0x3E,
        _ => true,
    }
}

/// The tags that the steps of a reader give are what stands in the text.
pub open spec fn tags_written(steps: Seq<ReadStep>, from: nat, text: Seq<u8>) -> bool {
    forall|i: int|
        0 <= i < steps.len() ==> tag_written(
            (#[trigger] steps[i]).event,
            text.subrange(step_start(steps, from, i) as int, steps[i].end as int),
        )
}

/// The tags that are left after the first step are still what stands in the text.
pub proof fn lemma_tags_written(steps: Seq<ReadStep>, from: nat, text: Seq<u8>)
    requires
        steps.len() > 0,
        tags_written(steps, from, text),
    ensures
        tag_written(steps[0].event, text.subrange(from as int, steps[0].end as int)),
        tags_written(steps.drop_first(), steps[0].end, text),
{
    let rest = steps.drop_first();
    assert forall|i: int| 0 <= i < rest.len() implies tag_written(
        (#[trigger] rest[i]).event,
        text.subrange(step_start(rest, steps[0].end, i) as int, rest[i].end as int),
    ) by {
        assert(rest[i] == steps[i + 1]);
        if i > 0 {
            assert(rest[i - 1] == steps[i]);
        }
    }
}

/// The event that the next read gives: that of the first step, `None` where it
/// fails, and the end of the document where no step is left.
pub open spec fn next_step(steps: Seq<ReadStep>) -> Option<EventView> {
    if steps.len() == 0 {
        Some(EventView::Eof)
    } else {
        steps[0].event
    }
}

/// What the reads of a document give, one after the other, up to the end of the
/// document or the first read that fails.
pub uninterp spec fn document_steps(
    input: Seq<char>,
    trim_text: bool,
    check_comments: bool,
) -> Seq<ReadStep>;

/// What the reads that are left give.
pub uninterp spec fn reader_steps(reader: Reader<&[u8]>) -> Seq<ReadStep>;

/// The byte position of a reader.
pub uninterp spec fn reader_position(reader: Reader<&[u8]>) -> nat;

/// The byte position of the last failed read, 0 where none has failed.
pub uninterp spec fn reader_error_position(reader: Reader<&[u8]>) -> nat;

/// `Reader::from_str`, with `trim_text` and `check_comments` of its configuration
/// set as given. The reader is at position 0 and has met no error. What its reads
/// will give depends on the text and these two settings alone. Every one of them takes
/// at least one byte of the text, and, as long as white space is not trimmed, the tags
/// that they give are what stands there.
#[verifier::external_body]
pub(crate) fn open_reader<'a>(
    input: &'a str,
    trim_text: bool,
    check_comments: bool,
) -> (r: Reader<&'a [u8]>)
    ensures
        reader_steps(r) == document_steps(input@, trim_text, check_comments),
        reader_position(r) == 0,
        reader_error_position(r) == 0,
        steps_advance(reader_steps(r), 0, body(encode_utf8(input@)).len()),
        !trim_text ==> tags_written(reader_steps(r), 0, body(encode_utf8(input@))),
{
    let mut reader = Reader::from_str(input);
    reader.config_mut().trim_text(trim_text);
    reader.config_mut().check_comments = check_comments;
    reader
}

/// `Reader::read_event`. A read gives the next of the steps that are left, and the
/// end of the document where none is. One that does not fail moves the reader past
/// its step and leaves the error position alone. The bytes of an event are borrowed from
/// the document, and the name of a tag is a part of its content. Nothing is said of the
/// error of a failed read, nor of the reader after it.
#[verifier::external_body]
pub(crate) fn read_event<'a>(reader: &mut Reader<&'a [u8]>) -> (r: Result<
    XmlEvent<'a>,
    ReaderError,
>)
    ensures
        match next_step(reader_steps(*old(reader))) {
            Some(event) => r matches Ok(e) && e@ == event,
            None => r is Err,
        },
        r is Ok && reader_steps(*old(reader)).len() > 0 ==> {
            &&& reader_steps(*final(reader)) == reader_steps(*old(reader)).drop_first()
            &&& reader_position(*final(reader)) == reader_steps(*old(reader))[0].end
        },
        r is Ok ==> reader_error_position(*final(reader)) == reader_error_position(*old(reader)),
        r matches Ok(e) ==> well_named(e@),
        r matches Ok(e) ==> borrows_bytes(e),
{
    Ok(match reader.read_event()? {
        Event::Start(e) => XmlEvent::Start(e),
        Event::Empty(e) => XmlEvent::Empty(e),
        Event::End(e) => XmlEvent::End(e.to_vec()),
        Event::Text(e) => XmlEvent::Text(e.into_inner()),
        Event::CData(e) => XmlEvent::CData(e.into_inner()),
        Event::Comment(e) => XmlEvent::Comment(e.into_inner()),
        Event::PI(e) => XmlEvent::PI(e.into_inner()),
        Event::Decl(e) => XmlEvent::Decl(e.to_vec()),
        Event::DocType(e) => XmlEvent::DocType(e.into_inner()),
        Event::GeneralRef(e) => XmlEvent::GeneralRef(e.into_inner()),
        Event::Eof => XmlEvent::Eof,
    })
}

/// `Reader::buffer_position`: the byte position of the reader.
#[verifier::external_body]
pub(crate) fn position<'a>(reader: &Reader<&'a [u8]>) -> (r: u64)
    ensures
        r == reader_position(*reader),
{
    reader.buffer_position()
}

/// `Reader::error_position`: the byte position of the last failed read.
#[verifier::external_body]
pub(crate) fn error_position<'a>(reader: &Reader<&'a [u8]>) -> (r: u64)
    ensures
        r == reader_error_position(*reader),
{
    reader.error_position()
}

/// `Reader::decoder`. Nothing is said of it: without the crate's `encoding`
/// feature every decoder decodes UTF-8.
pub assume_specification<R>[ Reader::<R>::decoder ](this: &Reader<R>) -> (r: Decoder)
;

/// How many of the first bytes such an error has found to be valid: it carries the error
/// of [`std::str::from_utf8`].
pub uninterp spec fn encoding_error_index(error: EncodingError) -> nat;

/// `Decoder::decode` decodes UTF-8: it fails on all other bytes, with the error of
/// [`std::str::from_utf8`]. What it gives is borrowed from the bytes.
pub assume_specification<'b>[ Decoder::decode ](this: &Decoder, bytes: &'b [u8]) -> (r: Result<
    Cow<'b, str>,
    EncodingError,
>)
    ensures
        r is Ok <==> valid_utf8(bytes@),
        r matches Ok(text) ==> encode_utf8(text@) == bytes@ && text is Borrowed,
        r matches Err(e) ==> text::is_longest_valid_prefix(bytes@, encoding_error_index(e) as int),
;

/// A text with its line ends normalized: each of the line ends of XML 1.1 becomes a
/// single line feed.
pub open spec fn normalized_eols(text: Seq<char>) -> Seq<char>
    decreases text.len(),
{
    if text.len() == 0 {
        text
    } else if text[0] == '\r' && text.len() > 1 && (text[1] == '\n' || text[1] == '\u{85}') {
        seq!['\n'] + normalized_eols(text.skip(2))
    } else if text[0] == '\r' || text[0] == '\u{85}' || text[0] == '\u{2028}' {
        seq!['\n'] + normalized_eols(text.skip(1))
    } else {
        seq![text[0]] + normalized_eols(text.skip(1))
    }
}

/// No character of a text makes the normalization of its line ends copy it: there is no
/// carriage return, and none from the two blocks that hold the other line ends.
pub open spec fn without_eols(text: Seq<char>) -> bool {
    forall|i: int|
        0 <= i < text.len() ==> !(#[trigger] text[i] == '\r' || '\u{80}' <= text[i] <= '\u{bf}'
            || '\u{2000}' <= text[i] <= '\u{2fff}')
}

/// `BytesText::xml_content` of a text event that holds `text`: the text with its
/// line ends normalized. It cannot fail, since the text is decoded already. A borrowed
/// text is copied only where a carriage return or a character that is encoded with the
/// same first byte as another line end is found in it.
#[verifier::external_body]
pub(crate) fn xml_content<'a>(text: Cow<'a, str>) -> (r: Result<Cow<'a, str>, EncodingError>)
    ensures
        r is Ok,
        r->Ok_0@ == normalized_eols(text@),
        text is Borrowed && without_eols(text@) ==> r->Ok_0 is Borrowed,
{
    BytesText::from_escaped(text).xml_content()
}

/// One attribute of a tag, with its raw bytes.
#[verifier::ext_equal]
pub struct RawAttribute {
    pub key: Seq<u8>,
    pub value: Seq<u8>,
}

/// What the iterator over the attributes of a tag gives, one after the other:
/// attributes, and `None` for each that is malformed or repeated. The attributes start
/// behind the name of the tag.
pub uninterp spec fn tag_attributes(content: Seq<u8>, name_len: nat) -> Seq<Option<RawAttribute>>;

/// What is left of the attributes of a tag.
pub uninterp spec fn attributes_left(attributes: Attributes<'_>) -> Seq<Option<RawAttribute>>;

/// The place from which an iterator goes on lies within the content of its tag.
pub uninterp spec fn attributes_inside(attributes: Attributes<'_>) -> bool;

/// `BytesStart` as a slice: what the tag holds.
#[verifier::external_body]
pub(crate) fn content_bytes<'b>(tag: &'b BytesStart<'_>) -> (r: &'b [u8])
    ensures
        r@ == tag_content(*tag),
{
    tag.as_ref()
}

/// `BytesStart::name`: the bytes of the name.
#[verifier::external_body]
pub(crate) fn name_bytes<'b>(tag: &'b BytesStart<'_>) -> (r: &'b [u8])
    requires
        tag_name_len(*tag) <= tag_content(*tag).len(),
    ensures
        r@ == tag_content(*tag).take(tag_name_len(*tag) as int),
{
    tag.name().into_inner()
}

/// `BytesStart::attributes`: an iterator over the attributes of a tag. It starts behind
/// the name, which has to lie within the content.
#[verifier::external_body]
pub(crate) fn attributes_of<'b>(tag: &'b BytesStart<'_>) -> (r: Attributes<'b>)
    requires
        tag_name_len(*tag) <= tag_content(*tag).len(),
    ensures
        attributes_inside(r),
        attributes_left(r) == tag_attributes(tag_content(*tag), tag_name_len(*tag)),
{
    tag.attributes()
}

/// `Attributes::new`: an iterator over the attributes of a tag whose content is a text.
/// It gives what that of the tag gives. It starts behind the name, which has to lie
/// within the content.
#[verifier::external_body]
pub(crate) fn open_attributes<'a>(content: &'a str, name_len: usize) -> (r: Attributes<'a>)
    requires
        name_len <= encode_utf8(content@).len(),
    ensures
        attributes_inside(r),
        attributes_left(r) == tag_attributes(encode_utf8(content@), name_len as nat),
{
    Attributes::new(content, name_len)
}

/// `Attributes::next`: takes the first of the attributes that are left. Its value is
/// borrowed from the tag. The iterator goes on from a place within the content, and
/// stays there.
#[verifier::external_body]
pub(crate) fn next_attribute<'a>(attributes: &mut Attributes<'a>) -> (r: Option<
    Result<(&'a [u8], Cow<'a, [u8]>), AttrError>,
>)
    requires
        attributes_inside(*old(attributes)),
    ensures
        attributes_inside(*final(attributes)),
        attributes_left(*old(attributes)).len() == 0 ==> r is None,
        attributes_left(*old(attributes)).len() > 0 ==> {
            &&& r is Some
            &&& match attributes_left(*old(attributes))[0] {
                Some(raw) => r->0 matches Ok(pair) && pair.0@ == raw.key && pair.1@ == raw.value
                    && pair.1 is Borrowed,
                None => r->0 is Err,
            }
            &&& attributes_left(*final(attributes)) == attributes_left(
                *old(attributes),
            ).drop_first()
        },
{
    attributes.next().map(|item| item.map(|attribute| (attribute.key.into_inner(), attribute.value)))
}

} // verus!
