//! From the events of the XML reader to the tree of a document.

use crate::document::{Attribute, AttributeView, ElementView, NodeView, Span, XmlElement, XmlNode};
use crate::error::{Error, ErrorView};
use crate::options::{ParseLimit, ParseOptions};
use crate::reader::{RawAttribute, TagView};
use crate::{borrowing, document, error, lexical, reader, text};
use quick_xml::encoding::Decoder;
use quick_xml::events::attributes::Attributes;
use quick_xml::events::BytesStart;
use std::borrow::Cow;
use vstd::prelude::*;
use vstd::slice::slice_subrange;
use vstd::utf8::*;

verus! {

/// A parsed document: its root element, and what stands before and behind it.
#[derive(Debug, PartialEq, Eq)]
pub struct ParsedDocumentTree<'a> {
    pub root: XmlElement<'a>,
    pub prolog: Vec<XmlNode<'a>>,
    pub epilog: Vec<XmlNode<'a>>,
}

#[verifier::ext_equal]
pub struct TreeView {
    pub root: ElementView,
    pub prolog: Seq<NodeView>,
    pub epilog: Seq<NodeView>,
}

impl<'a> View for ParsedDocumentTree<'a> {
    type V = TreeView;

    open spec fn view(&self) -> TreeView {
        TreeView {
            root: self.root@,
            prolog: document::views(self.prolog@),
            epilog: document::views(self.epilog@),
        }
    }
}

/// The check of one limit: what counts more than the maximum is refused.
pub open spec fn within(
    limit: Option<usize>,
    actual: nat,
    kind: ParseLimit,
    position: u64,
) -> Result<(), ErrorView> {
    match limit {
        Some(maximum) => if actual > maximum {
            Err(
                ErrorView::LimitExceeded { limit: kind, maximum, actual: actual as usize, position },
            )
        } else {
            Ok(())
        },
        None => Ok(()),
    }
}

/// Refuses what exceeds a limit.
pub fn check_limit(limit: Option<usize>, actual: usize, kind: ParseLimit, position: u64) -> (r:
    Result<(), Error>)
    ensures
        error::outcome(r) == within(limit, actual as nat, kind, position),
{
    if let Some(maximum) = limit {
        if actual > maximum {
            return Err(Error::LimitExceeded { limit: kind, maximum, actual, position });
        }
    }
    Ok(())
}

/// The count of nodes after one more of them.
pub open spec fn counted(count: usize) -> usize {
    if count < usize::MAX {
        (count + 1) as usize
    } else {
        count
    }
}

/// Counts a node, and refuses one that exceeds the limit.
pub fn record_node(count: &mut usize, options: &ParseOptions, position: u64) -> (r: Result<
    (),
    Error,
>)
    ensures
        *final(count) == counted(*old(count)),
        error::outcome(r) == within(
            options.max_nodes,
            counted(*old(count)) as nat,
            ParseLimit::Nodes,
            position,
        ),
{
    *count = count.saturating_add(1);
    check_limit(options.max_nodes, *count, ParseLimit::Nodes, position)
}

/// The text of bytes that must be UTF-8, for a name.
pub open spec fn name_text(bytes: Seq<u8>, position: u64) -> Result<Seq<char>, ErrorView> {
    if valid_utf8(bytes) {
        Ok(decode_utf8(bytes))
    } else {
        Err(ErrorView::Utf8 { position, valid_up_to: text::valid_up_to(bytes) })
    }
}

/// The string that a name's bytes encode.
pub fn name_from_bytes<'a>(bytes: &'a [u8], position: u64) -> (r: Result<&'a str, Error>)
    ensures
        match r {
            Ok(name) => name_text(bytes@, position) == Ok::<Seq<char>, ErrorView>(name@)
                && encode_utf8(name@) == bytes@,
            Err(e) => name_text(bytes@, position) == Err::<Seq<char>, ErrorView>(e@),
        },
{
    match core::str::from_utf8(bytes) {
        Ok(name) => {
            proof {
                encode_utf8_decode_utf8(name@);
            }
            Ok(name)
        },
        Err(source) => {
            proof {
                text::lemma_valid_up_to(bytes@, text::error_index(source));
            }
            Err(Error::Utf8 { position, source })
        },
    }
}

/// The text of a processing instruction or a declaration.
pub open spec fn name_payload(bytes: Seq<u8>, position: u64) -> Result<Seq<char>, ErrorView> {
    match name_text(bytes, position) {
        Err(e) => Err(e),
        Ok(value) => match lexical::checked_chars(value, position) {
            Err(e) => Err(e),
            Ok(_) => Ok(value),
        },
    }
}

/// Decodes and checks the text of a processing instruction or a declaration.
pub fn validated_name_payload(bytes: &[u8], position: u64) -> (r: Result<String, Error>)
    ensures
        error::outcome(r) == name_payload(bytes@, position),
{
    let value = name_from_bytes(bytes, position)?;
    lexical::ensure_xml_chars(value, position)?;
    Ok(value.to_owned())
}

/// The bytes of `input` at `offset`, where they are the given bytes and a string.
pub open spec fn occurs_at(input: Seq<u8>, offset: int, bytes: Seq<u8>) -> bool {
    &&& 0 <= offset <= offset + bytes.len() <= input.len()
    &&& input.subrange(offset, offset + bytes.len()) == bytes
    &&& valid_utf8(bytes)
}

/// The part of the input at `offset` that has the given bytes.
pub fn borrowed_from_input<'a>(input: &'a str, offset: usize, bytes: &[u8]) -> (r: Option<&'a str>)
    ensures
        r is Some <==> occurs_at(encode_utf8(input@), offset as int, bytes@),
        r matches Some(part) ==> encode_utf8(part@) == bytes@,
{
    let whole = input.as_bytes();
    if offset > whole.len() || bytes.len() > whole.len() - offset {
        return None;
    }
    let part = slice_subrange(whole, offset, offset + bytes.len());
    if !text::bytes_eq(part, bytes) {
        return None;
    }
    match core::str::from_utf8(part) {
        Ok(s) => Some(s),
        Err(_) => None,
    }
}

/// The attributes of an element, from what the attribute iterator gives. The first
/// that is malformed, cannot be decoded or exceeds the limit is an error.
pub open spec fn collected_attributes(
    items: Seq<Option<RawAttribute>>,
    limit: Option<usize>,
    position: u64,
    done: Seq<AttributeView>,
) -> Result<Seq<AttributeView>, ErrorView>
    decreases items.len(),
{
    if items.len() == 0 {
        Ok(done)
    } else {
        match items[0] {
            None => Err(ErrorView::Attribute { position }),
            Some(raw) => match name_text(raw.key, position) {
                Err(e) => Err(e),
                Ok(name) => match lexical::attribute_value(raw.value, position) {
                    Err(e) => Err(e),
                    Ok(value) => {
                        let next = done.push(AttributeView { name, value });
                        match within(
                            limit,
                            next.len(),
                            ParseLimit::AttributesPerElement,
                            position,
                        ) {
                            Err(e) => Err(e),
                            Ok(_) => collected_attributes(items.drop_first(), limit, position, next),
                        }
                    },
                },
            },
        }
    }
}

/// The element that a tag opens.
pub open spec fn tag_element(
    tag: TagView,
    options: ParseOptions,
    position: u64,
    span: Span,
) -> Result<ElementView, ErrorView> {
    match name_text(tag.content.take(tag.name_len as int), position) {
        Err(e) => Err(e),
        Ok(name) => match collected_attributes(
            reader::tag_attributes(tag.content, tag.name_len),
            options.max_attributes_per_element,
            position,
            seq![],
        ) {
            Err(e) => Err(e),
            Ok(attributes) => Ok(ElementView { name, attributes, children: seq![], span }),
        },
    }
}

/// The names of an element are borrowed, and so are the values of its attributes that
/// have no references. `items` is what the attribute iterator gave.
pub open spec fn borrows(element: XmlElement<'_>, items: Seq<Option<RawAttribute>>) -> bool {
    &&& element.name is Borrowed
    &&& forall|i: int|
        #![trigger element.attributes@[i]]
        0 <= i < element.attributes@.len() ==> {
            &&& element.attributes@[i].name is Borrowed
            &&& lexical::without_reference(items[i]->0.value)
                ==> element.attributes@[i].value is Borrowed
        }
}

/// The element that a tag opens, from the bytes of its name and the iterator over its
/// attributes. It borrows what they borrow.
fn element_from_parts<'a>(
    name: &'a [u8],
    attributes_source: Attributes<'a>,
    decoder: Decoder,
    options: &ParseOptions,
    position: u64,
    span: Span,
    Ghost(tag): Ghost<TagView>,
) -> (r: Result<XmlElement<'a>, Error>)
    requires
        name@ == tag.content.take(tag.name_len as int),
        reader::attributes_inside(attributes_source),
        reader::attributes_left(attributes_source) == reader::tag_attributes(
            tag.content,
            tag.name_len,
        ),
    ensures
        error::outcome(r) == tag_element(tag, *options, position, span),
        r matches Ok(element) ==> borrows(
            element,
            reader::tag_attributes(tag.content, tag.name_len),
        ),
{
    let ghost items = reader::tag_attributes(tag.content, tag.name_len);
    let ghost limit = options.max_attributes_per_element;
    let name = name_from_bytes(name, position)?;
    let mut source = attributes_source;
    let mut attributes: Vec<Attribute<'a>> = Vec::new();
    assert(document::views(attributes@) =~= seq![]);
    assert(items.skip(0) =~= items);
    loop
        invariant_except_break
            collected_attributes(items, limit, position, seq![]) == collected_attributes(
                reader::attributes_left(source),
                limit,
                position,
                document::views(attributes@),
            ),
            attributes@.len() + reader::attributes_left(source).len() == items.len(),
            reader::attributes_left(source) == items.skip(attributes@.len() as int),
        invariant
            limit == options.max_attributes_per_element,
            reader::attributes_inside(source),
            forall|i: int|
                #![trigger attributes@[i]]
                0 <= i < attributes@.len() ==> {
                    &&& attributes@[i].name is Borrowed
                    &&& lexical::without_reference(items[i]->0.value)
                        ==> attributes@[i].value is Borrowed
                },
            tag_element(tag, *options, position, span) == (match collected_attributes(
                items,
                limit,
                position,
                seq![],
            ) {
                Err(e) => Err(e),
                Ok(attributes) => Ok(
                    ElementView { name: name@, attributes, children: seq![], span },
                ),
            }),
        ensures
            collected_attributes(items, limit, position, seq![]) == Ok::<
                Seq<AttributeView>,
                ErrorView,
            >(document::views(attributes@)),
        decreases reader::attributes_left(source).len(),
    {
        match reader::next_attribute(&mut source) {
            None => {
                break;
            },
            Some(Err(error)) => {
                return Err(Error::Attribute { position, source: error });
            },
            Some(Ok((key, raw))) => {
                let key = name_from_bytes(key, position)?;
                let value = lexical::decode_attribute_value(raw, decoder, position)?;
                proof {
                    broadcast use document::lemma_views_push;

                    let done = attributes@.len() as int;
                    assert(items.skip(done).drop_first() =~= items.skip(done + 1));
                }
                attributes.push(Attribute { name: Cow::Borrowed(key), value });
                check_limit(
                    options.max_attributes_per_element,
                    attributes.len(),
                    ParseLimit::AttributesPerElement,
                    position,
                )?;
            },
        }
    }
    let children: Vec<XmlNode<'a>> = Vec::new();
    assert(document::nodes_model(children@) =~= seq![]);
    Ok(XmlElement { name: Cow::Borrowed(name), attributes, children, span })
}

/// How far the bytes of a tag lie behind the position before it: the opening bracket,
/// and the byte order mark, which the positions of the reader leave out.
pub open spec fn tag_shift_of(input: Seq<char>) -> int {
    reader::mark_len(encode_utf8(input)) + 1
}

fn tag_shift(input: &str) -> (r: usize)
    ensures
        r == tag_shift_of(input@),
        encode_utf8(input@).len() <= usize::MAX,
{
    let bytes = input.as_bytes();
    if bytes.len() >= 3 && bytes[0] == 0xEF && bytes[1] == 0xBB && bytes[2] == 0xBF {
        4
    } else {
        1
    }
}

/// The element that a tag opens. It borrows the input where the tag's bytes stand
/// there.
pub fn element_from_start<'a>(
    input: &'a str,
    tag: &BytesStart<'_>,
    decoder: Decoder,
    options: &ParseOptions,
    position: u64,
    span_start: usize,
    span_end: usize,
) -> (r: Result<XmlElement<'a>, Error>)
    requires
        reader::tag_name_len(*tag) <= reader::tag_content(*tag).len(),
    ensures
        error::outcome(r) == tag_element(
            reader::tag_view(*tag),
            *options,
            position,
            Span { start: span_start, end: span_end },
        ),
        r matches Ok(element) ==> occurs_at(
            encode_utf8(input@),
            span_start + tag_shift_of(input@),
            reader::tag_content(*tag),
        ) ==> borrows(
            element,
            reader::tag_attributes(reader::tag_content(*tag), reader::tag_name_len(*tag)),
        ),
{
    let span = Span { start: span_start, end: span_end };
    let ghost view = reader::tag_view(*tag);
    let content = reader::content_bytes(tag);
    let name = reader::name_bytes(tag);
    let offset = span_start.saturating_add(tag_shift(input));
    match borrowed_from_input(input, offset, content) {
        Some(text) => {
            let len = name.len();
            let name = slice_subrange(text.as_bytes(), 0, len);
            assert(name@ =~= view.content.take(view.name_len as int));
            let attributes = reader::open_attributes(text, len);
            element_from_parts(name, attributes, decoder, options, position, span, Ghost(view))
        },
        None => {
            let attributes = reader::attributes_of(tag);
            let element = element_from_parts(
                name,
                attributes,
                decoder,
                options,
                position,
                span,
                Ghost(view),
            )?;
            Ok(element.into_owned())
        },
    }
}

/// All characters of a text are white space of XML.
pub open spec fn blank(s: Seq<char>) -> bool {
    forall|i: int| 0 <= i < s.len() ==> lexical::xml_space(#[trigger] s[i])
}

/// Whether a text is all white space.
pub fn is_blank(value: &str) -> (r: bool)
    ensures
        r == blank(value@),
{
    let chars = text::chars_of(value);
    let mut i: usize = 0;
    while i < chars.len()
        invariant
            chars@ == value@,
            i <= chars@.len(),
            forall|j: int| 0 <= j < i ==> lexical::xml_space(#[trigger] chars@[j]),
        decreases chars@.len() - i,
    {
        let ch = chars[i];
        if !(ch == ' ' || ch == '\t' || ch == '\r' || ch == '\n') {
            return false;
        }
        i += 1;
    }
    true
}

/// What may stand outside of the root element.
pub open spec fn document_misc(node: NodeView, has_root: bool) -> bool {
    match node {
        NodeView::Text(value) => blank(value),
        NodeView::Comment(_) => true,
        NodeView::ProcessingInstruction(_) => true,
        NodeView::Declaration(_) => !has_root,
        NodeView::DocType(_) => !has_root,
        NodeView::CData(_) => false,
        NodeView::EntityRef(_) => false,
        NodeView::Element(_) => false,
    }
}

/// Whether a node may stand outside of the root element.
pub fn is_document_misc(node: &XmlNode<'_>, has_root: bool) -> (r: bool)
    ensures
        r == document_misc(node@, has_root),
{
    match node {
        XmlNode::Text(value) => is_blank(text::text_str(value)),
        XmlNode::Comment(_) => true,
        XmlNode::ProcessingInstruction(_) => true,
        XmlNode::Declaration(_) => !has_root,
        XmlNode::DocType(_) => !has_root,
        XmlNode::CData(_) => false,
        XmlNode::EntityRef(_) => false,
        XmlNode::Element(_) => false,
    }
}

/// The node that a reference `&entity;` in the content of an element becomes.
pub open spec fn reference_node(entity: Seq<char>, position: u64) -> Result<NodeView, ErrorView> {
    match lexical::standard_entity(entity) {
        Some(resolved) => Ok(NodeView::Text(resolved)),
        None => if entity.len() > 0 && entity[0] == '#' {
            match lexical::character_reference(entity, position) {
                Ok(decoded) => Ok(NodeView::Text(decoded)),
                Err(e) => Err(e),
            }
        } else if lexical::xml_name(entity) {
            Ok(NodeView::EntityRef(entity))
        } else {
            Err(ErrorView::InvalidEntityReference { reference: entity, position })
        },
    }
}

/// The node that a reference becomes.
pub fn general_ref_node<'a>(entity: Cow<'a, str>, position: u64) -> (r: Result<XmlNode<'a>, Error>)
    ensures
        error::outcome(r) == reference_node(entity@, position),
        r matches Ok(node) ==> entity is Borrowed ==> forall|owned: Seq<char>| #[trigger]
            borrowing::node_owns(node, owned) ==> borrowing::reference_copied(
                entity@,
                position,
                owned,
            ),
{
    if let Some(resolved) = lexical::resolve_standard_entity(text::text_str(&entity)) {
        return Ok(XmlNode::Text(Cow::Borrowed(resolved)));
    }
    let chars = text::chars_of(text::text_str(&entity));
    if chars.len() > 0 && chars[0] == '#' {
        let decoded = lexical::decode_character_reference(entity, position)?;
        Ok(XmlNode::Text(decoded))
    } else {
        lexical::ensure_entity_name(text::text_str(&entity), position)?;
        Ok(XmlNode::EntityRef(entity))
    }
}

/// An element with one more child.
pub open spec fn with_child(parent: ElementView, child: NodeView) -> ElementView {
    ElementView { children: parent.children.push(child), ..parent }
}

/// A stack of open elements, with one more child in the innermost.
pub open spec fn with_inner_child(stack: Seq<ElementView>, child: NodeView) -> Seq<ElementView> {
    stack.drop_last().push(with_child(stack.last(), child))
}

/// Adds a child to the innermost open element.
fn push_child<'a>(stack: &mut Vec<XmlElement<'a>>, child: XmlNode<'a>)
    requires
        old(stack)@.len() > 0,
    ensures
        document::views(final(stack)@) == with_inner_child(document::views(old(stack)@), child@),
        forall|owned: Seq<char>| #[trigger]
            borrowing::stack_owns(final(stack)@, owned) ==> borrowing::stack_owns(
                old(stack)@,
                owned,
            ) || borrowing::node_owns(child, owned),
{
    let ghost before = stack@;
    if let Some(parent) = stack.pop() {
        let XmlElement { name, attributes, mut children, span } = parent;
        proof {
            document::lemma_nodes_model(children@);
            document::lemma_nodes_model(children@.push(child));
            document::lemma_views_push(children@, child);
            borrowing::lemma_nodes_push(children@, child);
            borrowing::lemma_stack_last(before);
        }
        children.push(child);
        let parent = XmlElement { name, attributes, children, span };
        assert(parent@ == with_child(before.last()@, child@));
        assert(document::views(before.drop_last()) =~= document::views(before).drop_last());
        proof {
            document::lemma_views_push(stack@, parent);
            borrowing::lemma_stack_push(stack@, parent);
        }
        stack.push(parent);
    }
}

/// Puts a finished element where it belongs: into the innermost open element, or at
/// the root.
pub fn append_element<'a>(
    stack: &mut Vec<XmlElement<'a>>,
    root: &mut Option<XmlElement<'a>>,
    element: XmlElement<'a>,
) -> (r: Result<(), Error>)
    ensures
        old(stack)@.len() > 0 ==> {
            &&& r is Ok
            &&& document::views(final(stack)@) == with_inner_child(
                document::views(old(stack)@),
                NodeView::Element(element@),
            )
            &&& *final(root) == *old(root)
            &&& forall|owned: Seq<char>| #[trigger]
                borrowing::stack_owns(final(stack)@, owned) ==> borrowing::stack_owns(
                    old(stack)@,
                    owned,
                ) || borrowing::element_owns(element, owned)
        },
        old(stack)@.len() == 0 && *old(root) is None ==> {
            &&& r is Ok
            &&& final(stack)@ == old(stack)@
            &&& *final(root) == Some(element)
        },
        old(stack)@.len() == 0 && *old(root) is Some ==> {
            &&& error::outcome(r) == Err::<(), ErrorView>(ErrorView::MultipleRoots)
            &&& final(stack)@ == old(stack)@
            &&& *final(root) == *old(root)
        },
{
    if stack.len() > 0 {
        let child = XmlNode::Element(element);
        assert(forall|owned: Seq<char>| #[trigger]
            borrowing::node_owns(child, owned) ==> borrowing::element_owns(element, owned));
        push_child(stack, child);
    } else if root.is_some() {
        return Err(Error::MultipleRoots);
    } else {
        *root = Some(element);
    }
    Ok(())
}

/// Puts a node where it belongs: into the innermost open element, or before or behind
/// the root.
pub fn append_node<'a>(
    stack: &mut Vec<XmlElement<'a>>,
    has_root: bool,
    prolog: &mut Vec<XmlNode<'a>>,
    epilog: &mut Vec<XmlNode<'a>>,
    node: XmlNode<'a>,
    position: u64,
) -> (r: Result<(), Error>)
    ensures
        old(stack)@.len() > 0 ==> {
            &&& r is Ok
            &&& document::views(final(stack)@) == with_inner_child(
                document::views(old(stack)@),
                node@,
            )
            &&& final(prolog)@ == old(prolog)@
            &&& final(epilog)@ == old(epilog)@
            &&& forall|owned: Seq<char>| #[trigger]
                borrowing::stack_owns(final(stack)@, owned) ==> borrowing::stack_owns(
                    old(stack)@,
                    owned,
                ) || borrowing::node_owns(node, owned)
        },
        old(stack)@.len() == 0 && document_misc(node@, has_root) ==> {
            &&& r is Ok
            &&& final(stack)@ == old(stack)@
            &&& final(prolog)@ == (if has_root {
                old(prolog)@
            } else {
                old(prolog)@.push(node)
            })
            &&& final(epilog)@ == (if has_root {
                old(epilog)@.push(node)
            } else {
                old(epilog)@
            })
        },
        old(stack)@.len() == 0 && !document_misc(node@, has_root) ==> {
            &&& error::outcome(r) == Err::<(), ErrorView>(ErrorView::ContentOutsideRoot { position })
            &&& final(stack)@ == old(stack)@
            &&& final(prolog)@ == old(prolog)@
            &&& final(epilog)@ == old(epilog)@
        },
{
    if stack.len() > 0 {
        push_child(stack, node);
        return Ok(());
    }
    if is_document_misc(&node, has_root) {
        if has_root {
            epilog.push(node);
        } else {
            prolog.push(node);
        }
        return Ok(());
    }
    Err(Error::ContentOutsideRoot { position })
}

} // verus!
