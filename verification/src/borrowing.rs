//! What a parsed document owns. A text of it is borrowed from the input but where the
//! document spells it otherwise: line ends that are normalized, references that are
//! decoded, and the payloads of declarations and processing instructions, which are
//! always copied.

use crate::builder::TreeBuilder;
use crate::document::{AdfDocument, Attribute, AttributeView, Span, XmlElement, XmlNode};
use crate::error::ErrorView;
use crate::options::ParseOptions;
use crate::reader::{EventView, RawAttribute, ReadStep, TagView, XmlEvent};
use crate::tree::ParsedDocumentTree;
use crate::{document, lexical, ownership, reader, tree};
use std::borrow::Cow;
use vstd::prelude::*;
use vstd::utf8::*;

verus! {

/// A text is owned, and it is this one.
pub open spec fn text_owns(text: Cow<'_, str>, owned: Seq<char>) -> bool {
    text is Owned && text@ == owned
}

/// A text, if there is any, is owned, and it is this one.
pub open spec fn slot_owns(text: Option<Cow<'_, str>>, owned: Seq<char>) -> bool {
    text matches Some(text) && text_owns(text, owned)
}

/// One of the names and values of some attributes is owned, and it is this one.
pub open spec fn attributes_own(attributes: Seq<Attribute<'_>>, owned: Seq<char>) -> bool {
    exists|i: int|
        #![trigger attributes[i]]
        0 <= i < attributes.len() && (text_owns(attributes[i].name, owned) || text_owns(
            attributes[i].value,
            owned,
        ))
}

/// One of the texts of an element is owned, and it is this one.
pub open spec fn element_owns(element: XmlElement<'_>, owned: Seq<char>) -> bool
    decreases element,
{
    ||| text_owns(element.name, owned)
    ||| attributes_own(element.attributes@, owned)
    ||| nodes_own(element.children@, owned)
}

/// One of the texts of some nodes is owned, and it is this one.
pub open spec fn nodes_own(nodes: Seq<XmlNode<'_>>, owned: Seq<char>) -> bool
    decreases nodes,
{
    exists|i: int| 0 <= i < nodes.len() && node_owns(#[trigger] nodes[i], owned)
}

/// One of the texts of a node is owned, and it is this one.
pub open spec fn node_owns(node: XmlNode<'_>, owned: Seq<char>) -> bool
    decreases node,
{
    match node {
        XmlNode::Element(element) => element_owns(element, owned),
        XmlNode::Text(text) => text_owns(text, owned),
        XmlNode::CData(text) => text_owns(text, owned),
        XmlNode::Comment(text) => text_owns(text, owned),
        XmlNode::ProcessingInstruction(text) => text_owns(text, owned),
        XmlNode::Declaration(text) => text_owns(text, owned),
        XmlNode::DocType(text) => text_owns(text, owned),
        XmlNode::EntityRef(text) => text_owns(text, owned),
    }
}

/// One of the texts of some elements is owned, and it is this one.
pub open spec fn stack_owns(stack: Seq<XmlElement<'_>>, owned: Seq<char>) -> bool {
    exists|i: int| 0 <= i < stack.len() && element_owns(#[trigger] stack[i], owned)
}

/// One of the texts of a root, if there is one, is owned, and it is this one.
pub open spec fn root_owns(root: Option<XmlElement<'_>>, owned: Seq<char>) -> bool {
    root matches Some(root) && element_owns(root, owned)
}

/// One of the texts of a document that is being read is owned, and it is this one.
pub open spec fn builder_owns(builder: TreeBuilder<'_>, owned: Seq<char>) -> bool {
    ||| stack_owns(builder.stack@, owned)
    ||| root_owns(builder.root, owned)
    ||| nodes_own(builder.prolog@, owned)
    ||| nodes_own(builder.epilog@, owned)
}

/// One of the texts of a tree is owned, and it is this one.
pub open spec fn tree_owns(parsed: ParsedDocumentTree<'_>, owned: Seq<char>) -> bool {
    ||| element_owns(parsed.root, owned)
    ||| nodes_own(parsed.prolog@, owned)
    ||| nodes_own(parsed.epilog@, owned)
}

/// One of the texts of a document is owned, and it is this one.
pub open spec fn document_owns(document: AdfDocument<'_>, owned: Seq<char>) -> bool {
    ||| text_owns(document.original, owned)
    ||| root_owns(document.raw_root, owned)
    ||| nodes_own(document.prolog@, owned)
    ||| nodes_own(document.epilog@, owned)
    ||| ownership::adf_owns(document.adf, owned)
}

/// A value of an attribute has references, and this is what it becomes.
pub open spec fn value_copied(
    item: Option<RawAttribute>,
    position: u64,
    owned: Seq<char>,
) -> bool {
    item matches Some(raw) && !lexical::without_reference(raw.value) && lexical::attribute_value(
        raw.value,
        position,
    ) == Ok::<Seq<char>, ErrorView>(owned)
}

/// One of the values of the attributes of a tag has references, and this is what it
/// becomes.
pub open spec fn tag_copied(tag: TagView, position: u64, owned: Seq<char>) -> bool {
    exists|i: int|
        0 <= i < reader::tag_attributes(tag.content, tag.name_len).len() && value_copied(
            #[trigger] reader::tag_attributes(tag.content, tag.name_len)[i],
            position,
            owned,
        )
}

/// A reference to a character, and this is the character.
pub open spec fn reference_copied(entity: Seq<char>, position: u64, owned: Seq<char>) -> bool {
    &&& lexical::standard_entity(entity) is None
    &&& entity.len() > 0
    &&& entity[0] == '#'
    &&& lexical::character_reference(entity, position) == Ok::<Seq<char>, ErrorView>(owned)
}

/// An event gives a text that cannot be borrowed, and it is this one.
pub open spec fn event_copied(event: EventView, position: u64, owned: Seq<char>) -> bool {
    match event {
        EventView::Start(tag) => tag_copied(tag, position, owned),
        EventView::Empty(tag) => tag_copied(tag, position, owned),
        EventView::Text(bytes) => {
            &&& !reader::without_eols(decode_utf8(bytes))
            &&& reader::normalized_eols(decode_utf8(bytes)) == owned
        },
        EventView::PI(bytes) => decode_utf8(bytes) == owned,
        EventView::Decl(bytes) => decode_utf8(bytes) == owned,
        EventView::GeneralRef(bytes) => reference_copied(decode_utf8(bytes), position, owned),
        _ => false,
    }
}

/// One of the reads of a document gives a text that cannot be borrowed, and it is this
/// one.
pub open spec fn steps_copied(steps: Seq<ReadStep>, owned: Seq<char>) -> bool {
    exists|i: int|
        0 <= i < steps.len() && (#[trigger] steps[i]).event is Some && event_copied(
            steps[i].event->0,
            0,
            owned,
        )
}

/// A tree owns only what cannot be borrowed.
pub open spec fn tree_borrows(parsed: ParsedDocumentTree<'_>, steps: Seq<ReadStep>) -> bool {
    forall|owned: Seq<char>| #[trigger] tree_owns(parsed, owned) ==> steps_copied(steps, owned)
}

/// A document owns only what cannot be borrowed.
pub open spec fn document_borrows(document: AdfDocument<'_>, steps: Seq<ReadStep>) -> bool {
    forall|owned: Seq<char>|
        #[trigger] document_owns(document, owned) ==> steps_copied(steps, owned)
}

/// The bytes of an event are borrowed, and those of a tag stand in the input behind its
/// opening bracket, which is at `start`.
pub open spec fn event_stands(event: XmlEvent<'_>, input: Seq<char>, start: usize) -> bool {
    &&& reader::borrows_bytes(event)
    &&& match event {
        XmlEvent::Start(tag) => tag_stands(reader::tag_content(tag), input, start),
        XmlEvent::Empty(tag) => tag_stands(reader::tag_content(tag), input, start),
        _ => true,
    }
}

/// The bytes of a tag stand in the input behind its opening bracket.
pub open spec fn tag_stands(content: Seq<u8>, input: Seq<char>, start: usize) -> bool {
    tree::occurs_at(encode_utf8(input), start + tree::tag_shift_of(input), content)
}

/// The attributes of a tag are those that the iterator gives, decoded.
proof fn lemma_collected(
    items: Seq<Option<RawAttribute>>,
    limit: Option<usize>,
    position: u64,
    done: Seq<AttributeView>,
)
    ensures
        tree::collected_attributes(items, limit, position, done) matches Ok(attributes) ==> {
            &&& attributes.len() == done.len() + items.len()
            &&& forall|i: int| 0 <= i < done.len() ==> attributes[i] == #[trigger] done[i]
            &&& forall|i: int|
                0 <= i < items.len() ==> (#[trigger] items[i]) is Some
                    && lexical::attribute_value(items[i]->0.value, position) == Ok::<
                    Seq<char>,
                    ErrorView,
                >(attributes[done.len() + i].value)
        },
    decreases items.len(),
{
    if let Ok(attributes) = tree::collected_attributes(items, limit, position, done) {
        if items.len() > 0 {
            let raw = items[0]->0;
            let name = tree::name_text(raw.key, position)->Ok_0;
            let value = lexical::attribute_value(raw.value, position)->Ok_0;
            let next = done.push(AttributeView { name, value });
            let rest = items.drop_first();
            lemma_collected(rest, limit, position, next);
            assert forall|i: int| 0 <= i < done.len() implies attributes[i]
                == #[trigger] done[i] by {
                assert(next[i] == done[i]);
            }
            assert forall|i: int| 0 <= i < items.len() implies (#[trigger] items[i]) is Some
                && lexical::attribute_value(items[i]->0.value, position) == Ok::<
                Seq<char>,
                ErrorView,
            >(attributes[done.len() + i].value) by {
                if i == 0 {
                    assert(attributes[done.len() as int] == next[done.len() as int]);
                } else {
                    assert(rest[i - 1] == items[i]);
                }
            }
        }
    }
}

/// An element that borrows its tag owns only the values that have references.
pub proof fn lemma_tag_element_owns(
    element: XmlElement<'_>,
    tag: TagView,
    options: ParseOptions,
    position: u64,
    span: Span,
)
    requires
        tree::tag_element(tag, options, position, span) == Ok::<_, ErrorView>(element@),
        tree::borrows(element, reader::tag_attributes(tag.content, tag.name_len)),
    ensures
        forall|owned: Seq<char>| #[trigger]
            element_owns(element, owned) ==> tag_copied(tag, position, owned),
{
    let items = reader::tag_attributes(tag.content, tag.name_len);
    lemma_collected(items, options.max_attributes_per_element, position, seq![]);
    document::lemma_nodes_model(element.children@);
    assert(element.children@.len() == element@.children.len());
    assert forall|owned: Seq<char>| #[trigger] element_owns(element, owned) implies tag_copied(
        tag,
        position,
        owned,
    ) by {
        assert(!nodes_own(element.children@, owned));
        let i = choose|i: int|
            #![trigger element.attributes@[i]]
            0 <= i < element.attributes@.len() && (text_owns(
                element.attributes@[i].name,
                owned,
            ) || text_owns(element.attributes@[i].value, owned));
        assert(element@.attributes[i] == element.attributes@[i]@);
        assert(value_copied(items[i], position, owned));
    }
}

/// One more element.
pub proof fn lemma_stack_push(stack: Seq<XmlElement<'_>>, element: XmlElement<'_>)
    ensures
        forall|owned: Seq<char>| #[trigger]
            stack_owns(stack.push(element), owned) ==> stack_owns(stack, owned) || element_owns(
                element,
                owned,
            ),
{
    let all = stack.push(element);
    assert forall|owned: Seq<char>| #[trigger] stack_owns(all, owned) implies stack_owns(
        stack,
        owned,
    ) || element_owns(element, owned) by {
        let i = choose|i: int| 0 <= i < all.len() && element_owns(#[trigger] all[i], owned);
        if i < stack.len() {
            assert(all[i] == stack[i]);
        }
    }
}

/// The outer of some elements, and the innermost.
pub proof fn lemma_stack_last(stack: Seq<XmlElement<'_>>)
    requires
        stack.len() > 0,
    ensures
        forall|owned: Seq<char>| #[trigger]
            stack_owns(stack.drop_last(), owned) ==> stack_owns(stack, owned),
        forall|owned: Seq<char>| #[trigger]
            element_owns(stack.last(), owned) ==> stack_owns(stack, owned),
{
    let outer = stack.drop_last();
    assert forall|owned: Seq<char>| #[trigger] stack_owns(outer, owned) implies stack_owns(
        stack,
        owned,
    ) by {
        let i = choose|i: int| 0 <= i < outer.len() && element_owns(#[trigger] outer[i], owned);
        assert(stack[i] == outer[i]);
    }
    assert forall|owned: Seq<char>| #[trigger] element_owns(stack.last(), owned) implies stack_owns(
        stack,
        owned,
    ) by {
        assert(stack[stack.len() - 1] == stack.last());
    }
}

/// One more node.
pub proof fn lemma_nodes_push(nodes: Seq<XmlNode<'_>>, node: XmlNode<'_>)
    ensures
        forall|owned: Seq<char>| #[trigger]
            nodes_own(nodes.push(node), owned) ==> nodes_own(nodes, owned) || node_owns(
                node,
                owned,
            ),
{
    let all = nodes.push(node);
    assert forall|owned: Seq<char>| #[trigger] nodes_own(all, owned) implies nodes_own(
        nodes,
        owned,
    ) || node_owns(node, owned) by {
        let i = choose|i: int| 0 <= i < all.len() && node_owns(#[trigger] all[i], owned);
        if i < nodes.len() {
            assert(all[i] == nodes[i]);
        }
    }
}

/// A tag that is written in the input stands there.
pub proof fn lemma_tag_stands(
    content: Seq<u8>,
    slash: Seq<u8>,
    input: Seq<char>,
    start: usize,
    end: int,
)
    requires
        start < end <= reader::body(encode_utf8(input)).len(),
        reader::body(encode_utf8(input)).subrange(start as int, end) == seq![0x3Cu8] + content
            + slash + seq![0x3Eu8],
        slash.len() > 0 ==> slash[0] == 0x2F,
    ensures
        tag_stands(content, input, start),
{
    let whole = encode_utf8(input);
    let shift = reader::mark_len(whole);
    let bytes = reader::body(whole).subrange(start as int, end);
    let first = start + shift;
    let last = first + 1 + content.len();
    encode_utf8_valid_utf8(input);
    assert(bytes =~= whole.subrange(first, shift + end));
    assert(whole[first] == bytes[0]);
    assert(whole[last] == bytes[last - first]);
    assert(whole.subrange(first + 1, last) =~= content) by {
        assert forall|i: int| 0 <= i < content.len() implies whole[first + 1 + i] == content[i] by {
            assert(bytes[1 + i] == content[i]);
        }
    }
    is_char_boundary_iff_not_is_continuation_byte(whole, first);
    valid_utf8_split(whole, first);
    let rest = whole.subrange(first, whole.len() as int);
    assert(rest[0] == 0x3C);
    let inner = pop_first_scalar(rest);
    assert(inner =~= whole.subrange(first + 1, whole.len() as int));
    is_char_boundary_iff_not_is_continuation_byte(inner, content.len() as int);
    valid_utf8_split(inner, content.len() as int);
    assert(inner.subrange(0, content.len() as int) =~= content);
}

/// A document that is read from a tree borrows what the tree borrows.
pub proof fn lemma_document_borrows(
    document: AdfDocument<'_>,
    parsed: ParsedDocumentTree<'_>,
    steps: Seq<ReadStep>,
)
    requires
        tree_borrows(parsed, steps),
        document.original is Borrowed,
        document.raw_root is None,
        document.prolog == parsed.prolog,
        document.epilog == parsed.epilog,
        ownership::adf_within(document.adf, parsed.root),
    ensures
        document_borrows(document, steps),
{
    reveal(ownership::adf_within);
    assert forall|owned: Seq<char>| #[trigger] document_owns(document, owned) implies steps_copied(
        steps,
        owned,
    ) by {
        if ownership::adf_owns(document.adf, owned) {
            assert(element_owns(parsed.root, owned));
        }
        assert(tree_owns(parsed, owned));
    }
}

} // verus!
