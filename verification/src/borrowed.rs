//! What a document that is plainly written borrows.

use crate::document::{AdfDocument, XmlNode};
use crate::reader::{EventView, RawAttribute, ReadStep, TagView};
use crate::{borrowing, reader};
use vstd::prelude::*;
use vstd::utf8::*;

verus! {

/// A text is written without ampersands.
pub open spec fn no_ampersand(item: Option<RawAttribute>) -> bool {
    item matches Some(raw) ==> forall|i: int|
        0 <= i < decode_utf8(raw.value).len() ==> #[trigger] decode_utf8(raw.value)[i] != '&'
}

/// The values of the attributes of a tag are written without references.
pub open spec fn plain_tag(tag: TagView) -> bool {
    forall|i: int|
        0 <= i < reader::tag_attributes(tag.content, tag.name_len).len() ==> no_ampersand(
            #[trigger] reader::tag_attributes(tag.content, tag.name_len)[i],
        )
}

/// What an event holds is written as it is read: there are no references to characters by
/// number and none in attributes, no carriage returns, no characters of the two blocks in
/// which the other line ends lie, and it is no declaration or processing instruction.
pub open spec fn plain(event: EventView) -> bool {
    match event {
        EventView::Start(tag) => plain_tag(tag),
        EventView::Empty(tag) => plain_tag(tag),
        EventView::Text(bytes) => forall|i: int|
            0 <= i < decode_utf8(bytes).len() ==> {
                let ch = #[trigger] decode_utf8(bytes)[i];
                ch != '\r' && !('\u{80}' <= ch <= '\u{bf}') && !('\u{2000}' <= ch <= '\u{2fff}')
            },
        EventView::PI(_) => false,
        EventView::Decl(_) => false,
        EventView::GeneralRef(bytes) => decode_utf8(bytes).len() == 0 || decode_utf8(bytes)[0]
            != '#',
        _ => true,
    }
}

/// All reads of a document are plain.
pub open spec fn all_plain(steps: Seq<ReadStep>) -> bool {
    forall|i: int|
        0 <= i < steps.len() ==> ((#[trigger] steps[i]).event matches Some(event) ==> plain(event))
}

/// Nothing is copied of a plain event.
pub proof fn law_plain_event_is_not_copied(event: EventView, position: u64, owned: Seq<char>)
    requires
        plain(event),
    ensures
        !borrowing::event_copied(event, position, owned),
{
    match event {
        EventView::Start(tag) => {
            lemma_plain_tag(tag, position, owned);
        },
        EventView::Empty(tag) => {
            lemma_plain_tag(tag, position, owned);
        },
        _ => {},
    }
}

proof fn lemma_plain_tag(tag: TagView, position: u64, owned: Seq<char>)
    requires
        plain_tag(tag),
    ensures
        !borrowing::tag_copied(tag, position, owned),
{
    let items = reader::tag_attributes(tag.content, tag.name_len);
    assert forall|i: int| 0 <= i < items.len() implies !borrowing::value_copied(
        #[trigger] items[i],
        position,
        owned,
    ) by {
        assert(no_ampersand(items[i]));
    }
}

/// A node is no text of its own: it is an element, or its text is borrowed.
pub open spec fn borrows_text(node: XmlNode<'_>) -> bool {
    match node {
        XmlNode::Element(element) => {
            &&& element.name is Borrowed
            &&& forall|i: int|
                0 <= i < element.attributes@.len() ==> {
                    &&& (#[trigger] element.attributes@[i]).name is Borrowed
                    &&& element.attributes@[i].value is Borrowed
                }
        },
        XmlNode::Text(text) => text is Borrowed,
        XmlNode::CData(text) => text is Borrowed,
        XmlNode::Comment(text) => text is Borrowed,
        XmlNode::ProcessingInstruction(text) => text is Borrowed,
        XmlNode::Declaration(text) => text is Borrowed,
        XmlNode::DocType(text) => text is Borrowed,
        XmlNode::EntityRef(text) => text is Borrowed,
    }
}

proof fn lemma_borrows_text(nodes: Seq<XmlNode<'_>>, i: int)
    requires
        0 <= i < nodes.len(),
        forall|owned: Seq<char>| !#[trigger] borrowing::nodes_own(nodes, owned),
    ensures
        borrows_text(nodes[i]),
{
    let node = nodes[i];
    assert forall|owned: Seq<char>| !#[trigger] borrowing::node_owns(node, owned) by {
        if borrowing::node_owns(nodes[i], owned) {
            assert(borrowing::nodes_own(nodes, owned));
        }
    }
    match node {
        XmlNode::Element(element) => {
            assert(!borrowing::node_owns(node, element.name@));
            assert(!borrowing::text_owns(element.name, element.name@));
            assert forall|j: int| 0 <= j < element.attributes@.len() implies {
                &&& (#[trigger] element.attributes@[j]).name is Borrowed
                &&& element.attributes@[j].value is Borrowed
            } by {
                let attribute = element.attributes@[j];
                assert(!borrowing::node_owns(node, attribute.name@));
                assert(!borrowing::node_owns(node, attribute.value@));
                assert(!borrowing::attributes_own(element.attributes@, attribute.name@));
                assert(!borrowing::attributes_own(element.attributes@, attribute.value@));
                assert(!borrowing::text_owns(attribute.name, attribute.name@));
                assert(!borrowing::text_owns(attribute.value, attribute.value@));
            }
        },
        XmlNode::Text(text) => {
            assert(!borrowing::node_owns(node, text@));
        },
        XmlNode::CData(text) => {
            assert(!borrowing::node_owns(node, text@));
        },
        XmlNode::Comment(text) => {
            assert(!borrowing::node_owns(node, text@));
        },
        XmlNode::ProcessingInstruction(text) => {
            assert(!borrowing::node_owns(node, text@));
        },
        XmlNode::Declaration(text) => {
            assert(!borrowing::node_owns(node, text@));
        },
        XmlNode::DocType(text) => {
            assert(!borrowing::node_owns(node, text@));
        },
        XmlNode::EntityRef(text) => {
            assert(!borrowing::node_owns(node, text@));
        },
    }
}

/// A document that owns only what cannot be borrowed, and is read from plain events, owns
/// nothing: it borrows the text that it was parsed from, the nodes before and behind the
/// root, and the attributes and extensions of the model.
pub proof fn law_plain_document_is_borrowed(document: AdfDocument<'_>, steps: Seq<ReadStep>)
    requires
        borrowing::document_borrows(document, steps),
        all_plain(steps),
    ensures
        forall|owned: Seq<char>| !#[trigger] borrowing::document_owns(document, owned),
        document.original is Borrowed,
        forall|i: int|
            0 <= i < document.prolog@.len() ==> borrows_text(#[trigger] document.prolog@[i]),
        forall|i: int|
            0 <= i < document.epilog@.len() ==> borrows_text(#[trigger] document.epilog@[i]),
        forall|i: int|
            0 <= i < document.adf.extensions@.len() ==> borrows_text(
                #[trigger] document.adf.extensions@[i],
            ),
        forall|i: int|
            0 <= i < document.adf.attributes@.len() ==> {
                &&& (#[trigger] document.adf.attributes@[i]).name is Borrowed
                &&& document.adf.attributes@[i].value is Borrowed
            },
{
    assert forall|owned: Seq<char>| !#[trigger] borrowing::document_owns(document, owned) by {
        if borrowing::document_owns(document, owned) {
            assert(borrowing::steps_copied(steps, owned));
            let i = choose|i: int|
                0 <= i < steps.len() && (#[trigger] steps[i]).event is Some
                    && borrowing::event_copied(steps[i].event->0, 0, owned);
            law_plain_event_is_not_copied(steps[i].event->0, 0, owned);
        }
    }
    assert(!borrowing::document_owns(document, document.original@));
    assert(!borrowing::text_owns(document.original, document.original@));
    assert forall|owned: Seq<char>| !#[trigger]
        borrowing::nodes_own(document.prolog@, owned) by {
        assert(!borrowing::document_owns(document, owned));
    }
    assert forall|owned: Seq<char>| !#[trigger]
        borrowing::nodes_own(document.epilog@, owned) by {
        assert(!borrowing::document_owns(document, owned));
    }
    assert forall|owned: Seq<char>| !#[trigger]
        borrowing::nodes_own(document.adf.extensions@, owned) by {
        assert(!borrowing::document_owns(document, owned));
    }
    assert forall|i: int| 0 <= i < document.prolog@.len() implies borrows_text(
        #[trigger] document.prolog@[i],
    ) by {
        lemma_borrows_text(document.prolog@, i);
    }
    assert forall|i: int| 0 <= i < document.epilog@.len() implies borrows_text(
        #[trigger] document.epilog@[i],
    ) by {
        lemma_borrows_text(document.epilog@, i);
    }
    assert forall|i: int| 0 <= i < document.adf.extensions@.len() implies borrows_text(
        #[trigger] document.adf.extensions@[i],
    ) by {
        lemma_borrows_text(document.adf.extensions@, i);
    }
    let attributes = document.adf.attributes@;
    assert forall|i: int| 0 <= i < attributes.len() implies {
        &&& (#[trigger] attributes[i]).name is Borrowed
        &&& attributes[i].value is Borrowed
    } by {
        assert(!borrowing::document_owns(document, attributes[i].name@));
        assert(!borrowing::document_owns(document, attributes[i].value@));
        assert(!borrowing::attributes_own(attributes, attributes[i].name@));
        assert(!borrowing::attributes_own(attributes, attributes[i].value@));
        assert(!borrowing::text_owns(attributes[i].name, attributes[i].name@));
        assert(!borrowing::text_owns(attributes[i].value, attributes[i].value@));
    }
}

} // verus!
