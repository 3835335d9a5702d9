//! What a parsed tree is made of: characters that XML allows, and references to
//! entities whose names are XML names.

use crate::document::{AttributeView, NodeView, Span};
use crate::options::ParseOptions;
use crate::order::Item;
use crate::reader::{EventView, RawAttribute, ReadStep, TagView};
use crate::{builder, lexical, order, reader, tree};
use vstd::prelude::*;
use vstd::utf8::*;

verus! {

/// The texts of an item are made of the characters that XML allows, and an entity that
/// it refers to has an XML name.
pub open spec fn legal_item(item: Item) -> bool {
    match item {
        Item::Open { attributes, .. } => legal_values(attributes),
        Item::Close { .. } => true,
        Item::Leaf(node) => match node {
            NodeView::Text(value) => lexical::xml_text(value),
            NodeView::CData(value) => lexical::xml_text(value),
            NodeView::Comment(value) => lexical::xml_text(value),
            NodeView::ProcessingInstruction(value) => lexical::xml_text(value),
            NodeView::Declaration(value) => lexical::xml_text(value),
            NodeView::DocType(value) => lexical::xml_text(value),
            NodeView::EntityRef(name) => lexical::xml_name(name),
            NodeView::Element(_) => false,
        },
    }
}

/// The values of attributes are made of the characters that XML allows.
pub open spec fn legal_values(attributes: Seq<AttributeView>) -> bool {
    forall|i: int| 0 <= i < attributes.len() ==> lexical::xml_text(#[trigger] attributes[i].value)
}

/// Every item is legal.
pub open spec fn legal_items(items: Seq<Item>) -> bool {
    forall|i: int| 0 <= i < items.len() ==> legal_item(#[trigger] items[i])
}

proof fn lemma_text_concat(a: Seq<char>, b: Seq<char>)
    requires
        lexical::xml_text(a),
        lexical::xml_text(b),
    ensures
        lexical::xml_text(a + b),
{
    assert forall|i: int| 0 <= i < (a + b).len() implies lexical::xml_char(#[trigger] (a + b)[i]) by {
        if i < a.len() {
            assert((a + b)[i] == a[i]);
        } else {
            assert((a + b)[i] == b[i - a.len()]);
        }
    }
}

proof fn lemma_text_subrange(s: Seq<char>, from: int, to: int)
    requires
        lexical::xml_text(s),
        0 <= from <= to <= s.len(),
    ensures
        lexical::xml_text(s.subrange(from, to)),
{
    let part = s.subrange(from, to);
    assert forall|i: int| 0 <= i < part.len() implies lexical::xml_char(#[trigger] part[i]) by {
        assert(part[i] == s[from + i]);
    }
}

/// What a predefined entity stands for is made of legal characters.
proof fn lemma_standard_entity(name: Seq<char>)
    ensures
        lexical::standard_entity(name) matches Some(value) ==> lexical::xml_text(value),
{
    reveal_strlit("&");
    reveal_strlit("<");
    reveal_strlit(">");
    reveal_strlit("\"");
    reveal_strlit("'");
}

/// What a reference in an attribute value becomes is made of legal characters.
proof fn lemma_reference_text(entity: Seq<char>, position: u64)
    requires
        lexical::xml_text(entity),
    ensures
        lexical::reference_text(entity, position) matches Ok(value) ==> lexical::xml_text(value),
{
    lemma_standard_entity(entity);
    reveal_strlit("&");
    reveal_strlit(";");
    lemma_text_concat("&"@, entity);
    lemma_text_concat("&"@ + entity, ";"@);
}

/// Decoding the references of a legal value gives a legal value.
pub proof fn lemma_decoded_references(s: Seq<char>, position: u64)
    requires
        lexical::xml_text(s),
    ensures
        lexical::decoded_references(s, position) matches Ok(value) ==> lexical::xml_text(value),
    decreases s.len(),
{
    lexical::lemma_until(s, '&');
    let start = lexical::until(s, '&') as int;
    if start < s.len() {
        let after = s.skip(start + 1);
        lexical::lemma_until(after, ';');
        let end = lexical::until(after, ';') as int;
        if end < after.len() {
            lemma_text_subrange(s, start + 1, s.len() as int);
            lemma_text_subrange(after, 0, end);
            lemma_text_subrange(after, end + 1, after.len() as int);
            lemma_text_subrange(s, 0, start);
            lemma_reference_text(after.take(end), position);
            lemma_decoded_references(after.skip(end + 1), position);
            if let Ok(decoded) = lexical::reference_text(after.take(end), position) {
                if let Ok(rest) = lexical::decoded_references(after.skip(end + 1), position) {
                    lemma_text_concat(s.take(start), decoded);
                    lemma_text_concat(s.take(start) + decoded, rest);
                }
            }
        }
    }
}

/// The attributes that a tag gives have legal values.
proof fn lemma_collected_values(
    items: Seq<Option<RawAttribute>>,
    limit: Option<usize>,
    position: u64,
    done: Seq<AttributeView>,
)
    requires
        legal_values(done),
    ensures
        tree::collected_attributes(items, limit, position, done) matches Ok(attributes)
            ==> legal_values(attributes),
    decreases items.len(),
{
    if items.len() > 0 {
        if let Some(raw) = items[0] {
            if let (Ok(name), Ok(value)) = (
                tree::name_text(raw.key, position),
                lexical::attribute_value(raw.value, position),
            ) {
                let text = decode_utf8(raw.value);
                lexical::lemma_illegal_char(text);
                lemma_decoded_references(text, position);
                let next = done.push(AttributeView { name, value });
                assert(legal_values(next)) by {
                    assert forall|i: int| 0 <= i < next.len() implies lexical::xml_text(
                        #[trigger] next[i].value,
                    ) by {
                        if i < done.len() {
                            assert(next[i] == done[i]);
                        }
                    }
                }
                lemma_collected_values(items.drop_first(), limit, position, next);
            }
        }
    }
}

/// The node of an event is legal.
proof fn lemma_event_node(event: EventView, options: ParseOptions)
    requires
        !(event is Start || event is Empty || event is End || event is Eof),
    ensures
        builder::event_node(event, true, options, 0) matches Ok(node) ==> legal_item(
            Item::Leaf(node),
        ),
{
    match event {
        EventView::Text(bytes) => {
            lexical::lemma_illegal_char(
                reader::normalized_eols(decode_utf8(bytes)),
            );
        },
        EventView::CData(bytes) => {
            lexical::lemma_illegal_char(decode_utf8(bytes));
        },
        EventView::Comment(bytes) => {
            lexical::lemma_illegal_char(decode_utf8(bytes));
        },
        EventView::PI(bytes) => {
            lexical::lemma_illegal_char(decode_utf8(bytes));
        },
        EventView::Decl(bytes) => {
            lexical::lemma_illegal_char(decode_utf8(bytes));
        },
        EventView::DocType(bytes) => {
            lexical::lemma_illegal_char(decode_utf8(bytes));
        },
        EventView::GeneralRef(bytes) => {
            lemma_standard_entity(decode_utf8(bytes));
        },
        _ => {},
    }
}

/// The items that the reads of a document stand for are legal.
proof fn lemma_steps_items(steps: Seq<ReadStep>, options: ParseOptions)
    ensures
        legal_items(order::steps_items(steps, options)),
    decreases steps.len(),
{
    match reader::next_step(steps) {
        None => {},
        Some(EventView::Eof) => {},
        Some(event) => {
            let here = order::event_items(event, options);
            let rest = order::steps_items(steps.drop_first(), options);
            assert(legal_items(here)) by {
                match event {
                    EventView::Start(tag) => {
                        lemma_tag(tag, options);
                    },
                    EventView::Empty(tag) => {
                        lemma_tag(tag, options);
                    },
                    EventView::End(_) => {},
                    EventView::Eof => {},
                    _ => {
                        lemma_event_node(event, options);
                    },
                }
            }
            lemma_steps_items(steps.drop_first(), options);
            assert forall|i: int| 0 <= i < (here + rest).len() implies legal_item(
                #[trigger] (here + rest)[i],
            ) by {
                if i < here.len() {
                    assert((here + rest)[i] == here[i]);
                } else {
                    assert((here + rest)[i] == rest[i - here.len()]);
                }
            }
        },
    }
}

/// The element of a tag has legal attribute values.
proof fn lemma_tag(tag: TagView, options: ParseOptions)
    ensures
        tree::tag_element(tag, options, 0, Span { start: 0, end: 0 }) matches Ok(element)
            ==> legal_values(element.attributes),
{
    lemma_collected_values(
        reader::tag_attributes(tag.content, tag.name_len),
        options.max_attributes_per_element,
        0,
        seq![],
    );
}

/// A tree that comes out of parsing is made of characters that XML allows, and refers
/// only to entities whose names are XML names.
pub proof fn law_tree_is_legal(input: Seq<char>, options: ParseOptions)
    ensures
        builder::document_tree(input, options) matches Ok(parsed) ==> legal_items(
            order::tree_items(parsed),
        ),
{
    order::law_tree_keeps_document(input, options);
    lemma_steps_items(reader::document_steps(input, false, true), options);
}

} // verus!
