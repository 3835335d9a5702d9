//! What the typed model owns of the texts that it holds.

use crate::borrowing;
use crate::document::{XmlElement, XmlNode};
use crate::model::{
    Address, Adf, ColorCombination, Contact, Customer, Finance, Id, Name, Price, Prospect,
    Provider, TextElement, TextPart, Timeframe, Vehicle, VehicleOption, Vendor,
};
use std::borrow::Cow;
use vstd::prelude::*;

verus! {

/// One of the texts of a part is owned, and it is this one.
pub open spec fn part_owns(part: TextPart<'_>, owned: Seq<char>) -> bool {
    match part {
        TextPart::Text(text) => borrowing::text_owns(text, owned),
        TextPart::CData(text) => borrowing::text_owns(text, owned),
        TextPart::EntityRef(text) => borrowing::text_owns(text, owned),
        TextPart::Node(node) => borrowing::node_owns(node, owned),
    }
}

/// One of the texts of some parts is owned, and it is this one.
pub open spec fn parts_own(parts: Seq<TextPart<'_>>, owned: Seq<char>) -> bool {
    exists|i: int| 0 <= i < parts.len() && part_owns(#[trigger] parts[i], owned)
}

/// A child of an element owns only what the element owns.
#[verifier::opaque]
pub open spec fn node_within(node: XmlNode<'_>, element: XmlElement<'_>) -> bool {
    forall|owned: Seq<char>| #[trigger]
        borrowing::node_owns(node, owned) ==> borrowing::element_owns(element, owned)
}

/// Some children of an element own only what the element owns.
#[verifier::opaque]
pub open spec fn nodes_within(nodes: Seq<XmlNode<'_>>, element: XmlElement<'_>) -> bool {
    forall|owned: Seq<char>| #[trigger]
        borrowing::nodes_own(nodes, owned) ==> borrowing::element_owns(element, owned)
}

/// The value of an attribute is owned only where an element owns it.
#[verifier::opaque]
pub open spec fn attribute_within(value: Option<Cow<'_, str>>, element: XmlElement<'_>) -> bool {
    forall|owned: Seq<char>| #[trigger]
        borrowing::slot_owns(value, owned) ==> borrowing::element_owns(element, owned)
}

/// An attribute of an element owns only what the element owns.
pub proof fn lemma_attribute_within(value: Option<Cow<'_, str>>, element: XmlElement<'_>)
    requires
        forall|owned: Seq<char>| #[trigger]
            borrowing::slot_owns(value, owned) ==> borrowing::attributes_own(
                element.attributes@,
                owned,
            ),
    ensures
        attribute_within(value, element),
{
    reveal(attribute_within);
}

/// A child of an element owns only what the element owns.
pub proof fn lemma_child_within(element: XmlElement<'_>, i: int)
    requires
        0 <= i < element.children@.len(),
    ensures
        node_within(element.children@[i], element),
{
    reveal(node_within);
}

/// No nodes own nothing.
pub proof fn lemma_no_nodes(nodes: Seq<XmlNode<'_>>, element: XmlElement<'_>)
    requires
        nodes.len() == 0,
    ensures
        nodes_within(nodes, element),
{
    reveal(nodes_within);
}

/// Extensions that take in a child or do not.
pub proof fn lemma_extended(
    before: Seq<XmlNode<'_>>,
    after: Seq<XmlNode<'_>>,
    node: XmlNode<'_>,
    element: XmlElement<'_>,
)
    requires
        nodes_within(before, element),
        node_within(node, element),
        after == before || after == before.push(node),
    ensures
        nodes_within(after, element),
{
    reveal(nodes_within);
    reveal(node_within);
    borrowing::lemma_nodes_push(before, node);
}

/// One of the texts of a text element is owned, and it is this one.
pub open spec fn text_owns(value: TextElement<'_>, owned: Seq<char>) -> bool {
    ||| parts_own(value.parts@, owned)
    ||| borrowing::attributes_own(value.attributes@, owned)
}

/// A text element owns only what an element owns.
#[verifier::opaque]
pub open spec fn text_within(value: TextElement<'_>, element: XmlElement<'_>) -> bool {
    forall|owned: Seq<char>| #[trigger]
        text_owns(value, owned) ==> borrowing::element_owns(element, owned)
}

/// A text element owns what its parts and attributes own.
pub proof fn lemma_text_within(value: TextElement<'_>, element: XmlElement<'_>)
    requires
        forall|owned: Seq<char>| #[trigger]
            parts_own(value.parts@, owned) ==> borrowing::nodes_own(element.children@, owned),
        value.attributes == element.attributes,
    ensures
        text_within(value, element),
{
    reveal(text_within);
}

/// One of the texts of a list of these is owned, and it is this one.
pub open spec fn text_list_owns(list: Seq<TextElement<'_>>, owned: Seq<char>) -> bool {
    exists|i: int| 0 <= i < list.len() && text_owns(#[trigger] list[i], owned)
}

/// A list of these owns only what an element owns.
#[verifier::opaque]
pub open spec fn text_list_within(list: Seq<TextElement<'_>>, element: XmlElement<'_>) -> bool {
    forall|owned: Seq<char>| #[trigger]
        text_list_owns(list, owned) ==> borrowing::element_owns(element, owned)
}

/// An empty list owns nothing.
pub proof fn lemma_text_list_empty(list: Seq<TextElement<'_>>, element: XmlElement<'_>)
    requires
        list.len() == 0,
    ensures
        text_list_within(list, element),
{
    reveal(text_list_within);
}

/// A list takes in one more, which comes from a child.
pub proof fn lemma_text_list_push(
    list: Seq<TextElement<'_>>,
    value: TextElement<'_>,
    child: XmlElement<'_>,
    element: XmlElement<'_>,
)
    requires
        text_list_within(list, element),
        text_within(value, child),
        node_within(XmlNode::Element(child), element),
    ensures
        text_list_within(list.push(value), element),
{
    reveal(text_list_within);
    reveal(text_within);
    reveal(node_within);
    let all = list.push(value);
    assert forall|owned: Seq<char>| #[trigger] text_list_owns(
        all,
        owned,
    ) implies borrowing::element_owns(element, owned) by {
        let i = choose|i: int| 0 <= i < all.len() && text_owns(#[trigger] all[i], owned);
        if i < list.len() {
            assert(all[i] == list[i]);
            assert(text_list_owns(list, owned));
        } else {
            assert(borrowing::node_owns(XmlNode::Element(child), owned));
        }
    }
}

/// One of the texts of one of these, if there is one, is owned, and it is this one.
pub open spec fn text_slot_owns(slot: Option<TextElement<'_>>, owned: Seq<char>) -> bool {
    slot matches Some(value) && text_owns(value, owned)
}

/// One of these, if there is one, owns only what an element owns.
#[verifier::opaque]
pub open spec fn text_slot_within(slot: Option<TextElement<'_>>, element: XmlElement<'_>) -> bool {
    forall|owned: Seq<char>| #[trigger]
        text_slot_owns(slot, owned) ==> borrowing::element_owns(element, owned)
}

/// An empty slot owns nothing.
pub proof fn lemma_text_slot_empty(element: XmlElement<'_>)
    ensures
        text_slot_within(None, element),
{
    reveal(text_slot_within);
}

/// A slot is filled, where it is empty, with what comes from a child.
pub proof fn lemma_text_slot_set(
    before: Option<TextElement<'_>>,
    after: Option<TextElement<'_>>,
    child: XmlElement<'_>,
    element: XmlElement<'_>,
)
    requires
        text_slot_within(before, element),
        node_within(XmlNode::Element(child), element),
        before is Some ==> after == before,
        before is None ==> after is Some && text_within(after->0, child),
    ensures
        text_slot_within(after, element),
{
    reveal(text_slot_within);
    reveal(text_within);
    reveal(node_within);
    assert forall|owned: Seq<char>| #[trigger] text_slot_owns(
        after,
        owned,
    ) implies borrowing::element_owns(element, owned) by {
        if before is None {
            assert(borrowing::node_owns(XmlNode::Element(child), owned));
        } else {
            assert(text_slot_owns(before, owned));
        }
    }
}

/// One of the texts of an identifier is owned, and it is this one.
pub open spec fn id_owns(value: Id<'_>, owned: Seq<char>) -> bool {
    ||| borrowing::slot_owns(value.sequence, owned)
    ||| borrowing::slot_owns(value.source, owned)
    ||| parts_own(value.parts@, owned)
    ||| borrowing::attributes_own(value.attributes@, owned)
}

/// An identifier owns only what an element owns.
#[verifier::opaque]
pub open spec fn id_within(value: Id<'_>, element: XmlElement<'_>) -> bool {
    forall|owned: Seq<char>| #[trigger]
        id_owns(value, owned) ==> borrowing::element_owns(element, owned)
}

/// An identifier owns what its parts and attributes own.
pub proof fn lemma_id_within(value: Id<'_>, element: XmlElement<'_>)
    requires
        forall|owned: Seq<char>| #[trigger]
            borrowing::slot_owns(value.sequence, owned) ==> borrowing::attributes_own(
                element.attributes@,
                owned,
            ),
        forall|owned: Seq<char>| #[trigger]
            borrowing::slot_owns(value.source, owned) ==> borrowing::attributes_own(
                element.attributes@,
                owned,
            ),
        forall|owned: Seq<char>| #[trigger]
            parts_own(value.parts@, owned) ==> borrowing::nodes_own(element.children@, owned),
        value.attributes == element.attributes,
    ensures
        id_within(value, element),
{
    reveal(id_within);
}

/// One of the texts of a list of these is owned, and it is this one.
pub open spec fn id_list_owns(list: Seq<Id<'_>>, owned: Seq<char>) -> bool {
    exists|i: int| 0 <= i < list.len() && id_owns(#[trigger] list[i], owned)
}

/// A list of these owns only what an element owns.
#[verifier::opaque]
pub open spec fn id_list_within(list: Seq<Id<'_>>, element: XmlElement<'_>) -> bool {
    forall|owned: Seq<char>| #[trigger]
        id_list_owns(list, owned) ==> borrowing::element_owns(element, owned)
}

/// An empty list owns nothing.
pub proof fn lemma_id_list_empty(list: Seq<Id<'_>>, element: XmlElement<'_>)
    requires
        list.len() == 0,
    ensures
        id_list_within(list, element),
{
    reveal(id_list_within);
}

/// A list takes in one more, which comes from a child.
pub proof fn lemma_id_list_push(
    list: Seq<Id<'_>>,
    value: Id<'_>,
    child: XmlElement<'_>,
    element: XmlElement<'_>,
)
    requires
        id_list_within(list, element),
        id_within(value, child),
        node_within(XmlNode::Element(child), element),
    ensures
        id_list_within(list.push(value), element),
{
    reveal(id_list_within);
    reveal(id_within);
    reveal(node_within);
    let all = list.push(value);
    assert forall|owned: Seq<char>| #[trigger] id_list_owns(
        all,
        owned,
    ) implies borrowing::element_owns(element, owned) by {
        let i = choose|i: int| 0 <= i < all.len() && id_owns(#[trigger] all[i], owned);
        if i < list.len() {
            assert(all[i] == list[i]);
            assert(id_list_owns(list, owned));
        } else {
            assert(borrowing::node_owns(XmlNode::Element(child), owned));
        }
    }
}

/// One of the texts of a price is owned, and it is this one.
pub open spec fn price_owns(value: Price<'_>, owned: Seq<char>) -> bool {
    ||| borrowing::slot_owns(value.price_type, owned)
    ||| borrowing::slot_owns(value.currency, owned)
    ||| borrowing::slot_owns(value.delta, owned)
    ||| borrowing::slot_owns(value.relative_to, owned)
    ||| borrowing::slot_owns(value.source, owned)
    ||| parts_own(value.parts@, owned)
    ||| borrowing::attributes_own(value.attributes@, owned)
}

/// A price owns only what an element owns.
#[verifier::opaque]
pub open spec fn price_within(value: Price<'_>, element: XmlElement<'_>) -> bool {
    forall|owned: Seq<char>| #[trigger]
        price_owns(value, owned) ==> borrowing::element_owns(element, owned)
}

/// A price owns what its parts and attributes own.
pub proof fn lemma_price_within(value: Price<'_>, element: XmlElement<'_>)
    requires
        forall|owned: Seq<char>| #[trigger]
            borrowing::slot_owns(value.price_type, owned) ==> borrowing::attributes_own(
                element.attributes@,
                owned,
            ),
        forall|owned: Seq<char>| #[trigger]
            borrowing::slot_owns(value.currency, owned) ==> borrowing::attributes_own(
                element.attributes@,
                owned,
            ),
        forall|owned: Seq<char>| #[trigger]
            borrowing::slot_owns(value.delta, owned) ==> borrowing::attributes_own(
                element.attributes@,
                owned,
            ),
        forall|owned: Seq<char>| #[trigger]
            borrowing::slot_owns(value.relative_to, owned) ==> borrowing::attributes_own(
                element.attributes@,
                owned,
            ),
        forall|owned: Seq<char>| #[trigger]
            borrowing::slot_owns(value.source, owned) ==> borrowing::attributes_own(
                element.attributes@,
                owned,
            ),
        forall|owned: Seq<char>| #[trigger]
            parts_own(value.parts@, owned) ==> borrowing::nodes_own(element.children@, owned),
        value.attributes == element.attributes,
    ensures
        price_within(value, element),
{
    reveal(price_within);
}

/// One of the texts of a list of these is owned, and it is this one.
pub open spec fn price_list_owns(list: Seq<Price<'_>>, owned: Seq<char>) -> bool {
    exists|i: int| 0 <= i < list.len() && price_owns(#[trigger] list[i], owned)
}

/// A list of these owns only what an element owns.
#[verifier::opaque]
pub open spec fn price_list_within(list: Seq<Price<'_>>, element: XmlElement<'_>) -> bool {
    forall|owned: Seq<char>| #[trigger]
        price_list_owns(list, owned) ==> borrowing::element_owns(element, owned)
}

/// An empty list owns nothing.
pub proof fn lemma_price_list_empty(list: Seq<Price<'_>>, element: XmlElement<'_>)
    requires
        list.len() == 0,
    ensures
        price_list_within(list, element),
{
    reveal(price_list_within);
}

/// A list takes in one more, which comes from a child.
pub proof fn lemma_price_list_push(
    list: Seq<Price<'_>>,
    value: Price<'_>,
    child: XmlElement<'_>,
    element: XmlElement<'_>,
)
    requires
        price_list_within(list, element),
        price_within(value, child),
        node_within(XmlNode::Element(child), element),
    ensures
        price_list_within(list.push(value), element),
{
    reveal(price_list_within);
    reveal(price_within);
    reveal(node_within);
    let all = list.push(value);
    assert forall|owned: Seq<char>| #[trigger] price_list_owns(
        all,
        owned,
    ) implies borrowing::element_owns(element, owned) by {
        let i = choose|i: int| 0 <= i < all.len() && price_owns(#[trigger] all[i], owned);
        if i < list.len() {
            assert(all[i] == list[i]);
            assert(price_list_owns(list, owned));
        } else {
            assert(borrowing::node_owns(XmlNode::Element(child), owned));
        }
    }
}

/// One of the texts of a name is owned, and it is this one.
pub open spec fn name_owns(value: Name<'_>, owned: Seq<char>) -> bool {
    ||| borrowing::slot_owns(value.part, owned)
    ||| borrowing::slot_owns(value.name_type, owned)
    ||| parts_own(value.parts@, owned)
    ||| borrowing::attributes_own(value.attributes@, owned)
}

/// A name owns only what an element owns.
#[verifier::opaque]
pub open spec fn name_within(value: Name<'_>, element: XmlElement<'_>) -> bool {
    forall|owned: Seq<char>| #[trigger]
        name_owns(value, owned) ==> borrowing::element_owns(element, owned)
}

/// A name owns what its parts and attributes own.
pub proof fn lemma_name_within(value: Name<'_>, element: XmlElement<'_>)
    requires
        forall|owned: Seq<char>| #[trigger]
            borrowing::slot_owns(value.part, owned) ==> borrowing::attributes_own(
                element.attributes@,
                owned,
            ),
        forall|owned: Seq<char>| #[trigger]
            borrowing::slot_owns(value.name_type, owned) ==> borrowing::attributes_own(
                element.attributes@,
                owned,
            ),
        forall|owned: Seq<char>| #[trigger]
            parts_own(value.parts@, owned) ==> borrowing::nodes_own(element.children@, owned),
        value.attributes == element.attributes,
    ensures
        name_within(value, element),
{
    reveal(name_within);
}

/// One of the texts of a list of these is owned, and it is this one.
pub open spec fn name_list_owns(list: Seq<Name<'_>>, owned: Seq<char>) -> bool {
    exists|i: int| 0 <= i < list.len() && name_owns(#[trigger] list[i], owned)
}

/// A list of these owns only what an element owns.
#[verifier::opaque]
pub open spec fn name_list_within(list: Seq<Name<'_>>, element: XmlElement<'_>) -> bool {
    forall|owned: Seq<char>| #[trigger]
        name_list_owns(list, owned) ==> borrowing::element_owns(element, owned)
}

/// An empty list owns nothing.
pub proof fn lemma_name_list_empty(list: Seq<Name<'_>>, element: XmlElement<'_>)
    requires
        list.len() == 0,
    ensures
        name_list_within(list, element),
{
    reveal(name_list_within);
}

/// A list takes in one more, which comes from a child.
pub proof fn lemma_name_list_push(
    list: Seq<Name<'_>>,
    value: Name<'_>,
    child: XmlElement<'_>,
    element: XmlElement<'_>,
)
    requires
        name_list_within(list, element),
        name_within(value, child),
        node_within(XmlNode::Element(child), element),
    ensures
        name_list_within(list.push(value), element),
{
    reveal(name_list_within);
    reveal(name_within);
    reveal(node_within);
    let all = list.push(value);
    assert forall|owned: Seq<char>| #[trigger] name_list_owns(
        all,
        owned,
    ) implies borrowing::element_owns(element, owned) by {
        let i = choose|i: int| 0 <= i < all.len() && name_owns(#[trigger] all[i], owned);
        if i < list.len() {
            assert(all[i] == list[i]);
            assert(name_list_owns(list, owned));
        } else {
            assert(borrowing::node_owns(XmlNode::Element(child), owned));
        }
    }
}

/// One of the texts of one of these, if there is one, is owned, and it is this one.
pub open spec fn name_slot_owns(slot: Option<Name<'_>>, owned: Seq<char>) -> bool {
    slot matches Some(value) && name_owns(value, owned)
}

/// One of these, if there is one, owns only what an element owns.
#[verifier::opaque]
pub open spec fn name_slot_within(slot: Option<Name<'_>>, element: XmlElement<'_>) -> bool {
    forall|owned: Seq<char>| #[trigger]
        name_slot_owns(slot, owned) ==> borrowing::element_owns(element, owned)
}

/// An empty slot owns nothing.
pub proof fn lemma_name_slot_empty(element: XmlElement<'_>)
    ensures
        name_slot_within(None, element),
{
    reveal(name_slot_within);
}

/// A slot is filled, where it is empty, with what comes from a child.
pub proof fn lemma_name_slot_set(
    before: Option<Name<'_>>,
    after: Option<Name<'_>>,
    child: XmlElement<'_>,
    element: XmlElement<'_>,
)
    requires
        name_slot_within(before, element),
        node_within(XmlNode::Element(child), element),
        before is Some ==> after == before,
        before is None ==> after is Some && name_within(after->0, child),
    ensures
        name_slot_within(after, element),
{
    reveal(name_slot_within);
    reveal(name_within);
    reveal(node_within);
    assert forall|owned: Seq<char>| #[trigger] name_slot_owns(
        after,
        owned,
    ) implies borrowing::element_owns(element, owned) by {
        if before is None {
            assert(borrowing::node_owns(XmlNode::Element(child), owned));
        } else {
            assert(name_slot_owns(before, owned));
        }
    }
}

/// One of the texts of a color combination is owned, and it is this one.
pub open spec fn color_combination_owns(value: ColorCombination<'_>, owned: Seq<char>) -> bool {
    ||| text_slot_owns(value.interior_color, owned)
    ||| text_slot_owns(value.exterior_color, owned)
    ||| text_slot_owns(value.preference, owned)
    ||| borrowing::attributes_own(value.attributes@, owned)
    ||| borrowing::nodes_own(value.extensions@, owned)
}

/// A color combination owns only what an element owns.
#[verifier::opaque]
pub open spec fn color_combination_within(
    value: ColorCombination<'_>,
    element: XmlElement<'_>,
) -> bool {
    forall|owned: Seq<char>| #[trigger]
        color_combination_owns(value, owned) ==> borrowing::element_owns(element, owned)
}

/// A color combination owns what its fields own.
pub proof fn lemma_color_combination_within(value: ColorCombination<'_>, element: XmlElement<'_>)
    requires
        text_slot_within(value.interior_color, element),
        text_slot_within(value.exterior_color, element),
        text_slot_within(value.preference, element),
        value.attributes == element.attributes,
        nodes_within(value.extensions@, element),
    ensures
        color_combination_within(value, element),
{
    reveal(color_combination_within);
    reveal(nodes_within);
    reveal(text_slot_within);
}

/// One of the texts of a list of these is owned, and it is this one.
pub open spec fn color_combination_list_owns(
    list: Seq<ColorCombination<'_>>,
    owned: Seq<char>,
) -> bool {
    exists|i: int| 0 <= i < list.len() && color_combination_owns(#[trigger] list[i], owned)
}

/// A list of these owns only what an element owns.
#[verifier::opaque]
pub open spec fn color_combination_list_within(
    list: Seq<ColorCombination<'_>>,
    element: XmlElement<'_>,
) -> bool {
    forall|owned: Seq<char>| #[trigger]
        color_combination_list_owns(list, owned) ==> borrowing::element_owns(element, owned)
}

/// An empty list owns nothing.
pub proof fn lemma_color_combination_list_empty(
    list: Seq<ColorCombination<'_>>,
    element: XmlElement<'_>,
)
    requires
        list.len() == 0,
    ensures
        color_combination_list_within(list, element),
{
    reveal(color_combination_list_within);
}

/// A list takes in one more, which comes from a child.
pub proof fn lemma_color_combination_list_push(
    list: Seq<ColorCombination<'_>>,
    value: ColorCombination<'_>,
    child: XmlElement<'_>,
    element: XmlElement<'_>,
)
    requires
        color_combination_list_within(list, element),
        color_combination_within(value, child),
        node_within(XmlNode::Element(child), element),
    ensures
        color_combination_list_within(list.push(value), element),
{
    reveal(color_combination_list_within);
    reveal(color_combination_within);
    reveal(node_within);
    let all = list.push(value);
    assert forall|owned: Seq<char>| #[trigger] color_combination_list_owns(
        all,
        owned,
    ) implies borrowing::element_owns(element, owned) by {
        let i = choose|i: int| 0 <= i < all.len() && color_combination_owns(#[trigger] all[i], owned);
        if i < list.len() {
            assert(all[i] == list[i]);
            assert(color_combination_list_owns(list, owned));
        } else {
            assert(borrowing::node_owns(XmlNode::Element(child), owned));
        }
    }
}

/// One of the texts of a vehicle option is owned, and it is this one.
pub open spec fn option_owns(value: VehicleOption<'_>, owned: Seq<char>) -> bool {
    ||| text_slot_owns(value.option_name, owned)
    ||| text_slot_owns(value.manufacturer_code, owned)
    ||| text_slot_owns(value.stock, owned)
    ||| text_slot_owns(value.weighting, owned)
    ||| price_list_owns(value.prices@, owned)
    ||| borrowing::attributes_own(value.attributes@, owned)
    ||| borrowing::nodes_own(value.extensions@, owned)
}

/// A vehicle option owns only what an element owns.
#[verifier::opaque]
pub open spec fn option_within(value: VehicleOption<'_>, element: XmlElement<'_>) -> bool {
    forall|owned: Seq<char>| #[trigger]
        option_owns(value, owned) ==> borrowing::element_owns(element, owned)
}

/// A vehicle option owns what its fields own.
pub proof fn lemma_option_within(value: VehicleOption<'_>, element: XmlElement<'_>)
    requires
        text_slot_within(value.option_name, element),
        text_slot_within(value.manufacturer_code, element),
        text_slot_within(value.stock, element),
        text_slot_within(value.weighting, element),
        price_list_within(value.prices@, element),
        value.attributes == element.attributes,
        nodes_within(value.extensions@, element),
    ensures
        option_within(value, element),
{
    reveal(nodes_within);
    reveal(option_within);
    reveal(price_list_within);
    reveal(text_slot_within);
}

/// One of the texts of a list of these is owned, and it is this one.
pub open spec fn option_list_owns(list: Seq<VehicleOption<'_>>, owned: Seq<char>) -> bool {
    exists|i: int| 0 <= i < list.len() && option_owns(#[trigger] list[i], owned)
}

/// A list of these owns only what an element owns.
#[verifier::opaque]
pub open spec fn option_list_within(list: Seq<VehicleOption<'_>>, element: XmlElement<'_>) -> bool {
    forall|owned: Seq<char>| #[trigger]
        option_list_owns(list, owned) ==> borrowing::element_owns(element, owned)
}

/// An empty list owns nothing.
pub proof fn lemma_option_list_empty(list: Seq<VehicleOption<'_>>, element: XmlElement<'_>)
    requires
        list.len() == 0,
    ensures
        option_list_within(list, element),
{
    reveal(option_list_within);
}

/// A list takes in one more, which comes from a child.
pub proof fn lemma_option_list_push(
    list: Seq<VehicleOption<'_>>,
    value: VehicleOption<'_>,
    child: XmlElement<'_>,
    element: XmlElement<'_>,
)
    requires
        option_list_within(list, element),
        option_within(value, child),
        node_within(XmlNode::Element(child), element),
    ensures
        option_list_within(list.push(value), element),
{
    reveal(option_list_within);
    reveal(option_within);
    reveal(node_within);
    let all = list.push(value);
    assert forall|owned: Seq<char>| #[trigger] option_list_owns(
        all,
        owned,
    ) implies borrowing::element_owns(element, owned) by {
        let i = choose|i: int| 0 <= i < all.len() && option_owns(#[trigger] all[i], owned);
        if i < list.len() {
            assert(all[i] == list[i]);
            assert(option_list_owns(list, owned));
        } else {
            assert(borrowing::node_owns(XmlNode::Element(child), owned));
        }
    }
}

/// One of the texts of a finance is owned, and it is this one.
pub open spec fn finance_owns(value: Finance<'_>, owned: Seq<char>) -> bool {
    ||| text_slot_owns(value.method, owned)
    ||| text_list_owns(value.amounts@, owned)
    ||| text_list_owns(value.balances@, owned)
    ||| borrowing::attributes_own(value.attributes@, owned)
    ||| borrowing::nodes_own(value.extensions@, owned)
}

/// A finance owns only what an element owns.
#[verifier::opaque]
pub open spec fn finance_within(value: Finance<'_>, element: XmlElement<'_>) -> bool {
    forall|owned: Seq<char>| #[trigger]
        finance_owns(value, owned) ==> borrowing::element_owns(element, owned)
}

/// A finance owns what its fields own.
pub proof fn lemma_finance_within(value: Finance<'_>, element: XmlElement<'_>)
    requires
        text_slot_within(value.method, element),
        text_list_within(value.amounts@, element),
        text_list_within(value.balances@, element),
        value.attributes == element.attributes,
        nodes_within(value.extensions@, element),
    ensures
        finance_within(value, element),
{
    reveal(finance_within);
    reveal(nodes_within);
    reveal(text_list_within);
    reveal(text_slot_within);
}

/// One of the texts of one of these, if there is one, is owned, and it is this one.
pub open spec fn finance_slot_owns(slot: Option<Finance<'_>>, owned: Seq<char>) -> bool {
    slot matches Some(value) && finance_owns(value, owned)
}

/// One of these, if there is one, owns only what an element owns.
#[verifier::opaque]
pub open spec fn finance_slot_within(slot: Option<Finance<'_>>, element: XmlElement<'_>) -> bool {
    forall|owned: Seq<char>| #[trigger]
        finance_slot_owns(slot, owned) ==> borrowing::element_owns(element, owned)
}

/// An empty slot owns nothing.
pub proof fn lemma_finance_slot_empty(element: XmlElement<'_>)
    ensures
        finance_slot_within(None, element),
{
    reveal(finance_slot_within);
}

/// A slot is filled, where it is empty, with what comes from a child.
pub proof fn lemma_finance_slot_set(
    before: Option<Finance<'_>>,
    after: Option<Finance<'_>>,
    child: XmlElement<'_>,
    element: XmlElement<'_>,
)
    requires
        finance_slot_within(before, element),
        node_within(XmlNode::Element(child), element),
        before is Some ==> after == before,
        before is None ==> after is Some && finance_within(after->0, child),
    ensures
        finance_slot_within(after, element),
{
    reveal(finance_slot_within);
    reveal(finance_within);
    reveal(node_within);
    assert forall|owned: Seq<char>| #[trigger] finance_slot_owns(
        after,
        owned,
    ) implies borrowing::element_owns(element, owned) by {
        if before is None {
            assert(borrowing::node_owns(XmlNode::Element(child), owned));
        } else {
            assert(finance_slot_owns(before, owned));
        }
    }
}

/// One of the texts of a vehicle is owned, and it is this one.
pub open spec fn vehicle_owns(value: Vehicle<'_>, owned: Seq<char>) -> bool {
    ||| borrowing::slot_owns(value.interest, owned)
    ||| borrowing::slot_owns(value.status, owned)
    ||| id_list_owns(value.ids@, owned)
    ||| text_slot_owns(value.year, owned)
    ||| text_slot_owns(value.make, owned)
    ||| text_slot_owns(value.model, owned)
    ||| text_slot_owns(value.vin, owned)
    ||| text_slot_owns(value.stock, owned)
    ||| text_slot_owns(value.trim, owned)
    ||| text_slot_owns(value.doors, owned)
    ||| text_slot_owns(value.body_style, owned)
    ||| text_slot_owns(value.transmission, owned)
    ||| text_slot_owns(value.odometer, owned)
    ||| text_slot_owns(value.condition, owned)
    ||| color_combination_list_owns(value.color_combinations@, owned)
    ||| text_list_owns(value.image_tags@, owned)
    ||| price_list_owns(value.prices@, owned)
    ||| text_slot_owns(value.price_comments, owned)
    ||| option_list_owns(value.options@, owned)
    ||| finance_slot_owns(value.finance, owned)
    ||| text_slot_owns(value.comments, owned)
    ||| borrowing::attributes_own(value.attributes@, owned)
    ||| borrowing::nodes_own(value.extensions@, owned)
}

/// A vehicle owns only what an element owns.
#[verifier::opaque]
pub open spec fn vehicle_within(value: Vehicle<'_>, element: XmlElement<'_>) -> bool {
    forall|owned: Seq<char>| #[trigger]
        vehicle_owns(value, owned) ==> borrowing::element_owns(element, owned)
}

/// A vehicle owns what its fields own.
pub proof fn lemma_vehicle_within(value: Vehicle<'_>, element: XmlElement<'_>)
    requires
        attribute_within(value.interest, element),
        attribute_within(value.status, element),
        id_list_within(value.ids@, element),
        text_slot_within(value.year, element),
        text_slot_within(value.make, element),
        text_slot_within(value.model, element),
        text_slot_within(value.vin, element),
        text_slot_within(value.stock, element),
        text_slot_within(value.trim, element),
        text_slot_within(value.doors, element),
        text_slot_within(value.body_style, element),
        text_slot_within(value.transmission, element),
        text_slot_within(value.odometer, element),
        text_slot_within(value.condition, element),
        color_combination_list_within(value.color_combinations@, element),
        text_list_within(value.image_tags@, element),
        price_list_within(value.prices@, element),
        text_slot_within(value.price_comments, element),
        option_list_within(value.options@, element),
        finance_slot_within(value.finance, element),
        text_slot_within(value.comments, element),
        value.attributes == element.attributes,
        nodes_within(value.extensions@, element),
    ensures
        vehicle_within(value, element),
{
    reveal(attribute_within);
    reveal(color_combination_list_within);
    reveal(finance_slot_within);
    reveal(id_list_within);
    reveal(nodes_within);
    reveal(option_list_within);
    reveal(price_list_within);
    reveal(text_list_within);
    reveal(text_slot_within);
    reveal(vehicle_within);
}

/// One of the texts of a list of these is owned, and it is this one.
pub open spec fn vehicle_list_owns(list: Seq<Vehicle<'_>>, owned: Seq<char>) -> bool {
    exists|i: int| 0 <= i < list.len() && vehicle_owns(#[trigger] list[i], owned)
}

/// A list of these owns only what an element owns.
#[verifier::opaque]
pub open spec fn vehicle_list_within(list: Seq<Vehicle<'_>>, element: XmlElement<'_>) -> bool {
    forall|owned: Seq<char>| #[trigger]
        vehicle_list_owns(list, owned) ==> borrowing::element_owns(element, owned)
}

/// An empty list owns nothing.
pub proof fn lemma_vehicle_list_empty(list: Seq<Vehicle<'_>>, element: XmlElement<'_>)
    requires
        list.len() == 0,
    ensures
        vehicle_list_within(list, element),
{
    reveal(vehicle_list_within);
}

/// A list takes in one more, which comes from a child.
pub proof fn lemma_vehicle_list_push(
    list: Seq<Vehicle<'_>>,
    value: Vehicle<'_>,
    child: XmlElement<'_>,
    element: XmlElement<'_>,
)
    requires
        vehicle_list_within(list, element),
        vehicle_within(value, child),
        node_within(XmlNode::Element(child), element),
    ensures
        vehicle_list_within(list.push(value), element),
{
    reveal(vehicle_list_within);
    reveal(vehicle_within);
    reveal(node_within);
    let all = list.push(value);
    assert forall|owned: Seq<char>| #[trigger] vehicle_list_owns(
        all,
        owned,
    ) implies borrowing::element_owns(element, owned) by {
        let i = choose|i: int| 0 <= i < all.len() && vehicle_owns(#[trigger] all[i], owned);
        if i < list.len() {
            assert(all[i] == list[i]);
            assert(vehicle_list_owns(list, owned));
        } else {
            assert(borrowing::node_owns(XmlNode::Element(child), owned));
        }
    }
}

/// One of the texts of a timeframe is owned, and it is this one.
pub open spec fn timeframe_owns(value: Timeframe<'_>, owned: Seq<char>) -> bool {
    ||| text_slot_owns(value.description, owned)
    ||| text_slot_owns(value.earliest_date, owned)
    ||| text_slot_owns(value.latest_date, owned)
    ||| borrowing::attributes_own(value.attributes@, owned)
    ||| borrowing::nodes_own(value.extensions@, owned)
}

/// A timeframe owns only what an element owns.
#[verifier::opaque]
pub open spec fn timeframe_within(value: Timeframe<'_>, element: XmlElement<'_>) -> bool {
    forall|owned: Seq<char>| #[trigger]
        timeframe_owns(value, owned) ==> borrowing::element_owns(element, owned)
}

/// A timeframe owns what its fields own.
pub proof fn lemma_timeframe_within(value: Timeframe<'_>, element: XmlElement<'_>)
    requires
        text_slot_within(value.description, element),
        text_slot_within(value.earliest_date, element),
        text_slot_within(value.latest_date, element),
        value.attributes == element.attributes,
        nodes_within(value.extensions@, element),
    ensures
        timeframe_within(value, element),
{
    reveal(nodes_within);
    reveal(text_slot_within);
    reveal(timeframe_within);
}

/// One of the texts of one of these, if there is one, is owned, and it is this one.
pub open spec fn timeframe_slot_owns(slot: Option<Timeframe<'_>>, owned: Seq<char>) -> bool {
    slot matches Some(value) && timeframe_owns(value, owned)
}

/// One of these, if there is one, owns only what an element owns.
#[verifier::opaque]
pub open spec fn timeframe_slot_within(
    slot: Option<Timeframe<'_>>,
    element: XmlElement<'_>,
) -> bool {
    forall|owned: Seq<char>| #[trigger]
        timeframe_slot_owns(slot, owned) ==> borrowing::element_owns(element, owned)
}

/// An empty slot owns nothing.
pub proof fn lemma_timeframe_slot_empty(element: XmlElement<'_>)
    ensures
        timeframe_slot_within(None, element),
{
    reveal(timeframe_slot_within);
}

/// A slot is filled, where it is empty, with what comes from a child.
pub proof fn lemma_timeframe_slot_set(
    before: Option<Timeframe<'_>>,
    after: Option<Timeframe<'_>>,
    child: XmlElement<'_>,
    element: XmlElement<'_>,
)
    requires
        timeframe_slot_within(before, element),
        node_within(XmlNode::Element(child), element),
        before is Some ==> after == before,
        before is None ==> after is Some && timeframe_within(after->0, child),
    ensures
        timeframe_slot_within(after, element),
{
    reveal(timeframe_slot_within);
    reveal(timeframe_within);
    reveal(node_within);
    assert forall|owned: Seq<char>| #[trigger] timeframe_slot_owns(
        after,
        owned,
    ) implies borrowing::element_owns(element, owned) by {
        if before is None {
            assert(borrowing::node_owns(XmlNode::Element(child), owned));
        } else {
            assert(timeframe_slot_owns(before, owned));
        }
    }
}

/// One of the texts of an address is owned, and it is this one.
pub open spec fn address_owns(value: Address<'_>, owned: Seq<char>) -> bool {
    ||| borrowing::slot_owns(value.address_type, owned)
    ||| text_list_owns(value.streets@, owned)
    ||| text_slot_owns(value.apartment, owned)
    ||| text_slot_owns(value.city, owned)
    ||| text_slot_owns(value.region_code, owned)
    ||| text_slot_owns(value.postal_code, owned)
    ||| text_slot_owns(value.country, owned)
    ||| borrowing::attributes_own(value.attributes@, owned)
    ||| borrowing::nodes_own(value.extensions@, owned)
}

/// An address owns only what an element owns.
#[verifier::opaque]
pub open spec fn address_within(value: Address<'_>, element: XmlElement<'_>) -> bool {
    forall|owned: Seq<char>| #[trigger]
        address_owns(value, owned) ==> borrowing::element_owns(element, owned)
}

/// An address owns what its fields own.
pub proof fn lemma_address_within(value: Address<'_>, element: XmlElement<'_>)
    requires
        attribute_within(value.address_type, element),
        text_list_within(value.streets@, element),
        text_slot_within(value.apartment, element),
        text_slot_within(value.city, element),
        text_slot_within(value.region_code, element),
        text_slot_within(value.postal_code, element),
        text_slot_within(value.country, element),
        value.attributes == element.attributes,
        nodes_within(value.extensions@, element),
    ensures
        address_within(value, element),
{
    reveal(address_within);
    reveal(attribute_within);
    reveal(nodes_within);
    reveal(text_list_within);
    reveal(text_slot_within);
}

/// One of the texts of a list of these is owned, and it is this one.
pub open spec fn address_list_owns(list: Seq<Address<'_>>, owned: Seq<char>) -> bool {
    exists|i: int| 0 <= i < list.len() && address_owns(#[trigger] list[i], owned)
}

/// A list of these owns only what an element owns.
#[verifier::opaque]
pub open spec fn address_list_within(list: Seq<Address<'_>>, element: XmlElement<'_>) -> bool {
    forall|owned: Seq<char>| #[trigger]
        address_list_owns(list, owned) ==> borrowing::element_owns(element, owned)
}

/// An empty list owns nothing.
pub proof fn lemma_address_list_empty(list: Seq<Address<'_>>, element: XmlElement<'_>)
    requires
        list.len() == 0,
    ensures
        address_list_within(list, element),
{
    reveal(address_list_within);
}

/// A list takes in one more, which comes from a child.
pub proof fn lemma_address_list_push(
    list: Seq<Address<'_>>,
    value: Address<'_>,
    child: XmlElement<'_>,
    element: XmlElement<'_>,
)
    requires
        address_list_within(list, element),
        address_within(value, child),
        node_within(XmlNode::Element(child), element),
    ensures
        address_list_within(list.push(value), element),
{
    reveal(address_list_within);
    reveal(address_within);
    reveal(node_within);
    let all = list.push(value);
    assert forall|owned: Seq<char>| #[trigger] address_list_owns(
        all,
        owned,
    ) implies borrowing::element_owns(element, owned) by {
        let i = choose|i: int| 0 <= i < all.len() && address_owns(#[trigger] all[i], owned);
        if i < list.len() {
            assert(all[i] == list[i]);
            assert(address_list_owns(list, owned));
        } else {
            assert(borrowing::node_owns(XmlNode::Element(child), owned));
        }
    }
}

/// One of the texts of a contact is owned, and it is this one.
pub open spec fn contact_owns(value: Contact<'_>, owned: Seq<char>) -> bool {
    ||| borrowing::slot_owns(value.primary_contact, owned)
    ||| name_list_owns(value.names@, owned)
    ||| text_list_owns(value.emails@, owned)
    ||| text_list_owns(value.phones@, owned)
    ||| address_list_owns(value.addresses@, owned)
    ||| borrowing::attributes_own(value.attributes@, owned)
    ||| borrowing::nodes_own(value.extensions@, owned)
}

/// A contact owns only what an element owns.
#[verifier::opaque]
pub open spec fn contact_within(value: Contact<'_>, element: XmlElement<'_>) -> bool {
    forall|owned: Seq<char>| #[trigger]
        contact_owns(value, owned) ==> borrowing::element_owns(element, owned)
}

/// A contact owns what its fields own.
pub proof fn lemma_contact_within(value: Contact<'_>, element: XmlElement<'_>)
    requires
        attribute_within(value.primary_contact, element),
        name_list_within(value.names@, element),
        text_list_within(value.emails@, element),
        text_list_within(value.phones@, element),
        address_list_within(value.addresses@, element),
        value.attributes == element.attributes,
        nodes_within(value.extensions@, element),
    ensures
        contact_within(value, element),
{
    reveal(address_list_within);
    reveal(attribute_within);
    reveal(contact_within);
    reveal(name_list_within);
    reveal(nodes_within);
    reveal(text_list_within);
}

/// One of the texts of a list of these is owned, and it is this one.
pub open spec fn contact_list_owns(list: Seq<Contact<'_>>, owned: Seq<char>) -> bool {
    exists|i: int| 0 <= i < list.len() && contact_owns(#[trigger] list[i], owned)
}

/// A list of these owns only what an element owns.
#[verifier::opaque]
pub open spec fn contact_list_within(list: Seq<Contact<'_>>, element: XmlElement<'_>) -> bool {
    forall|owned: Seq<char>| #[trigger]
        contact_list_owns(list, owned) ==> borrowing::element_owns(element, owned)
}

/// An empty list owns nothing.
pub proof fn lemma_contact_list_empty(list: Seq<Contact<'_>>, element: XmlElement<'_>)
    requires
        list.len() == 0,
    ensures
        contact_list_within(list, element),
{
    reveal(contact_list_within);
}

/// A list takes in one more, which comes from a child.
pub proof fn lemma_contact_list_push(
    list: Seq<Contact<'_>>,
    value: Contact<'_>,
    child: XmlElement<'_>,
    element: XmlElement<'_>,
)
    requires
        contact_list_within(list, element),
        contact_within(value, child),
        node_within(XmlNode::Element(child), element),
    ensures
        contact_list_within(list.push(value), element),
{
    reveal(contact_list_within);
    reveal(contact_within);
    reveal(node_within);
    let all = list.push(value);
    assert forall|owned: Seq<char>| #[trigger] contact_list_owns(
        all,
        owned,
    ) implies borrowing::element_owns(element, owned) by {
        let i = choose|i: int| 0 <= i < all.len() && contact_owns(#[trigger] all[i], owned);
        if i < list.len() {
            assert(all[i] == list[i]);
            assert(contact_list_owns(list, owned));
        } else {
            assert(borrowing::node_owns(XmlNode::Element(child), owned));
        }
    }
}

/// One of the texts of a customer is owned, and it is this one.
pub open spec fn customer_owns(value: Customer<'_>, owned: Seq<char>) -> bool {
    ||| id_list_owns(value.ids@, owned)
    ||| contact_list_owns(value.contacts@, owned)
    ||| timeframe_slot_owns(value.timeframe, owned)
    ||| text_slot_owns(value.comments, owned)
    ||| borrowing::attributes_own(value.attributes@, owned)
    ||| borrowing::nodes_own(value.extensions@, owned)
}

/// A customer owns only what an element owns.
#[verifier::opaque]
pub open spec fn customer_within(value: Customer<'_>, element: XmlElement<'_>) -> bool {
    forall|owned: Seq<char>| #[trigger]
        customer_owns(value, owned) ==> borrowing::element_owns(element, owned)
}

/// A customer owns what its fields own.
pub proof fn lemma_customer_within(value: Customer<'_>, element: XmlElement<'_>)
    requires
        id_list_within(value.ids@, element),
        contact_list_within(value.contacts@, element),
        timeframe_slot_within(value.timeframe, element),
        text_slot_within(value.comments, element),
        value.attributes == element.attributes,
        nodes_within(value.extensions@, element),
    ensures
        customer_within(value, element),
{
    reveal(contact_list_within);
    reveal(customer_within);
    reveal(id_list_within);
    reveal(nodes_within);
    reveal(text_slot_within);
    reveal(timeframe_slot_within);
}

/// One of the texts of one of these, if there is one, is owned, and it is this one.
pub open spec fn customer_slot_owns(slot: Option<Customer<'_>>, owned: Seq<char>) -> bool {
    slot matches Some(value) && customer_owns(value, owned)
}

/// One of these, if there is one, owns only what an element owns.
#[verifier::opaque]
pub open spec fn customer_slot_within(slot: Option<Customer<'_>>, element: XmlElement<'_>) -> bool {
    forall|owned: Seq<char>| #[trigger]
        customer_slot_owns(slot, owned) ==> borrowing::element_owns(element, owned)
}

/// An empty slot owns nothing.
pub proof fn lemma_customer_slot_empty(element: XmlElement<'_>)
    ensures
        customer_slot_within(None, element),
{
    reveal(customer_slot_within);
}

/// A slot is filled, where it is empty, with what comes from a child.
pub proof fn lemma_customer_slot_set(
    before: Option<Customer<'_>>,
    after: Option<Customer<'_>>,
    child: XmlElement<'_>,
    element: XmlElement<'_>,
)
    requires
        customer_slot_within(before, element),
        node_within(XmlNode::Element(child), element),
        before is Some ==> after == before,
        before is None ==> after is Some && customer_within(after->0, child),
    ensures
        customer_slot_within(after, element),
{
    reveal(customer_slot_within);
    reveal(customer_within);
    reveal(node_within);
    assert forall|owned: Seq<char>| #[trigger] customer_slot_owns(
        after,
        owned,
    ) implies borrowing::element_owns(element, owned) by {
        if before is None {
            assert(borrowing::node_owns(XmlNode::Element(child), owned));
        } else {
            assert(customer_slot_owns(before, owned));
        }
    }
}

/// One of the texts of a vendor is owned, and it is this one.
pub open spec fn vendor_owns(value: Vendor<'_>, owned: Seq<char>) -> bool {
    ||| id_list_owns(value.ids@, owned)
    ||| text_slot_owns(value.vendor_name, owned)
    ||| text_slot_owns(value.url, owned)
    ||| contact_list_owns(value.contacts@, owned)
    ||| borrowing::attributes_own(value.attributes@, owned)
    ||| borrowing::nodes_own(value.extensions@, owned)
}

/// A vendor owns only what an element owns.
#[verifier::opaque]
pub open spec fn vendor_within(value: Vendor<'_>, element: XmlElement<'_>) -> bool {
    forall|owned: Seq<char>| #[trigger]
        vendor_owns(value, owned) ==> borrowing::element_owns(element, owned)
}

/// A vendor owns what its fields own.
pub proof fn lemma_vendor_within(value: Vendor<'_>, element: XmlElement<'_>)
    requires
        id_list_within(value.ids@, element),
        text_slot_within(value.vendor_name, element),
        text_slot_within(value.url, element),
        contact_list_within(value.contacts@, element),
        value.attributes == element.attributes,
        nodes_within(value.extensions@, element),
    ensures
        vendor_within(value, element),
{
    reveal(contact_list_within);
    reveal(id_list_within);
    reveal(nodes_within);
    reveal(text_slot_within);
    reveal(vendor_within);
}

/// One of the texts of one of these, if there is one, is owned, and it is this one.
pub open spec fn vendor_slot_owns(slot: Option<Vendor<'_>>, owned: Seq<char>) -> bool {
    slot matches Some(value) && vendor_owns(value, owned)
}

/// One of these, if there is one, owns only what an element owns.
#[verifier::opaque]
pub open spec fn vendor_slot_within(slot: Option<Vendor<'_>>, element: XmlElement<'_>) -> bool {
    forall|owned: Seq<char>| #[trigger]
        vendor_slot_owns(slot, owned) ==> borrowing::element_owns(element, owned)
}

/// An empty slot owns nothing.
pub proof fn lemma_vendor_slot_empty(element: XmlElement<'_>)
    ensures
        vendor_slot_within(None, element),
{
    reveal(vendor_slot_within);
}

/// A slot is filled, where it is empty, with what comes from a child.
pub proof fn lemma_vendor_slot_set(
    before: Option<Vendor<'_>>,
    after: Option<Vendor<'_>>,
    child: XmlElement<'_>,
    element: XmlElement<'_>,
)
    requires
        vendor_slot_within(before, element),
        node_within(XmlNode::Element(child), element),
        before is Some ==> after == before,
        before is None ==> after is Some && vendor_within(after->0, child),
    ensures
        vendor_slot_within(after, element),
{
    reveal(vendor_slot_within);
    reveal(vendor_within);
    reveal(node_within);
    assert forall|owned: Seq<char>| #[trigger] vendor_slot_owns(
        after,
        owned,
    ) implies borrowing::element_owns(element, owned) by {
        if before is None {
            assert(borrowing::node_owns(XmlNode::Element(child), owned));
        } else {
            assert(vendor_slot_owns(before, owned));
        }
    }
}

/// One of the texts of a provider is owned, and it is this one.
pub open spec fn provider_owns(value: Provider<'_>, owned: Seq<char>) -> bool {
    ||| id_list_owns(value.ids@, owned)
    ||| name_slot_owns(value.name, owned)
    ||| text_slot_owns(value.service, owned)
    ||| text_slot_owns(value.url, owned)
    ||| text_slot_owns(value.email, owned)
    ||| text_slot_owns(value.phone, owned)
    ||| contact_list_owns(value.contacts@, owned)
    ||| borrowing::attributes_own(value.attributes@, owned)
    ||| borrowing::nodes_own(value.extensions@, owned)
}

/// A provider owns only what an element owns.
#[verifier::opaque]
pub open spec fn provider_within(value: Provider<'_>, element: XmlElement<'_>) -> bool {
    forall|owned: Seq<char>| #[trigger]
        provider_owns(value, owned) ==> borrowing::element_owns(element, owned)
}

/// A provider owns what its fields own.
pub proof fn lemma_provider_within(value: Provider<'_>, element: XmlElement<'_>)
    requires
        id_list_within(value.ids@, element),
        name_slot_within(value.name, element),
        text_slot_within(value.service, element),
        text_slot_within(value.url, element),
        text_slot_within(value.email, element),
        text_slot_within(value.phone, element),
        contact_list_within(value.contacts@, element),
        value.attributes == element.attributes,
        nodes_within(value.extensions@, element),
    ensures
        provider_within(value, element),
{
    reveal(contact_list_within);
    reveal(id_list_within);
    reveal(name_slot_within);
    reveal(nodes_within);
    reveal(provider_within);
    reveal(text_slot_within);
}

/// One of the texts of one of these, if there is one, is owned, and it is this one.
pub open spec fn provider_slot_owns(slot: Option<Provider<'_>>, owned: Seq<char>) -> bool {
    slot matches Some(value) && provider_owns(value, owned)
}

/// One of these, if there is one, owns only what an element owns.
#[verifier::opaque]
pub open spec fn provider_slot_within(slot: Option<Provider<'_>>, element: XmlElement<'_>) -> bool {
    forall|owned: Seq<char>| #[trigger]
        provider_slot_owns(slot, owned) ==> borrowing::element_owns(element, owned)
}

/// An empty slot owns nothing.
pub proof fn lemma_provider_slot_empty(element: XmlElement<'_>)
    ensures
        provider_slot_within(None, element),
{
    reveal(provider_slot_within);
}

/// A slot is filled, where it is empty, with what comes from a child.
pub proof fn lemma_provider_slot_set(
    before: Option<Provider<'_>>,
    after: Option<Provider<'_>>,
    child: XmlElement<'_>,
    element: XmlElement<'_>,
)
    requires
        provider_slot_within(before, element),
        node_within(XmlNode::Element(child), element),
        before is Some ==> after == before,
        before is None ==> after is Some && provider_within(after->0, child),
    ensures
        provider_slot_within(after, element),
{
    reveal(provider_slot_within);
    reveal(provider_within);
    reveal(node_within);
    assert forall|owned: Seq<char>| #[trigger] provider_slot_owns(
        after,
        owned,
    ) implies borrowing::element_owns(element, owned) by {
        if before is None {
            assert(borrowing::node_owns(XmlNode::Element(child), owned));
        } else {
            assert(provider_slot_owns(before, owned));
        }
    }
}

/// One of the texts of a prospect is owned, and it is this one.
pub open spec fn prospect_owns(value: Prospect<'_>, owned: Seq<char>) -> bool {
    ||| borrowing::slot_owns(value.status, owned)
    ||| id_list_owns(value.ids@, owned)
    ||| text_slot_owns(value.request_date, owned)
    ||| vehicle_list_owns(value.vehicles@, owned)
    ||| customer_slot_owns(value.customer, owned)
    ||| vendor_slot_owns(value.vendor, owned)
    ||| provider_slot_owns(value.provider, owned)
    ||| borrowing::attributes_own(value.attributes@, owned)
    ||| borrowing::nodes_own(value.extensions@, owned)
}

/// A prospect owns only what an element owns.
#[verifier::opaque]
pub open spec fn prospect_within(value: Prospect<'_>, element: XmlElement<'_>) -> bool {
    forall|owned: Seq<char>| #[trigger]
        prospect_owns(value, owned) ==> borrowing::element_owns(element, owned)
}

/// A prospect owns what its fields own.
pub proof fn lemma_prospect_within(value: Prospect<'_>, element: XmlElement<'_>)
    requires
        attribute_within(value.status, element),
        id_list_within(value.ids@, element),
        text_slot_within(value.request_date, element),
        vehicle_list_within(value.vehicles@, element),
        customer_slot_within(value.customer, element),
        vendor_slot_within(value.vendor, element),
        provider_slot_within(value.provider, element),
        value.attributes == element.attributes,
        nodes_within(value.extensions@, element),
    ensures
        prospect_within(value, element),
{
    reveal(attribute_within);
    reveal(customer_slot_within);
    reveal(id_list_within);
    reveal(nodes_within);
    reveal(prospect_within);
    reveal(provider_slot_within);
    reveal(text_slot_within);
    reveal(vehicle_list_within);
    reveal(vendor_slot_within);
}

/// One of the texts of a list of these is owned, and it is this one.
pub open spec fn prospect_list_owns(list: Seq<Prospect<'_>>, owned: Seq<char>) -> bool {
    exists|i: int| 0 <= i < list.len() && prospect_owns(#[trigger] list[i], owned)
}

/// A list of these owns only what an element owns.
#[verifier::opaque]
pub open spec fn prospect_list_within(list: Seq<Prospect<'_>>, element: XmlElement<'_>) -> bool {
    forall|owned: Seq<char>| #[trigger]
        prospect_list_owns(list, owned) ==> borrowing::element_owns(element, owned)
}

/// An empty list owns nothing.
pub proof fn lemma_prospect_list_empty(list: Seq<Prospect<'_>>, element: XmlElement<'_>)
    requires
        list.len() == 0,
    ensures
        prospect_list_within(list, element),
{
    reveal(prospect_list_within);
}

/// A list takes in one more, which comes from a child.
pub proof fn lemma_prospect_list_push(
    list: Seq<Prospect<'_>>,
    value: Prospect<'_>,
    child: XmlElement<'_>,
    element: XmlElement<'_>,
)
    requires
        prospect_list_within(list, element),
        prospect_within(value, child),
        node_within(XmlNode::Element(child), element),
    ensures
        prospect_list_within(list.push(value), element),
{
    reveal(prospect_list_within);
    reveal(prospect_within);
    reveal(node_within);
    let all = list.push(value);
    assert forall|owned: Seq<char>| #[trigger] prospect_list_owns(
        all,
        owned,
    ) implies borrowing::element_owns(element, owned) by {
        let i = choose|i: int| 0 <= i < all.len() && prospect_owns(#[trigger] all[i], owned);
        if i < list.len() {
            assert(all[i] == list[i]);
            assert(prospect_list_owns(list, owned));
        } else {
            assert(borrowing::node_owns(XmlNode::Element(child), owned));
        }
    }
}

/// One of the texts of a document is owned, and it is this one.
pub open spec fn adf_owns(value: Adf<'_>, owned: Seq<char>) -> bool {
    ||| prospect_list_owns(value.prospects@, owned)
    ||| borrowing::attributes_own(value.attributes@, owned)
    ||| borrowing::nodes_own(value.extensions@, owned)
}

/// A document owns only what an element owns.
#[verifier::opaque]
pub open spec fn adf_within(value: Adf<'_>, element: XmlElement<'_>) -> bool {
    forall|owned: Seq<char>| #[trigger]
        adf_owns(value, owned) ==> borrowing::element_owns(element, owned)
}

/// A document owns what its fields own.
pub proof fn lemma_adf_within(value: Adf<'_>, element: XmlElement<'_>)
    requires
        prospect_list_within(value.prospects@, element),
        value.attributes == element.attributes,
        nodes_within(value.extensions@, element),
    ensures
        adf_within(value, element),
{
    reveal(adf_within);
    reveal(nodes_within);
    reveal(prospect_list_within);
}

} // verus!
