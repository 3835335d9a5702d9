//! From the XML tree to the typed model.

use crate::document::{Attribute, AttributeView, ElementView, NodeView, XmlElement, XmlNode};
use crate::error::{Error, ErrorView};
use crate::model::{
    Address, AddressView, Adf, AdfView, ColorCombination, ColorCombinationView, Contact,
    ContactView, Customer, CustomerView, Finance, FinanceView, Id, IdView, Name, NameView, Price,
    PriceView, Prospect, ProspectView, Provider, ProviderView, TextElement, TextElementView,
    TextPart, TextPartView, Timeframe, TimeframeView, Vehicle, VehicleOption, VehicleOptionView,
    VehicleView, Vendor, VendorView,
};
use crate::{borrowing, document, model, ownership, text, tree};
use std::borrow::Cow;
use std::ops::Range;
use vstd::prelude::*;

verus! {

/// The value of the first attribute that has a name.
pub open spec fn attribute_named(attributes: Seq<AttributeView>, name: Seq<char>) -> Option<
    Seq<char>,
>
    decreases attributes.len(),
{
    if attributes.len() == 0 {
        None
    } else if attributes[0].name == name {
        Some(attributes[0].value)
    } else {
        attribute_named(attributes.skip(1), name)
    }
}

/// The value of the first attribute that has a name.
pub fn attr<'a>(attributes: &[Attribute<'a>], name: &str) -> (r: Option<Cow<'a, str>>)
    ensures
        model::opt(r) == attribute_named(document::views(attributes@), name@),
        forall|owned: Seq<char>| #[trigger]
            borrowing::slot_owns(r, owned) ==> borrowing::attributes_own(attributes@, owned),
{
    let ghost all = document::views(attributes@);
    let mut i: usize = 0;
    assert(all.skip(0) =~= all);
    while i < attributes.len()
        invariant
            i <= attributes@.len(),
            all == document::views(attributes@),
            attribute_named(all, name@) == attribute_named(all.skip(i as int), name@),
        decreases attributes@.len() - i,
    {
        if text::str_eq(text::text_str(&attributes[i].name), name) {
            return Some(text::text_clone(&attributes[i].value));
        }
        assert(all.skip(i as int).skip(1) =~= all.skip(i + 1));
        i += 1;
    }
    None
}

/// The child elements that have a name, in document order.
pub open spec fn named(children: Seq<NodeView>, name: Seq<char>) -> Seq<ElementView>
    decreases children.len(),
{
    if children.len() == 0 {
        seq![]
    } else {
        let before = named(children.drop_last(), name);
        match children.last() {
            NodeView::Element(element) => if element.name == name {
                before.push(element)
            } else {
                before
            },
            _ => before,
        }
    }
}

/// A child goes to the extensions, `before` being what stands before it: it is no
/// white space, it is none of the elements that may be repeated, and it is not the
/// first of the elements that may occur once.
pub open spec fn is_extension(
    before: Seq<NodeView>,
    child: NodeView,
    singular: spec_fn(Seq<char>) -> bool,
    repeated: spec_fn(Seq<char>) -> bool,
) -> bool {
    match child {
        NodeView::Element(element) => {
            &&& !repeated(element.name)
            &&& !(singular(element.name) && named(before, element.name).len() == 0)
        },
        NodeView::Text(value) => !tree::blank(value),
        _ => true,
    }
}

/// The children that go to the extensions, in document order.
pub open spec fn extensions_of(
    children: Seq<NodeView>,
    singular: spec_fn(Seq<char>) -> bool,
    repeated: spec_fn(Seq<char>) -> bool,
) -> Seq<NodeView>
    decreases children.len(),
{
    if children.len() == 0 {
        seq![]
    } else {
        let before = extensions_of(children.drop_last(), singular, repeated);
        if is_extension(children.drop_last(), children.last(), singular, repeated) {
            before.push(children.last())
        } else {
            before
        }
    }
}

/// What each of a list of elements is converted to.
pub open spec fn each<T>(elements: Seq<ElementView>, of: spec_fn(ElementView) -> T) -> Seq<T> {
    elements.map_values(of)
}

/// What the first of a list of elements is converted to.
pub open spec fn first<T>(elements: Seq<ElementView>, of: spec_fn(ElementView) -> T) -> Option<T> {
    if elements.len() == 0 {
        None
    } else {
        Some(of(elements[0]))
    }
}

pub broadcast proof fn lemma_each_push<T>(
    elements: Seq<ElementView>,
    element: ElementView,
    of: spec_fn(ElementView) -> T,
)
    ensures
        #[trigger] each(elements.push(element), of) == each(elements, of).push(of(element)),
{
    assert(each(elements.push(element), of) =~= each(elements, of).push(of(element)));
}

/// The children up to and with the next are those before it and the next.
proof fn lemma_next_child(children: Seq<NodeView>, i: int)
    requires
        0 <= i < children.len(),
    ensures
        children.take(i + 1).len() == i + 1,
        children.take(i + 1).drop_last() == children.take(i),
        children.take(i + 1).last() == children[i],
{
    assert(children.take(i + 1).drop_last() =~= children.take(i));
}

/// The element that a child is. Other children, but for white space, go to the
/// extensions.
pub fn element_child_or_extension<'a>(node: XmlNode<'a>, extensions: &mut Vec<XmlNode<'a>>) -> (r:
    Option<XmlElement<'a>>)
    ensures
        match node {
            XmlNode::Element(element) => r == Some(element) && final(extensions)@ == old(
                extensions,
            )@,
            XmlNode::Text(value) => r is None && final(extensions)@ == (if tree::blank(value@) {
                old(extensions)@
            } else {
                old(extensions)@.push(node)
            }),
            _ => r is None && final(extensions)@ == old(extensions)@.push(node),
        },
{
    match node {
        XmlNode::Element(element) => Some(element),
        XmlNode::Text(value) => {
            if !tree::is_blank(text::text_str(&value)) {
                extensions.push(XmlNode::Text(value));
            }
            None
        },
        extension => {
            extensions.push(extension);
            None
        },
    }
}

/// Fills a slot that is still empty with the converted child; a further child goes to
/// the extensions as it is.
pub fn set_singular<'a, T, F: FnOnce(XmlElement<'a>) -> T>(
    slot: &mut Option<T>,
    extensions: &mut Vec<XmlNode<'a>>,
    child: XmlElement<'a>,
    convert: F,
)
    requires
        call_requires(convert, (child,)),
    ensures
        match *old(slot) {
            Some(_) => {
                &&& *final(slot) == *old(slot)
                &&& final(extensions)@ == old(extensions)@.push(XmlNode::Element(child))
            },
            None => {
                &&& *final(slot) is Some
                &&& call_ensures(convert, (child,), (*final(slot))->0)
                &&& final(extensions)@ == old(extensions)@
            },
        },
{
    if slot.is_some() {
        extensions.push(XmlNode::Element(child));
    } else {
        *slot = Some(convert(child));
    }
}

/// The part of a text that a child becomes.
pub open spec fn part_of(child: NodeView) -> TextPartView {
    match child {
        NodeView::Text(value) => TextPartView::Text(value),
        NodeView::CData(value) => TextPartView::CData(value),
        NodeView::EntityRef(name) => TextPartView::EntityRef(name),
        node => TextPartView::Node(node),
    }
}

/// The parts of a text, one for each child.
pub open spec fn parts_of(children: Seq<NodeView>) -> Seq<TextPartView> {
    children.map_values(|child: NodeView| part_of(child))
}

/// The parts of a text.
pub fn text_parts<'a>(children: Vec<XmlNode<'a>>) -> (r: Vec<TextPart<'a>>)
    ensures
        document::views(r@) == parts_of(document::views(children@)),
        forall|owned: Seq<char>| #[trigger]
            ownership::parts_own(r@, owned) ==> borrowing::nodes_own(children@, owned),
{
    let ghost all = children@;
    let mut parts: Vec<TextPart<'a>> = Vec::new();
    for child in it: children
        invariant
            it.seq() == all,
            parts@.len() == it.index(),
            forall|j: int|
                0 <= j < it.index() ==> (#[trigger] parts@[j])@ == part_of(all[j]@),
            forall|j: int, owned: Seq<char>|
                0 <= j < it.index() && #[trigger] ownership::part_owns(parts@[j], owned)
                    ==> borrowing::node_owns(all[j], owned),
    {
        match child {
            XmlNode::Text(value) => parts.push(TextPart::Text(value)),
            XmlNode::CData(value) => parts.push(TextPart::CData(value)),
            XmlNode::EntityRef(name) => parts.push(TextPart::EntityRef(name)),
            node => parts.push(TextPart::Node(node)),
        }
    }
    assert(document::views(parts@) =~= parts_of(document::views(all)));
    assert forall|owned: Seq<char>| #[trigger]
        ownership::parts_own(parts@, owned) implies borrowing::nodes_own(all, owned) by {
        let j = choose|j: int|
            0 <= j < parts@.len() && ownership::part_owns(#[trigger] parts@[j], owned);
        assert(borrowing::node_owns(all[j], owned));
    }
    parts
}

/// The text element that an element stands for.
pub open spec fn text_of(element: ElementView) -> TextElementView {
    TextElementView {
        parts: parts_of(element.children),
        attributes: element.attributes,
        span: element.span,
    }
}

pub open spec fn first_text(elements: Seq<ElementView>) -> Option<TextElementView> {
    first(elements, |element: ElementView| text_of(element))
}

pub open spec fn each_text(elements: Seq<ElementView>) -> Seq<TextElementView> {
    each(elements, |element: ElementView| text_of(element))
}

/// The text element that an element stands for.
pub fn text_from_element<'a>(element: XmlElement<'a>) -> (r: TextElement<'a>)
    ensures
        r@ == text_of(element@),
        ownership::text_within(r, element),
{
    proof {
        document::lemma_nodes_model(element.children@);
    }
    let ghost source = element;
    let XmlElement { name: _, attributes, children, span } = element;
    let text = TextElement {
        parts: text_parts(children),
        attributes,
        span,
    };
    proof {
        ownership::lemma_text_within(text, source);
    }
    text
}

/// The identifier that an element stands for.
pub open spec fn id_of(element: ElementView) -> IdView {
    IdView {
        sequence: attribute_named(element.attributes, "sequence"@),
        source: attribute_named(element.attributes, "source"@),
        parts: parts_of(element.children),
        attributes: element.attributes,
        span: element.span,
    }
}

pub open spec fn each_id(elements: Seq<ElementView>) -> Seq<IdView> {
    each(elements, |element: ElementView| id_of(element))
}

/// The identifier that an element stands for.
pub fn id_from_element<'a>(element: XmlElement<'a>) -> (r: Id<'a>)
    ensures
        r@ == id_of(element@),
        ownership::id_within(r, element),
{
    proof {
        document::lemma_nodes_model(element.children@);
    }
    let ghost source = element;
    let XmlElement { name: _, attributes, children, span } = element;
    let id = Id {
        sequence: attr(attributes.as_slice(), "sequence"),
        source: attr(attributes.as_slice(), "source"),
        parts: text_parts(children),
        attributes,
        span,
    };
    proof {
        ownership::lemma_id_within(id, source);
    }
    id
}

/// The price that an element stands for.
pub open spec fn price_of(element: ElementView) -> PriceView {
    PriceView {
        price_type: attribute_named(element.attributes, "type"@),
        currency: attribute_named(element.attributes, "currency"@),
        delta: attribute_named(element.attributes, "delta"@),
        relative_to: attribute_named(element.attributes, "relativeto"@),
        source: attribute_named(element.attributes, "source"@),
        parts: parts_of(element.children),
        attributes: element.attributes,
        span: element.span,
    }
}

pub open spec fn each_price(elements: Seq<ElementView>) -> Seq<PriceView> {
    each(elements, |element: ElementView| price_of(element))
}

/// The price that an element stands for.
pub fn price_from_element<'a>(element: XmlElement<'a>) -> (r: Price<'a>)
    ensures
        r@ == price_of(element@),
        ownership::price_within(r, element),
{
    proof {
        document::lemma_nodes_model(element.children@);
    }
    let ghost source = element;
    let XmlElement { name: _, attributes, children, span } = element;
    let price = Price {
        price_type: attr(attributes.as_slice(), "type"),
        currency: attr(attributes.as_slice(), "currency"),
        delta: attr(attributes.as_slice(), "delta"),
        relative_to: attr(attributes.as_slice(), "relativeto"),
        source: attr(attributes.as_slice(), "source"),
        parts: text_parts(children),
        attributes,
        span,
    };
    proof {
        ownership::lemma_price_within(price, source);
    }
    price
}

/// The name that an element stands for.
pub open spec fn name_of(element: ElementView) -> NameView {
    NameView {
        part: attribute_named(element.attributes, "part"@),
        name_type: attribute_named(element.attributes, "type"@),
        parts: parts_of(element.children),
        attributes: element.attributes,
        span: element.span,
    }
}

pub open spec fn first_name(elements: Seq<ElementView>) -> Option<NameView> {
    first(elements, |element: ElementView| name_of(element))
}

pub open spec fn each_name(elements: Seq<ElementView>) -> Seq<NameView> {
    each(elements, |element: ElementView| name_of(element))
}

/// The name that an element stands for.
pub fn name_from_element<'a>(element: XmlElement<'a>) -> (r: Name<'a>)
    ensures
        r@ == name_of(element@),
        ownership::name_within(r, element),
{
    proof {
        document::lemma_nodes_model(element.children@);
    }
    let ghost source = element;
    let XmlElement { name: _, attributes, children, span } = element;
    let name = Name {
        part: attr(attributes.as_slice(), "part"),
        name_type: attr(attributes.as_slice(), "type"),
        parts: text_parts(children),
        attributes,
        span,
    };
    proof {
        ownership::lemma_name_within(name, source);
    }
    name
}

/// The children of a color combination that occur once.
pub open spec fn color_combination_singular(name: Seq<char>) -> bool {
    ||| name == "interiorcolor"@
    ||| name == "exteriorcolor"@
    ||| name == "preference"@
}

/// The children of a color combination that may be repeated.
pub open spec fn color_combination_repeated(name: Seq<char>) -> bool {
    false
}

/// The children of a color combination that go to its extensions.
pub open spec fn color_combination_extensions(children: Seq<NodeView>) -> Seq<NodeView> {
    extensions_of(
        children,
        |name: Seq<char>| color_combination_singular(name),
        |name: Seq<char>| color_combination_repeated(name),
    )
}

/// The color combination that an element stands for.
pub open spec fn color_combination_of(element: ElementView) -> ColorCombinationView {
    ColorCombinationView {
        interior_color: first_text(named(element.children, "interiorcolor"@)),
        exterior_color: first_text(named(element.children, "exteriorcolor"@)),
        preference: first_text(named(element.children, "preference"@)),
        attributes: element.attributes,
        extensions: color_combination_extensions(element.children),
        span: element.span,
    }
}

pub open spec fn each_color_combination(elements: Seq<ElementView>) -> Seq<ColorCombinationView> {
    each(elements, |element: ElementView| color_combination_of(element))
}

/// The names of the children of a color combination differ.
pub proof fn lemma_color_combination_names()
    ensures
        "interiorcolor"@.len() == 13,
        "interiorcolor"@[0] == 'i',
        "exteriorcolor"@.len() == 13,
        "exteriorcolor"@[0] == 'e',
        "preference"@.len() == 10,
        "preference"@[0] == 'p',
{
    reveal_strlit("interiorcolor");
    reveal_strlit("exteriorcolor");
    reveal_strlit("preference");
}

/// The color combination that an element stands for.
pub fn color_combination_from_element<'a>(element: XmlElement<'a>) -> (r: ColorCombination<'a>)
    ensures
        r@ == color_combination_of(element@),
        ownership::color_combination_within(r, element),
{
    let ghost source = element;
    let ghost whole = element@;
    let ghost all = document::views(element.children@);
    proof {
        document::lemma_nodes_model(element.children@);
    }
    let XmlElement { name: _, attributes, children, span } = element;
    let ghost nodes = children@;
    let mut colors = ColorCombination {
        attributes,
        span,
        ..ColorCombination::default()
    };
    assert(all.take(0) =~= seq![]);
    proof {
        ownership::lemma_text_slot_empty(source);
        ownership::lemma_no_nodes(colors.extensions@, source);
    }
    for node in it: children
        invariant
            it.seq() == nodes,
            all == document::views(nodes),
            model::opt(colors.interior_color) == first_text(
                named(all.take(it.index() as int), "interiorcolor"@),
            ),
            model::opt(colors.exterior_color) == first_text(
                named(all.take(it.index() as int), "exteriorcolor"@),
            ),
            model::opt(colors.preference) == first_text(
                named(all.take(it.index() as int), "preference"@),
            ),
            document::views(colors.extensions@) == color_combination_extensions(
                all.take(it.index() as int),
            ),
            document::views(colors.attributes@) == whole.attributes,
            colors.span == whole.span,
            nodes == source.children@,
            ownership::text_slot_within(colors.interior_color, source),
            ownership::text_slot_within(colors.exterior_color, source),
            ownership::text_slot_within(colors.preference, source),
            colors.attributes == source.attributes,
            ownership::nodes_within(colors.extensions@, source),
    {
        proof {
            lemma_color_combination_names();
            lemma_next_child(all, it.index() as int);
            broadcast use {document::lemma_views_push, lemma_each_push};

            ownership::lemma_child_within(source, it.index() as int);
        }
        let ghost before = colors.extensions@;
        let taken = element_child_or_extension(node, &mut colors.extensions);
        proof {
            ownership::lemma_extended(before, colors.extensions@, node, source);
        }
        if let Some(child) = taken {
            let ghost known = colors;
            if text::str_eq(text::text_str(&child.name), "interiorcolor") {
                set_singular(
                    &mut colors.interior_color,
                    &mut colors.extensions,
                    child,
                    text_from_element,
                );
                proof {
                    ownership::lemma_text_slot_set(
                        known.interior_color,
                        colors.interior_color,
                        child,
                        source,
                    );
                }
            } else if text::str_eq(text::text_str(&child.name), "exteriorcolor") {
                set_singular(
                    &mut colors.exterior_color,
                    &mut colors.extensions,
                    child,
                    text_from_element,
                );
                proof {
                    ownership::lemma_text_slot_set(
                        known.exterior_color,
                        colors.exterior_color,
                        child,
                        source,
                    );
                }
            } else if text::str_eq(text::text_str(&child.name), "preference") {
                set_singular(
                    &mut colors.preference,
                    &mut colors.extensions,
                    child,
                    text_from_element,
                );
                proof {
                    ownership::lemma_text_slot_set(
                        known.preference,
                        colors.preference,
                        child,
                        source,
                    );
                }
            } else {
                colors.extensions.push(XmlNode::Element(child));
            }
            proof {
                ownership::lemma_extended(
                    known.extensions@,
                    colors.extensions@,
                    XmlNode::Element(child),
                    source,
                );
            }
        }
    }
    assert(all.take(all.len() as int) =~= all);
    proof {
        ownership::lemma_color_combination_within(colors, source);
    }
    colors
}

/// The children of a vehicle option that occur once.
pub open spec fn option_singular(name: Seq<char>) -> bool {
    ||| name == "optionname"@
    ||| name == "manufacturercode"@
    ||| name == "stock"@
    ||| name == "weighting"@
}

/// The children of a vehicle option that may be repeated.
pub open spec fn option_repeated(name: Seq<char>) -> bool {
    name == "price"@
}

/// The children of a vehicle option that go to its extensions.
pub open spec fn option_extensions(children: Seq<NodeView>) -> Seq<NodeView> {
    extensions_of(
        children,
        |name: Seq<char>| option_singular(name),
        |name: Seq<char>| option_repeated(name),
    )
}

/// The vehicle option that an element stands for.
pub open spec fn option_of(element: ElementView) -> VehicleOptionView {
    VehicleOptionView {
        option_name: first_text(named(element.children, "optionname"@)),
        manufacturer_code: first_text(named(element.children, "manufacturercode"@)),
        stock: first_text(named(element.children, "stock"@)),
        weighting: first_text(named(element.children, "weighting"@)),
        prices: each_price(named(element.children, "price"@)),
        attributes: element.attributes,
        extensions: option_extensions(element.children),
        span: element.span,
    }
}

pub open spec fn each_option(elements: Seq<ElementView>) -> Seq<VehicleOptionView> {
    each(elements, |element: ElementView| option_of(element))
}

/// The names of the children of a vehicle option differ.
pub proof fn lemma_option_names()
    ensures
        "optionname"@.len() == 10,
        "optionname"@[0] == 'o',
        "manufacturercode"@.len() == 16,
        "manufacturercode"@[0] == 'm',
        "stock"@.len() == 5,
        "stock"@[0] == 's',
        "weighting"@.len() == 9,
        "weighting"@[0] == 'w',
        "price"@.len() == 5,
        "price"@[0] == 'p',
{
    reveal_strlit("optionname");
    reveal_strlit("manufacturercode");
    reveal_strlit("stock");
    reveal_strlit("weighting");
    reveal_strlit("price");
}

/// The vehicle option that an element stands for.
pub fn option_from_element<'a>(element: XmlElement<'a>) -> (r: VehicleOption<'a>)
    ensures
        r@ == option_of(element@),
        ownership::option_within(r, element),
{
    let ghost source = element;
    let ghost whole = element@;
    let ghost all = document::views(element.children@);
    proof {
        document::lemma_nodes_model(element.children@);
    }
    let XmlElement { name: _, attributes, children, span } = element;
    let ghost nodes = children@;
    let mut option = VehicleOption {
        attributes,
        span,
        ..VehicleOption::default()
    };
    assert(all.take(0) =~= seq![]);
    assert(document::views(option.prices@) =~= each_price(seq![]));
    proof {
        ownership::lemma_text_slot_empty(source);
        ownership::lemma_price_list_empty(option.prices@, source);
        ownership::lemma_no_nodes(option.extensions@, source);
    }
    for node in it: children
        invariant
            it.seq() == nodes,
            all == document::views(nodes),
            model::opt(option.option_name) == first_text(
                named(all.take(it.index() as int), "optionname"@),
            ),
            model::opt(option.manufacturer_code) == first_text(
                named(all.take(it.index() as int), "manufacturercode"@),
            ),
            model::opt(option.stock) == first_text(named(all.take(it.index() as int), "stock"@)),
            model::opt(option.weighting) == first_text(
                named(all.take(it.index() as int), "weighting"@),
            ),
            document::views(option.prices@) == each_price(
                named(all.take(it.index() as int), "price"@),
            ),
            document::views(option.extensions@) == option_extensions(all.take(it.index() as int)),
            document::views(option.attributes@) == whole.attributes,
            option.span == whole.span,
            nodes == source.children@,
            ownership::text_slot_within(option.option_name, source),
            ownership::text_slot_within(option.manufacturer_code, source),
            ownership::text_slot_within(option.stock, source),
            ownership::text_slot_within(option.weighting, source),
            ownership::price_list_within(option.prices@, source),
            option.attributes == source.attributes,
            ownership::nodes_within(option.extensions@, source),
    {
        proof {
            lemma_option_names();
            lemma_next_child(all, it.index() as int);
            broadcast use {document::lemma_views_push, lemma_each_push};

            ownership::lemma_child_within(source, it.index() as int);
        }
        let ghost before = option.extensions@;
        let taken = element_child_or_extension(node, &mut option.extensions);
        proof {
            ownership::lemma_extended(before, option.extensions@, node, source);
        }
        if let Some(child) = taken {
            let ghost known = option;
            if text::str_eq(text::text_str(&child.name), "optionname") {
                set_singular(
                    &mut option.option_name,
                    &mut option.extensions,
                    child,
                    text_from_element,
                );
                proof {
                    ownership::lemma_text_slot_set(
                        known.option_name,
                        option.option_name,
                        child,
                        source,
                    );
                }
            } else if text::str_eq(text::text_str(&child.name), "manufacturercode") {
                set_singular(
                    &mut option.manufacturer_code,
                    &mut option.extensions,
                    child,
                    text_from_element,
                );
                proof {
                    ownership::lemma_text_slot_set(
                        known.manufacturer_code,
                        option.manufacturer_code,
                        child,
                        source,
                    );
                }
            } else if text::str_eq(text::text_str(&child.name), "stock") {
                set_singular(
                    &mut option.stock,
                    &mut option.extensions,
                    child,
                    text_from_element,
                );
                proof {
                    ownership::lemma_text_slot_set(known.stock, option.stock, child, source);
                }
            } else if text::str_eq(text::text_str(&child.name), "weighting") {
                set_singular(
                    &mut option.weighting,
                    &mut option.extensions,
                    child,
                    text_from_element,
                );
                proof {
                    ownership::lemma_text_slot_set(
                        known.weighting,
                        option.weighting,
                        child,
                        source,
                    );
                }
            } else if text::str_eq(text::text_str(&child.name), "price") {
                let value = price_from_element(child);
                proof {
                    ownership::lemma_price_list_push(option.prices@, value, child, source);
                }
                option.prices.push(value);
            } else {
                option.extensions.push(XmlNode::Element(child));
            }
            proof {
                ownership::lemma_extended(
                    known.extensions@,
                    option.extensions@,
                    XmlNode::Element(child),
                    source,
                );
            }
        }
    }
    assert(all.take(all.len() as int) =~= all);
    proof {
        ownership::lemma_option_within(option, source);
    }
    option
}

/// The children of a finance that occur once.
pub open spec fn finance_singular(name: Seq<char>) -> bool {
    name == "method"@
}

/// The children of a finance that may be repeated.
pub open spec fn finance_repeated(name: Seq<char>) -> bool {
    ||| name == "amount"@
    ||| name == "balance"@
}

/// The children of a finance that go to its extensions.
pub open spec fn finance_extensions(children: Seq<NodeView>) -> Seq<NodeView> {
    extensions_of(
        children,
        |name: Seq<char>| finance_singular(name),
        |name: Seq<char>| finance_repeated(name),
    )
}

/// The finance that an element stands for.
pub open spec fn finance_of(element: ElementView) -> FinanceView {
    FinanceView {
        method: first_text(named(element.children, "method"@)),
        amounts: each_text(named(element.children, "amount"@)),
        balances: each_text(named(element.children, "balance"@)),
        attributes: element.attributes,
        extensions: finance_extensions(element.children),
        span: element.span,
    }
}

pub open spec fn first_finance(elements: Seq<ElementView>) -> Option<FinanceView> {
    first(elements, |element: ElementView| finance_of(element))
}

/// The names of the children of a finance differ.
pub proof fn lemma_finance_names()
    ensures
        "method"@.len() == 6,
        "method"@[0] == 'm',
        "amount"@.len() == 6,
        "amount"@[0] == 'a',
        "balance"@.len() == 7,
        "balance"@[0] == 'b',
{
    reveal_strlit("method");
    reveal_strlit("amount");
    reveal_strlit("balance");
}

/// The finance that an element stands for.
pub fn finance_from_element<'a>(element: XmlElement<'a>) -> (r: Finance<'a>)
    ensures
        r@ == finance_of(element@),
        ownership::finance_within(r, element),
{
    let ghost source = element;
    let ghost whole = element@;
    let ghost all = document::views(element.children@);
    proof {
        document::lemma_nodes_model(element.children@);
    }
    let XmlElement { name: _, attributes, children, span } = element;
    let ghost nodes = children@;
    let mut finance = Finance {
        attributes,
        span,
        ..Finance::default()
    };
    assert(all.take(0) =~= seq![]);
    assert(document::views(finance.amounts@) =~= each_text(seq![]));
    assert(document::views(finance.balances@) =~= each_text(seq![]));
    proof {
        ownership::lemma_text_slot_empty(source);
        ownership::lemma_text_list_empty(finance.amounts@, source);
        ownership::lemma_text_list_empty(finance.balances@, source);
        ownership::lemma_no_nodes(finance.extensions@, source);
    }
    for node in it: children
        invariant
            it.seq() == nodes,
            all == document::views(nodes),
            model::opt(finance.method) == first_text(named(all.take(it.index() as int), "method"@)),
            document::views(finance.amounts@) == each_text(
                named(all.take(it.index() as int), "amount"@),
            ),
            document::views(finance.balances@) == each_text(
                named(all.take(it.index() as int), "balance"@),
            ),
            document::views(finance.extensions@) == finance_extensions(all.take(it.index() as int)),
            document::views(finance.attributes@) == whole.attributes,
            finance.span == whole.span,
            nodes == source.children@,
            ownership::text_slot_within(finance.method, source),
            ownership::text_list_within(finance.amounts@, source),
            ownership::text_list_within(finance.balances@, source),
            finance.attributes == source.attributes,
            ownership::nodes_within(finance.extensions@, source),
    {
        proof {
            lemma_finance_names();
            lemma_next_child(all, it.index() as int);
            broadcast use {document::lemma_views_push, lemma_each_push};

            ownership::lemma_child_within(source, it.index() as int);
        }
        let ghost before = finance.extensions@;
        let taken = element_child_or_extension(node, &mut finance.extensions);
        proof {
            ownership::lemma_extended(before, finance.extensions@, node, source);
        }
        if let Some(child) = taken {
            let ghost known = finance;
            if text::str_eq(text::text_str(&child.name), "method") {
                set_singular(
                    &mut finance.method,
                    &mut finance.extensions,
                    child,
                    text_from_element,
                );
                proof {
                    ownership::lemma_text_slot_set(known.method, finance.method, child, source);
                }
            } else if text::str_eq(text::text_str(&child.name), "amount") {
                let value = text_from_element(child);
                proof {
                    ownership::lemma_text_list_push(finance.amounts@, value, child, source);
                }
                finance.amounts.push(value);
            } else if text::str_eq(text::text_str(&child.name), "balance") {
                let value = text_from_element(child);
                proof {
                    ownership::lemma_text_list_push(finance.balances@, value, child, source);
                }
                finance.balances.push(value);
            } else {
                finance.extensions.push(XmlNode::Element(child));
            }
            proof {
                ownership::lemma_extended(
                    known.extensions@,
                    finance.extensions@,
                    XmlNode::Element(child),
                    source,
                );
            }
        }
    }
    assert(all.take(all.len() as int) =~= all);
    proof {
        ownership::lemma_finance_within(finance, source);
    }
    finance
}

/// The children of a vehicle that occur once.
pub open spec fn vehicle_singular(name: Seq<char>) -> bool {
    ||| name == "year"@
    ||| name == "make"@
    ||| name == "model"@
    ||| name == "vin"@
    ||| name == "stock"@
    ||| name == "trim"@
    ||| name == "doors"@
    ||| name == "bodystyle"@
    ||| name == "transmission"@
    ||| name == "odometer"@
    ||| name == "condition"@
    ||| name == "pricecomments"@
    ||| name == "finance"@
    ||| name == "comments"@
}

/// The children of a vehicle that may be repeated.
pub open spec fn vehicle_repeated(name: Seq<char>) -> bool {
    ||| name == "id"@
    ||| name == "colorcombination"@
    ||| name == "imagetag"@
    ||| name == "price"@
    ||| name == "option"@
}

/// The children of a vehicle that go to its extensions.
pub open spec fn vehicle_extensions(children: Seq<NodeView>) -> Seq<NodeView> {
    extensions_of(
        children,
        |name: Seq<char>| vehicle_singular(name),
        |name: Seq<char>| vehicle_repeated(name),
    )
}

/// The vehicle that an element stands for.
pub open spec fn vehicle_of(element: ElementView) -> VehicleView {
    VehicleView {
        interest: attribute_named(element.attributes, "interest"@),
        status: attribute_named(element.attributes, "status"@),
        ids: each_id(named(element.children, "id"@)),
        year: first_text(named(element.children, "year"@)),
        make: first_text(named(element.children, "make"@)),
        model: first_text(named(element.children, "model"@)),
        vin: first_text(named(element.children, "vin"@)),
        stock: first_text(named(element.children, "stock"@)),
        trim: first_text(named(element.children, "trim"@)),
        doors: first_text(named(element.children, "doors"@)),
        body_style: first_text(named(element.children, "bodystyle"@)),
        transmission: first_text(named(element.children, "transmission"@)),
        odometer: first_text(named(element.children, "odometer"@)),
        condition: first_text(named(element.children, "condition"@)),
        color_combinations: each_color_combination(named(element.children, "colorcombination"@)),
        image_tags: each_text(named(element.children, "imagetag"@)),
        prices: each_price(named(element.children, "price"@)),
        price_comments: first_text(named(element.children, "pricecomments"@)),
        options: each_option(named(element.children, "option"@)),
        finance: first_finance(named(element.children, "finance"@)),
        comments: first_text(named(element.children, "comments"@)),
        attributes: element.attributes,
        extensions: vehicle_extensions(element.children),
        span: element.span,
    }
}

pub open spec fn each_vehicle(elements: Seq<ElementView>) -> Seq<VehicleView> {
    each(elements, |element: ElementView| vehicle_of(element))
}

/// The names of the children of a vehicle differ.
pub proof fn lemma_vehicle_names()
    ensures
        "id"@.len() == 2,
        "id"@[0] == 'i',
        "year"@.len() == 4,
        "year"@[0] == 'y',
        "make"@.len() == 4,
        "make"@[0] == 'm',
        "model"@.len() == 5,
        "model"@[0] == 'm',
        "vin"@.len() == 3,
        "vin"@[0] == 'v',
        "stock"@.len() == 5,
        "stock"@[0] == 's',
        "trim"@.len() == 4,
        "trim"@[0] == 't',
        "doors"@.len() == 5,
        "doors"@[0] == 'd',
        "bodystyle"@.len() == 9,
        "bodystyle"@[0] == 'b',
        "transmission"@.len() == 12,
        "transmission"@[0] == 't',
        "odometer"@.len() == 8,
        "odometer"@[0] == 'o',
        "condition"@.len() == 9,
        "condition"@[0] == 'c',
        "colorcombination"@.len() == 16,
        "colorcombination"@[0] == 'c',
        "imagetag"@.len() == 8,
        "imagetag"@[0] == 'i',
        "price"@.len() == 5,
        "price"@[0] == 'p',
        "pricecomments"@.len() == 13,
        "pricecomments"@[0] == 'p',
        "option"@.len() == 6,
        "option"@[0] == 'o',
        "finance"@.len() == 7,
        "finance"@[0] == 'f',
        "comments"@.len() == 8,
        "comments"@[0] == 'c',
{
    reveal_strlit("id");
    reveal_strlit("year");
    reveal_strlit("make");
    reveal_strlit("model");
    reveal_strlit("vin");
    reveal_strlit("stock");
    reveal_strlit("trim");
    reveal_strlit("doors");
    reveal_strlit("bodystyle");
    reveal_strlit("transmission");
    reveal_strlit("odometer");
    reveal_strlit("condition");
    reveal_strlit("colorcombination");
    reveal_strlit("imagetag");
    reveal_strlit("price");
    reveal_strlit("pricecomments");
    reveal_strlit("option");
    reveal_strlit("finance");
    reveal_strlit("comments");
}

/// The vehicle that an element stands for.
pub fn vehicle_from_element<'a>(element: XmlElement<'a>) -> (r: Vehicle<'a>)
    ensures
        r@ == vehicle_of(element@),
        ownership::vehicle_within(r, element),
{
    let ghost source = element;
    let ghost whole = element@;
    let ghost all = document::views(element.children@);
    proof {
        document::lemma_nodes_model(element.children@);
    }
    let XmlElement { name: _, attributes, children, span } = element;
    let ghost nodes = children@;
    let mut vehicle = Vehicle {
        interest: attr(attributes.as_slice(), "interest"),
        status: attr(attributes.as_slice(), "status"),
        attributes,
        span,
        ..Vehicle::default()
    };
    assert(all.take(0) =~= seq![]);
    assert(document::views(vehicle.ids@) =~= each_id(seq![]));
    assert(document::views(vehicle.color_combinations@) =~= each_color_combination(seq![]));
    assert(document::views(vehicle.image_tags@) =~= each_text(seq![]));
    assert(document::views(vehicle.prices@) =~= each_price(seq![]));
    assert(document::views(vehicle.options@) =~= each_option(seq![]));
    proof {
        ownership::lemma_attribute_within(vehicle.interest, source);
        ownership::lemma_attribute_within(vehicle.status, source);
        ownership::lemma_finance_slot_empty(source);
        ownership::lemma_text_slot_empty(source);
        ownership::lemma_id_list_empty(vehicle.ids@, source);
        ownership::lemma_color_combination_list_empty(vehicle.color_combinations@, source);
        ownership::lemma_text_list_empty(vehicle.image_tags@, source);
        ownership::lemma_price_list_empty(vehicle.prices@, source);
        ownership::lemma_option_list_empty(vehicle.options@, source);
        ownership::lemma_no_nodes(vehicle.extensions@, source);
    }
    for node in it: children
        invariant
            it.seq() == nodes,
            all == document::views(nodes),
            document::views(vehicle.ids@) == each_id(named(all.take(it.index() as int), "id"@)),
            model::opt(vehicle.year) == first_text(named(all.take(it.index() as int), "year"@)),
            model::opt(vehicle.make) == first_text(named(all.take(it.index() as int), "make"@)),
            model::opt(vehicle.model) == first_text(named(all.take(it.index() as int), "model"@)),
            model::opt(vehicle.vin) == first_text(named(all.take(it.index() as int), "vin"@)),
            model::opt(vehicle.stock) == first_text(named(all.take(it.index() as int), "stock"@)),
            model::opt(vehicle.trim) == first_text(named(all.take(it.index() as int), "trim"@)),
            model::opt(vehicle.doors) == first_text(named(all.take(it.index() as int), "doors"@)),
            model::opt(vehicle.body_style) == first_text(
                named(all.take(it.index() as int), "bodystyle"@),
            ),
            model::opt(vehicle.transmission) == first_text(
                named(all.take(it.index() as int), "transmission"@),
            ),
            model::opt(vehicle.odometer) == first_text(
                named(all.take(it.index() as int), "odometer"@),
            ),
            model::opt(vehicle.condition) == first_text(
                named(all.take(it.index() as int), "condition"@),
            ),
            document::views(vehicle.color_combinations@) == each_color_combination(
                named(all.take(it.index() as int), "colorcombination"@),
            ),
            document::views(vehicle.image_tags@) == each_text(
                named(all.take(it.index() as int), "imagetag"@),
            ),
            document::views(vehicle.prices@) == each_price(
                named(all.take(it.index() as int), "price"@),
            ),
            model::opt(vehicle.price_comments) == first_text(
                named(all.take(it.index() as int), "pricecomments"@),
            ),
            document::views(vehicle.options@) == each_option(
                named(all.take(it.index() as int), "option"@),
            ),
            model::opt(vehicle.finance) == first_finance(
                named(all.take(it.index() as int), "finance"@),
            ),
            model::opt(vehicle.comments) == first_text(
                named(all.take(it.index() as int), "comments"@),
            ),
            document::views(vehicle.extensions@) == vehicle_extensions(all.take(it.index() as int)),
            model::opt(vehicle.interest) == attribute_named(whole.attributes, "interest"@),
            model::opt(vehicle.status) == attribute_named(whole.attributes, "status"@),
            document::views(vehicle.attributes@) == whole.attributes,
            vehicle.span == whole.span,
            nodes == source.children@,
            ownership::attribute_within(vehicle.interest, source),
            ownership::attribute_within(vehicle.status, source),
            ownership::id_list_within(vehicle.ids@, source),
            ownership::text_slot_within(vehicle.year, source),
            ownership::text_slot_within(vehicle.make, source),
            ownership::text_slot_within(vehicle.model, source),
            ownership::text_slot_within(vehicle.vin, source),
            ownership::text_slot_within(vehicle.stock, source),
            ownership::text_slot_within(vehicle.trim, source),
            ownership::text_slot_within(vehicle.doors, source),
            ownership::text_slot_within(vehicle.body_style, source),
            ownership::text_slot_within(vehicle.transmission, source),
            ownership::text_slot_within(vehicle.odometer, source),
            ownership::text_slot_within(vehicle.condition, source),
            ownership::color_combination_list_within(vehicle.color_combinations@, source),
            ownership::text_list_within(vehicle.image_tags@, source),
            ownership::price_list_within(vehicle.prices@, source),
            ownership::text_slot_within(vehicle.price_comments, source),
            ownership::option_list_within(vehicle.options@, source),
            ownership::finance_slot_within(vehicle.finance, source),
            ownership::text_slot_within(vehicle.comments, source),
            vehicle.attributes == source.attributes,
            ownership::nodes_within(vehicle.extensions@, source),
    {
        proof {
            lemma_vehicle_names();
            lemma_next_child(all, it.index() as int);
            broadcast use {document::lemma_views_push, lemma_each_push};

            ownership::lemma_child_within(source, it.index() as int);
        }
        let ghost before = vehicle.extensions@;
        let taken = element_child_or_extension(node, &mut vehicle.extensions);
        proof {
            ownership::lemma_extended(before, vehicle.extensions@, node, source);
        }
        if let Some(child) = taken {
            let ghost known = vehicle;
            if text::str_eq(text::text_str(&child.name), "id") {
                let value = id_from_element(child);
                proof {
                    ownership::lemma_id_list_push(vehicle.ids@, value, child, source);
                }
                vehicle.ids.push(value);
            } else if text::str_eq(text::text_str(&child.name), "year") {
                set_singular(
                    &mut vehicle.year,
                    &mut vehicle.extensions,
                    child,
                    text_from_element,
                );
                proof {
                    ownership::lemma_text_slot_set(known.year, vehicle.year, child, source);
                }
            } else if text::str_eq(text::text_str(&child.name), "make") {
                set_singular(
                    &mut vehicle.make,
                    &mut vehicle.extensions,
                    child,
                    text_from_element,
                );
                proof {
                    ownership::lemma_text_slot_set(known.make, vehicle.make, child, source);
                }
            } else if text::str_eq(text::text_str(&child.name), "model") {
                set_singular(
                    &mut vehicle.model,
                    &mut vehicle.extensions,
                    child,
                    text_from_element,
                );
                proof {
                    ownership::lemma_text_slot_set(known.model, vehicle.model, child, source);
                }
            } else if text::str_eq(text::text_str(&child.name), "vin") {
                set_singular(
                    &mut vehicle.vin,
                    &mut vehicle.extensions,
                    child,
                    text_from_element,
                );
                proof {
                    ownership::lemma_text_slot_set(known.vin, vehicle.vin, child, source);
                }
            } else if text::str_eq(text::text_str(&child.name), "stock") {
                set_singular(
                    &mut vehicle.stock,
                    &mut vehicle.extensions,
                    child,
                    text_from_element,
                );
                proof {
                    ownership::lemma_text_slot_set(known.stock, vehicle.stock, child, source);
                }
            } else if text::str_eq(text::text_str(&child.name), "trim") {
                set_singular(
                    &mut vehicle.trim,
                    &mut vehicle.extensions,
                    child,
                    text_from_element,
                );
                proof {
                    ownership::lemma_text_slot_set(known.trim, vehicle.trim, child, source);
                }
            } else if text::str_eq(text::text_str(&child.name), "doors") {
                set_singular(
                    &mut vehicle.doors,
                    &mut vehicle.extensions,
                    child,
                    text_from_element,
                );
                proof {
                    ownership::lemma_text_slot_set(known.doors, vehicle.doors, child, source);
                }
            } else if text::str_eq(text::text_str(&child.name), "bodystyle") {
                set_singular(
                    &mut vehicle.body_style,
                    &mut vehicle.extensions,
                    child,
                    text_from_element,
                );
                proof {
                    ownership::lemma_text_slot_set(
                        known.body_style,
                        vehicle.body_style,
                        child,
                        source,
                    );
                }
            } else if text::str_eq(text::text_str(&child.name), "transmission") {
                set_singular(
                    &mut vehicle.transmission,
                    &mut vehicle.extensions,
                    child,
                    text_from_element,
                );
                proof {
                    ownership::lemma_text_slot_set(
                        known.transmission,
                        vehicle.transmission,
                        child,
                        source,
                    );
                }
            } else if text::str_eq(text::text_str(&child.name), "odometer") {
                set_singular(
                    &mut vehicle.odometer,
                    &mut vehicle.extensions,
                    child,
                    text_from_element,
                );
                proof {
                    ownership::lemma_text_slot_set(known.odometer, vehicle.odometer, child, source);
                }
            } else if text::str_eq(text::text_str(&child.name), "condition") {
                set_singular(
                    &mut vehicle.condition,
                    &mut vehicle.extensions,
                    child,
                    text_from_element,
                );
                proof {
                    ownership::lemma_text_slot_set(
                        known.condition,
                        vehicle.condition,
                        child,
                        source,
                    );
                }
            } else if text::str_eq(text::text_str(&child.name), "colorcombination") {
                let value = color_combination_from_element(child);
                proof {
                    ownership::lemma_color_combination_list_push(
                        vehicle.color_combinations@,
                        value,
                        child,
                        source,
                    );
                }
                vehicle.color_combinations.push(value);
            } else if text::str_eq(text::text_str(&child.name), "imagetag") {
                let value = text_from_element(child);
                proof {
                    ownership::lemma_text_list_push(vehicle.image_tags@, value, child, source);
                }
                vehicle.image_tags.push(value);
            } else if text::str_eq(text::text_str(&child.name), "price") {
                let value = price_from_element(child);
                proof {
                    ownership::lemma_price_list_push(vehicle.prices@, value, child, source);
                }
                vehicle.prices.push(value);
            } else if text::str_eq(text::text_str(&child.name), "pricecomments") {
                set_singular(
                    &mut vehicle.price_comments,
                    &mut vehicle.extensions,
                    child,
                    text_from_element,
                );
                proof {
                    ownership::lemma_text_slot_set(
                        known.price_comments,
                        vehicle.price_comments,
                        child,
                        source,
                    );
                }
            } else if text::str_eq(text::text_str(&child.name), "option") {
                let value = option_from_element(child);
                proof {
                    ownership::lemma_option_list_push(vehicle.options@, value, child, source);
                }
                vehicle.options.push(value);
            } else if text::str_eq(text::text_str(&child.name), "finance") {
                set_singular(
                    &mut vehicle.finance,
                    &mut vehicle.extensions,
                    child,
                    finance_from_element,
                );
                proof {
                    ownership::lemma_finance_slot_set(
                        known.finance,
                        vehicle.finance,
                        child,
                        source,
                    );
                }
            } else if text::str_eq(text::text_str(&child.name), "comments") {
                set_singular(
                    &mut vehicle.comments,
                    &mut vehicle.extensions,
                    child,
                    text_from_element,
                );
                proof {
                    ownership::lemma_text_slot_set(known.comments, vehicle.comments, child, source);
                }
            } else {
                vehicle.extensions.push(XmlNode::Element(child));
            }
            proof {
                ownership::lemma_extended(
                    known.extensions@,
                    vehicle.extensions@,
                    XmlNode::Element(child),
                    source,
                );
            }
        }
    }
    assert(all.take(all.len() as int) =~= all);
    proof {
        ownership::lemma_vehicle_within(vehicle, source);
    }
    vehicle
}

/// The children of a timeframe that occur once.
pub open spec fn timeframe_singular(name: Seq<char>) -> bool {
    ||| name == "description"@
    ||| name == "earliestdate"@
    ||| name == "latestdate"@
}

/// The children of a timeframe that may be repeated.
pub open spec fn timeframe_repeated(name: Seq<char>) -> bool {
    false
}

/// The children of a timeframe that go to its extensions.
pub open spec fn timeframe_extensions(children: Seq<NodeView>) -> Seq<NodeView> {
    extensions_of(
        children,
        |name: Seq<char>| timeframe_singular(name),
        |name: Seq<char>| timeframe_repeated(name),
    )
}

/// The timeframe that an element stands for.
pub open spec fn timeframe_of(element: ElementView) -> TimeframeView {
    TimeframeView {
        description: first_text(named(element.children, "description"@)),
        earliest_date: first_text(named(element.children, "earliestdate"@)),
        latest_date: first_text(named(element.children, "latestdate"@)),
        attributes: element.attributes,
        extensions: timeframe_extensions(element.children),
        span: element.span,
    }
}

pub open spec fn first_timeframe(elements: Seq<ElementView>) -> Option<TimeframeView> {
    first(elements, |element: ElementView| timeframe_of(element))
}

/// The names of the children of a timeframe differ.
pub proof fn lemma_timeframe_names()
    ensures
        "description"@.len() == 11,
        "description"@[0] == 'd',
        "earliestdate"@.len() == 12,
        "earliestdate"@[0] == 'e',
        "latestdate"@.len() == 10,
        "latestdate"@[0] == 'l',
{
    reveal_strlit("description");
    reveal_strlit("earliestdate");
    reveal_strlit("latestdate");
}

/// The timeframe that an element stands for.
pub fn timeframe_from_element<'a>(element: XmlElement<'a>) -> (r: Timeframe<'a>)
    ensures
        r@ == timeframe_of(element@),
        ownership::timeframe_within(r, element),
{
    let ghost source = element;
    let ghost whole = element@;
    let ghost all = document::views(element.children@);
    proof {
        document::lemma_nodes_model(element.children@);
    }
    let XmlElement { name: _, attributes, children, span } = element;
    let ghost nodes = children@;
    let mut timeframe = Timeframe {
        attributes,
        span,
        ..Timeframe::default()
    };
    assert(all.take(0) =~= seq![]);
    proof {
        ownership::lemma_text_slot_empty(source);
        ownership::lemma_no_nodes(timeframe.extensions@, source);
    }
    for node in it: children
        invariant
            it.seq() == nodes,
            all == document::views(nodes),
            model::opt(timeframe.description) == first_text(
                named(all.take(it.index() as int), "description"@),
            ),
            model::opt(timeframe.earliest_date) == first_text(
                named(all.take(it.index() as int), "earliestdate"@),
            ),
            model::opt(timeframe.latest_date) == first_text(
                named(all.take(it.index() as int), "latestdate"@),
            ),
            document::views(timeframe.extensions@) == timeframe_extensions(
                all.take(it.index() as int),
            ),
            document::views(timeframe.attributes@) == whole.attributes,
            timeframe.span == whole.span,
            nodes == source.children@,
            ownership::text_slot_within(timeframe.description, source),
            ownership::text_slot_within(timeframe.earliest_date, source),
            ownership::text_slot_within(timeframe.latest_date, source),
            timeframe.attributes == source.attributes,
            ownership::nodes_within(timeframe.extensions@, source),
    {
        proof {
            lemma_timeframe_names();
            lemma_next_child(all, it.index() as int);
            broadcast use {document::lemma_views_push, lemma_each_push};

            ownership::lemma_child_within(source, it.index() as int);
        }
        let ghost before = timeframe.extensions@;
        let taken = element_child_or_extension(node, &mut timeframe.extensions);
        proof {
            ownership::lemma_extended(before, timeframe.extensions@, node, source);
        }
        if let Some(child) = taken {
            let ghost known = timeframe;
            if text::str_eq(text::text_str(&child.name), "description") {
                set_singular(
                    &mut timeframe.description,
                    &mut timeframe.extensions,
                    child,
                    text_from_element,
                );
                proof {
                    ownership::lemma_text_slot_set(
                        known.description,
                        timeframe.description,
                        child,
                        source,
                    );
                }
            } else if text::str_eq(text::text_str(&child.name), "earliestdate") {
                set_singular(
                    &mut timeframe.earliest_date,
                    &mut timeframe.extensions,
                    child,
                    text_from_element,
                );
                proof {
                    ownership::lemma_text_slot_set(
                        known.earliest_date,
                        timeframe.earliest_date,
                        child,
                        source,
                    );
                }
            } else if text::str_eq(text::text_str(&child.name), "latestdate") {
                set_singular(
                    &mut timeframe.latest_date,
                    &mut timeframe.extensions,
                    child,
                    text_from_element,
                );
                proof {
                    ownership::lemma_text_slot_set(
                        known.latest_date,
                        timeframe.latest_date,
                        child,
                        source,
                    );
                }
            } else {
                timeframe.extensions.push(XmlNode::Element(child));
            }
            proof {
                ownership::lemma_extended(
                    known.extensions@,
                    timeframe.extensions@,
                    XmlNode::Element(child),
                    source,
                );
            }
        }
    }
    assert(all.take(all.len() as int) =~= all);
    proof {
        ownership::lemma_timeframe_within(timeframe, source);
    }
    timeframe
}

/// The children of a address that occur once.
pub open spec fn address_singular(name: Seq<char>) -> bool {
    ||| name == "apartment"@
    ||| name == "city"@
    ||| name == "regioncode"@
    ||| name == "postalcode"@
    ||| name == "country"@
}

/// The children of a address that may be repeated.
pub open spec fn address_repeated(name: Seq<char>) -> bool {
    name == "street"@
}

/// The children of a address that go to its extensions.
pub open spec fn address_extensions(children: Seq<NodeView>) -> Seq<NodeView> {
    extensions_of(
        children,
        |name: Seq<char>| address_singular(name),
        |name: Seq<char>| address_repeated(name),
    )
}

/// The address that an element stands for.
pub open spec fn address_of(element: ElementView) -> AddressView {
    AddressView {
        address_type: attribute_named(element.attributes, "type"@),
        streets: each_text(named(element.children, "street"@)),
        apartment: first_text(named(element.children, "apartment"@)),
        city: first_text(named(element.children, "city"@)),
        region_code: first_text(named(element.children, "regioncode"@)),
        postal_code: first_text(named(element.children, "postalcode"@)),
        country: first_text(named(element.children, "country"@)),
        attributes: element.attributes,
        extensions: address_extensions(element.children),
        span: element.span,
    }
}

pub open spec fn each_address(elements: Seq<ElementView>) -> Seq<AddressView> {
    each(elements, |element: ElementView| address_of(element))
}

/// The names of the children of a address differ.
pub proof fn lemma_address_names()
    ensures
        "street"@.len() == 6,
        "street"@[0] == 's',
        "apartment"@.len() == 9,
        "apartment"@[0] == 'a',
        "city"@.len() == 4,
        "city"@[0] == 'c',
        "regioncode"@.len() == 10,
        "regioncode"@[0] == 'r',
        "postalcode"@.len() == 10,
        "postalcode"@[0] == 'p',
        "country"@.len() == 7,
        "country"@[0] == 'c',
{
    reveal_strlit("street");
    reveal_strlit("apartment");
    reveal_strlit("city");
    reveal_strlit("regioncode");
    reveal_strlit("postalcode");
    reveal_strlit("country");
}

/// The address that an element stands for.
pub fn address_from_element<'a>(element: XmlElement<'a>) -> (r: Address<'a>)
    ensures
        r@ == address_of(element@),
        ownership::address_within(r, element),
{
    let ghost source = element;
    let ghost whole = element@;
    let ghost all = document::views(element.children@);
    proof {
        document::lemma_nodes_model(element.children@);
    }
    let XmlElement { name: _, attributes, children, span } = element;
    let ghost nodes = children@;
    let mut address = Address {
        address_type: attr(attributes.as_slice(), "type"),
        attributes,
        span,
        ..Address::default()
    };
    assert(all.take(0) =~= seq![]);
    assert(document::views(address.streets@) =~= each_text(seq![]));
    proof {
        ownership::lemma_attribute_within(address.address_type, source);
        ownership::lemma_text_slot_empty(source);
        ownership::lemma_text_list_empty(address.streets@, source);
        ownership::lemma_no_nodes(address.extensions@, source);
    }
    for node in it: children
        invariant
            it.seq() == nodes,
            all == document::views(nodes),
            document::views(address.streets@) == each_text(
                named(all.take(it.index() as int), "street"@),
            ),
            model::opt(address.apartment) == first_text(
                named(all.take(it.index() as int), "apartment"@),
            ),
            model::opt(address.city) == first_text(named(all.take(it.index() as int), "city"@)),
            model::opt(address.region_code) == first_text(
                named(all.take(it.index() as int), "regioncode"@),
            ),
            model::opt(address.postal_code) == first_text(
                named(all.take(it.index() as int), "postalcode"@),
            ),
            model::opt(address.country) == first_text(
                named(all.take(it.index() as int), "country"@),
            ),
            document::views(address.extensions@) == address_extensions(all.take(it.index() as int)),
            model::opt(address.address_type) == attribute_named(whole.attributes, "type"@),
            document::views(address.attributes@) == whole.attributes,
            address.span == whole.span,
            nodes == source.children@,
            ownership::attribute_within(address.address_type, source),
            ownership::text_list_within(address.streets@, source),
            ownership::text_slot_within(address.apartment, source),
            ownership::text_slot_within(address.city, source),
            ownership::text_slot_within(address.region_code, source),
            ownership::text_slot_within(address.postal_code, source),
            ownership::text_slot_within(address.country, source),
            address.attributes == source.attributes,
            ownership::nodes_within(address.extensions@, source),
    {
        proof {
            lemma_address_names();
            lemma_next_child(all, it.index() as int);
            broadcast use {document::lemma_views_push, lemma_each_push};

            ownership::lemma_child_within(source, it.index() as int);
        }
        let ghost before = address.extensions@;
        let taken = element_child_or_extension(node, &mut address.extensions);
        proof {
            ownership::lemma_extended(before, address.extensions@, node, source);
        }
        if let Some(child) = taken {
            let ghost known = address;
            if text::str_eq(text::text_str(&child.name), "street") {
                let value = text_from_element(child);
                proof {
                    ownership::lemma_text_list_push(address.streets@, value, child, source);
                }
                address.streets.push(value);
            } else if text::str_eq(text::text_str(&child.name), "apartment") {
                set_singular(
                    &mut address.apartment,
                    &mut address.extensions,
                    child,
                    text_from_element,
                );
                proof {
                    ownership::lemma_text_slot_set(
                        known.apartment,
                        address.apartment,
                        child,
                        source,
                    );
                }
            } else if text::str_eq(text::text_str(&child.name), "city") {
                set_singular(
                    &mut address.city,
                    &mut address.extensions,
                    child,
                    text_from_element,
                );
                proof {
                    ownership::lemma_text_slot_set(known.city, address.city, child, source);
                }
            } else if text::str_eq(text::text_str(&child.name), "regioncode") {
                set_singular(
                    &mut address.region_code,
                    &mut address.extensions,
                    child,
                    text_from_element,
                );
                proof {
                    ownership::lemma_text_slot_set(
                        known.region_code,
                        address.region_code,
                        child,
                        source,
                    );
                }
            } else if text::str_eq(text::text_str(&child.name), "postalcode") {
                set_singular(
                    &mut address.postal_code,
                    &mut address.extensions,
                    child,
                    text_from_element,
                );
                proof {
                    ownership::lemma_text_slot_set(
                        known.postal_code,
                        address.postal_code,
                        child,
                        source,
                    );
                }
            } else if text::str_eq(text::text_str(&child.name), "country") {
                set_singular(
                    &mut address.country,
                    &mut address.extensions,
                    child,
                    text_from_element,
                );
                proof {
                    ownership::lemma_text_slot_set(known.country, address.country, child, source);
                }
            } else {
                address.extensions.push(XmlNode::Element(child));
            }
            proof {
                ownership::lemma_extended(
                    known.extensions@,
                    address.extensions@,
                    XmlNode::Element(child),
                    source,
                );
            }
        }
    }
    assert(all.take(all.len() as int) =~= all);
    proof {
        ownership::lemma_address_within(address, source);
    }
    address
}

/// The children of a contact that occur once.
pub open spec fn contact_singular(name: Seq<char>) -> bool {
    false
}

/// The children of a contact that may be repeated.
pub open spec fn contact_repeated(name: Seq<char>) -> bool {
    ||| name == "name"@
    ||| name == "email"@
    ||| name == "phone"@
    ||| name == "address"@
}

/// The children of a contact that go to its extensions.
pub open spec fn contact_extensions(children: Seq<NodeView>) -> Seq<NodeView> {
    extensions_of(
        children,
        |name: Seq<char>| contact_singular(name),
        |name: Seq<char>| contact_repeated(name),
    )
}

/// The contact that an element stands for.
pub open spec fn contact_of(element: ElementView) -> ContactView {
    ContactView {
        primary_contact: attribute_named(element.attributes, "primarycontact"@),
        names: each_name(named(element.children, "name"@)),
        emails: each_text(named(element.children, "email"@)),
        phones: each_text(named(element.children, "phone"@)),
        addresses: each_address(named(element.children, "address"@)),
        attributes: element.attributes,
        extensions: contact_extensions(element.children),
        span: element.span,
    }
}

pub open spec fn each_contact(elements: Seq<ElementView>) -> Seq<ContactView> {
    each(elements, |element: ElementView| contact_of(element))
}

/// The names of the children of a contact differ.
pub proof fn lemma_contact_names()
    ensures
        "name"@.len() == 4,
        "name"@[0] == 'n',
        "email"@.len() == 5,
        "email"@[0] == 'e',
        "phone"@.len() == 5,
        "phone"@[0] == 'p',
        "address"@.len() == 7,
        "address"@[0] == 'a',
{
    reveal_strlit("name");
    reveal_strlit("email");
    reveal_strlit("phone");
    reveal_strlit("address");
}

/// The contact that an element stands for.
pub fn contact_from_element<'a>(element: XmlElement<'a>) -> (r: Contact<'a>)
    ensures
        r@ == contact_of(element@),
        ownership::contact_within(r, element),
{
    let ghost source = element;
    let ghost whole = element@;
    let ghost all = document::views(element.children@);
    proof {
        document::lemma_nodes_model(element.children@);
    }
    let XmlElement { name: _, attributes, children, span } = element;
    let ghost nodes = children@;
    let mut contact = Contact {
        primary_contact: attr(attributes.as_slice(), "primarycontact"),
        attributes,
        span,
        ..Contact::default()
    };
    assert(all.take(0) =~= seq![]);
    assert(document::views(contact.names@) =~= each_name(seq![]));
    assert(document::views(contact.emails@) =~= each_text(seq![]));
    assert(document::views(contact.phones@) =~= each_text(seq![]));
    assert(document::views(contact.addresses@) =~= each_address(seq![]));
    proof {
        ownership::lemma_attribute_within(contact.primary_contact, source);
        ownership::lemma_name_list_empty(contact.names@, source);
        ownership::lemma_text_list_empty(contact.emails@, source);
        ownership::lemma_text_list_empty(contact.phones@, source);
        ownership::lemma_address_list_empty(contact.addresses@, source);
        ownership::lemma_no_nodes(contact.extensions@, source);
    }
    for node in it: children
        invariant
            it.seq() == nodes,
            all == document::views(nodes),
            document::views(contact.names@) == each_name(
                named(all.take(it.index() as int), "name"@),
            ),
            document::views(contact.emails@) == each_text(
                named(all.take(it.index() as int), "email"@),
            ),
            document::views(contact.phones@) == each_text(
                named(all.take(it.index() as int), "phone"@),
            ),
            document::views(contact.addresses@) == each_address(
                named(all.take(it.index() as int), "address"@),
            ),
            document::views(contact.extensions@) == contact_extensions(all.take(it.index() as int)),
            model::opt(contact.primary_contact) == attribute_named(
                whole.attributes,
                "primarycontact"@,
            ),
            document::views(contact.attributes@) == whole.attributes,
            contact.span == whole.span,
            nodes == source.children@,
            ownership::attribute_within(contact.primary_contact, source),
            ownership::name_list_within(contact.names@, source),
            ownership::text_list_within(contact.emails@, source),
            ownership::text_list_within(contact.phones@, source),
            ownership::address_list_within(contact.addresses@, source),
            contact.attributes == source.attributes,
            ownership::nodes_within(contact.extensions@, source),
    {
        proof {
            lemma_contact_names();
            lemma_next_child(all, it.index() as int);
            broadcast use {document::lemma_views_push, lemma_each_push};

            ownership::lemma_child_within(source, it.index() as int);
        }
        let ghost before = contact.extensions@;
        let taken = element_child_or_extension(node, &mut contact.extensions);
        proof {
            ownership::lemma_extended(before, contact.extensions@, node, source);
        }
        if let Some(child) = taken {
            let ghost known = contact;
            if text::str_eq(text::text_str(&child.name), "name") {
                let value = name_from_element(child);
                proof {
                    ownership::lemma_name_list_push(contact.names@, value, child, source);
                }
                contact.names.push(value);
            } else if text::str_eq(text::text_str(&child.name), "email") {
                let value = text_from_element(child);
                proof {
                    ownership::lemma_text_list_push(contact.emails@, value, child, source);
                }
                contact.emails.push(value);
            } else if text::str_eq(text::text_str(&child.name), "phone") {
                let value = text_from_element(child);
                proof {
                    ownership::lemma_text_list_push(contact.phones@, value, child, source);
                }
                contact.phones.push(value);
            } else if text::str_eq(text::text_str(&child.name), "address") {
                let value = address_from_element(child);
                proof {
                    ownership::lemma_address_list_push(contact.addresses@, value, child, source);
                }
                contact.addresses.push(value);
            } else {
                contact.extensions.push(XmlNode::Element(child));
            }
            proof {
                ownership::lemma_extended(
                    known.extensions@,
                    contact.extensions@,
                    XmlNode::Element(child),
                    source,
                );
            }
        }
    }
    assert(all.take(all.len() as int) =~= all);
    proof {
        ownership::lemma_contact_within(contact, source);
    }
    contact
}

/// The children of a customer that occur once.
pub open spec fn customer_singular(name: Seq<char>) -> bool {
    ||| name == "timeframe"@
    ||| name == "comments"@
}

/// The children of a customer that may be repeated.
pub open spec fn customer_repeated(name: Seq<char>) -> bool {
    ||| name == "id"@
    ||| name == "contact"@
}

/// The children of a customer that go to its extensions.
pub open spec fn customer_extensions(children: Seq<NodeView>) -> Seq<NodeView> {
    extensions_of(
        children,
        |name: Seq<char>| customer_singular(name),
        |name: Seq<char>| customer_repeated(name),
    )
}

/// The customer that an element stands for.
pub open spec fn customer_of(element: ElementView) -> CustomerView {
    CustomerView {
        ids: each_id(named(element.children, "id"@)),
        contacts: each_contact(named(element.children, "contact"@)),
        timeframe: first_timeframe(named(element.children, "timeframe"@)),
        comments: first_text(named(element.children, "comments"@)),
        attributes: element.attributes,
        extensions: customer_extensions(element.children),
        span: element.span,
    }
}

pub open spec fn first_customer(elements: Seq<ElementView>) -> Option<CustomerView> {
    first(elements, |element: ElementView| customer_of(element))
}

/// The names of the children of a customer differ.
pub proof fn lemma_customer_names()
    ensures
        "id"@.len() == 2,
        "id"@[0] == 'i',
        "contact"@.len() == 7,
        "contact"@[0] == 'c',
        "timeframe"@.len() == 9,
        "timeframe"@[0] == 't',
        "comments"@.len() == 8,
        "comments"@[0] == 'c',
{
    reveal_strlit("id");
    reveal_strlit("contact");
    reveal_strlit("timeframe");
    reveal_strlit("comments");
}

/// The customer that an element stands for.
pub fn customer_from_element<'a>(element: XmlElement<'a>) -> (r: Customer<'a>)
    ensures
        r@ == customer_of(element@),
        ownership::customer_within(r, element),
{
    let ghost source = element;
    let ghost whole = element@;
    let ghost all = document::views(element.children@);
    proof {
        document::lemma_nodes_model(element.children@);
    }
    let XmlElement { name: _, attributes, children, span } = element;
    let ghost nodes = children@;
    let mut customer = Customer {
        attributes,
        span,
        ..Customer::default()
    };
    assert(all.take(0) =~= seq![]);
    assert(document::views(customer.ids@) =~= each_id(seq![]));
    assert(document::views(customer.contacts@) =~= each_contact(seq![]));
    proof {
        ownership::lemma_text_slot_empty(source);
        ownership::lemma_timeframe_slot_empty(source);
        ownership::lemma_id_list_empty(customer.ids@, source);
        ownership::lemma_contact_list_empty(customer.contacts@, source);
        ownership::lemma_no_nodes(customer.extensions@, source);
    }
    for node in it: children
        invariant
            it.seq() == nodes,
            all == document::views(nodes),
            document::views(customer.ids@) == each_id(named(all.take(it.index() as int), "id"@)),
            document::views(customer.contacts@) == each_contact(
                named(all.take(it.index() as int), "contact"@),
            ),
            model::opt(customer.timeframe) == first_timeframe(
                named(all.take(it.index() as int), "timeframe"@),
            ),
            model::opt(customer.comments) == first_text(
                named(all.take(it.index() as int), "comments"@),
            ),
            document::views(customer.extensions@) == customer_extensions(
                all.take(it.index() as int),
            ),
            document::views(customer.attributes@) == whole.attributes,
            customer.span == whole.span,
            nodes == source.children@,
            ownership::id_list_within(customer.ids@, source),
            ownership::contact_list_within(customer.contacts@, source),
            ownership::timeframe_slot_within(customer.timeframe, source),
            ownership::text_slot_within(customer.comments, source),
            customer.attributes == source.attributes,
            ownership::nodes_within(customer.extensions@, source),
    {
        proof {
            lemma_customer_names();
            lemma_next_child(all, it.index() as int);
            broadcast use {document::lemma_views_push, lemma_each_push};

            ownership::lemma_child_within(source, it.index() as int);
        }
        let ghost before = customer.extensions@;
        let taken = element_child_or_extension(node, &mut customer.extensions);
        proof {
            ownership::lemma_extended(before, customer.extensions@, node, source);
        }
        if let Some(child) = taken {
            let ghost known = customer;
            if text::str_eq(text::text_str(&child.name), "id") {
                let value = id_from_element(child);
                proof {
                    ownership::lemma_id_list_push(customer.ids@, value, child, source);
                }
                customer.ids.push(value);
            } else if text::str_eq(text::text_str(&child.name), "contact") {
                let value = contact_from_element(child);
                proof {
                    ownership::lemma_contact_list_push(customer.contacts@, value, child, source);
                }
                customer.contacts.push(value);
            } else if text::str_eq(text::text_str(&child.name), "timeframe") {
                set_singular(
                    &mut customer.timeframe,
                    &mut customer.extensions,
                    child,
                    timeframe_from_element,
                );
                proof {
                    ownership::lemma_timeframe_slot_set(
                        known.timeframe,
                        customer.timeframe,
                        child,
                        source,
                    );
                }
            } else if text::str_eq(text::text_str(&child.name), "comments") {
                set_singular(
                    &mut customer.comments,
                    &mut customer.extensions,
                    child,
                    text_from_element,
                );
                proof {
                    ownership::lemma_text_slot_set(
                        known.comments,
                        customer.comments,
                        child,
                        source,
                    );
                }
            } else {
                customer.extensions.push(XmlNode::Element(child));
            }
            proof {
                ownership::lemma_extended(
                    known.extensions@,
                    customer.extensions@,
                    XmlNode::Element(child),
                    source,
                );
            }
        }
    }
    assert(all.take(all.len() as int) =~= all);
    proof {
        ownership::lemma_customer_within(customer, source);
    }
    customer
}

/// The children of a vendor that occur once.
pub open spec fn vendor_singular(name: Seq<char>) -> bool {
    ||| name == "vendorname"@
    ||| name == "url"@
}

/// The children of a vendor that may be repeated.
pub open spec fn vendor_repeated(name: Seq<char>) -> bool {
    ||| name == "id"@
    ||| name == "contact"@
}

/// The children of a vendor that go to its extensions.
pub open spec fn vendor_extensions(children: Seq<NodeView>) -> Seq<NodeView> {
    extensions_of(
        children,
        |name: Seq<char>| vendor_singular(name),
        |name: Seq<char>| vendor_repeated(name),
    )
}

/// The vendor that an element stands for.
pub open spec fn vendor_of(element: ElementView) -> VendorView {
    VendorView {
        ids: each_id(named(element.children, "id"@)),
        vendor_name: first_text(named(element.children, "vendorname"@)),
        url: first_text(named(element.children, "url"@)),
        contacts: each_contact(named(element.children, "contact"@)),
        attributes: element.attributes,
        extensions: vendor_extensions(element.children),
        span: element.span,
    }
}

pub open spec fn first_vendor(elements: Seq<ElementView>) -> Option<VendorView> {
    first(elements, |element: ElementView| vendor_of(element))
}

/// The names of the children of a vendor differ.
pub proof fn lemma_vendor_names()
    ensures
        "id"@.len() == 2,
        "id"@[0] == 'i',
        "vendorname"@.len() == 10,
        "vendorname"@[0] == 'v',
        "url"@.len() == 3,
        "url"@[0] == 'u',
        "contact"@.len() == 7,
        "contact"@[0] == 'c',
{
    reveal_strlit("id");
    reveal_strlit("vendorname");
    reveal_strlit("url");
    reveal_strlit("contact");
}

/// The vendor that an element stands for.
pub fn vendor_from_element<'a>(element: XmlElement<'a>) -> (r: Vendor<'a>)
    ensures
        r@ == vendor_of(element@),
        ownership::vendor_within(r, element),
{
    let ghost source = element;
    let ghost whole = element@;
    let ghost all = document::views(element.children@);
    proof {
        document::lemma_nodes_model(element.children@);
    }
    let XmlElement { name: _, attributes, children, span } = element;
    let ghost nodes = children@;
    let mut vendor = Vendor {
        attributes,
        span,
        ..Vendor::default()
    };
    assert(all.take(0) =~= seq![]);
    assert(document::views(vendor.ids@) =~= each_id(seq![]));
    assert(document::views(vendor.contacts@) =~= each_contact(seq![]));
    proof {
        ownership::lemma_text_slot_empty(source);
        ownership::lemma_id_list_empty(vendor.ids@, source);
        ownership::lemma_contact_list_empty(vendor.contacts@, source);
        ownership::lemma_no_nodes(vendor.extensions@, source);
    }
    for node in it: children
        invariant
            it.seq() == nodes,
            all == document::views(nodes),
            document::views(vendor.ids@) == each_id(named(all.take(it.index() as int), "id"@)),
            model::opt(vendor.vendor_name) == first_text(
                named(all.take(it.index() as int), "vendorname"@),
            ),
            model::opt(vendor.url) == first_text(named(all.take(it.index() as int), "url"@)),
            document::views(vendor.contacts@) == each_contact(
                named(all.take(it.index() as int), "contact"@),
            ),
            document::views(vendor.extensions@) == vendor_extensions(all.take(it.index() as int)),
            document::views(vendor.attributes@) == whole.attributes,
            vendor.span == whole.span,
            nodes == source.children@,
            ownership::id_list_within(vendor.ids@, source),
            ownership::text_slot_within(vendor.vendor_name, source),
            ownership::text_slot_within(vendor.url, source),
            ownership::contact_list_within(vendor.contacts@, source),
            vendor.attributes == source.attributes,
            ownership::nodes_within(vendor.extensions@, source),
    {
        proof {
            lemma_vendor_names();
            lemma_next_child(all, it.index() as int);
            broadcast use {document::lemma_views_push, lemma_each_push};

            ownership::lemma_child_within(source, it.index() as int);
        }
        let ghost before = vendor.extensions@;
        let taken = element_child_or_extension(node, &mut vendor.extensions);
        proof {
            ownership::lemma_extended(before, vendor.extensions@, node, source);
        }
        if let Some(child) = taken {
            let ghost known = vendor;
            if text::str_eq(text::text_str(&child.name), "id") {
                let value = id_from_element(child);
                proof {
                    ownership::lemma_id_list_push(vendor.ids@, value, child, source);
                }
                vendor.ids.push(value);
            } else if text::str_eq(text::text_str(&child.name), "vendorname") {
                set_singular(
                    &mut vendor.vendor_name,
                    &mut vendor.extensions,
                    child,
                    text_from_element,
                );
                proof {
                    ownership::lemma_text_slot_set(
                        known.vendor_name,
                        vendor.vendor_name,
                        child,
                        source,
                    );
                }
            } else if text::str_eq(text::text_str(&child.name), "url") {
                set_singular(
                    &mut vendor.url,
                    &mut vendor.extensions,
                    child,
                    text_from_element,
                );
                proof {
                    ownership::lemma_text_slot_set(known.url, vendor.url, child, source);
                }
            } else if text::str_eq(text::text_str(&child.name), "contact") {
                let value = contact_from_element(child);
                proof {
                    ownership::lemma_contact_list_push(vendor.contacts@, value, child, source);
                }
                vendor.contacts.push(value);
            } else {
                vendor.extensions.push(XmlNode::Element(child));
            }
            proof {
                ownership::lemma_extended(
                    known.extensions@,
                    vendor.extensions@,
                    XmlNode::Element(child),
                    source,
                );
            }
        }
    }
    assert(all.take(all.len() as int) =~= all);
    proof {
        ownership::lemma_vendor_within(vendor, source);
    }
    vendor
}

/// The children of a provider that occur once.
pub open spec fn provider_singular(name: Seq<char>) -> bool {
    ||| name == "name"@
    ||| name == "service"@
    ||| name == "url"@
    ||| name == "email"@
    ||| name == "phone"@
}

/// The children of a provider that may be repeated.
pub open spec fn provider_repeated(name: Seq<char>) -> bool {
    ||| name == "id"@
    ||| name == "contact"@
}

/// The children of a provider that go to its extensions.
pub open spec fn provider_extensions(children: Seq<NodeView>) -> Seq<NodeView> {
    extensions_of(
        children,
        |name: Seq<char>| provider_singular(name),
        |name: Seq<char>| provider_repeated(name),
    )
}

/// The provider that an element stands for.
pub open spec fn provider_of(element: ElementView) -> ProviderView {
    ProviderView {
        ids: each_id(named(element.children, "id"@)),
        name: first_name(named(element.children, "name"@)),
        service: first_text(named(element.children, "service"@)),
        url: first_text(named(element.children, "url"@)),
        email: first_text(named(element.children, "email"@)),
        phone: first_text(named(element.children, "phone"@)),
        contacts: each_contact(named(element.children, "contact"@)),
        attributes: element.attributes,
        extensions: provider_extensions(element.children),
        span: element.span,
    }
}

pub open spec fn first_provider(elements: Seq<ElementView>) -> Option<ProviderView> {
    first(elements, |element: ElementView| provider_of(element))
}

/// The names of the children of a provider differ.
pub proof fn lemma_provider_names()
    ensures
        "id"@.len() == 2,
        "id"@[0] == 'i',
        "name"@.len() == 4,
        "name"@[0] == 'n',
        "service"@.len() == 7,
        "service"@[0] == 's',
        "url"@.len() == 3,
        "url"@[0] == 'u',
        "email"@.len() == 5,
        "email"@[0] == 'e',
        "phone"@.len() == 5,
        "phone"@[0] == 'p',
        "contact"@.len() == 7,
        "contact"@[0] == 'c',
{
    reveal_strlit("id");
    reveal_strlit("name");
    reveal_strlit("service");
    reveal_strlit("url");
    reveal_strlit("email");
    reveal_strlit("phone");
    reveal_strlit("contact");
}

/// The provider that an element stands for.
pub fn provider_from_element<'a>(element: XmlElement<'a>) -> (r: Provider<'a>)
    ensures
        r@ == provider_of(element@),
        ownership::provider_within(r, element),
{
    let ghost source = element;
    let ghost whole = element@;
    let ghost all = document::views(element.children@);
    proof {
        document::lemma_nodes_model(element.children@);
    }
    let XmlElement { name: _, attributes, children, span } = element;
    let ghost nodes = children@;
    let mut provider = Provider {
        attributes,
        span,
        ..Provider::default()
    };
    assert(all.take(0) =~= seq![]);
    assert(document::views(provider.ids@) =~= each_id(seq![]));
    assert(document::views(provider.contacts@) =~= each_contact(seq![]));
    proof {
        ownership::lemma_name_slot_empty(source);
        ownership::lemma_text_slot_empty(source);
        ownership::lemma_id_list_empty(provider.ids@, source);
        ownership::lemma_contact_list_empty(provider.contacts@, source);
        ownership::lemma_no_nodes(provider.extensions@, source);
    }
    for node in it: children
        invariant
            it.seq() == nodes,
            all == document::views(nodes),
            document::views(provider.ids@) == each_id(named(all.take(it.index() as int), "id"@)),
            model::opt(provider.name) == first_name(named(all.take(it.index() as int), "name"@)),
            model::opt(provider.service) == first_text(
                named(all.take(it.index() as int), "service"@),
            ),
            model::opt(provider.url) == first_text(named(all.take(it.index() as int), "url"@)),
            model::opt(provider.email) == first_text(named(all.take(it.index() as int), "email"@)),
            model::opt(provider.phone) == first_text(named(all.take(it.index() as int), "phone"@)),
            document::views(provider.contacts@) == each_contact(
                named(all.take(it.index() as int), "contact"@),
            ),
            document::views(provider.extensions@) == provider_extensions(
                all.take(it.index() as int),
            ),
            document::views(provider.attributes@) == whole.attributes,
            provider.span == whole.span,
            nodes == source.children@,
            ownership::id_list_within(provider.ids@, source),
            ownership::name_slot_within(provider.name, source),
            ownership::text_slot_within(provider.service, source),
            ownership::text_slot_within(provider.url, source),
            ownership::text_slot_within(provider.email, source),
            ownership::text_slot_within(provider.phone, source),
            ownership::contact_list_within(provider.contacts@, source),
            provider.attributes == source.attributes,
            ownership::nodes_within(provider.extensions@, source),
    {
        proof {
            lemma_provider_names();
            lemma_next_child(all, it.index() as int);
            broadcast use {document::lemma_views_push, lemma_each_push};

            ownership::lemma_child_within(source, it.index() as int);
        }
        let ghost before = provider.extensions@;
        let taken = element_child_or_extension(node, &mut provider.extensions);
        proof {
            ownership::lemma_extended(before, provider.extensions@, node, source);
        }
        if let Some(child) = taken {
            let ghost known = provider;
            if text::str_eq(text::text_str(&child.name), "id") {
                let value = id_from_element(child);
                proof {
                    ownership::lemma_id_list_push(provider.ids@, value, child, source);
                }
                provider.ids.push(value);
            } else if text::str_eq(text::text_str(&child.name), "name") {
                set_singular(
                    &mut provider.name,
                    &mut provider.extensions,
                    child,
                    name_from_element,
                );
                proof {
                    ownership::lemma_name_slot_set(known.name, provider.name, child, source);
                }
            } else if text::str_eq(text::text_str(&child.name), "service") {
                set_singular(
                    &mut provider.service,
                    &mut provider.extensions,
                    child,
                    text_from_element,
                );
                proof {
                    ownership::lemma_text_slot_set(known.service, provider.service, child, source);
                }
            } else if text::str_eq(text::text_str(&child.name), "url") {
                set_singular(
                    &mut provider.url,
                    &mut provider.extensions,
                    child,
                    text_from_element,
                );
                proof {
                    ownership::lemma_text_slot_set(known.url, provider.url, child, source);
                }
            } else if text::str_eq(text::text_str(&child.name), "email") {
                set_singular(
                    &mut provider.email,
                    &mut provider.extensions,
                    child,
                    text_from_element,
                );
                proof {
                    ownership::lemma_text_slot_set(known.email, provider.email, child, source);
                }
            } else if text::str_eq(text::text_str(&child.name), "phone") {
                set_singular(
                    &mut provider.phone,
                    &mut provider.extensions,
                    child,
                    text_from_element,
                );
                proof {
                    ownership::lemma_text_slot_set(known.phone, provider.phone, child, source);
                }
            } else if text::str_eq(text::text_str(&child.name), "contact") {
                let value = contact_from_element(child);
                proof {
                    ownership::lemma_contact_list_push(provider.contacts@, value, child, source);
                }
                provider.contacts.push(value);
            } else {
                provider.extensions.push(XmlNode::Element(child));
            }
            proof {
                ownership::lemma_extended(
                    known.extensions@,
                    provider.extensions@,
                    XmlNode::Element(child),
                    source,
                );
            }
        }
    }
    assert(all.take(all.len() as int) =~= all);
    proof {
        ownership::lemma_provider_within(provider, source);
    }
    provider
}

/// The children of a prospect that occur once.
pub open spec fn prospect_singular(name: Seq<char>) -> bool {
    ||| name == "requestdate"@
    ||| name == "customer"@
    ||| name == "vendor"@
    ||| name == "provider"@
}

/// The children of a prospect that may be repeated.
pub open spec fn prospect_repeated(name: Seq<char>) -> bool {
    ||| name == "id"@
    ||| name == "vehicle"@
}

/// The children of a prospect that go to its extensions.
pub open spec fn prospect_extensions(children: Seq<NodeView>) -> Seq<NodeView> {
    extensions_of(
        children,
        |name: Seq<char>| prospect_singular(name),
        |name: Seq<char>| prospect_repeated(name),
    )
}

/// The prospect that an element stands for.
pub open spec fn prospect_of(element: ElementView) -> ProspectView {
    ProspectView {
        status: attribute_named(element.attributes, "status"@),
        ids: each_id(named(element.children, "id"@)),
        request_date: first_text(named(element.children, "requestdate"@)),
        vehicles: each_vehicle(named(element.children, "vehicle"@)),
        customer: first_customer(named(element.children, "customer"@)),
        vendor: first_vendor(named(element.children, "vendor"@)),
        provider: first_provider(named(element.children, "provider"@)),
        attributes: element.attributes,
        extensions: prospect_extensions(element.children),
        span: element.span,
    }
}

pub open spec fn each_prospect(elements: Seq<ElementView>) -> Seq<ProspectView> {
    each(elements, |element: ElementView| prospect_of(element))
}

/// The names of the children of a prospect differ.
pub proof fn lemma_prospect_names()
    ensures
        "id"@.len() == 2,
        "id"@[0] == 'i',
        "requestdate"@.len() == 11,
        "requestdate"@[0] == 'r',
        "vehicle"@.len() == 7,
        "vehicle"@[0] == 'v',
        "customer"@.len() == 8,
        "customer"@[0] == 'c',
        "vendor"@.len() == 6,
        "vendor"@[0] == 'v',
        "provider"@.len() == 8,
        "provider"@[0] == 'p',
{
    reveal_strlit("id");
    reveal_strlit("requestdate");
    reveal_strlit("vehicle");
    reveal_strlit("customer");
    reveal_strlit("vendor");
    reveal_strlit("provider");
}

/// The prospect that an element stands for.
pub fn prospect_from_element<'a>(element: XmlElement<'a>) -> (r: Prospect<'a>)
    ensures
        r@ == prospect_of(element@),
        ownership::prospect_within(r, element),
{
    let ghost source = element;
    let ghost whole = element@;
    let ghost all = document::views(element.children@);
    proof {
        document::lemma_nodes_model(element.children@);
    }
    let XmlElement { name: _, attributes, children, span } = element;
    let ghost nodes = children@;
    let mut prospect = Prospect {
        status: attr(attributes.as_slice(), "status"),
        attributes,
        span,
        ..Prospect::default()
    };
    assert(all.take(0) =~= seq![]);
    assert(document::views(prospect.ids@) =~= each_id(seq![]));
    assert(document::views(prospect.vehicles@) =~= each_vehicle(seq![]));
    proof {
        ownership::lemma_attribute_within(prospect.status, source);
        ownership::lemma_customer_slot_empty(source);
        ownership::lemma_provider_slot_empty(source);
        ownership::lemma_text_slot_empty(source);
        ownership::lemma_vendor_slot_empty(source);
        ownership::lemma_id_list_empty(prospect.ids@, source);
        ownership::lemma_vehicle_list_empty(prospect.vehicles@, source);
        ownership::lemma_no_nodes(prospect.extensions@, source);
    }
    for node in it: children
        invariant
            it.seq() == nodes,
            all == document::views(nodes),
            document::views(prospect.ids@) == each_id(named(all.take(it.index() as int), "id"@)),
            model::opt(prospect.request_date) == first_text(
                named(all.take(it.index() as int), "requestdate"@),
            ),
            document::views(prospect.vehicles@) == each_vehicle(
                named(all.take(it.index() as int), "vehicle"@),
            ),
            model::opt(prospect.customer) == first_customer(
                named(all.take(it.index() as int), "customer"@),
            ),
            model::opt(prospect.vendor) == first_vendor(
                named(all.take(it.index() as int), "vendor"@),
            ),
            model::opt(prospect.provider) == first_provider(
                named(all.take(it.index() as int), "provider"@),
            ),
            document::views(prospect.extensions@) == prospect_extensions(
                all.take(it.index() as int),
            ),
            model::opt(prospect.status) == attribute_named(whole.attributes, "status"@),
            document::views(prospect.attributes@) == whole.attributes,
            prospect.span == whole.span,
            nodes == source.children@,
            ownership::attribute_within(prospect.status, source),
            ownership::id_list_within(prospect.ids@, source),
            ownership::text_slot_within(prospect.request_date, source),
            ownership::vehicle_list_within(prospect.vehicles@, source),
            ownership::customer_slot_within(prospect.customer, source),
            ownership::vendor_slot_within(prospect.vendor, source),
            ownership::provider_slot_within(prospect.provider, source),
            prospect.attributes == source.attributes,
            ownership::nodes_within(prospect.extensions@, source),
    {
        proof {
            lemma_prospect_names();
            lemma_next_child(all, it.index() as int);
            broadcast use {document::lemma_views_push, lemma_each_push};

            ownership::lemma_child_within(source, it.index() as int);
        }
        let ghost before = prospect.extensions@;
        let taken = element_child_or_extension(node, &mut prospect.extensions);
        proof {
            ownership::lemma_extended(before, prospect.extensions@, node, source);
        }
        if let Some(child) = taken {
            let ghost known = prospect;
            if text::str_eq(text::text_str(&child.name), "id") {
                let value = id_from_element(child);
                proof {
                    ownership::lemma_id_list_push(prospect.ids@, value, child, source);
                }
                prospect.ids.push(value);
            } else if text::str_eq(text::text_str(&child.name), "requestdate") {
                set_singular(
                    &mut prospect.request_date,
                    &mut prospect.extensions,
                    child,
                    text_from_element,
                );
                proof {
                    ownership::lemma_text_slot_set(
                        known.request_date,
                        prospect.request_date,
                        child,
                        source,
                    );
                }
            } else if text::str_eq(text::text_str(&child.name), "vehicle") {
                let value = vehicle_from_element(child);
                proof {
                    ownership::lemma_vehicle_list_push(prospect.vehicles@, value, child, source);
                }
                prospect.vehicles.push(value);
            } else if text::str_eq(text::text_str(&child.name), "customer") {
                set_singular(
                    &mut prospect.customer,
                    &mut prospect.extensions,
                    child,
                    customer_from_element,
                );
                proof {
                    ownership::lemma_customer_slot_set(
                        known.customer,
                        prospect.customer,
                        child,
                        source,
                    );
                }
            } else if text::str_eq(text::text_str(&child.name), "vendor") {
                set_singular(
                    &mut prospect.vendor,
                    &mut prospect.extensions,
                    child,
                    vendor_from_element,
                );
                proof {
                    ownership::lemma_vendor_slot_set(known.vendor, prospect.vendor, child, source);
                }
            } else if text::str_eq(text::text_str(&child.name), "provider") {
                set_singular(
                    &mut prospect.provider,
                    &mut prospect.extensions,
                    child,
                    provider_from_element,
                );
                proof {
                    ownership::lemma_provider_slot_set(
                        known.provider,
                        prospect.provider,
                        child,
                        source,
                    );
                }
            } else {
                prospect.extensions.push(XmlNode::Element(child));
            }
            proof {
                ownership::lemma_extended(
                    known.extensions@,
                    prospect.extensions@,
                    XmlNode::Element(child),
                    source,
                );
            }
        }
    }
    assert(all.take(all.len() as int) =~= all);
    proof {
        ownership::lemma_prospect_within(prospect, source);
    }
    prospect
}

/// The children of a document that occur once.
pub open spec fn adf_singular(name: Seq<char>) -> bool {
    false
}

/// The children of a document that may be repeated.
pub open spec fn adf_repeated(name: Seq<char>) -> bool {
    name == "prospect"@
}

/// The children of a document that go to its extensions.
pub open spec fn adf_extensions(children: Seq<NodeView>) -> Seq<NodeView> {
    extensions_of(
        children,
        |name: Seq<char>| adf_singular(name),
        |name: Seq<char>| adf_repeated(name),
    )
}

/// The document that an element stands for.
pub open spec fn adf_of(element: ElementView) -> AdfView {
    AdfView {
        prospects: each_prospect(named(element.children, "prospect"@)),
        attributes: element.attributes,
        extensions: adf_extensions(element.children),
        span: element.span,
    }
}

/// The names of the children of a document differ.
pub proof fn lemma_adf_names()
    ensures
        "prospect"@.len() == 8,
        "prospect"@[0] == 'p',
{
    reveal_strlit("prospect");
}

/// The spans of a list of elements.
pub open spec fn spans_of(elements: Seq<ElementView>) -> Seq<Range<usize>> {
    each(
        elements,
        |element: ElementView| Range { start: element.span.start, end: element.span.end },
    )
}

/// The document that a root element stands for, and where its prospects stand.
pub open spec fn adf_of_root(root: ElementView) -> Result<(AdfView, Seq<Range<usize>>), ErrorView> {
    if root.name == "adf"@ {
        Ok((adf_of(root), spans_of(named(root.children, "prospect"@))))
    } else {
        Err(ErrorView::UnexpectedRoot { found: root.name, position: root.span.start as u64 })
    }
}

/// The document that a root element stands for, and where its prospects stand.
pub fn adf_from_root<'a>(root: XmlElement<'a>) -> (r: Result<(Adf<'a>, Vec<Range<usize>>), Error>)
    ensures
        match r {
            Ok((adf, spans)) => adf_of_root(root@) == Ok::<(AdfView, Seq<Range<usize>>), ErrorView>(
                (adf@, spans@),
            ),
            Err(e) => adf_of_root(root@) == Err::<(AdfView, Seq<Range<usize>>), ErrorView>(e@),
        },
        r matches Ok((adf, _)) ==> ownership::adf_within(adf, root),
{
    if !text::str_eq(text::text_str(&root.name), "adf") {
        return Err(
            Error::UnexpectedRoot {
                found: text::text_string(root.name),
                position: root.span.start as u64,
            },
        );
    }
    let mut prospect_spans: Vec<Range<usize>> = Vec::new();
    let ghost whole = root@;
    let ghost all = document::views(root.children@);
    proof {
        document::lemma_nodes_model(root.children@);
    }
    let ghost source = root;
    let XmlElement { name: _, attributes, children, span } = root;
    let ghost nodes = children@;
    let mut adf = Adf {
        attributes,
        span,
        ..Adf::default()
    };
    assert(all.take(0) =~= seq![]);
    assert(document::views(adf.prospects@) =~= each_prospect(seq![]));
    assert(prospect_spans@ =~= spans_of(seq![]));
    proof {
        ownership::lemma_prospect_list_empty(adf.prospects@, source);
        ownership::lemma_no_nodes(adf.extensions@, source);
    }
    for node in it: children
        invariant
            it.seq() == nodes,
            all == document::views(nodes),
            document::views(adf.prospects@) == each_prospect(
                named(all.take(it.index() as int), "prospect"@),
            ),
            document::views(adf.extensions@) == adf_extensions(all.take(it.index() as int)),
            prospect_spans@ == spans_of(named(all.take(it.index() as int), "prospect"@)),
            document::views(adf.attributes@) == whole.attributes,
            adf.span == whole.span,
            nodes == source.children@,
            ownership::prospect_list_within(adf.prospects@, source),
            adf.attributes == source.attributes,
            ownership::nodes_within(adf.extensions@, source),
    {
        proof {
            lemma_adf_names();
            lemma_next_child(all, it.index() as int);
            broadcast use {document::lemma_views_push, lemma_each_push};

            ownership::lemma_child_within(source, it.index() as int);
        }
        let ghost before = adf.extensions@;
        let taken = element_child_or_extension(node, &mut adf.extensions);
        proof {
            ownership::lemma_extended(before, adf.extensions@, node, source);
        }
        if let Some(child) = taken {
            let ghost known = adf;
            if text::str_eq(text::text_str(&child.name), "prospect") {
                prospect_spans.push(child.span.start..child.span.end);
                let value = prospect_from_element(child);
                proof {
                    ownership::lemma_prospect_list_push(adf.prospects@, value, child, source);
                }
                adf.prospects.push(value);
            } else {
                adf.extensions.push(XmlNode::Element(child));
            }
            proof {
                ownership::lemma_extended(
                    known.extensions@,
                    adf.extensions@,
                    XmlNode::Element(child),
                    source,
                );
            }
        }
    }
    assert(all.take(all.len() as int) =~= all);
    proof {
        ownership::lemma_adf_within(adf, source);
    }
    Ok((adf, prospect_spans))
}

} // verus!
