//! What the fields of the typed model hold, child by child and attribute by attribute.

use crate::document::{AttributeView, ElementView, NodeView};
use crate::error::ErrorView;
use crate::model::TextPartView;
use crate::{convert, tree};
use vstd::prelude::*;

verus! {

/// A value is that of the first attribute of a name; there is none if no attribute has
/// the name.
pub open spec fn first_value(
    attributes: Seq<AttributeView>,
    name: Seq<char>,
    value: Option<Seq<char>>,
) -> bool {
    match value {
        Some(value) => exists|i: int|
            #![trigger attributes[i]]
            0 <= i < attributes.len() && attributes[i].name == name && attributes[i].value == value
                && forall|j: int| 0 <= j < i ==> (#[trigger] attributes[j]).name != name,
        None => forall|j: int| 0 <= j < attributes.len() ==> (#[trigger] attributes[j]).name != name,
    }
}

/// The child elements of a name, in document order.
pub open spec fn with_name(children: Seq<NodeView>, name: Seq<char>) -> Seq<NodeView> {
    children.filter(|child: NodeView| child is Element && child->Element_0.name == name)
}

/// A list holds what each of some child elements is read into, in document order.
pub open spec fn reads_all<T>(
    list: Seq<T>,
    children: Seq<NodeView>,
    name: Seq<char>,
    of: spec_fn(ElementView) -> T,
) -> bool {
    &&& list.len() == with_name(children, name).len()
    &&& forall|k: int|
        0 <= k < list.len() ==> #[trigger] list[k] == of(with_name(children, name)[k]->Element_0)
}

/// A slot holds what the first of some child elements is read into, and nothing if there
/// is none.
pub open spec fn reads_first<T>(
    slot: Option<T>,
    children: Seq<NodeView>,
    name: Seq<char>,
    of: spec_fn(ElementView) -> T,
) -> bool {
    if with_name(children, name).len() == 0 {
        slot is None
    } else {
        slot == Some(of(with_name(children, name)[0]->Element_0))
    }
}

/// A child is taken into no field: it is none of the elements that may occur often, and
/// none of those that may occur once unless one of its name stands before it. A text is
/// taken into none unless it is all white space.
pub open spec fn stays_apart(
    children: Seq<NodeView>,
    once: Seq<Seq<char>>,
    often: Seq<Seq<char>>,
    i: int,
) -> bool {
    match children[i] {
        NodeView::Element(element) => !often.contains(element.name) && (once.contains(element.name)
            ==> exists|j: int|
            0 <= j < i && #[trigger] children[j] is Element && children[j]->Element_0.name
                == element.name),
        NodeView::Text(text) => exists|k: int|
            0 <= k < text.len() && !(#[trigger] text[k] == ' ' || text[k] == '\t' || text[k] == '\r'
                || text[k] == '\n'),
        _ => true,
    }
}

/// Where the extensions stand among the children: in document order, and all that stay
/// apart are there.
pub open spec fn places_of(
    extensions: Seq<NodeView>,
    children: Seq<NodeView>,
    once: Seq<Seq<char>>,
    often: Seq<Seq<char>>,
    places: Seq<int>,
) -> bool {
    &&& places.len() == extensions.len()
    &&& forall|k: int|
        0 <= k < places.len() ==> {
            &&& 0 <= #[trigger] places[k] < children.len()
            &&& extensions[k] == children[places[k]]
            &&& stays_apart(children, once, often, places[k])
        }
    &&& forall|k: int, l: int| 0 <= k < l < places.len() ==> places[k] < places[l]
    &&& forall|i: int|
        0 <= i < children.len() && #[trigger] stays_apart(children, once, often, i)
            ==> places.contains(i)
}

/// The extensions are the children that stay apart, in document order.
pub open spec fn are_apart(
    extensions: Seq<NodeView>,
    children: Seq<NodeView>,
    once: Seq<Seq<char>>,
    often: Seq<Seq<char>>,
) -> bool {
    exists|places: Seq<int>| #[trigger] places_of(extensions, children, once, often, places)
}

/// No node is an element of one of some names.
pub open spec fn none_named(nodes: Seq<NodeView>, names: Seq<Seq<char>>) -> bool {
    forall|k: int|
        0 <= k < nodes.len() && #[trigger] nodes[k] is Element ==> !names.contains(
            nodes[k]->Element_0.name,
        )
}

/// The lookup of an attribute gives the value of the first that has the name.
pub proof fn law_attribute_is_the_first(attributes: Seq<AttributeView>, name: Seq<char>)
    ensures
        first_value(attributes, name, convert::attribute_named(attributes, name)),
    decreases attributes.len(),
{
    if attributes.len() > 0 {
        let rest = attributes.skip(1);
        law_attribute_is_the_first(rest, name);
        if attributes[0].name != name {
            match convert::attribute_named(rest, name) {
                Some(value) => {
                    let i = choose|i: int|
                        #![trigger rest[i]]
                        0 <= i < rest.len() && rest[i].name == name && rest[i].value == value
                            && forall|j: int| 0 <= j < i ==> (#[trigger] rest[j]).name != name;
                    assert(attributes[i + 1] == rest[i]);
                    assert forall|j: int| 0 <= j < i + 1 implies (#[trigger] attributes[j]).name
                        != name by {
                        if j > 0 {
                            assert(attributes[j] == rest[j - 1]);
                        }
                    }
                },
                None => {
                    assert forall|j: int| 0 <= j < attributes.len() implies (
                    #[trigger] attributes[j]).name != name by {
                        if j > 0 {
                            assert(attributes[j] == rest[j - 1]);
                        }
                    }
                },
            }
        }
    }
}

/// The elements of a name are the children that are such elements.
proof fn lemma_named(children: Seq<NodeView>, name: Seq<char>)
    ensures
        convert::named(children, name).len() == with_name(children, name).len(),
        forall|k: int|
            0 <= k < with_name(children, name).len() ==> #[trigger] with_name(children, name)[k]
                == NodeView::Element(convert::named(children, name)[k]),
    decreases children.len(),
{
    reveal(Seq::filter);
    if children.len() > 0 {
        lemma_named(children.drop_last(), name);
    }
}

/// Elements of a name stand among the children.
proof fn lemma_named_before(children: Seq<NodeView>, name: Seq<char>)
    ensures
        convert::named(children, name).len() > 0 <==> exists|j: int|
            0 <= j < children.len() && #[trigger] children[j] is Element
                && children[j]->Element_0.name == name,
    decreases children.len(),
{
    if children.len() > 0 {
        let before = children.drop_last();
        lemma_named_before(before, name);
        let last = children.len() - 1;
        if convert::named(before, name).len() > 0 {
            let j = choose|j: int|
                0 <= j < before.len() && #[trigger] before[j] is Element
                    && before[j]->Element_0.name == name;
            assert(children[j] == before[j]);
        } else if children[last] is Element && children[last]->Element_0.name == name {
            assert(convert::named(children, name).len() > 0);
        } else {
            assert forall|j: int|
                0 <= j < children.len() && #[trigger] children[j] is Element implies
                children[j]->Element_0.name != name by {
                if j < last {
                    assert(before[j] == children[j]);
                }
            }
        }
    }
}

proof fn lemma_reads_all<T>(
    children: Seq<NodeView>,
    name: Seq<char>,
    of: spec_fn(ElementView) -> T,
)
    ensures
        reads_all(convert::each(convert::named(children, name), of), children, name, of),
{
    lemma_named(children, name);
    let list = convert::each(convert::named(children, name), of);
    assert forall|k: int| 0 <= k < list.len() implies #[trigger] list[k] == of(
        with_name(children, name)[k]->Element_0,
    ) by {
        assert(with_name(children, name)[k] == NodeView::Element(convert::named(children, name)[k]));
    }
}

proof fn lemma_reads_first<T>(
    children: Seq<NodeView>,
    name: Seq<char>,
    of: spec_fn(ElementView) -> T,
)
    ensures
        reads_first(convert::first(convert::named(children, name), of), children, name, of),
{
    lemma_named(children, name);
}

/// A child stays apart if it goes to the extensions.
proof fn lemma_apart(
    children: Seq<NodeView>,
    singular: spec_fn(Seq<char>) -> bool,
    repeated: spec_fn(Seq<char>) -> bool,
    once: Seq<Seq<char>>,
    often: Seq<Seq<char>>,
    i: int,
)
    requires
        0 <= i < children.len(),
        forall|name: Seq<char>| #[trigger] singular(name) <==> once.contains(name),
        forall|name: Seq<char>| #[trigger] repeated(name) <==> often.contains(name),
    ensures
        convert::is_extension(children.take(i), children[i], singular, repeated) <==> stays_apart(
            children,
            once,
            often,
            i,
        ),
{
    if let NodeView::Element(element) = children[i] {
        let before = children.take(i);
        lemma_named_before(before, element.name);
        assert(singular(element.name) <==> once.contains(element.name));
        assert(repeated(element.name) <==> often.contains(element.name));
        assert forall|j: int| 0 <= j < i implies #[trigger] before[j] == children[j] by {}
        if exists|j: int|
            0 <= j < i && #[trigger] children[j] is Element && children[j]->Element_0.name
                == element.name {
            let j = choose|j: int|
                0 <= j < i && #[trigger] children[j] is Element && children[j]->Element_0.name
                    == element.name;
            assert(before[j] is Element);
        }
        if exists|j: int|
            0 <= j < before.len() && #[trigger] before[j] is Element && before[j]->Element_0.name
                == element.name {
            let j = choose|j: int|
                0 <= j < before.len() && #[trigger] before[j] is Element
                    && before[j]->Element_0.name == element.name;
            assert(children[j] is Element);
        }
    }
    if let NodeView::Text(text) = children[i] {
        assert(!tree::blank(text) <==> exists|k: int|
            0 <= k < text.len() && !(#[trigger] text[k] == ' ' || text[k] == '\t' || text[k] == '\r'
                || text[k] == '\n'));
    }
}

proof fn lemma_are_apart(
    children: Seq<NodeView>,
    singular: spec_fn(Seq<char>) -> bool,
    repeated: spec_fn(Seq<char>) -> bool,
    once: Seq<Seq<char>>,
    often: Seq<Seq<char>>,
)
    requires
        forall|name: Seq<char>| #[trigger] singular(name) <==> once.contains(name),
        forall|name: Seq<char>| #[trigger] repeated(name) <==> often.contains(name),
    ensures
        are_apart(
            convert::extensions_of(children, singular, repeated),
            children,
            once,
            often,
        ),
        none_named(convert::extensions_of(children, singular, repeated), often),
    decreases children.len(),
{
    let extensions = convert::extensions_of(children, singular, repeated);
    if children.len() == 0 {
        assert(places_of(extensions, children, once, often, seq![]));
    } else {
        let before = children.drop_last();
        let last = children.len() - 1;
        let earlier = convert::extensions_of(before, singular, repeated);
        lemma_are_apart(before, singular, repeated, once, often);
        let there = choose|places: Seq<int>| #[trigger]
            places_of(earlier, before, once, often, places);
        lemma_apart(children, singular, repeated, once, often, last);
        assert(children.take(last) =~= before);
        assert forall|i: int| 0 <= i < last implies stays_apart(children, once, often, i)
            == #[trigger] stays_apart(before, once, often, i) by {
            lemma_apart(children, singular, repeated, once, often, i);
            lemma_apart(before, singular, repeated, once, often, i);
            assert(children.take(i) =~= before.take(i));
            assert(children[i] == before[i]);
        }
        let places = if stays_apart(children, once, often, last) {
            there.push(last)
        } else {
            there
        };
        assert forall|k: int| 0 <= k < places.len() implies {
            &&& 0 <= #[trigger] places[k] < children.len()
            &&& extensions[k] == children[places[k]]
            &&& stays_apart(children, once, often, places[k])
        } by {
            if k < there.len() {
                assert(places[k] == there[k]);
                assert(stays_apart(before, once, often, there[k]));
            }
        }
        assert forall|k: int, l: int| 0 <= k < l < places.len() implies places[k] < places[l] by {
            assert(places[k] == there[k]);
            if l < there.len() {
                assert(places[l] == there[l]);
            }
        }
        assert forall|i: int|
            0 <= i < children.len() && #[trigger] stays_apart(
                children,
                once,
                often,
                i,
            ) implies places.contains(i) by {
            if i < last {
                assert(stays_apart(before, once, often, i));
                let k = there.index_of(i);
                assert(places[k] == i);
            } else {
                assert(places[places.len() - 1] == i);
            }
        }
        assert(places_of(extensions, children, once, often, places));
        assert forall|k: int|
            0 <= k < extensions.len() && #[trigger] extensions[k] is Element implies
            !often.contains(extensions[k]->Element_0.name) by {
            assert(stays_apart(children, once, often, places[k]));
        }
    }
}

/// A text, an identifier, a price or a name has a part for each child of its element:
/// texts, CDATA sections and entity references as such, and any other node as it is.
pub proof fn law_parts_are_the_children(children: Seq<NodeView>, i: int)
    requires
        0 <= i < children.len(),
    ensures
        convert::parts_of(children).len() == children.len(),
        children[i] matches NodeView::Text(text) ==> convert::parts_of(children)[i]
            == TextPartView::Text(text),
        children[i] matches NodeView::CData(text) ==> convert::parts_of(children)[i]
            == TextPartView::CData(text),
        children[i] matches NodeView::EntityRef(name) ==> convert::parts_of(children)[i]
            == TextPartView::EntityRef(name),
        !(children[i] is Text || children[i] is CData || children[i] is EntityRef)
            ==> convert::parts_of(children)[i] == TextPartView::Node(children[i]),
{
}

/// The fields of a text element: its attributes by name, and a part for each child.
pub proof fn law_text_reads(element: ElementView)
    ensures
        ({
            let read = convert::text_of(element);
            &&& read.parts == convert::parts_of(element.children)
            &&& read.attributes == element.attributes
            &&& read.span == element.span
        }),
{
}

/// The fields of an identifier: its attributes by name, and a part for each child.
pub proof fn law_id_reads(element: ElementView)
    ensures
        ({
            let read = convert::id_of(element);
            &&& first_value(element.attributes, "sequence"@, read.sequence)
            &&& first_value(element.attributes, "source"@, read.source)
            &&& read.parts == convert::parts_of(element.children)
            &&& read.attributes == element.attributes
            &&& read.span == element.span
        }),
{
    law_attribute_is_the_first(element.attributes, "sequence"@);
    law_attribute_is_the_first(element.attributes, "source"@);
}

/// The fields of a price: its attributes by name, and a part for each child.
pub proof fn law_price_reads(element: ElementView)
    ensures
        ({
            let read = convert::price_of(element);
            &&& first_value(element.attributes, "type"@, read.price_type)
            &&& first_value(element.attributes, "currency"@, read.currency)
            &&& first_value(element.attributes, "delta"@, read.delta)
            &&& first_value(element.attributes, "relativeto"@, read.relative_to)
            &&& first_value(element.attributes, "source"@, read.source)
            &&& read.parts == convert::parts_of(element.children)
            &&& read.attributes == element.attributes
            &&& read.span == element.span
        }),
{
    law_attribute_is_the_first(element.attributes, "type"@);
    law_attribute_is_the_first(element.attributes, "currency"@);
    law_attribute_is_the_first(element.attributes, "delta"@);
    law_attribute_is_the_first(element.attributes, "relativeto"@);
    law_attribute_is_the_first(element.attributes, "source"@);
}

/// The fields of a name: its attributes by name, and a part for each child.
pub proof fn law_name_reads(element: ElementView)
    ensures
        ({
            let read = convert::name_of(element);
            &&& first_value(element.attributes, "part"@, read.part)
            &&& first_value(element.attributes, "type"@, read.name_type)
            &&& read.parts == convert::parts_of(element.children)
            &&& read.attributes == element.attributes
            &&& read.span == element.span
        }),
{
    law_attribute_is_the_first(element.attributes, "part"@);
    law_attribute_is_the_first(element.attributes, "type"@);
}

/// The names of the children of a color combination that may occur once.
pub open spec fn color_combination_once() -> Seq<Seq<char>> {
    seq!["interiorcolor"@, "exteriorcolor"@, "preference"@]
}

/// The names of the children of a color combination that may occur often.
pub open spec fn color_combination_often() -> Seq<Seq<char>> {
    Seq::<Seq<char>>::empty()
}

/// The fields of a color combination: attributes by name, lists of all children of a name, slots with
/// the first child of a name, and all other children as extensions, in document order.
pub proof fn law_color_combination_reads(element: ElementView)
    ensures
        ({
            let read = convert::color_combination_of(element);
            let children = element.children;
            &&& reads_first(
                read.interior_color,
                children,
                "interiorcolor"@,
                |e: ElementView| convert::text_of(e),
            )
            &&& reads_first(
                read.exterior_color,
                children,
                "exteriorcolor"@,
                |e: ElementView| convert::text_of(e),
            )
            &&& reads_first(
                read.preference,
                children,
                "preference"@,
                |e: ElementView| convert::text_of(e),
            )
            &&& are_apart(
                read.extensions,
                children,
                color_combination_once(),
                color_combination_often(),
            )
            &&& none_named(read.extensions, color_combination_often())
            &&& read.attributes == element.attributes
            &&& read.span == element.span
        }),
{
    let children = element.children;
    lemma_reads_first(children, "interiorcolor"@, |e: ElementView| convert::text_of(e));
    lemma_reads_first(children, "exteriorcolor"@, |e: ElementView| convert::text_of(e));
    lemma_reads_first(children, "preference"@, |e: ElementView| convert::text_of(e));
    lemma_color_combination_children_names();
    lemma_are_apart(
        children,
        |name: Seq<char>| convert::color_combination_singular(name),
        |name: Seq<char>| convert::color_combination_repeated(name),
        color_combination_once(),
        color_combination_often(),
    );
}

proof fn lemma_color_combination_children_names()
    ensures
        forall|name: Seq<char>| #[trigger]
            convert::color_combination_singular(name) <==> color_combination_once().contains(name),
        forall|name: Seq<char>| #[trigger]
            convert::color_combination_repeated(name) <==> color_combination_often().contains(name),
{
    let once = color_combination_once();
    let often = color_combination_often();
    assert(once[0] == "interiorcolor"@);
    assert(once[1] == "exteriorcolor"@);
    assert(once[2] == "preference"@);
}

/// The names of the children of a vehicle option that may occur once.
pub open spec fn option_once() -> Seq<Seq<char>> {
    seq!["optionname"@, "manufacturercode"@, "stock"@, "weighting"@]
}

/// The names of the children of a vehicle option that may occur often.
pub open spec fn option_often() -> Seq<Seq<char>> {
    seq!["price"@]
}

/// The fields of a vehicle option: attributes by name, lists of all children of a name, slots with
/// the first child of a name, and all other children as extensions, in document order.
pub proof fn law_option_reads(element: ElementView)
    ensures
        ({
            let read = convert::option_of(element);
            let children = element.children;
            &&& reads_first(
                read.option_name,
                children,
                "optionname"@,
                |e: ElementView| convert::text_of(e),
            )
            &&& reads_first(
                read.manufacturer_code,
                children,
                "manufacturercode"@,
                |e: ElementView| convert::text_of(e),
            )
            &&& reads_first(
                read.stock,
                children,
                "stock"@,
                |e: ElementView| convert::text_of(e),
            )
            &&& reads_first(
                read.weighting,
                children,
                "weighting"@,
                |e: ElementView| convert::text_of(e),
            )
            &&& reads_all(
                read.prices,
                children,
                "price"@,
                |e: ElementView| convert::price_of(e),
            )
            &&& are_apart(read.extensions, children, option_once(), option_often())
            &&& none_named(read.extensions, option_often())
            &&& read.attributes == element.attributes
            &&& read.span == element.span
        }),
{
    let children = element.children;
    lemma_reads_first(children, "optionname"@, |e: ElementView| convert::text_of(e));
    lemma_reads_first(children, "manufacturercode"@, |e: ElementView| convert::text_of(e));
    lemma_reads_first(children, "stock"@, |e: ElementView| convert::text_of(e));
    lemma_reads_first(children, "weighting"@, |e: ElementView| convert::text_of(e));
    lemma_reads_all(children, "price"@, |e: ElementView| convert::price_of(e));
    lemma_option_children_names();
    lemma_are_apart(
        children,
        |name: Seq<char>| convert::option_singular(name),
        |name: Seq<char>| convert::option_repeated(name),
        option_once(),
        option_often(),
    );
}

proof fn lemma_option_children_names()
    ensures
        forall|name: Seq<char>| #[trigger]
            convert::option_singular(name) <==> option_once().contains(name),
        forall|name: Seq<char>| #[trigger]
            convert::option_repeated(name) <==> option_often().contains(name),
{
    let once = option_once();
    let often = option_often();
    assert(once[0] == "optionname"@);
    assert(once[1] == "manufacturercode"@);
    assert(once[2] == "stock"@);
    assert(once[3] == "weighting"@);
    assert(often[0] == "price"@);
}

/// The names of the children of a finance that may occur once.
pub open spec fn finance_once() -> Seq<Seq<char>> {
    seq!["method"@]
}

/// The names of the children of a finance that may occur often.
pub open spec fn finance_often() -> Seq<Seq<char>> {
    seq!["amount"@, "balance"@]
}

/// The fields of a finance: attributes by name, lists of all children of a name, slots with
/// the first child of a name, and all other children as extensions, in document order.
pub proof fn law_finance_reads(element: ElementView)
    ensures
        ({
            let read = convert::finance_of(element);
            let children = element.children;
            &&& reads_first(
                read.method,
                children,
                "method"@,
                |e: ElementView| convert::text_of(e),
            )
            &&& reads_all(
                read.amounts,
                children,
                "amount"@,
                |e: ElementView| convert::text_of(e),
            )
            &&& reads_all(
                read.balances,
                children,
                "balance"@,
                |e: ElementView| convert::text_of(e),
            )
            &&& are_apart(read.extensions, children, finance_once(), finance_often())
            &&& none_named(read.extensions, finance_often())
            &&& read.attributes == element.attributes
            &&& read.span == element.span
        }),
{
    let children = element.children;
    lemma_reads_first(children, "method"@, |e: ElementView| convert::text_of(e));
    lemma_reads_all(children, "amount"@, |e: ElementView| convert::text_of(e));
    lemma_reads_all(children, "balance"@, |e: ElementView| convert::text_of(e));
    lemma_finance_children_names();
    lemma_are_apart(
        children,
        |name: Seq<char>| convert::finance_singular(name),
        |name: Seq<char>| convert::finance_repeated(name),
        finance_once(),
        finance_often(),
    );
}

proof fn lemma_finance_children_names()
    ensures
        forall|name: Seq<char>| #[trigger]
            convert::finance_singular(name) <==> finance_once().contains(name),
        forall|name: Seq<char>| #[trigger]
            convert::finance_repeated(name) <==> finance_often().contains(name),
{
    let once = finance_once();
    let often = finance_often();
    assert(once[0] == "method"@);
    assert(often[0] == "amount"@);
    assert(often[1] == "balance"@);
}

/// The names of the children of a vehicle that may occur once.
pub open spec fn vehicle_once() -> Seq<Seq<char>> {
    seq![
        "year"@,
        "make"@,
        "model"@,
        "vin"@,
        "stock"@,
        "trim"@,
        "doors"@,
        "bodystyle"@,
        "transmission"@,
        "odometer"@,
        "condition"@,
        "pricecomments"@,
        "finance"@,
        "comments"@,
    ]
}

/// The names of the children of a vehicle that may occur often.
pub open spec fn vehicle_often() -> Seq<Seq<char>> {
    seq!["id"@, "colorcombination"@, "imagetag"@, "price"@, "option"@]
}

/// The fields of a vehicle: attributes by name, lists of all children of a name, slots with
/// the first child of a name, and all other children as extensions, in document order.
pub proof fn law_vehicle_reads(element: ElementView)
    ensures
        ({
            let read = convert::vehicle_of(element);
            let children = element.children;
            &&& first_value(element.attributes, "interest"@, read.interest)
            &&& first_value(element.attributes, "status"@, read.status)
            &&& reads_all(
                read.ids,
                children,
                "id"@,
                |e: ElementView| convert::id_of(e),
            )
            &&& reads_first(
                read.year,
                children,
                "year"@,
                |e: ElementView| convert::text_of(e),
            )
            &&& reads_first(
                read.make,
                children,
                "make"@,
                |e: ElementView| convert::text_of(e),
            )
            &&& reads_first(
                read.model,
                children,
                "model"@,
                |e: ElementView| convert::text_of(e),
            )
            &&& reads_first(
                read.vin,
                children,
                "vin"@,
                |e: ElementView| convert::text_of(e),
            )
            &&& reads_first(
                read.stock,
                children,
                "stock"@,
                |e: ElementView| convert::text_of(e),
            )
            &&& reads_first(
                read.trim,
                children,
                "trim"@,
                |e: ElementView| convert::text_of(e),
            )
            &&& reads_first(
                read.doors,
                children,
                "doors"@,
                |e: ElementView| convert::text_of(e),
            )
            &&& reads_first(
                read.body_style,
                children,
                "bodystyle"@,
                |e: ElementView| convert::text_of(e),
            )
            &&& reads_first(
                read.transmission,
                children,
                "transmission"@,
                |e: ElementView| convert::text_of(e),
            )
            &&& reads_first(
                read.odometer,
                children,
                "odometer"@,
                |e: ElementView| convert::text_of(e),
            )
            &&& reads_first(
                read.condition,
                children,
                "condition"@,
                |e: ElementView| convert::text_of(e),
            )
            &&& reads_all(
                read.color_combinations,
                children,
                "colorcombination"@,
                |e: ElementView| convert::color_combination_of(e),
            )
            &&& reads_all(
                read.image_tags,
                children,
                "imagetag"@,
                |e: ElementView| convert::text_of(e),
            )
            &&& reads_all(
                read.prices,
                children,
                "price"@,
                |e: ElementView| convert::price_of(e),
            )
            &&& reads_first(
                read.price_comments,
                children,
                "pricecomments"@,
                |e: ElementView| convert::text_of(e),
            )
            &&& reads_all(
                read.options,
                children,
                "option"@,
                |e: ElementView| convert::option_of(e),
            )
            &&& reads_first(
                read.finance,
                children,
                "finance"@,
                |e: ElementView| convert::finance_of(e),
            )
            &&& reads_first(
                read.comments,
                children,
                "comments"@,
                |e: ElementView| convert::text_of(e),
            )
            &&& are_apart(read.extensions, children, vehicle_once(), vehicle_often())
            &&& none_named(read.extensions, vehicle_often())
            &&& read.attributes == element.attributes
            &&& read.span == element.span
        }),
{
    let children = element.children;
    law_attribute_is_the_first(element.attributes, "interest"@);
    law_attribute_is_the_first(element.attributes, "status"@);
    lemma_reads_all(children, "id"@, |e: ElementView| convert::id_of(e));
    lemma_reads_first(children, "year"@, |e: ElementView| convert::text_of(e));
    lemma_reads_first(children, "make"@, |e: ElementView| convert::text_of(e));
    lemma_reads_first(children, "model"@, |e: ElementView| convert::text_of(e));
    lemma_reads_first(children, "vin"@, |e: ElementView| convert::text_of(e));
    lemma_reads_first(children, "stock"@, |e: ElementView| convert::text_of(e));
    lemma_reads_first(children, "trim"@, |e: ElementView| convert::text_of(e));
    lemma_reads_first(children, "doors"@, |e: ElementView| convert::text_of(e));
    lemma_reads_first(children, "bodystyle"@, |e: ElementView| convert::text_of(e));
    lemma_reads_first(children, "transmission"@, |e: ElementView| convert::text_of(e));
    lemma_reads_first(children, "odometer"@, |e: ElementView| convert::text_of(e));
    lemma_reads_first(children, "condition"@, |e: ElementView| convert::text_of(e));
    lemma_reads_all(
        children,
        "colorcombination"@,
        |e: ElementView| convert::color_combination_of(e),
    );
    lemma_reads_all(children, "imagetag"@, |e: ElementView| convert::text_of(e));
    lemma_reads_all(children, "price"@, |e: ElementView| convert::price_of(e));
    lemma_reads_first(children, "pricecomments"@, |e: ElementView| convert::text_of(e));
    lemma_reads_all(children, "option"@, |e: ElementView| convert::option_of(e));
    lemma_reads_first(children, "finance"@, |e: ElementView| convert::finance_of(e));
    lemma_reads_first(children, "comments"@, |e: ElementView| convert::text_of(e));
    lemma_vehicle_children_names();
    lemma_are_apart(
        children,
        |name: Seq<char>| convert::vehicle_singular(name),
        |name: Seq<char>| convert::vehicle_repeated(name),
        vehicle_once(),
        vehicle_often(),
    );
}

proof fn lemma_vehicle_children_names()
    ensures
        forall|name: Seq<char>| #[trigger]
            convert::vehicle_singular(name) <==> vehicle_once().contains(name),
        forall|name: Seq<char>| #[trigger]
            convert::vehicle_repeated(name) <==> vehicle_often().contains(name),
{
    let once = vehicle_once();
    let often = vehicle_often();
    assert(once[0] == "year"@);
    assert(once[1] == "make"@);
    assert(once[2] == "model"@);
    assert(once[3] == "vin"@);
    assert(once[4] == "stock"@);
    assert(once[5] == "trim"@);
    assert(once[6] == "doors"@);
    assert(once[7] == "bodystyle"@);
    assert(once[8] == "transmission"@);
    assert(once[9] == "odometer"@);
    assert(once[10] == "condition"@);
    assert(once[11] == "pricecomments"@);
    assert(once[12] == "finance"@);
    assert(once[13] == "comments"@);
    assert(often[0] == "id"@);
    assert(often[1] == "colorcombination"@);
    assert(often[2] == "imagetag"@);
    assert(often[3] == "price"@);
    assert(often[4] == "option"@);
}

/// The names of the children of a timeframe that may occur once.
pub open spec fn timeframe_once() -> Seq<Seq<char>> {
    seq!["description"@, "earliestdate"@, "latestdate"@]
}

/// The names of the children of a timeframe that may occur often.
pub open spec fn timeframe_often() -> Seq<Seq<char>> {
    Seq::<Seq<char>>::empty()
}

/// The fields of a timeframe: attributes by name, lists of all children of a name, slots with
/// the first child of a name, and all other children as extensions, in document order.
pub proof fn law_timeframe_reads(element: ElementView)
    ensures
        ({
            let read = convert::timeframe_of(element);
            let children = element.children;
            &&& reads_first(
                read.description,
                children,
                "description"@,
                |e: ElementView| convert::text_of(e),
            )
            &&& reads_first(
                read.earliest_date,
                children,
                "earliestdate"@,
                |e: ElementView| convert::text_of(e),
            )
            &&& reads_first(
                read.latest_date,
                children,
                "latestdate"@,
                |e: ElementView| convert::text_of(e),
            )
            &&& are_apart(read.extensions, children, timeframe_once(), timeframe_often())
            &&& none_named(read.extensions, timeframe_often())
            &&& read.attributes == element.attributes
            &&& read.span == element.span
        }),
{
    let children = element.children;
    lemma_reads_first(children, "description"@, |e: ElementView| convert::text_of(e));
    lemma_reads_first(children, "earliestdate"@, |e: ElementView| convert::text_of(e));
    lemma_reads_first(children, "latestdate"@, |e: ElementView| convert::text_of(e));
    lemma_timeframe_children_names();
    lemma_are_apart(
        children,
        |name: Seq<char>| convert::timeframe_singular(name),
        |name: Seq<char>| convert::timeframe_repeated(name),
        timeframe_once(),
        timeframe_often(),
    );
}

proof fn lemma_timeframe_children_names()
    ensures
        forall|name: Seq<char>| #[trigger]
            convert::timeframe_singular(name) <==> timeframe_once().contains(name),
        forall|name: Seq<char>| #[trigger]
            convert::timeframe_repeated(name) <==> timeframe_often().contains(name),
{
    let once = timeframe_once();
    let often = timeframe_often();
    assert(once[0] == "description"@);
    assert(once[1] == "earliestdate"@);
    assert(once[2] == "latestdate"@);
}

/// The names of the children of an address that may occur once.
pub open spec fn address_once() -> Seq<Seq<char>> {
    seq!["apartment"@, "city"@, "regioncode"@, "postalcode"@, "country"@]
}

/// The names of the children of an address that may occur often.
pub open spec fn address_often() -> Seq<Seq<char>> {
    seq!["street"@]
}

/// The fields of an address: attributes by name, lists of all children of a name, slots with
/// the first child of a name, and all other children as extensions, in document order.
pub proof fn law_address_reads(element: ElementView)
    ensures
        ({
            let read = convert::address_of(element);
            let children = element.children;
            &&& first_value(element.attributes, "type"@, read.address_type)
            &&& reads_all(
                read.streets,
                children,
                "street"@,
                |e: ElementView| convert::text_of(e),
            )
            &&& reads_first(
                read.apartment,
                children,
                "apartment"@,
                |e: ElementView| convert::text_of(e),
            )
            &&& reads_first(
                read.city,
                children,
                "city"@,
                |e: ElementView| convert::text_of(e),
            )
            &&& reads_first(
                read.region_code,
                children,
                "regioncode"@,
                |e: ElementView| convert::text_of(e),
            )
            &&& reads_first(
                read.postal_code,
                children,
                "postalcode"@,
                |e: ElementView| convert::text_of(e),
            )
            &&& reads_first(
                read.country,
                children,
                "country"@,
                |e: ElementView| convert::text_of(e),
            )
            &&& are_apart(read.extensions, children, address_once(), address_often())
            &&& none_named(read.extensions, address_often())
            &&& read.attributes == element.attributes
            &&& read.span == element.span
        }),
{
    let children = element.children;
    law_attribute_is_the_first(element.attributes, "type"@);
    lemma_reads_all(children, "street"@, |e: ElementView| convert::text_of(e));
    lemma_reads_first(children, "apartment"@, |e: ElementView| convert::text_of(e));
    lemma_reads_first(children, "city"@, |e: ElementView| convert::text_of(e));
    lemma_reads_first(children, "regioncode"@, |e: ElementView| convert::text_of(e));
    lemma_reads_first(children, "postalcode"@, |e: ElementView| convert::text_of(e));
    lemma_reads_first(children, "country"@, |e: ElementView| convert::text_of(e));
    lemma_address_children_names();
    lemma_are_apart(
        children,
        |name: Seq<char>| convert::address_singular(name),
        |name: Seq<char>| convert::address_repeated(name),
        address_once(),
        address_often(),
    );
}

proof fn lemma_address_children_names()
    ensures
        forall|name: Seq<char>| #[trigger]
            convert::address_singular(name) <==> address_once().contains(name),
        forall|name: Seq<char>| #[trigger]
            convert::address_repeated(name) <==> address_often().contains(name),
{
    let once = address_once();
    let often = address_often();
    assert(once[0] == "apartment"@);
    assert(once[1] == "city"@);
    assert(once[2] == "regioncode"@);
    assert(once[3] == "postalcode"@);
    assert(once[4] == "country"@);
    assert(often[0] == "street"@);
}

/// The names of the children of a contact that may occur once.
pub open spec fn contact_once() -> Seq<Seq<char>> {
    Seq::<Seq<char>>::empty()
}

/// The names of the children of a contact that may occur often.
pub open spec fn contact_often() -> Seq<Seq<char>> {
    seq!["name"@, "email"@, "phone"@, "address"@]
}

/// The fields of a contact: attributes by name, lists of all children of a name, slots with
/// the first child of a name, and all other children as extensions, in document order.
pub proof fn law_contact_reads(element: ElementView)
    ensures
        ({
            let read = convert::contact_of(element);
            let children = element.children;
            &&& first_value(element.attributes, "primarycontact"@, read.primary_contact)
            &&& reads_all(
                read.names,
                children,
                "name"@,
                |e: ElementView| convert::name_of(e),
            )
            &&& reads_all(
                read.emails,
                children,
                "email"@,
                |e: ElementView| convert::text_of(e),
            )
            &&& reads_all(
                read.phones,
                children,
                "phone"@,
                |e: ElementView| convert::text_of(e),
            )
            &&& reads_all(
                read.addresses,
                children,
                "address"@,
                |e: ElementView| convert::address_of(e),
            )
            &&& are_apart(read.extensions, children, contact_once(), contact_often())
            &&& none_named(read.extensions, contact_often())
            &&& read.attributes == element.attributes
            &&& read.span == element.span
        }),
{
    let children = element.children;
    law_attribute_is_the_first(element.attributes, "primarycontact"@);
    lemma_reads_all(children, "name"@, |e: ElementView| convert::name_of(e));
    lemma_reads_all(children, "email"@, |e: ElementView| convert::text_of(e));
    lemma_reads_all(children, "phone"@, |e: ElementView| convert::text_of(e));
    lemma_reads_all(children, "address"@, |e: ElementView| convert::address_of(e));
    lemma_contact_children_names();
    lemma_are_apart(
        children,
        |name: Seq<char>| convert::contact_singular(name),
        |name: Seq<char>| convert::contact_repeated(name),
        contact_once(),
        contact_often(),
    );
}

proof fn lemma_contact_children_names()
    ensures
        forall|name: Seq<char>| #[trigger]
            convert::contact_singular(name) <==> contact_once().contains(name),
        forall|name: Seq<char>| #[trigger]
            convert::contact_repeated(name) <==> contact_often().contains(name),
{
    let once = contact_once();
    let often = contact_often();
    assert(often[0] == "name"@);
    assert(often[1] == "email"@);
    assert(often[2] == "phone"@);
    assert(often[3] == "address"@);
}

/// The names of the children of a customer that may occur once.
pub open spec fn customer_once() -> Seq<Seq<char>> {
    seq!["timeframe"@, "comments"@]
}

/// The names of the children of a customer that may occur often.
pub open spec fn customer_often() -> Seq<Seq<char>> {
    seq!["id"@, "contact"@]
}

/// The fields of a customer: attributes by name, lists of all children of a name, slots with
/// the first child of a name, and all other children as extensions, in document order.
pub proof fn law_customer_reads(element: ElementView)
    ensures
        ({
            let read = convert::customer_of(element);
            let children = element.children;
            &&& reads_all(
                read.ids,
                children,
                "id"@,
                |e: ElementView| convert::id_of(e),
            )
            &&& reads_all(
                read.contacts,
                children,
                "contact"@,
                |e: ElementView| convert::contact_of(e),
            )
            &&& reads_first(
                read.timeframe,
                children,
                "timeframe"@,
                |e: ElementView| convert::timeframe_of(e),
            )
            &&& reads_first(
                read.comments,
                children,
                "comments"@,
                |e: ElementView| convert::text_of(e),
            )
            &&& are_apart(read.extensions, children, customer_once(), customer_often())
            &&& none_named(read.extensions, customer_often())
            &&& read.attributes == element.attributes
            &&& read.span == element.span
        }),
{
    let children = element.children;
    lemma_reads_all(children, "id"@, |e: ElementView| convert::id_of(e));
    lemma_reads_all(children, "contact"@, |e: ElementView| convert::contact_of(e));
    lemma_reads_first(children, "timeframe"@, |e: ElementView| convert::timeframe_of(e));
    lemma_reads_first(children, "comments"@, |e: ElementView| convert::text_of(e));
    lemma_customer_children_names();
    lemma_are_apart(
        children,
        |name: Seq<char>| convert::customer_singular(name),
        |name: Seq<char>| convert::customer_repeated(name),
        customer_once(),
        customer_often(),
    );
}

proof fn lemma_customer_children_names()
    ensures
        forall|name: Seq<char>| #[trigger]
            convert::customer_singular(name) <==> customer_once().contains(name),
        forall|name: Seq<char>| #[trigger]
            convert::customer_repeated(name) <==> customer_often().contains(name),
{
    let once = customer_once();
    let often = customer_often();
    assert(once[0] == "timeframe"@);
    assert(once[1] == "comments"@);
    assert(often[0] == "id"@);
    assert(often[1] == "contact"@);
}

/// The names of the children of a vendor that may occur once.
pub open spec fn vendor_once() -> Seq<Seq<char>> {
    seq!["vendorname"@, "url"@]
}

/// The names of the children of a vendor that may occur often.
pub open spec fn vendor_often() -> Seq<Seq<char>> {
    seq!["id"@, "contact"@]
}

/// The fields of a vendor: attributes by name, lists of all children of a name, slots with
/// the first child of a name, and all other children as extensions, in document order.
pub proof fn law_vendor_reads(element: ElementView)
    ensures
        ({
            let read = convert::vendor_of(element);
            let children = element.children;
            &&& reads_all(
                read.ids,
                children,
                "id"@,
                |e: ElementView| convert::id_of(e),
            )
            &&& reads_first(
                read.vendor_name,
                children,
                "vendorname"@,
                |e: ElementView| convert::text_of(e),
            )
            &&& reads_first(
                read.url,
                children,
                "url"@,
                |e: ElementView| convert::text_of(e),
            )
            &&& reads_all(
                read.contacts,
                children,
                "contact"@,
                |e: ElementView| convert::contact_of(e),
            )
            &&& are_apart(read.extensions, children, vendor_once(), vendor_often())
            &&& none_named(read.extensions, vendor_often())
            &&& read.attributes == element.attributes
            &&& read.span == element.span
        }),
{
    let children = element.children;
    lemma_reads_all(children, "id"@, |e: ElementView| convert::id_of(e));
    lemma_reads_first(children, "vendorname"@, |e: ElementView| convert::text_of(e));
    lemma_reads_first(children, "url"@, |e: ElementView| convert::text_of(e));
    lemma_reads_all(children, "contact"@, |e: ElementView| convert::contact_of(e));
    lemma_vendor_children_names();
    lemma_are_apart(
        children,
        |name: Seq<char>| convert::vendor_singular(name),
        |name: Seq<char>| convert::vendor_repeated(name),
        vendor_once(),
        vendor_often(),
    );
}

proof fn lemma_vendor_children_names()
    ensures
        forall|name: Seq<char>| #[trigger]
            convert::vendor_singular(name) <==> vendor_once().contains(name),
        forall|name: Seq<char>| #[trigger]
            convert::vendor_repeated(name) <==> vendor_often().contains(name),
{
    let once = vendor_once();
    let often = vendor_often();
    assert(once[0] == "vendorname"@);
    assert(once[1] == "url"@);
    assert(often[0] == "id"@);
    assert(often[1] == "contact"@);
}

/// The names of the children of a provider that may occur once.
pub open spec fn provider_once() -> Seq<Seq<char>> {
    seq!["name"@, "service"@, "url"@, "email"@, "phone"@]
}

/// The names of the children of a provider that may occur often.
pub open spec fn provider_often() -> Seq<Seq<char>> {
    seq!["id"@, "contact"@]
}

/// The fields of a provider: attributes by name, lists of all children of a name, slots with
/// the first child of a name, and all other children as extensions, in document order.
pub proof fn law_provider_reads(element: ElementView)
    ensures
        ({
            let read = convert::provider_of(element);
            let children = element.children;
            &&& reads_all(
                read.ids,
                children,
                "id"@,
                |e: ElementView| convert::id_of(e),
            )
            &&& reads_first(
                read.name,
                children,
                "name"@,
                |e: ElementView| convert::name_of(e),
            )
            &&& reads_first(
                read.service,
                children,
                "service"@,
                |e: ElementView| convert::text_of(e),
            )
            &&& reads_first(
                read.url,
                children,
                "url"@,
                |e: ElementView| convert::text_of(e),
            )
            &&& reads_first(
                read.email,
                children,
                "email"@,
                |e: ElementView| convert::text_of(e),
            )
            &&& reads_first(
                read.phone,
                children,
                "phone"@,
                |e: ElementView| convert::text_of(e),
            )
            &&& reads_all(
                read.contacts,
                children,
                "contact"@,
                |e: ElementView| convert::contact_of(e),
            )
            &&& are_apart(read.extensions, children, provider_once(), provider_often())
            &&& none_named(read.extensions, provider_often())
            &&& read.attributes == element.attributes
            &&& read.span == element.span
        }),
{
    let children = element.children;
    lemma_reads_all(children, "id"@, |e: ElementView| convert::id_of(e));
    lemma_reads_first(children, "name"@, |e: ElementView| convert::name_of(e));
    lemma_reads_first(children, "service"@, |e: ElementView| convert::text_of(e));
    lemma_reads_first(children, "url"@, |e: ElementView| convert::text_of(e));
    lemma_reads_first(children, "email"@, |e: ElementView| convert::text_of(e));
    lemma_reads_first(children, "phone"@, |e: ElementView| convert::text_of(e));
    lemma_reads_all(children, "contact"@, |e: ElementView| convert::contact_of(e));
    lemma_provider_children_names();
    lemma_are_apart(
        children,
        |name: Seq<char>| convert::provider_singular(name),
        |name: Seq<char>| convert::provider_repeated(name),
        provider_once(),
        provider_often(),
    );
}

proof fn lemma_provider_children_names()
    ensures
        forall|name: Seq<char>| #[trigger]
            convert::provider_singular(name) <==> provider_once().contains(name),
        forall|name: Seq<char>| #[trigger]
            convert::provider_repeated(name) <==> provider_often().contains(name),
{
    let once = provider_once();
    let often = provider_often();
    assert(once[0] == "name"@);
    assert(once[1] == "service"@);
    assert(once[2] == "url"@);
    assert(once[3] == "email"@);
    assert(once[4] == "phone"@);
    assert(often[0] == "id"@);
    assert(often[1] == "contact"@);
}

/// The names of the children of a prospect that may occur once.
pub open spec fn prospect_once() -> Seq<Seq<char>> {
    seq!["requestdate"@, "customer"@, "vendor"@, "provider"@]
}

/// The names of the children of a prospect that may occur often.
pub open spec fn prospect_often() -> Seq<Seq<char>> {
    seq!["id"@, "vehicle"@]
}

/// The fields of a prospect: attributes by name, lists of all children of a name, slots with
/// the first child of a name, and all other children as extensions, in document order.
pub proof fn law_prospect_reads(element: ElementView)
    ensures
        ({
            let read = convert::prospect_of(element);
            let children = element.children;
            &&& first_value(element.attributes, "status"@, read.status)
            &&& reads_all(
                read.ids,
                children,
                "id"@,
                |e: ElementView| convert::id_of(e),
            )
            &&& reads_first(
                read.request_date,
                children,
                "requestdate"@,
                |e: ElementView| convert::text_of(e),
            )
            &&& reads_all(
                read.vehicles,
                children,
                "vehicle"@,
                |e: ElementView| convert::vehicle_of(e),
            )
            &&& reads_first(
                read.customer,
                children,
                "customer"@,
                |e: ElementView| convert::customer_of(e),
            )
            &&& reads_first(
                read.vendor,
                children,
                "vendor"@,
                |e: ElementView| convert::vendor_of(e),
            )
            &&& reads_first(
                read.provider,
                children,
                "provider"@,
                |e: ElementView| convert::provider_of(e),
            )
            &&& are_apart(read.extensions, children, prospect_once(), prospect_often())
            &&& none_named(read.extensions, prospect_often())
            &&& read.attributes == element.attributes
            &&& read.span == element.span
        }),
{
    let children = element.children;
    law_attribute_is_the_first(element.attributes, "status"@);
    lemma_reads_all(children, "id"@, |e: ElementView| convert::id_of(e));
    lemma_reads_first(children, "requestdate"@, |e: ElementView| convert::text_of(e));
    lemma_reads_all(children, "vehicle"@, |e: ElementView| convert::vehicle_of(e));
    lemma_reads_first(children, "customer"@, |e: ElementView| convert::customer_of(e));
    lemma_reads_first(children, "vendor"@, |e: ElementView| convert::vendor_of(e));
    lemma_reads_first(children, "provider"@, |e: ElementView| convert::provider_of(e));
    lemma_prospect_children_names();
    lemma_are_apart(
        children,
        |name: Seq<char>| convert::prospect_singular(name),
        |name: Seq<char>| convert::prospect_repeated(name),
        prospect_once(),
        prospect_often(),
    );
}

proof fn lemma_prospect_children_names()
    ensures
        forall|name: Seq<char>| #[trigger]
            convert::prospect_singular(name) <==> prospect_once().contains(name),
        forall|name: Seq<char>| #[trigger]
            convert::prospect_repeated(name) <==> prospect_often().contains(name),
{
    let once = prospect_once();
    let often = prospect_often();
    assert(once[0] == "requestdate"@);
    assert(once[1] == "customer"@);
    assert(once[2] == "vendor"@);
    assert(once[3] == "provider"@);
    assert(often[0] == "id"@);
    assert(often[1] == "vehicle"@);
}

/// The names of the children of a document that may occur once.
pub open spec fn adf_once() -> Seq<Seq<char>> {
    Seq::<Seq<char>>::empty()
}

/// The names of the children of a document that may occur often.
pub open spec fn adf_often() -> Seq<Seq<char>> {
    seq!["prospect"@]
}

/// The fields of a document: attributes by name, lists of all children of a name, slots with
/// the first child of a name, and all other children as extensions, in document order.
pub proof fn law_adf_reads(element: ElementView)
    ensures
        ({
            let read = convert::adf_of(element);
            let children = element.children;
            &&& reads_all(
                read.prospects,
                children,
                "prospect"@,
                |e: ElementView| convert::prospect_of(e),
            )
            &&& are_apart(read.extensions, children, adf_once(), adf_often())
            &&& none_named(read.extensions, adf_often())
            &&& read.attributes == element.attributes
            &&& read.span == element.span
        }),
{
    let children = element.children;
    lemma_reads_all(children, "prospect"@, |e: ElementView| convert::prospect_of(e));
    lemma_adf_children_names();
    lemma_are_apart(
        children,
        |name: Seq<char>| convert::adf_singular(name),
        |name: Seq<char>| convert::adf_repeated(name),
        adf_once(),
        adf_often(),
    );
}

proof fn lemma_adf_children_names()
    ensures
        forall|name: Seq<char>| #[trigger]
            convert::adf_singular(name) <==> adf_once().contains(name),
        forall|name: Seq<char>| #[trigger]
            convert::adf_repeated(name) <==> adf_often().contains(name),
{
    let once = adf_once();
    let often = adf_often();
    assert(often[0] == "prospect"@);
}

/// A document is read from a root of the name `adf`, and a root of another name is
/// refused, at its place and with its name.
pub proof fn law_root_is_adf(root: ElementView)
    ensures
        match convert::adf_of_root(root) {
            Ok((adf, spans)) => {
                &&& root.name == "adf"@
                &&& adf == convert::adf_of(root)
                &&& spans.len() == with_name(root.children, "prospect"@).len()
                &&& forall|k: int|
                    0 <= k < spans.len() ==> {
                        let prospect = with_name(root.children, "prospect"@)[k]->Element_0;
                        &&& (#[trigger] spans[k]).start == prospect.span.start
                        &&& spans[k].end == prospect.span.end
                    }
            },
            Err(e) => {
                &&& root.name != "adf"@
                &&& e == (ErrorView::UnexpectedRoot {
                    found: root.name,
                    position: root.span.start as u64,
                })
            },
        },
{
    lemma_named(root.children, "prospect"@);
    if let Ok((adf, spans)) = convert::adf_of_root(root) {
        assert forall|k: int| 0 <= k < spans.len() implies {
            let prospect = with_name(root.children, "prospect"@)[k]->Element_0;
            &&& (#[trigger] spans[k]).start == prospect.span.start
            &&& spans[k].end == prospect.span.end
        } by {
            assert(with_name(root.children, "prospect"@)[k] == NodeView::Element(
                convert::named(root.children, "prospect"@)[k],
            ));
        }
    }
}

} // verus!
