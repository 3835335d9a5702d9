//! An account of a parsed document: the typed model, the prolog and the epilog hold what
//! the document consists of, each item as often as it occurs. White space between
//! elements is the only thing that the model leaves out.

use crate::document::{AttributeView, ElementView, NodeView};
use crate::model::{
    AddressView, AdfView, ColorCombinationView, ContactView, CustomerView, FinanceView, IdView,
    NameView, PriceView, ProspectView, ProviderView, TextElementView, TimeframeView,
    VehicleOptionView, VehicleView, VendorView,
};
use crate::options::ParseOptions;
use crate::order::Item;
use crate::{builder, convert, kept, order, parse, reader, tree};
use vstd::prelude::*;

verus! {

/// How often an item occurs among others.
pub open spec fn count(items: Seq<Item>, item: Item) -> nat
    decreases items.len(),
{
    if items.len() == 0 {
        0
    } else if items.last() == item {
        count(items.drop_last(), item) + 1
    } else {
        count(items.drop_last(), item)
    }
}

proof fn lemma_count_concat(a: Seq<Item>, b: Seq<Item>, item: Item)
    ensures
        count(a + b, item) == count(a, item) + count(b, item),
    decreases b.len(),
{
    if b.len() == 0 {
        assert(a + b =~= a);
    } else {
        assert((a + b).drop_last() =~= a + b.drop_last());
        lemma_count_concat(a, b.drop_last(), item);
    }
}

/// An item that is more than white space.
pub open spec fn significant(item: Item) -> bool {
    !(item matches Item::Leaf(NodeView::Text(value)) && tree::blank(value))
}

/// How often an item occurs as the beginning or the end of an element.
pub open spec fn tags_count(name: Seq<char>, attributes: Seq<AttributeView>, item: Item) -> nat {
    (if item == (Item::Open { name, attributes }) {
        1nat
    } else {
        0
    }) + (if item == (Item::Close { name }) {
        1nat
    } else {
        0
    })
}

/// An element consists of its tags and its children.
proof fn lemma_element_count(element: ElementView, item: Item)
    ensures
        count(order::element_items(element), item) == tags_count(
            element.name,
            element.attributes,
            item,
        ) + count(order::nodes_items(element.children), item),
{
    let open = seq![order::opening(element)];
    let close = seq![Item::Close { name: element.name }];
    let inner = order::nodes_items(element.children);
    lemma_count_concat(open + inner, close, item);
    lemma_count_concat(open, inner, item);
    reveal_with_fuel(count, 2);
}

/// One more child.
proof fn lemma_children_count(children: Seq<NodeView>, item: Item)
    requires
        children.len() > 0,
    ensures
        count(order::nodes_items(children), item) == count(
            order::nodes_items(children.drop_last()),
            item,
        ) + count(order::node_items(children.last()), item),
{
    lemma_count_concat(
        order::nodes_items(children.drop_last()),
        order::node_items(children.last()),
        item,
    );
}

/// One more extension.
proof fn lemma_extension_count(extensions: Seq<NodeView>, child: NodeView, item: Item)
    ensures
        count(order::nodes_items(extensions.push(child)), item) == count(
            order::nodes_items(extensions),
            item,
        ) + count(order::node_items(child), item),
{
    lemma_children_count(extensions.push(child), item);
    assert(extensions.push(child).drop_last() =~= extensions);
}

/// White space does not count.
proof fn lemma_blank_count(child: NodeView, item: Item)
    requires
        significant(item),
        child matches NodeView::Text(value) && tree::blank(value),
    ensures
        count(order::node_items(child), item) == 0,
{
    reveal_with_fuel(count, 2);
}

/// How often an item occurs in a text element that stands for an element of a name.
pub open spec fn text_count(name: Seq<char>, value: TextElementView, item: Item) -> nat {
    count(
        order::element_items(kept::rebuilt(name, value.parts, value.attributes, value.span)),
        item,
    )
}

/// How often an item occurs in a list of these.
pub open spec fn text_list_count(name: Seq<char>, list: Seq<TextElementView>, item: Item) -> nat
    decreases list.len(),
{
    if list.len() == 0 {
        0
    } else {
        text_list_count(name, list.drop_last(), item) + text_count(name, list.last(), item)
    }
}

proof fn lemma_text_list_push(
    name: Seq<char>,
    list: Seq<TextElementView>,
    value: TextElementView,
    item: Item,
)
    ensures
        text_list_count(name, list.push(value), item) == text_list_count(name, list, item)
            + text_count(name, value, item),
{
    assert(list.push(value).drop_last() =~= list);
}

/// How often an item occurs in one of these, if there is one.
pub open spec fn text_slot_count(
    name: Seq<char>,
    slot: Option<TextElementView>,
    item: Item,
) -> nat {
    match slot {
        Some(value) => text_count(name, value, item),
        None => 0,
    }
}

/// How often an item occurs in an identifier that stands for an element of a name.
pub open spec fn id_count(name: Seq<char>, value: IdView, item: Item) -> nat {
    count(
        order::element_items(kept::rebuilt(name, value.parts, value.attributes, value.span)),
        item,
    )
}

/// How often an item occurs in a list of these.
pub open spec fn id_list_count(name: Seq<char>, list: Seq<IdView>, item: Item) -> nat
    decreases list.len(),
{
    if list.len() == 0 {
        0
    } else {
        id_list_count(name, list.drop_last(), item) + id_count(name, list.last(), item)
    }
}

proof fn lemma_id_list_push(name: Seq<char>, list: Seq<IdView>, value: IdView, item: Item)
    ensures
        id_list_count(name, list.push(value), item) == id_list_count(name, list, item)
            + id_count(name, value, item),
{
    assert(list.push(value).drop_last() =~= list);
}

/// How often an item occurs in a price that stands for an element of a name.
pub open spec fn price_count(name: Seq<char>, value: PriceView, item: Item) -> nat {
    count(
        order::element_items(kept::rebuilt(name, value.parts, value.attributes, value.span)),
        item,
    )
}

/// How often an item occurs in a list of these.
pub open spec fn price_list_count(name: Seq<char>, list: Seq<PriceView>, item: Item) -> nat
    decreases list.len(),
{
    if list.len() == 0 {
        0
    } else {
        price_list_count(name, list.drop_last(), item) + price_count(name, list.last(), item)
    }
}

proof fn lemma_price_list_push(name: Seq<char>, list: Seq<PriceView>, value: PriceView, item: Item)
    ensures
        price_list_count(name, list.push(value), item) == price_list_count(name, list, item)
            + price_count(name, value, item),
{
    assert(list.push(value).drop_last() =~= list);
}

/// How often an item occurs in a name that stands for an element of a name.
pub open spec fn name_count(name: Seq<char>, value: NameView, item: Item) -> nat {
    count(
        order::element_items(kept::rebuilt(name, value.parts, value.attributes, value.span)),
        item,
    )
}

/// How often an item occurs in a list of these.
pub open spec fn name_list_count(name: Seq<char>, list: Seq<NameView>, item: Item) -> nat
    decreases list.len(),
{
    if list.len() == 0 {
        0
    } else {
        name_list_count(name, list.drop_last(), item) + name_count(name, list.last(), item)
    }
}

proof fn lemma_name_list_push(name: Seq<char>, list: Seq<NameView>, value: NameView, item: Item)
    ensures
        name_list_count(name, list.push(value), item) == name_list_count(name, list, item)
            + name_count(name, value, item),
{
    assert(list.push(value).drop_last() =~= list);
}

/// How often an item occurs in one of these, if there is one.
pub open spec fn name_slot_count(name: Seq<char>, slot: Option<NameView>, item: Item) -> nat {
    match slot {
        Some(value) => name_count(name, value, item),
        None => 0,
    }
}

/// How often an item occurs in the fields and extensions of a color combination.
pub open spec fn color_combination_fields_count(value: ColorCombinationView, item: Item) -> nat {
    text_slot_count("interiorcolor"@, value.interior_color, item)
        + text_slot_count("exteriorcolor"@, value.exterior_color, item)
        + text_slot_count("preference"@, value.preference, item)
        + count(order::nodes_items(value.extensions), item)
}

/// How often an item occurs in a color combination that stands for an element of a name.
pub open spec fn color_combination_count(
    name: Seq<char>,
    value: ColorCombinationView,
    item: Item,
) -> nat {
    tags_count(name, value.attributes, item) + color_combination_fields_count(value, item)
}

/// How often an item occurs in a list of these.
pub open spec fn color_combination_list_count(
    name: Seq<char>,
    list: Seq<ColorCombinationView>,
    item: Item,
) -> nat
    decreases list.len(),
{
    if list.len() == 0 {
        0
    } else {
        color_combination_list_count(name, list.drop_last(), item)
            + color_combination_count(name, list.last(), item)
    }
}

proof fn lemma_color_combination_list_push(
    name: Seq<char>,
    list: Seq<ColorCombinationView>,
    value: ColorCombinationView,
    item: Item,
)
    ensures
        color_combination_list_count(name, list.push(value), item)
            == color_combination_list_count(name, list, item)
            + color_combination_count(name, value, item),
{
    assert(list.push(value).drop_last() =~= list);
}

/// The fields and extensions of a color combination hold the children of its element.
proof fn lemma_color_combination_children(element: ElementView, item: Item)
    requires
        significant(item),
    ensures
        count(order::nodes_items(element.children), item) == color_combination_fields_count(
            convert::color_combination_of(element),
            item,
        ),
    decreases element.children.len(),
{
    let children = element.children;
    if children.len() > 0 {
        let shorter = ElementView { children: children.drop_last(), ..element };
        let before = convert::color_combination_of(shorter);
        let child = children.last();
        lemma_color_combination_children(shorter, item);
        lemma_children_count(children, item);
        lemma_extension_count(before.extensions, child, item);
        convert::lemma_color_combination_names();
        match child {
            NodeView::Element(inner) => {
                if inner.name == "interiorcolor"@ {
                    law_text_accounts(inner, item);
                } else if inner.name == "exteriorcolor"@ {
                    law_text_accounts(inner, item);
                } else if inner.name == "preference"@ {
                    law_text_accounts(inner, item);
                }
            },
            NodeView::Text(value) => {
                if tree::blank(value) {
                    lemma_blank_count(child, item);
                }
            },
            _ => {},
        }
    }
}

/// A color combination holds what its element consists of, item by item.
pub proof fn law_color_combination_accounts(element: ElementView, item: Item)
    requires
        significant(item),
    ensures
        count(order::element_items(element), item) == color_combination_count(
            element.name,
            convert::color_combination_of(element),
            item,
        ),
{
    lemma_element_count(element, item);
    lemma_color_combination_children(element, item);
}

/// How often an item occurs in the fields and extensions of a vehicle option.
pub open spec fn option_fields_count(value: VehicleOptionView, item: Item) -> nat {
    text_slot_count("optionname"@, value.option_name, item)
        + text_slot_count("manufacturercode"@, value.manufacturer_code, item)
        + text_slot_count("stock"@, value.stock, item)
        + text_slot_count("weighting"@, value.weighting, item)
        + price_list_count("price"@, value.prices, item)
        + count(order::nodes_items(value.extensions), item)
}

/// How often an item occurs in a vehicle option that stands for an element of a name.
pub open spec fn option_count(name: Seq<char>, value: VehicleOptionView, item: Item) -> nat {
    tags_count(name, value.attributes, item) + option_fields_count(value, item)
}

/// How often an item occurs in a list of these.
pub open spec fn option_list_count(name: Seq<char>, list: Seq<VehicleOptionView>, item: Item) -> nat
    decreases list.len(),
{
    if list.len() == 0 {
        0
    } else {
        option_list_count(name, list.drop_last(), item) + option_count(name, list.last(), item)
    }
}

proof fn lemma_option_list_push(
    name: Seq<char>,
    list: Seq<VehicleOptionView>,
    value: VehicleOptionView,
    item: Item,
)
    ensures
        option_list_count(name, list.push(value), item) == option_list_count(name, list, item)
            + option_count(name, value, item),
{
    assert(list.push(value).drop_last() =~= list);
}

/// The fields and extensions of a vehicle option hold the children of its element.
proof fn lemma_option_children(element: ElementView, item: Item)
    requires
        significant(item),
    ensures
        count(order::nodes_items(element.children), item) == option_fields_count(
            convert::option_of(element),
            item,
        ),
    decreases element.children.len(),
{
    let children = element.children;
    if children.len() > 0 {
        let shorter = ElementView { children: children.drop_last(), ..element };
        let before = convert::option_of(shorter);
        let child = children.last();
        lemma_option_children(shorter, item);
        lemma_children_count(children, item);
        lemma_extension_count(before.extensions, child, item);
        convert::lemma_option_names();
        match child {
            NodeView::Element(inner) => {
                if inner.name == "optionname"@ {
                    law_text_accounts(inner, item);
                } else if inner.name == "manufacturercode"@ {
                    law_text_accounts(inner, item);
                } else if inner.name == "stock"@ {
                    law_text_accounts(inner, item);
                } else if inner.name == "weighting"@ {
                    law_text_accounts(inner, item);
                } else if inner.name == "price"@ {
                    law_price_accounts(inner, item);
                    convert::lemma_each_push(
                        convert::named(children.drop_last(), "price"@),
                        inner,
                        |e: ElementView| convert::price_of(e),
                    );
                    lemma_price_list_push("price"@, before.prices, convert::price_of(inner), item);
                }
            },
            NodeView::Text(value) => {
                if tree::blank(value) {
                    lemma_blank_count(child, item);
                }
            },
            _ => {},
        }
    }
}

/// A vehicle option holds what its element consists of, item by item.
pub proof fn law_option_accounts(element: ElementView, item: Item)
    requires
        significant(item),
    ensures
        count(order::element_items(element), item) == option_count(
            element.name,
            convert::option_of(element),
            item,
        ),
{
    lemma_element_count(element, item);
    lemma_option_children(element, item);
}

/// How often an item occurs in the fields and extensions of a finance.
pub open spec fn finance_fields_count(value: FinanceView, item: Item) -> nat {
    text_slot_count("method"@, value.method, item)
        + text_list_count("amount"@, value.amounts, item)
        + text_list_count("balance"@, value.balances, item)
        + count(order::nodes_items(value.extensions), item)
}

/// How often an item occurs in a finance that stands for an element of a name.
pub open spec fn finance_count(name: Seq<char>, value: FinanceView, item: Item) -> nat {
    tags_count(name, value.attributes, item) + finance_fields_count(value, item)
}

/// How often an item occurs in one of these, if there is one.
pub open spec fn finance_slot_count(name: Seq<char>, slot: Option<FinanceView>, item: Item) -> nat {
    match slot {
        Some(value) => finance_count(name, value, item),
        None => 0,
    }
}

/// The fields and extensions of a finance hold the children of its element.
proof fn lemma_finance_children(element: ElementView, item: Item)
    requires
        significant(item),
    ensures
        count(order::nodes_items(element.children), item) == finance_fields_count(
            convert::finance_of(element),
            item,
        ),
    decreases element.children.len(),
{
    let children = element.children;
    if children.len() > 0 {
        let shorter = ElementView { children: children.drop_last(), ..element };
        let before = convert::finance_of(shorter);
        let child = children.last();
        lemma_finance_children(shorter, item);
        lemma_children_count(children, item);
        lemma_extension_count(before.extensions, child, item);
        convert::lemma_finance_names();
        match child {
            NodeView::Element(inner) => {
                if inner.name == "method"@ {
                    law_text_accounts(inner, item);
                } else if inner.name == "amount"@ {
                    law_text_accounts(inner, item);
                    convert::lemma_each_push(
                        convert::named(children.drop_last(), "amount"@),
                        inner,
                        |e: ElementView| convert::text_of(e),
                    );
                    lemma_text_list_push("amount"@, before.amounts, convert::text_of(inner), item);
                } else if inner.name == "balance"@ {
                    law_text_accounts(inner, item);
                    convert::lemma_each_push(
                        convert::named(children.drop_last(), "balance"@),
                        inner,
                        |e: ElementView| convert::text_of(e),
                    );
                    lemma_text_list_push(
                        "balance"@,
                        before.balances,
                        convert::text_of(inner),
                        item,
                    );
                }
            },
            NodeView::Text(value) => {
                if tree::blank(value) {
                    lemma_blank_count(child, item);
                }
            },
            _ => {},
        }
    }
}

/// A finance holds what its element consists of, item by item.
pub proof fn law_finance_accounts(element: ElementView, item: Item)
    requires
        significant(item),
    ensures
        count(order::element_items(element), item) == finance_count(
            element.name,
            convert::finance_of(element),
            item,
        ),
{
    lemma_element_count(element, item);
    lemma_finance_children(element, item);
}

/// How often an item occurs in the fields and extensions of a vehicle.
pub open spec fn vehicle_fields_count(value: VehicleView, item: Item) -> nat {
    id_list_count("id"@, value.ids, item)
        + text_slot_count("year"@, value.year, item)
        + text_slot_count("make"@, value.make, item)
        + text_slot_count("model"@, value.model, item)
        + text_slot_count("vin"@, value.vin, item)
        + text_slot_count("stock"@, value.stock, item)
        + text_slot_count("trim"@, value.trim, item)
        + text_slot_count("doors"@, value.doors, item)
        + text_slot_count("bodystyle"@, value.body_style, item)
        + text_slot_count("transmission"@, value.transmission, item)
        + text_slot_count("odometer"@, value.odometer, item)
        + text_slot_count("condition"@, value.condition, item)
        + color_combination_list_count("colorcombination"@, value.color_combinations, item)
        + text_list_count("imagetag"@, value.image_tags, item)
        + price_list_count("price"@, value.prices, item)
        + text_slot_count("pricecomments"@, value.price_comments, item)
        + option_list_count("option"@, value.options, item)
        + finance_slot_count("finance"@, value.finance, item)
        + text_slot_count("comments"@, value.comments, item)
        + count(order::nodes_items(value.extensions), item)
}

/// How often an item occurs in a vehicle that stands for an element of a name.
pub open spec fn vehicle_count(name: Seq<char>, value: VehicleView, item: Item) -> nat {
    tags_count(name, value.attributes, item) + vehicle_fields_count(value, item)
}

/// How often an item occurs in a list of these.
pub open spec fn vehicle_list_count(name: Seq<char>, list: Seq<VehicleView>, item: Item) -> nat
    decreases list.len(),
{
    if list.len() == 0 {
        0
    } else {
        vehicle_list_count(name, list.drop_last(), item) + vehicle_count(name, list.last(), item)
    }
}

proof fn lemma_vehicle_list_push(
    name: Seq<char>,
    list: Seq<VehicleView>,
    value: VehicleView,
    item: Item,
)
    ensures
        vehicle_list_count(name, list.push(value), item) == vehicle_list_count(name, list, item)
            + vehicle_count(name, value, item),
{
    assert(list.push(value).drop_last() =~= list);
}

/// The fields and extensions of a vehicle hold the children of its element.
proof fn lemma_vehicle_children(element: ElementView, item: Item)
    requires
        significant(item),
    ensures
        count(order::nodes_items(element.children), item) == vehicle_fields_count(
            convert::vehicle_of(element),
            item,
        ),
    decreases element.children.len(),
{
    let children = element.children;
    if children.len() > 0 {
        let shorter = ElementView { children: children.drop_last(), ..element };
        let before = convert::vehicle_of(shorter);
        let child = children.last();
        lemma_vehicle_children(shorter, item);
        lemma_children_count(children, item);
        lemma_extension_count(before.extensions, child, item);
        convert::lemma_vehicle_names();
        match child {
            NodeView::Element(inner) => {
                if inner.name == "id"@ {
                    law_id_accounts(inner, item);
                    convert::lemma_each_push(
                        convert::named(children.drop_last(), "id"@),
                        inner,
                        |e: ElementView| convert::id_of(e),
                    );
                    lemma_id_list_push("id"@, before.ids, convert::id_of(inner), item);
                } else if inner.name == "year"@ {
                    law_text_accounts(inner, item);
                } else if inner.name == "make"@ {
                    law_text_accounts(inner, item);
                } else if inner.name == "model"@ {
                    law_text_accounts(inner, item);
                } else if inner.name == "vin"@ {
                    law_text_accounts(inner, item);
                } else if inner.name == "stock"@ {
                    law_text_accounts(inner, item);
                } else if inner.name == "trim"@ {
                    law_text_accounts(inner, item);
                } else if inner.name == "doors"@ {
                    law_text_accounts(inner, item);
                } else if inner.name == "bodystyle"@ {
                    law_text_accounts(inner, item);
                } else if inner.name == "transmission"@ {
                    law_text_accounts(inner, item);
                } else if inner.name == "odometer"@ {
                    law_text_accounts(inner, item);
                } else if inner.name == "condition"@ {
                    law_text_accounts(inner, item);
                } else if inner.name == "colorcombination"@ {
                    law_color_combination_accounts(inner, item);
                    convert::lemma_each_push(
                        convert::named(children.drop_last(), "colorcombination"@),
                        inner,
                        |e: ElementView| convert::color_combination_of(e),
                    );
                    lemma_color_combination_list_push(
                        "colorcombination"@,
                        before.color_combinations,
                        convert::color_combination_of(inner),
                        item,
                    );
                } else if inner.name == "imagetag"@ {
                    law_text_accounts(inner, item);
                    convert::lemma_each_push(
                        convert::named(children.drop_last(), "imagetag"@),
                        inner,
                        |e: ElementView| convert::text_of(e),
                    );
                    lemma_text_list_push(
                        "imagetag"@,
                        before.image_tags,
                        convert::text_of(inner),
                        item,
                    );
                } else if inner.name == "price"@ {
                    law_price_accounts(inner, item);
                    convert::lemma_each_push(
                        convert::named(children.drop_last(), "price"@),
                        inner,
                        |e: ElementView| convert::price_of(e),
                    );
                    lemma_price_list_push("price"@, before.prices, convert::price_of(inner), item);
                } else if inner.name == "pricecomments"@ {
                    law_text_accounts(inner, item);
                } else if inner.name == "option"@ {
                    law_option_accounts(inner, item);
                    convert::lemma_each_push(
                        convert::named(children.drop_last(), "option"@),
                        inner,
                        |e: ElementView| convert::option_of(e),
                    );
                    lemma_option_list_push(
                        "option"@,
                        before.options,
                        convert::option_of(inner),
                        item,
                    );
                } else if inner.name == "finance"@ {
                    law_finance_accounts(inner, item);
                } else if inner.name == "comments"@ {
                    law_text_accounts(inner, item);
                }
            },
            NodeView::Text(value) => {
                if tree::blank(value) {
                    lemma_blank_count(child, item);
                }
            },
            _ => {},
        }
    }
}

/// A vehicle holds what its element consists of, item by item.
pub proof fn law_vehicle_accounts(element: ElementView, item: Item)
    requires
        significant(item),
    ensures
        count(order::element_items(element), item) == vehicle_count(
            element.name,
            convert::vehicle_of(element),
            item,
        ),
{
    lemma_element_count(element, item);
    lemma_vehicle_children(element, item);
}

/// How often an item occurs in the fields and extensions of a timeframe.
pub open spec fn timeframe_fields_count(value: TimeframeView, item: Item) -> nat {
    text_slot_count("description"@, value.description, item)
        + text_slot_count("earliestdate"@, value.earliest_date, item)
        + text_slot_count("latestdate"@, value.latest_date, item)
        + count(order::nodes_items(value.extensions), item)
}

/// How often an item occurs in a timeframe that stands for an element of a name.
pub open spec fn timeframe_count(name: Seq<char>, value: TimeframeView, item: Item) -> nat {
    tags_count(name, value.attributes, item) + timeframe_fields_count(value, item)
}

/// How often an item occurs in one of these, if there is one.
pub open spec fn timeframe_slot_count(
    name: Seq<char>,
    slot: Option<TimeframeView>,
    item: Item,
) -> nat {
    match slot {
        Some(value) => timeframe_count(name, value, item),
        None => 0,
    }
}

/// The fields and extensions of a timeframe hold the children of its element.
proof fn lemma_timeframe_children(element: ElementView, item: Item)
    requires
        significant(item),
    ensures
        count(order::nodes_items(element.children), item) == timeframe_fields_count(
            convert::timeframe_of(element),
            item,
        ),
    decreases element.children.len(),
{
    let children = element.children;
    if children.len() > 0 {
        let shorter = ElementView { children: children.drop_last(), ..element };
        let before = convert::timeframe_of(shorter);
        let child = children.last();
        lemma_timeframe_children(shorter, item);
        lemma_children_count(children, item);
        lemma_extension_count(before.extensions, child, item);
        convert::lemma_timeframe_names();
        match child {
            NodeView::Element(inner) => {
                if inner.name == "description"@ {
                    law_text_accounts(inner, item);
                } else if inner.name == "earliestdate"@ {
                    law_text_accounts(inner, item);
                } else if inner.name == "latestdate"@ {
                    law_text_accounts(inner, item);
                }
            },
            NodeView::Text(value) => {
                if tree::blank(value) {
                    lemma_blank_count(child, item);
                }
            },
            _ => {},
        }
    }
}

/// A timeframe holds what its element consists of, item by item.
pub proof fn law_timeframe_accounts(element: ElementView, item: Item)
    requires
        significant(item),
    ensures
        count(order::element_items(element), item) == timeframe_count(
            element.name,
            convert::timeframe_of(element),
            item,
        ),
{
    lemma_element_count(element, item);
    lemma_timeframe_children(element, item);
}

/// How often an item occurs in the fields and extensions of an address.
pub open spec fn address_fields_count(value: AddressView, item: Item) -> nat {
    text_list_count("street"@, value.streets, item)
        + text_slot_count("apartment"@, value.apartment, item)
        + text_slot_count("city"@, value.city, item)
        + text_slot_count("regioncode"@, value.region_code, item)
        + text_slot_count("postalcode"@, value.postal_code, item)
        + text_slot_count("country"@, value.country, item)
        + count(order::nodes_items(value.extensions), item)
}

/// How often an item occurs in an address that stands for an element of a name.
pub open spec fn address_count(name: Seq<char>, value: AddressView, item: Item) -> nat {
    tags_count(name, value.attributes, item) + address_fields_count(value, item)
}

/// How often an item occurs in a list of these.
pub open spec fn address_list_count(name: Seq<char>, list: Seq<AddressView>, item: Item) -> nat
    decreases list.len(),
{
    if list.len() == 0 {
        0
    } else {
        address_list_count(name, list.drop_last(), item) + address_count(name, list.last(), item)
    }
}

proof fn lemma_address_list_push(
    name: Seq<char>,
    list: Seq<AddressView>,
    value: AddressView,
    item: Item,
)
    ensures
        address_list_count(name, list.push(value), item) == address_list_count(name, list, item)
            + address_count(name, value, item),
{
    assert(list.push(value).drop_last() =~= list);
}

/// The fields and extensions of an address hold the children of its element.
proof fn lemma_address_children(element: ElementView, item: Item)
    requires
        significant(item),
    ensures
        count(order::nodes_items(element.children), item) == address_fields_count(
            convert::address_of(element),
            item,
        ),
    decreases element.children.len(),
{
    let children = element.children;
    if children.len() > 0 {
        let shorter = ElementView { children: children.drop_last(), ..element };
        let before = convert::address_of(shorter);
        let child = children.last();
        lemma_address_children(shorter, item);
        lemma_children_count(children, item);
        lemma_extension_count(before.extensions, child, item);
        convert::lemma_address_names();
        match child {
            NodeView::Element(inner) => {
                if inner.name == "street"@ {
                    law_text_accounts(inner, item);
                    convert::lemma_each_push(
                        convert::named(children.drop_last(), "street"@),
                        inner,
                        |e: ElementView| convert::text_of(e),
                    );
                    lemma_text_list_push("street"@, before.streets, convert::text_of(inner), item);
                } else if inner.name == "apartment"@ {
                    law_text_accounts(inner, item);
                } else if inner.name == "city"@ {
                    law_text_accounts(inner, item);
                } else if inner.name == "regioncode"@ {
                    law_text_accounts(inner, item);
                } else if inner.name == "postalcode"@ {
                    law_text_accounts(inner, item);
                } else if inner.name == "country"@ {
                    law_text_accounts(inner, item);
                }
            },
            NodeView::Text(value) => {
                if tree::blank(value) {
                    lemma_blank_count(child, item);
                }
            },
            _ => {},
        }
    }
}

/// An address holds what its element consists of, item by item.
pub proof fn law_address_accounts(element: ElementView, item: Item)
    requires
        significant(item),
    ensures
        count(order::element_items(element), item) == address_count(
            element.name,
            convert::address_of(element),
            item,
        ),
{
    lemma_element_count(element, item);
    lemma_address_children(element, item);
}

/// How often an item occurs in the fields and extensions of a contact.
pub open spec fn contact_fields_count(value: ContactView, item: Item) -> nat {
    name_list_count("name"@, value.names, item)
        + text_list_count("email"@, value.emails, item)
        + text_list_count("phone"@, value.phones, item)
        + address_list_count("address"@, value.addresses, item)
        + count(order::nodes_items(value.extensions), item)
}

/// How often an item occurs in a contact that stands for an element of a name.
pub open spec fn contact_count(name: Seq<char>, value: ContactView, item: Item) -> nat {
    tags_count(name, value.attributes, item) + contact_fields_count(value, item)
}

/// How often an item occurs in a list of these.
pub open spec fn contact_list_count(name: Seq<char>, list: Seq<ContactView>, item: Item) -> nat
    decreases list.len(),
{
    if list.len() == 0 {
        0
    } else {
        contact_list_count(name, list.drop_last(), item) + contact_count(name, list.last(), item)
    }
}

proof fn lemma_contact_list_push(
    name: Seq<char>,
    list: Seq<ContactView>,
    value: ContactView,
    item: Item,
)
    ensures
        contact_list_count(name, list.push(value), item) == contact_list_count(name, list, item)
            + contact_count(name, value, item),
{
    assert(list.push(value).drop_last() =~= list);
}

/// The fields and extensions of a contact hold the children of its element.
proof fn lemma_contact_children(element: ElementView, item: Item)
    requires
        significant(item),
    ensures
        count(order::nodes_items(element.children), item) == contact_fields_count(
            convert::contact_of(element),
            item,
        ),
    decreases element.children.len(),
{
    let children = element.children;
    if children.len() > 0 {
        let shorter = ElementView { children: children.drop_last(), ..element };
        let before = convert::contact_of(shorter);
        let child = children.last();
        lemma_contact_children(shorter, item);
        lemma_children_count(children, item);
        lemma_extension_count(before.extensions, child, item);
        convert::lemma_contact_names();
        match child {
            NodeView::Element(inner) => {
                if inner.name == "name"@ {
                    law_name_accounts(inner, item);
                    convert::lemma_each_push(
                        convert::named(children.drop_last(), "name"@),
                        inner,
                        |e: ElementView| convert::name_of(e),
                    );
                    lemma_name_list_push("name"@, before.names, convert::name_of(inner), item);
                } else if inner.name == "email"@ {
                    law_text_accounts(inner, item);
                    convert::lemma_each_push(
                        convert::named(children.drop_last(), "email"@),
                        inner,
                        |e: ElementView| convert::text_of(e),
                    );
                    lemma_text_list_push("email"@, before.emails, convert::text_of(inner), item);
                } else if inner.name == "phone"@ {
                    law_text_accounts(inner, item);
                    convert::lemma_each_push(
                        convert::named(children.drop_last(), "phone"@),
                        inner,
                        |e: ElementView| convert::text_of(e),
                    );
                    lemma_text_list_push("phone"@, before.phones, convert::text_of(inner), item);
                } else if inner.name == "address"@ {
                    law_address_accounts(inner, item);
                    convert::lemma_each_push(
                        convert::named(children.drop_last(), "address"@),
                        inner,
                        |e: ElementView| convert::address_of(e),
                    );
                    lemma_address_list_push(
                        "address"@,
                        before.addresses,
                        convert::address_of(inner),
                        item,
                    );
                }
            },
            NodeView::Text(value) => {
                if tree::blank(value) {
                    lemma_blank_count(child, item);
                }
            },
            _ => {},
        }
    }
}

/// A contact holds what its element consists of, item by item.
pub proof fn law_contact_accounts(element: ElementView, item: Item)
    requires
        significant(item),
    ensures
        count(order::element_items(element), item) == contact_count(
            element.name,
            convert::contact_of(element),
            item,
        ),
{
    lemma_element_count(element, item);
    lemma_contact_children(element, item);
}

/// How often an item occurs in the fields and extensions of a customer.
pub open spec fn customer_fields_count(value: CustomerView, item: Item) -> nat {
    id_list_count("id"@, value.ids, item)
        + contact_list_count("contact"@, value.contacts, item)
        + timeframe_slot_count("timeframe"@, value.timeframe, item)
        + text_slot_count("comments"@, value.comments, item)
        + count(order::nodes_items(value.extensions), item)
}

/// How often an item occurs in a customer that stands for an element of a name.
pub open spec fn customer_count(name: Seq<char>, value: CustomerView, item: Item) -> nat {
    tags_count(name, value.attributes, item) + customer_fields_count(value, item)
}

/// How often an item occurs in one of these, if there is one.
pub open spec fn customer_slot_count(
    name: Seq<char>,
    slot: Option<CustomerView>,
    item: Item,
) -> nat {
    match slot {
        Some(value) => customer_count(name, value, item),
        None => 0,
    }
}

/// The fields and extensions of a customer hold the children of its element.
proof fn lemma_customer_children(element: ElementView, item: Item)
    requires
        significant(item),
    ensures
        count(order::nodes_items(element.children), item) == customer_fields_count(
            convert::customer_of(element),
            item,
        ),
    decreases element.children.len(),
{
    let children = element.children;
    if children.len() > 0 {
        let shorter = ElementView { children: children.drop_last(), ..element };
        let before = convert::customer_of(shorter);
        let child = children.last();
        lemma_customer_children(shorter, item);
        lemma_children_count(children, item);
        lemma_extension_count(before.extensions, child, item);
        convert::lemma_customer_names();
        match child {
            NodeView::Element(inner) => {
                if inner.name == "id"@ {
                    law_id_accounts(inner, item);
                    convert::lemma_each_push(
                        convert::named(children.drop_last(), "id"@),
                        inner,
                        |e: ElementView| convert::id_of(e),
                    );
                    lemma_id_list_push("id"@, before.ids, convert::id_of(inner), item);
                } else if inner.name == "contact"@ {
                    law_contact_accounts(inner, item);
                    convert::lemma_each_push(
                        convert::named(children.drop_last(), "contact"@),
                        inner,
                        |e: ElementView| convert::contact_of(e),
                    );
                    lemma_contact_list_push(
                        "contact"@,
                        before.contacts,
                        convert::contact_of(inner),
                        item,
                    );
                } else if inner.name == "timeframe"@ {
                    law_timeframe_accounts(inner, item);
                } else if inner.name == "comments"@ {
                    law_text_accounts(inner, item);
                }
            },
            NodeView::Text(value) => {
                if tree::blank(value) {
                    lemma_blank_count(child, item);
                }
            },
            _ => {},
        }
    }
}

/// A customer holds what its element consists of, item by item.
pub proof fn law_customer_accounts(element: ElementView, item: Item)
    requires
        significant(item),
    ensures
        count(order::element_items(element), item) == customer_count(
            element.name,
            convert::customer_of(element),
            item,
        ),
{
    lemma_element_count(element, item);
    lemma_customer_children(element, item);
}

/// How often an item occurs in the fields and extensions of a vendor.
pub open spec fn vendor_fields_count(value: VendorView, item: Item) -> nat {
    id_list_count("id"@, value.ids, item)
        + text_slot_count("vendorname"@, value.vendor_name, item)
        + text_slot_count("url"@, value.url, item)
        + contact_list_count("contact"@, value.contacts, item)
        + count(order::nodes_items(value.extensions), item)
}

/// How often an item occurs in a vendor that stands for an element of a name.
pub open spec fn vendor_count(name: Seq<char>, value: VendorView, item: Item) -> nat {
    tags_count(name, value.attributes, item) + vendor_fields_count(value, item)
}

/// How often an item occurs in one of these, if there is one.
pub open spec fn vendor_slot_count(name: Seq<char>, slot: Option<VendorView>, item: Item) -> nat {
    match slot {
        Some(value) => vendor_count(name, value, item),
        None => 0,
    }
}

/// The fields and extensions of a vendor hold the children of its element.
proof fn lemma_vendor_children(element: ElementView, item: Item)
    requires
        significant(item),
    ensures
        count(order::nodes_items(element.children), item) == vendor_fields_count(
            convert::vendor_of(element),
            item,
        ),
    decreases element.children.len(),
{
    let children = element.children;
    if children.len() > 0 {
        let shorter = ElementView { children: children.drop_last(), ..element };
        let before = convert::vendor_of(shorter);
        let child = children.last();
        lemma_vendor_children(shorter, item);
        lemma_children_count(children, item);
        lemma_extension_count(before.extensions, child, item);
        convert::lemma_vendor_names();
        match child {
            NodeView::Element(inner) => {
                if inner.name == "id"@ {
                    law_id_accounts(inner, item);
                    convert::lemma_each_push(
                        convert::named(children.drop_last(), "id"@),
                        inner,
                        |e: ElementView| convert::id_of(e),
                    );
                    lemma_id_list_push("id"@, before.ids, convert::id_of(inner), item);
                } else if inner.name == "vendorname"@ {
                    law_text_accounts(inner, item);
                } else if inner.name == "url"@ {
                    law_text_accounts(inner, item);
                } else if inner.name == "contact"@ {
                    law_contact_accounts(inner, item);
                    convert::lemma_each_push(
                        convert::named(children.drop_last(), "contact"@),
                        inner,
                        |e: ElementView| convert::contact_of(e),
                    );
                    lemma_contact_list_push(
                        "contact"@,
                        before.contacts,
                        convert::contact_of(inner),
                        item,
                    );
                }
            },
            NodeView::Text(value) => {
                if tree::blank(value) {
                    lemma_blank_count(child, item);
                }
            },
            _ => {},
        }
    }
}

/// A vendor holds what its element consists of, item by item.
pub proof fn law_vendor_accounts(element: ElementView, item: Item)
    requires
        significant(item),
    ensures
        count(order::element_items(element), item) == vendor_count(
            element.name,
            convert::vendor_of(element),
            item,
        ),
{
    lemma_element_count(element, item);
    lemma_vendor_children(element, item);
}

/// How often an item occurs in the fields and extensions of a provider.
pub open spec fn provider_fields_count(value: ProviderView, item: Item) -> nat {
    id_list_count("id"@, value.ids, item)
        + name_slot_count("name"@, value.name, item)
        + text_slot_count("service"@, value.service, item)
        + text_slot_count("url"@, value.url, item)
        + text_slot_count("email"@, value.email, item)
        + text_slot_count("phone"@, value.phone, item)
        + contact_list_count("contact"@, value.contacts, item)
        + count(order::nodes_items(value.extensions), item)
}

/// How often an item occurs in a provider that stands for an element of a name.
pub open spec fn provider_count(name: Seq<char>, value: ProviderView, item: Item) -> nat {
    tags_count(name, value.attributes, item) + provider_fields_count(value, item)
}

/// How often an item occurs in one of these, if there is one.
pub open spec fn provider_slot_count(
    name: Seq<char>,
    slot: Option<ProviderView>,
    item: Item,
) -> nat {
    match slot {
        Some(value) => provider_count(name, value, item),
        None => 0,
    }
}

/// The fields and extensions of a provider hold the children of its element.
proof fn lemma_provider_children(element: ElementView, item: Item)
    requires
        significant(item),
    ensures
        count(order::nodes_items(element.children), item) == provider_fields_count(
            convert::provider_of(element),
            item,
        ),
    decreases element.children.len(),
{
    let children = element.children;
    if children.len() > 0 {
        let shorter = ElementView { children: children.drop_last(), ..element };
        let before = convert::provider_of(shorter);
        let child = children.last();
        lemma_provider_children(shorter, item);
        lemma_children_count(children, item);
        lemma_extension_count(before.extensions, child, item);
        convert::lemma_provider_names();
        match child {
            NodeView::Element(inner) => {
                if inner.name == "id"@ {
                    law_id_accounts(inner, item);
                    convert::lemma_each_push(
                        convert::named(children.drop_last(), "id"@),
                        inner,
                        |e: ElementView| convert::id_of(e),
                    );
                    lemma_id_list_push("id"@, before.ids, convert::id_of(inner), item);
                } else if inner.name == "name"@ {
                    law_name_accounts(inner, item);
                } else if inner.name == "service"@ {
                    law_text_accounts(inner, item);
                } else if inner.name == "url"@ {
                    law_text_accounts(inner, item);
                } else if inner.name == "email"@ {
                    law_text_accounts(inner, item);
                } else if inner.name == "phone"@ {
                    law_text_accounts(inner, item);
                } else if inner.name == "contact"@ {
                    law_contact_accounts(inner, item);
                    convert::lemma_each_push(
                        convert::named(children.drop_last(), "contact"@),
                        inner,
                        |e: ElementView| convert::contact_of(e),
                    );
                    lemma_contact_list_push(
                        "contact"@,
                        before.contacts,
                        convert::contact_of(inner),
                        item,
                    );
                }
            },
            NodeView::Text(value) => {
                if tree::blank(value) {
                    lemma_blank_count(child, item);
                }
            },
            _ => {},
        }
    }
}

/// A provider holds what its element consists of, item by item.
pub proof fn law_provider_accounts(element: ElementView, item: Item)
    requires
        significant(item),
    ensures
        count(order::element_items(element), item) == provider_count(
            element.name,
            convert::provider_of(element),
            item,
        ),
{
    lemma_element_count(element, item);
    lemma_provider_children(element, item);
}

/// How often an item occurs in the fields and extensions of a prospect.
pub open spec fn prospect_fields_count(value: ProspectView, item: Item) -> nat {
    id_list_count("id"@, value.ids, item)
        + text_slot_count("requestdate"@, value.request_date, item)
        + vehicle_list_count("vehicle"@, value.vehicles, item)
        + customer_slot_count("customer"@, value.customer, item)
        + vendor_slot_count("vendor"@, value.vendor, item)
        + provider_slot_count("provider"@, value.provider, item)
        + count(order::nodes_items(value.extensions), item)
}

/// How often an item occurs in a prospect that stands for an element of a name.
pub open spec fn prospect_count(name: Seq<char>, value: ProspectView, item: Item) -> nat {
    tags_count(name, value.attributes, item) + prospect_fields_count(value, item)
}

/// How often an item occurs in a list of these.
pub open spec fn prospect_list_count(name: Seq<char>, list: Seq<ProspectView>, item: Item) -> nat
    decreases list.len(),
{
    if list.len() == 0 {
        0
    } else {
        prospect_list_count(name, list.drop_last(), item) + prospect_count(name, list.last(), item)
    }
}

proof fn lemma_prospect_list_push(
    name: Seq<char>,
    list: Seq<ProspectView>,
    value: ProspectView,
    item: Item,
)
    ensures
        prospect_list_count(name, list.push(value), item) == prospect_list_count(name, list, item)
            + prospect_count(name, value, item),
{
    assert(list.push(value).drop_last() =~= list);
}

/// The fields and extensions of a prospect hold the children of its element.
proof fn lemma_prospect_children(element: ElementView, item: Item)
    requires
        significant(item),
    ensures
        count(order::nodes_items(element.children), item) == prospect_fields_count(
            convert::prospect_of(element),
            item,
        ),
    decreases element.children.len(),
{
    let children = element.children;
    if children.len() > 0 {
        let shorter = ElementView { children: children.drop_last(), ..element };
        let before = convert::prospect_of(shorter);
        let child = children.last();
        lemma_prospect_children(shorter, item);
        lemma_children_count(children, item);
        lemma_extension_count(before.extensions, child, item);
        convert::lemma_prospect_names();
        match child {
            NodeView::Element(inner) => {
                if inner.name == "id"@ {
                    law_id_accounts(inner, item);
                    convert::lemma_each_push(
                        convert::named(children.drop_last(), "id"@),
                        inner,
                        |e: ElementView| convert::id_of(e),
                    );
                    lemma_id_list_push("id"@, before.ids, convert::id_of(inner), item);
                } else if inner.name == "requestdate"@ {
                    law_text_accounts(inner, item);
                } else if inner.name == "vehicle"@ {
                    law_vehicle_accounts(inner, item);
                    convert::lemma_each_push(
                        convert::named(children.drop_last(), "vehicle"@),
                        inner,
                        |e: ElementView| convert::vehicle_of(e),
                    );
                    lemma_vehicle_list_push(
                        "vehicle"@,
                        before.vehicles,
                        convert::vehicle_of(inner),
                        item,
                    );
                } else if inner.name == "customer"@ {
                    law_customer_accounts(inner, item);
                } else if inner.name == "vendor"@ {
                    law_vendor_accounts(inner, item);
                } else if inner.name == "provider"@ {
                    law_provider_accounts(inner, item);
                }
            },
            NodeView::Text(value) => {
                if tree::blank(value) {
                    lemma_blank_count(child, item);
                }
            },
            _ => {},
        }
    }
}

/// A prospect holds what its element consists of, item by item.
pub proof fn law_prospect_accounts(element: ElementView, item: Item)
    requires
        significant(item),
    ensures
        count(order::element_items(element), item) == prospect_count(
            element.name,
            convert::prospect_of(element),
            item,
        ),
{
    lemma_element_count(element, item);
    lemma_prospect_children(element, item);
}

/// How often an item occurs in the fields and extensions of a document.
pub open spec fn adf_fields_count(value: AdfView, item: Item) -> nat {
    prospect_list_count("prospect"@, value.prospects, item)
        + count(order::nodes_items(value.extensions), item)
}

/// How often an item occurs in a document that stands for an element of a name.
pub open spec fn adf_count(name: Seq<char>, value: AdfView, item: Item) -> nat {
    tags_count(name, value.attributes, item) + adf_fields_count(value, item)
}

/// The fields and extensions of a document hold the children of its element.
proof fn lemma_adf_children(element: ElementView, item: Item)
    requires
        significant(item),
    ensures
        count(order::nodes_items(element.children), item) == adf_fields_count(
            convert::adf_of(element),
            item,
        ),
    decreases element.children.len(),
{
    let children = element.children;
    if children.len() > 0 {
        let shorter = ElementView { children: children.drop_last(), ..element };
        let before = convert::adf_of(shorter);
        let child = children.last();
        lemma_adf_children(shorter, item);
        lemma_children_count(children, item);
        lemma_extension_count(before.extensions, child, item);
        convert::lemma_adf_names();
        match child {
            NodeView::Element(inner) => {
                if inner.name == "prospect"@ {
                    law_prospect_accounts(inner, item);
                    convert::lemma_each_push(
                        convert::named(children.drop_last(), "prospect"@),
                        inner,
                        |e: ElementView| convert::prospect_of(e),
                    );
                    lemma_prospect_list_push(
                        "prospect"@,
                        before.prospects,
                        convert::prospect_of(inner),
                        item,
                    );
                }
            },
            NodeView::Text(value) => {
                if tree::blank(value) {
                    lemma_blank_count(child, item);
                }
            },
            _ => {},
        }
    }
}

/// A document holds what its element consists of, item by item.
pub proof fn law_adf_accounts(element: ElementView, item: Item)
    requires
        significant(item),
    ensures
        count(order::element_items(element), item) == adf_count(
            element.name,
            convert::adf_of(element),
            item,
        ),
{
    lemma_element_count(element, item);
    lemma_adf_children(element, item);
}

/// A text element holds what its element consists of, item by item.
pub proof fn law_text_accounts(element: ElementView, item: Item)
    ensures
        count(order::element_items(element), item) == text_count(
            element.name,
            convert::text_of(element),
            item,
        ),
{
    kept::law_texts_keep_elements(element);
}

/// An identifier holds what its element consists of, item by item.
pub proof fn law_id_accounts(element: ElementView, item: Item)
    ensures
        count(order::element_items(element), item) == id_count(
            element.name,
            convert::id_of(element),
            item,
        ),
{
    kept::law_texts_keep_elements(element);
}

/// A price holds what its element consists of, item by item.
pub proof fn law_price_accounts(element: ElementView, item: Item)
    ensures
        count(order::element_items(element), item) == price_count(
            element.name,
            convert::price_of(element),
            item,
        ),
{
    kept::law_texts_keep_elements(element);
}

/// A name holds what its element consists of, item by item.
pub proof fn law_name_accounts(element: ElementView, item: Item)
    ensures
        count(order::element_items(element), item) == name_count(
            element.name,
            convert::name_of(element),
            item,
        ),
{
    kept::law_texts_keep_elements(element);
}

/// A parsed document holds what the reads of its text stand for: each item, white space
/// aside, occurs in the prolog, the typed model and the epilog as often as in the text.
pub proof fn law_document_accounts(input: Seq<char>, options: ParseOptions, item: Item)
    requires
        significant(item),
    ensures
        parse::parsed_document(input, options) matches Ok(document) ==> count(
            order::steps_items(reader::document_steps(input, false, true), options),
            item,
        ) == count(order::nodes_items(document.prolog), item) + adf_count(
            "adf"@,
            document.adf,
            item,
        ) + count(order::nodes_items(document.epilog), item),
{
    if let Ok(document) = parse::parsed_document(input, options) {
        let parsed = builder::document_tree(input, options)->Ok_0;
        order::law_tree_keeps_document(input, options);
        let prolog = order::nodes_items(parsed.prolog);
        let root = order::element_items(parsed.root);
        lemma_count_concat(prolog + root, order::nodes_items(parsed.epilog), item);
        lemma_count_concat(prolog, root, item);
        law_adf_accounts(parsed.root, item);
    }
}

} // verus!
