//! Nothing of an element is lost where it is read into the typed model: every child is
//! taken into a field or kept as an extension, white space apart, and every attribute is
//! kept.

use crate::document::{AttributeView, ElementView, NodeView, Span};
use crate::model::{
    AddressView, AdfView, ColorCombinationView, ContactView, CustomerView, FinanceView,
    ProspectView, ProviderView, TextPartView, TimeframeView, VehicleOptionView, VehicleView,
    VendorView,
};
use crate::{convert, tree};
use vstd::prelude::*;

verus! {

/// An element among the children is found again among those of its name, behind as many
/// as stand before it.
proof fn lemma_named_at(children: Seq<NodeView>, i: int)
    requires
        0 <= i < children.len(),
        children[i] is Element,
    ensures
        ({
            let element = children[i]->Element_0;
            let before = convert::named(children.take(i), element.name).len();
            let all = convert::named(children, element.name);
            before < all.len() && all[before as int] == element
        }),
    decreases children.len(),
{
    let element = children[i]->Element_0;
    if i == children.len() - 1 {
        assert(children.take(i) =~= children.drop_last());
    } else {
        assert(children.drop_last().take(i) =~= children.take(i));
        lemma_named_at(children.drop_last(), i);
    }
}

/// A child that goes to the extensions is found again there, behind as many as come
/// from the children before it.
proof fn lemma_extension_at(
    children: Seq<NodeView>,
    singular: spec_fn(Seq<char>) -> bool,
    repeated: spec_fn(Seq<char>) -> bool,
    i: int,
)
    requires
        0 <= i < children.len(),
        convert::is_extension(children.take(i), children[i], singular, repeated),
    ensures
        ({
            let before = convert::extensions_of(children.take(i), singular, repeated).len();
            let all = convert::extensions_of(children, singular, repeated);
            before < all.len() && all[before as int] == children[i]
        }),
    decreases children.len(),
{
    if i == children.len() - 1 {
        assert(children.take(i) =~= children.drop_last());
    } else {
        assert(children.drop_last().take(i) =~= children.take(i));
        lemma_extension_at(children.drop_last(), singular, repeated, i);
    }
}

/// Where a child goes: white space aside, it is an extension, one of the elements that
/// may be repeated, or the first of those that may occur once.
proof fn lemma_child(
    children: Seq<NodeView>,
    singular: spec_fn(Seq<char>) -> bool,
    repeated: spec_fn(Seq<char>) -> bool,
    i: int,
)
    requires
        0 <= i < children.len(),
    ensures
        ({
            ||| convert::extensions_of(children, singular, repeated).contains(children[i])
            ||| children[i] matches NodeView::Text(value) && tree::blank(value)
            ||| children[i] matches NodeView::Element(element) && repeated(element.name)
                && convert::named(children, element.name).contains(element)
            ||| children[i] matches NodeView::Element(element) && singular(element.name)
                && convert::named(children, element.name).len() > 0 && convert::named(
                children,
                element.name,
            )[0] == element
        }),
{
    if convert::is_extension(children.take(i), children[i], singular, repeated) {
        lemma_extension_at(children, singular, repeated, i);
    } else if children[i] is Element {
        lemma_named_at(children, i);
    }
}

/// What each of a list of elements is converted to is among the results.
proof fn lemma_each_contains<T>(
    elements: Seq<ElementView>,
    element: ElementView,
    of: spec_fn(ElementView) -> T,
)
    requires
        elements.contains(element),
    ensures
        convert::each(elements, of).contains(of(element)),
{
    let i = elements.index_of(element);
    assert(convert::each(elements, of)[i] == of(element));
}

/// A child is kept: in a field, where `held` says so of an element, or else among the
/// extensions, where only white space may be missing.
pub open spec fn kept(child: NodeView, extensions: Seq<NodeView>, held: bool) -> bool {
    match child {
        NodeView::Element(_) => held || extensions.contains(child),
        NodeView::Text(value) => tree::blank(value) || extensions.contains(child),
        _ => extensions.contains(child),
    }
}

/// The child that a part of a text stands for.
pub open spec fn part_node(part: TextPartView) -> NodeView {
    match part {
        TextPartView::Text(value) => NodeView::Text(value),
        TextPartView::CData(value) => NodeView::CData(value),
        TextPartView::EntityRef(name) => NodeView::EntityRef(name),
        TextPartView::Node(node) => node,
    }
}

/// The element that has a name, and the parts of a text as its children.
pub open spec fn rebuilt(
    name: Seq<char>,
    parts: Seq<TextPartView>,
    attributes: Seq<AttributeView>,
    span: Span,
) -> ElementView {
    ElementView {
        name,
        attributes,
        children: parts.map_values(|part: TextPartView| part_node(part)),
        span,
    }
}

/// Texts, identifiers, prices and names keep all of their elements but the name.
pub proof fn law_texts_keep_elements(element: ElementView)
    ensures
        ({
            let kept = convert::text_of(element);
            rebuilt(element.name, kept.parts, kept.attributes, kept.span) == element
        }),
        ({
            let kept = convert::id_of(element);
            rebuilt(element.name, kept.parts, kept.attributes, kept.span) == element
        }),
        ({
            let kept = convert::price_of(element);
            rebuilt(element.name, kept.parts, kept.attributes, kept.span) == element
        }),
        ({
            let kept = convert::name_of(element);
            rebuilt(element.name, kept.parts, kept.attributes, kept.span) == element
        }),
{
    assert(convert::parts_of(element.children).map_values(|part: TextPartView| part_node(part))
        =~= element.children);
}

/// A color combination holds an element in the field for its name.
pub open spec fn color_combination_holds(colors: ColorCombinationView, child: ElementView) -> bool {
    ||| child.name == "interiorcolor"@ && colors.interior_color == Some(convert::text_of(child))
    ||| child.name == "exteriorcolor"@ && colors.exterior_color == Some(convert::text_of(child))
    ||| child.name == "preference"@ && colors.preference == Some(convert::text_of(child))
}

/// A color combination keeps the children, the attributes and the span of its element.
pub proof fn law_color_combination_keeps_element(element: ElementView, i: int)
    requires
        0 <= i < element.children.len(),
    ensures
        kept(
            element.children[i],
            convert::color_combination_of(element).extensions,
            element.children[i] matches NodeView::Element(child) && color_combination_holds(
                convert::color_combination_of(element),
                child,
            ),
        ),
        convert::color_combination_of(element).attributes == element.attributes,
        convert::color_combination_of(element).span == element.span,
{
    let children = element.children;
    lemma_child(
        children,
        |name: Seq<char>| convert::color_combination_singular(name),
        |name: Seq<char>| convert::color_combination_repeated(name),
        i,
    );
    if let NodeView::Element(child) = children[i] {
        let found = convert::named(children, child.name);
        if found.contains(child) {
        }
    }
}

/// A vehicle option holds an element in the field for its name.
pub open spec fn option_holds(option: VehicleOptionView, child: ElementView) -> bool {
    ||| child.name == "optionname"@ && option.option_name == Some(convert::text_of(child))
    ||| child.name
        == "manufacturercode"@ && option.manufacturer_code == Some(convert::text_of(child))
    ||| child.name == "stock"@ && option.stock == Some(convert::text_of(child))
    ||| child.name == "weighting"@ && option.weighting == Some(convert::text_of(child))
    ||| child.name == "price"@ && option.prices.contains(convert::price_of(child))
}

/// A vehicle option keeps the children, the attributes and the span of its element.
pub proof fn law_option_keeps_element(element: ElementView, i: int)
    requires
        0 <= i < element.children.len(),
    ensures
        kept(
            element.children[i],
            convert::option_of(element).extensions,
            element.children[i] matches NodeView::Element(child) && option_holds(
                convert::option_of(element),
                child,
            ),
        ),
        convert::option_of(element).attributes == element.attributes,
        convert::option_of(element).span == element.span,
{
    let children = element.children;
    lemma_child(
        children,
        |name: Seq<char>| convert::option_singular(name),
        |name: Seq<char>| convert::option_repeated(name),
        i,
    );
    if let NodeView::Element(child) = children[i] {
        let found = convert::named(children, child.name);
        if found.contains(child) {
            lemma_each_contains(found, child, |e: ElementView| convert::price_of(e));
        }
    }
}

/// A finance holds an element in the field for its name.
pub open spec fn finance_holds(finance: FinanceView, child: ElementView) -> bool {
    ||| child.name == "method"@ && finance.method == Some(convert::text_of(child))
    ||| child.name == "amount"@ && finance.amounts.contains(convert::text_of(child))
    ||| child.name == "balance"@ && finance.balances.contains(convert::text_of(child))
}

/// A finance keeps the children, the attributes and the span of its element.
pub proof fn law_finance_keeps_element(element: ElementView, i: int)
    requires
        0 <= i < element.children.len(),
    ensures
        kept(
            element.children[i],
            convert::finance_of(element).extensions,
            element.children[i] matches NodeView::Element(child) && finance_holds(
                convert::finance_of(element),
                child,
            ),
        ),
        convert::finance_of(element).attributes == element.attributes,
        convert::finance_of(element).span == element.span,
{
    let children = element.children;
    lemma_child(
        children,
        |name: Seq<char>| convert::finance_singular(name),
        |name: Seq<char>| convert::finance_repeated(name),
        i,
    );
    if let NodeView::Element(child) = children[i] {
        let found = convert::named(children, child.name);
        if found.contains(child) {
            lemma_each_contains(found, child, |e: ElementView| convert::text_of(e));
        }
    }
}

/// A vehicle holds an element in the field for its name.
pub open spec fn vehicle_holds(vehicle: VehicleView, child: ElementView) -> bool {
    ||| child.name == "id"@ && vehicle.ids.contains(convert::id_of(child))
    ||| child.name == "year"@ && vehicle.year == Some(convert::text_of(child))
    ||| child.name == "make"@ && vehicle.make == Some(convert::text_of(child))
    ||| child.name == "model"@ && vehicle.model == Some(convert::text_of(child))
    ||| child.name == "vin"@ && vehicle.vin == Some(convert::text_of(child))
    ||| child.name == "stock"@ && vehicle.stock == Some(convert::text_of(child))
    ||| child.name == "trim"@ && vehicle.trim == Some(convert::text_of(child))
    ||| child.name == "doors"@ && vehicle.doors == Some(convert::text_of(child))
    ||| child.name == "bodystyle"@ && vehicle.body_style == Some(convert::text_of(child))
    ||| child.name == "transmission"@ && vehicle.transmission == Some(convert::text_of(child))
    ||| child.name == "odometer"@ && vehicle.odometer == Some(convert::text_of(child))
    ||| child.name == "condition"@ && vehicle.condition == Some(convert::text_of(child))
    ||| child.name
        == "colorcombination"@ && vehicle.color_combinations.contains(
            convert::color_combination_of(child),
        )
    ||| child.name == "imagetag"@ && vehicle.image_tags.contains(convert::text_of(child))
    ||| child.name == "price"@ && vehicle.prices.contains(convert::price_of(child))
    ||| child.name == "pricecomments"@ && vehicle.price_comments == Some(convert::text_of(child))
    ||| child.name == "option"@ && vehicle.options.contains(convert::option_of(child))
    ||| child.name == "finance"@ && vehicle.finance == Some(convert::finance_of(child))
    ||| child.name == "comments"@ && vehicle.comments == Some(convert::text_of(child))
}

/// A vehicle keeps the children, the attributes and the span of its element.
pub proof fn law_vehicle_keeps_element(element: ElementView, i: int)
    requires
        0 <= i < element.children.len(),
    ensures
        kept(
            element.children[i],
            convert::vehicle_of(element).extensions,
            element.children[i] matches NodeView::Element(child) && vehicle_holds(
                convert::vehicle_of(element),
                child,
            ),
        ),
        convert::vehicle_of(element).attributes == element.attributes,
        convert::vehicle_of(element).span == element.span,
{
    let children = element.children;
    lemma_child(
        children,
        |name: Seq<char>| convert::vehicle_singular(name),
        |name: Seq<char>| convert::vehicle_repeated(name),
        i,
    );
    if let NodeView::Element(child) = children[i] {
        let found = convert::named(children, child.name);
        if found.contains(child) {
            lemma_each_contains(found, child, |e: ElementView| convert::color_combination_of(e));
            lemma_each_contains(found, child, |e: ElementView| convert::id_of(e));
            lemma_each_contains(found, child, |e: ElementView| convert::price_of(e));
            lemma_each_contains(found, child, |e: ElementView| convert::text_of(e));
            lemma_each_contains(found, child, |e: ElementView| convert::option_of(e));
        }
    }
}

/// A timeframe holds an element in the field for its name.
pub open spec fn timeframe_holds(timeframe: TimeframeView, child: ElementView) -> bool {
    ||| child.name == "description"@ && timeframe.description == Some(convert::text_of(child))
    ||| child.name == "earliestdate"@ && timeframe.earliest_date == Some(convert::text_of(child))
    ||| child.name == "latestdate"@ && timeframe.latest_date == Some(convert::text_of(child))
}

/// A timeframe keeps the children, the attributes and the span of its element.
pub proof fn law_timeframe_keeps_element(element: ElementView, i: int)
    requires
        0 <= i < element.children.len(),
    ensures
        kept(
            element.children[i],
            convert::timeframe_of(element).extensions,
            element.children[i] matches NodeView::Element(child) && timeframe_holds(
                convert::timeframe_of(element),
                child,
            ),
        ),
        convert::timeframe_of(element).attributes == element.attributes,
        convert::timeframe_of(element).span == element.span,
{
    let children = element.children;
    lemma_child(
        children,
        |name: Seq<char>| convert::timeframe_singular(name),
        |name: Seq<char>| convert::timeframe_repeated(name),
        i,
    );
    if let NodeView::Element(child) = children[i] {
        let found = convert::named(children, child.name);
        if found.contains(child) {
        }
    }
}

/// An address holds an element in the field for its name.
pub open spec fn address_holds(address: AddressView, child: ElementView) -> bool {
    ||| child.name == "street"@ && address.streets.contains(convert::text_of(child))
    ||| child.name == "apartment"@ && address.apartment == Some(convert::text_of(child))
    ||| child.name == "city"@ && address.city == Some(convert::text_of(child))
    ||| child.name == "regioncode"@ && address.region_code == Some(convert::text_of(child))
    ||| child.name == "postalcode"@ && address.postal_code == Some(convert::text_of(child))
    ||| child.name == "country"@ && address.country == Some(convert::text_of(child))
}

/// An address keeps the children, the attributes and the span of its element.
pub proof fn law_address_keeps_element(element: ElementView, i: int)
    requires
        0 <= i < element.children.len(),
    ensures
        kept(
            element.children[i],
            convert::address_of(element).extensions,
            element.children[i] matches NodeView::Element(child) && address_holds(
                convert::address_of(element),
                child,
            ),
        ),
        convert::address_of(element).attributes == element.attributes,
        convert::address_of(element).span == element.span,
{
    let children = element.children;
    lemma_child(
        children,
        |name: Seq<char>| convert::address_singular(name),
        |name: Seq<char>| convert::address_repeated(name),
        i,
    );
    if let NodeView::Element(child) = children[i] {
        let found = convert::named(children, child.name);
        if found.contains(child) {
            lemma_each_contains(found, child, |e: ElementView| convert::text_of(e));
        }
    }
}

/// A contact holds an element in the field for its name.
pub open spec fn contact_holds(contact: ContactView, child: ElementView) -> bool {
    ||| child.name == "name"@ && contact.names.contains(convert::name_of(child))
    ||| child.name == "email"@ && contact.emails.contains(convert::text_of(child))
    ||| child.name == "phone"@ && contact.phones.contains(convert::text_of(child))
    ||| child.name == "address"@ && contact.addresses.contains(convert::address_of(child))
}

/// A contact keeps the children, the attributes and the span of its element.
pub proof fn law_contact_keeps_element(element: ElementView, i: int)
    requires
        0 <= i < element.children.len(),
    ensures
        kept(
            element.children[i],
            convert::contact_of(element).extensions,
            element.children[i] matches NodeView::Element(child) && contact_holds(
                convert::contact_of(element),
                child,
            ),
        ),
        convert::contact_of(element).attributes == element.attributes,
        convert::contact_of(element).span == element.span,
{
    let children = element.children;
    lemma_child(
        children,
        |name: Seq<char>| convert::contact_singular(name),
        |name: Seq<char>| convert::contact_repeated(name),
        i,
    );
    if let NodeView::Element(child) = children[i] {
        let found = convert::named(children, child.name);
        if found.contains(child) {
            lemma_each_contains(found, child, |e: ElementView| convert::address_of(e));
            lemma_each_contains(found, child, |e: ElementView| convert::name_of(e));
            lemma_each_contains(found, child, |e: ElementView| convert::text_of(e));
        }
    }
}

/// A customer holds an element in the field for its name.
pub open spec fn customer_holds(customer: CustomerView, child: ElementView) -> bool {
    ||| child.name == "id"@ && customer.ids.contains(convert::id_of(child))
    ||| child.name == "contact"@ && customer.contacts.contains(convert::contact_of(child))
    ||| child.name == "timeframe"@ && customer.timeframe == Some(convert::timeframe_of(child))
    ||| child.name == "comments"@ && customer.comments == Some(convert::text_of(child))
}

/// A customer keeps the children, the attributes and the span of its element.
pub proof fn law_customer_keeps_element(element: ElementView, i: int)
    requires
        0 <= i < element.children.len(),
    ensures
        kept(
            element.children[i],
            convert::customer_of(element).extensions,
            element.children[i] matches NodeView::Element(child) && customer_holds(
                convert::customer_of(element),
                child,
            ),
        ),
        convert::customer_of(element).attributes == element.attributes,
        convert::customer_of(element).span == element.span,
{
    let children = element.children;
    lemma_child(
        children,
        |name: Seq<char>| convert::customer_singular(name),
        |name: Seq<char>| convert::customer_repeated(name),
        i,
    );
    if let NodeView::Element(child) = children[i] {
        let found = convert::named(children, child.name);
        if found.contains(child) {
            lemma_each_contains(found, child, |e: ElementView| convert::contact_of(e));
            lemma_each_contains(found, child, |e: ElementView| convert::id_of(e));
        }
    }
}

/// A vendor holds an element in the field for its name.
pub open spec fn vendor_holds(vendor: VendorView, child: ElementView) -> bool {
    ||| child.name == "id"@ && vendor.ids.contains(convert::id_of(child))
    ||| child.name == "vendorname"@ && vendor.vendor_name == Some(convert::text_of(child))
    ||| child.name == "url"@ && vendor.url == Some(convert::text_of(child))
    ||| child.name == "contact"@ && vendor.contacts.contains(convert::contact_of(child))
}

/// A vendor keeps the children, the attributes and the span of its element.
pub proof fn law_vendor_keeps_element(element: ElementView, i: int)
    requires
        0 <= i < element.children.len(),
    ensures
        kept(
            element.children[i],
            convert::vendor_of(element).extensions,
            element.children[i] matches NodeView::Element(child) && vendor_holds(
                convert::vendor_of(element),
                child,
            ),
        ),
        convert::vendor_of(element).attributes == element.attributes,
        convert::vendor_of(element).span == element.span,
{
    let children = element.children;
    lemma_child(
        children,
        |name: Seq<char>| convert::vendor_singular(name),
        |name: Seq<char>| convert::vendor_repeated(name),
        i,
    );
    if let NodeView::Element(child) = children[i] {
        let found = convert::named(children, child.name);
        if found.contains(child) {
            lemma_each_contains(found, child, |e: ElementView| convert::contact_of(e));
            lemma_each_contains(found, child, |e: ElementView| convert::id_of(e));
        }
    }
}

/// A provider holds an element in the field for its name.
pub open spec fn provider_holds(provider: ProviderView, child: ElementView) -> bool {
    ||| child.name == "id"@ && provider.ids.contains(convert::id_of(child))
    ||| child.name == "name"@ && provider.name == Some(convert::name_of(child))
    ||| child.name == "service"@ && provider.service == Some(convert::text_of(child))
    ||| child.name == "url"@ && provider.url == Some(convert::text_of(child))
    ||| child.name == "email"@ && provider.email == Some(convert::text_of(child))
    ||| child.name == "phone"@ && provider.phone == Some(convert::text_of(child))
    ||| child.name == "contact"@ && provider.contacts.contains(convert::contact_of(child))
}

/// A provider keeps the children, the attributes and the span of its element.
pub proof fn law_provider_keeps_element(element: ElementView, i: int)
    requires
        0 <= i < element.children.len(),
    ensures
        kept(
            element.children[i],
            convert::provider_of(element).extensions,
            element.children[i] matches NodeView::Element(child) && provider_holds(
                convert::provider_of(element),
                child,
            ),
        ),
        convert::provider_of(element).attributes == element.attributes,
        convert::provider_of(element).span == element.span,
{
    let children = element.children;
    lemma_child(
        children,
        |name: Seq<char>| convert::provider_singular(name),
        |name: Seq<char>| convert::provider_repeated(name),
        i,
    );
    if let NodeView::Element(child) = children[i] {
        let found = convert::named(children, child.name);
        if found.contains(child) {
            lemma_each_contains(found, child, |e: ElementView| convert::contact_of(e));
            lemma_each_contains(found, child, |e: ElementView| convert::id_of(e));
        }
    }
}

/// A prospect holds an element in the field for its name.
pub open spec fn prospect_holds(prospect: ProspectView, child: ElementView) -> bool {
    ||| child.name == "id"@ && prospect.ids.contains(convert::id_of(child))
    ||| child.name == "requestdate"@ && prospect.request_date == Some(convert::text_of(child))
    ||| child.name == "vehicle"@ && prospect.vehicles.contains(convert::vehicle_of(child))
    ||| child.name == "customer"@ && prospect.customer == Some(convert::customer_of(child))
    ||| child.name == "vendor"@ && prospect.vendor == Some(convert::vendor_of(child))
    ||| child.name == "provider"@ && prospect.provider == Some(convert::provider_of(child))
}

/// A prospect keeps the children, the attributes and the span of its element.
pub proof fn law_prospect_keeps_element(element: ElementView, i: int)
    requires
        0 <= i < element.children.len(),
    ensures
        kept(
            element.children[i],
            convert::prospect_of(element).extensions,
            element.children[i] matches NodeView::Element(child) && prospect_holds(
                convert::prospect_of(element),
                child,
            ),
        ),
        convert::prospect_of(element).attributes == element.attributes,
        convert::prospect_of(element).span == element.span,
{
    let children = element.children;
    lemma_child(
        children,
        |name: Seq<char>| convert::prospect_singular(name),
        |name: Seq<char>| convert::prospect_repeated(name),
        i,
    );
    if let NodeView::Element(child) = children[i] {
        let found = convert::named(children, child.name);
        if found.contains(child) {
            lemma_each_contains(found, child, |e: ElementView| convert::id_of(e));
            lemma_each_contains(found, child, |e: ElementView| convert::vehicle_of(e));
        }
    }
}

/// A document holds an element in the field for its name.
pub open spec fn adf_holds(adf: AdfView, child: ElementView) -> bool {
    ||| child.name == "prospect"@ && adf.prospects.contains(convert::prospect_of(child))
}

/// A document keeps the children, the attributes and the span of its element.
pub proof fn law_adf_keeps_element(element: ElementView, i: int)
    requires
        0 <= i < element.children.len(),
    ensures
        kept(
            element.children[i],
            convert::adf_of(element).extensions,
            element.children[i] matches NodeView::Element(child) && adf_holds(
                convert::adf_of(element),
                child,
            ),
        ),
        convert::adf_of(element).attributes == element.attributes,
        convert::adf_of(element).span == element.span,
{
    let children = element.children;
    lemma_child(
        children,
        |name: Seq<char>| convert::adf_singular(name),
        |name: Seq<char>| convert::adf_repeated(name),
        i,
    );
    if let NodeView::Element(child) = children[i] {
        let found = convert::named(children, child.name);
        if found.contains(child) {
            lemma_each_contains(found, child, |e: ElementView| convert::prospect_of(e));
        }
    }
}

} // verus!
