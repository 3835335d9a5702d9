//! The typed model of ADF.

use crate::document::{Attribute, AttributeView, NodeView, Span, XmlNode};
use crate::{document, text};
use std::borrow::Cow;
use vstd::prelude::*;

verus! {

/// One piece of the content of a text element.
#[derive(Debug, PartialEq, Eq)]
pub enum TextPart<'a> {
    Text(Cow<'a, str>),
    CData(Cow<'a, str>),
    EntityRef(Cow<'a, str>),
    Node(XmlNode<'a>),
}

#[verifier::ext_equal]
pub enum TextPartView {
    Text(Seq<char>),
    CData(Seq<char>),
    EntityRef(Seq<char>),
    Node(NodeView),
}

impl<'a> View for TextPart<'a> {
    type V = TextPartView;

    open spec fn view(&self) -> TextPartView {
        match self {
            TextPart::Text(value) => TextPartView::Text(value@),
            TextPart::CData(value) => TextPartView::CData(value@),
            TextPart::EntityRef(name) => TextPartView::EntityRef(name@),
            TextPart::Node(node) => TextPartView::Node(node@),
        }
    }
}

/// The model of a value that may be missing.
pub open spec fn opt<T: View>(value: Option<T>) -> Option<T::V> {
    match value {
        Some(value) => Some(value@),
        None => None,
    }
}

/// The text of an element that has no structure of its own.
#[derive(Debug, PartialEq, Eq)]
pub struct TextElement<'a> {
    pub parts: Vec<TextPart<'a>>,
    pub attributes: Vec<Attribute<'a>>,
    pub span: Span,
}

#[verifier::ext_equal]
pub struct TextElementView {
    pub parts: Seq<TextPartView>,
    pub attributes: Seq<AttributeView>,
    pub span: Span,
}

impl<'a> View for TextElement<'a> {
    type V = TextElementView;

    open spec fn view(&self) -> TextElementView {
        TextElementView {
            parts: document::views(self.parts@),
            attributes: document::views(self.attributes@),
            span: self.span,
        }
    }
}

/// An identifier.
#[derive(Debug, PartialEq, Eq)]
pub struct Id<'a> {
    pub sequence: Option<Cow<'a, str>>,
    pub source: Option<Cow<'a, str>>,
    pub parts: Vec<TextPart<'a>>,
    pub attributes: Vec<Attribute<'a>>,
    pub span: Span,
}

#[verifier::ext_equal]
pub struct IdView {
    pub sequence: Option<Seq<char>>,
    pub source: Option<Seq<char>>,
    pub parts: Seq<TextPartView>,
    pub attributes: Seq<AttributeView>,
    pub span: Span,
}

impl<'a> View for Id<'a> {
    type V = IdView;

    open spec fn view(&self) -> IdView {
        IdView {
            sequence: opt(self.sequence),
            source: opt(self.source),
            parts: document::views(self.parts@),
            attributes: document::views(self.attributes@),
            span: self.span,
        }
    }
}

/// A price.
#[derive(Debug, PartialEq, Eq)]
pub struct Price<'a> {
    pub price_type: Option<Cow<'a, str>>,
    pub currency: Option<Cow<'a, str>>,
    pub delta: Option<Cow<'a, str>>,
    pub relative_to: Option<Cow<'a, str>>,
    pub source: Option<Cow<'a, str>>,
    pub parts: Vec<TextPart<'a>>,
    pub attributes: Vec<Attribute<'a>>,
    pub span: Span,
}

#[verifier::ext_equal]
pub struct PriceView {
    pub price_type: Option<Seq<char>>,
    pub currency: Option<Seq<char>>,
    pub delta: Option<Seq<char>>,
    pub relative_to: Option<Seq<char>>,
    pub source: Option<Seq<char>>,
    pub parts: Seq<TextPartView>,
    pub attributes: Seq<AttributeView>,
    pub span: Span,
}

impl<'a> View for Price<'a> {
    type V = PriceView;

    open spec fn view(&self) -> PriceView {
        PriceView {
            price_type: opt(self.price_type),
            currency: opt(self.currency),
            delta: opt(self.delta),
            relative_to: opt(self.relative_to),
            source: opt(self.source),
            parts: document::views(self.parts@),
            attributes: document::views(self.attributes@),
            span: self.span,
        }
    }
}

/// A name, or a part of one.
#[derive(Debug, PartialEq, Eq)]
pub struct Name<'a> {
    pub part: Option<Cow<'a, str>>,
    pub name_type: Option<Cow<'a, str>>,
    pub parts: Vec<TextPart<'a>>,
    pub attributes: Vec<Attribute<'a>>,
    pub span: Span,
}

#[verifier::ext_equal]
pub struct NameView {
    pub part: Option<Seq<char>>,
    pub name_type: Option<Seq<char>>,
    pub parts: Seq<TextPartView>,
    pub attributes: Seq<AttributeView>,
    pub span: Span,
}

impl<'a> View for Name<'a> {
    type V = NameView;

    open spec fn view(&self) -> NameView {
        NameView {
            part: opt(self.part),
            name_type: opt(self.name_type),
            parts: document::views(self.parts@),
            attributes: document::views(self.attributes@),
            span: self.span,
        }
    }
}

/// The colors of a vehicle.
#[derive(Debug, PartialEq, Eq)]
pub struct ColorCombination<'a> {
    pub interior_color: Option<TextElement<'a>>,
    pub exterior_color: Option<TextElement<'a>>,
    pub preference: Option<TextElement<'a>>,
    pub attributes: Vec<Attribute<'a>>,
    pub extensions: Vec<XmlNode<'a>>,
    pub span: Span,
}

#[verifier::ext_equal]
pub struct ColorCombinationView {
    pub interior_color: Option<TextElementView>,
    pub exterior_color: Option<TextElementView>,
    pub preference: Option<TextElementView>,
    pub attributes: Seq<AttributeView>,
    pub extensions: Seq<NodeView>,
    pub span: Span,
}

impl<'a> View for ColorCombination<'a> {
    type V = ColorCombinationView;

    open spec fn view(&self) -> ColorCombinationView {
        ColorCombinationView {
            interior_color: opt(self.interior_color),
            exterior_color: opt(self.exterior_color),
            preference: opt(self.preference),
            attributes: document::views(self.attributes@),
            extensions: document::views(self.extensions@),
            span: self.span,
        }
    }
}

/// An option of a vehicle.
#[derive(Debug, PartialEq, Eq)]
pub struct VehicleOption<'a> {
    pub option_name: Option<TextElement<'a>>,
    pub manufacturer_code: Option<TextElement<'a>>,
    pub stock: Option<TextElement<'a>>,
    pub weighting: Option<TextElement<'a>>,
    pub prices: Vec<Price<'a>>,
    pub attributes: Vec<Attribute<'a>>,
    pub extensions: Vec<XmlNode<'a>>,
    pub span: Span,
}

#[verifier::ext_equal]
pub struct VehicleOptionView {
    pub option_name: Option<TextElementView>,
    pub manufacturer_code: Option<TextElementView>,
    pub stock: Option<TextElementView>,
    pub weighting: Option<TextElementView>,
    pub prices: Seq<PriceView>,
    pub attributes: Seq<AttributeView>,
    pub extensions: Seq<NodeView>,
    pub span: Span,
}

impl<'a> View for VehicleOption<'a> {
    type V = VehicleOptionView;

    open spec fn view(&self) -> VehicleOptionView {
        VehicleOptionView {
            option_name: opt(self.option_name),
            manufacturer_code: opt(self.manufacturer_code),
            stock: opt(self.stock),
            weighting: opt(self.weighting),
            prices: document::views(self.prices@),
            attributes: document::views(self.attributes@),
            extensions: document::views(self.extensions@),
            span: self.span,
        }
    }
}

/// How a vehicle is to be financed.
#[derive(Debug, PartialEq, Eq)]
pub struct Finance<'a> {
    pub method: Option<TextElement<'a>>,
    pub amounts: Vec<TextElement<'a>>,
    pub balances: Vec<TextElement<'a>>,
    pub attributes: Vec<Attribute<'a>>,
    pub extensions: Vec<XmlNode<'a>>,
    pub span: Span,
}

#[verifier::ext_equal]
pub struct FinanceView {
    pub method: Option<TextElementView>,
    pub amounts: Seq<TextElementView>,
    pub balances: Seq<TextElementView>,
    pub attributes: Seq<AttributeView>,
    pub extensions: Seq<NodeView>,
    pub span: Span,
}

impl<'a> View for Finance<'a> {
    type V = FinanceView;

    open spec fn view(&self) -> FinanceView {
        FinanceView {
            method: opt(self.method),
            amounts: document::views(self.amounts@),
            balances: document::views(self.balances@),
            attributes: document::views(self.attributes@),
            extensions: document::views(self.extensions@),
            span: self.span,
        }
    }
}

/// A vehicle of interest.
#[derive(Debug, PartialEq, Eq)]
pub struct Vehicle<'a> {
    pub interest: Option<Cow<'a, str>>,
    pub status: Option<Cow<'a, str>>,
    pub ids: Vec<Id<'a>>,
    pub year: Option<TextElement<'a>>,
    pub make: Option<TextElement<'a>>,
    pub model: Option<TextElement<'a>>,
    pub vin: Option<TextElement<'a>>,
    pub stock: Option<TextElement<'a>>,
    pub trim: Option<TextElement<'a>>,
    pub doors: Option<TextElement<'a>>,
    pub body_style: Option<TextElement<'a>>,
    pub transmission: Option<TextElement<'a>>,
    pub odometer: Option<TextElement<'a>>,
    pub condition: Option<TextElement<'a>>,
    pub color_combinations: Vec<ColorCombination<'a>>,
    pub image_tags: Vec<TextElement<'a>>,
    pub prices: Vec<Price<'a>>,
    pub price_comments: Option<TextElement<'a>>,
    pub options: Vec<VehicleOption<'a>>,
    pub finance: Option<Finance<'a>>,
    pub comments: Option<TextElement<'a>>,
    pub attributes: Vec<Attribute<'a>>,
    pub extensions: Vec<XmlNode<'a>>,
    pub span: Span,
}

#[verifier::ext_equal]
pub struct VehicleView {
    pub interest: Option<Seq<char>>,
    pub status: Option<Seq<char>>,
    pub ids: Seq<IdView>,
    pub year: Option<TextElementView>,
    pub make: Option<TextElementView>,
    pub model: Option<TextElementView>,
    pub vin: Option<TextElementView>,
    pub stock: Option<TextElementView>,
    pub trim: Option<TextElementView>,
    pub doors: Option<TextElementView>,
    pub body_style: Option<TextElementView>,
    pub transmission: Option<TextElementView>,
    pub odometer: Option<TextElementView>,
    pub condition: Option<TextElementView>,
    pub color_combinations: Seq<ColorCombinationView>,
    pub image_tags: Seq<TextElementView>,
    pub prices: Seq<PriceView>,
    pub price_comments: Option<TextElementView>,
    pub options: Seq<VehicleOptionView>,
    pub finance: Option<FinanceView>,
    pub comments: Option<TextElementView>,
    pub attributes: Seq<AttributeView>,
    pub extensions: Seq<NodeView>,
    pub span: Span,
}

impl<'a> View for Vehicle<'a> {
    type V = VehicleView;

    open spec fn view(&self) -> VehicleView {
        VehicleView {
            interest: opt(self.interest),
            status: opt(self.status),
            ids: document::views(self.ids@),
            year: opt(self.year),
            make: opt(self.make),
            model: opt(self.model),
            vin: opt(self.vin),
            stock: opt(self.stock),
            trim: opt(self.trim),
            doors: opt(self.doors),
            body_style: opt(self.body_style),
            transmission: opt(self.transmission),
            odometer: opt(self.odometer),
            condition: opt(self.condition),
            color_combinations: document::views(self.color_combinations@),
            image_tags: document::views(self.image_tags@),
            prices: document::views(self.prices@),
            price_comments: opt(self.price_comments),
            options: document::views(self.options@),
            finance: opt(self.finance),
            comments: opt(self.comments),
            attributes: document::views(self.attributes@),
            extensions: document::views(self.extensions@),
            span: self.span,
        }
    }
}

/// When a customer intends to buy.
#[derive(Debug, PartialEq, Eq)]
pub struct Timeframe<'a> {
    pub description: Option<TextElement<'a>>,
    pub earliest_date: Option<TextElement<'a>>,
    pub latest_date: Option<TextElement<'a>>,
    pub attributes: Vec<Attribute<'a>>,
    pub extensions: Vec<XmlNode<'a>>,
    pub span: Span,
}

#[verifier::ext_equal]
pub struct TimeframeView {
    pub description: Option<TextElementView>,
    pub earliest_date: Option<TextElementView>,
    pub latest_date: Option<TextElementView>,
    pub attributes: Seq<AttributeView>,
    pub extensions: Seq<NodeView>,
    pub span: Span,
}

impl<'a> View for Timeframe<'a> {
    type V = TimeframeView;

    open spec fn view(&self) -> TimeframeView {
        TimeframeView {
            description: opt(self.description),
            earliest_date: opt(self.earliest_date),
            latest_date: opt(self.latest_date),
            attributes: document::views(self.attributes@),
            extensions: document::views(self.extensions@),
            span: self.span,
        }
    }
}

/// A postal address.
#[derive(Debug, PartialEq, Eq)]
pub struct Address<'a> {
    pub address_type: Option<Cow<'a, str>>,
    pub streets: Vec<TextElement<'a>>,
    pub apartment: Option<TextElement<'a>>,
    pub city: Option<TextElement<'a>>,
    pub region_code: Option<TextElement<'a>>,
    pub postal_code: Option<TextElement<'a>>,
    pub country: Option<TextElement<'a>>,
    pub attributes: Vec<Attribute<'a>>,
    pub extensions: Vec<XmlNode<'a>>,
    pub span: Span,
}

#[verifier::ext_equal]
pub struct AddressView {
    pub address_type: Option<Seq<char>>,
    pub streets: Seq<TextElementView>,
    pub apartment: Option<TextElementView>,
    pub city: Option<TextElementView>,
    pub region_code: Option<TextElementView>,
    pub postal_code: Option<TextElementView>,
    pub country: Option<TextElementView>,
    pub attributes: Seq<AttributeView>,
    pub extensions: Seq<NodeView>,
    pub span: Span,
}

impl<'a> View for Address<'a> {
    type V = AddressView;

    open spec fn view(&self) -> AddressView {
        AddressView {
            address_type: opt(self.address_type),
            streets: document::views(self.streets@),
            apartment: opt(self.apartment),
            city: opt(self.city),
            region_code: opt(self.region_code),
            postal_code: opt(self.postal_code),
            country: opt(self.country),
            attributes: document::views(self.attributes@),
            extensions: document::views(self.extensions@),
            span: self.span,
        }
    }
}

/// A person or a place to reach.
#[derive(Debug, PartialEq, Eq)]
pub struct Contact<'a> {
    pub primary_contact: Option<Cow<'a, str>>,
    pub names: Vec<Name<'a>>,
    pub emails: Vec<TextElement<'a>>,
    pub phones: Vec<TextElement<'a>>,
    pub addresses: Vec<Address<'a>>,
    pub attributes: Vec<Attribute<'a>>,
    pub extensions: Vec<XmlNode<'a>>,
    pub span: Span,
}

#[verifier::ext_equal]
pub struct ContactView {
    pub primary_contact: Option<Seq<char>>,
    pub names: Seq<NameView>,
    pub emails: Seq<TextElementView>,
    pub phones: Seq<TextElementView>,
    pub addresses: Seq<AddressView>,
    pub attributes: Seq<AttributeView>,
    pub extensions: Seq<NodeView>,
    pub span: Span,
}

impl<'a> View for Contact<'a> {
    type V = ContactView;

    open spec fn view(&self) -> ContactView {
        ContactView {
            primary_contact: opt(self.primary_contact),
            names: document::views(self.names@),
            emails: document::views(self.emails@),
            phones: document::views(self.phones@),
            addresses: document::views(self.addresses@),
            attributes: document::views(self.attributes@),
            extensions: document::views(self.extensions@),
            span: self.span,
        }
    }
}

/// Who the lead is about.
#[derive(Debug, PartialEq, Eq)]
pub struct Customer<'a> {
    pub ids: Vec<Id<'a>>,
    pub contacts: Vec<Contact<'a>>,
    pub timeframe: Option<Timeframe<'a>>,
    pub comments: Option<TextElement<'a>>,
    pub attributes: Vec<Attribute<'a>>,
    pub extensions: Vec<XmlNode<'a>>,
    pub span: Span,
}

#[verifier::ext_equal]
pub struct CustomerView {
    pub ids: Seq<IdView>,
    pub contacts: Seq<ContactView>,
    pub timeframe: Option<TimeframeView>,
    pub comments: Option<TextElementView>,
    pub attributes: Seq<AttributeView>,
    pub extensions: Seq<NodeView>,
    pub span: Span,
}

impl<'a> View for Customer<'a> {
    type V = CustomerView;

    open spec fn view(&self) -> CustomerView {
        CustomerView {
            ids: document::views(self.ids@),
            contacts: document::views(self.contacts@),
            timeframe: opt(self.timeframe),
            comments: opt(self.comments),
            attributes: document::views(self.attributes@),
            extensions: document::views(self.extensions@),
            span: self.span,
        }
    }
}

/// Who the lead is for.
#[derive(Debug, PartialEq, Eq)]
pub struct Vendor<'a> {
    pub ids: Vec<Id<'a>>,
    pub vendor_name: Option<TextElement<'a>>,
    pub url: Option<TextElement<'a>>,
    pub contacts: Vec<Contact<'a>>,
    pub attributes: Vec<Attribute<'a>>,
    pub extensions: Vec<XmlNode<'a>>,
    pub span: Span,
}

#[verifier::ext_equal]
pub struct VendorView {
    pub ids: Seq<IdView>,
    pub vendor_name: Option<TextElementView>,
    pub url: Option<TextElementView>,
    pub contacts: Seq<ContactView>,
    pub attributes: Seq<AttributeView>,
    pub extensions: Seq<NodeView>,
    pub span: Span,
}

impl<'a> View for Vendor<'a> {
    type V = VendorView;

    open spec fn view(&self) -> VendorView {
        VendorView {
            ids: document::views(self.ids@),
            vendor_name: opt(self.vendor_name),
            url: opt(self.url),
            contacts: document::views(self.contacts@),
            attributes: document::views(self.attributes@),
            extensions: document::views(self.extensions@),
            span: self.span,
        }
    }
}

/// Who the lead comes from.
#[derive(Debug, PartialEq, Eq)]
pub struct Provider<'a> {
    pub ids: Vec<Id<'a>>,
    pub name: Option<Name<'a>>,
    pub service: Option<TextElement<'a>>,
    pub url: Option<TextElement<'a>>,
    pub email: Option<TextElement<'a>>,
    pub phone: Option<TextElement<'a>>,
    pub contacts: Vec<Contact<'a>>,
    pub attributes: Vec<Attribute<'a>>,
    pub extensions: Vec<XmlNode<'a>>,
    pub span: Span,
}

#[verifier::ext_equal]
pub struct ProviderView {
    pub ids: Seq<IdView>,
    pub name: Option<NameView>,
    pub service: Option<TextElementView>,
    pub url: Option<TextElementView>,
    pub email: Option<TextElementView>,
    pub phone: Option<TextElementView>,
    pub contacts: Seq<ContactView>,
    pub attributes: Seq<AttributeView>,
    pub extensions: Seq<NodeView>,
    pub span: Span,
}

impl<'a> View for Provider<'a> {
    type V = ProviderView;

    open spec fn view(&self) -> ProviderView {
        ProviderView {
            ids: document::views(self.ids@),
            name: opt(self.name),
            service: opt(self.service),
            url: opt(self.url),
            email: opt(self.email),
            phone: opt(self.phone),
            contacts: document::views(self.contacts@),
            attributes: document::views(self.attributes@),
            extensions: document::views(self.extensions@),
            span: self.span,
        }
    }
}

/// A lead.
#[derive(Debug, PartialEq, Eq)]
pub struct Prospect<'a> {
    pub status: Option<Cow<'a, str>>,
    pub ids: Vec<Id<'a>>,
    pub request_date: Option<TextElement<'a>>,
    pub vehicles: Vec<Vehicle<'a>>,
    pub customer: Option<Customer<'a>>,
    pub vendor: Option<Vendor<'a>>,
    pub provider: Option<Provider<'a>>,
    pub attributes: Vec<Attribute<'a>>,
    pub extensions: Vec<XmlNode<'a>>,
    pub span: Span,
}

#[verifier::ext_equal]
pub struct ProspectView {
    pub status: Option<Seq<char>>,
    pub ids: Seq<IdView>,
    pub request_date: Option<TextElementView>,
    pub vehicles: Seq<VehicleView>,
    pub customer: Option<CustomerView>,
    pub vendor: Option<VendorView>,
    pub provider: Option<ProviderView>,
    pub attributes: Seq<AttributeView>,
    pub extensions: Seq<NodeView>,
    pub span: Span,
}

impl<'a> View for Prospect<'a> {
    type V = ProspectView;

    open spec fn view(&self) -> ProspectView {
        ProspectView {
            status: opt(self.status),
            ids: document::views(self.ids@),
            request_date: opt(self.request_date),
            vehicles: document::views(self.vehicles@),
            customer: opt(self.customer),
            vendor: opt(self.vendor),
            provider: opt(self.provider),
            attributes: document::views(self.attributes@),
            extensions: document::views(self.extensions@),
            span: self.span,
        }
    }
}

/// An ADF document.
#[derive(Debug, PartialEq, Eq)]
pub struct Adf<'a> {
    pub prospects: Vec<Prospect<'a>>,
    pub attributes: Vec<Attribute<'a>>,
    pub extensions: Vec<XmlNode<'a>>,
    pub span: Span,
}

#[verifier::ext_equal]
pub struct AdfView {
    pub prospects: Seq<ProspectView>,
    pub attributes: Seq<AttributeView>,
    pub extensions: Seq<NodeView>,
    pub span: Span,
}

impl<'a> View for Adf<'a> {
    type V = AdfView;

    open spec fn view(&self) -> AdfView {
        AdfView {
            prospects: document::views(self.prospects@),
            attributes: document::views(self.attributes@),
            extensions: document::views(self.extensions@),
            span: self.span,
        }
    }
}

/// Converts each item of a list, where the conversion keeps its model.
pub fn each_owned<T: View, U: View<V = T::V>, F: Fn(T) -> U>(items: Vec<T>, convert: F) -> (r: Vec<
    U,
>)
    requires
        forall|x: T| call_requires(convert, (x,)),
        forall|x: T, y: U| call_ensures(convert, (x,), y) ==> y@ == x@,
    ensures
        document::views(r@) == document::views(items@),
{
    let ghost all = items@;
    let mut owned: Vec<U> = Vec::new();
    assert(document::views(owned@) =~= document::views(all.take(0)));
    for item in it: items
        invariant
            it.seq() == all,
            forall|x: T| call_requires(convert, (x,)),
            forall|x: T, y: U| call_ensures(convert, (x,), y) ==> y@ == x@,
            document::views(owned@) == document::views(all.take(it.index() as int)),
    {
        proof {
            document::lemma_take_next(all, it.index() as int);
            broadcast use document::lemma_views_push;

        }
        owned.push(convert(item));
    }
    assert(all.take(all.len() as int) =~= all);
    owned
}

/// Converts a value that may be missing, where the conversion keeps its model.
pub fn opt_owned<T: View, U: View<V = T::V>, F: Fn(T) -> U>(value: Option<T>, convert: F) -> (r:
    Option<U>)
    requires
        forall|x: T| call_requires(convert, (x,)),
        forall|x: T, y: U| call_ensures(convert, (x,), y) ==> y@ == x@,
    ensures
        opt(r) == opt(value),
{
    match value {
        Some(value) => Some(convert(value)),
        None => None,
    }
}

/// The same text, if there is any, which borrows nothing.
fn opt_text_owned(value: Option<Cow<'_, str>>) -> (r: Option<Cow<'static, str>>)
    ensures
        opt(r) == opt(value),
{
    match value {
        Some(value) => Some(text::text_into_owned(value)),
        None => None,
    }
}

impl<'a> TextPart<'a> {
    /// The same part, which borrows nothing.
    pub fn into_owned(self) -> (r: TextPart<'static>)
        ensures
            r@ == self@,
    {
        match self {
            TextPart::Text(value) => TextPart::Text(text::text_into_owned(value)),
            TextPart::CData(value) => TextPart::CData(text::text_into_owned(value)),
            TextPart::EntityRef(name) => TextPart::EntityRef(text::text_into_owned(name)),
            TextPart::Node(node) => TextPart::Node(node.into_owned()),
        }
    }
}

impl<'a> TextElement<'a> {
    /// The same value, which borrows nothing.
    pub fn into_owned(self) -> (r: TextElement<'static>)
        ensures
            r@ == self@,
    {
        TextElement {
            parts: each_owned(self.parts, TextPart::into_owned),
            attributes: document::attributes_into_owned(self.attributes),
            span: self.span,
        }
    }
}

impl<'a> Id<'a> {
    /// The same value, which borrows nothing.
    pub fn into_owned(self) -> (r: Id<'static>)
        ensures
            r@ == self@,
    {
        Id {
            sequence: opt_text_owned(self.sequence),
            source: opt_text_owned(self.source),
            parts: each_owned(self.parts, TextPart::into_owned),
            attributes: document::attributes_into_owned(self.attributes),
            span: self.span,
        }
    }
}

impl<'a> Price<'a> {
    /// The same value, which borrows nothing.
    pub fn into_owned(self) -> (r: Price<'static>)
        ensures
            r@ == self@,
    {
        Price {
            price_type: opt_text_owned(self.price_type),
            currency: opt_text_owned(self.currency),
            delta: opt_text_owned(self.delta),
            relative_to: opt_text_owned(self.relative_to),
            source: opt_text_owned(self.source),
            parts: each_owned(self.parts, TextPart::into_owned),
            attributes: document::attributes_into_owned(self.attributes),
            span: self.span,
        }
    }
}

impl<'a> Name<'a> {
    /// The same value, which borrows nothing.
    pub fn into_owned(self) -> (r: Name<'static>)
        ensures
            r@ == self@,
    {
        Name {
            part: opt_text_owned(self.part),
            name_type: opt_text_owned(self.name_type),
            parts: each_owned(self.parts, TextPart::into_owned),
            attributes: document::attributes_into_owned(self.attributes),
            span: self.span,
        }
    }
}

impl<'a> ColorCombination<'a> {
    /// The same value, which borrows nothing.
    pub fn into_owned(self) -> (r: ColorCombination<'static>)
        ensures
            r@ == self@,
    {
        ColorCombination {
            interior_color: opt_owned(self.interior_color, TextElement::into_owned),
            exterior_color: opt_owned(self.exterior_color, TextElement::into_owned),
            preference: opt_owned(self.preference, TextElement::into_owned),
            attributes: document::attributes_into_owned(self.attributes),
            extensions: each_owned(self.extensions, XmlNode::into_owned),
            span: self.span,
        }
    }
}

impl<'a> VehicleOption<'a> {
    /// The same value, which borrows nothing.
    pub fn into_owned(self) -> (r: VehicleOption<'static>)
        ensures
            r@ == self@,
    {
        VehicleOption {
            option_name: opt_owned(self.option_name, TextElement::into_owned),
            manufacturer_code: opt_owned(self.manufacturer_code, TextElement::into_owned),
            stock: opt_owned(self.stock, TextElement::into_owned),
            weighting: opt_owned(self.weighting, TextElement::into_owned),
            prices: each_owned(self.prices, Price::into_owned),
            attributes: document::attributes_into_owned(self.attributes),
            extensions: each_owned(self.extensions, XmlNode::into_owned),
            span: self.span,
        }
    }
}

impl<'a> Finance<'a> {
    /// The same value, which borrows nothing.
    pub fn into_owned(self) -> (r: Finance<'static>)
        ensures
            r@ == self@,
    {
        Finance {
            method: opt_owned(self.method, TextElement::into_owned),
            amounts: each_owned(self.amounts, TextElement::into_owned),
            balances: each_owned(self.balances, TextElement::into_owned),
            attributes: document::attributes_into_owned(self.attributes),
            extensions: each_owned(self.extensions, XmlNode::into_owned),
            span: self.span,
        }
    }
}

impl<'a> Vehicle<'a> {
    /// The same value, which borrows nothing.
    pub fn into_owned(self) -> (r: Vehicle<'static>)
        ensures
            r@ == self@,
    {
        Vehicle {
            interest: opt_text_owned(self.interest),
            status: opt_text_owned(self.status),
            ids: each_owned(self.ids, Id::into_owned),
            year: opt_owned(self.year, TextElement::into_owned),
            make: opt_owned(self.make, TextElement::into_owned),
            model: opt_owned(self.model, TextElement::into_owned),
            vin: opt_owned(self.vin, TextElement::into_owned),
            stock: opt_owned(self.stock, TextElement::into_owned),
            trim: opt_owned(self.trim, TextElement::into_owned),
            doors: opt_owned(self.doors, TextElement::into_owned),
            body_style: opt_owned(self.body_style, TextElement::into_owned),
            transmission: opt_owned(self.transmission, TextElement::into_owned),
            odometer: opt_owned(self.odometer, TextElement::into_owned),
            condition: opt_owned(self.condition, TextElement::into_owned),
            color_combinations: each_owned(self.color_combinations, ColorCombination::into_owned),
            image_tags: each_owned(self.image_tags, TextElement::into_owned),
            prices: each_owned(self.prices, Price::into_owned),
            price_comments: opt_owned(self.price_comments, TextElement::into_owned),
            options: each_owned(self.options, VehicleOption::into_owned),
            finance: opt_owned(self.finance, Finance::into_owned),
            comments: opt_owned(self.comments, TextElement::into_owned),
            attributes: document::attributes_into_owned(self.attributes),
            extensions: each_owned(self.extensions, XmlNode::into_owned),
            span: self.span,
        }
    }
}

impl<'a> Timeframe<'a> {
    /// The same value, which borrows nothing.
    pub fn into_owned(self) -> (r: Timeframe<'static>)
        ensures
            r@ == self@,
    {
        Timeframe {
            description: opt_owned(self.description, TextElement::into_owned),
            earliest_date: opt_owned(self.earliest_date, TextElement::into_owned),
            latest_date: opt_owned(self.latest_date, TextElement::into_owned),
            attributes: document::attributes_into_owned(self.attributes),
            extensions: each_owned(self.extensions, XmlNode::into_owned),
            span: self.span,
        }
    }
}

impl<'a> Address<'a> {
    /// The same value, which borrows nothing.
    pub fn into_owned(self) -> (r: Address<'static>)
        ensures
            r@ == self@,
    {
        Address {
            address_type: opt_text_owned(self.address_type),
            streets: each_owned(self.streets, TextElement::into_owned),
            apartment: opt_owned(self.apartment, TextElement::into_owned),
            city: opt_owned(self.city, TextElement::into_owned),
            region_code: opt_owned(self.region_code, TextElement::into_owned),
            postal_code: opt_owned(self.postal_code, TextElement::into_owned),
            country: opt_owned(self.country, TextElement::into_owned),
            attributes: document::attributes_into_owned(self.attributes),
            extensions: each_owned(self.extensions, XmlNode::into_owned),
            span: self.span,
        }
    }
}

impl<'a> Contact<'a> {
    /// The same value, which borrows nothing.
    pub fn into_owned(self) -> (r: Contact<'static>)
        ensures
            r@ == self@,
    {
        Contact {
            primary_contact: opt_text_owned(self.primary_contact),
            names: each_owned(self.names, Name::into_owned),
            emails: each_owned(self.emails, TextElement::into_owned),
            phones: each_owned(self.phones, TextElement::into_owned),
            addresses: each_owned(self.addresses, Address::into_owned),
            attributes: document::attributes_into_owned(self.attributes),
            extensions: each_owned(self.extensions, XmlNode::into_owned),
            span: self.span,
        }
    }
}

impl<'a> Customer<'a> {
    /// The same value, which borrows nothing.
    pub fn into_owned(self) -> (r: Customer<'static>)
        ensures
            r@ == self@,
    {
        Customer {
            ids: each_owned(self.ids, Id::into_owned),
            contacts: each_owned(self.contacts, Contact::into_owned),
            timeframe: opt_owned(self.timeframe, Timeframe::into_owned),
            comments: opt_owned(self.comments, TextElement::into_owned),
            attributes: document::attributes_into_owned(self.attributes),
            extensions: each_owned(self.extensions, XmlNode::into_owned),
            span: self.span,
        }
    }
}

impl<'a> Vendor<'a> {
    /// The same value, which borrows nothing.
    pub fn into_owned(self) -> (r: Vendor<'static>)
        ensures
            r@ == self@,
    {
        Vendor {
            ids: each_owned(self.ids, Id::into_owned),
            vendor_name: opt_owned(self.vendor_name, TextElement::into_owned),
            url: opt_owned(self.url, TextElement::into_owned),
            contacts: each_owned(self.contacts, Contact::into_owned),
            attributes: document::attributes_into_owned(self.attributes),
            extensions: each_owned(self.extensions, XmlNode::into_owned),
            span: self.span,
        }
    }
}

impl<'a> Provider<'a> {
    /// The same value, which borrows nothing.
    pub fn into_owned(self) -> (r: Provider<'static>)
        ensures
            r@ == self@,
    {
        Provider {
            ids: each_owned(self.ids, Id::into_owned),
            name: opt_owned(self.name, Name::into_owned),
            service: opt_owned(self.service, TextElement::into_owned),
            url: opt_owned(self.url, TextElement::into_owned),
            email: opt_owned(self.email, TextElement::into_owned),
            phone: opt_owned(self.phone, TextElement::into_owned),
            contacts: each_owned(self.contacts, Contact::into_owned),
            attributes: document::attributes_into_owned(self.attributes),
            extensions: each_owned(self.extensions, XmlNode::into_owned),
            span: self.span,
        }
    }
}

impl<'a> Prospect<'a> {
    /// The same value, which borrows nothing.
    pub fn into_owned(self) -> (r: Prospect<'static>)
        ensures
            r@ == self@,
    {
        Prospect {
            status: opt_text_owned(self.status),
            ids: each_owned(self.ids, Id::into_owned),
            request_date: opt_owned(self.request_date, TextElement::into_owned),
            vehicles: each_owned(self.vehicles, Vehicle::into_owned),
            customer: opt_owned(self.customer, Customer::into_owned),
            vendor: opt_owned(self.vendor, Vendor::into_owned),
            provider: opt_owned(self.provider, Provider::into_owned),
            attributes: document::attributes_into_owned(self.attributes),
            extensions: each_owned(self.extensions, XmlNode::into_owned),
            span: self.span,
        }
    }
}

impl<'a> Adf<'a> {
    /// The same value, which borrows nothing.
    pub fn into_owned(self) -> (r: Adf<'static>)
        ensures
            r@ == self@,
    {
        Adf {
            prospects: each_owned(self.prospects, Prospect::into_owned),
            attributes: document::attributes_into_owned(self.attributes),
            extensions: each_owned(self.extensions, XmlNode::into_owned),
            span: self.span,
        }
    }
}

impl<'a> Default for ColorCombination<'a> {
    /// Nothing is known.
    fn default() -> (r: Self)
        ensures
            r@ == (ColorCombinationView {
                interior_color: None,
                exterior_color: None,
                preference: None,
                attributes: seq![],
                extensions: seq![],
                span: Span { start: 0, end: 0 },
            }),
    {
        let value = ColorCombination {
            interior_color: None,
            exterior_color: None,
            preference: None,
            attributes: Vec::new(),
            extensions: Vec::new(),
            span: Span::default(),
        };
        assert(document::views(value.attributes@) =~= seq![]);
        assert(document::views(value.extensions@) =~= seq![]);
        value
    }
}

impl<'a> Default for VehicleOption<'a> {
    /// Nothing is known.
    fn default() -> (r: Self)
        ensures
            r@ == (VehicleOptionView {
                option_name: None,
                manufacturer_code: None,
                stock: None,
                weighting: None,
                prices: seq![],
                attributes: seq![],
                extensions: seq![],
                span: Span { start: 0, end: 0 },
            }),
    {
        let value = VehicleOption {
            option_name: None,
            manufacturer_code: None,
            stock: None,
            weighting: None,
            prices: Vec::new(),
            attributes: Vec::new(),
            extensions: Vec::new(),
            span: Span::default(),
        };
        assert(document::views(value.prices@) =~= seq![]);
        assert(document::views(value.attributes@) =~= seq![]);
        assert(document::views(value.extensions@) =~= seq![]);
        value
    }
}

impl<'a> Default for Finance<'a> {
    /// Nothing is known.
    fn default() -> (r: Self)
        ensures
            r@ == (FinanceView {
                method: None,
                amounts: seq![],
                balances: seq![],
                attributes: seq![],
                extensions: seq![],
                span: Span { start: 0, end: 0 },
            }),
    {
        let value = Finance {
            method: None,
            amounts: Vec::new(),
            balances: Vec::new(),
            attributes: Vec::new(),
            extensions: Vec::new(),
            span: Span::default(),
        };
        assert(document::views(value.amounts@) =~= seq![]);
        assert(document::views(value.balances@) =~= seq![]);
        assert(document::views(value.attributes@) =~= seq![]);
        assert(document::views(value.extensions@) =~= seq![]);
        value
    }
}

impl<'a> Default for Vehicle<'a> {
    /// Nothing is known.
    fn default() -> (r: Self)
        ensures
            r@ == (VehicleView {
                interest: None,
                status: None,
                ids: seq![],
                year: None,
                make: None,
                model: None,
                vin: None,
                stock: None,
                trim: None,
                doors: None,
                body_style: None,
                transmission: None,
                odometer: None,
                condition: None,
                color_combinations: seq![],
                image_tags: seq![],
                prices: seq![],
                price_comments: None,
                options: seq![],
                finance: None,
                comments: None,
                attributes: seq![],
                extensions: seq![],
                span: Span { start: 0, end: 0 },
            }),
    {
        let value = Vehicle {
            interest: None,
            status: None,
            ids: Vec::new(),
            year: None,
            make: None,
            model: None,
            vin: None,
            stock: None,
            trim: None,
            doors: None,
            body_style: None,
            transmission: None,
            odometer: None,
            condition: None,
            color_combinations: Vec::new(),
            image_tags: Vec::new(),
            prices: Vec::new(),
            price_comments: None,
            options: Vec::new(),
            finance: None,
            comments: None,
            attributes: Vec::new(),
            extensions: Vec::new(),
            span: Span::default(),
        };
        assert(document::views(value.ids@) =~= seq![]);
        assert(document::views(value.color_combinations@) =~= seq![]);
        assert(document::views(value.image_tags@) =~= seq![]);
        assert(document::views(value.prices@) =~= seq![]);
        assert(document::views(value.options@) =~= seq![]);
        assert(document::views(value.attributes@) =~= seq![]);
        assert(document::views(value.extensions@) =~= seq![]);
        value
    }
}

impl<'a> Default for Timeframe<'a> {
    /// Nothing is known.
    fn default() -> (r: Self)
        ensures
            r@ == (TimeframeView {
                description: None,
                earliest_date: None,
                latest_date: None,
                attributes: seq![],
                extensions: seq![],
                span: Span { start: 0, end: 0 },
            }),
    {
        let value = Timeframe {
            description: None,
            earliest_date: None,
            latest_date: None,
            attributes: Vec::new(),
            extensions: Vec::new(),
            span: Span::default(),
        };
        assert(document::views(value.attributes@) =~= seq![]);
        assert(document::views(value.extensions@) =~= seq![]);
        value
    }
}

impl<'a> Default for Address<'a> {
    /// Nothing is known.
    fn default() -> (r: Self)
        ensures
            r@ == (AddressView {
                address_type: None,
                streets: seq![],
                apartment: None,
                city: None,
                region_code: None,
                postal_code: None,
                country: None,
                attributes: seq![],
                extensions: seq![],
                span: Span { start: 0, end: 0 },
            }),
    {
        let value = Address {
            address_type: None,
            streets: Vec::new(),
            apartment: None,
            city: None,
            region_code: None,
            postal_code: None,
            country: None,
            attributes: Vec::new(),
            extensions: Vec::new(),
            span: Span::default(),
        };
        assert(document::views(value.streets@) =~= seq![]);
        assert(document::views(value.attributes@) =~= seq![]);
        assert(document::views(value.extensions@) =~= seq![]);
        value
    }
}

impl<'a> Default for Contact<'a> {
    /// Nothing is known.
    fn default() -> (r: Self)
        ensures
            r@ == (ContactView {
                primary_contact: None,
                names: seq![],
                emails: seq![],
                phones: seq![],
                addresses: seq![],
                attributes: seq![],
                extensions: seq![],
                span: Span { start: 0, end: 0 },
            }),
    {
        let value = Contact {
            primary_contact: None,
            names: Vec::new(),
            emails: Vec::new(),
            phones: Vec::new(),
            addresses: Vec::new(),
            attributes: Vec::new(),
            extensions: Vec::new(),
            span: Span::default(),
        };
        assert(document::views(value.names@) =~= seq![]);
        assert(document::views(value.emails@) =~= seq![]);
        assert(document::views(value.phones@) =~= seq![]);
        assert(document::views(value.addresses@) =~= seq![]);
        assert(document::views(value.attributes@) =~= seq![]);
        assert(document::views(value.extensions@) =~= seq![]);
        value
    }
}

impl<'a> Default for Customer<'a> {
    /// Nothing is known.
    fn default() -> (r: Self)
        ensures
            r@ == (CustomerView {
                ids: seq![],
                contacts: seq![],
                timeframe: None,
                comments: None,
                attributes: seq![],
                extensions: seq![],
                span: Span { start: 0, end: 0 },
            }),
    {
        let value = Customer {
            ids: Vec::new(),
            contacts: Vec::new(),
            timeframe: None,
            comments: None,
            attributes: Vec::new(),
            extensions: Vec::new(),
            span: Span::default(),
        };
        assert(document::views(value.ids@) =~= seq![]);
        assert(document::views(value.contacts@) =~= seq![]);
        assert(document::views(value.attributes@) =~= seq![]);
        assert(document::views(value.extensions@) =~= seq![]);
        value
    }
}

impl<'a> Default for Vendor<'a> {
    /// Nothing is known.
    fn default() -> (r: Self)
        ensures
            r@ == (VendorView {
                ids: seq![],
                vendor_name: None,
                url: None,
                contacts: seq![],
                attributes: seq![],
                extensions: seq![],
                span: Span { start: 0, end: 0 },
            }),
    {
        let value = Vendor {
            ids: Vec::new(),
            vendor_name: None,
            url: None,
            contacts: Vec::new(),
            attributes: Vec::new(),
            extensions: Vec::new(),
            span: Span::default(),
        };
        assert(document::views(value.ids@) =~= seq![]);
        assert(document::views(value.contacts@) =~= seq![]);
        assert(document::views(value.attributes@) =~= seq![]);
        assert(document::views(value.extensions@) =~= seq![]);
        value
    }
}

impl<'a> Default for Provider<'a> {
    /// Nothing is known.
    fn default() -> (r: Self)
        ensures
            r@ == (ProviderView {
                ids: seq![],
                name: None,
                service: None,
                url: None,
                email: None,
                phone: None,
                contacts: seq![],
                attributes: seq![],
                extensions: seq![],
                span: Span { start: 0, end: 0 },
            }),
    {
        let value = Provider {
            ids: Vec::new(),
            name: None,
            service: None,
            url: None,
            email: None,
            phone: None,
            contacts: Vec::new(),
            attributes: Vec::new(),
            extensions: Vec::new(),
            span: Span::default(),
        };
        assert(document::views(value.ids@) =~= seq![]);
        assert(document::views(value.contacts@) =~= seq![]);
        assert(document::views(value.attributes@) =~= seq![]);
        assert(document::views(value.extensions@) =~= seq![]);
        value
    }
}

impl<'a> Default for Prospect<'a> {
    /// Nothing is known.
    fn default() -> (r: Self)
        ensures
            r@ == (ProspectView {
                status: None,
                ids: seq![],
                request_date: None,
                vehicles: seq![],
                customer: None,
                vendor: None,
                provider: None,
                attributes: seq![],
                extensions: seq![],
                span: Span { start: 0, end: 0 },
            }),
    {
        let value = Prospect {
            status: None,
            ids: Vec::new(),
            request_date: None,
            vehicles: Vec::new(),
            customer: None,
            vendor: None,
            provider: None,
            attributes: Vec::new(),
            extensions: Vec::new(),
            span: Span::default(),
        };
        assert(document::views(value.ids@) =~= seq![]);
        assert(document::views(value.vehicles@) =~= seq![]);
        assert(document::views(value.attributes@) =~= seq![]);
        assert(document::views(value.extensions@) =~= seq![]);
        value
    }
}

impl<'a> Default for Adf<'a> {
    /// Nothing is known.
    fn default() -> (r: Self)
        ensures
            r@ == (AdfView {
                prospects: seq![],
                attributes: seq![],
                extensions: seq![],
                span: Span { start: 0, end: 0 },
            }),
    {
        let value = Adf {
            prospects: Vec::new(),
            attributes: Vec::new(),
            extensions: Vec::new(),
            span: Span::default(),
        };
        assert(document::views(value.prospects@) =~= seq![]);
        assert(document::views(value.attributes@) =~= seq![]);
        assert(document::views(value.extensions@) =~= seq![]);
        value
    }
}

} // verus!
