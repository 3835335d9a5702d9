use adf::convert::{attr, set_singular, text_from_element};
use adf::{parse, Adf, Attribute, Prospect, Span, TextPart, XmlElement, XmlNode};
use std::borrow::Cow;

fn plain(parts: &[TextPart<'_>]) -> String {
    let mut joined = String::new();
    for part in parts {
        match part {
            TextPart::Text(value) => joined.push_str(value),
            TextPart::CData(value) => joined.push_str(value),
            other => panic!("not plain: {:?}", other),
        }
    }
    joined
}

fn element_name<'b>(node: &'b XmlNode<'_>) -> &'b str {
    match node {
        XmlNode::Element(element) => &element.name,
        other => panic!("no element: {:?}", other),
    }
}

const FULL: &str = "<adf><prospect status='new' lead='7'>\
<id sequence='1' source='crm'>A1</id><id>A2</id>\
<requestdate>today</requestdate>\
<vehicle interest='buy' status='used'>\
<id>V</id><year>2020</year><make>M</make><model>N</model><vin>W</vin><stock>S</stock><trim>T</trim>\
<doors>4</doors><bodystyle>B</bodystyle><transmission>A</transmission><odometer>9</odometer>\
<condition>good</condition>\
<colorcombination><interiorcolor>red</interiorcolor><exteriorcolor>blue</exteriorcolor><preference>1</preference></colorcombination>\
<imagetag>i</imagetag>\
<price type='quote' currency='USD' delta='absolute' relativeto='msrp' source='s'>100</price>\
<pricecomments>pc</pricecomments>\
<option><optionname>o</optionname><manufacturercode>c</manufacturercode><stock>k</stock><weighting>5</weighting><price>7</price></option>\
<finance><method>cash</method><amount type='max'>1</amount><amount>2</amount><balance>3</balance></finance>\
<comments>vc</comments></vehicle>\
<customer><id>C</id><contact primarycontact='1'><name part='first' type='individual'>Jo</name><email>e</email><phone>p</phone>\
<address type='home'><street>s1</street><street>s2</street><apartment>a</apartment><city>c</city><regioncode>r</regioncode><postalcode>z</postalcode><country>US</country></address></contact>\
<timeframe><description>d</description><earliestdate>e</earliestdate><latestdate>l</latestdate></timeframe><comments>cc</comments></customer>\
<vendor><id>D</id><vendorname>vn</vendorname><url>u</url><contact/></vendor>\
<provider><id>P</id><name>pn</name><service>sv</service><url>pu</url><email>pe</email><phone>pp</phone><contact/></provider>\
</prospect></adf>";

#[test]
fn every_field_is_read() {
    let document = parse(FULL).unwrap();
    let prospect = &document.adf().prospects[0];
    assert_eq!(prospect.attributes.len(), 2);
    assert_eq!(prospect.attributes[1].name, "lead");
    assert_eq!(prospect.ids.len(), 2);
    assert_eq!(prospect.ids[0].sequence.as_deref(), Some("1"));
    assert_eq!(prospect.ids[0].source.as_deref(), Some("crm"));
    assert_eq!(plain(&prospect.ids[1].parts), "A2");
    let text = |value: &Option<adf::TextElement<'_>>| plain(&value.as_ref().unwrap().parts);

    let vehicle = &prospect.vehicles[0];
    assert_eq!(vehicle.interest.as_deref(), Some("buy"));
    assert_eq!(vehicle.status.as_deref(), Some("used"));
    assert_eq!(plain(&vehicle.ids[0].parts), "V");
    assert_eq!(text(&vehicle.year), "2020");
    assert_eq!(text(&vehicle.make), "M");
    assert_eq!(text(&vehicle.model), "N");
    assert_eq!(text(&vehicle.vin), "W");
    assert_eq!(text(&vehicle.stock), "S");
    assert_eq!(text(&vehicle.trim), "T");
    assert_eq!(text(&vehicle.doors), "4");
    assert_eq!(text(&vehicle.body_style), "B");
    assert_eq!(text(&vehicle.transmission), "A");
    assert_eq!(text(&vehicle.odometer), "9");
    assert_eq!(text(&vehicle.condition), "good");
    let colors = &vehicle.color_combinations[0];
    assert_eq!(text(&colors.interior_color), "red");
    assert_eq!(text(&colors.exterior_color), "blue");
    assert_eq!(text(&colors.preference), "1");
    assert_eq!(plain(&vehicle.image_tags[0].parts), "i");
    let price = &vehicle.prices[0];
    assert_eq!(price.price_type.as_deref(), Some("quote"));
    assert_eq!(price.currency.as_deref(), Some("USD"));
    assert_eq!(price.delta.as_deref(), Some("absolute"));
    assert_eq!(price.relative_to.as_deref(), Some("msrp"));
    assert_eq!(price.source.as_deref(), Some("s"));
    assert_eq!(plain(&price.parts), "100");
    assert_eq!(text(&vehicle.price_comments), "pc");
    let option = &vehicle.options[0];
    assert_eq!(text(&option.option_name), "o");
    assert_eq!(text(&option.manufacturer_code), "c");
    assert_eq!(text(&option.stock), "k");
    assert_eq!(text(&option.weighting), "5");
    assert_eq!(plain(&option.prices[0].parts), "7");
    let finance = vehicle.finance.as_ref().unwrap();
    assert_eq!(text(&finance.method), "cash");
    assert_eq!(finance.amounts.len(), 2);
    assert_eq!(plain(&finance.amounts[1].parts), "2");
    assert_eq!(plain(&finance.balances[0].parts), "3");
    assert_eq!(text(&vehicle.comments), "vc");
    assert!(vehicle.extensions.is_empty());

    let customer = prospect.customer.as_ref().unwrap();
    assert_eq!(plain(&customer.ids[0].parts), "C");
    let contact = &customer.contacts[0];
    assert_eq!(contact.primary_contact.as_deref(), Some("1"));
    assert_eq!(contact.names[0].part.as_deref(), Some("first"));
    assert_eq!(contact.names[0].name_type.as_deref(), Some("individual"));
    assert_eq!(plain(&contact.names[0].parts), "Jo");
    assert_eq!(plain(&contact.emails[0].parts), "e");
    assert_eq!(plain(&contact.phones[0].parts), "p");
    let address = &contact.addresses[0];
    assert_eq!(address.address_type.as_deref(), Some("home"));
    assert_eq!(address.streets.len(), 2);
    assert_eq!(plain(&address.streets[1].parts), "s2");
    assert_eq!(text(&address.apartment), "a");
    assert_eq!(text(&address.city), "c");
    assert_eq!(text(&address.region_code), "r");
    assert_eq!(text(&address.postal_code), "z");
    assert_eq!(text(&address.country), "US");
    let timeframe = customer.timeframe.as_ref().unwrap();
    assert_eq!(text(&timeframe.description), "d");
    assert_eq!(text(&timeframe.earliest_date), "e");
    assert_eq!(text(&timeframe.latest_date), "l");
    assert_eq!(text(&customer.comments), "cc");

    let vendor = prospect.vendor.as_ref().unwrap();
    assert_eq!(plain(&vendor.ids[0].parts), "D");
    assert_eq!(text(&vendor.vendor_name), "vn");
    assert_eq!(text(&vendor.url), "u");
    assert_eq!(vendor.contacts.len(), 1);

    let provider = prospect.provider.as_ref().unwrap();
    assert_eq!(plain(&provider.ids[0].parts), "P");
    assert_eq!(plain(&provider.name.as_ref().unwrap().parts), "pn");
    assert_eq!(text(&provider.service), "sv");
    assert_eq!(text(&provider.url), "pu");
    assert_eq!(text(&provider.email), "pe");
    assert_eq!(text(&provider.phone), "pp");
    assert_eq!(provider.contacts.len(), 1);
    assert!(prospect.extensions.is_empty());
}

#[test]
fn unknown_children_are_extensions_in_document_order() {
    let document = parse(
        "<adf x='1'> <partner/>note<prospect/><!--c--><other a='b'>t</other>&foo;<![CDATA[d]]> </adf>",
    )
    .unwrap();
    let adf = document.adf();
    assert_eq!(adf.attributes[0].value, "1");
    assert_eq!(adf.prospects.len(), 1);
    assert_eq!(adf.extensions.len(), 6);
    assert_eq!(element_name(&adf.extensions[0]), "partner");
    assert_eq!(adf.extensions[1], XmlNode::Text(Cow::Borrowed("note")));
    assert_eq!(adf.extensions[2], XmlNode::Comment(Cow::Borrowed("c")));
    assert_eq!(element_name(&adf.extensions[3]), "other");
    assert_eq!(adf.extensions[4], XmlNode::EntityRef(Cow::Borrowed("foo")));
    assert_eq!(adf.extensions[5], XmlNode::CData(Cow::Borrowed("d")));
}

#[test]
fn a_second_singular_child_is_an_extension() {
    let document = parse(
        "<adf><prospect><vendor><url>1</url></vendor><requestdate>a</requestdate><vendor><url>2</url></vendor></prospect></adf>",
    )
    .unwrap();
    let prospect = &document.adf().prospects[0];
    let url = prospect.vendor.as_ref().unwrap().url.as_ref().unwrap();
    assert_eq!(plain(&url.parts), "1");
    assert_eq!(prospect.extensions.len(), 1);
    assert_eq!(element_name(&prospect.extensions[0]), "vendor");
}

#[test]
fn names_are_matched_exactly() {
    let document = parse("<adf><Prospect/><prospect><Vendor/></prospect></adf>").unwrap();
    assert_eq!(document.adf().prospects.len(), 1);
    assert_eq!(element_name(&document.adf().extensions[0]), "Prospect");
    assert!(document.adf().prospects[0].vendor.is_none());
    assert_eq!(element_name(&document.adf().prospects[0].extensions[0]), "Vendor");
}

#[test]
fn texts_keep_all_of_their_parts() {
    let document =
        parse("<adf><prospect><id a='b'> x<![CDATA[y]]>&foo;<b/><!--c-->&amp;</id></prospect></adf>").unwrap();
    let id = &document.adf().prospects[0].ids[0];
    assert_eq!(id.attributes[0].name, "a");
    assert_eq!(id.parts.len(), 6);
    assert_eq!(id.parts[0], TextPart::Text(Cow::Borrowed(" x")));
    assert_eq!(id.parts[1], TextPart::CData(Cow::Borrowed("y")));
    assert_eq!(id.parts[2], TextPart::EntityRef(Cow::Borrowed("foo")));
    assert!(matches!(&id.parts[3], TextPart::Node(XmlNode::Element(b)) if b.name == "b"));
    assert_eq!(id.parts[4], TextPart::Node(XmlNode::Comment(Cow::Borrowed("c"))));
    assert_eq!(id.parts[5], TextPart::Text(Cow::Borrowed("&")));
}

#[test]
fn the_first_attribute_of_a_name_counts() {
    let attribute = |name: &'static str, value: &'static str| Attribute {
        name: Cow::Borrowed(name),
        value: Cow::Borrowed(value),
    };
    let attributes = [attribute("a", "1"), attribute("b", "2"), attribute("a", "3")];
    assert_eq!(attr(&attributes, "a").as_deref(), Some("1"));
    assert_eq!(attr(&attributes, "b").as_deref(), Some("2"));
    assert_eq!(attr(&attributes, "c"), None);
    assert_eq!(attr(&[], "a"), None);
}

#[test]
fn a_slot_is_filled_once() {
    let element = |name: &'static str| XmlElement {
        name: Cow::Borrowed(name),
        attributes: Vec::new(),
        children: vec![XmlNode::Text(Cow::Borrowed(name))],
        span: Span::default(),
    };
    let mut slot = None;
    let mut extensions = Vec::new();
    set_singular(&mut slot, &mut extensions, element("a"), text_from_element);
    assert_eq!(slot.as_ref().unwrap().parts, vec![TextPart::Text(Cow::Borrowed("a"))]);
    assert!(extensions.is_empty());
    set_singular(&mut slot, &mut extensions, element("b"), text_from_element);
    assert_eq!(slot.as_ref().unwrap().parts, vec![TextPart::Text(Cow::Borrowed("a"))]);
    assert_eq!(extensions, vec![XmlNode::Element(element("b"))]);
}

#[test]
fn defaults_are_empty() {
    let prospect = Prospect::default();
    assert_eq!(prospect.status, None);
    assert!(prospect.ids.is_empty());
    assert!(prospect.vehicles.is_empty());
    assert!(prospect.customer.is_none());
    assert!(prospect.extensions.is_empty());
    assert_eq!(prospect.span, Span { start: 0, end: 0 });
    assert!(Adf::default().prospects.is_empty());
}
