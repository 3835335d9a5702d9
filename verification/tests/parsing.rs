use adf::builder::{parse_document_tree, parse_tree};
use adf::{
    parse, parse_bytes, parse_owned, parse_with, Error, ParseLimit, ParseOptions, Span, TextPart,
    XmlNode,
};
use std::borrow::Cow;

const LEAD: &str = r#"<adf>
      <prospect status="new">
        <requestdate>2026-05-17T12:00:00-04:00</requestdate>
        <vehicle><year>2024</year><make>Toyota</make><model>Camry</model></vehicle>
        <customer><contact><name part="full">Jane Doe</name><email>jane@example.com</email></contact></customer>
        <vendor><vendorname>Example Dealer</vendorname></vendor>
      </prospect>
    </adf>"#;

fn plain(parts: &[TextPart<'_>]) -> String {
    let mut joined = String::new();
    for part in parts {
        match part {
            TextPart::Text(value) => joined.push_str(value),
            TextPart::CData(value) => joined.push_str(value),
            other => panic!("not plain: {:?}", other),
        }
    }
    joined
}

fn is_borrowed(value: &Cow<'_, str>) -> bool {
    matches!(value, Cow::Borrowed(_))
}

#[test]
fn lead_is_read_into_the_model() {
    let document = parse(LEAD).unwrap();
    assert_eq!(document.adf().prospects.len(), 1);
    let prospect = &document.adf().prospects[0];
    assert_eq!(prospect.status.as_deref(), Some("new"));
    assert_eq!(
        plain(&prospect.request_date.as_ref().unwrap().parts),
        "2026-05-17T12:00:00-04:00"
    );
    let vehicle = &prospect.vehicles[0];
    assert_eq!(plain(&vehicle.year.as_ref().unwrap().parts), "2024");
    assert_eq!(plain(&vehicle.make.as_ref().unwrap().parts), "Toyota");
    assert_eq!(plain(&vehicle.model.as_ref().unwrap().parts), "Camry");
    assert!(vehicle.vin.is_none());
    let contact = &prospect.customer.as_ref().unwrap().contacts[0];
    assert_eq!(contact.names[0].part.as_deref(), Some("full"));
    assert_eq!(plain(&contact.names[0].parts), "Jane Doe");
    assert_eq!(plain(&contact.emails[0].parts), "jane@example.com");
    let vendor = prospect.vendor.as_ref().unwrap();
    assert_eq!(plain(&vendor.vendor_name.as_ref().unwrap().parts), "Example Dealer");
    assert!(prospect.extensions.is_empty());
    assert!(document.adf().extensions.is_empty());
}

#[test]
fn empty_prospect_parses() {
    let document = parse("<adf><prospect /></adf>").unwrap();
    assert_eq!(document.adf().prospects.len(), 1);
    assert_eq!(document.adf().prospects[0].span, Span { start: 5, end: 17 });
}

#[test]
fn parsed_document_is_clean_and_keeps_its_text() {
    let document = parse(LEAD).unwrap();
    assert_eq!(document.original, LEAD);
    assert_eq!(document.parse_options, ParseOptions::default());
    assert!(document.dirty_prospects.is_empty());
    assert!(!document.dirty_all);
    assert!(document.raw_root.is_none());
}

#[test]
fn prospect_spans_are_the_bytes_of_the_prospects() {
    let input = "<adf> <prospect status='a'/><x/><prospect><id>1</id></prospect>\n</adf>";
    let document = parse(input).unwrap();
    assert_eq!(document.prospect_spans, vec![6..28, 32..63]);
    assert_eq!(&input[6..28], "<prospect status='a'/>");
    assert_eq!(&input[32..63], "<prospect><id>1</id></prospect>");
    for (prospect, span) in document.adf().prospects.iter().zip(&document.prospect_spans) {
        assert_eq!(prospect.span.start..prospect.span.end, *span);
    }
}

#[test]
fn spans_are_nested_and_ordered() {
    let root = parse_tree("<adf><a><b/>t<c>u</c></a><d/></adf>", &ParseOptions::default()).unwrap();
    assert_eq!(root.span, Span { start: 0, end: 35 });
    let XmlNode::Element(a) = &root.children[0] else { panic!("no element") };
    let XmlNode::Element(d) = &root.children[1] else { panic!("no element") };
    assert_eq!(a.span, Span { start: 5, end: 25 });
    assert_eq!(d.span, Span { start: 25, end: 29 });
    let XmlNode::Element(b) = &a.children[0] else { panic!("no element") };
    let XmlNode::Element(c) = &a.children[2] else { panic!("no element") };
    assert_eq!(b.span, Span { start: 8, end: 12 });
    assert_eq!(c.span, Span { start: 13, end: 21 });
}

#[test]
fn names_and_plain_values_are_borrowed() {
    let document = parse("<adf><prospect status='new' x='a&amp;b'>t</prospect></adf>").unwrap();
    let prospect = &document.adf().prospects[0];
    assert!(is_borrowed(prospect.status.as_ref().unwrap()));
    assert!(is_borrowed(&prospect.attributes[0].name));
    assert!(is_borrowed(&prospect.attributes[0].value));
    assert!(is_borrowed(&prospect.attributes[1].name));
    assert!(!is_borrowed(&prospect.attributes[1].value));
    assert_eq!(prospect.attributes[1].value, "a&b");
    let XmlNode::Text(text) = &prospect.extensions[0] else { panic!("no text") };
    assert!(is_borrowed(text));
}

#[test]
fn a_byte_order_mark_is_no_content() {
    let input = "\u{feff}<adf><prospect status='new'/></adf>";
    let document = parse(input).unwrap();
    let prospect = &document.adf().prospects[0];
    assert_eq!(prospect.status.as_deref(), Some("new"));
    assert!(is_borrowed(prospect.status.as_ref().unwrap()));
    assert_eq!(prospect.span, Span { start: 5, end: 29 });
    assert_eq!(&input[3..][5..29], "<prospect status='new'/>");
    assert!(document.prolog.is_empty());
}

#[test]
fn tree_keeps_every_node_in_document_order() {
    let input = "<?xml version='1.0'?>\n<!DOCTYPE adf><!--a--><adf p='1'>x<![CDATA[<y>]]>&foo;&lt;<?pi z?><b/></adf><!--c-->\n";
    let tree = parse_document_tree(input, &ParseOptions::default()).unwrap();
    assert_eq!(
        tree.prolog,
        vec![
            XmlNode::Declaration(Cow::Borrowed("xml version='1.0'")),
            XmlNode::Text(Cow::Borrowed("\n")),
            XmlNode::DocType(Cow::Borrowed("adf")),
            XmlNode::Comment(Cow::Borrowed("a")),
        ]
    );
    assert_eq!(tree.root.name, "adf");
    assert_eq!(tree.root.attributes.len(), 1);
    assert_eq!(tree.root.attributes[0].name, "p");
    assert_eq!(tree.root.attributes[0].value, "1");
    assert_eq!(tree.root.children.len(), 6);
    assert_eq!(tree.root.children[0], XmlNode::Text(Cow::Borrowed("x")));
    assert_eq!(tree.root.children[1], XmlNode::CData(Cow::Borrowed("<y>")));
    assert_eq!(tree.root.children[2], XmlNode::EntityRef(Cow::Borrowed("foo")));
    assert_eq!(tree.root.children[3], XmlNode::Text(Cow::Borrowed("<")));
    assert_eq!(
        tree.root.children[4],
        XmlNode::ProcessingInstruction(Cow::Borrowed("pi z"))
    );
    assert!(matches!(&tree.root.children[5], XmlNode::Element(b) if b.name == "b"));
    assert_eq!(
        tree.epilog,
        vec![XmlNode::Comment(Cow::Borrowed("c")), XmlNode::Text(Cow::Borrowed("\n"))]
    );
}

#[test]
fn line_ends_of_text_are_normalized() {
    let root = parse_tree("<adf>a\r\nb\rc\u{85}d\r\u{85}e\u{2028}f</adf>", &ParseOptions::default())
        .unwrap();
    assert_eq!(root.children, vec![XmlNode::Text(Cow::Borrowed("a\nb\nc\nd\ne\nf"))]);
}

#[test]
fn line_ends_of_cdata_are_kept() {
    let root = parse_tree("<adf><![CDATA[a\r\nb]]></adf>", &ParseOptions::default()).unwrap();
    assert_eq!(root.children, vec![XmlNode::CData(Cow::Borrowed("a\r\nb"))]);
}

#[test]
fn character_references_in_content_become_text() {
    let root = parse_tree("<adf>&#65;&#x1F600;</adf>", &ParseOptions::default()).unwrap();
    assert_eq!(
        root.children,
        vec![XmlNode::Text(Cow::Borrowed("A")), XmlNode::Text(Cow::Borrowed("\u{1F600}"))]
    );
}

#[test]
fn owned_bytes_and_borrowed_input_agree() {
    let options = ParseOptions::default();
    let borrowed = parse_with(LEAD, &options).unwrap();
    let owned = parse_owned(LEAD.to_owned(), &options).unwrap();
    let bytes = parse_bytes(LEAD.as_bytes(), &options).unwrap();
    assert_eq!(borrowed, owned);
    assert_eq!(borrowed, bytes);
    assert_eq!(borrowed, parse(LEAD).unwrap());
    assert!(!is_borrowed(&owned.original));
    assert!(!is_borrowed(owned.adf().prospects[0].status.as_ref().unwrap()));
}

#[test]
fn owned_document_outlives_its_input() {
    let adf = {
        let input = LEAD.to_owned();
        parse(&input).unwrap().into_owned().into_adf()
    };
    assert_eq!(adf, parse(LEAD).unwrap().into_adf());
}

#[test]
fn bytes_that_are_not_utf8_are_refused_where_they_begin() {
    let options = ParseOptions::default();
    let refused = parse_bytes(b"<adf>\xC3\xA9\xFF</adf>", &options);
    assert!(matches!(refused, Err(Error::Utf8 { position: 7, .. })));
    let refused = parse_bytes(b"<adf>\xE2\x82", &options);
    assert!(matches!(refused, Err(Error::Utf8 { position: 5, .. })));
    let refused = parse_bytes(b"\xFF", &options);
    assert!(matches!(refused, Err(Error::Utf8 { position: 0, .. })));
}

#[test]
fn length_is_checked_before_the_encoding() {
    let options = ParseOptions::default().max_input_len(3);
    assert!(matches!(
        parse_bytes(b"\xFF\xFF\xFF\xFF", &options),
        Err(Error::LimitExceeded { limit: ParseLimit::InputLength, maximum: 3, actual: 4, position: 0 })
    ));
}

#[test]
fn broken_markup_is_an_error_of_the_reader() {
    assert!(matches!(parse("<adf"), Err(Error::Xml { position: 0, .. })));
    assert!(matches!(parse("<adf></prospect>"), Err(Error::Xml { position: 0, .. })));
    assert!(matches!(parse("</adf>"), Err(Error::Xml { position: 0, .. })));
    assert!(matches!(parse("<adf>a & b</adf>"), Err(Error::Xml { position: 0, .. })));
}

#[test]
fn double_hyphen_in_a_comment_is_refused() {
    assert!(matches!(parse("<adf><!-- a--b --></adf>"), Err(Error::Xml { .. })));
    assert!(parse("<adf><!-- a-b --></adf>").is_ok());
}

#[test]
fn repeated_or_malformed_attributes_are_refused() {
    assert!(matches!(parse("<adf a='1' a='2'/>"), Err(Error::Attribute { position: 0, .. })));
    assert!(matches!(parse("<adf a=1/>"), Err(Error::Attribute { .. })));
    assert!(matches!(parse("<adf a/>"), Err(Error::Attribute { .. })));
}

#[test]
fn unclosed_element_is_refused() {
    match parse("<adf><prospect>") {
        Err(Error::UnexpectedEnd { name, position }) => {
            assert_eq!(name, "prospect");
            assert_eq!(position, 0);
        }
        other => panic!("{:?}", other),
    }
}

#[test]
fn missing_root_is_refused() {
    assert!(matches!(parse(""), Err(Error::MissingRoot)));
    assert!(matches!(parse(" <!-- nothing --> "), Err(Error::MissingRoot)));
}

#[test]
fn second_root_is_refused() {
    assert!(matches!(parse("<adf/><adf/>"), Err(Error::MultipleRoots)));
    assert!(matches!(parse("<adf></adf><adf></adf>"), Err(Error::MultipleRoots)));
}

#[test]
fn other_root_is_refused() {
    match parse("<!--x--><lead/>") {
        Err(Error::UnexpectedRoot { found, position }) => {
            assert_eq!(found, "lead");
            assert_eq!(position, 8);
        }
        other => panic!("{:?}", other),
    }
    assert!(parse_tree("<lead/>", &ParseOptions::default()).is_ok());
}

#[test]
fn content_outside_of_the_root_is_refused() {
    for input in [
        "x<adf/>",
        "<adf/>x",
        "<![CDATA[x]]><adf/>",
        "<adf/><![CDATA[ ]]>",
        "&lt;<adf/>",
        "<adf/>&foo;",
        "<adf/><!DOCTYPE adf>",
        "<adf/><?xml version='1.0'?>",
    ] {
        assert!(
            matches!(parse(input), Err(Error::ContentOutsideRoot { position: 0 })),
            "{}",
            input
        );
    }
    assert!(parse(" \t\r\n<adf/> \t\r\n").is_ok());
}

#[test]
fn other_encodings_are_refused() {
    match parse("<?xml version='1.0' encoding='ISO-8859-1'?><adf/>") {
        Err(Error::UnsupportedEncoding { encoding, position }) => {
            assert_eq!(encoding, "ISO-8859-1");
            assert_eq!(position, 0);
        }
        other => panic!("{:?}", other),
    }
    assert!(parse("<?xml version='1.0' encoding='UTF-8'?><adf/>").is_ok());
    assert!(parse("<?xml version='1.0' encoding=\"utf8\"?><adf/>").is_ok());
    assert!(parse("<?xml version='1.0'?><adf/>").is_ok());
}

#[test]
fn illegal_characters_are_refused() {
    for input in [
        "<adf>\u{1}</adf>",
        "<adf a='\u{1}'/>",
        "<adf><!--\u{1}--></adf>",
        "<adf><![CDATA[\u{1}]]></adf>",
        "<adf><?pi \u{1}?></adf>",
        "<!DOCTYPE \u{1}><adf/>",
        "<?xml \u{1}?><adf/>",
    ] {
        assert!(
            matches!(parse(input), Err(Error::IllegalCharacter { character: '\u{1}', position: 0 })),
            "{}",
            input
        );
    }
}

#[test]
fn invalid_references_are_refused() {
    match parse("<adf>&#x0;</adf>") {
        Err(Error::InvalidCharacterReference { reference, position }) => {
            assert_eq!(reference, "#x0");
            assert_eq!(position, 0);
        }
        other => panic!("{:?}", other),
    }
    match parse("<adf>&1a;</adf>") {
        Err(Error::InvalidEntityReference { reference, .. }) => assert_eq!(reference, "1a"),
        other => panic!("{:?}", other),
    }
    match parse("<adf a='&lt'/>") {
        Err(Error::InvalidEntityReference { reference, .. }) => assert_eq!(reference, "lt"),
        other => panic!("{:?}", other),
    }
    match parse("<adf a='&;'/>") {
        Err(Error::InvalidEntityReference { reference, .. }) => assert_eq!(reference, ""),
        other => panic!("{:?}", other),
    }
}

#[test]
fn any_bytes_give_a_document_or_an_error() {
    for data in [&b""[..], b"<", b"<adf>", b"<adf/>", b"\xEF\xBB\xBF", b"&", b"<adf a='&#x110000;'/>"] {
        if let Ok(document) = parse_bytes(data, &ParseOptions::default()) {
            let _ = document.into_owned().into_adf();
        }
    }
}

#[test]
fn parsing_asks_for_an_adf_root_only() {
    assert!(parse("<adf/>").is_ok());
    assert!(parse("<adf><anything><at/>all</anything></adf>").is_ok());
    assert!(parse("<ADF/>").is_err());
}
