use adf::builder::{node_from_event, parse_document_tree, TreeBuilder};
use adf::reader::XmlEvent;
use adf::tree::{
    append_element, append_node, borrowed_from_input, check_limit, element_from_start,
    is_document_misc, record_node,
};
use adf::{parse, Error, ParseLimit, ParseOptions, Span, TextPart, XmlElement, XmlNode};
use quick_xml::encoding::Decoder;
use quick_xml::events::{BytesStart, Event};
use quick_xml::Reader;
use std::borrow::Cow;

fn decoder() -> Decoder {
    Reader::from_str("").decoder()
}

fn empty_element(name: &'static str) -> XmlElement<'static> {
    XmlElement {
        name: Cow::Borrowed(name),
        attributes: Vec::new(),
        children: Vec::new(),
        span: Span { start: 0, end: 0 },
    }
}

fn accept(builder: &mut TreeBuilder<'static>, event: XmlEvent<'static>) -> Result<(), Error> {
    builder.accept("", event, decoder(), &ParseOptions::default(), 8, 10, 20)
}

#[test]
fn a_tree_is_built_event_by_event() {
    let mut builder = TreeBuilder::new();
    accept(&mut builder, XmlEvent::Start(BytesStart::from_content("adf a='1'", 3))).unwrap();
    assert_eq!(builder.stack.len(), 1);
    accept(&mut builder, XmlEvent::Empty(BytesStart::new("x"))).unwrap();
    accept(&mut builder, XmlEvent::Text(Cow::Borrowed(b"t"))).unwrap();
    accept(&mut builder, XmlEvent::End(b"adf".to_vec())).unwrap();
    accept(&mut builder, XmlEvent::Comment(Cow::Borrowed(b"c"))).unwrap();
    accept(&mut builder, XmlEvent::Eof).unwrap();
    assert_eq!(builder.node_count, 4);
    let tree = builder.finish(0).unwrap();
    assert_eq!(tree.root.name, "adf");
    assert_eq!(tree.root.attributes[0].value, "1");
    assert_eq!(tree.root.span, Span { start: 10, end: 20 });
    assert_eq!(tree.root.children.len(), 2);
    assert!(tree.prolog.is_empty());
    assert_eq!(tree.epilog, vec![XmlNode::Comment(Cow::Borrowed("c"))]);
}

#[test]
fn end_tags_must_match() {
    let mut builder = TreeBuilder::new();
    match accept(&mut builder, XmlEvent::End(b"adf".to_vec())) {
        Err(Error::UnexpectedEnd { name, position }) => {
            assert_eq!(name, "adf");
            assert_eq!(position, 8);
        }
        other => panic!("{:?}", other),
    }
    accept(&mut builder, XmlEvent::Start(BytesStart::new("adf"))).unwrap();
    match accept(&mut builder, XmlEvent::End(b"prospect".to_vec())) {
        Err(Error::MismatchedEnd { expected, found, position }) => {
            assert_eq!(expected, "adf");
            assert_eq!(found, "prospect");
            assert_eq!(position, 8);
        }
        other => panic!("{:?}", other),
    }
}

#[test]
fn an_open_element_cannot_be_finished() {
    let mut builder = TreeBuilder::new();
    accept(&mut builder, XmlEvent::Start(BytesStart::new("adf"))).unwrap();
    match builder.finish(4) {
        Err(Error::UnexpectedEnd { name, position }) => {
            assert_eq!(name, "adf");
            assert_eq!(position, 4);
        }
        other => panic!("{:?}", other),
    }
    assert!(matches!(TreeBuilder::new().finish(0), Err(Error::MissingRoot)));
}

#[test]
fn bytes_of_events_must_be_utf8() {
    let options = ParseOptions::default();
    for event in [
        XmlEvent::Text(Cow::Borrowed(&b"\xFF"[..])),
        XmlEvent::CData(Cow::Borrowed(b"\xFF")),
        XmlEvent::Comment(Cow::Owned(b"\xFF".to_vec())),
        XmlEvent::DocType(Cow::Borrowed(b"\xFF")),
        XmlEvent::GeneralRef(Cow::Borrowed(b"\xFF")),
    ] {
        assert!(matches!(
            node_from_event(event, true, decoder(), &options, 3),
            Err(Error::Encoding { position: 3, .. })
        ));
    }
    for event in [XmlEvent::PI(Cow::Borrowed(&b"\xFF"[..])), XmlEvent::Decl(b"\xFF".to_vec())] {
        assert!(matches!(
            node_from_event(event, true, decoder(), &options, 3),
            Err(Error::Utf8 { position: 3, .. })
        ));
    }
}

#[test]
fn owned_event_bytes_are_decoded_too() {
    let node = node_from_event(
        XmlEvent::Text(Cow::Owned(b"a\r\nb".to_vec())),
        true,
        decoder(),
        &ParseOptions::default(),
        0,
    );
    assert_eq!(node.unwrap(), XmlNode::Text(Cow::Borrowed("a\nb")));
}

#[test]
fn limits_are_inclusive() {
    assert!(check_limit(None, usize::MAX, ParseLimit::Nodes, 0).is_ok());
    assert!(check_limit(Some(3), 3, ParseLimit::Nodes, 0).is_ok());
    assert!(matches!(
        check_limit(Some(3), 4, ParseLimit::Depth, 6),
        Err(Error::LimitExceeded { limit: ParseLimit::Depth, maximum: 3, actual: 4, position: 6 })
    ));
}

#[test]
fn the_count_of_nodes_saturates() {
    let mut count = usize::MAX - 1;
    let options = ParseOptions::default().without_node_limit();
    record_node(&mut count, &options, 0).unwrap();
    assert_eq!(count, usize::MAX);
    record_node(&mut count, &options, 0).unwrap();
    assert_eq!(count, usize::MAX);
}

#[test]
fn parts_of_the_input_are_found_by_their_offset() {
    assert_eq!(borrowed_from_input("<adf a='1'>", 1, b"adf"), Some("adf"));
    assert_eq!(borrowed_from_input("<adf a='1'>", 2, b"adf"), None);
    assert_eq!(borrowed_from_input("<adf", 1, b"adf "), None);
    assert_eq!(borrowed_from_input("adf", 9, b""), None);
    assert_eq!(borrowed_from_input("\u{e9}", 1, b"\xA9"), None);
}

#[test]
fn elements_borrow_from_the_input_where_they_stand_there() {
    let options = ParseOptions::default();
    let input = "  <tag key='value' other='a&lt;b'/>";
    let tag = BytesStart::from_content(&input[3..33], 3);
    let element = element_from_start(input, &tag, decoder(), &options, 0, 2, 35).unwrap();
    assert!(matches!(element.name, Cow::Borrowed("tag")));
    assert!(matches!(element.attributes[0].name, Cow::Borrowed("key")));
    assert!(matches!(element.attributes[0].value, Cow::Borrowed("value")));
    assert!(matches!(&element.attributes[1].value, Cow::Owned(value) if value == "a<b"));
    assert_eq!(element.span, Span { start: 2, end: 35 });
    let elsewhere = element_from_start(input, &tag, decoder(), &options, 0, 0, 35).unwrap();
    assert!(matches!(elsewhere.name, Cow::Owned(_)));
    assert_eq!(elsewhere.attributes, element.attributes);
}

fn tag_error(document: &[u8]) -> Error {
    let tag = match Reader::from_reader(document).read_event() {
        Ok(Event::Start(tag)) => tag,
        other => panic!("{:?}", other),
    };
    element_from_start("", &tag, decoder(), &ParseOptions::default(), 6, 0, 9).unwrap_err()
}

#[test]
fn each_part_of_a_tag_is_checked_in_its_turn() {
    assert!(matches!(tag_error(b"<\xFF a='\xFF'>"), Error::Utf8 { position: 6, .. }));
    assert!(matches!(tag_error(b"<a \xFF='1'>"), Error::Utf8 { position: 6, .. }));
    assert!(matches!(tag_error(b"<a b='\xFF'>"), Error::Encoding { position: 6, .. }));
    assert!(matches!(tag_error(b"<a b=1 c='\xFF'>"), Error::Attribute { position: 6, .. }));
    assert!(matches!(tag_error(b"<a b='\xFF' c=1>"), Error::Encoding { position: 6, .. }));
}

#[test]
fn a_refused_node_changes_nothing() {
    let mut stack = Vec::new();
    let mut root = Some(empty_element("a"));
    assert!(append_element(&mut stack, &mut root, empty_element("b")).is_err());
    assert_eq!(root, Some(empty_element("a")));
    assert!(stack.is_empty());
    let mut prolog = vec![XmlNode::Comment(Cow::Borrowed("p"))];
    let mut epilog = vec![XmlNode::Comment(Cow::Borrowed("e"))];
    let refused = XmlNode::Text(Cow::Borrowed("t"));
    assert!(append_node(&mut stack, true, &mut prolog, &mut epilog, refused, 0).is_err());
    assert!(stack.is_empty());
    assert_eq!(prolog, vec![XmlNode::Comment(Cow::Borrowed("p"))]);
    assert_eq!(epilog, vec![XmlNode::Comment(Cow::Borrowed("e"))]);
}

#[test]
fn nodes_borrow_what_they_can() {
    let borrowed = |input: &'static str| -> Vec<bool> {
        let tree = parse_document_tree(input, &ParseOptions::default()).unwrap();
        tree.root
            .children
            .iter()
            .map(|node| match node {
                XmlNode::Text(text)
                | XmlNode::CData(text)
                | XmlNode::Comment(text)
                | XmlNode::ProcessingInstruction(text)
                | XmlNode::Declaration(text)
                | XmlNode::DocType(text)
                | XmlNode::EntityRef(text) => matches!(text, Cow::Borrowed(_)),
                XmlNode::Element(element) => matches!(element.name, Cow::Borrowed(_)),
            })
            .collect()
    };
    assert_eq!(borrowed("<adf>a\nb<![CDATA[c\r\n]]><!--d-->&foo;&lt;<e/></adf>"), vec![true; 6]);
    assert_eq!(borrowed("<adf>a\r\nb</adf>"), vec![false]);
    assert_eq!(borrowed("<adf>&#65;</adf>"), vec![false]);
    assert_eq!(borrowed("<adf><?pi x?></adf>"), vec![false]);
    assert_eq!(borrowed("<adf>\u{e9}</adf>"), vec![true]);
}

#[test]
fn nodes_go_into_the_innermost_open_element() {
    let mut stack = vec![empty_element("a"), empty_element("b")];
    let mut root = None;
    append_element(&mut stack, &mut root, empty_element("c")).unwrap();
    assert_eq!(stack[1].children, vec![XmlNode::Element(empty_element("c"))]);
    assert!(stack[0].children.is_empty());
    assert!(root.is_none());
    let (mut prolog, mut epilog) = (Vec::new(), Vec::new());
    let text = || XmlNode::Text(Cow::Borrowed("t"));
    append_node(&mut stack, false, &mut prolog, &mut epilog, text(), 0).unwrap();
    assert_eq!(stack[1].children.len(), 2);
    assert!(prolog.is_empty() && epilog.is_empty());
}

#[test]
fn nodes_outside_of_the_root_go_before_or_behind_it() {
    let mut stack = Vec::new();
    let mut root = None;
    append_element(&mut stack, &mut root, empty_element("a")).unwrap();
    assert_eq!(root, Some(empty_element("a")));
    assert!(matches!(
        append_element(&mut stack, &mut root, empty_element("b")),
        Err(Error::MultipleRoots)
    ));
    let (mut prolog, mut epilog) = (Vec::new(), Vec::new());
    let blank = || XmlNode::Text(Cow::Borrowed(" "));
    append_node(&mut stack, false, &mut prolog, &mut epilog, blank(), 0).unwrap();
    assert_eq!((prolog.len(), epilog.len()), (1, 0));
    append_node(&mut stack, true, &mut prolog, &mut epilog, blank(), 0).unwrap();
    assert_eq!((prolog.len(), epilog.len()), (1, 1));
    assert!(matches!(
        append_node(&mut stack, true, &mut prolog, &mut epilog, XmlNode::CData(Cow::Borrowed(" ")), 5),
        Err(Error::ContentOutsideRoot { position: 5 })
    ));
}

#[test]
fn what_may_stand_outside_of_the_root() {
    let some = || Cow::Borrowed("x");
    assert!(is_document_misc(&XmlNode::Comment(some()), true));
    assert!(is_document_misc(&XmlNode::ProcessingInstruction(some()), true));
    assert!(is_document_misc(&XmlNode::Declaration(some()), false));
    assert!(!is_document_misc(&XmlNode::Declaration(some()), true));
    assert!(is_document_misc(&XmlNode::DocType(some()), false));
    assert!(!is_document_misc(&XmlNode::DocType(some()), true));
    assert!(!is_document_misc(&XmlNode::Text(some()), false));
    assert!(!is_document_misc(&XmlNode::CData(some()), false));
    assert!(!is_document_misc(&XmlNode::EntityRef(some()), false));
    assert!(!is_document_misc(&XmlNode::Element(empty_element("x")), false));
}

fn count_in_nodes(nodes: &[XmlNode<'_>], wanted: &str) -> usize {
    let mut found = 0;
    for node in nodes {
        match node {
            XmlNode::Element(element) => found += count_in_nodes(&element.children, wanted),
            XmlNode::Text(value) | XmlNode::Comment(value) => {
                if value == wanted {
                    found += 1;
                }
            }
            _ => {}
        }
    }
    found
}

fn count_in_parts(parts: &[TextPart<'_>], wanted: &str) -> usize {
    let mut found = 0;
    for part in parts {
        match part {
            TextPart::Text(value) if value == wanted => found += 1,
            TextPart::Node(node) => found += count_in_nodes(std::slice::from_ref(node), wanted),
            _ => {}
        }
    }
    found
}

#[test]
fn the_model_holds_every_text_as_often_as_the_document() {
    let input = "<!--k--><adf> <x>k</x><prospect>k<id>k<b>k</b></id><id>k</id> \
        <vendor><url>k</url></vendor><vendor><url>k</url></vendor></prospect><!--k--></adf><!--k-->";
    let document = parse(input).unwrap();
    let adf = document.adf();
    let prospect = &adf.prospects[0];
    let mut found = count_in_nodes(&document.prolog, "k");
    found += count_in_nodes(&document.epilog, "k");
    found += count_in_nodes(&adf.extensions, "k");
    found += count_in_nodes(&prospect.extensions, "k");
    for id in &prospect.ids {
        found += count_in_parts(&id.parts, "k");
    }
    let url = prospect.vendor.as_ref().unwrap().url.as_ref().unwrap();
    found += count_in_parts(&url.parts, "k");
    assert_eq!(found, 10);
}
