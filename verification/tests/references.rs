use adf::declaration::ensure_utf8_declaration;
use adf::lexical::{
    decode_character_reference, decode_entities_preserving_unknown, ensure_entity_name,
    ensure_xml_chars, is_xml_char, is_xml_name, is_xml_name_char, is_xml_name_start_char,
    is_xml_whitespace, resolve_standard_entity,
};
use adf::text::push_decimal;
use adf::tree::{general_ref_node, is_blank, name_from_bytes, validated_name_payload};
use adf::{parse_bytes, Error, ParseOptions, XmlNode};
use std::borrow::Cow;

fn decoded(value: &str) -> String {
    decode_entities_preserving_unknown(value, 0).unwrap().into_owned()
}

fn reference(entity: &str) -> Option<String> {
    match decode_character_reference(Cow::Borrowed(entity), 9) {
        Ok(value) => Some(value.into_owned()),
        Err(Error::InvalidCharacterReference { reference, position }) => {
            assert_eq!(reference, entity);
            assert_eq!(position, 9);
            None
        }
        Err(other) => panic!("{:?}", other),
    }
}

#[test]
fn predefined_entities_are_resolved() {
    assert_eq!(resolve_standard_entity("amp"), Some("&"));
    assert_eq!(resolve_standard_entity("lt"), Some("<"));
    assert_eq!(resolve_standard_entity("gt"), Some(">"));
    assert_eq!(resolve_standard_entity("quot"), Some("\""));
    assert_eq!(resolve_standard_entity("apos"), Some("'"));
    assert_eq!(resolve_standard_entity("nbsp"), None);
    assert_eq!(resolve_standard_entity("AMP"), None);
    assert_eq!(resolve_standard_entity(""), None);
}

#[test]
fn attribute_values_are_decoded_from_left_to_right() {
    assert_eq!(decoded("plain"), "plain");
    assert_eq!(decoded(""), "");
    assert_eq!(decoded("a &lt; b &amp;&amp; c &gt; d"), "a < b && c > d");
    assert_eq!(decoded("&amp;lt;"), "&lt;");
    assert_eq!(decoded("&#72;&#x69;!"), "Hi!");
    assert_eq!(decoded("\u{e9}&quot;\u{e9}"), "\u{e9}\"\u{e9}");
}

#[test]
fn values_without_references_are_borrowed() {
    let value = "no reference";
    assert!(matches!(
        decode_entities_preserving_unknown(value, 0),
        Ok(Cow::Borrowed(v)) if v == value
    ));
    assert!(matches!(decode_entities_preserving_unknown("&lt;", 0), Ok(Cow::Owned(_))));
}

#[test]
fn decoding_joined_values_joins_the_decoded_values() {
    for a in ["", "x", "&lt;", "a&amp;b", "&foo;"] {
        for b in ["", "y", "&#65;", "&gt;c", ";&bar;"] {
            assert_eq!(decoded(&format!("{}{}", a, b)), format!("{}{}", decoded(a), decoded(b)));
        }
    }
}

#[test]
fn a_value_is_owned_if_it_has_an_ampersand() {
    for value in ["&lt;", "a&foo;b", "&#65;"] {
        assert!(matches!(decode_entities_preserving_unknown(value, 0), Ok(Cow::Owned(_))));
    }
    assert!(matches!(decode_entities_preserving_unknown("a;b", 0), Ok(Cow::Borrowed("a;b"))));
}

#[test]
fn unknown_references_are_kept() {
    assert_eq!(decoded("&foo;"), "&foo;");
    assert_eq!(decoded("a&nbsp;b&amp;c"), "a&nbsp;b&c");
    assert_eq!(decoded("&x:y.z-1;"), "&x:y.z-1;");
}

#[test]
fn broken_references_are_refused() {
    for (value, expected) in [("a&b", "b"), ("a&", ""), ("a&;b", ""), ("&a b;", "a b"), ("&-;", "-")] {
        match decode_entities_preserving_unknown(value, 4) {
            Err(Error::InvalidEntityReference { reference, position }) => {
                assert_eq!(reference, expected);
                assert_eq!(position, 4);
            }
            other => panic!("{:?}", other),
        }
    }
}

#[test]
fn character_references_are_decimal_or_hexadecimal() {
    assert_eq!(reference("#65").as_deref(), Some("A"));
    assert_eq!(reference("#x41").as_deref(), Some("A"));
    assert_eq!(reference("#X4a").as_deref(), Some("J"));
    assert_eq!(reference("#x4A").as_deref(), Some("J"));
    assert_eq!(reference("#0065").as_deref(), Some("A"));
    assert_eq!(reference("#+65").as_deref(), Some("A"));
    assert_eq!(reference("#x10FFFF").as_deref(), Some("\u{10FFFF}"));
    assert_eq!(reference("#9").as_deref(), Some("\t"));
}

#[test]
fn character_references_that_name_no_character_are_refused() {
    for entity in [
        "#", "#x", "#+", "#-1", "#65a", "#xG", "# 65", "#4294967296", "#99999999999999999999",
        "#x110000", "#xD800", "#xFFFE", "#0", "#8", "#x1F",
    ] {
        assert_eq!(reference(entity), None, "{}", entity);
    }
}

#[test]
fn every_legal_character_can_be_named_by_its_number() {
    for ch in ['\t', 'a', '&', '\u{d7ff}', '\u{e000}', '\u{fffd}', '\u{10000}', '\u{10ffff}'] {
        let mut entity = String::from("#");
        push_decimal(&mut entity, ch as usize);
        assert_eq!(reference(&entity), Some(ch.to_string()));
    }
}

#[test]
fn other_references_are_kept_by_the_character_decoder() {
    assert_eq!(reference("foo").as_deref(), Some("&foo;"));
    assert_eq!(reference("").as_deref(), Some("&;"));
}

#[test]
fn references_in_content_become_nodes() {
    assert_eq!(
        general_ref_node(Cow::Borrowed("gt"), 0).unwrap(),
        XmlNode::Text(Cow::Borrowed(">"))
    );
    assert_eq!(
        general_ref_node(Cow::Borrowed("#x42"), 0).unwrap(),
        XmlNode::Text(Cow::Borrowed("B"))
    );
    assert_eq!(
        general_ref_node(Cow::Borrowed("foo"), 0).unwrap(),
        XmlNode::EntityRef(Cow::Borrowed("foo"))
    );
    assert!(matches!(
        general_ref_node(Cow::Borrowed("#"), 2),
        Err(Error::InvalidCharacterReference { position: 2, .. })
    ));
    assert!(matches!(
        general_ref_node(Cow::Borrowed("a b"), 2),
        Err(Error::InvalidEntityReference { position: 2, .. })
    ));
    assert!(matches!(
        general_ref_node(Cow::Borrowed(""), 2),
        Err(Error::InvalidEntityReference { position: 2, .. })
    ));
}

#[test]
fn characters_of_xml() {
    for ch in ['\t', '\n', '\r', ' ', '\u{7f}', '\u{d7ff}', '\u{e000}', '\u{fffd}', '\u{10ffff}'] {
        assert!(is_xml_char(ch));
    }
    for ch in ['\0', '\u{8}', '\u{b}', '\u{c}', '\u{e}', '\u{1f}', '\u{fffe}', '\u{ffff}'] {
        assert!(!is_xml_char(ch));
    }
    for byte in [b' ', b'\t', b'\r', b'\n'] {
        assert!(is_xml_whitespace(byte));
    }
    assert!(!is_xml_whitespace(0x0b));
    assert!(!is_xml_whitespace(0xa0));
}

#[test]
fn names_of_xml() {
    for name in ["a", "_", ":", "adf", "a-b.c", "a1", "\u{e9}t\u{e9}", "a\u{b7}", "\u{10000}"] {
        assert!(is_xml_name(name), "{}", name);
        assert!(ensure_entity_name(name, 0).is_ok());
    }
    for name in ["", "1a", "-a", ".a", "a b", "a;", "\u{d7}", "a\u{f7}", "\u{b7}"] {
        assert!(!is_xml_name(name), "{}", name);
        match ensure_entity_name(name, 3) {
            Err(Error::InvalidEntityReference { reference, position }) => {
                assert_eq!(reference, name);
                assert_eq!(position, 3);
            }
            other => panic!("{:?}", other),
        }
    }
    assert!(is_xml_name_start_char('\u{efff}') == false);
    assert!(is_xml_name_start_char('\u{effff}'));
    assert!(!is_xml_name_start_char('\u{f0000}'));
    assert!(!is_xml_name_start_char('5'));
    assert!(is_xml_name_char('5'));
    assert!(is_xml_name_char('\u{203f}'));
}

#[test]
fn the_first_illegal_character_is_named() {
    assert!(ensure_xml_chars("all fine", 0).is_ok());
    assert!(matches!(
        ensure_xml_chars("a\u{2}b\u{1}", 6),
        Err(Error::IllegalCharacter { character: '\u{2}', position: 6 })
    ));
}

#[test]
fn blank_text_is_white_space_of_xml() {
    assert!(is_blank(""));
    assert!(is_blank(" \t\r\n"));
    assert!(!is_blank(" x "));
    assert!(!is_blank("\u{a0}"));
}

#[test]
fn declared_encodings() {
    for declaration in [
        "xml version='1.0'",
        "xml encoding='utf-8'",
        "xml encoding = \"UTF-8\"",
        "xml ENCODING='Utf8'",
        "xml encoding",
        "xml encoding utf-16",
        "xml encoding=utf-16",
        "xml encoding=",
        "xml encoding\u{a0}=\u{2003}'utf8'",
    ] {
        assert!(ensure_utf8_declaration(declaration, 0).is_ok(), "{}", declaration);
    }
    for (declaration, expected) in [
        ("xml encoding='latin1'", "latin1"),
        ("xml encoding=\"UTF-16\" standalone='yes'", "UTF-16"),
        ("xml encoding=''", ""),
        ("xml encoding='utf-16", "utf-16"),
        ("xml encoding=' utf-8'", " utf-8"),
    ] {
        match ensure_utf8_declaration(declaration, 5) {
            Err(Error::UnsupportedEncoding { encoding, position }) => {
                assert_eq!(encoding, expected);
                assert_eq!(position, 5);
            }
            other => panic!("{:?}", other),
        }
    }
}

#[test]
fn payloads_are_utf8_and_legal() {
    assert_eq!(validated_name_payload(b"pi data", 0).unwrap(), "pi data");
    assert!(matches!(validated_name_payload(b"a\xFF", 7), Err(Error::Utf8 { position: 7, .. })));
    assert!(matches!(
        validated_name_payload(b"a\x01", 7),
        Err(Error::IllegalCharacter { character: '\u{1}', position: 7 })
    ));
    assert_eq!(name_from_bytes(b"n", 0).unwrap(), "n");
    assert!(name_from_bytes(b"\x80", 0).is_err());
}

#[test]
fn errors_tell_how_much_is_valid() {
    for (bytes, expected) in [
        (&b"a\xC3"[..], 1),
        (b"a\xC3\xA9\x80b", 3),
        (b"\xF0\x9F\x98\x80\xED\xA0\x80", 4),
        (b"\xC0\x80", 0),
        (b"x\xE2\x82\xAC\xE2\x82", 4),
        (b"\xF4\x90\x80\x80", 0),
    ] {
        match parse_bytes(bytes, &ParseOptions::default()) {
            Err(Error::Utf8 { position, source }) => {
                assert_eq!(position, expected as u64);
                assert_eq!(source.valid_up_to(), expected);
            }
            other => panic!("{:?}", other),
        }
        match name_from_bytes(bytes, 2) {
            Err(Error::Utf8 { position, source }) => {
                assert_eq!(position, 2);
                assert_eq!(source.valid_up_to(), expected);
            }
            other => panic!("{:?}", other),
        }
    }
}

#[test]
fn decimal_notation() {
    let mut text = String::from("n=");
    push_decimal(&mut text, 0);
    push_decimal(&mut text, 10);
    push_decimal(&mut text, 987);
    assert_eq!(text, "n=010987");
}
