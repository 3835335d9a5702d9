use adf::options::{
    read_bound, DEFAULT_MAX_ATTRIBUTES_PER_ELEMENT, DEFAULT_MAX_DEPTH, DEFAULT_MAX_DOCTYPE_LEN,
    DEFAULT_MAX_INPUT_LEN, DEFAULT_MAX_NODES,
};
use adf::{parse, parse_with, Error, ParseLimit, ParseOptions};

fn exceeded(input: &str, options: ParseOptions) -> (ParseLimit, usize, usize) {
    match parse_with(input, &options) {
        Err(Error::LimitExceeded { limit, maximum, actual, position }) => {
            assert_eq!(position, 0);
            (limit, maximum, actual)
        }
        other => panic!("{:?}", other),
    }
}

#[test]
fn defaults_are_as_documented() {
    let options = ParseOptions::default();
    assert!(!options.reject_doctype);
    assert_eq!(options.max_doctype_len, Some(4096));
    assert_eq!(options.max_input_len, Some(16 * 1024 * 1024));
    assert_eq!(options.max_depth, Some(128));
    assert_eq!(options.max_nodes, Some(100_000));
    assert_eq!(options.max_attributes_per_element, Some(256));
    assert_eq!(DEFAULT_MAX_DOCTYPE_LEN, 4096);
    assert_eq!(DEFAULT_MAX_INPUT_LEN, 16_777_216);
    assert_eq!(DEFAULT_MAX_DEPTH, 128);
    assert_eq!(DEFAULT_MAX_NODES, 100_000);
    assert_eq!(DEFAULT_MAX_ATTRIBUTES_PER_ELEMENT, 256);
}

#[test]
fn each_option_is_set_on_its_own() {
    let options = ParseOptions::default()
        .reject_doctype(true)
        .max_doctype_len(1)
        .max_input_len(2)
        .max_depth(3)
        .max_nodes(4)
        .max_attributes_per_element(5);
    assert!(options.reject_doctype);
    assert_eq!(options.max_doctype_len, Some(1));
    assert_eq!(options.max_input_len, Some(2));
    assert_eq!(options.max_depth, Some(3));
    assert_eq!(options.max_nodes, Some(4));
    assert_eq!(options.max_attributes_per_element, Some(5));
    let options = options
        .reject_doctype(false)
        .without_doctype_limit()
        .without_input_limit()
        .without_depth_limit()
        .without_node_limit()
        .without_attribute_limit();
    assert!(!options.reject_doctype);
    assert_eq!(options.max_doctype_len, None);
    assert_eq!(options.max_input_len, None);
    assert_eq!(options.max_depth, None);
    assert_eq!(options.max_nodes, None);
    assert_eq!(options.max_attributes_per_element, None);
}

#[test]
fn input_length_is_limited() {
    let options = ParseOptions::default();
    assert!(parse_with("<adf/>", &options.max_input_len(6)).is_ok());
    assert_eq!(
        exceeded("<adf/>", options.max_input_len(5)),
        (ParseLimit::InputLength, 5, 6)
    );
}

#[test]
fn depth_is_limited() {
    let options = ParseOptions::default();
    assert!(parse_with("<adf><a><b/></a></adf>", &options.max_depth(3)).is_ok());
    assert_eq!(exceeded("<adf><a><b/></a></adf>", options.max_depth(2)), (ParseLimit::Depth, 2, 3));
    assert_eq!(exceeded("<adf><a><b></b></a></adf>", options.max_depth(2)), (ParseLimit::Depth, 2, 3));
    assert!(parse_with("<adf><a/><a/><a/></adf>", &options.max_depth(2)).is_ok());
}

#[test]
fn default_depth_is_kept() {
    let deep = |n: usize| format!("<adf>{}{}</adf>", "<a>".repeat(n), "</a>".repeat(n));
    assert!(parse(&deep(127)).is_ok());
    assert_eq!(exceeded(&deep(128), ParseOptions::default()), (ParseLimit::Depth, 128, 129));
    assert!(parse_with(&deep(128), &ParseOptions::default().without_depth_limit()).is_ok());
}

#[test]
fn nodes_are_limited() {
    let options = ParseOptions::default();
    let input = "<!--c--><adf>t<a/></adf>";
    assert!(parse_with(input, &options.max_nodes(4)).is_ok());
    assert_eq!(exceeded(input, options.max_nodes(3)), (ParseLimit::Nodes, 3, 4));
    assert_eq!(exceeded(input, options.max_nodes(0)), (ParseLimit::Nodes, 0, 1));
}

#[test]
fn attributes_are_limited() {
    let options = ParseOptions::default();
    let input = "<adf a='1' b='2' c='3'><x d='4' e='5'/></adf>";
    assert!(parse_with(input, &options.max_attributes_per_element(3)).is_ok());
    assert_eq!(
        exceeded(input, options.max_attributes_per_element(2)),
        (ParseLimit::AttributesPerElement, 2, 3)
    );
}

#[test]
fn doctype_is_kept_by_default_and_can_be_refused() {
    let options = ParseOptions::default();
    assert!(parse("<!DOCTYPE adf><adf/>").is_ok());
    assert!(matches!(
        parse_with("<!DOCTYPE adf><adf/>", &options.reject_doctype(true)),
        Err(Error::DocTypeForbidden { position: 0 })
    ));
}

#[test]
fn doctype_length_is_limited_in_bytes() {
    let options = ParseOptions::default();
    let input = "<!DOCTYPE \u{e9}df><adf/>";
    assert!(parse_with(input, &options.max_doctype_len(4)).is_ok());
    assert!(matches!(
        parse_with(input, &options.max_doctype_len(3)),
        Err(Error::DocTypeTooLong { length: 4, limit: 3, position: 0 })
    ));
    let long = format!("<!DOCTYPE {}><adf/>", "a".repeat(4097));
    assert!(matches!(
        parse(&long),
        Err(Error::DocTypeTooLong { length: 4097, limit: 4096, .. })
    ));
    assert!(parse_with(&long, &options.without_doctype_limit()).is_ok());
}

#[test]
fn looser_options_give_the_same_document() {
    let input = "<adf a='1'><prospect><id>1</id></prospect></adf>";
    let strict = ParseOptions::default().max_depth(3).max_nodes(4).max_attributes_per_element(1);
    let loose = ParseOptions::default().without_depth_limit().without_node_limit();
    let a = parse_with(input, &strict).unwrap();
    let b = parse_with(input, &loose).unwrap();
    assert_eq!(a.adf(), b.adf());
    assert_eq!(a.prospect_spans, b.prospect_spans);
    assert_eq!(a.parse_options, strict);
    assert_eq!(b.parse_options, loose);
}

#[test]
fn reads_stop_one_byte_behind_the_limit() {
    assert_eq!(read_bound(&ParseOptions::default().max_input_len(10)), 11);
    assert_eq!(read_bound(&ParseOptions::default().max_input_len(usize::MAX)), usize::MAX as u64);
    assert_eq!(read_bound(&ParseOptions::default().without_input_limit()), u64::MAX);
}
