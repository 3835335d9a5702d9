//! The XML tree that a document is parsed into.

use crate::model::{Adf, AdfView};
use crate::options::ParseOptions;
use crate::validate::{validate, ValidationReport};
use crate::{model, text, validate};
use std::borrow::Cow;
use std::ops::Range;
use vstd::prelude::*;

verus! {

/// Byte range of an element, as counted by the XML reader: a byte order mark at the
/// beginning of the text is left out.
#[derive(Debug, Clone, Copy, PartialEq, Eq, Structural)]
pub struct Span {
    pub start: usize,
    pub end: usize,
}

impl Default for Span {
    /// No bytes at all.
    fn default() -> (r: Self)
        ensures
            r == (Span { start: 0, end: 0 }),
    {
        Span { start: 0, end: 0 }
    }
}

#[derive(Debug, PartialEq, Eq)]
pub struct Attribute<'a> {
    pub name: Cow<'a, str>,
    pub value: Cow<'a, str>,
}

#[derive(Debug, PartialEq, Eq)]
pub struct XmlElement<'a> {
    pub name: Cow<'a, str>,
    pub attributes: Vec<Attribute<'a>>,
    pub children: Vec<XmlNode<'a>>,
    pub span: Span,
}

#[derive(Debug, PartialEq, Eq)]
pub enum XmlNode<'a> {
    Element(XmlElement<'a>),
    Text(Cow<'a, str>),
    CData(Cow<'a, str>),
    Comment(Cow<'a, str>),
    ProcessingInstruction(Cow<'a, str>),
    Declaration(Cow<'a, str>),
    DocType(Cow<'a, str>),
    EntityRef(Cow<'a, str>),
}

#[verifier::ext_equal]
pub struct AttributeView {
    pub name: Seq<char>,
    pub value: Seq<char>,
}

#[verifier::ext_equal]
pub struct ElementView {
    pub name: Seq<char>,
    pub attributes: Seq<AttributeView>,
    pub children: Seq<NodeView>,
    pub span: Span,
}

#[verifier::ext_equal]
pub enum NodeView {
    Element(ElementView),
    Text(Seq<char>),
    CData(Seq<char>),
    Comment(Seq<char>),
    ProcessingInstruction(Seq<char>),
    Declaration(Seq<char>),
    DocType(Seq<char>),
    EntityRef(Seq<char>),
}

impl<'a> View for Attribute<'a> {
    type V = AttributeView;

    open spec fn view(&self) -> AttributeView {
        AttributeView { name: self.name@, value: self.value@ }
    }
}

pub open spec fn views<T: View>(s: Seq<T>) -> Seq<T::V> {
    s.map_values(|x: T| x@)
}

pub broadcast proof fn lemma_views_push<T: View>(s: Seq<T>, x: T)
    ensures
        #[trigger] views(s.push(x)) == views(s).push(x@),
{
    assert(views(s.push(x)) =~= views(s).push(x@));
}

/// One more of the items of a sequence.
pub proof fn lemma_take_next<T>(s: Seq<T>, i: int)
    requires
        0 <= i < s.len(),
    ensures
        s.take(i + 1) == s.take(i).push(s[i]),
{
    assert(s.take(i + 1) =~= s.take(i).push(s[i]));
}

impl<'a> XmlElement<'a> {
    pub open spec fn model(self) -> ElementView
        decreases self,
    {
        ElementView {
            name: self.name@,
            attributes: views(self.attributes@),
            children: nodes_model(self.children@),
            span: self.span,
        }
    }
}

/// The model of a sequence of nodes.
pub open spec fn nodes_model<'a>(nodes: Seq<XmlNode<'a>>) -> Seq<NodeView>
    decreases nodes,
{
    Seq::new(
        nodes.len(),
        |i: int|
            if 0 <= i < nodes.len() {
                nodes[i].model()
            } else {
                arbitrary()
            },
    )
}

impl<'a> XmlNode<'a> {
    pub open spec fn model(self) -> NodeView
        decreases self,
    {
        match self {
            XmlNode::Element(e) => NodeView::Element(e.model()),
            XmlNode::Text(t) => NodeView::Text(t@),
            XmlNode::CData(t) => NodeView::CData(t@),
            XmlNode::Comment(t) => NodeView::Comment(t@),
            XmlNode::ProcessingInstruction(t) => NodeView::ProcessingInstruction(t@),
            XmlNode::Declaration(t) => NodeView::Declaration(t@),
            XmlNode::DocType(t) => NodeView::DocType(t@),
            XmlNode::EntityRef(t) => NodeView::EntityRef(t@),
        }
    }
}

impl<'a> View for XmlElement<'a> {
    type V = ElementView;

    open spec fn view(&self) -> ElementView {
        self.model()
    }
}

impl<'a> View for XmlNode<'a> {
    type V = NodeView;

    open spec fn view(&self) -> NodeView {
        self.model()
    }
}

/// The model of a sequence of nodes holds the model of each.
pub broadcast proof fn lemma_nodes_model<'a>(nodes: Seq<XmlNode<'a>>)
    ensures
        #[trigger] nodes_model(nodes) == views(nodes),
{
    assert(nodes_model(nodes) =~= views(nodes));
}

impl<'a> Attribute<'a> {
    /// The same attribute, which borrows nothing.
    pub fn into_owned(self) -> (r: Attribute<'static>)
        ensures
            r@ == self@,
    {
        Attribute {
            name: text::text_into_owned(self.name),
            value: text::text_into_owned(self.value),
        }
    }
}

/// The same attributes, which borrow nothing.
pub fn attributes_into_owned(attributes: Vec<Attribute<'_>>) -> (r: Vec<Attribute<'static>>)
    ensures
        views(r@) == views(attributes@),
{
    let ghost all = attributes@;
    let mut owned: Vec<Attribute<'static>> = Vec::new();
    for attribute in it: attributes
        invariant
            it.seq() == all,
            views(owned@) == views(all.take(it.index() as int)),
    {
        proof {
            lemma_take_next(all, it.index() as int);
            broadcast use lemma_views_push;
        }
        owned.push(attribute.into_owned());
    }
    assert(all.take(all.len() as int) =~= all);
    owned
}

impl<'a> XmlElement<'a> {
    /// The same element, which borrows nothing.
    pub fn into_owned(self) -> (r: XmlElement<'static>)
        ensures
            r@ == self@,
        decreases self,
    {
        let ghost whole = self;
        let XmlElement { name, attributes, children, span } = self;
        let ghost all = children@;
        let mut owned: Vec<XmlNode<'static>> = Vec::new();
        for child in it: children
            invariant
                it.seq() == all,
                whole == self,
                all == whole.children@,
                views(owned@) == views(all.take(it.index() as int)),
        {
            proof {
                lemma_take_next(all, it.index() as int);
                broadcast use lemma_views_push;
                assert(child == whole.children@[it.index() as int]);
                assert(decreases_to!(whole => whole.children@[it.index() as int]));
            }
            owned.push(child.into_owned());
        }
        assert(all.take(all.len() as int) =~= all);
        proof {
            lemma_nodes_model(owned@);
            lemma_nodes_model(all);
        }
        XmlElement {
            name: text::text_into_owned(name),
            attributes: attributes_into_owned(attributes),
            children: owned,
            span,
        }
    }
}

impl<'a> XmlNode<'a> {
    /// The same node, which borrows nothing.
    pub fn into_owned(self) -> (r: XmlNode<'static>)
        ensures
            r@ == self@,
        decreases self,
    {
        match self {
            XmlNode::Element(element) => XmlNode::Element(element.into_owned()),
            XmlNode::Text(t) => XmlNode::Text(text::text_into_owned(t)),
            XmlNode::CData(t) => XmlNode::CData(text::text_into_owned(t)),
            XmlNode::Comment(t) => XmlNode::Comment(text::text_into_owned(t)),
            XmlNode::ProcessingInstruction(t) => XmlNode::ProcessingInstruction(
                text::text_into_owned(t),
            ),
            XmlNode::Declaration(t) => XmlNode::Declaration(text::text_into_owned(t)),
            XmlNode::DocType(t) => XmlNode::DocType(text::text_into_owned(t)),
            XmlNode::EntityRef(t) => XmlNode::EntityRef(text::text_into_owned(t)),
        }
    }
}

/// A parsed document, with what is needed to write it back: the text it was parsed
/// from, where its prospects stand there, and which of them have been changed.
#[derive(Debug, PartialEq, Eq)]
pub struct AdfDocument<'a> {
    pub original: Cow<'a, str>,
    pub parse_options: ParseOptions,
    pub raw_root: Option<XmlElement<'a>>,
    pub prolog: Vec<XmlNode<'a>>,
    pub epilog: Vec<XmlNode<'a>>,
    pub adf: Adf<'a>,
    pub prospect_spans: Vec<Range<usize>>,
    pub dirty_prospects: Vec<usize>,
    pub dirty_all: bool,
}

#[verifier::ext_equal]
pub struct DocumentView {
    pub original: Seq<char>,
    pub parse_options: ParseOptions,
    pub raw_root: Option<ElementView>,
    pub prolog: Seq<NodeView>,
    pub epilog: Seq<NodeView>,
    pub adf: AdfView,
    pub prospect_spans: Seq<Range<usize>>,
    pub dirty_prospects: Seq<usize>,
    pub dirty_all: bool,
}

impl<'a> View for AdfDocument<'a> {
    type V = DocumentView;

    open spec fn view(&self) -> DocumentView {
        DocumentView {
            original: self.original@,
            parse_options: self.parse_options,
            raw_root: model::opt(self.raw_root),
            prolog: views(self.prolog@),
            epilog: views(self.epilog@),
            adf: self.adf@,
            prospect_spans: self.prospect_spans@,
            dirty_prospects: self.dirty_prospects@,
            dirty_all: self.dirty_all,
        }
    }
}

/// A document as it comes from the parser: nothing in it has been changed.
pub open spec fn new_document(
    original: Seq<char>,
    parse_options: ParseOptions,
    adf: AdfView,
    prospect_spans: Seq<Range<usize>>,
    prolog: Seq<NodeView>,
    epilog: Seq<NodeView>,
) -> DocumentView {
    DocumentView {
        original,
        parse_options,
        raw_root: None,
        prolog,
        epilog,
        adf,
        prospect_spans,
        dirty_prospects: seq![],
        dirty_all: false,
    }
}

impl<'a> AdfDocument<'a> {
    /// A document in which nothing has been changed.
    pub fn new(
        original: &'a str,
        parse_options: ParseOptions,
        adf: Adf<'a>,
        prospect_spans: Vec<Range<usize>>,
        prolog: Vec<XmlNode<'a>>,
        epilog: Vec<XmlNode<'a>>,
    ) -> (r: Self)
        ensures
            r@ == new_document(
                original@,
                parse_options,
                adf@,
                prospect_spans@,
                views(prolog@),
                views(epilog@),
            ),
            r.original is Borrowed,
            r.raw_root is None,
            r.prolog == prolog,
            r.epilog == epilog,
            r.adf == adf,
    {
        let document = AdfDocument {
            original: Cow::Borrowed(original),
            parse_options,
            raw_root: None,
            prolog,
            epilog,
            adf,
            prospect_spans,
            dirty_prospects: Vec::new(),
            dirty_all: false,
        };
        assert(document@.dirty_prospects =~= seq![]);
        document
    }

    /// The same document, which borrows nothing.
    pub fn into_owned(self) -> (r: AdfDocument<'static>)
        ensures
            r@ == self@,
    {
        AdfDocument {
            original: text::text_into_owned(self.original),
            parse_options: self.parse_options,
            raw_root: model::opt_owned(self.raw_root, XmlElement::into_owned),
            prolog: model::each_owned(self.prolog, XmlNode::into_owned),
            epilog: model::each_owned(self.epilog, XmlNode::into_owned),
            adf: self.adf.into_owned(),
            prospect_spans: self.prospect_spans,
            dirty_prospects: self.dirty_prospects,
            dirty_all: self.dirty_all,
        }
    }

    /// The typed model of the document.
    pub fn adf(&self) -> (r: &Adf<'a>)
        ensures
            *r == self.adf,
    {
        &self.adf
    }

    /// The typed model of the document, without the rest.
    pub fn into_adf(self) -> (r: Adf<'a>)
        ensures
            r == self.adf,
    {
        self.adf
    }

    /// The issues of the document.
    pub fn validate(&self) -> (r: ValidationReport<'a>)
        ensures
            r@ == validate::document_issues(self.adf@),
    {
        validate(&self.adf)
    }
}

} // verus!
