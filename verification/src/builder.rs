//! The tree of a document, built event by event.

use crate::document::{ElementView, NodeView, Span, XmlElement, XmlNode};
use crate::error::{Error, ErrorView};
use crate::options::{ParseLimit, ParseOptions};
use crate::reader::{EventView, ReadStep, TagView, XmlEvent};
use crate::tree::{ParsedDocumentTree, TreeView};
use crate::{
    borrowing, declaration, document, error, lexical, limits, reader, spans, text, tree, written,
};
use quick_xml::encoding::Decoder;
use quick_xml::events::BytesStart;
use quick_xml::Reader;
use std::borrow::Cow;
use vstd::prelude::*;
use vstd::utf8::*;

verus! {

/// A document that is being read: the elements that are open, outermost first, the
/// root element once it is closed, what stands before and behind it, and how many
/// nodes there were.
#[derive(Debug, PartialEq, Eq)]
pub struct TreeBuilder<'a> {
    pub stack: Vec<XmlElement<'a>>,
    pub root: Option<XmlElement<'a>>,
    pub prolog: Vec<XmlNode<'a>>,
    pub epilog: Vec<XmlNode<'a>>,
    pub node_count: usize,
}

#[verifier::ext_equal]
pub struct BuilderView {
    pub stack: Seq<ElementView>,
    pub root: Option<ElementView>,
    pub prolog: Seq<NodeView>,
    pub epilog: Seq<NodeView>,
    pub node_count: usize,
}

impl<'a> View for TreeBuilder<'a> {
    type V = BuilderView;

    open spec fn view(&self) -> BuilderView {
        BuilderView {
            stack: document::views(self.stack@),
            root: match self.root {
                Some(root) => Some(root@),
                None => None,
            },
            prolog: document::views(self.prolog@),
            epilog: document::views(self.epilog@),
            node_count: self.node_count,
        }
    }
}

/// The text of a text, CDATA, comment or DOCTYPE event.
pub open spec fn event_text(bytes: Seq<u8>, position: u64) -> Result<Seq<char>, ErrorView> {
    if valid_utf8(bytes) {
        Ok(decode_utf8(bytes))
    } else {
        Err(ErrorView::Encoding { position, valid_up_to: text::valid_up_to(bytes) })
    }
}

/// A text that has passed the check of its characters.
pub open spec fn checked_text(value: Result<Seq<char>, ErrorView>, position: u64) -> Result<
    Seq<char>,
    ErrorView,
> {
    match value {
        Err(e) => Err(e),
        Ok(value) => match lexical::checked_chars(value, position) {
            Err(e) => Err(e),
            Ok(_) => Ok(value),
        },
    }
}

/// The node of an event other than a tag, or why there is none. What it depends on
/// besides the event is whether an element is open.
pub open spec fn event_node(
    event: EventView,
    inside: bool,
    options: ParseOptions,
    position: u64,
) -> Result<NodeView, ErrorView> {
    match event {
        EventView::Text(bytes) => match event_text(bytes, position) {
            Err(e) => Err(e),
            Ok(value) => match checked_text(Ok(reader::normalized_eols(value)), position) {
                Err(e) => Err(e),
                Ok(value) => Ok(NodeView::Text(value)),
            },
        },
        EventView::CData(bytes) => match checked_text(event_text(bytes, position), position) {
            Err(e) => Err(e),
            Ok(value) => Ok(NodeView::CData(value)),
        },
        EventView::Comment(bytes) => match checked_text(event_text(bytes, position), position) {
            Err(e) => Err(e),
            Ok(value) => Ok(NodeView::Comment(value)),
        },
        EventView::PI(bytes) => match tree::name_payload(bytes, position) {
            Err(e) => Err(e),
            Ok(value) => Ok(NodeView::ProcessingInstruction(value)),
        },
        EventView::Decl(bytes) => match tree::name_payload(bytes, position) {
            Err(e) => Err(e),
            Ok(value) => match declaration::utf8_declared(value, position) {
                Err(e) => Err(e),
                Ok(_) => Ok(NodeView::Declaration(value)),
            },
        },
        EventView::DocType(bytes) => if options.reject_doctype {
            Err(ErrorView::DocTypeForbidden { position })
        } else if options.max_doctype_len matches Some(limit) && bytes.len() > limit {
            Err(
                ErrorView::DocTypeTooLong {
                    length: bytes.len() as usize,
                    limit: options.max_doctype_len->0,
                    position,
                },
            )
        } else {
            match checked_text(event_text(bytes, position), position) {
                Err(e) => Err(e),
                Ok(value) => Ok(NodeView::DocType(value)),
            }
        },
        EventView::GeneralRef(bytes) => if !inside {
            Err(ErrorView::ContentOutsideRoot { position })
        } else {
            match event_text(bytes, position) {
                Err(e) => Err(e),
                Ok(entity) => tree::reference_node(entity, position),
            }
        },
        _ => arbitrary(),
    }
}

impl BuilderView {
    /// Nothing has been read.
    pub open spec fn empty() -> BuilderView {
        BuilderView { stack: seq![], root: None, prolog: seq![], epilog: seq![], node_count: 0 }
    }

    /// The document after one more node has been counted.
    pub open spec fn count(self, options: ParseOptions, position: u64) -> Result<
        BuilderView,
        ErrorView,
    > {
        let count = tree::counted(self.node_count);
        match tree::within(options.max_nodes, count as nat, ParseLimit::Nodes, position) {
            Err(e) => Err(e),
            Ok(_) => Ok(BuilderView { node_count: count, ..self }),
        }
    }

    /// The document with a finished element put where it belongs.
    pub open spec fn with_element(self, element: ElementView) -> Result<BuilderView, ErrorView> {
        if self.stack.len() > 0 {
            Ok(
                BuilderView {
                    stack: tree::with_inner_child(self.stack, NodeView::Element(element)),
                    ..self
                },
            )
        } else if self.root is Some {
            Err(ErrorView::MultipleRoots)
        } else {
            Ok(BuilderView { root: Some(element), ..self })
        }
    }

    /// The document with a node put where it belongs.
    pub open spec fn with_node(self, node: NodeView, position: u64) -> Result<
        BuilderView,
        ErrorView,
    > {
        if self.stack.len() > 0 {
            Ok(BuilderView { stack: tree::with_inner_child(self.stack, node), ..self })
        } else if !tree::document_misc(node, self.root is Some) {
            Err(ErrorView::ContentOutsideRoot { position })
        } else if self.root is Some {
            Ok(BuilderView { epilog: self.epilog.push(node), ..self })
        } else {
            Ok(BuilderView { prolog: self.prolog.push(node), ..self })
        }
    }

    /// The element that a tag opens, and the document in which it is counted.
    pub open spec fn open_tag(
        self,
        tag: TagView,
        options: ParseOptions,
        position: u64,
        span: Span,
    ) -> Result<(BuilderView, ElementView), ErrorView> {
        match tree::within(
            options.max_depth,
            self.stack.len() + 1,
            ParseLimit::Depth,
            position,
        ) {
            Err(e) => Err(e),
            Ok(_) => match self.count(options, position) {
                Err(e) => Err(e),
                Ok(next) => match tree::tag_element(tag, options, position, span) {
                    Err(e) => Err(e),
                    Ok(element) => Ok((next, element)),
                },
            },
        }
    }

    /// The document with its innermost element closed by an end tag that ends at
    /// `end`.
    pub open spec fn close(self, name: Seq<u8>, position: u64, end: usize) -> Result<
        BuilderView,
        ErrorView,
    > {
        match tree::name_text(name, position) {
            Err(e) => Err(e),
            Ok(found) => if self.stack.len() == 0 {
                Err(ErrorView::UnexpectedEnd { name: found, position })
            } else {
                let element = self.stack.last();
                if element.name != found {
                    Err(ErrorView::MismatchedEnd { expected: element.name, found, position })
                } else {
                    (BuilderView { stack: self.stack.drop_last(), ..self }).with_element(
                        ElementView { span: Span { start: element.span.start, end }, ..element },
                    )
                }
            },
        }
    }

    /// The document after one more event, which stands at `start..end`.
    pub open spec fn accept(
        self,
        event: EventView,
        options: ParseOptions,
        position: u64,
        start: usize,
        end: usize,
    ) -> Result<BuilderView, ErrorView> {
        match event {
            EventView::Start(tag) => match self.open_tag(
                tag,
                options,
                position,
                Span { start, end },
            ) {
                Err(e) => Err(e),
                Ok((next, element)) => Ok(BuilderView { stack: next.stack.push(element), ..next }),
            },
            EventView::Empty(tag) => match self.open_tag(
                tag,
                options,
                position,
                Span { start, end },
            ) {
                Err(e) => Err(e),
                Ok((next, element)) => next.with_element(element),
            },
            EventView::End(name) => self.close(name, position, end),
            EventView::Eof => Ok(self),
            _ => match self.count(options, position) {
                Err(e) => Err(e),
                Ok(next) => match event_node(event, self.stack.len() > 0, options, position) {
                    Err(e) => Err(e),
                    Ok(node) => next.with_node(node, position),
                },
            },
        }
    }

    /// The tree of the document once all of it is read.
    pub open spec fn finish(self, position: u64) -> Result<TreeView, ErrorView> {
        if self.stack.len() > 0 {
            Err(ErrorView::UnexpectedEnd { name: self.stack.last().name, position })
        } else {
            match self.root {
                None => Err(ErrorView::MissingRoot),
                Some(root) => Ok(TreeView { root, prolog: self.prolog, epilog: self.epilog }),
            }
        }
    }
}

/// Decodes the bytes of an event and checks their characters.
fn decode_checked<'a>(bytes: Cow<'a, [u8]>, decoder: Decoder, position: u64) -> (r: Result<
    Cow<'a, str>,
    Error,
>)
    ensures
        error::outcome(r) == checked_text(event_text(bytes@, position), position),
        r matches Ok(value) ==> bytes is Borrowed ==> value is Borrowed,
{
    let value = lexical::decode_bytes(bytes, decoder, position)?;
    lexical::ensure_xml_chars(text::text_str(&value), position)?;
    Ok(value)
}

/// The number of bytes in a `Cow`.
fn bytes_len(bytes: &Cow<'_, [u8]>) -> (r: usize)
    ensures
        r == bytes@.len(),
{
    match bytes {
        Cow::Borrowed(slice) => slice.len(),
        Cow::Owned(owned) => owned.len(),
    }
}

/// The node of an event other than a tag.
pub fn node_from_event<'a>(
    event: XmlEvent<'a>,
    inside: bool,
    decoder: Decoder,
    options: &ParseOptions,
    position: u64,
) -> (r: Result<XmlNode<'a>, Error>)
    requires
        !(event is Start || event is Empty || event is End || event is Eof),
    ensures
        error::outcome(r) == event_node(event@, inside, *options, position),
        r matches Ok(node) ==> reader::borrows_bytes(event) ==> forall|owned: Seq<char>| #[trigger]
            borrowing::node_owns(node, owned) ==> borrowing::event_copied(
                event@,
                position,
                owned,
            ),
{
    match event {
        XmlEvent::Text(bytes) => {
            let raw = lexical::decode_bytes(bytes, decoder, position)?;
            match reader::xml_content(raw) {
                Ok(value) => {
                    lexical::ensure_xml_chars(text::text_str(&value), position)?;
                    Ok(XmlNode::Text(value))
                },
                Err(source) => Err(Error::encoding(position, source)),
            }
        },
        XmlEvent::CData(bytes) => Ok(XmlNode::CData(decode_checked(bytes, decoder, position)?)),
        XmlEvent::Comment(bytes) => Ok(XmlNode::Comment(decode_checked(bytes, decoder, position)?)),
        XmlEvent::PI(bytes) => {
            let payload = match bytes {
                Cow::Borrowed(slice) => tree::validated_name_payload(slice, position)?,
                Cow::Owned(owned) => tree::validated_name_payload(owned.as_slice(), position)?,
            };
            Ok(XmlNode::ProcessingInstruction(Cow::Owned(payload)))
        },
        XmlEvent::Decl(bytes) => {
            let payload = tree::validated_name_payload(bytes.as_slice(), position)?;
            declaration::ensure_utf8_declaration(payload.as_str(), position)?;
            Ok(XmlNode::Declaration(Cow::Owned(payload)))
        },
        XmlEvent::DocType(bytes) => {
            if options.reject_doctype {
                return Err(Error::DocTypeForbidden { position });
            }
            if let Some(limit) = options.max_doctype_len {
                let length = bytes_len(&bytes);
                if length > limit {
                    return Err(Error::DocTypeTooLong { length, limit, position });
                }
            }
            Ok(XmlNode::DocType(decode_checked(bytes, decoder, position)?))
        },
        XmlEvent::GeneralRef(bytes) => {
            if !inside {
                return Err(Error::ContentOutsideRoot { position });
            }
            let entity = lexical::decode_bytes(bytes, decoder, position)?;
            tree::general_ref_node(entity, position)
        },
        _ => vstd::pervasive::unreached(),
    }
}

impl<'a> TreeBuilder<'a> {
    /// Nothing has been read.
    pub fn new() -> (r: Self)
        ensures
            r@ == BuilderView::empty(),
            forall|owned: Seq<char>| !#[trigger] borrowing::builder_owns(r, owned),
    {
        let builder = TreeBuilder {
            stack: Vec::new(),
            root: None,
            prolog: Vec::new(),
            epilog: Vec::new(),
            node_count: 0,
        };
        assert(builder@ =~= BuilderView::empty());
        builder
    }

    /// Counts a tag and makes the element that it opens.
    fn open_tag(
        &mut self,
        input: &'a str,
        tag: &BytesStart<'_>,
        decoder: Decoder,
        options: &ParseOptions,
        position: u64,
        start: usize,
        end: usize,
    ) -> (r: Result<XmlElement<'a>, Error>)
        requires
            old(self).stack@.len() < usize::MAX,
            reader::tag_name_len(*tag) <= reader::tag_content(*tag).len(),
        ensures
            match old(self)@.open_tag(
                reader::tag_view(*tag),
                *options,
                position,
                Span { start, end },
            ) {
                Ok((next, element)) => r is Ok && r->Ok_0@ == element && final(self)@ == next,
                Err(e) => error::outcome(r) == Err::<ElementView, ErrorView>(e),
            },
            final(self).stack == old(self).stack,
            final(self).root == old(self).root,
            final(self).prolog == old(self).prolog,
            final(self).epilog == old(self).epilog,
            r matches Ok(element) ==> borrowing::tag_stands(
                reader::tag_content(*tag),
                input@,
                start,
            ) ==> forall|owned: Seq<char>| #[trigger]
                borrowing::element_owns(element, owned) ==> borrowing::tag_copied(
                    reader::tag_view(*tag),
                    position,
                    owned,
                ),
    {
        tree::check_limit(options.max_depth, self.stack.len() + 1, ParseLimit::Depth, position)?;
        tree::record_node(&mut self.node_count, options, position)?;
        let element = tree::element_from_start(
            input,
            tag,
            decoder,
            options,
            position,
            start,
            end,
        )?;
        proof {
            let view = reader::tag_view(*tag);
            let span = Span { start, end };
            if borrowing::tag_stands(view.content, input@, start) {
                borrowing::lemma_tag_element_owns(element, view, *options, position, span);
            }
        }
        Ok(element)
    }

    /// Takes one more event, which stands at `start..end`.
    pub fn accept(
        &mut self,
        input: &'a str,
        event: XmlEvent<'a>,
        decoder: Decoder,
        options: &ParseOptions,
        position: u64,
        start: usize,
        end: usize,
    ) -> (r: Result<(), Error>)
        requires
            old(self).stack@.len() < usize::MAX,
            reader::well_named(event@),
        ensures
            match old(self)@.accept(event@, *options, position, start, end) {
                Ok(next) => r is Ok && final(self)@ == next,
                Err(e) => error::outcome(r) == Err::<(), ErrorView>(e),
            },
            r is Ok && borrowing::event_stands(event, input@, start) ==> forall|owned: Seq<char>|
                #[trigger]
                borrowing::builder_owns(*final(self), owned) ==> borrowing::builder_owns(
                    *old(self),
                    owned,
                ) || borrowing::event_copied(event@, position, owned),
    {
        match event {
            XmlEvent::Start(tag) => {
                let element = self.open_tag(
                    input,
                    &tag,
                    decoder,
                    options,
                    position,
                    start,
                    end,
                )?;
                proof {
                    document::lemma_views_push(self.stack@, element);
                    borrowing::lemma_stack_push(self.stack@, element);
                }
                self.stack.push(element);
                Ok(())
            },
            XmlEvent::Empty(tag) => {
                let element = self.open_tag(
                    input,
                    &tag,
                    decoder,
                    options,
                    position,
                    start,
                    end,
                )?;
                tree::append_element(&mut self.stack, &mut self.root, element)
            },
            XmlEvent::End(name) => {
                let found = tree::name_from_bytes(name.as_slice(), position)?;
                let ghost stack = self.stack@;
                match self.stack.pop() {
                    None => Err(Error::UnexpectedEnd { name: found.to_owned(), position }),
                    Some(element) => {
                        proof {
                            borrowing::lemma_stack_last(stack);
                        }
                        assert(document::views(stack.drop_last()) =~= document::views(
                            stack,
                        ).drop_last());
                        if !text::str_eq(text::text_str(&element.name), found) {
                            return Err(
                                Error::MismatchedEnd {
                                    expected: text::text_string(element.name),
                                    found: found.to_owned(),
                                    position,
                                },
                            );
                        }
                        let XmlElement { name, attributes, children, span } = element;
                        let closed = XmlElement {
                            name,
                            attributes,
                            children,
                            span: Span { start: span.start, end },
                        };
                        assert(forall|owned: Seq<char>| #[trigger]
                            borrowing::element_owns(closed, owned) ==> borrowing::element_owns(
                                element,
                                owned,
                            ));
                        tree::append_element(&mut self.stack, &mut self.root, closed)
                    },
                }
            },
            XmlEvent::Eof => Ok(()),
            event => {
                tree::record_node(&mut self.node_count, options, position)?;
                let inside = self.stack.len() > 0;
                let node = node_from_event(event, inside, decoder, options, position)?;
                let has_root = self.root.is_some();
                proof {
                    broadcast use document::lemma_views_push;

                    borrowing::lemma_nodes_push(self.prolog@, node);
                    borrowing::lemma_nodes_push(self.epilog@, node);
                }
                tree::append_node(
                    &mut self.stack,
                    has_root,
                    &mut self.prolog,
                    &mut self.epilog,
                    node,
                    position,
                )
            },
        }
    }

    /// The tree, once all of the document is read.
    pub fn finish(self, position: u64) -> (r: Result<ParsedDocumentTree<'a>, Error>)
        ensures
            error::outcome(r) == self@.finish(position),
            r matches Ok(parsed) ==> forall|owned: Seq<char>| #[trigger]
                borrowing::tree_owns(parsed, owned) ==> borrowing::builder_owns(self, owned),
    {
        let TreeBuilder { mut stack, root, prolog, epilog, node_count: _ } = self;
        if let Some(unclosed) = stack.pop() {
            return Err(Error::UnexpectedEnd { name: text::text_string(unclosed.name), position });
        }
        match root {
            None => Err(Error::MissingRoot),
            Some(root) => Ok(ParsedDocumentTree { root, prolog, epilog }),
        }
    }
}

/// The tree of a document that is partly read, `steps` being what the reads that are
/// left give and `from` the position of the reader. No read has failed before, so the
/// reader's error position, which the errors carry, is 0.
pub open spec fn tree_from(
    state: BuilderView,
    steps: Seq<ReadStep>,
    from: nat,
    options: ParseOptions,
) -> Result<TreeView, ErrorView>
    decreases steps.len(),
{
    match reader::next_step(steps) {
        None => Err(ErrorView::Xml { position: 0 }),
        Some(EventView::Eof) => state.finish(0),
        Some(event) => match state.accept(event, options, 0, from as usize, steps[0].end as usize) {
            Err(e) => Err(e),
            Ok(next) => tree_from(next, steps.drop_first(), steps[0].end, options),
        },
    }
}

/// The tree of a document.
pub open spec fn document_tree(input: Seq<char>, options: ParseOptions) -> Result<
    TreeView,
    ErrorView,
> {
    match tree::within(
        options.max_input_len,
        encode_utf8(input).len(),
        ParseLimit::InputLength,
        0,
    ) {
        Err(e) => Err(e),
        Ok(_) => tree_from(
            BuilderView::empty(),
            reader::document_steps(input, false, true),
            0,
            options,
        ),
    }
}

/// An event opens at most one element.
proof fn lemma_accept_depth(
    state: BuilderView,
    event: EventView,
    options: ParseOptions,
    position: u64,
    start: usize,
    end: usize,
)
    ensures
        state.accept(event, options, position, start, end) matches Ok(next) ==> next.stack.len()
            <= state.stack.len() + 1,
{
}

/// An event that is read stands in the input.
proof fn lemma_event_stands(
    event: XmlEvent<'_>,
    steps: Seq<ReadStep>,
    from: nat,
    input: Seq<char>,
    start: usize,
)
    requires
        steps.len() > 0,
        steps[0].event == Some(event@),
        start == from,
        from < steps[0].end <= reader::body(encode_utf8(input)).len(),
        reader::tags_written(steps, from, reader::body(encode_utf8(input))),
        reader::borrows_bytes(event),
    ensures
        borrowing::event_stands(event, input, start),
        reader::tags_written(
            steps.drop_first(),
            steps[0].end,
            reader::body(encode_utf8(input)),
        ),
{
    let end = steps[0].end as int;
    reader::lemma_tags_written(steps, from, reader::body(encode_utf8(input)));
    match event@ {
        EventView::Start(tag) => {
            assert(seq![0x3Cu8] + tag.content + seq![0x3Eu8] =~= seq![0x3Cu8] + tag.content
                + Seq::<u8>::empty() + seq![0x3Eu8]);
            borrowing::lemma_tag_stands(tag.content, seq![], input, start, end);
        },
        EventView::Empty(tag) => {
            assert(seq![0x3Cu8] + tag.content + seq![0x2Fu8, 0x3Eu8] =~= seq![0x3Cu8] + tag.content
                + seq![0x2Fu8] + seq![0x3Eu8]);
            borrowing::lemma_tag_stands(tag.content, seq![0x2Fu8], input, start, end);
        },
        _ => {},
    }
}

/// A document that is being read owns only what cannot be borrowed.
#[verifier::opaque]
spec fn owns_copied(builder: TreeBuilder<'_>, all: Seq<ReadStep>) -> bool {
    forall|owned: Seq<char>| #[trigger]
        borrowing::builder_owns(builder, owned) ==> borrowing::steps_copied(all, owned)
}

/// What a document that is being read has come to own with an event cannot be borrowed.
#[verifier::opaque]
spec fn adds_copied(before: TreeBuilder<'_>, after: TreeBuilder<'_>, event: EventView) -> bool {
    forall|owned: Seq<char>| #[trigger]
        borrowing::builder_owns(after, owned) ==> borrowing::builder_owns(before, owned)
            || borrowing::event_copied(event, 0, owned)
}

/// After one more event a document still owns only what cannot be borrowed.
proof fn lemma_read_copied(
    before: TreeBuilder<'_>,
    after: TreeBuilder<'_>,
    all: Seq<ReadStep>,
    read: int,
)
    requires
        0 <= read < all.len(),
        all[read].event is Some,
        owns_copied(before, all),
        adds_copied(before, after, all[read].event->0),
    ensures
        owns_copied(after, all),
{
    reveal(owns_copied);
    reveal(adds_copied);
}

/// Where a document is read: the reader has met no error, every element that is open has
/// been read, and what is left to read stands in the input.
#[verifier::opaque]
spec fn reading(source: Reader<&[u8]>, builder: TreeBuilder<'_>, input: Seq<char>) -> bool {
    let text = reader::body(encode_utf8(input));
    let steps = reader::reader_steps(source);
    let from = reader::reader_position(source);
    &&& builder.stack@.len() <= from
    &&& text.len() <= usize::MAX
    &&& reader::reader_error_position(source) == 0
    &&& reader::steps_advance(steps, from, text.len())
    &&& reader::tags_written(steps, from, text)
}

/// Reads one event and takes it. Tells whether there was one.
fn read_step<'a>(
    source: &mut Reader<&'a [u8]>,
    builder: &mut TreeBuilder<'a>,
    input: &'a str,
    options: &ParseOptions,
) -> (r: Result<bool, Error>)
    requires
        reading(*old(source), *old(builder), input@),
    ensures
        ({
            let steps = reader::reader_steps(*old(source));
            let from = reader::reader_position(*old(source));
            let outcome = tree_from(old(builder)@, steps, from, *options);
            match r {
                Err(e) => outcome == Err::<TreeView, ErrorView>(e@),
                Ok(false) => {
                    &&& outcome == old(builder)@.finish(0)
                    &&& *final(builder) == *old(builder)
                },
                Ok(true) => {
                    &&& steps.len() > 0
                    &&& steps[0].event is Some
                    &&& reader::reader_steps(*final(source)) == steps.drop_first()
                    &&& outcome == tree_from(
                        final(builder)@,
                        steps.drop_first(),
                        reader::reader_position(*final(source)),
                        *options,
                    )
                    &&& reading(*final(source), *final(builder), input@)
                    &&& adds_copied(*old(builder), *final(builder), steps[0].event->0)
                },
            }
        }),
        r is Ok ==> reader::reader_error_position(*final(source)) == 0,
{
    proof {
        reveal(reading);
    }
    let start = reader::position(source) as usize;
    let position = reader::error_position(source);
    let decoder = source.decoder();
    let ghost steps = reader::reader_steps(*source);
    let ghost from = reader::reader_position(*source);
    let event = match reader::read_event(source) {
        Ok(event) => event,
        Err(error) => {
            return Err(Error::xml(position, error));
        },
    };
    if let XmlEvent::Eof = event {
        return Ok(false);
    }
    proof {
        let text = reader::body(encode_utf8(input@));
        reader::lemma_steps_advance(steps, from, text.len());
        lemma_accept_depth(builder@, event@, *options, 0, from as usize, steps[0].end as usize);
        lemma_event_stands(event, steps, from, input@, start);
    }
    let end = reader::position(source) as usize;
    builder.accept(input, event, decoder, options, position, start, end)?;
    proof {
        reveal(adds_copied);
    }
    Ok(true)
}

/// Parses a document into its tree. The tree keeps the limits, its elements are in their
/// places, and they are written there. It owns only what it cannot borrow.
pub fn parse_document_tree<'a>(input: &'a str, options: &ParseOptions) -> (r: Result<
    ParsedDocumentTree<'a>,
    Error,
>)
    ensures
        error::outcome(r) == document_tree(input@, *options),
        r matches Ok(parsed) ==> {
            &&& limits::within_limits(parsed@, *options)
            &&& spans::element_placed(parsed@.root)
            &&& written::element_written(parsed@.root, reader::body(encode_utf8(input@)))
            &&& borrowing::tree_borrows(parsed, reader::document_steps(input@, false, true))
        },
{
    let length = input.as_bytes().len();
    tree::check_limit(options.max_input_len, length, ParseLimit::InputLength, 0)?;
    let mut source = reader::open_reader(input, false, true);
    let mut builder = TreeBuilder::new();
    let ghost all = reader::document_steps(input@, false, true);
    let ghost mut read: int = 0;
    proof {
        let body = reader::body(encode_utf8(input@));
        limits::law_tree_within_limits(all, *options, body.len() as usize);
        spans::law_tree_is_placed(all, *options, body.len() as usize);
        written::law_tree_is_written(all, *options, body);
        assert(all.skip(0) =~= all);
        reveal(owns_copied);
        reveal(reading);
    }
    loop
        invariant_except_break
            reading(source, builder, input@),
            0 <= read <= all.len(),
            reader::reader_steps(source) == all.skip(read),
            document_tree(input@, *options) == tree_from(
                builder@,
                all.skip(read),
                reader::reader_position(source),
                *options,
            ),
        invariant
            owns_copied(builder, all),
        ensures
            reader::reader_error_position(source) == 0,
            document_tree(input@, *options) == builder@.finish(0),
        decreases all.len() - read,
    {
        let ghost before = builder;
        if !read_step(&mut source, &mut builder, input, options)? {
            break;
        }
        proof {
            assert(all.skip(read).drop_first() =~= all.skip(read + 1));
            assert(all.skip(read)[0] == all[read]);
            lemma_read_copied(before, builder, all, read);
            read = read + 1;
        }
    }
    proof {
        reveal(owns_copied);
    }
    builder.finish(reader::error_position(&source))
}

/// The root element of a document.
pub fn parse_tree<'a>(input: &'a str, options: &ParseOptions) -> (r: Result<XmlElement<'a>, Error>)
    ensures
        error::outcome(r) == (match document_tree(input@, *options) {
            Ok(tree) => Ok(tree.root),
            Err(e) => Err(e),
        }),
        r matches Ok(root) ==> {
            &&& spans::element_placed(root@)
            &&& written::element_written(root@, reader::body(encode_utf8(input@)))
            &&& forall|owned: Seq<char>| #[trigger]
                borrowing::element_owns(root, owned) ==> borrowing::steps_copied(
                    reader::document_steps(input@, false, true),
                    owned,
                )
        },
{
    let parsed = parse_document_tree(input, options)?;
    assert(forall|owned: Seq<char>| #[trigger]
        borrowing::element_owns(parsed.root, owned) ==> borrowing::tree_owns(parsed, owned));
    Ok(parsed.root)
}

} // verus!
