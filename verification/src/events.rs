//! What each event of a document becomes, and what is refused.

use crate::document::{AttributeView, ElementView, NodeView, Span};
use crate::error::ErrorView;
use crate::options::{ParseLimit, ParseOptions};
use crate::reader::{EventView, RawAttribute, TagView};
use crate::{builder, characters, declaration, lexical, reader, text, tree};
use vstd::prelude::*;
use vstd::utf8::*;

verus! {

/// What a text becomes that is kept where all of its characters are allowed.
pub open spec fn kept(value: Seq<char>, position: u64, node: NodeView) -> Result<
    NodeView,
    ErrorView,
> {
    if exists|i: int| 0 <= i < value.len() && !lexical::xml_char(#[trigger] value[i]) {
        Err(lexical::checked_chars(value, position)->Err_0)
    } else {
        Ok(node)
    }
}

proof fn lemma_kept(value: Seq<char>, position: u64, node: NodeView)
    ensures
        kept(value, position, node) == (match lexical::checked_chars(value, position) {
            Ok(_) => Ok(node),
            Err(e) => Err(e),
        }),
{
    lexical::lemma_illegal_char(value);
}

/// A text is a node of its characters, with line feeds for line ends.
pub proof fn law_text_is_a_node(
    value: Seq<char>,
    inside: bool,
    options: ParseOptions,
    position: u64,
)
    ensures
        builder::event_node(EventView::Text(encode_utf8(value)), inside, options, position) == kept(
            reader::normalized_eols(value),
            position,
            NodeView::Text(reader::normalized_eols(value)),
        ),
        (forall|i: int| 0 <= i < value.len() ==> !characters::ends_line(#[trigger] value[i]))
            ==> builder::event_node(
            EventView::Text(encode_utf8(value)),
            inside,
            options,
            position,
        ) == kept(value, position, NodeView::Text(value)),
{
    broadcast use {encode_utf8_valid_utf8, encode_utf8_decode_utf8};

    let normalized = reader::normalized_eols(value);
    lemma_kept(normalized, position, NodeView::Text(normalized));
    if forall|i: int| 0 <= i < value.len() ==> !characters::ends_line(#[trigger] value[i]) {
        characters::law_text_without_line_ends_is_kept(value);
    }
}

/// A CDATA section, a comment and a processing instruction are nodes of exactly their
/// characters, wherever they stand and whatever the options are.
pub proof fn law_section_is_a_node(
    value: Seq<char>,
    inside: bool,
    options: ParseOptions,
    position: u64,
)
    ensures
        builder::event_node(EventView::CData(encode_utf8(value)), inside, options, position)
            == kept(value, position, NodeView::CData(value)),
        builder::event_node(EventView::Comment(encode_utf8(value)), inside, options, position)
            == kept(value, position, NodeView::Comment(value)),
        builder::event_node(EventView::PI(encode_utf8(value)), inside, options, position) == kept(
            value,
            position,
            NodeView::ProcessingInstruction(value),
        ),
{
    broadcast use {encode_utf8_valid_utf8, encode_utf8_decode_utf8};

    lemma_kept(value, position, NodeView::CData(value));
    lemma_kept(value, position, NodeView::Comment(value));
    lemma_kept(value, position, NodeView::ProcessingInstruction(value));
}

/// A declaration is a node of exactly its characters where the encoding that it declares
/// is accepted, and is refused for that encoding otherwise.
pub proof fn law_declaration_is_a_node(
    value: Seq<char>,
    inside: bool,
    options: ParseOptions,
    position: u64,
)
    ensures
        ({
            let made = builder::event_node(
                EventView::Decl(encode_utf8(value)),
                inside,
                options,
                position,
            );
            let legal = kept(value, position, NodeView::Declaration(value));
            match declaration::utf8_declared(value, position) {
                Ok(_) => made == legal,
                Err(e) => made == (if legal is Err {
                    legal
                } else {
                    Err(e)
                }),
            }
        }),
{
    broadcast use {encode_utf8_valid_utf8, encode_utf8_decode_utf8};

    lemma_kept(value, position, NodeView::Declaration(value));
}

/// A DOCTYPE is refused where none is wanted, then where it has more bytes than it may
/// have. It is a node of exactly its characters otherwise.
pub proof fn law_doctype_is_a_node(
    value: Seq<char>,
    inside: bool,
    options: ParseOptions,
    position: u64,
)
    requires
        encode_utf8(value).len() <= usize::MAX,
    ensures
        ({
            let made = builder::event_node(
                EventView::DocType(encode_utf8(value)),
                inside,
                options,
                position,
            );
            let length = encode_utf8(value).len();
            &&& options.reject_doctype ==> made == Err::<NodeView, ErrorView>(
                ErrorView::DocTypeForbidden { position },
            )
            &&& !options.reject_doctype ==> match options.max_doctype_len {
                Some(limit) => if length <= limit {
                    made == kept(value, position, NodeView::DocType(value))
                } else {
                    made == Err::<NodeView, ErrorView>(
                        ErrorView::DocTypeTooLong { length: length as usize, limit, position },
                    )
                },
                None => made == kept(value, position, NodeView::DocType(value)),
            }
        }),
{
    broadcast use {encode_utf8_valid_utf8, encode_utf8_decode_utf8};

    lemma_kept(value, position, NodeView::DocType(value));
}

/// A reference is refused outside of the root element, and read inside of it.
pub proof fn law_reference_is_inside(
    entity: Seq<char>,
    options: ParseOptions,
    position: u64,
)
    ensures
        builder::event_node(EventView::GeneralRef(encode_utf8(entity)), false, options, position)
            == Err::<NodeView, ErrorView>(ErrorView::ContentOutsideRoot { position }),
        builder::event_node(EventView::GeneralRef(encode_utf8(entity)), true, options, position)
            == tree::reference_node(entity, position),
{
    broadcast use {encode_utf8_valid_utf8, encode_utf8_decode_utf8};

}

/// Bytes that are no UTF-8 are refused, and the error tells how many of the first of them
/// are. Those of processing instructions, declarations and names are refused as such,
/// those of other events as an encoding that cannot be decoded.
pub proof fn law_bytes_have_to_be_text(
    bytes: Seq<u8>,
    valid: nat,
    inside: bool,
    options: ParseOptions,
    position: u64,
)
    requires
        !valid_utf8(bytes),
        text::is_longest_valid_prefix(bytes, valid as int),
    ensures
        ({
            let undecodable = Err::<NodeView, ErrorView>(
                ErrorView::Encoding { position, valid_up_to: valid },
            );
            let no_text = Err::<NodeView, ErrorView>(
                ErrorView::Utf8 { position, valid_up_to: valid },
            );
            let node = |event: EventView| builder::event_node(event, inside, options, position);
            &&& node(EventView::Text(bytes)) == undecodable
            &&& node(EventView::CData(bytes)) == undecodable
            &&& node(EventView::Comment(bytes)) == undecodable
            &&& node(EventView::PI(bytes)) == no_text
            &&& node(EventView::Decl(bytes)) == no_text
            &&& inside ==> node(EventView::GeneralRef(bytes)) == undecodable
            &&& !options.reject_doctype && options.max_doctype_len is None ==> node(
                EventView::DocType(bytes),
            ) == undecodable
            &&& tree::name_text(bytes, position) == Err::<Seq<char>, ErrorView>(
                ErrorView::Utf8 { position, valid_up_to: valid },
            )
            &&& lexical::attribute_value(bytes, position) == Err::<Seq<char>, ErrorView>(
                ErrorView::Encoding { position, valid_up_to: valid },
            )
        }),
{
    text::lemma_valid_up_to(bytes, valid);
}

/// A name is the text that its bytes encode.
pub proof fn law_name_is_its_text(name: Seq<char>, position: u64)
    ensures
        tree::name_text(encode_utf8(name), position) == Ok::<Seq<char>, ErrorView>(name),
{
    broadcast use {encode_utf8_valid_utf8, encode_utf8_decode_utf8};

}

/// The value of an attribute is the text that its bytes encode, with its references
/// decoded. Where there is none, it is that text.
pub proof fn law_value_is_its_text(value: Seq<char>, position: u64)
    ensures
        (exists|i: int| 0 <= i < value.len() && !lexical::xml_char(#[trigger] value[i]))
            ==> lexical::attribute_value(encode_utf8(value), position) == Err::<
            Seq<char>,
            ErrorView,
        >(lexical::checked_chars(value, position)->Err_0),
        (forall|i: int| 0 <= i < value.len() ==> lexical::xml_char(#[trigger] value[i])) ==> {
            &&& lexical::attribute_value(encode_utf8(value), position)
                == lexical::decoded_references(value, position)
            &&& !value.contains('&') ==> lexical::attribute_value(encode_utf8(value), position)
                == Ok::<Seq<char>, ErrorView>(value)
        },
{
    broadcast use {encode_utf8_valid_utf8, encode_utf8_decode_utf8};

    lexical::lemma_illegal_char(value);
    lexical::lemma_until(value, '&');
    if lexical::until(value, '&') < value.len() {
        assert(value.contains(value[lexical::until(value, '&') as int]));
    }
}

/// A limit refuses what counts more, with the number and the limit, and nothing else.
pub proof fn law_limit_is_inclusive(
    limit: Option<usize>,
    actual: nat,
    kind: ParseLimit,
    position: u64,
)
    requires
        actual <= usize::MAX,
    ensures
        tree::within(None, actual, kind, position) == Ok::<(), ErrorView>(()),
        limit matches Some(maximum) ==> if actual <= maximum {
            tree::within(limit, actual, kind, position) == Ok::<(), ErrorView>(())
        } else {
            tree::within(limit, actual, kind, position) == Err::<(), ErrorView>(
                ErrorView::LimitExceeded {
                    limit: kind,
                    maximum,
                    actual: actual as usize,
                    position,
                },
            )
        },
{
}

/// An attribute can be read: it is well formed, its name is UTF-8, and its value can be
/// decoded.
pub open spec fn readable(item: Option<RawAttribute>, position: u64) -> bool {
    item matches Some(raw) && valid_utf8(raw.key) && lexical::attribute_value(
        raw.value,
        position,
    ) is Ok
}

/// Attributes are what those of a tag are read as, one for each, in order.
pub open spec fn are_read(
    attributes: Seq<AttributeView>,
    items: Seq<Option<RawAttribute>>,
    position: u64,
) -> bool {
    &&& attributes.len() == items.len()
    &&& forall|i: int|
        0 <= i < items.len() ==> {
            &&& readable(#[trigger] items[i], position)
            &&& encode_utf8(attributes[i].name) == items[i]->0.key
            &&& lexical::attribute_value(items[i]->0.value, position) == Ok::<
                Seq<char>,
                ErrorView,
            >(attributes[i].value)
        }
}

/// Why an attribute cannot be read: it is malformed, or its name, or else its value, is
/// refused.
pub open spec fn unread(item: Option<RawAttribute>, position: u64, e: ErrorView) -> bool {
    match item {
        None => e == (ErrorView::Attribute { position }),
        Some(raw) => if valid_utf8(raw.key) {
            lexical::attribute_value(raw.value, position) == Err::<Seq<char>, ErrorView>(e)
        } else {
            e == (ErrorView::Utf8 { position, valid_up_to: text::valid_up_to(raw.key) })
        },
    }
}

/// What the attributes of a tag are read as, or why they are not, `before` being those
/// that have been read.
pub open spec fn attributes_or_error(
    read: Result<Seq<AttributeView>, ErrorView>,
    before: Seq<AttributeView>,
    items: Seq<Option<RawAttribute>>,
    limit: Option<usize>,
    position: u64,
) -> bool {
    match read {
        Ok(attributes) => {
            &&& attributes.len() == before.len() + items.len()
            &&& attributes.take(before.len() as int) == before
            &&& are_read(attributes.skip(before.len() as int), items, position)
            &&& limit matches Some(maximum) ==> (items.len() > 0 ==> attributes.len() <= maximum)
        },
        Err(e) => exists|i: int|
            #![trigger items[i]]
            {
                &&& 0 <= i < items.len()
                &&& forall|j: int| 0 <= j < i ==> readable(#[trigger] items[j], position)
                &&& limit matches Some(maximum) ==> (i > 0 ==> before.len() + i <= maximum)
                &&& if readable(items[i], position) {
                    limit matches Some(maximum) && maximum < before.len() + i + 1 && e == (
                    ErrorView::LimitExceeded {
                        limit: ParseLimit::AttributesPerElement,
                        maximum,
                        actual: (before.len() + i + 1) as usize,
                        position,
                    })
                } else {
                    unread(items[i], position, e)
                }
            },
    }
}

proof fn lemma_attributes_are_read(
    items: Seq<Option<RawAttribute>>,
    limit: Option<usize>,
    position: u64,
    before: Seq<AttributeView>,
)
    ensures
        attributes_or_error(
            tree::collected_attributes(items, limit, position, before),
            before,
            items,
            limit,
            position,
        ),
    decreases items.len(),
{
    let read = tree::collected_attributes(items, limit, position, before);
    if items.len() == 0 {
        assert(before.take(before.len() as int) =~= before);
    } else {
        let rest = items.drop_first();
        if readable(items[0], position) {
            let raw = items[0]->0;
            decode_utf8_encode_utf8(raw.key);
            let name = tree::name_text(raw.key, position)->Ok_0;
            let value = lexical::attribute_value(raw.value, position)->Ok_0;
            let first = AttributeView { name, value };
            let next = before.push(first);
            if tree::within(limit, next.len(), ParseLimit::AttributesPerElement, position) is Ok {
                lemma_attributes_are_read(rest, limit, position, next);
                assert(read == tree::collected_attributes(rest, limit, position, next));
                match read {
                    Ok(attributes) => {
                        let mine = attributes.skip(before.len() as int);
                        let later = attributes.skip(next.len() as int);
                        assert(attributes.take(next.len() as int)[before.len() as int] == first);
                        assert(attributes.take(before.len() as int) =~= attributes.take(
                            next.len() as int,
                        ).take(before.len() as int));
                        assert(next.take(before.len() as int) =~= before);
                        assert forall|i: int| 0 <= i < items.len() implies {
                            &&& readable(#[trigger] items[i], position)
                            &&& encode_utf8(mine[i].name) == items[i]->0.key
                            &&& lexical::attribute_value(items[i]->0.value, position) == Ok::<
                                Seq<char>,
                                ErrorView,
                            >(mine[i].value)
                        } by {
                            if i == 0 {
                                assert(mine[0] == first);
                            } else {
                                assert(items[i] == rest[i - 1]);
                                assert(mine[i] == later[i - 1]);
                            }
                        }
                    },
                    Err(e) => {
                        let i = choose|i: int|
                            #![trigger rest[i]]
                            {
                                &&& 0 <= i < rest.len()
                                &&& forall|j: int|
                                    0 <= j < i ==> readable(#[trigger] rest[j], position)
                                &&& limit matches Some(maximum) ==> (i > 0 ==> next.len() + i
                                    <= maximum)
                                &&& if readable(rest[i], position) {
                                    limit matches Some(maximum) && maximum < next.len() + i + 1 && e
                                        == (ErrorView::LimitExceeded {
                                        limit: ParseLimit::AttributesPerElement,
                                        maximum,
                                        actual: (next.len() + i + 1) as usize,
                                        position,
                                    })
                                } else {
                                    unread(rest[i], position, e)
                                }
                            };
                        assert(items[i + 1] == rest[i]);
                        assert forall|j: int| 0 <= j < i + 1 implies readable(
                            #[trigger] items[j],
                            position,
                        ) by {
                            if j > 0 {
                                assert(items[j] == rest[j - 1]);
                            }
                        }
                    },
                }
            }
        } else {
            assert(unread(items[0], position, read->Err_0));
        }
    }
}

/// The element of a tag has the name of the tag, its attributes, one for each and in
/// order, no children yet, and its place.
pub proof fn law_tag_is_an_element(
    tag: TagView,
    options: ParseOptions,
    position: u64,
    span: Span,
)
    ensures
        tree::tag_element(tag, options, position, span) matches Ok(element) ==> {
            &&& encode_utf8(element.name) == tag.content.take(tag.name_len as int)
            &&& are_read(
                element.attributes,
                reader::tag_attributes(tag.content, tag.name_len),
                position,
            )
            &&& element.children.len() == 0
            &&& element.span == span
        },
{
    let items = reader::tag_attributes(tag.content, tag.name_len);
    let name = tag.content.take(tag.name_len as int);
    if let Ok(element) = tree::tag_element(tag, options, position, span) {
        decode_utf8_encode_utf8(name);
        lemma_attributes_are_read(items, options.max_attributes_per_element, position, seq![]);
        assert(element.attributes.skip(0) =~= element.attributes);
    }
}

/// A tag is an element exactly where its name is UTF-8, each of its attributes can be
/// read, and they are no more than allowed. Otherwise it is refused for its name, or else
/// for the first attribute that cannot be read or is one too many.
pub proof fn law_tag_is_refused(
    tag: TagView,
    options: ParseOptions,
    position: u64,
    span: Span,
)
    ensures
        ({
            let name = tag.content.take(tag.name_len as int);
            let items = reader::tag_attributes(tag.content, tag.name_len);
            let limit = options.max_attributes_per_element;
            let made = tree::tag_element(tag, options, position, span);
            &&& made is Ok <==> {
                &&& valid_utf8(name)
                &&& forall|i: int| 0 <= i < items.len() ==> readable(#[trigger] items[i], position)
                &&& limit matches Some(maximum) ==> items.len() <= maximum
            }
            &&& !valid_utf8(name) ==> made == Err::<ElementView, ErrorView>(
                ErrorView::Utf8 { position, valid_up_to: text::valid_up_to(name) },
            )
            &&& valid_utf8(name) && made is Err ==> attributes_or_error(
                Err(made->Err_0),
                seq![],
                items,
                limit,
                position,
            )
        }),
{
    let items = reader::tag_attributes(tag.content, tag.name_len);
    let limit = options.max_attributes_per_element;
    lemma_attributes_are_read(items, limit, position, seq![]);
    if let Ok(attributes) = tree::collected_attributes(items, limit, position, seq![]) {
        assert(attributes.skip(0) =~= attributes);
    }
}

} // verus!
