//! How the elements of a tree are written: the span of an element begins with its start
//! tag and ends with a closing bracket.

use crate::builder::BuilderView;
use crate::document::{ElementView, NodeView, Span};
use crate::options::ParseOptions;
use crate::reader::{EventView, ReadStep, TagView};
use crate::{builder, convert, reader, tree};
use std::ops::Range;
use vstd::prelude::*;
use vstd::utf8::*;

verus! {

/// A start tag of a name begins at a position of a text and ends before another.
pub open spec fn tag_begins(text: Seq<u8>, start: int, name: Seq<char>, end: int) -> bool {
    let bytes = encode_utf8(name);
    &&& 0 <= start <= start + 1 + bytes.len() < end <= text.len()
    &&& text[start] == 0x3C
    &&& text.subrange(start + 1, start + 1 + bytes.len()) == bytes
}

/// An element and those within it are written where their spans say: each begins with
/// an opening bracket and its name, and ends with a closing bracket.
pub open spec fn element_written(element: ElementView, text: Seq<u8>) -> bool
    decreases element,
{
    &&& tag_begins(text, element.span.start as int, element.name, element.span.end as int)
    &&& text[element.span.end - 1] == 0x3E
    &&& nodes_written(element.children, text)
}

/// The elements among some nodes are written where their spans say.
pub open spec fn nodes_written(nodes: Seq<NodeView>, text: Seq<u8>) -> bool
    decreases nodes,
{
    forall|i: int|
        0 <= i < nodes.len() && #[trigger] nodes[i] is Element ==> element_written(
            nodes[i]->Element_0,
            text,
        )
}

/// The elements of a document that is read up to a position are written where their
/// spans say.
pub open spec fn state_written(state: BuilderView, text: Seq<u8>, at: int) -> bool {
    &&& state.root matches Some(root) ==> element_written(root, text)
    &&& forall|k: int|
        #![trigger state.stack[k]]
        0 <= k < state.stack.len() ==> {
            &&& tag_begins(text, state.stack[k].span.start as int, state.stack[k].name, at)
            &&& nodes_written(state.stack[k].children, text)
        }
}

/// A child of the innermost open element is written where its span says.
proof fn lemma_inner_child_written(
    state: BuilderView,
    child: NodeView,
    text: Seq<u8>,
    at: int,
    end: int,
)
    requires
        state_written(state, text, at),
        state.stack.len() > 0,
        at <= end <= text.len(),
        child matches NodeView::Element(element) ==> element_written(element, text),
    ensures
        state_written(
            BuilderView { stack: tree::with_inner_child(state.stack, child), ..state },
            text,
            end,
        ),
{
    let stack = tree::with_inner_child(state.stack, child);
    assert forall|k: int| #![trigger stack[k]] 0 <= k < stack.len() implies {
        &&& tag_begins(text, stack[k].span.start as int, stack[k].name, end)
        &&& nodes_written(stack[k].children, text)
    } by {
        let before = state.stack[k];
        if k == stack.len() - 1 {
            assert(stack[k] == tree::with_child(before, child));
            let nodes = before.children.push(child);
            assert forall|i: int| 0 <= i < nodes.len() && #[trigger] nodes[i] is Element implies
                element_written(nodes[i]->Element_0, text) by {
                if i < before.children.len() {
                    assert(nodes[i] == before.children[i]);
                }
            }
        } else {
            assert(stack[k] == before);
        }
    }
}

/// The element of a tag is written where the tag is.
proof fn lemma_tag_written(
    tag: TagView,
    options: ParseOptions,
    start: usize,
    end: usize,
    text: Seq<u8>,
    slash: Seq<u8>,
)
    requires
        start < end <= text.len(),
        tag.name_len <= tag.content.len(),
        text.subrange(start as int, end as int) == seq![0x3Cu8] + tag.content + slash
            + seq![0x3Eu8],
    ensures
        tree::tag_element(tag, options, 0, Span { start, end }) matches Ok(element) ==> {
            &&& tag_begins(text, start as int, element.name, end as int)
            &&& text[end - 1] == 0x3E
            &&& element.children.len() == 0
        },
{
    let bytes = text.subrange(start as int, end as int);
    let content = tag.content;
    let n = tag.name_len as int;
    if let Ok(element) = tree::tag_element(tag, options, 0, Span { start, end }) {
        decode_utf8_encode_utf8(content.take(n));
        assert(text[start as int] == bytes[0]);
        assert(text[end - 1] == bytes[bytes.len() - 1]);
        assert(text.subrange(start + 1, start + 1 + n) =~= content.take(n)) by {
            assert forall|i: int| 0 <= i < n implies text[start + 1 + i] == content[i] by {
                assert(bytes[1 + i] == content[i]);
            }
        }
    }
}

/// An event leaves the elements written where their spans say.
proof fn lemma_accept_written(
    state: BuilderView,
    event: EventView,
    options: ParseOptions,
    start: usize,
    end: usize,
    text: Seq<u8>,
)
    requires
        state_written(state, text, start as int),
        start < end <= text.len(),
        reader::tag_written(Some(event), text.subrange(start as int, end as int)),
    ensures
        state.accept(event, options, 0, start, end) matches Ok(next) ==> state_written(
            next,
            text,
            end as int,
        ),
{
    if let Ok(next) = state.accept(event, options, 0, start, end) {
        let bytes = text.subrange(start as int, end as int);
        match event {
            EventView::Start(tag) => {
                assert(seq![0x3Cu8] + tag.content + seq![0x3Eu8] =~= seq![0x3Cu8] + tag.content
                    + Seq::<u8>::empty() + seq![0x3Eu8]);
                lemma_tag_written(tag, options, start, end, text, seq![]);
                assert forall|k: int| #![trigger next.stack[k]] 0 <= k < next.stack.len() implies {
                    &&& tag_begins(
                        text,
                        next.stack[k].span.start as int,
                        next.stack[k].name,
                        end as int,
                    )
                    &&& nodes_written(next.stack[k].children, text)
                } by {
                    if k < state.stack.len() {
                        assert(next.stack[k] == state.stack[k]);
                    }
                }
            },
            EventView::Empty(tag) => {
                assert(seq![0x3Cu8] + tag.content + seq![0x2Fu8, 0x3Eu8] =~= seq![0x3Cu8]
                    + tag.content + seq![0x2Fu8] + seq![0x3Eu8]);
                lemma_tag_written(tag, options, start, end, text, seq![0x2Fu8]);
                let (counted, element) = state.open_tag(
                    tag,
                    options,
                    0,
                    Span { start, end },
                )->Ok_0;
                assert(state_written(counted, text, start as int));
                if state.stack.len() > 0 {
                    lemma_inner_child_written(
                        counted,
                        NodeView::Element(element),
                        text,
                        start as int,
                        end as int,
                    );
                }
            },
            EventView::End(name) => {
                let last = state.stack.len() - 1;
                let element = state.stack[last];
                let closed = ElementView { span: Span { start: element.span.start, end }, ..element };
                let outer = BuilderView { stack: state.stack.drop_last(), ..state };
                assert(text[end - 1] == bytes.last());
                assert(state_written(outer, text, start as int)) by {
                    assert forall|k: int|
                        #![trigger outer.stack[k]]
                        0 <= k < outer.stack.len() implies {
                        &&& tag_begins(
                            text,
                            outer.stack[k].span.start as int,
                            outer.stack[k].name,
                            start as int,
                        )
                        &&& nodes_written(outer.stack[k].children, text)
                    } by {
                        assert(outer.stack[k] == state.stack[k]);
                    }
                }
                if outer.stack.len() > 0 {
                    lemma_inner_child_written(
                        outer,
                        NodeView::Element(closed),
                        text,
                        start as int,
                        end as int,
                    );
                }
            },
            EventView::Eof => {},
            _ => {
                let counted = state.count(options, 0)->Ok_0;
                assert(state_written(counted, text, start as int));
                let node = builder::event_node(event, state.stack.len() > 0, options, 0)->Ok_0;
                if state.stack.len() > 0 {
                    lemma_inner_child_written(counted, node, text, start as int, end as int);
                }
            },
        }
    }
}

/// Reading what is left puts the elements where they are written.
proof fn lemma_tree_written(
    state: BuilderView,
    steps: Seq<ReadStep>,
    from: nat,
    options: ParseOptions,
    text: Seq<u8>,
)
    requires
        state_written(state, text, from as int),
        text.len() <= usize::MAX,
        reader::steps_advance(steps, from, text.len()),
        reader::tags_written(steps, from, text),
    ensures
        builder::tree_from(state, steps, from, options) matches Ok(parsed) ==> element_written(
            parsed.root,
            text,
        ),
    decreases steps.len(),
{
    match reader::next_step(steps) {
        None => {},
        Some(EventView::Eof) => {},
        Some(event) => {
            let end = steps[0].end;
            reader::lemma_steps_advance(steps, from, text.len());
            reader::lemma_tags_written(steps, from, text);
            lemma_accept_written(state, event, options, from as usize, end as usize, text);
            if let Ok(next) = state.accept(event, options, 0, from as usize, end as usize) {
                lemma_tree_written(next, steps.drop_first(), end, options, text);
            }
        },
    }
}

/// In a tree every element is written where its span says, where the reads of the
/// document take its bytes one after the other and give the tags that stand there.
pub proof fn law_tree_is_written(steps: Seq<ReadStep>, options: ParseOptions, text: Seq<u8>)
    requires
        text.len() <= usize::MAX,
        reader::steps_advance(steps, 0, text.len()),
        reader::tags_written(steps, 0, text),
    ensures
        builder::tree_from(BuilderView::empty(), steps, 0, options) matches Ok(parsed)
            ==> element_written(parsed.root, text),
{
    lemma_tree_written(BuilderView::empty(), steps, 0, options, text);
}

/// The range of a text begins with the start tag of a name and ends with a closing
/// bracket.
pub open spec fn range_written(text: Seq<u8>, range: Range<usize>, name: Seq<char>) -> bool {
    &&& tag_begins(text, range.start as int, name, range.end as int)
    &&& text[range.end - 1] == 0x3E
}

/// The elements of one name are written where their spans say.
proof fn lemma_named_written(nodes: Seq<NodeView>, name: Seq<char>, text: Seq<u8>)
    requires
        nodes_written(nodes, text),
    ensures
        forall|i: int|
            #![trigger convert::spans_of(convert::named(nodes, name))[i]]
            0 <= i < convert::named(nodes, name).len() ==> range_written(
                text,
                convert::spans_of(convert::named(nodes, name))[i],
                name,
            ),
    decreases nodes.len(),
{
    if nodes.len() > 0 {
        let before = nodes.drop_last();
        assert(nodes_written(before, text)) by {
            assert forall|i: int| 0 <= i < before.len() && #[trigger] before[i] is Element implies
                element_written(before[i]->Element_0, text) by {
                assert(before[i] == nodes[i]);
            }
        }
        lemma_named_written(before, name, text);
        let ranges = convert::spans_of(convert::named(nodes, name));
        let earlier = convert::spans_of(convert::named(before, name));
        assert forall|i: int|
            #![trigger ranges[i]]
            0 <= i < convert::named(nodes, name).len() implies range_written(
            text,
            ranges[i],
            name,
        ) by {
            if i < earlier.len() {
                assert(ranges[i] == earlier[i]);
            } else {
                assert(nodes[nodes.len() - 1] is Element);
            }
        }
    }
}

/// The prospects of a document are written where it says that they stand.
pub proof fn law_prospects_are_written(root: ElementView, text: Seq<u8>)
    requires
        element_written(root, text),
    ensures
        convert::adf_of_root(root) matches Ok((_, prospect_spans)) ==> forall|i: int|
            0 <= i < prospect_spans.len() ==> range_written(
                text,
                #[trigger] prospect_spans[i],
                "prospect"@,
            ),
{
    lemma_named_written(root.children, "prospect"@, text);
}

} // verus!
