//! How a tree is built: what each event adds to it, what it leaves alone, and what is
//! refused.

use crate::builder::BuilderView;
use crate::document::{ElementView, NodeView, Span};
use crate::error::ErrorView;
use crate::options::{ParseLimit, ParseOptions};
use crate::reader::{EventView, ReadStep, TagView};
use crate::tree::TreeView;
use crate::{builder, events, limits, reader, tree};
use vstd::prelude::*;
use vstd::utf8::*;

verus! {

/// How many nodes there are with one more. The count stops at the greatest number.
pub open spec fn one_more(count: usize) -> int {
    if count == usize::MAX {
        count as int
    } else {
        count + 1
    }
}

/// The elements around the innermost stay as they are.
pub open spec fn outer_kept(before: Seq<ElementView>, after: Seq<ElementView>) -> bool {
    &&& after.len() == before.len()
    &&& forall|i: int| 0 <= i < before.len() - 1 ==> #[trigger] after[i] == before[i]
}

/// The innermost element has one more child, behind the others, and nothing else of it
/// and of the elements around it is changed.
pub open spec fn child_added(
    before: Seq<ElementView>,
    after: Seq<ElementView>,
    child: NodeView,
) -> bool {
    let (old_inner, new_inner) = (before.last(), after.last());
    &&& before.len() > 0
    &&& outer_kept(before, after)
    &&& new_inner.name == old_inner.name
    &&& new_inner.attributes == old_inner.attributes
    &&& new_inner.span == old_inner.span
    &&& new_inner.children.len() == old_inner.children.len() + 1
    &&& new_inner.children.last() == child
    &&& forall|i: int|
        0 <= i < old_inner.children.len() ==> #[trigger] new_inner.children[i]
            == old_inner.children[i]
}

/// Nothing but the open elements and the count is changed.
pub open spec fn outside_kept(before: BuilderView, after: BuilderView) -> bool {
    &&& after.root == before.root
    &&& after.prolog == before.prolog
    &&& after.epilog == before.epilog
}

/// A start tag opens an element inside of the innermost one: it has the name, the
/// attributes and the place of the tag, and no children. It is counted, and nothing else
/// is changed.
pub proof fn law_start_tag_opens_an_element(
    state: BuilderView,
    tag: TagView,
    options: ParseOptions,
    position: u64,
    start: usize,
    end: usize,
)
    ensures
        state.accept(EventView::Start(tag), options, position, start, end) matches Ok(next) ==> {
            let element = next.stack.last();
            &&& next.stack.len() == state.stack.len() + 1
            &&& forall|i: int| 0 <= i < state.stack.len() ==> #[trigger] next.stack[i]
                == state.stack[i]
            &&& encode_utf8(element.name) == tag.content.take(tag.name_len as int)
            &&& events::are_read(
                element.attributes,
                reader::tag_attributes(tag.content, tag.name_len),
                position,
            )
            &&& element.children.len() == 0
            &&& element.span == (Span { start, end })
            &&& outside_kept(state, next)
            &&& next.node_count == one_more(state.node_count)
        },
{
    events::law_tag_is_an_element(tag, options, position, Span { start, end });
}

/// A start tag is refused where it nests elements too deep, then where it is one node too
/// many, then for what the tag itself is refused for, and in no other case.
pub proof fn law_start_tag_is_refused(
    state: BuilderView,
    tag: TagView,
    options: ParseOptions,
    position: u64,
    start: usize,
    end: usize,
)
    requires
        state.stack.len() < usize::MAX,
    ensures
        ({
            let accepted = state.accept(EventView::Start(tag), options, position, start, end);
            let depth = state.stack.len() + 1;
            let count = one_more(state.node_count);
            if options.max_depth matches Some(maximum) && depth > maximum {
                accepted == Err::<BuilderView, ErrorView>(
                    ErrorView::LimitExceeded {
                        limit: ParseLimit::Depth,
                        maximum: options.max_depth->0,
                        actual: depth as usize,
                        position,
                    },
                )
            } else if options.max_nodes matches Some(maximum) && count > maximum {
                accepted == Err::<BuilderView, ErrorView>(
                    ErrorView::LimitExceeded {
                        limit: ParseLimit::Nodes,
                        maximum: options.max_nodes->0,
                        actual: count as usize,
                        position,
                    },
                )
            } else {
                match tree::tag_element(tag, options, position, Span { start, end }) {
                    Ok(_) => accepted is Ok,
                    Err(e) => accepted == Err::<BuilderView, ErrorView>(e),
                }
            }
        }),
{
}

/// An empty-element tag does what a start tag and an end tag of its name do together.
pub proof fn law_empty_tag_is_a_start_and_an_end(
    state: BuilderView,
    tag: TagView,
    options: ParseOptions,
    position: u64,
    start: usize,
    end: usize,
)
    ensures
        state.accept(EventView::Empty(tag), options, position, start, end) == (match state.accept(
            EventView::Start(tag),
            options,
            position,
            start,
            end,
        ) {
            Ok(opened) => opened.accept(
                EventView::End(tag.content.take(tag.name_len as int)),
                options,
                position,
                start,
                end,
            ),
            Err(e) => Err(e),
        }),
{
    if let Ok(opened) = state.accept(EventView::Start(tag), options, position, start, end) {
        assert(opened.stack.drop_last() =~= state.stack);
        assert((BuilderView { stack: opened.stack.drop_last(), ..opened }) == (BuilderView {
            stack: state.stack,
            ..opened
        }));
    }
}

/// An end tag closes the innermost element, which has its name, at its own end. The
/// element becomes the last child of the one around it, or the root where there is none.
pub proof fn law_end_tag_closes_an_element(
    state: BuilderView,
    name: Seq<char>,
    options: ParseOptions,
    position: u64,
    start: usize,
    end: usize,
)
    requires
        state.stack.len() > 0,
        state.stack.last().name == name,
    ensures
        ({
            let inner = state.stack.last();
            let closed = ElementView {
                name,
                attributes: inner.attributes,
                children: inner.children,
                span: Span { start: inner.span.start, end },
            };
            let rest = state.stack.drop_last();
            match state.accept(
                EventView::End(encode_utf8(name)),
                options,
                position,
                start,
                end,
            ) {
                Ok(next) => {
                    &&& next.prolog == state.prolog
                    &&& next.epilog == state.epilog
                    &&& next.node_count == state.node_count
                    &&& rest.len() > 0 ==> child_added(
                        rest,
                        next.stack,
                        NodeView::Element(closed),
                    ) && next.root == state.root
                    &&& rest.len() == 0 ==> {
                        &&& state.root is None
                        &&& next.root == Some(closed)
                        &&& next.stack.len() == 0
                    }
                },
                Err(e) => rest.len() == 0 && state.root is Some && e == ErrorView::MultipleRoots,
            }
        }),
{
    broadcast use {encode_utf8_valid_utf8, encode_utf8_decode_utf8};

}

/// An end tag is refused where no element is open, and where the innermost has another
/// name.
pub proof fn law_end_tag_has_to_match(
    state: BuilderView,
    name: Seq<char>,
    options: ParseOptions,
    position: u64,
    start: usize,
    end: usize,
)
    ensures
        state.stack.len() == 0 ==> state.accept(
            EventView::End(encode_utf8(name)),
            options,
            position,
            start,
            end,
        ) == Err::<BuilderView, ErrorView>(ErrorView::UnexpectedEnd { name, position }),
        state.stack.len() > 0 && state.stack.last().name != name ==> state.accept(
            EventView::End(encode_utf8(name)),
            options,
            position,
            start,
            end,
        ) == Err::<BuilderView, ErrorView>(
            ErrorView::MismatchedEnd {
                expected: state.stack.last().name,
                found: name,
                position,
            },
        ),
{
    broadcast use {encode_utf8_valid_utf8, encode_utf8_decode_utf8};

}

/// What may stand before or behind the root: white space, comments and processing
/// instructions, and before it also declarations.
pub open spec fn may_stand_outside(node: NodeView, behind: bool) -> bool {
    match node {
        NodeView::Text(value) => forall|i: int|
            0 <= i < value.len() ==> #[trigger] value[i] == '\t' || value[i] == '\n' || value[i]
                == '\r' || value[i] == ' ',
        NodeView::Comment(_) => true,
        NodeView::ProcessingInstruction(_) => true,
        NodeView::Declaration(_) => !behind,
        NodeView::DocType(_) => !behind,
        _ => false,
    }
}

/// An event is neither a tag nor the end of the document.
pub open spec fn is_leaf(event: EventView) -> bool {
    !(event is Start || event is Empty || event is End || event is Eof)
}

/// The node of an event becomes the last child of the innermost element. Where none is
/// open, it is put behind what stands before the root, or behind it once there is a root,
/// if it may stand there.
pub proof fn law_node_is_put_in_its_place(
    state: BuilderView,
    event: EventView,
    options: ParseOptions,
    position: u64,
    start: usize,
    end: usize,
)
    requires
        is_leaf(event),
        builder::event_node(event, state.stack.len() > 0, options, position) is Ok,
    ensures
        ({
            let node = builder::event_node(event, state.stack.len() > 0, options, position)->Ok_0;
            match state.accept(event, options, position, start, end) {
                Ok(next) => {
                    &&& next.node_count == one_more(state.node_count)
                    &&& next.root == state.root
                    &&& if state.stack.len() > 0 {
                        child_added(state.stack, next.stack, node) && outside_kept(state, next)
                    } else {
                        &&& may_stand_outside(node, state.root is Some)
                        &&& next.stack.len() == 0
                        &&& state.root is Some ==> next.epilog == state.epilog.push(node)
                            && next.prolog == state.prolog
                        &&& state.root is None ==> next.prolog == state.prolog.push(node)
                            && next.epilog == state.epilog
                    }
                },
                Err(e) => if options.max_nodes matches Some(maximum) && one_more(state.node_count)
                    > maximum {
                    e == (ErrorView::LimitExceeded {
                        limit: ParseLimit::Nodes,
                        maximum: options.max_nodes->0,
                        actual: one_more(state.node_count) as usize,
                        position,
                    })
                } else {
                    &&& state.stack.len() == 0
                    &&& !may_stand_outside(node, state.root is Some)
                    &&& e == (ErrorView::ContentOutsideRoot { position })
                },
            }
        }),
{
    let node = builder::event_node(event, state.stack.len() > 0, options, position)->Ok_0;
    if let NodeView::Text(value) = node {
        assert(tree::blank(value) <==> may_stand_outside(node, state.root is Some));
    }
}

/// An event is refused where it is one node too many, then for what its node is refused
/// for.
pub proof fn law_event_is_refused(
    state: BuilderView,
    event: EventView,
    options: ParseOptions,
    position: u64,
    start: usize,
    end: usize,
)
    requires
        is_leaf(event),
    ensures
        ({
            let accepted = state.accept(event, options, position, start, end);
            let count = one_more(state.node_count);
            if options.max_nodes matches Some(maximum) && count > maximum {
                accepted == Err::<BuilderView, ErrorView>(
                    ErrorView::LimitExceeded {
                        limit: ParseLimit::Nodes,
                        maximum: options.max_nodes->0,
                        actual: count as usize,
                        position,
                    },
                )
            } else {
                builder::event_node(event, state.stack.len() > 0, options, position) matches Err(e)
                    ==> accepted == Err::<BuilderView, ErrorView>(e)
            }
        }),
{
}

/// A document is complete when its root is there and no element is open. The tree has
/// that root, and what was put before and behind it.
pub proof fn law_document_is_complete(state: BuilderView, position: u64)
    ensures
        state.finish(position) matches Ok(made) ==> {
            &&& state.stack.len() == 0
            &&& state.root == Some(made.root)
            &&& state.prolog == made.prolog
            &&& state.epilog == made.epilog
        },
        state.finish(position) matches Err(e) ==> if state.stack.len() > 0 {
            e == (ErrorView::UnexpectedEnd { name: state.stack.last().name, position })
        } else {
            state.root is None && e == ErrorView::MissingRoot
        },
{
}

/// States follow each other by the first of some reads.
pub open spec fn follow(
    states: Seq<BuilderView>,
    steps: Seq<ReadStep>,
    from: nat,
    options: ParseOptions,
) -> bool {
    &&& 0 < states.len() <= steps.len() + 1
    &&& forall|i: int|
        0 <= i < states.len() - 1 ==> {
            &&& (#[trigger] steps[i]).event matches Some(event)
            &&& !(event is Eof)
            &&& states[i].accept(
                event,
                options,
                0,
                reader::step_start(steps, from, i) as usize,
                steps[i].end as usize,
            ) == Ok::<BuilderView, ErrorView>(states[i + 1])
        }
}

/// A document is read event by event: the tree is that of the state which follows by all
/// of them. The first event that is refused, or the first read that fails, ends it with
/// its error.
#[verifier::rlimit(40)]
pub proof fn law_document_is_read_in_turn(
    states: Seq<BuilderView>,
    steps: Seq<ReadStep>,
    from: nat,
    options: ParseOptions,
)
    requires
        follow(states, steps, from, options),
    ensures
        ({
            let n = states.len() - 1;
            let made = builder::tree_from(states[0], steps, from, options);
            if n == steps.len() {
                made == states.last().finish(0)
            } else {
                match steps[n].event {
                    None => made == Err::<TreeView, ErrorView>(ErrorView::Xml { position: 0 }),
                    Some(EventView::Eof) => made == states.last().finish(0),
                    Some(event) => states.last().accept(
                        event,
                        options,
                        0,
                        reader::step_start(steps, from, n) as usize,
                        steps[n].end as usize,
                    ) matches Err(e) ==> made == Err::<TreeView, ErrorView>(e),
                }
            }
        }),
    decreases states.len(),
{
    if states.len() > 1 {
        let rest = steps.drop_first();
        let later = states.drop_first();
        let next = steps[0].end;
        assert(steps[0].event is Some);
        assert forall|i: int| 0 <= i < later.len() - 1 implies {
            &&& (#[trigger] rest[i]).event matches Some(event)
            &&& !(event is Eof)
            &&& later[i].accept(
                event,
                options,
                0,
                reader::step_start(rest, next, i) as usize,
                rest[i].end as usize,
            ) == Ok::<BuilderView, ErrorView>(later[i + 1])
        } by {
            assert(rest[i] == steps[i + 1]);
            if i > 0 {
                assert(rest[i - 1] == steps[i]);
            }
        }
        law_document_is_read_in_turn(later, rest, next, options);
        let n = states.len() - 1;
        assert(later.last() == states.last());
        if n < steps.len() {
            assert(rest[n - 1] == steps[n]);
            if n > 1 {
                assert(rest[n - 2] == steps[n - 1]);
            }
        }
    }
}

/// A text that is too long is refused before it is read. The length counts for nothing
/// else.
pub proof fn law_long_text_is_refused(input: Seq<char>, options: ParseOptions)
    requires
        encode_utf8(input).len() <= usize::MAX,
    ensures
        limits::at_most(encode_utf8(input).len(), options.max_input_len)
            ==> builder::document_tree(input, options) == builder::tree_from(
            BuilderView { stack: seq![], root: None, prolog: seq![], epilog: seq![], node_count: 0 },
            reader::document_steps(input, false, true),
            0,
            options,
        ),
        !limits::at_most(encode_utf8(input).len(), options.max_input_len)
            ==> builder::document_tree(input, options) == Err::<TreeView, ErrorView>(
            ErrorView::LimitExceeded {
                limit: ParseLimit::InputLength,
                maximum: options.max_input_len->0,
                actual: encode_utf8(input).len() as usize,
                position: 0,
            },
        ),
{
}

} // verus!
