//! The limits refuse no document that keeps them.

use crate::builder::BuilderView;
use crate::document::{AttributeView, ElementView, NodeView, Span};
use crate::error::ErrorView;
use crate::options::ParseOptions;
use crate::order::Item;
use crate::reader::{EventView, RawAttribute, ReadStep, TagView};
use crate::{builder, lexical, limits, order, reader, tree};
use vstd::prelude::*;
use vstd::utf8::*;

verus! {

/// Nothing is limited, and a DOCTYPE is allowed.
pub open spec fn unlimited() -> ParseOptions {
    ParseOptions {
        reject_doctype: false,
        max_doctype_len: None,
        max_input_len: None,
        max_depth: None,
        max_nodes: None,
        max_attributes_per_element: None,
    }
}

/// The elements of a document that is being read are nested no deeper than a number.
spec fn no_deeper(state: BuilderView, depth: nat) -> bool {
    &&& state.stack.len() <= depth
    &&& forall|k: int|
        0 <= k < state.stack.len() ==> k + 1 + limits::nodes_depth(
            (#[trigger] state.stack[k]).children,
        ) <= depth
    &&& state.root matches Some(root) ==> limits::element_depth(root) <= depth
}

proof fn lemma_without_child(
    before: BuilderView,
    after: BuilderView,
    child: NodeView,
    depth: nat,
)
    requires
        before.stack.len() > 0,
        after.stack == tree::with_inner_child(before.stack, child),
        after.root == before.root,
        no_deeper(after, depth),
    ensures
        no_deeper(before, depth),
        before.stack.len() + limits::node_depth(child) <= depth,
{
    let last = before.stack.len() - 1;
    limits::lemma_depth_push(before.stack.last().children, child);
    assert(after.stack[last] == tree::with_child(before.stack.last(), child));
    assert forall|k: int| 0 <= k < before.stack.len() implies k + 1 + limits::nodes_depth(
        (#[trigger] before.stack[k]).children,
    ) <= depth by {
        assert(k + 1 + limits::nodes_depth(after.stack[k].children) <= depth);
        if k < last {
            assert(after.stack[k] == before.stack[k]);
        }
    }
    assert(last + 1 + limits::nodes_depth(after.stack[last].children) <= depth);
}

proof fn lemma_without_element(
    before: BuilderView,
    after: BuilderView,
    element: ElementView,
    depth: nat,
)
    requires
        before.with_element(element) == Ok::<BuilderView, ErrorView>(after),
        no_deeper(after, depth),
    ensures
        no_deeper(before, depth),
        before.stack.len() + limits::element_depth(element) <= depth,
{
    if before.stack.len() > 0 {
        lemma_without_child(before, after, NodeView::Element(element), depth);
    }
}

/// What was not too deep after an event was not before it, and neither was the element
/// that the event opened.
proof fn lemma_depth_before(
    state: BuilderView,
    event: EventView,
    options: ParseOptions,
    start: usize,
    end: usize,
    depth: nat,
)
    requires
        state.accept(event, options, 0, start, end) is Ok,
        no_deeper(state.accept(event, options, 0, start, end)->Ok_0, depth),
    ensures
        no_deeper(state, depth),
        event is Start || event is Empty ==> state.stack.len() + 1 <= depth,
{
    let next = state.accept(event, options, 0, start, end)->Ok_0;
    match event {
        EventView::Start(tag) => {
            assert forall|k: int| 0 <= k < state.stack.len() implies k + 1 + limits::nodes_depth(
                (#[trigger] state.stack[k]).children,
            ) <= depth by {
                assert(next.stack[k] == state.stack[k]);
            }
        },
        EventView::Empty(tag) => {
            let (counted, element) = state.open_tag(tag, options, 0, Span { start, end })->Ok_0;
            lemma_without_element(counted, next, element, depth);
        },
        EventView::End(name) => {
            let element = state.stack.last();
            let closed = ElementView { span: Span { start: element.span.start, end }, ..element };
            let outer = BuilderView { stack: state.stack.drop_last(), ..state };
            lemma_without_element(outer, next, closed, depth);
            assert forall|k: int| 0 <= k < state.stack.len() implies k + 1 + limits::nodes_depth(
                (#[trigger] state.stack[k]).children,
            ) <= depth by {
                if k < outer.stack.len() {
                    assert(outer.stack[k] == state.stack[k]);
                }
            }
        },
        EventView::Eof => {},
        _ => {
            let counted = state.count(options, 0)->Ok_0;
            let node = builder::event_node(event, state.stack.len() > 0, options, 0)->Ok_0;
            if state.stack.len() > 0 {
                lemma_without_child(counted, next, node, depth);
            }
        },
    }
}

/// A document that is being read is nested no deeper than the tree that it becomes.
proof fn lemma_depth_of_tree(
    state: BuilderView,
    steps: Seq<ReadStep>,
    from: nat,
    options: ParseOptions,
)
    ensures
        builder::tree_from(state, steps, from, options) matches Ok(parsed) ==> no_deeper(
            state,
            limits::element_depth(parsed.root),
        ),
    decreases steps.len(),
{
    match reader::next_step(steps) {
        None => {},
        Some(EventView::Eof) => {},
        Some(event) => {
            let (start, end) = (from as usize, steps[0].end as usize);
            if let Ok(next) = state.accept(event, options, 0, start, end) {
                lemma_depth_of_tree(next, steps.drop_first(), steps[0].end, options);
                if let Ok(parsed) = builder::tree_from(state, steps, from, options) {
                    let depth = limits::element_depth(parsed.root);
                    lemma_depth_before(state, event, options, start, end, depth);
                }
            }
        },
    }
}

/// Attributes that are no more than allowed are read as without a limit.
proof fn lemma_attributes_allowed(
    items: Seq<Option<RawAttribute>>,
    limit: Option<usize>,
    position: u64,
    done: Seq<AttributeView>,
)
    requires
        tree::collected_attributes(items, None, position, done) is Ok,
        limits::at_most(
            tree::collected_attributes(items, None, position, done)->Ok_0.len(),
            limit,
        ),
    ensures
        tree::collected_attributes(items, None, position, done)->Ok_0.len() >= done.len(),
        tree::collected_attributes(items, limit, position, done) == tree::collected_attributes(
            items,
            None,
            position,
            done,
        ),
    decreases items.len(),
{
    if items.len() > 0 {
        let raw = items[0]->0;
        let name = tree::name_text(raw.key, position)->Ok_0;
        let value = lexical::attribute_value(raw.value, position)->Ok_0;
        let next = done.push(AttributeView { name, value });
        assert(tree::collected_attributes(items, None, position, done)
            == tree::collected_attributes(items.drop_first(), None, position, next));
        lemma_attributes_allowed(items.drop_first(), limit, position, next);
    }
}

/// A tag whose attributes are no more than allowed is read as without a limit.
proof fn lemma_tag_allowed(tag: TagView, options: ParseOptions, span: Span)
    requires
        tree::tag_element(tag, unlimited(), 0, span) is Ok,
        limits::at_most(
            tree::tag_element(tag, unlimited(), 0, span)->Ok_0.attributes.len(),
            options.max_attributes_per_element,
        ),
    ensures
        tree::tag_element(tag, options, 0, span) == tree::tag_element(tag, unlimited(), 0, span),
{
    lemma_attributes_allowed(
        reader::tag_attributes(tag.content, tag.name_len),
        options.max_attributes_per_element,
        0,
        seq![],
    );
}

/// An event is accepted to the same effect as without limits, where the document after it
/// keeps them.
proof fn lemma_event_allowed(
    state: BuilderView,
    event: EventView,
    options: ParseOptions,
    start: usize,
    end: usize,
)
    requires
        state.accept(event, unlimited(), 0, start, end) is Ok,
        limits::items_within(order::event_items(event, unlimited()), options),
        event is Start || event is Empty ==> limits::at_most(
            state.stack.len() + 1,
            options.max_depth,
        ),
        limits::at_most(
            state.accept(event, unlimited(), 0, start, end)->Ok_0.node_count as nat,
            options.max_nodes,
        ),
    ensures
        state.accept(event, options, 0, start, end) == state.accept(
            event,
            unlimited(),
            0,
            start,
            end,
        ),
{
    let items = order::event_items(event, unlimited());
    let span = Span { start, end };
    let nowhere = Span { start: 0, end: 0 };
    match event {
        EventView::Start(tag) => {
            assert(limits::item_within(items[0], options));
            assert(tree::tag_element(tag, unlimited(), 0, span)->Ok_0.attributes
                == tree::tag_element(tag, unlimited(), 0, nowhere)->Ok_0.attributes);
            lemma_tag_allowed(tag, options, span);
        },
        EventView::Empty(tag) => {
            assert(limits::item_within(items[0], options));
            assert(tree::tag_element(tag, unlimited(), 0, span)->Ok_0.attributes
                == tree::tag_element(tag, unlimited(), 0, nowhere)->Ok_0.attributes);
            lemma_tag_allowed(tag, options, span);
        },
        EventView::DocType(bytes) => {
            assert(limits::item_within(items[0], options));
            decode_utf8_encode_utf8(bytes);
        },
        _ => {},
    }
}

/// No more nodes have been counted than there are.
proof fn lemma_count(
    state: BuilderView,
    event: EventView,
    options: ParseOptions,
    start: usize,
    end: usize,
)
    requires
        state.root is None ==> state.epilog.len() == 0,
        state.node_count <= limits::node_total(order::state_items(state)),
    ensures
        state.accept(event, options, 0, start, end) matches Ok(next) ==> next.node_count
            <= limits::node_total(order::state_items(next)),
{
    if let Ok(next) = state.accept(event, options, 0, start, end) {
        let items = order::event_items(event, options);
        order::lemma_accept_items(state, event, options, start, end);
        limits::lemma_node_total_concat(order::state_items(state), items);
        reveal_with_fuel(limits::node_total, 3);
        match event {
            EventView::Start(tag) => {
                assert(items.drop_last() =~= Seq::<Item>::empty());
            },
            EventView::Empty(tag) => {
                assert(items.drop_last().drop_last() =~= Seq::<Item>::empty());
            },
            EventView::End(_) => {},
            EventView::Eof => {},
            _ => {
                assert(items.drop_last() =~= Seq::<Item>::empty());
            },
        }
    }
}

proof fn lemma_rest_allowed(
    state: BuilderView,
    steps: Seq<ReadStep>,
    from: nat,
    options: ParseOptions,
)
    requires
        state.root is None ==> state.epilog.len() == 0,
        state.node_count <= limits::node_total(order::state_items(state)),
        builder::tree_from(state, steps, from, unlimited()) matches Ok(parsed)
            && limits::within_limits(parsed, options),
    ensures
        builder::tree_from(state, steps, from, options) == builder::tree_from(
            state,
            steps,
            from,
            unlimited(),
        ),
    decreases steps.len(),
{
    match reader::next_step(steps) {
        None => {},
        Some(EventView::Eof) => {},
        Some(event) => {
            let (start, end) = (from as usize, steps[0].end as usize);
            let next = state.accept(event, unlimited(), 0, start, end)->Ok_0;
            let rest = steps.drop_first();
            let parsed = builder::tree_from(state, steps, from, unlimited())->Ok_0;
            let all = order::tree_items(parsed);
            let here = order::event_items(event, unlimited());
            let later = order::steps_items(rest, unlimited());
            order::lemma_accept_items(state, event, unlimited(), start, end);
            lemma_count(state, event, unlimited(), start, end);
            order::lemma_tree_from_items(next, rest, steps[0].end, unlimited());
            assert(all == order::state_items(next) + later);
            limits::lemma_node_total_concat(order::state_items(next), later);
            assert forall|i: int| 0 <= i < here.len() implies limits::item_within(
                #[trigger] here[i],
                options,
            ) by {
                assert(all[order::state_items(state).len() + i] == here[i]);
            }
            lemma_depth_of_tree(next, rest, steps[0].end, unlimited());
            let depth = limits::element_depth(parsed.root);
            lemma_depth_before(state, event, unlimited(), start, end, depth);
            lemma_event_allowed(state, event, options, start, end);
            lemma_rest_allowed(next, rest, steps[0].end, options);
        },
    }
}

/// A document that is accepted without limits is accepted under any limits that its text
/// and its tree keep, with the same tree.
pub proof fn law_what_keeps_the_limits_is_accepted(input: Seq<char>, options: ParseOptions)
    requires
        limits::at_most(encode_utf8(input).len(), options.max_input_len),
        builder::document_tree(input, unlimited()) matches Ok(parsed) && limits::within_limits(
            parsed,
            options,
        ),
    ensures
        builder::document_tree(input, options) == builder::document_tree(input, unlimited()),
{
    let state = BuilderView::empty();
    lemma_rest_allowed(state, reader::document_steps(input, false, true), 0, options);
}

} // verus!
