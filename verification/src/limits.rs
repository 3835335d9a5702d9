//! What the limits of the parser mean for a tree, and that a limit does nothing but
//! refuse.

use crate::builder::BuilderView;
use crate::document::{AttributeView, ElementView, NodeView, Span};
use crate::error::ErrorView;
use crate::options::ParseOptions;
use crate::order::Item;
use crate::reader::{EventView, RawAttribute, ReadStep, TagView};
use crate::tree::TreeView;
use crate::{builder, lexical, order, reader, tree};
use vstd::prelude::*;
use vstd::utf8::*;

verus! {

/// A number does not exceed a limit.
pub open spec fn at_most(actual: nat, limit: Option<usize>) -> bool {
    limit matches Some(maximum) ==> actual <= maximum
}

/// An element has no more attributes than is allowed, and a DOCTYPE declaration is
/// allowed and no longer than it may be.
pub open spec fn item_within(item: Item, options: ParseOptions) -> bool {
    match item {
        Item::Open { attributes, .. } => at_most(
            attributes.len(),
            options.max_attributes_per_element,
        ),
        Item::Leaf(NodeView::DocType(value)) => {
            &&& !options.reject_doctype
            &&& at_most(encode_utf8(value).len(), options.max_doctype_len)
        },
        _ => true,
    }
}

pub open spec fn items_within(items: Seq<Item>, options: ParseOptions) -> bool {
    forall|i: int| 0 <= i < items.len() ==> item_within(#[trigger] items[i], options)
}

/// How deep elements are nested in an element, itself counted.
pub open spec fn element_depth(element: ElementView) -> nat
    decreases element,
{
    1 + nodes_depth(element.children)
}

/// How deep elements are nested in a node.
pub open spec fn node_depth(node: NodeView) -> nat
    decreases node,
{
    match node {
        NodeView::Element(element) => element_depth(element),
        _ => 0,
    }
}

/// How deep elements are nested in nodes that follow each other.
pub open spec fn nodes_depth(nodes: Seq<NodeView>) -> nat
    decreases nodes,
{
    if nodes.len() == 0 {
        0
    } else {
        let before = nodes_depth(nodes.drop_last());
        let last = node_depth(nodes.last());
        if before >= last {
            before
        } else {
            last
        }
    }
}

/// The number of nodes among items: elements are counted where they begin.
pub open spec fn node_total(items: Seq<Item>) -> nat
    decreases items.len(),
{
    if items.len() == 0 {
        0
    } else if items.last() is Close {
        node_total(items.drop_last())
    } else {
        node_total(items.drop_last()) + 1
    }
}

/// A tree keeps the limits on its depth, its nodes, its attributes and its DOCTYPE
/// declarations.
pub open spec fn within_limits(parsed: TreeView, options: ParseOptions) -> bool {
    &&& items_within(order::tree_items(parsed), options)
    &&& at_most(element_depth(parsed.root), options.max_depth)
    &&& at_most(node_total(order::tree_items(parsed)), options.max_nodes)
}

/// The attributes that a tag gives keep the limit.
proof fn lemma_collected_within(
    items: Seq<Option<RawAttribute>>,
    limit: Option<usize>,
    position: u64,
    done: Seq<AttributeView>,
)
    requires
        at_most(done.len(), limit),
    ensures
        tree::collected_attributes(items, limit, position, done) matches Ok(attributes) ==> at_most(
            attributes.len(),
            limit,
        ),
    decreases items.len(),
{
    if let Ok(attributes) = tree::collected_attributes(items, limit, position, done) {
        if items.len() > 0 {
            let raw = items[0]->0;
            let name = tree::name_text(raw.key, position)->Ok_0;
            let value = lexical::attribute_value(raw.value, position)->Ok_0;
            let next = done.push(AttributeView { name, value });
            lemma_collected_within(items.drop_first(), limit, position, next);
        }
    }
}

/// The items of an event keep the limits.
proof fn lemma_event_within(event: EventView, options: ParseOptions)
    ensures
        items_within(order::event_items(event, options), options),
{
    match event {
        EventView::Start(tag) => {
            lemma_tag_within(tag, options);
        },
        EventView::Empty(tag) => {
            lemma_tag_within(tag, options);
        },
        EventView::DocType(bytes) => {
            if valid_utf8(bytes) {
                decode_utf8_encode_utf8(bytes);
            }
        },
        _ => {},
    }
}

/// The element of a tag keeps the limit.
proof fn lemma_tag_within(tag: TagView, options: ParseOptions)
    ensures
        tree::tag_element(tag, options, 0, Span { start: 0, end: 0 }) matches Ok(element)
            ==> item_within(order::opening(element), options),
{
    lemma_collected_within(
        reader::tag_attributes(tag.content, tag.name_len),
        options.max_attributes_per_element,
        0,
        seq![],
    );
}

/// The items of a document keep the limits.
proof fn lemma_steps_within(steps: Seq<ReadStep>, options: ParseOptions)
    ensures
        items_within(order::steps_items(steps, options), options),
    decreases steps.len(),
{
    match reader::next_step(steps) {
        None => {},
        Some(EventView::Eof) => {},
        Some(event) => {
            let here = order::event_items(event, options);
            let rest = order::steps_items(steps.drop_first(), options);
            lemma_event_within(event, options);
            lemma_steps_within(steps.drop_first(), options);
            assert forall|i: int| 0 <= i < (here + rest).len() implies item_within(
                #[trigger] (here + rest)[i],
                options,
            ) by {
                if i < here.len() {
                    assert((here + rest)[i] == here[i]);
                } else {
                    assert((here + rest)[i] == rest[i - here.len()]);
                }
            }
        },
    }
}

/// The elements of a document that is being read are nested no deeper than is allowed.
pub open spec fn depth_kept(state: BuilderView, options: ParseOptions) -> bool {
    &&& at_most(state.stack.len(), options.max_depth)
    &&& forall|k: int|
        0 <= k < state.stack.len() ==> at_most(
            (k + 1 + nodes_depth((#[trigger] state.stack[k]).children)) as nat,
            options.max_depth,
        )
    &&& state.root matches Some(root) ==> at_most(element_depth(root), options.max_depth)
}

/// One more node nests elements as deep as the nodes before it or as the node.
pub proof fn lemma_depth_push(nodes: Seq<NodeView>, node: NodeView)
    ensures
        nodes_depth(nodes.push(node)) == (if nodes_depth(nodes) >= node_depth(node) {
            nodes_depth(nodes)
        } else {
            node_depth(node)
        }),
{
    assert(nodes.push(node).drop_last() =~= nodes);
}

/// A child of the innermost open element keeps the depth, where it is not too deep.
proof fn lemma_inner_child_depth(state: BuilderView, child: NodeView, options: ParseOptions)
    requires
        depth_kept(state, options),
        state.stack.len() > 0,
        at_most(state.stack.len() + node_depth(child), options.max_depth),
    ensures
        depth_kept(
            BuilderView { stack: tree::with_inner_child(state.stack, child), ..state },
            options,
        ),
{
    let stack = tree::with_inner_child(state.stack, child);
    lemma_depth_push(state.stack.last().children, child);
    assert forall|k: int| 0 <= k < stack.len() implies at_most(
        (k + 1 + nodes_depth((#[trigger] stack[k]).children)) as nat,
        options.max_depth,
    ) by {
        if k < state.stack.len() - 1 {
            assert(stack[k] == state.stack[k]);
        } else {
            assert(stack[k] == tree::with_child(state.stack.last(), child));
            assert(state.stack.last() == state.stack[k]);
        }
    }
}

/// An event keeps the depth.
proof fn lemma_accept_depth(
    state: BuilderView,
    event: EventView,
    options: ParseOptions,
    start: usize,
    end: usize,
)
    requires
        depth_kept(state, options),
    ensures
        state.accept(event, options, 0, start, end) matches Ok(next) ==> depth_kept(next, options),
{
    if let Ok(next) = state.accept(event, options, 0, start, end) {
        match event {
            EventView::Start(tag) => {
                let (counted, element) = state.open_tag(
                    tag,
                    options,
                    0,
                    Span { start, end },
                )->Ok_0;
                assert forall|k: int| 0 <= k < next.stack.len() implies at_most(
                    (k + 1 + nodes_depth((#[trigger] next.stack[k]).children)) as nat,
                    options.max_depth,
                ) by {
                    if k < state.stack.len() {
                        assert(next.stack[k] == state.stack[k]);
                    }
                }
            },
            EventView::Empty(tag) => {
                let (counted, element) = state.open_tag(
                    tag,
                    options,
                    0,
                    Span { start, end },
                )->Ok_0;
                assert(depth_kept(counted, options));
                if state.stack.len() > 0 {
                    lemma_inner_child_depth(counted, NodeView::Element(element), options);
                }
            },
            EventView::End(name) => {
                let element = state.stack.last();
                let closed = ElementView { span: Span { start: element.span.start, end }, ..element };
                let outer = BuilderView { stack: state.stack.drop_last(), ..state };
                assert(state.stack[state.stack.len() - 1] == element);
                assert(depth_kept(outer, options)) by {
                    assert forall|k: int| 0 <= k < outer.stack.len() implies at_most(
                        (k + 1 + nodes_depth((#[trigger] outer.stack[k]).children)) as nat,
                        options.max_depth,
                    ) by {
                        assert(outer.stack[k] == state.stack[k]);
                    }
                }
                if outer.stack.len() > 0 {
                    lemma_inner_child_depth(outer, NodeView::Element(closed), options);
                }
            },
            EventView::Eof => {},
            _ => {
                let counted = state.count(options, 0)->Ok_0;
                assert(depth_kept(counted, options));
                let node = builder::event_node(event, state.stack.len() > 0, options, 0)->Ok_0;
                if state.stack.len() > 0 {
                    lemma_inner_child_depth(counted, node, options);
                }
            },
        }
    }
}

/// Reading what is left keeps the depth.
proof fn lemma_tree_depth(
    state: BuilderView,
    steps: Seq<ReadStep>,
    from: nat,
    options: ParseOptions,
)
    requires
        depth_kept(state, options),
    ensures
        builder::tree_from(state, steps, from, options) matches Ok(parsed) ==> at_most(
            element_depth(parsed.root),
            options.max_depth,
        ),
    decreases steps.len(),
{
    match reader::next_step(steps) {
        None => {},
        Some(EventView::Eof) => {},
        Some(event) => {
            let end = steps[0].end;
            lemma_accept_depth(state, event, options, from as usize, end as usize);
            if let Ok(next) = state.accept(event, options, 0, from as usize, end as usize) {
                lemma_tree_depth(next, steps.drop_first(), end, options);
            }
        },
    }
}

pub proof fn lemma_node_total_concat(a: Seq<Item>, b: Seq<Item>)
    ensures
        node_total(a + b) == node_total(a) + node_total(b),
    decreases b.len(),
{
    if b.len() == 0 {
        assert(a + b =~= a);
    } else {
        assert((a + b).drop_last() =~= a + b.drop_last());
        lemma_node_total_concat(a, b.drop_last());
    }
}

/// The count of nodes is the number of nodes, and every read adds one at the most.
proof fn lemma_accept_count(
    state: BuilderView,
    event: EventView,
    options: ParseOptions,
    start: usize,
    end: usize,
)
    requires
        state.root is None ==> state.epilog.len() == 0,
        state.node_count < usize::MAX,
        node_total(order::state_items(state)) == state.node_count,
    ensures
        state.accept(event, options, 0, start, end) matches Ok(next) ==> {
            &&& next.root is None ==> next.epilog.len() == 0
            &&& node_total(order::state_items(next)) == next.node_count
            &&& next.node_count <= state.node_count + 1
            &&& next.node_count == state.node_count || at_most(
                next.node_count as nat,
                options.max_nodes,
            )
        },
{
    if let Ok(next) = state.accept(event, options, 0, start, end) {
        order::lemma_accept_items(state, event, options, start, end);
        let items = order::event_items(event, options);
        lemma_node_total_concat(order::state_items(state), items);
        reveal_with_fuel(node_total, 3);
        assert(items.len() > 0 ==> items.drop_last().len() == items.len() - 1);
        assert(items.len() == 2 ==> items.drop_last().last() == items[0]);
    }
}

/// Reading what is left keeps the limit on nodes.
proof fn lemma_tree_count(
    state: BuilderView,
    steps: Seq<ReadStep>,
    from: nat,
    options: ParseOptions,
    limit: usize,
)
    requires
        state.root is None ==> state.epilog.len() == 0,
        node_total(order::state_items(state)) == state.node_count,
        state.node_count <= from,
        at_most(state.node_count as nat, options.max_nodes),
        reader::steps_advance(steps, from, limit as nat),
    ensures
        builder::tree_from(state, steps, from, options) matches Ok(parsed) ==> at_most(
            node_total(order::tree_items(parsed)),
            options.max_nodes,
        ),
    decreases steps.len(),
{
    match reader::next_step(steps) {
        None => {},
        Some(EventView::Eof) => {
            if let Ok(parsed) = state.finish(0) {
                assert(order::tree_items(parsed) =~= order::state_items(state));
            }
        },
        Some(event) => {
            let end = steps[0].end;
            reader::lemma_steps_advance(steps, from, limit as nat);
            lemma_accept_count(state, event, options, from as usize, end as usize);
            if let Ok(next) = state.accept(event, options, 0, from as usize, end as usize) {
                lemma_tree_count(next, steps.drop_first(), end, options, limit);
            }
        },
    }
}

/// A tree keeps the limits that it was built with, where every read takes at least one
/// byte.
pub proof fn law_tree_within_limits(steps: Seq<ReadStep>, options: ParseOptions, limit: usize)
    requires
        reader::steps_advance(steps, 0, limit as nat),
    ensures
        builder::tree_from(BuilderView::empty(), steps, 0, options) matches Ok(parsed)
            ==> within_limits(parsed, options),
{
    let state = BuilderView::empty();
    assert(order::state_items(state) =~= seq![]);
    order::lemma_tree_from_items(state, steps, 0, options);
    lemma_steps_within(steps, options);
    lemma_tree_count(state, steps, 0, options, limit);
    lemma_tree_depth(state, steps, 0, options);
    assert(order::state_items(state) + order::steps_items(steps, options) =~= order::steps_items(
        steps,
        options,
    ));
}

/// One limit allows all that another allows.
pub open spec fn looser(strict: Option<usize>, loose: Option<usize>) -> bool {
    loose matches Some(maximum) ==> (strict matches Some(lower) && lower <= maximum)
}

/// Some options allow all that others allow.
pub open spec fn allow_as_much(strict: ParseOptions, loose: ParseOptions) -> bool {
    &&& loose.reject_doctype ==> strict.reject_doctype
    &&& looser(strict.max_doctype_len, loose.max_doctype_len)
    &&& looser(strict.max_input_len, loose.max_input_len)
    &&& looser(strict.max_depth, loose.max_depth)
    &&& looser(strict.max_nodes, loose.max_nodes)
    &&& looser(strict.max_attributes_per_element, loose.max_attributes_per_element)
}

/// A looser limit leaves the attributes of a tag as they are.
proof fn lemma_looser_attributes(
    items: Seq<Option<RawAttribute>>,
    strict: Option<usize>,
    loose: Option<usize>,
    position: u64,
    done: Seq<AttributeView>,
)
    requires
        looser(strict, loose),
    ensures
        tree::collected_attributes(items, strict, position, done) matches Ok(attributes)
            ==> tree::collected_attributes(items, loose, position, done) == Ok::<_, ErrorView>(
            attributes,
        ),
    decreases items.len(),
{
    if let Ok(attributes) = tree::collected_attributes(items, strict, position, done) {
        if items.len() > 0 {
            let raw = items[0]->0;
            let name = tree::name_text(raw.key, position)->Ok_0;
            let value = lexical::attribute_value(raw.value, position)->Ok_0;
            let next = done.push(AttributeView { name, value });
            lemma_looser_attributes(items.drop_first(), strict, loose, position, next);
        }
    }
}

/// Looser options leave the element of a tag as it is.
proof fn lemma_looser_tag(
    tag: TagView,
    strict: ParseOptions,
    loose: ParseOptions,
    position: u64,
    span: Span,
)
    requires
        allow_as_much(strict, loose),
    ensures
        tree::tag_element(tag, strict, position, span) matches Ok(element)
            ==> tree::tag_element(tag, loose, position, span) == Ok::<_, ErrorView>(element),
{
    lemma_looser_attributes(
        reader::tag_attributes(tag.content, tag.name_len),
        strict.max_attributes_per_element,
        loose.max_attributes_per_element,
        position,
        seq![],
    );
}

/// Looser options accept an event to the same effect.
proof fn lemma_looser_accept(
    state: BuilderView,
    event: EventView,
    strict: ParseOptions,
    loose: ParseOptions,
    start: usize,
    end: usize,
)
    requires
        allow_as_much(strict, loose),
    ensures
        state.accept(event, strict, 0, start, end) matches Ok(next) ==> state.accept(
            event,
            loose,
            0,
            start,
            end,
        ) == Ok::<_, ErrorView>(next),
{
    match event {
        EventView::Start(tag) => {
            lemma_looser_tag(tag, strict, loose, 0, Span { start, end });
        },
        EventView::Empty(tag) => {
            lemma_looser_tag(tag, strict, loose, 0, Span { start, end });
        },
        _ => {},
    }
}

/// Looser options read what is left to the same tree.
proof fn lemma_looser_tree(
    state: BuilderView,
    steps: Seq<ReadStep>,
    from: nat,
    strict: ParseOptions,
    loose: ParseOptions,
)
    requires
        allow_as_much(strict, loose),
    ensures
        builder::tree_from(state, steps, from, strict) matches Ok(parsed) ==> builder::tree_from(
            state,
            steps,
            from,
            loose,
        ) == Ok::<_, ErrorView>(parsed),
    decreases steps.len(),
{
    match reader::next_step(steps) {
        None => {},
        Some(EventView::Eof) => {},
        Some(event) => {
            let end = steps[0].end;
            lemma_looser_accept(state, event, strict, loose, from as usize, end as usize);
            if let Ok(next) = state.accept(event, strict, 0, from as usize, end as usize) {
                lemma_looser_tree(next, steps.drop_first(), end, strict, loose);
            }
        },
    }
}

/// A document that is accepted under some options is accepted under all looser ones,
/// with the same tree.
pub proof fn law_looser_options_accept(
    input: Seq<char>,
    strict: ParseOptions,
    loose: ParseOptions,
)
    requires
        allow_as_much(strict, loose),
    ensures
        builder::document_tree(input, strict) matches Ok(parsed) ==> builder::document_tree(
            input,
            loose,
        ) == Ok::<_, ErrorView>(parsed),
{
    lemma_looser_tree(
        BuilderView::empty(),
        reader::document_steps(input, false, true),
        0,
        strict,
        loose,
    );
}

/// Options decide whether a document is accepted, never what it is parsed into.
pub proof fn law_options_only_refuse(input: Seq<char>, a: ParseOptions, b: ParseOptions)
    ensures
        builder::document_tree(input, a) is Ok && builder::document_tree(input, b) is Ok
            ==> builder::document_tree(input, a) == builder::document_tree(input, b),
{
    let unlimited = ParseOptions {
        reject_doctype: false,
        max_doctype_len: None,
        max_input_len: None,
        max_depth: None,
        max_nodes: None,
        max_attributes_per_element: None,
    };
    law_looser_options_accept(input, a, unlimited);
    law_looser_options_accept(input, b, unlimited);
}

} // verus!
