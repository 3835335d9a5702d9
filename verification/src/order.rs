//! Document order: a tree, read from its first node to its last, gives back what the
//! document consists of.

use crate::builder::BuilderView;
use crate::document::{AttributeView, ElementView, NodeView, Span};
use crate::options::ParseOptions;
use crate::reader::{EventView, ReadStep};
use crate::tree::TreeView;
use crate::{builder, reader, tree};
use vstd::prelude::*;

verus! {

/// What a document consists of, in document order.
#[verifier::ext_equal]
pub enum Item {
    /// An element begins.
    Open { name: Seq<char>, attributes: Seq<AttributeView> },
    /// An element ends.
    Close { name: Seq<char> },
    /// A node other than an element.
    Leaf(NodeView),
}

/// The beginning of an element.
pub open spec fn opening(element: ElementView) -> Item {
    Item::Open { name: element.name, attributes: element.attributes }
}

/// The items of an element.
pub open spec fn element_items(element: ElementView) -> Seq<Item>
    decreases element,
{
    seq![opening(element)] + nodes_items(element.children) + seq![
        Item::Close { name: element.name },
    ]
}

/// The items of a node.
pub open spec fn node_items(node: NodeView) -> Seq<Item>
    decreases node,
{
    match node {
        NodeView::Element(element) => element_items(element),
        leaf => seq![Item::Leaf(leaf)],
    }
}

/// The items of nodes that follow each other.
pub open spec fn nodes_items(nodes: Seq<NodeView>) -> Seq<Item>
    decreases nodes,
{
    if nodes.len() == 0 {
        seq![]
    } else {
        nodes_items(nodes.drop_last()) + node_items(nodes.last())
    }
}

/// The items of a document.
pub open spec fn tree_items(tree: TreeView) -> Seq<Item> {
    nodes_items(tree.prolog) + element_items(tree.root) + nodes_items(tree.epilog)
}

/// The items that an event stands for.
pub open spec fn event_items(event: EventView, options: ParseOptions) -> Seq<Item> {
    let span = Span { start: 0, end: 0 };
    match event {
        EventView::Start(tag) => match tree::tag_element(tag, options, 0, span) {
            Ok(element) => seq![opening(element)],
            Err(_) => seq![],
        },
        EventView::Empty(tag) => match tree::tag_element(tag, options, 0, span) {
            Ok(element) => seq![opening(element), Item::Close { name: element.name }],
            Err(_) => seq![],
        },
        EventView::End(name) => match tree::name_text(name, 0) {
            Ok(name) => seq![Item::Close { name }],
            Err(_) => seq![],
        },
        EventView::Eof => seq![],
        _ => match builder::event_node(event, true, options, 0) {
            Ok(node) => seq![Item::Leaf(node)],
            Err(_) => seq![],
        },
    }
}

/// The items that the reads of a document stand for.
pub open spec fn steps_items(steps: Seq<ReadStep>, options: ParseOptions) -> Seq<Item>
    decreases steps.len(),
{
    match reader::next_step(steps) {
        None => seq![],
        Some(EventView::Eof) => seq![],
        Some(event) => event_items(event, options) + steps_items(steps.drop_first(), options),
    }
}

/// The items of the elements that are open.
pub open spec fn stack_items(stack: Seq<ElementView>) -> Seq<Item>
    decreases stack.len(),
{
    if stack.len() == 0 {
        seq![]
    } else {
        stack_items(stack.drop_last()) + seq![opening(stack.last())] + nodes_items(
            stack.last().children,
        )
    }
}

/// The items of a document that is being read.
pub open spec fn state_items(state: BuilderView) -> Seq<Item> {
    nodes_items(state.prolog) + (match state.root {
        Some(root) => element_items(root),
        None => seq![],
    }) + nodes_items(state.epilog) + stack_items(state.stack)
}

/// One more node.
proof fn lemma_nodes_items_push(nodes: Seq<NodeView>, node: NodeView)
    ensures
        nodes_items(nodes.push(node)) == nodes_items(nodes) + node_items(node),
{
    assert(nodes.push(node).drop_last() =~= nodes);
}

/// One more open element.
proof fn lemma_stack_items_push(stack: Seq<ElementView>, element: ElementView)
    ensures
        stack_items(stack.push(element)) == stack_items(stack) + seq![opening(element)]
            + nodes_items(element.children),
{
    assert(stack.push(element).drop_last() =~= stack);
}

/// One more child of the innermost open element.
proof fn lemma_inner_child_items(stack: Seq<ElementView>, child: NodeView)
    requires
        stack.len() > 0,
    ensures
        stack_items(tree::with_inner_child(stack, child)) == stack_items(stack) + node_items(child),
{
    lemma_stack_items_push(stack.drop_last(), tree::with_child(stack.last(), child));
    lemma_nodes_items_push(stack.last().children, child);
    assert(stack_items(tree::with_inner_child(stack, child)) =~= stack_items(stack) + node_items(
        child,
    ));
}

/// A finished element adds its items.
proof fn lemma_element_items(state: BuilderView, element: ElementView)
    requires
        state.root is None ==> state.epilog.len() == 0,
    ensures
        state.with_element(element) matches Ok(next) ==> {
            &&& next.root is None ==> next.epilog.len() == 0
            &&& state_items(next) == state_items(state) + element_items(element)
        },
{
    if let Ok(next) = state.with_element(element) {
        if state.stack.len() > 0 {
            lemma_inner_child_items(state.stack, NodeView::Element(element));
        }
        assert(state_items(next) =~= state_items(state) + element_items(element));
    }
}

/// A node adds its items.
proof fn lemma_node_items(state: BuilderView, node: NodeView, position: u64)
    requires
        state.root is None ==> state.epilog.len() == 0,
    ensures
        state.with_node(node, position) matches Ok(next) ==> {
            &&& next.root is None ==> next.epilog.len() == 0
            &&& state_items(next) == state_items(state) + node_items(node)
        },
{
    if let Ok(next) = state.with_node(node, position) {
        if state.stack.len() > 0 {
            lemma_inner_child_items(state.stack, node);
        } else if state.root is Some {
            lemma_nodes_items_push(state.epilog, node);
        } else {
            lemma_nodes_items_push(state.prolog, node);
        }
        assert(state_items(next) =~= state_items(state) + node_items(node));
    }
}

/// An event adds the items that it stands for.
pub proof fn lemma_accept_items(
    state: BuilderView,
    event: EventView,
    options: ParseOptions,
    start: usize,
    end: usize,
)
    requires
        state.root is None ==> state.epilog.len() == 0,
    ensures
        state.accept(event, options, 0, start, end) matches Ok(next) ==> {
            &&& next.root is None ==> next.epilog.len() == 0
            &&& state_items(next) == state_items(state) + event_items(event, options)
        },
{
    if let Ok(next) = state.accept(event, options, 0, start, end) {
        match event {
            EventView::Start(tag) => {
                let (counted, element) = state.open_tag(
                    tag,
                    options,
                    0,
                    Span { start, end },
                )->Ok_0;
                lemma_stack_items_push(state.stack, element);
                assert(nodes_items(element.children) =~= seq![]);
                assert(state_items(next) =~= state_items(state) + seq![opening(element)]);
            },
            EventView::Empty(tag) => {
                let (counted, element) = state.open_tag(
                    tag,
                    options,
                    0,
                    Span { start, end },
                )->Ok_0;
                lemma_element_items(counted, element);
                assert(nodes_items(element.children) =~= seq![]);
                assert(element_items(element) =~= seq![
                    opening(element),
                    Item::Close { name: element.name },
                ]);
            },
            EventView::End(name) => {
                let element = state.stack.last();
                let closed = ElementView { span: Span { start: element.span.start, end }, ..element };
                let outer = BuilderView { stack: state.stack.drop_last(), ..state };
                lemma_element_items(outer, closed);
                assert(state_items(next) =~= state_items(state) + event_items(event, options));
            },
            EventView::Eof => {
                assert(state_items(next) =~= state_items(state) + event_items(event, options));
            },
            _ => {
                let counted = state.count(options, 0)->Ok_0;
                let node = builder::event_node(event, state.stack.len() > 0, options, 0)->Ok_0;
                lemma_node_items(counted, node, 0);
            },
        }
    }
}

/// Reading what is left adds the items that it stands for.
pub proof fn lemma_tree_from_items(
    state: BuilderView,
    steps: Seq<ReadStep>,
    from: nat,
    options: ParseOptions,
)
    requires
        state.root is None ==> state.epilog.len() == 0,
    ensures
        builder::tree_from(state, steps, from, options) matches Ok(parsed) ==> tree_items(parsed)
            == state_items(state) + steps_items(steps, options),
    decreases steps.len(),
{
    match reader::next_step(steps) {
        None => {},
        Some(EventView::Eof) => {
            if let Ok(parsed) = state.finish(0) {
                assert(tree_items(parsed) =~= state_items(state) + steps_items(steps, options));
            }
        },
        Some(event) => {
            let end = steps[0].end;
            lemma_accept_items(state, event, options, from as usize, end as usize);
            if let Ok(next) = state.accept(event, options, 0, from as usize, end as usize) {
                lemma_tree_from_items(next, steps.drop_first(), end, options);
                if let Ok(parsed) = builder::tree_from(state, steps, from, options) {
                    assert(tree_items(parsed) =~= state_items(state) + steps_items(steps, options));
                }
            }
        },
    }
}

/// Parsing keeps the whole document, in its order: the tree gives back the items that
/// the reads of the document stand for, none more and none less.
pub proof fn law_tree_keeps_document(input: Seq<char>, options: ParseOptions)
    ensures
        builder::document_tree(input, options) matches Ok(parsed) ==> tree_items(parsed)
            == steps_items(reader::document_steps(input, false, true), options),
{
    let state = BuilderView::empty();
    lemma_tree_from_items(state, reader::document_steps(input, false, true), 0, options);
    assert(state_items(state) =~= seq![]);
}

} // verus!
