//! Where the elements of a tree stand: the span of an element encloses those of its
//! children, which follow each other without overlap.

use crate::builder::BuilderView;
use crate::document::{ElementView, NodeView, Span};
use crate::options::ParseOptions;
use crate::reader::{EventView, ReadStep};
use crate::{builder, convert, reader, tree};
use std::ops::Range;
use vstd::prelude::*;

verus! {

/// An element takes up some bytes, and its children stand within them, behind the
/// first and before the last.
pub open spec fn element_placed(element: ElementView) -> bool
    decreases element,
{
    &&& element.span.start < element.span.end
    &&& nodes_placed(element.children, element.span.start + 1, element.span.end - 1)
}

/// The elements among some nodes stand between two positions, each behind the one
/// before it.
pub open spec fn nodes_placed(nodes: Seq<NodeView>, from: int, to: int) -> bool
    decreases nodes,
{
    &&& forall|i: int|
        0 <= i < nodes.len() && #[trigger] nodes[i] is Element ==> {
            &&& element_placed(nodes[i]->Element_0)
            &&& from <= nodes[i]->Element_0.span.start
            &&& nodes[i]->Element_0.span.end <= to
        }
    &&& forall|i: int, j: int|
        0 <= i < j < nodes.len() && #[trigger] nodes[i] is Element && #[trigger] nodes[j] is Element
            ==> nodes[i]->Element_0.span.end <= nodes[j]->Element_0.span.start
}

/// The position up to which the children of an open element have been read: that of
/// the next open element, or of the reader.
pub open spec fn read_up_to(stack: Seq<ElementView>, k: int, at: int) -> int {
    if k + 1 < stack.len() {
        stack[k + 1].span.start as int
    } else {
        at
    }
}

/// The elements of a document that is read up to a position are in their places.
pub open spec fn state_placed(state: BuilderView, at: int) -> bool {
    &&& state.root matches Some(root) ==> element_placed(root) && root.span.end <= at
    &&& forall|k: int|
        #![trigger state.stack[k]]
        0 <= k < state.stack.len() ==> {
            let element = state.stack[k];
            &&& element.span.start < element.span.end <= read_up_to(state.stack, k, at)
            &&& nodes_placed(
                element.children,
                element.span.start + 1,
                read_up_to(state.stack, k, at),
            )
        }
}

/// One more node, which, if it is an element, stands behind the others.
proof fn lemma_placed_push(nodes: Seq<NodeView>, node: NodeView, from: int, mid: int, to: int)
    requires
        nodes_placed(nodes, from, mid),
        mid <= to,
        node matches NodeView::Element(element) ==> {
            &&& element_placed(element)
            &&& from <= element.span.start
            &&& mid <= element.span.start
            &&& element.span.end <= to
        },
    ensures
        nodes_placed(nodes.push(node), from, to),
{
    let all = nodes.push(node);
    assert forall|i: int| 0 <= i < all.len() && #[trigger] all[i] is Element implies {
        &&& element_placed(all[i]->Element_0)
        &&& from <= all[i]->Element_0.span.start
        &&& all[i]->Element_0.span.end <= to
    } by {
        if i < nodes.len() {
            assert(all[i] == nodes[i]);
        }
    }
    assert forall|i: int, j: int|
        0 <= i < j < all.len() && #[trigger] all[i] is Element
            && #[trigger] all[j] is Element implies all[i]->Element_0.span.end
        <= all[j]->Element_0.span.start by {
        assert(all[i] == nodes[i]);
        if j < nodes.len() {
            assert(all[j] == nodes[j]);
        }
    }
}

/// What stands between two positions stands between two that lie further apart.
proof fn lemma_placed_wider(nodes: Seq<NodeView>, from: int, mid: int, to: int)
    requires
        nodes_placed(nodes, from, mid),
        mid <= to,
    ensures
        nodes_placed(nodes, from, to),
{
}

/// A child of the innermost open element stands behind its other children.
proof fn lemma_inner_child_placed(state: BuilderView, child: NodeView, at: int, end: int)
    requires
        state_placed(state, at),
        state.stack.len() > 0,
        at <= end,
        child matches NodeView::Element(element) ==> {
            &&& element_placed(element)
            &&& at <= element.span.start
            &&& element.span.end <= end
        },
    ensures
        state_placed(
            BuilderView { stack: tree::with_inner_child(state.stack, child), ..state },
            end,
        ),
{
    let next = BuilderView { stack: tree::with_inner_child(state.stack, child), ..state };
    assert forall|k: int| #![trigger next.stack[k]] 0 <= k < next.stack.len() implies {
        let element = next.stack[k];
        &&& element.span.start < element.span.end <= read_up_to(next.stack, k, end)
        &&& nodes_placed(
            element.children,
            element.span.start + 1,
            read_up_to(next.stack, k, end),
        )
    } by {
        let before = state.stack[k];
        if k == next.stack.len() - 1 {
            assert(next.stack[k] == tree::with_child(before, child));
            lemma_placed_push(before.children, child, before.span.start + 1, at, end);
        } else {
            assert(next.stack[k] == before);
            if k + 1 == next.stack.len() - 1 {
                assert(next.stack[k + 1] == tree::with_child(state.stack[k + 1], child));
            } else {
                assert(next.stack[k + 1] == state.stack[k + 1]);
            }
        }
    }
}

/// An event leaves the elements in their places.
proof fn lemma_accept_placed(
    state: BuilderView,
    event: EventView,
    options: ParseOptions,
    start: usize,
    end: usize,
)
    requires
        state_placed(state, start as int),
        start < end,
    ensures
        state.accept(event, options, 0, start, end) matches Ok(next) ==> state_placed(
            next,
            end as int,
        ),
{
    if let Ok(next) = state.accept(event, options, 0, start, end) {
        match event {
            EventView::Start(tag) => {
                let (counted, element) = state.open_tag(
                    tag,
                    options,
                    0,
                    Span { start, end },
                )->Ok_0;
                assert forall|k: int| #![trigger next.stack[k]] 0 <= k < next.stack.len() implies {
                    let element = next.stack[k];
                    &&& element.span.start < element.span.end <= read_up_to(
                        next.stack,
                        k,
                        end as int,
                    )
                    &&& nodes_placed(
                        element.children,
                        element.span.start + 1,
                        read_up_to(next.stack, k, end as int),
                    )
                } by {
                    if k < state.stack.len() {
                        assert(next.stack[k] == state.stack[k]);
                        if k + 1 < state.stack.len() {
                            assert(next.stack[k + 1] == state.stack[k + 1]);
                        }
                    }
                }
            },
            EventView::Empty(tag) => {
                let (counted, element) = state.open_tag(
                    tag,
                    options,
                    0,
                    Span { start, end },
                )->Ok_0;
                assert(state_placed(counted, start as int));
                if state.stack.len() > 0 {
                    lemma_inner_child_placed(
                        counted,
                        NodeView::Element(element),
                        start as int,
                        end as int,
                    );
                }
            },
            EventView::End(name) => {
                let last = state.stack.len() - 1;
                let element = state.stack[last];
                let closed = ElementView { span: Span { start: element.span.start, end }, ..element };
                let outer = BuilderView { stack: state.stack.drop_last(), ..state };
                let at = if last > 0 {
                    element.span.start as int
                } else {
                    start as int
                };
                lemma_placed_wider(
                    element.children,
                    element.span.start + 1,
                    start as int,
                    end - 1,
                );
                assert(element_placed(closed));
                if last > 0 {
                    let inner = BuilderView { root: None, ..outer };
                    assert(state_placed(inner, at)) by {
                        assert forall|k: int|
                            #![trigger inner.stack[k]]
                            0 <= k < inner.stack.len() implies {
                            let element = inner.stack[k];
                            &&& element.span.start < element.span.end <= read_up_to(
                                inner.stack,
                                k,
                                at,
                            )
                            &&& nodes_placed(
                                element.children,
                                element.span.start + 1,
                                read_up_to(inner.stack, k, at),
                            )
                        } by {
                            assert(inner.stack[k] == state.stack[k]);
                            if k + 1 < inner.stack.len() {
                                assert(inner.stack[k + 1] == state.stack[k + 1]);
                            }
                        }
                    }
                    lemma_inner_child_placed(inner, NodeView::Element(closed), at, end as int);
                }
            },
            EventView::Eof => {
                lemma_state_wider(state, start as int, end as int);
            },
            _ => {
                let counted = state.count(options, 0)->Ok_0;
                assert(state_placed(counted, start as int));
                let node = builder::event_node(event, state.stack.len() > 0, options, 0)->Ok_0;
                if state.stack.len() > 0 {
                    lemma_inner_child_placed(counted, node, start as int, end as int);
                }
            },
        }
    }
}

/// Reading on leaves what has been read in its place.
proof fn lemma_state_wider(state: BuilderView, at: int, end: int)
    requires
        state_placed(state, at),
        at <= end,
    ensures
        state_placed(state, end),
{
    assert forall|k: int| #![trigger state.stack[k]] 0 <= k < state.stack.len() implies {
        let element = state.stack[k];
        &&& element.span.start < element.span.end <= read_up_to(state.stack, k, end)
        &&& nodes_placed(element.children, element.span.start + 1, read_up_to(state.stack, k, end))
    } by {
        lemma_placed_wider(
            state.stack[k].children,
            state.stack[k].span.start + 1,
            read_up_to(state.stack, k, at),
            read_up_to(state.stack, k, end),
        );
    }
}

/// Reading what is left puts the elements into their places.
proof fn lemma_tree_placed(
    state: BuilderView,
    steps: Seq<ReadStep>,
    from: nat,
    options: ParseOptions,
    limit: usize,
)
    requires
        state_placed(state, from as int),
        reader::steps_advance(steps, from, limit as nat),
    ensures
        builder::tree_from(state, steps, from, options) matches Ok(parsed) ==> {
            &&& element_placed(parsed.root)
            &&& parsed.root.span.end <= limit
        },
    decreases steps.len(),
{
    match reader::next_step(steps) {
        None => {},
        Some(EventView::Eof) => {},
        Some(event) => {
            let end = steps[0].end;
            reader::lemma_steps_advance(steps, from, limit as nat);
            lemma_accept_placed(state, event, options, from as usize, end as usize);
            if let Ok(next) = state.accept(event, options, 0, from as usize, end as usize) {
                lemma_tree_placed(next, steps.drop_first(), end, options, limit);
            }
        },
    }
}

/// In a tree every element stands within its parent, behind its elder siblings, and
/// the root within the document, where every read takes at least one byte.
pub proof fn law_tree_is_placed(steps: Seq<ReadStep>, options: ParseOptions, limit: usize)
    requires
        reader::steps_advance(steps, 0, limit as nat),
    ensures
        builder::tree_from(BuilderView::empty(), steps, 0, options) matches Ok(parsed) ==> {
            &&& element_placed(parsed.root)
            &&& parsed.root.span.end <= limit
        },
{
    lemma_tree_placed(BuilderView::empty(), steps, 0, options, limit);
}

/// Byte ranges that follow each other without overlap, between two positions.
pub open spec fn ranges_ordered(ranges: Seq<Range<usize>>, from: int, to: int) -> bool {
    &&& forall|i: int|
        #![trigger ranges[i]]
        0 <= i < ranges.len() ==> from <= ranges[i].start < ranges[i].end <= to
    &&& forall|i: int, j: int|
        #![trigger ranges[i], ranges[j]]
        0 <= i < j < ranges.len() ==> ranges[i].end <= ranges[j].start
}

/// The elements of one name among nodes that are in their places.
proof fn lemma_named_placed(nodes: Seq<NodeView>, name: Seq<char>, from: int, to: int)
    requires
        nodes_placed(nodes, from, to),
    ensures
        ranges_ordered(convert::spans_of(convert::named(nodes, name)), from, to),
        forall|i: int|
            #![trigger convert::named(nodes, name)[i]]
            0 <= i < convert::named(nodes, name).len() ==> exists|j: int|
                0 <= j < nodes.len() && #[trigger] nodes[j] == NodeView::Element(
                    convert::named(nodes, name)[i],
                ),
    decreases nodes.len(),
{
    if nodes.len() > 0 {
        let before = nodes.drop_last();
        let elements = convert::named(nodes, name);
        let earlier = convert::named(before, name);
        assert(nodes_placed(before, from, to)) by {
            assert forall|i: int| 0 <= i < before.len() implies #[trigger] before[i] == nodes[i] by {}
        }
        lemma_named_placed(before, name, from, to);
        assert forall|i: int| #![trigger elements[i]] 0 <= i < elements.len() implies exists|j: int|
            0 <= j < nodes.len() && #[trigger] nodes[j] == NodeView::Element(elements[i]) by {
            if i < earlier.len() {
                let j = choose|j: int|
                    0 <= j < before.len() && #[trigger] before[j] == NodeView::Element(earlier[i]);
                assert(nodes[j] == NodeView::Element(elements[i]));
            } else {
                assert(nodes[nodes.len() - 1] == NodeView::Element(elements[i]));
            }
        }
        if elements != earlier {
            let ranges = convert::spans_of(elements);
            let earlier_ranges = convert::spans_of(earlier);
            assert forall|i: int| #![trigger ranges[i]] 0 <= i < ranges.len() implies from
                <= ranges[i].start < ranges[i].end <= to by {
                if i < earlier.len() {
                    assert(ranges[i] == earlier_ranges[i]);
                } else {
                    assert(nodes[nodes.len() - 1] is Element);
                }
            }
            assert forall|i: int, j: int|
                #![trigger ranges[i], ranges[j]]
                0 <= i < j < ranges.len() implies ranges[i].end <= ranges[j].start by {
                assert(ranges[i] == earlier_ranges[i]);
                if j < earlier.len() {
                    assert(ranges[j] == earlier_ranges[j]);
                } else {
                    let m = choose|m: int|
                        0 <= m < before.len() && #[trigger] before[m] == NodeView::Element(
                            earlier[i],
                        );
                    assert(nodes[m] == before[m]);
                    assert(nodes[nodes.len() - 1] is Element);
                }
            }
        }
    }
}

/// The prospects of a document stand within its root, each behind the one before it.
pub proof fn law_prospects_are_placed(root: ElementView)
    requires
        element_placed(root),
    ensures
        convert::adf_of_root(root) matches Ok((_, prospect_spans)) ==> ranges_ordered(
            prospect_spans,
            root.span.start + 1,
            root.span.end - 1,
        ),
{
    lemma_named_placed(
        root.children,
        "prospect"@,
        root.span.start + 1,
        root.span.end - 1,
    );
}

} // verus!
