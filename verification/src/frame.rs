//! Which edges of a window this program has to offer for resizing when the
//! compositor draws no frame, and how the pointer says which way each goes.

use vstd::prelude::*;

verus! {

/// An edge or corner of the window.
#[derive(Debug, Clone, Copy, PartialEq, Eq, Structural)]
pub enum Edge {
    Top,
    Bottom,
    Left,
    Right,
    TopLeft,
    TopRight,
    BottomLeft,
    BottomRight,
}

/// The pointer shown over an edge: which way dragging it resizes.
#[derive(Debug, Clone, Copy, PartialEq, Eq, Structural)]
pub enum Pointer {
    ResizeUp,
    ResizeDown,
    ResizeLeft,
    ResizeRight,
    /// Along the diagonal from the top left to the bottom right.
    ResizeUpLeftDownRight,
    /// Along the diagonal from the top right to the bottom left.
    ResizeUpRightDownLeft,
}

/// Which sides of the window the compositor has tiled against something.
#[derive(Debug, Clone, Copy, PartialEq, Eq, Structural)]
pub struct Tiling {
    pub top: bool,
    pub bottom: bool,
    pub left: bool,
    pub right: bool,
}

/// The pointer that says which way an edge resizes.
pub fn cursor_for(edge: Edge) -> (r: Pointer)
    ensures
        r == match edge {
            Edge::Top => Pointer::ResizeUp,
            Edge::Bottom => Pointer::ResizeDown,
            Edge::Left => Pointer::ResizeLeft,
            Edge::Right => Pointer::ResizeRight,
            Edge::TopLeft | Edge::BottomRight => Pointer::ResizeUpLeftDownRight,
            Edge::TopRight | Edge::BottomLeft => Pointer::ResizeUpRightDownLeft,
        },
{
    match edge {
        Edge::Top => Pointer::ResizeUp,
        Edge::Bottom => Pointer::ResizeDown,
        Edge::Left => Pointer::ResizeLeft,
        Edge::Right => Pointer::ResizeRight,
        Edge::TopLeft => Pointer::ResizeUpLeftDownRight,
        Edge::TopRight => Pointer::ResizeUpRightDownLeft,
        Edge::BottomLeft => Pointer::ResizeUpRightDownLeft,
        Edge::BottomRight => Pointer::ResizeUpLeftDownRight,
    }
}

/// Whether the compositor has tiled an edge: a side when that side is, a
/// corner when either of its sides is.
pub open spec fn tiled(t: Tiling, edge: Edge) -> bool {
    match edge {
        Edge::Top => t.top,
        Edge::Bottom => t.bottom,
        Edge::Left => t.left,
        Edge::Right => t.right,
        Edge::TopLeft => t.top || t.left,
        Edge::TopRight => t.top || t.right,
        Edge::BottomLeft => t.bottom || t.left,
        Edge::BottomRight => t.bottom || t.right,
    }
}

/// Every edge, in the order the handles are laid.
pub open spec fn all_edges() -> Seq<Edge> {
    seq![
        Edge::Top,
        Edge::Bottom,
        Edge::Left,
        Edge::Right,
        Edge::TopLeft,
        Edge::TopRight,
        Edge::BottomLeft,
        Edge::BottomRight,
    ]
}

/// The edges that get a handle: every one the compositor has not tiled,
/// since dragging a tiled one does nothing and offering it would mislead.
pub fn resize_edges(tiling: Tiling) -> (r: Vec<Edge>)
    ensures
        r@ == all_edges().filter(|e: Edge| !tiled(tiling, e)),
{
    let every = [
        Edge::Top,
        Edge::Bottom,
        Edge::Left,
        Edge::Right,
        Edge::TopLeft,
        Edge::TopRight,
        Edge::BottomLeft,
        Edge::BottomRight,
    ];
    assert(every@ =~= all_edges());
    let mut edges: Vec<Edge> = Vec::new();
    let mut i: usize = 0;
    while i < 8
        invariant
            i <= 8,
            every@ == all_edges(),
            edges@ == all_edges().take(i as int).filter(|e: Edge| !tiled(tiling, e)),
        decreases 8 - i,
    {
        let edge = every[i];
        let is_tiled = match edge {
            Edge::Top => tiling.top,
            Edge::Bottom => tiling.bottom,
            Edge::Left => tiling.left,
            Edge::Right => tiling.right,
            Edge::TopLeft => tiling.top || tiling.left,
            Edge::TopRight => tiling.top || tiling.right,
            Edge::BottomLeft => tiling.bottom || tiling.left,
            Edge::BottomRight => tiling.bottom || tiling.right,
        };
        proof {
            let f = |e: Edge| !tiled(tiling, e);
            assert(all_edges().take(i + 1).drop_last() =~= all_edges().take(i as int));
            all_edges().take(i as int).lemma_filter_push(edge, f);
            assert(all_edges().take(i as int).push(edge) =~= all_edges().take(i + 1));
        }
        if !is_tiled {
            edges.push(edge);
        }
        i = i + 1;
    }
    assert(all_edges().take(8) =~= all_edges());
    edges
}

} // verus!
