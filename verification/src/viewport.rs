//! The visible part of the chunk grid, and how it changes from one view to
//! the next.
//!
//! A view is a rectangle in pixels. Dividing its corners by the size of a
//! chunk gives the chunks it touches, as an inclusive range on each axis. The
//! tracker remembers that range, and for each new view says which chunks came
//! into the range and which left it, provided that no edge of the range moved
//! by more than one chunk.

use vstd::prelude::*;

verus! {

/// A chunk that entered the visible range (`load`) or left it.
#[derive(Debug, Clone, Copy, PartialEq, Eq, Structural)]
pub struct ChunkChange {
    pub x: i32,
    pub y: i32,
    pub load: bool,
}

/// A view rectangle in pixels, relative to the world's origin.
#[derive(Debug, Clone, Copy, PartialEq, Eq, Structural)]
pub struct ViewRect {
    pub left: i32,
    pub top: i32,
    pub right: i32,
    pub bottom: i32,
}

/// The chunks that a view touches: an inclusive range on each axis.
#[derive(Debug, Clone, Copy, PartialEq, Eq, Structural)]
pub struct ChunkBounds {
    pub min_x: i32,
    pub min_y: i32,
    pub max_x: i32,
    pub max_y: i32,
}

/// Why a view was not taken over.
#[derive(Debug, Clone, Copy, PartialEq, Eq, Structural)]
pub enum ViewportError {
    /// A chunk has no width or no height.
    EmptyChunk,
    /// An edge of the visible range moved by more than one chunk.
    StepTooLarge,
}

/// Follows the visible range of chunks from view to view.
#[derive(Debug, Clone, Copy, PartialEq, Eq, Structural)]
pub struct ViewportTracker {
    pub view: ViewRect,
    pub bounds: ChunkBounds,
}

/// Floor of `a / b` for a positive divisor.
pub open spec fn floor_div(a: int, b: int) -> int
    recommends
        b > 0,
{
    a / b
}

/// The range of chunks that `view` touches when a chunk measures
/// `chunk_size` pixels.
pub open spec fn visible_bounds(view: ViewRect, chunk_size: (i32, i32)) -> ChunkBounds
    recommends
        chunk_size.0 > 0,
        chunk_size.1 > 0,
{
    ChunkBounds {
        min_x: floor_div(view.left as int, chunk_size.0 as int) as i32,
        min_y: floor_div(view.top as int, chunk_size.1 as int) as i32,
        max_x: floor_div(view.right as int, chunk_size.0 as int) as i32,
        max_y: floor_div(view.bottom as int, chunk_size.1 as int) as i32,
    }
}

/// No edge lies more than one chunk from where it was.
pub open spec fn single_step(before: ChunkBounds, after: ChunkBounds) -> bool {
    &&& -1 <= after.min_x - before.min_x <= 1
    &&& -1 <= after.max_x - before.max_x <= 1
    &&& -1 <= after.min_y - before.min_y <= 1
    &&& -1 <= after.max_y - before.max_y <= 1
}

/// The chunks `(x, y0), (x, y0 + 1), .., (x, y1)`, all with the same flag.
pub open spec fn column(x: i32, y0: i32, y1: i32, load: bool) -> Seq<ChunkChange> {
    Seq::new(
        if y0 <= y1 {
            (y1 - y0 + 1) as nat
        } else {
            0
        },
        |i: int| (ChunkChange { x, y: (y0 + i) as i32, load }),
    )
}

/// The chunks `(x0, y), (x0 + 1, y), .., (x1, y)`, all with the same flag.
pub open spec fn row(y: i32, x0: i32, x1: i32, load: bool) -> Seq<ChunkChange> {
    Seq::new(
        if x0 <= x1 {
            (x1 - x0 + 1) as nat
        } else {
            0
        },
        |i: int| (ChunkChange { x: (x0 + i) as i32, y, load }),
    )
}

/// Whether an edge that went from `before` to `after` made the range larger.
/// A lower edge does so by falling, an upper edge by rising.
pub open spec fn edge_expands(before: i32, after: i32, lower: bool) -> bool {
    if lower {
        after < before
    } else {
        after > before
    }
}

/// The line of chunks that a moved edge is about: the line it now lies on
/// where the range grew, the line it left where the range shrank.
pub open spec fn edge_line(before: i32, after: i32, lower: bool) -> i32 {
    if edge_expands(before, after, lower) {
        after
    } else {
        before
    }
}

/// What a move of the left (`lower`) or right edge yields: nothing where the
/// edge stayed, else one change for each visible row of the line concerned.
pub open spec fn x_edge_changes(before: i32, after: i32, lower: bool, now: ChunkBounds) -> Seq<
    ChunkChange,
> {
    if before == after {
        Seq::empty()
    } else {
        column(
            edge_line(before, after, lower),
            now.min_y,
            now.max_y,
            edge_expands(before, after, lower),
        )
    }
}

/// What a move of the top (`lower`) or bottom edge yields.
pub open spec fn y_edge_changes(before: i32, after: i32, lower: bool, now: ChunkBounds) -> Seq<
    ChunkChange,
> {
    if before == after {
        Seq::empty()
    } else {
        row(
            edge_line(before, after, lower),
            now.min_x,
            now.max_x,
            edge_expands(before, after, lower),
        )
    }
}

/// The changes from one visible range to the next: those of the left edge,
/// then the right, the top and the bottom one.
pub open spec fn bounds_changes(before: ChunkBounds, after: ChunkBounds) -> Seq<ChunkChange> {
    x_edge_changes(before.min_x, after.min_x, true, after) + x_edge_changes(
        before.max_x,
        after.max_x,
        false,
        after,
    ) + y_edge_changes(before.min_y, after.min_y, true, after) + y_edge_changes(
        before.max_y,
        after.max_y,
        false,
        after,
    )
}

/// A quotient by a positive divisor lies between the dividend and zero.
pub proof fn lemma_floor_div_bounds(a: int, b: int)
    requires
        b > 0,
    ensures
        a >= 0 ==> 0 <= floor_div(a, b) <= a,
        a < 0 ==> a <= floor_div(a, b) < 0,
{
    assert(a >= 0 ==> 0 <= a / b <= a) by (nonlinear_arith)
        requires
            b > 0,
    ;
    assert(a < 0 ==> a <= a / b < 0) by (nonlinear_arith)
        requires
            b > 0,
    ;
}

/// A view that touches the same chunks as the last one brings no change.
pub proof fn lemma_same_bounds_no_changes(bounds: ChunkBounds)
    ensures
        single_step(bounds, bounds),
        bounds_changes(bounds, bounds) == Seq::<ChunkChange>::empty(),
{
    assert(bounds_changes(bounds, bounds) =~= Seq::<ChunkChange>::empty());
}

/// Where one edge moved by one chunk and the other three stayed, the changes
/// are the visible part of one line of chunks and nothing else: the line the
/// edge moved onto, to be loaded, where the range grew; the line it left, to
/// be dropped, where the range shrank.
pub proof fn lemma_one_edge_moved(before: ChunkBounds, after: ChunkBounds)
    ensures
        after == (ChunkBounds { min_x: (before.min_x - 1) as i32, ..before }) && before.min_x
            > i32::MIN ==> bounds_changes(before, after) == column(
            after.min_x,
            after.min_y,
            after.max_y,
            true,
        ),
        after == (ChunkBounds { min_x: (before.min_x + 1) as i32, ..before }) && before.min_x
            < i32::MAX ==> bounds_changes(before, after) == column(
            before.min_x,
            after.min_y,
            after.max_y,
            false,
        ),
        after == (ChunkBounds { max_x: (before.max_x + 1) as i32, ..before }) && before.max_x
            < i32::MAX ==> bounds_changes(before, after) == column(
            after.max_x,
            after.min_y,
            after.max_y,
            true,
        ),
        after == (ChunkBounds { max_x: (before.max_x - 1) as i32, ..before }) && before.max_x
            > i32::MIN ==> bounds_changes(before, after) == column(
            before.max_x,
            after.min_y,
            after.max_y,
            false,
        ),
        after == (ChunkBounds { min_y: (before.min_y - 1) as i32, ..before }) && before.min_y
            > i32::MIN ==> bounds_changes(before, after) == row(
            after.min_y,
            after.min_x,
            after.max_x,
            true,
        ),
        after == (ChunkBounds { min_y: (before.min_y + 1) as i32, ..before }) && before.min_y
            < i32::MAX ==> bounds_changes(before, after) == row(
            before.min_y,
            after.min_x,
            after.max_x,
            false,
        ),
        after == (ChunkBounds { max_y: (before.max_y + 1) as i32, ..before }) && before.max_y
            < i32::MAX ==> bounds_changes(before, after) == row(
            after.max_y,
            after.min_x,
            after.max_x,
            true,
        ),
        after == (ChunkBounds { max_y: (before.max_y - 1) as i32, ..before }) && before.max_y
            > i32::MIN ==> bounds_changes(before, after) == row(
            before.max_y,
            after.min_x,
            after.max_x,
            false,
        ),
{
    let changes = bounds_changes(before, after);
    if after == (ChunkBounds { min_x: (before.min_x - 1) as i32, ..before }) && before.min_x
        > i32::MIN {
        assert(changes =~= column(after.min_x, after.min_y, after.max_y, true));
    }
    if after == (ChunkBounds { min_x: (before.min_x + 1) as i32, ..before }) && before.min_x
        < i32::MAX {
        assert(changes =~= column(before.min_x, after.min_y, after.max_y, false));
    }
    if after == (ChunkBounds { max_x: (before.max_x + 1) as i32, ..before }) && before.max_x
        < i32::MAX {
        assert(changes =~= column(after.max_x, after.min_y, after.max_y, true));
    }
    if after == (ChunkBounds { max_x: (before.max_x - 1) as i32, ..before }) && before.max_x
        > i32::MIN {
        assert(changes =~= column(before.max_x, after.min_y, after.max_y, false));
    }
    if after == (ChunkBounds { min_y: (before.min_y - 1) as i32, ..before }) && before.min_y
        > i32::MIN {
        assert(changes =~= row(after.min_y, after.min_x, after.max_x, true));
    }
    if after == (ChunkBounds { min_y: (before.min_y + 1) as i32, ..before }) && before.min_y
        < i32::MAX {
        assert(changes =~= row(before.min_y, after.min_x, after.max_x, false));
    }
    if after == (ChunkBounds { max_y: (before.max_y + 1) as i32, ..before }) && before.max_y
        < i32::MAX {
        assert(changes =~= row(after.max_y, after.min_x, after.max_x, true));
    }
    if after == (ChunkBounds { max_y: (before.max_y - 1) as i32, ..before }) && before.max_y
        > i32::MIN {
        assert(changes =~= row(before.max_y, after.min_x, after.max_x, false));
    }
}

/// Divides rounding towards negative infinity.
pub fn floor_div_i32(a: i32, b: i32) -> (q: i32)
    requires
        b > 0,
    ensures
        q == floor_div(a as int, b as int),
{
    proof {
        lemma_floor_div_bounds(a as int, b as int);
    }
    match a.checked_div_euclid(b) {
        Some(q) => q,
        None => 0,
    }
}

/// The range of chunks that `view` touches.
pub fn compute_visible_bounds(view: ViewRect, chunk_size: (i32, i32)) -> (b: ChunkBounds)
    requires
        chunk_size.0 > 0,
        chunk_size.1 > 0,
    ensures
        b == visible_bounds(view, chunk_size),
{
    ChunkBounds {
        min_x: floor_div_i32(view.left, chunk_size.0),
        min_y: floor_div_i32(view.top, chunk_size.1),
        max_x: floor_div_i32(view.right, chunk_size.0),
        max_y: floor_div_i32(view.bottom, chunk_size.1),
    }
}

/// Whether no edge moved by more than one chunk.
pub fn is_single_step(before: ChunkBounds, after: ChunkBounds) -> (ok: bool)
    ensures
        ok == single_step(before, after),
{
    let dx0: i64 = after.min_x as i64 - before.min_x as i64;
    let dx1: i64 = after.max_x as i64 - before.max_x as i64;
    let dy0: i64 = after.min_y as i64 - before.min_y as i64;
    let dy1: i64 = after.max_y as i64 - before.max_y as i64;
    -1 <= dx0 && dx0 <= 1 && -1 <= dx1 && dx1 <= 1 && -1 <= dy0 && dy0 <= 1 && -1 <= dy1 && dy1
        <= 1
}

fn push_column(out: &mut Vec<ChunkChange>, x: i32, y0: i32, y1: i32, load: bool)
    ensures
        final(out)@ == old(out)@ + column(x, y0, y1, load),
{
    let ghost start = out@;
    let mut y: i64 = y0 as i64;
    while y <= y1 as i64
        invariant
            y0 <= y,
            y0 <= y1 ==> y <= y1 + 1,
            y0 > y1 ==> y == y0,
            out@.len() == start.len() + (y - y0),
            forall|i: int| 0 <= i < start.len() ==> out@[i] == start[i],
            forall|i: int|
                start.len() <= i < out@.len() ==> out@[i] == (ChunkChange {
                    x,
                    y: (y0 + (i - start.len())) as i32,
                    load,
                }),
        decreases y1 - y + 1,
    {
        out.push(ChunkChange { x, y: y as i32, load });
        y = y + 1;
    }
    assert(out@ =~= start + column(x, y0, y1, load));
}

fn push_row(out: &mut Vec<ChunkChange>, y: i32, x0: i32, x1: i32, load: bool)
    ensures
        final(out)@ == old(out)@ + row(y, x0, x1, load),
{
    let ghost start = out@;
    let mut x: i64 = x0 as i64;
    while x <= x1 as i64
        invariant
            x0 <= x,
            x0 <= x1 ==> x <= x1 + 1,
            x0 > x1 ==> x == x0,
            out@.len() == start.len() + (x - x0),
            forall|i: int| 0 <= i < start.len() ==> out@[i] == start[i],
            forall|i: int|
                start.len() <= i < out@.len() ==> out@[i] == (ChunkChange {
                    x: (x0 + (i - start.len())) as i32,
                    y,
                    load,
                }),
        decreases x1 - x + 1,
    {
        out.push(ChunkChange { x: x as i32, y, load });
        x = x + 1;
    }
    assert(out@ =~= start + row(y, x0, x1, load));
}

impl ChunkChange {
    pub fn new(x: i32, y: i32, load: bool) -> (c: ChunkChange)
        ensures
            c == (ChunkChange { x, y, load }),
    {
        ChunkChange { x, y, load }
    }
}

impl ViewportTracker {
    /// A tracker that has seen no view yet: its range is the one chunk at
    /// the origin.
    pub fn new() -> (t: ViewportTracker)
        ensures
            t.view == (ViewRect { left: 0, top: 0, right: 0, bottom: 0 }),
            t.bounds == (ChunkBounds { min_x: 0, min_y: 0, max_x: 0, max_y: 0 }),
    {
        ViewportTracker {
            view: ViewRect { left: 0, top: 0, right: 0, bottom: 0 },
            bounds: ChunkBounds { min_x: 0, min_y: 0, max_x: 0, max_y: 0 },
        }
    }

    /// The lowest visible chunk on each axis.
    pub fn min_chunk(&self) -> (c: (i32, i32))
        ensures
            c == (self.bounds.min_x, self.bounds.min_y),
    {
        (self.bounds.min_x, self.bounds.min_y)
    }

    /// The highest visible chunk on each axis.
    pub fn max_chunk(&self) -> (c: (i32, i32))
        ensures
            c == (self.bounds.max_x, self.bounds.max_y),
    {
        (self.bounds.max_x, self.bounds.max_y)
    }

    /// Takes over a new view and returns the chunks that entered or left the
    /// visible range.
    ///
    /// A chunk without width or height is refused, and so is a view whose
    /// range differs from the last one by more than one chunk on some edge;
    /// the tracker then stays as it was.
    pub fn apply(&mut self, view: ViewRect, chunk_size: (i32, i32)) -> (r: Result<
        Vec<ChunkChange>,
        ViewportError,
    >)
        ensures
            chunk_size.0 <= 0 || chunk_size.1 <= 0 ==> r == Err::<Vec<ChunkChange>, _>(
                ViewportError::EmptyChunk,
            ) && *final(self) == *old(self),
            chunk_size.0 > 0 && chunk_size.1 > 0 && !single_step(
                old(self).bounds,
                visible_bounds(view, chunk_size),
            ) ==> r == Err::<Vec<ChunkChange>, _>(ViewportError::StepTooLarge) && *final(self)
                == *old(self),
            chunk_size.0 > 0 && chunk_size.1 > 0 && single_step(
                old(self).bounds,
                visible_bounds(view, chunk_size),
            ) ==> r is Ok && r->Ok_0@ == bounds_changes(
                old(self).bounds,
                visible_bounds(view, chunk_size),
            ) && final(self).view == view && final(self).bounds == visible_bounds(view, chunk_size),
            chunk_size.0 > 0 && chunk_size.1 > 0 && visible_bounds(view, chunk_size) == old(
                self,
            ).bounds ==> r is Ok && r->Ok_0@ == Seq::<ChunkChange>::empty(),
    {
        if chunk_size.0 <= 0 || chunk_size.1 <= 0 {
            return Err(ViewportError::EmptyChunk);
        }
        let before = self.bounds;
        let now = compute_visible_bounds(view, chunk_size);
        if !is_single_step(before, now) {
            return Err(ViewportError::StepTooLarge);
        }
        let mut out: Vec<ChunkChange> = Vec::new();
        if now.min_x != before.min_x {
            if now.min_x < before.min_x {
                push_column(&mut out, now.min_x, now.min_y, now.max_y, true);
            } else {
                push_column(&mut out, before.min_x, now.min_y, now.max_y, false);
            }
        }
        if now.max_x != before.max_x {
            if now.max_x > before.max_x {
                push_column(&mut out, now.max_x, now.min_y, now.max_y, true);
            } else {
                push_column(&mut out, before.max_x, now.min_y, now.max_y, false);
            }
        }
        if now.min_y != before.min_y {
            if now.min_y < before.min_y {
                push_row(&mut out, now.min_y, now.min_x, now.max_x, true);
            } else {
                push_row(&mut out, before.min_y, now.min_x, now.max_x, false);
            }
        }
        if now.max_y != before.max_y {
            if now.max_y > before.max_y {
                push_row(&mut out, now.max_y, now.min_x, now.max_x, true);
            } else {
                push_row(&mut out, before.max_y, now.min_x, now.max_x, false);
            }
        }
        assert(out@ =~= bounds_changes(before, now));
        self.view = view;
        self.bounds = now;
        Ok(out)
    }
}

} // verus!
