use vstd::prelude::*;
use crate::model::{GridError, PixelGrid, disc_filled, in_disc, lemma_put};

verus! {

/// A value stored at a visible position that falls inside the grid is the
/// value read back at that position, and every other pixel keeps its value.
pub proof fn lemma_set_then_get<T>(g: PixelGrid<T>, x: u32, y: u32, v: T)
    requires
        g.wf(),
        g.in_grid(x as int, y as int),
    ensures
        g.store(Some((x, y)), v).lookup(Some((x, y))) == Ok::<T, GridError>(v),
        forall|i: u32, j: u32|
            (i != x || j != y) ==> #[trigger] g.store(Some((x, y)), v).lookup(Some((i, j)))
                == g.lookup(Some((i, j))),
{
    lemma_put(g, x as int, y as int, v);
}

/// On a grid of positive side the pixel at the centre, `(size / 2, size / 2)`,
/// is on the drawn globe; once the side is at least two, the corner `(0, 0)`
/// is not. In a grid drawn with the globe the centre thus holds the surface
/// value and the corner the background.
pub proof fn lemma_disc_center_and_corner<T: Clone>(g: PixelGrid<T>, bg: T, surface: T)
    requires
        g.size > 0,
        disc_filled(g, bg, surface),
    ensures
        in_disc(g.size, (g.size / 2) as int, (g.size / 2) as int),
        cloned(surface, g.at((g.size / 2) as int, (g.size / 2) as int)),
        g.size >= 2 ==> !in_disc(g.size, 0, 0),
        g.size >= 2 ==> cloned(bg, g.at(0, 0)),
{
    let c = (g.size / 2) as int;
    if g.size >= 2 {
        assert((0 - c) * (0 - c) + (0 - c) * (0 - c) > c * c) by (nonlinear_arith)
            requires
                c >= 1,
        ;
    }
}

/// The pixels `(size, 0)` and `(0, size)` lie outside a grid of side `size`:
/// a read there fails with `OutOfBounds`.
pub proof fn lemma_edge_out_of_bounds<T>(g: PixelGrid<T>)
    requires
        g.size <= u32::MAX,
    ensures
        g.lookup(Some((g.size as u32, 0u32))) == Err::<T, GridError>(GridError::OutOfBounds),
        g.lookup(Some((0u32, g.size as u32))) == Err::<T, GridError>(GridError::OutOfBounds),
{
}

} // verus!
