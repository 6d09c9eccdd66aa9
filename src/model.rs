use vstd::prelude::*;

verus! {

/// Why a cell could not be read.
#[derive(Clone, Copy, Debug, PartialEq, Eq, Structural)]
pub enum GridError {
    /// The position lies on the far side of the globe: it has no pixel.
    NotVisible,
    /// The pixel lies outside the `size × size` grid.
    OutOfBounds,
}

/// The mathematical content of an image: its side length and its cells.
///
/// Pixel `(x, y)` is kept at `cells[x * size + y]`: `x` strides over whole
/// rows of `size` cells and `y` is the offset inside one.
pub struct PixelGrid<T> {
    pub size: nat,
    pub cells: Seq<T>,
}

impl<T> PixelGrid<T> {
    /// Every pixel of the grid has a cell, and there are no others.
    pub open spec fn wf(self) -> bool {
        self.cells.len() == self.size * self.size
    }

    pub open spec fn in_grid(self, x: int, y: int) -> bool {
        0 <= x < self.size && 0 <= y < self.size
    }

    /// Where pixel `(x, y)` is kept in `cells`.
    pub open spec fn index(self, x: int, y: int) -> int {
        x * self.size + y
    }

    /// The value at pixel `(x, y)`.
    pub open spec fn at(self, x: int, y: int) -> T {
        self.cells[self.index(x, y)]
    }

    /// What a read at a projected position gives: the value of its pixel, or
    /// why there is none.
    pub open spec fn lookup(self, pos: Option<(u32, u32)>) -> Result<T, GridError> {
        match pos {
            None => Err(GridError::NotVisible),
            Some((x, y)) => if self.in_grid(x as int, y as int) {
                Ok(self.at(x as int, y as int))
            } else {
                Err(GridError::OutOfBounds)
            },
        }
    }

    /// The grid after a write of `v` at pixel `(x, y)`.
    pub open spec fn put(self, x: int, y: int, v: T) -> PixelGrid<T> {
        PixelGrid { size: self.size, cells: self.cells.update(self.index(x, y), v) }
    }

    /// The grid after a write of `v` at a projected position: the pixel's cell
    /// takes `v` where the position is visible and inside the grid, and the
    /// grid stays as it is otherwise.
    pub open spec fn store(self, pos: Option<(u32, u32)>, v: T) -> PixelGrid<T> {
        match pos {
            Some((x, y)) => if self.in_grid(x as int, y as int) {
                self.put(x as int, y as int, v)
            } else {
                self
            },
            None => self,
        }
    }
}

/// The pixels of a grid of side `size` that lie on the drawn globe: those
/// whose squared distance to `(size / 2, size / 2)` is at most `(size / 2)²`.
pub open spec fn in_disc(size: nat, x: int, y: int) -> bool {
    let c = (size / 2) as int;
    (x - c) * (x - c) + (y - c) * (y - c) <= c * c
}

/// Every pixel of `g` holds a copy of `default`.
pub open spec fn filled_with<T: Clone>(g: PixelGrid<T>, default: T) -> bool {
    forall|x: int, y: int| g.in_grid(x, y) ==> cloned(default, #[trigger] g.at(x, y))
}

/// The pixels of `g` on the drawn globe hold a copy of `surface`, and all
/// others a copy of `bg`.
pub open spec fn disc_filled<T: Clone>(g: PixelGrid<T>, bg: T, surface: T) -> bool {
    forall|x: int, y: int|
        g.in_grid(x, y) ==> if in_disc(g.size, x, y) {
            cloned(surface, #[trigger] g.at(x, y))
        } else {
            cloned(bg, g.at(x, y))
        }
}

/// Distinct pixels of a grid are kept in distinct cells, all inside `cells`.
pub proof fn lemma_index_in_grid<T>(g: PixelGrid<T>, x: int, y: int, i: int, j: int)
    requires
        g.in_grid(x, y),
        g.in_grid(i, j),
    ensures
        0 <= g.index(x, y) < g.size * g.size,
        g.index(x, y) == g.index(i, j) ==> x == i && y == j,
{
    let s = g.size as int;
    assert(0 <= x * s + y < s * s) by (nonlinear_arith)
        requires
            0 <= x < s,
            0 <= y < s,
    ;
    assert(x * s + y == i * s + j ==> x == i && y == j) by (nonlinear_arith)
        requires
            0 <= x < s,
            0 <= y < s,
            0 <= i < s,
            0 <= j < s,
    ;
}

/// A write at pixel `(x, y)` changes that pixel's value and no other.
pub proof fn lemma_put<T>(g: PixelGrid<T>, x: int, y: int, v: T)
    requires
        g.wf(),
        g.in_grid(x, y),
    ensures
        g.put(x, y, v).wf(),
        g.put(x, y, v).size == g.size,
        forall|i: int, j: int|
            g.in_grid(i, j) ==> #[trigger] g.put(x, y, v).at(i, j) == if i == x && j == y {
                v
            } else {
                g.at(i, j)
            },
{
    lemma_index_in_grid(g, x, y, x, y);
    assert forall|i: int, j: int| g.in_grid(i, j) implies #[trigger] g.put(x, y, v).at(i, j) == if i
        == x && j == y {
        v
    } else {
        g.at(i, j)
    } by {
        lemma_index_in_grid(g, x, y, i, j);
        lemma_index_in_grid(g, i, j, i, j);
    }
}

} // verus!
