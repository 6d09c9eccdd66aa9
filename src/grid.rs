use vstd::prelude::*;
use crate::model::{
    GridError, PixelGrid, disc_filled, filled_with, in_disc, lemma_index_in_grid, lemma_put,
};

verus! {

/// Whether pixel `(i, j)` comes before pixel `(x, y)` when the pixels are
/// visited row by row.
spec fn visited_before(x: int, y: int, i: int, j: int) -> bool {
    i < x || (i == x && j < y)
}

/// Whether pixel `(x, y)` of a grid of side `size` lies on the drawn globe.
fn on_disc(size: u32, x: u32, y: u32) -> (r: bool)
    requires
        x < size,
        y < size,
    ensures
        r == in_disc(size as nat, x as int, y as int),
{
    let c: u32 = size / 2;
    let dx: u64 = if x >= c { (x - c) as u64 } else { (c - x) as u64 };
    let dy: u64 = if y >= c { (y - c) as u64 } else { (c - y) as u64 };
    assert({
        &&& c * c <= 0x4000_0000_0000_0000
        &&& dx * dx + dy * dy <= 0x8000_0000_0000_0000
        &&& dx * dx == (x - c) * (x - c)
        &&& dy * dy == (y - c) * (y - c)
    }) by (nonlinear_arith)
        requires
            c == size / 2,
            x < size,
            y < size,
            dx == x - c || dx == c - x,
            dx >= 0,
            dy == y - c || dy == c - y,
            dy >= 0,
    ;
    let cc: u64 = c as u64 * c as u64;
    dx * dx + dy * dy <= cc
}

/// A square orthographic image of side `size`, with one value of type `T` per
/// pixel.
pub struct OrthoProj<T: Clone> {
    data: Vec<T>,
    size: u32,
}

impl<T: Clone> View for OrthoProj<T> {
    type V = PixelGrid<T>;

    closed spec fn view(&self) -> PixelGrid<T> {
        PixelGrid { size: self.size as nat, cells: self.data@ }
    }
}

impl<T: Clone> OrthoProj<T> {
    /// Every pixel has its cell; the cell count fits a `usize`.
    #[verifier::type_invariant]
    spec fn wf(&self) -> bool {
        &&& self.data@.len() == self.size * self.size
        &&& self.size * self.size <= usize::MAX
    }

    /// Where pixel `(x, y)` is kept.
    fn index_of(&self, x: u32, y: u32) -> (i: usize)
        requires
            self@.in_grid(x as int, y as int),
        ensures
            i == self@.index(x as int, y as int),
            i < self.data@.len(),
    {
        proof {
            use_type_invariant(self);
            lemma_index_in_grid(self@, x as int, y as int, x as int, y as int);
        }
        x as usize * self.size as usize + y as usize
    }

    /// An image of side `size` whose cells all hold a copy of `default`.
    pub fn new(size: u32, default: T) -> (r: Self)
        requires
            size * size <= usize::MAX,
        ensures
            r@.wf(),
            r@.size == size,
            filled_with(r@, default),
    {
        let n: usize = size as usize * size as usize;
        let r = OrthoProj { data: vec![default; n], size };
        proof {
            assert forall|x: int, y: int| r@.in_grid(x, y) implies cloned(
                default,
                #[trigger] r@.at(x, y),
            ) by {
                lemma_index_in_grid(r@, x, y, x, y);
            }
        }
        r
    }

    /// An image of side `size` with the globe drawn on it: the pixels of the
    /// disc centred at `(size / 2, size / 2)` with radius `size / 2` hold a
    /// copy of `surface`, and all others a copy of `bg`.
    pub fn new_with_bg(size: u32, bg: T, surface: T) -> (r: Self)
        requires
            size * size <= usize::MAX,
        ensures
            r@.wf(),
            r@.size == size,
            disc_filled(r@, bg, surface),
    {
        let ghost bg0 = bg;
        let mut r = Self::new(size, bg);
        let mut x: u32 = 0;
        while x < size
            invariant
                x <= size,
                r@.wf(),
                r@.size == size,
                forall|i: int, j: int|
                    r@.in_grid(i, j) ==> if i < x && in_disc(size as nat, i, j) {
                        cloned(surface, #[trigger] r@.at(i, j))
                    } else {
                        cloned(bg0, r@.at(i, j))
                    },
            decreases size - x,
        {
            let mut y: u32 = 0;
            while y < size
                invariant
                    x < size,
                    y <= size,
                    r@.wf(),
                    r@.size == size,
                    forall|i: int, j: int|
                        r@.in_grid(i, j) ==> if visited_before(x as int, y as int, i, j)
                            && in_disc(size as nat, i, j) {
                            cloned(surface, #[trigger] r@.at(i, j))
                        } else {
                            cloned(bg0, r@.at(i, j))
                        },
                decreases size - y,
            {
                if on_disc(size, x, y) {
                    let v = surface.clone();
                    proof {
                        lemma_put(r@, x as int, y as int, v);
                    }
                    r.set_pixel(x, y, v);
                }
                y = y + 1;
            }
            x = x + 1;
        }
        r
    }

    /// The side length of the image, in pixels.
    pub fn size(&self) -> (r: u32)
        ensures
            r == self@.size,
    {
        self.size
    }

    /// Stores `value` at the pixel that the projection gives for a position:
    /// `pos` is that pixel, or `None` where the position lies on the far side
    /// of the globe. A write to an invisible position, or to a pixel outside
    /// the grid, changes nothing.
    pub fn set(&mut self, pos: Option<(u32, u32)>, value: T)
        ensures
            final(self)@.wf(),
            final(self)@ == old(self)@.store(pos, value),
    {
        proof {
            use_type_invariant(&*self);
        }
        match pos {
            Some((x, y)) => {
                if x < self.size && y < self.size {
                    self.set_pixel(x, y, value);
                }
            },
            None => {},
        }
    }

    /// Reads the value at the pixel that the projection gives for a position
    /// (`pos`, as for `set`). Fails with `NotVisible` for a position on the far
    /// side of the globe and with `OutOfBounds` for a pixel outside the grid.
    pub fn get(&self, pos: Option<(u32, u32)>) -> (r: Result<&T, GridError>)
        ensures
            match r {
                Ok(v) => self@.lookup(pos) == Ok::<T, GridError>(*v),
                Err(e) => self@.lookup(pos) == Err::<T, GridError>(e),
            },
    {
        match pos {
            None => Err(GridError::NotVisible),
            Some((x, y)) => {
                if x < self.size && y < self.size {
                    Ok(self.get_pixel(x, y))
                } else {
                    Err(GridError::OutOfBounds)
                }
            },
        }
    }

    /// The value at pixel `(x, y)`.
    pub fn get_pixel(&self, x: u32, y: u32) -> (r: &T)
        requires
            x < self@.size,
            y < self@.size,
        ensures
            *r == self@.at(x as int, y as int),
    {
        let i = self.index_of(x, y);
        &self.data[i]
    }

    /// Puts `value` at pixel `(x, y)`; every other pixel keeps its value.
    pub fn set_pixel(&mut self, x: u32, y: u32, value: T)
        requires
            x < old(self)@.size,
            y < old(self)@.size,
        ensures
            final(self)@.wf(),
            final(self)@ == old(self)@.put(x as int, y as int, value),
    {
        proof {
            use_type_invariant(&*self);
        }
        let i = self.index_of(x, y);
        let mut taken = OrthoProj { data: Vec::new(), size: 0 };
        std::mem::swap(self, &mut taken);
        let OrthoProj { mut data, size } = taken;
        data.set(i, value);
        *self = OrthoProj { data, size };
    }
}

} // verus!
