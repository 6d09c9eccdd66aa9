//! Pixel storage for orthographic projection images.
//!
//! An image is a square grid of `size × size` cells holding caller-chosen
//! values. The globe is drawn as a disc in the middle of the grid. Geographic
//! positions reach the grid as the pixel that the projection gives for them
//! (or none, for a point on the far side of the globe); the grid then stores
//! or reads the value kept there.

mod model;
mod grid;
mod laws;

pub use model::{GridError, PixelGrid, disc_filled, filled_with, in_disc, lemma_put};
pub use laws::{lemma_disc_center_and_corner, lemma_edge_out_of_bounds, lemma_set_then_get};
pub use grid::OrthoProj;
