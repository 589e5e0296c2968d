//! Constant-width rounded strokes on an integer grid.
//!
//! A stroke is an ordered list of grid points, a half-width and a colour.
//! The crate turns it into a vertex buffer that draws as a triangle strip:
//! a round cap at each end, a bevelled joint at each interior turn and a
//! six-vertex stitch block between consecutive pieces.  All coordinates
//! are integers; the grid unit is the caller's choice, so a caller that
//! works in fractions of a pixel scales before and after.
//!
//! The modules, leaves first:
//!
//! - `root`: the integer square root;
//! - `point`: grid points, displacements, and on which side of a line a
//!   point lies;
//! - `utils`: whether segments cross, scaling a displacement to a length,
//!   the frame of a cap;
//! - `circle`: the table of directions, turning a displacement, fans;
//! - `vertex`: colours, vertexes, and showing positions in a colour;
//! - `rounded_line`: caps, joints and the stroke that is made of them;
//! - `single_point`: the dot that a path of one point gives;
//! - `tools`: the choice between nothing, a dot and a stroke;
//! - `sketch`: the path that grows while the pointer is down.
//!
//! What holds of every stroke is proved in `stroke_laws` (how many
//! positions, in which order, where a cap points), `winding` (offset
//! points keep to their side of the path), `direction` and `straight` (a
//! point between its neighbours adds nothing) and `roundness` (caps and
//! dots are round).

pub mod circle;
pub mod direction;
pub mod point;
pub mod root;
pub mod rounded_line;
pub mod roundness;
pub mod single_point;
pub mod sketch;
pub mod straight;
pub mod stroke_laws;
pub mod tools;
pub mod utils;
pub mod vertex;
pub mod winding;
