//! Rep-tile fractal tilings, verified.
//!
//! A fractal of this family is a tiling by right triangles in which every
//! triangle is made of two smaller copies of triangles of the tiling. A
//! grammar says how: by two production transforms, two splitting
//! transforms and a predicate that tells where tiles sit. The library
//! resolves a grammar into what a drawing needs and then draws by
//! splitting squares of two triangles each down to single pixels.
//!
//! - [`dihedral`] and [`dihedral_translation`]: the orientations and the
//!   placements of tiles, on two lattices that differ by an eighth turn and
//!   a scale by the square root of two.
//! - [`fractal_specification`]: grammars, with six that are built in.
//! - [`relevance_getter`]: the placements that matter to a tile's colour,
//!   and how that knowledge passes from a tile to its children.
//! - [`interval_colouring`] and [`triangle`]: colours that can be halved
//!   again and again, and a tile's snapshot of its neighbourhood.
//! - [`square`]: the recursive drawing of a viewport, as a list of events.
//! - [`drawing_order`]: what holds of every such list.
//! - [`canvas`]: the consumer's bookkeeping of chunks and of the buffer.
//! - [`fractal_worker`]: a session that ties the parts together.
//! - [`auxiliary`]: the predicates, colourings and layouts that the
//!   built-in grammars are made of.
//!
//! Colours are names to the library. Blending them, solving for the
//! weights of the blend and writing bytes are left to the caller.

pub mod auxiliary;
pub mod canvas;
pub mod dihedral;
pub mod dihedral_translation;
pub mod drawing_order;
pub mod fractal_specification;
pub mod fractal_worker;
pub mod interval_colouring;
pub mod relevance_getter;
pub mod square;
pub mod triangle;
