//! The parts that the built-in grammars are made of: the acceptability
//! predicates, the base colourings and the tile layouts, and the two small
//! enums of the progress channel.

use crate::dihedral::{EvenD8, EvenSymmetry};
use crate::dihedral_translation::{EvenD8Translation, EvenTransform};
use crate::fractal_specification::MAX_REACH;
use crate::interval_colouring::{
    lemma_constant_splittable, lemma_gradient_splittable, lemma_tree_splittable, ColourInterval,
    ColourKey, ConstantInterval, FunctionInterval, IntervalModel, TreeInterval,
};
use crate::relevance_getter::{all_within_reach, transform_views};
use crate::square::SquareCut;
use crate::triangle::Triangle;
use std::rc::Rc;
use vstd::prelude::*;
use vstd::std_specs::ops::MulSpec;

verus! {

/// What the worker says of a chunk of the canvas.
#[derive(Clone, Copy, Debug, PartialEq, Eq, Structural)]
pub enum WorkingMessage {
    Begin,
    End,
}

/// What the consumer knows of a chunk of the canvas.
#[derive(Clone, Copy, Debug, PartialEq, Eq, Structural)]
pub enum WorkingState {
    Working,
    Finished,
}

/// Both coordinates of the translation are even.
pub open spec fn spec_even_coordinates(t: EvenTransform) -> bool {
    t.translation.0 % 2 == 0 && t.translation.1 % 2 == 0
}

/// Both coordinates of the translation are even and the orientation is a rotation.
pub open spec fn spec_even_coordinates_with_parity(t: EvenTransform) -> bool {
    spec_even_coordinates(t) && !t.dihedral.flip
}

/// The orientation of `t` seen from the block of two by two cells that holds it.
///
/// A cell is a square of two by two lattice points. The orientation is
/// mirrored left to right for a cell in an odd column, and then top to
/// bottom for a cell in an odd row.
pub open spec fn unfolded_orientation(t: EvenTransform) -> EvenSymmetry {
    let column_odd = (t.translation.0 / 2) % 2 != 0;
    let row_odd = (t.translation.1 / 2) % 2 != 0;
    let after_columns = if column_odd {
        (EvenSymmetry { flip: true, rot: 2 }).mul(t.dihedral)
    } else {
        t.dihedral
    };
    if row_odd {
        (EvenSymmetry { flip: true, rot: 0 }).mul(after_columns)
    } else {
        after_columns
    }
}

/// The translation is even and the unfolded orientation is the identity or
/// the reflection in the falling diagonal.
pub open spec fn spec_outer_squares_around(t: EvenTransform) -> bool {
    &&& spec_even_coordinates(t)
    &&& (unfolded_orientation(t) == EvenSymmetry::identity() || unfolded_orientation(t) == (
    EvenSymmetry { flip: true, rot: 3 }))
}

/// The class of a cell of the dragon's lattice: `x / 2 + 2 * (y / 2)` modulo five.
pub open spec fn dragon_class(t: EvenTransform) -> int {
    (t.translation.0 / 2 + 2 * (t.translation.1 / 2)) % 5
}

/// The translation is even, and the orientation is the rotation that the
/// cell's class asks for; class one holds no tile.
pub open spec fn spec_dragon_acceptable(t: EvenTransform) -> bool {
    &&& spec_even_coordinates(t)
    &&& !t.dihedral.flip
    &&& dragon_class(t) != 1
    &&& t.dihedral.rot == if dragon_class(t) == 0 {
        0int
    } else if dragon_class(t) == 2 {
        2int
    } else if dragon_class(t) == 3 {
        3int
    } else {
        1int
    }
}

/// The halves of the two coordinates, where both are even.
fn halved_coordinates(transform: EvenD8Translation) -> (r: Option<(isize, isize)>)
    ensures
        match r {
            Some(h) => spec_even_coordinates(transform@) && h.0 == transform@.translation.0 / 2
                && h.1 == transform@.translation.1 / 2,
            None => !spec_even_coordinates(transform@),
        },
{
    let (x, y) = transform.get_translation();
    if x.checked_rem_euclid(2) != Some(0) || y.checked_rem_euclid(2) != Some(0) {
        return None;
    }
    match (x.checked_div_euclid(2), y.checked_div_euclid(2)) {
        (Some(x_halved), Some(y_halved)) => Some((x_halved, y_halved)),
        _ => None,
    }
}

/// Whether both coordinates of the translation are even.
pub fn even_coordinates(transformation: EvenD8Translation) -> (r: bool)
    ensures
        r == spec_even_coordinates(transformation@),
{
    let (x, y) = transformation.get_translation();
    x.checked_rem_euclid(2) == Some(0) && y.checked_rem_euclid(2) == Some(0)
}

/// Whether both coordinates of the translation are even and the orientation is a rotation.
pub fn even_coordinates_with_parity(transform: EvenD8Translation) -> (r: bool)
    ensures
        r == spec_even_coordinates_with_parity(transform@),
{
    let flip = transform.get_dihedral().flipped();
    even_coordinates(transform) && !flip
}

/// Whether the translation is even and the orientation, unfolded by the
/// cell of the placement, is the identity or the reflection in the falling
/// diagonal.
pub fn outer_squares_around(transform: EvenD8Translation) -> (r: bool)
    ensures
        r == spec_outer_squares_around(transform@),
{
    let (x_halved, y_halved) = match halved_coordinates(transform) {
        Some(halves) => halves,
        None => {
            return false;
        },
    };
    let flip_x = EvenD8::new(true, 2);
    let flip_y = EvenD8::new(true, 0);

    let mut d8_part = transform.get_dihedral();
    if x_halved.checked_rem_euclid(2) != Some(0) {
        d8_part = flip_x * d8_part;
    }
    if y_halved.checked_rem_euclid(2) != Some(0) {
        d8_part = flip_y * d8_part;
    }
    let identity = EvenD8::identity();
    let other_allowable = EvenD8::new(true, 3);
    proof {
        EvenD8::lemma_view_injective(d8_part, identity);
        EvenD8::lemma_view_injective(d8_part, other_allowable);
    }
    d8_part == identity || d8_part == other_allowable
}

/// Whether the translation is even and the orientation is the rotation
/// that the class of the placement's cell asks for.
pub fn dragon_acceptable(transform: EvenD8Translation) -> (r: bool)
    ensures
        r == spec_dragon_acceptable(transform@),
{
    let d8_part = transform.get_dihedral();
    let (x_halved, y_halved) = match halved_coordinates(transform) {
        Some(halves) => halves,
        None => {
            return false;
        },
    };
    let x_class: isize = match x_halved.checked_rem_euclid(5) {
        Some(class) => class,
        None => 0,
    };
    let y_class: isize = match y_halved.checked_rem_euclid(5) {
        Some(class) => class,
        None => 0,
    };
    let parity_5: isize = match (x_class + 2 * y_class).checked_rem_euclid(5) {
        Some(class) => class,
        None => 0,
    };
    assert(parity_5 == dragon_class(transform@));
    if d8_part.flipped() {
        false
    } else if parity_5 == 0 {
        d8_part.rot() == 0
    } else if parity_5 == 1 {
        false
    } else if parity_5 == 2 {
        d8_part.rot() == 2
    } else if parity_5 == 3 {
        d8_part.rot() == 3
    } else {
        d8_part.rot() == 1
    }
}

/// The entry of the palette that holds opaque black, the background of
/// the built-in colourings.
pub const BLACK: usize = 0;

/// The entry of the palette that holds opaque white.
pub const WHITE: usize = 1;

/// The entry of the palette that holds opaque red.
pub const RED: usize = 2;

/// The entry of the palette that holds opaque blue.
pub const BLUE: usize = 3;

/// The entry of the palette that holds the mean of red and blue.
pub const PURPLE: usize = 4;

/// The gradient that runs from red to blue.
pub const RED_TO_BLUE: usize = 0;

/// White for the tile at the identity, the background for every other.
pub open spec fn spec_simple_colouring(t: EvenTransform) -> IntervalModel {
    if t == EvenTransform::identity() {
        IntervalModel::Constant(ColourKey::Fixed(WHITE))
    } else {
        IntervalModel::Constant(ColourKey::Fixed(BLACK))
    }
}

/// For the tile at the identity red in the first half and blue in the
/// second, purple as a whole; the background for every other tile.
pub open spec fn spec_two_colouring(t: EvenTransform) -> IntervalModel {
    if t == EvenTransform::identity() {
        IntervalModel::Tree {
            colour: ColourKey::Fixed(PURPLE),
            left: Box::new(IntervalModel::Constant(ColourKey::Fixed(RED))),
            right: Box::new(IntervalModel::Constant(ColourKey::Fixed(BLUE))),
        }
    } else {
        IntervalModel::Constant(ColourKey::Fixed(BLACK))
    }
}

/// For the tile at the identity the gradient from red to blue; the
/// background for every other tile.
pub open spec fn spec_simple_continuum_colouring(t: EvenTransform) -> IntervalModel {
    if t == EvenTransform::identity() {
        IntervalModel::Function { gradient: RED_TO_BLUE, numerator: 0, denominator: 1 }
    } else {
        IntervalModel::Constant(ColourKey::Fixed(BLACK))
    }
}

/// Whether the placement is the identity.
fn is_identity(transform: EvenD8Translation) -> (r: bool)
    ensures
        r == (transform@ == EvenTransform::identity()),
{
    let identity = EvenD8Translation::identity();
    proof {
        EvenD8Translation::lemma_view_injective(transform, identity);
    }
    transform == identity
}

/// The background as an interval.
fn background() -> (r: ColourInterval)
    ensures
        r@ == IntervalModel::Constant(ColourKey::Fixed(BLACK)),
{
    let interval = ColourInterval::Constant(ConstantInterval::from(ColourKey::Fixed(BLACK)));
    proof {
        interval.lemma_model_of_variant();
    }
    interval
}

/// The colouring with one white tile: white for the tile at the identity,
/// the background for every other.
pub fn simple_colouring(transform: EvenD8Translation) -> (r: ColourInterval)
    ensures
        r@ == spec_simple_colouring(transform@),
{
    if is_identity(transform) {
        let interval = ColourInterval::Constant(ConstantInterval::from(ColourKey::Fixed(WHITE)));
        proof {
            interval.lemma_model_of_variant();
        }
        interval
    } else {
        background()
    }
}

/// The colouring in two colours: the tile at the identity red in its first
/// half and blue in its second, every other tile the background.
pub fn two_colouring(transform: EvenD8Translation) -> (r: ColourInterval)
    ensures
        r@ == spec_two_colouring(transform@),
{
    if !is_identity(transform) {
        background()
    } else {
        let left_interval = ColourInterval::Constant(ConstantInterval::from(ColourKey::Fixed(RED)));
        let right_interval = ColourInterval::Constant(
            ConstantInterval::from(ColourKey::Fixed(BLUE)),
        );
        proof {
            left_interval.lemma_model_of_variant();
            right_interval.lemma_model_of_variant();
        }
        let interval = ColourInterval::Tree(
            TreeInterval::new(
                ColourKey::Fixed(PURPLE),
                Rc::new(left_interval),
                Rc::new(right_interval),
            ),
        );
        proof {
            interval.lemma_model_of_variant();
        }
        interval
    }
}

/// The colouring by a gradient: the tile at the identity runs from red to
/// blue, every other tile is the background.
pub fn simple_continuum_colouring(transform: EvenD8Translation) -> (r: ColourInterval)
    ensures
        r@ == spec_simple_continuum_colouring(transform@),
{
    if !is_identity(transform) {
        background()
    } else {
        let interval = ColourInterval::Function(FunctionInterval::from(RED_TO_BLUE));
        proof {
            interval.lemma_model_of_variant();
        }
        interval
    }
}

/// The intervals of the simple colouring can be split any number of times.
pub proof fn lemma_simple_colouring_splittable(t: EvenTransform, depth: nat)
    ensures
        spec_simple_colouring(t).splittable(depth),
{
    lemma_constant_splittable(ColourKey::Fixed(WHITE), depth);
    lemma_constant_splittable(ColourKey::Fixed(BLACK), depth);
}

/// The intervals of the colouring in two colours can be split any number of times.
pub proof fn lemma_two_colouring_splittable(t: EvenTransform, depth: nat)
    ensures
        spec_two_colouring(t).splittable(depth),
{
    lemma_constant_splittable(ColourKey::Fixed(BLACK), depth);
    if depth > 0 {
        lemma_constant_splittable(ColourKey::Fixed(RED), (depth - 1) as nat);
        lemma_constant_splittable(ColourKey::Fixed(BLUE), (depth - 1) as nat);
    }
    lemma_tree_splittable(
        ColourKey::Fixed(PURPLE),
        IntervalModel::Constant(ColourKey::Fixed(RED)),
        IntervalModel::Constant(ColourKey::Fixed(BLUE)),
        depth,
    );
}

/// The intervals of the gradient colouring can be split sixty times in a row.
pub proof fn lemma_simple_continuum_colouring_splittable(t: EvenTransform, depth: nat)
    requires
        depth <= 60,
    ensures
        spec_simple_continuum_colouring(t).splittable(depth),
{
    lemma_constant_splittable(ColourKey::Fixed(BLACK), depth);
    vstd::arithmetic::power2::lemma2_to64();
    vstd::arithmetic::power2::lemma2_to64_rest();
    if depth < 60 {
        vstd::arithmetic::power2::lemma_pow2_strictly_increases(depth, 60);
    }
    lemma_gradient_splittable(RED_TO_BLUE, 0, 1, depth);
}

/// The largest tile coordinate, in absolute value, that a layout places a
/// square for: `2^24`. It keeps the placements of the triangles, with what
/// the requirement list adds to them, inside the machine's word, whatever
/// its width.
pub const MAX_TILE: isize = 0x100_0000;

/// How a layout fills one square: the diagonal that cuts it, and for each
/// of the two triangles its placement and its orientation bit.
pub struct TilePlan {
    pub slash: bool,
    pub first: (EvenTransform, bool),
    pub second: (EvenTransform, bool),
}

impl TilePlan {
    /// Both placements are well formed and within `4 * MAX_TILE + 4`, so
    /// that, with what a requirement within reach adds to them, they stay
    /// inside the machine's word.
    pub open spec fn fits(self) -> bool {
        &&& self.first.0.wf() && self.first.0.within(4 * MAX_TILE + 4)
        &&& self.second.0.wf() && self.second.0.within(4 * MAX_TILE + 4)
    }
}

/// How a layout fills one square, as the machine holds it.
#[derive(Clone, Copy, Debug, PartialEq, Eq)]
pub struct TileSeed {
    /// Whether the diagonal rises from the bottom left to the top right.
    pub slash: bool,
    /// The placement and the orientation bit of the first triangle.
    pub first: (EvenD8Translation, bool),
    /// The placement and the orientation bit of the second triangle.
    pub second: (EvenD8Translation, bool),
}

impl View for TileSeed {
    type V = TilePlan;

    open spec fn view(&self) -> TilePlan {
        TilePlan {
            slash: self.slash,
            first: (self.first.0@, self.first.1),
            second: (self.second.0@, self.second.1),
        }
    }
}

/// The tile coordinates are within `MAX_TILE`.
pub open spec fn tile_within(tile_x: int, tile_y: int) -> bool {
    -MAX_TILE <= tile_x <= MAX_TILE && -MAX_TILE <= tile_y <= MAX_TILE
}

/// The layout is the function `plan` of the tile coordinates: it accepts
/// all coordinates within `MAX_TILE` and gives the plan's value, which fits.
pub open spec fn lays_out_as<L: Fn(isize, isize) -> TileSeed>(
    layout: &L,
    plan: spec_fn(int, int) -> TilePlan,
) -> bool {
    &&& forall|x: isize, y: isize|
        tile_within(x as int, y as int) ==> call_requires(layout, (x, y))
    &&& forall|x: isize, y: isize, seed: TileSeed|
        tile_within(x as int, y as int) && call_ensures(layout, (x, y), seed) ==> seed@ == plan(
            x as int,
            y as int,
        ) && seed@.fits()
}

/// The placement with the given flip, quarter turns and translation.
pub open spec fn placement(flip: bool, rot: int, x: int, y: int) -> EvenTransform {
    EvenTransform { dihedral: EvenSymmetry { flip, rot }, translation: (x, y) }
}

/// The dense layout: the cut and the two placements go by the parities of
/// the two tile coordinates.
pub open spec fn dense_plan(tile_x: int, tile_y: int) -> TilePlan {
    if tile_x % 2 == 0 && tile_y % 2 == 0 {
        TilePlan {
            slash: false,
            first: (placement(false, 3, tile_x, -tile_y), false),
            second: (placement(true, 0, tile_x, -tile_y), true),
        }
    } else if tile_x % 2 == 0 {
        TilePlan {
            slash: true,
            first: (placement(true, 1, tile_x, -tile_y - 1), true),
            second: (placement(false, 0, tile_x, -tile_y - 1), false),
        }
    } else if tile_y % 2 == 0 {
        TilePlan {
            slash: true,
            first: (placement(false, 2, tile_x + 1, -tile_y), false),
            second: (placement(true, 3, tile_x + 1, -tile_y), true),
        }
    } else {
        TilePlan {
            slash: false,
            first: (placement(true, 2, tile_x + 1, -tile_y - 1), true),
            second: (placement(false, 1, tile_x + 1, -tile_y - 1), false),
        }
    }
}

/// The layout of the grammars whose tiles are rotations only: the cut and
/// the two placements go by the parity of the sum of the tile coordinates.
pub open spec fn mid_plan(tile_x: int, tile_y: int) -> TilePlan {
    let new_x = tile_x - tile_y;
    let new_y = -tile_x - tile_y;
    if (tile_x + tile_y) % 2 == 0 {
        TilePlan {
            slash: true,
            first: (placement(false, 3, new_x, new_y), false),
            second: (placement(false, 1, new_x, new_y - 2), false),
        }
    } else {
        TilePlan {
            slash: false,
            first: (placement(false, 0, new_x - 1, new_y - 1), false),
            second: (placement(false, 2, new_x + 1, new_y - 1), false),
        }
    }
}

/// The layout on the lattice of twice the spacing: both triangles of a
/// square sit at twice its tile coordinates, and the cut and the
/// orientations go by the parities of the two tile coordinates.
pub open spec fn large_plan(tile_x: int, tile_y: int) -> TilePlan {
    if tile_x % 2 == 0 && tile_y % 2 == 0 {
        TilePlan {
            slash: false,
            first: (placement(true, 3, tile_x * 2, -tile_y * 2), false),
            second: (placement(false, 0, tile_x * 2, -tile_y * 2), true),
        }
    } else if tile_x % 2 == 0 {
        TilePlan {
            slash: true,
            first: (placement(false, 1, tile_x * 2, -tile_y * 2), true),
            second: (placement(true, 0, tile_x * 2, -tile_y * 2), false),
        }
    } else if tile_y % 2 == 0 {
        TilePlan {
            slash: true,
            first: (placement(true, 2, tile_x * 2, -tile_y * 2), false),
            second: (placement(false, 3, tile_x * 2, -tile_y * 2), true),
        }
    } else {
        TilePlan {
            slash: false,
            first: (placement(false, 2, tile_x * 2, -tile_y * 2), true),
            second: (placement(true, 1, tile_x * 2, -tile_y * 2), false),
        }
    }
}

/// The layout of the dragon: the cut and the two placements go by the
/// parity of the sum of the tile coordinates.
pub open spec fn dragon_plan(tile_x: int, tile_y: int) -> TilePlan {
    let new_x = 3 * tile_x + tile_y;
    let new_y = tile_x - 3 * tile_y;
    if (tile_x + tile_y) % 2 == 0 {
        TilePlan {
            slash: false,
            first: (placement(false, 3, new_x, new_y - 2), false),
            second: (placement(false, 1, new_x + 2, new_y - 2), false),
        }
    } else {
        TilePlan {
            slash: true,
            first: (placement(false, 2, new_x + 1, new_y - 1), false),
            second: (placement(false, 0, new_x + 1, new_y - 3), false),
        }
    }
}

/// The triangle holds, for each requirement, an interval that the
/// colouring gives for the placement `location * requirement`.
pub open spec fn triangle_seeded<F: Fn(EvenD8Translation) -> ColourInterval>(
    triangle: Triangle,
    location: EvenTransform,
    colouring: &F,
    requirements: Seq<EvenD8Translation>,
) -> bool {
    &&& triangle.intervals().len() == requirements.len()
    &&& forall|k: int|
        0 <= k < requirements.len() ==> call_ensures(
            colouring,
            (EvenD8Translation::from_view(location.mul(requirements[k]@)),),
            #[trigger] triangle.intervals()[k],
        )
}

/// The cut is the one that the plan describes, with its triangles filled
/// by the colouring.
pub open spec fn cut_seeded<F: Fn(EvenD8Translation) -> ColourInterval>(
    cut: SquareCut,
    plan: TilePlan,
    colouring: &F,
    requirements: Seq<EvenD8Translation>,
) -> bool {
    match cut {
        SquareCut::Slash(first, second) => plan.slash && first.1 == plan.first.1 && second.1
            == plan.second.1 && triangle_seeded(first.0, plan.first.0, colouring, requirements)
            && triangle_seeded(second.0, plan.second.0, colouring, requirements),
        SquareCut::Backslash(first, second) => !plan.slash && first.1 == plan.first.1 && second.1
            == plan.second.1 && triangle_seeded(first.0, plan.first.0, colouring, requirements)
            && triangle_seeded(second.0, plan.second.0, colouring, requirements),
    }
}

/// The tile coordinates are within `MAX_TILE`, the requirements within
/// reach, and the colouring accepts every placement.
pub open spec fn can_seed<F: Fn(EvenD8Translation) -> ColourInterval>(
    tile_x: int,
    tile_y: int,
    colouring: &F,
    requirements: Seq<EvenD8Translation>,
) -> bool {
    &&& tile_within(tile_x, tile_y)
    &&& all_within_reach(transform_views(requirements))
    &&& forall|t: EvenD8Translation| call_requires(colouring, (t,))
}

/// The triangle of the tile at `location`.
fn seed_triangle<F>(
    location: EvenD8Translation,
    colouring: &F,
    requirement_list: &[EvenD8Translation],
) -> (r: Triangle) where F: Fn(EvenD8Translation) -> ColourInterval
    requires
        location@.within(4 * MAX_TILE + 4),
        all_within_reach(transform_views(requirement_list@)),
        forall|t: EvenD8Translation| call_requires(colouring, (t,)),
    ensures
        triangle_seeded(r, location@, colouring, requirement_list@),
{
    proof {
        use_type_invariant(&location);
    }
    assert forall|k: int| 0 <= k < requirement_list.len() implies location.mul_req(
        #[trigger] requirement_list[k],
    ) by {
        assert(transform_views(requirement_list@)[k].within(MAX_REACH as int));
    }
    let triangle = Triangle::new(location, colouring, requirement_list);
    proof {
        assert forall|k: int| 0 <= k < requirement_list.len() implies call_ensures(
            colouring,
            (EvenD8Translation::from_view(location@.mul(requirement_list[k]@)),),
            #[trigger] triangle.intervals()[k],
        ) by {
            assert(transform_views(requirement_list@)[k].wf());
            location.lemma_mul_spec(requirement_list[k]);
        }
    }
    triangle
}

/// The cut that a layout's seed describes, its two triangles filled by the
/// colouring.
pub fn seed_cut<F>(seed: TileSeed, requirement_list: &[EvenD8Translation], colouring: &F) -> (r:
    SquareCut) where F: Fn(EvenD8Translation) -> ColourInterval
    requires
        seed@.fits(),
        all_within_reach(transform_views(requirement_list@)),
        forall|t: EvenD8Translation| call_requires(colouring, (t,)),
    ensures
        cut_seeded(r, seed@, colouring, requirement_list@),
{
    let first = (seed_triangle(seed.first.0, colouring, requirement_list), seed.first.1);
    let second = (seed_triangle(seed.second.0, colouring, requirement_list), seed.second.1);
    if seed.slash {
        SquareCut::Slash(first, second)
    } else {
        SquareCut::Backslash(first, second)
    }
}

/// The seed of the given cut and placements.
fn seed_of(
    slash: bool,
    first: (bool, i8, isize, isize, bool),
    second: (bool, i8, isize, isize, bool),
) -> (r: TileSeed)
    requires
        0 <= first.1 < 4,
        0 <= second.1 < 4,
    ensures
        r@ == (TilePlan {
            slash,
            first: (placement(first.0, first.1 as int, first.2 as int, first.3 as int), first.4),
            second: (
                placement(second.0, second.1 as int, second.2 as int, second.3 as int),
                second.4,
            ),
        }),
{
    TileSeed {
        slash,
        first: (EvenD8Translation::new(first.0, first.1, (first.2, first.3)), first.4),
        second: (EvenD8Translation::new(second.0, second.1, (second.2, second.3)), second.4),
    }
}

/// The dense layout of the square with the tile coordinates `(tile_x, tile_y)`,
/// which must be within `MAX_TILE`.
pub fn dense_layout(tile_x: isize, tile_y: isize) -> (r: TileSeed)
    requires
        tile_within(tile_x as int, tile_y as int),
    ensures
        r@ == dense_plan(tile_x as int, tile_y as int),
        r@.fits(),
{
    let x_even = tile_x.checked_rem_euclid(2) == Some(0);
    let y_even = tile_y.checked_rem_euclid(2) == Some(0);
    if x_even && y_even {
        seed_of(false, (false, 3, tile_x, -tile_y, false), (true, 0, tile_x, -tile_y, true))
    } else if x_even {
        seed_of(true, (true, 1, tile_x, -tile_y - 1, true), (false, 0, tile_x, -tile_y - 1, false))
    } else if y_even {
        seed_of(true, (false, 2, tile_x + 1, -tile_y, false), (true, 3, tile_x + 1, -tile_y, true))
    } else {
        seed_of(
            false,
            (true, 2, tile_x + 1, -tile_y - 1, true),
            (false, 1, tile_x + 1, -tile_y - 1, false),
        )
    }
}

/// The layout of rotations of the square with the tile coordinates
/// `(tile_x, tile_y)`, which must be within `MAX_TILE`.
pub fn mid_layout(tile_x: isize, tile_y: isize) -> (r: TileSeed)
    requires
        tile_within(tile_x as int, tile_y as int),
    ensures
        r@ == mid_plan(tile_x as int, tile_y as int),
        r@.fits(),
{
    let new_x = tile_x - tile_y;
    let new_y = -tile_x - tile_y;
    if (tile_x + tile_y).checked_rem_euclid(2) == Some(0) {
        seed_of(true, (false, 3, new_x, new_y, false), (false, 1, new_x, new_y - 2, false))
    } else {
        seed_of(
            false,
            (false, 0, new_x - 1, new_y - 1, false),
            (false, 2, new_x + 1, new_y - 1, false),
        )
    }
}

/// The layout of twice the spacing of the square with the tile coordinates
/// `(tile_x, tile_y)`, which must be within `MAX_TILE`.
pub fn large_layout(tile_x: isize, tile_y: isize) -> (r: TileSeed)
    requires
        tile_within(tile_x as int, tile_y as int),
    ensures
        r@ == large_plan(tile_x as int, tile_y as int),
        r@.fits(),
{
    let x_even = tile_x.checked_rem_euclid(2) == Some(0);
    let y_even = tile_y.checked_rem_euclid(2) == Some(0);
    let x = tile_x * 2;
    let y = -tile_y * 2;
    if x_even && y_even {
        seed_of(false, (true, 3, x, y, false), (false, 0, x, y, true))
    } else if x_even {
        seed_of(true, (false, 1, x, y, true), (true, 0, x, y, false))
    } else if y_even {
        seed_of(true, (true, 2, x, y, false), (false, 3, x, y, true))
    } else {
        seed_of(false, (false, 2, x, y, true), (true, 1, x, y, false))
    }
}

/// The dragon's layout of the square with the tile coordinates
/// `(tile_x, tile_y)`, which must be within `MAX_TILE`.
pub fn dragon_layout(tile_x: isize, tile_y: isize) -> (r: TileSeed)
    requires
        tile_within(tile_x as int, tile_y as int),
    ensures
        r@ == dragon_plan(tile_x as int, tile_y as int),
        r@.fits(),
{
    let new_x = 3 * tile_x + tile_y;
    let new_y = tile_x - 3 * tile_y;
    if (tile_x + tile_y).checked_rem_euclid(2) == Some(0) {
        seed_of(
            false,
            (false, 3, new_x, new_y - 2, false),
            (false, 1, new_x + 2, new_y - 2, false),
        )
    } else {
        seed_of(
            true,
            (false, 2, new_x + 1, new_y - 1, false),
            (false, 0, new_x + 1, new_y - 3, false),
        )
    }
}

/// The cut of a coarsest square of the dense layout, its triangles filled
/// by the colouring. The tile coordinates must be within `MAX_TILE` and
/// the requirements within `MAX_REACH`.
pub fn dense_square_config<F>(
    tile_x: isize,
    tile_y: isize,
    requirement_list: &[EvenD8Translation],
    triangle_colouring: &F,
) -> (r: SquareCut) where F: Fn(EvenD8Translation) -> ColourInterval
    requires
        can_seed(tile_x as int, tile_y as int, triangle_colouring, requirement_list@),
    ensures
        cut_seeded(r, dense_plan(tile_x as int, tile_y as int), triangle_colouring, requirement_list@),
{
    seed_cut(dense_layout(tile_x, tile_y), requirement_list, triangle_colouring)
}

/// The cut of a coarsest square of the layout of rotations, its triangles
/// filled by the colouring. The tile coordinates must be within `MAX_TILE`
/// and the requirements within `MAX_REACH`.
pub fn mid_square_config<F>(
    tile_x: isize,
    tile_y: isize,
    requirement_list: &[EvenD8Translation],
    triangle_colouring: &F,
) -> (r: SquareCut) where F: Fn(EvenD8Translation) -> ColourInterval
    requires
        can_seed(tile_x as int, tile_y as int, triangle_colouring, requirement_list@),
    ensures
        cut_seeded(r, mid_plan(tile_x as int, tile_y as int), triangle_colouring, requirement_list@),
{
    seed_cut(mid_layout(tile_x, tile_y), requirement_list, triangle_colouring)
}

/// The cut of a coarsest square of the layout of twice the spacing, its
/// triangles filled by the colouring. The tile coordinates must be within
/// `MAX_TILE` and the requirements within `MAX_REACH`.
pub fn large_square_config<F>(
    tile_x: isize,
    tile_y: isize,
    requirement_list: &[EvenD8Translation],
    triangle_colouring: &F,
) -> (r: SquareCut) where F: Fn(EvenD8Translation) -> ColourInterval
    requires
        can_seed(tile_x as int, tile_y as int, triangle_colouring, requirement_list@),
    ensures
        cut_seeded(r, large_plan(tile_x as int, tile_y as int), triangle_colouring, requirement_list@),
{
    seed_cut(large_layout(tile_x, tile_y), requirement_list, triangle_colouring)
}

/// The cut of a coarsest square of the dragon's layout, its triangles
/// filled by the colouring. The tile coordinates must be within `MAX_TILE`
/// and the requirements within `MAX_REACH`.
pub fn dragon_config<F>(
    tile_x: isize,
    tile_y: isize,
    requirement_list: &[EvenD8Translation],
    triangle_colouring: &F,
) -> (r: SquareCut) where F: Fn(EvenD8Translation) -> ColourInterval
    requires
        can_seed(tile_x as int, tile_y as int, triangle_colouring, requirement_list@),
    ensures
        cut_seeded(r, dragon_plan(tile_x as int, tile_y as int), triangle_colouring, requirement_list@),
{
    seed_cut(dragon_layout(tile_x, tile_y), requirement_list, triangle_colouring)
}

/// The predicate is the function `accepts` of the placement's value, and
/// takes every placement.
pub open spec fn accepts_as<A: Fn(EvenD8Translation) -> bool>(
    acceptable: &A,
    accepts: spec_fn(EvenTransform) -> bool,
) -> bool {
    &&& forall|t: EvenD8Translation| call_requires(acceptable, (t,))
    &&& forall|t: EvenD8Translation, r: bool|
        call_ensures(acceptable, (t,), r) ==> r == accepts(t@)
}

} // verus!
