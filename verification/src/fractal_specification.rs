//! A grammar: everything that tells one fractal from another.
//!
//! A tile expands into two children by the two production transforms; the
//! two splitting transforms say where the children of a tile sit relative
//! to it. The acceptability predicate tells the placements that hold a tile
//! from those that do not, and the layout seeds the squares of the coarsest
//! level with their two triangles.
//!
//! The predicate and the layout are functions that the grammar's author
//! supplies, so a new grammar is new data and nothing else. Six grammars
//! are built in.

use crate::auxiliary::{
    accepts_as, can_seed, cut_seeded, dense_layout, dense_plan, dragon_acceptable, dragon_layout,
    dragon_plan, even_coordinates, even_coordinates_with_parity, large_layout, large_plan,
    lays_out_as, mid_layout, mid_plan, outer_squares_around, seed_cut, spec_dragon_acceptable,
    spec_even_coordinates, spec_even_coordinates_with_parity, spec_outer_squares_around,
    tile_within, TilePlan, TileSeed,
};
use crate::dihedral::OddSymmetry;
use crate::dihedral_translation::{
    EvenD8Translation, EvenTransform, OddD8TranslationSmall, SmallTransform,
};
use crate::interval_colouring::ColourInterval;
use crate::square::SquareCut;
use vstd::prelude::*;

verus! {

/// The largest coordinate, in absolute value, that a translation of a
/// grammar or of a relevant placement may have. It keeps every product that
/// the resolution forms inside the machine's word, whatever its width. The
/// placements that matter to a tile lie a few steps from it, so that the
/// limit is met only by a grammar whose closure is infinite.
pub const MAX_REACH: isize = 0x10_0000;

/// The mathematical value of a [`FractalSpecification`].
pub struct Grammar {
    pub splitting: (SmallTransform, SmallTransform),
    pub production: (SmallTransform, SmallTransform),
    /// Whether a tile sits at a placement.
    pub acceptance: spec_fn(EvenTransform) -> bool,
    /// How the coarsest square with given tile coordinates is filled.
    pub layout: spec_fn(int, int) -> TilePlan,
    pub splitting_type: (bool, bool),
}

/// The small transform with the given flip, quarter turns and translation.
pub open spec fn small_transform(flip: bool, rot: int, translation: (int, int)) -> SmallTransform {
    SmallTransform { dihedral: OddSymmetry { flip, rot }, translation }
}

impl Grammar {
    /// Whether a tile sits at the placement `t`.
    pub open spec fn accepts(self, t: EvenTransform) -> bool {
        (self.acceptance)(t)
    }

    /// How the coarsest square with the tile coordinates `(tile_x, tile_y)` is filled.
    pub open spec fn plan(self, tile_x: int, tile_y: int) -> TilePlan {
        (self.layout)(tile_x, tile_y)
    }

    /// The coral.
    pub open spec fn coral() -> Grammar {
        Grammar {
            production: (small_transform(true, 2, (1, 0)), small_transform(false, 0, (-1, 0))),
            splitting: (small_transform(true, 1, (1, 0)), small_transform(false, 1, (1, 0))),
            acceptance: |t: EvenTransform| spec_even_coordinates(t),
            layout: |x: int, y: int| dense_plan(x, y),
            splitting_type: (false, false),
        }
    }

    /// The hydra.
    pub open spec fn hydra() -> Grammar {
        Grammar {
            production: (small_transform(true, 0, (-1, 0)), small_transform(false, 2, (1, 0))),
            splitting: (small_transform(true, 1, (1, 0)), small_transform(false, 1, (1, 0))),
            acceptance: |t: EvenTransform| spec_even_coordinates(t),
            layout: |x: int, y: int| dense_plan(x, y),
            splitting_type: (false, false),
        }
    }

    /// The dibolt.
    pub open spec fn dibolt() -> Grammar {
        Grammar {
            production: (small_transform(true, 2, (1, 0)), small_transform(true, 3, (-1, 0))),
            splitting: (small_transform(true, 2, (1, 0)), small_transform(true, 1, (1, 0))),
            acceptance: |t: EvenTransform| spec_even_coordinates_with_parity(t),
            layout: |x: int, y: int| mid_plan(x, y),
            splitting_type: (false, true),
        }
    }

    /// The Lévy curve.
    pub open spec fn levy() -> Grammar {
        Grammar {
            production: (small_transform(false, 3, (1, 0)), small_transform(false, 0, (-1, 0))),
            splitting: (small_transform(false, 2, (1, 0)), small_transform(false, 1, (1, 0))),
            acceptance: |t: EvenTransform| spec_even_coordinates_with_parity(t),
            layout: |x: int, y: int| mid_plan(x, y),
            splitting_type: (true, false),
        }
    }

    /// The scorpion.
    pub open spec fn scorpion() -> Grammar {
        Grammar {
            production: (small_transform(false, 3, (1, 0)), small_transform(true, 0, (-1, 0))),
            splitting: (small_transform(true, 2, (1, 0)), small_transform(false, 2, (0, 1))),
            acceptance: |t: EvenTransform| spec_outer_squares_around(t),
            layout: |x: int, y: int| large_plan(x, y),
            splitting_type: (false, false),
        }
    }

    /// The Heighway dragon.
    pub open spec fn heighway() -> Grammar {
        Grammar {
            production: (small_transform(false, 1, (1, 0)), small_transform(false, 0, (-1, 0))),
            splitting: (small_transform(false, 2, (1, 2)), small_transform(false, 1, (1, 0))),
            acceptance: |t: EvenTransform| spec_dragon_acceptable(t),
            layout: |x: int, y: int| dragon_plan(x, y),
            splitting_type: (true, false),
        }
    }

    /// The four transforms are well formed and within reach.
    pub open spec fn wf(self) -> bool {
        &&& self.splitting.0.wf() && self.splitting.0.within(MAX_REACH as int)
        &&& self.splitting.1.wf() && self.splitting.1.within(MAX_REACH as int)
        &&& self.production.0.wf() && self.production.0.within(MAX_REACH as int)
        &&& self.production.1.wf() && self.production.1.within(MAX_REACH as int)
    }
}

/// A grammar as the engine holds it: the four transforms, the orientation
/// flags, and the author's predicate and layout.
pub struct FractalSpecification<
    A: Fn(EvenD8Translation) -> bool,
    L: Fn(isize, isize) -> TileSeed,
> {
    splitting_policy_tuple: (OddD8TranslationSmall, OddD8TranslationSmall),
    production_policy_tuple: (OddD8TranslationSmall, OddD8TranslationSmall),
    internal_acceptable: A,
    square_config: L,
    splitting_type: (bool, bool),
    acceptance: Ghost<spec_fn(EvenTransform) -> bool>,
    layout: Ghost<spec_fn(int, int) -> TilePlan>,
}

impl<A: Fn(EvenD8Translation) -> bool, L: Fn(isize, isize) -> TileSeed> View for FractalSpecification<
    A,
    L,
> {
    type V = Grammar;

    closed spec fn view(&self) -> Grammar {
        Grammar {
            splitting: (self.splitting_policy_tuple.0@, self.splitting_policy_tuple.1@),
            production: (self.production_policy_tuple.0@, self.production_policy_tuple.1@),
            acceptance: self.acceptance@,
            layout: self.layout@,
            splitting_type: self.splitting_type,
        }
    }
}

impl<A: Fn(EvenD8Translation) -> bool, L: Fn(isize, isize) -> TileSeed> FractalSpecification<A, L> {
    /// The invariant of the type: the four transforms are within reach, and
    /// the predicate and the layout are the functions that the value names.
    #[verifier::type_invariant]
    pub closed spec fn well_formed(self) -> bool {
        &&& self.splitting_policy_tuple.0@.wf() && self.splitting_policy_tuple.0@.within(
            MAX_REACH as int,
        )
        &&& self.splitting_policy_tuple.1@.wf() && self.splitting_policy_tuple.1@.within(
            MAX_REACH as int,
        )
        &&& self.production_policy_tuple.0@.wf() && self.production_policy_tuple.0@.within(
            MAX_REACH as int,
        )
        &&& self.production_policy_tuple.1@.wf() && self.production_policy_tuple.1@.within(
            MAX_REACH as int,
        )
        &&& accepts_as(&self.internal_acceptable, self.acceptance@)
        &&& lays_out_as(&self.square_config, self.layout@)
    }

    /// The predicate that the grammar was made with.
    pub closed spec fn spec_acceptable(self) -> A {
        self.internal_acceptable
    }

    /// The layout that the grammar was made with.
    pub closed spec fn spec_layout(self) -> L {
        self.square_config
    }

    /// A grammar made of the given parts; `None` where a translation lies
    /// further from the origin than `MAX_REACH`.
    ///
    /// The predicate must take every placement and the layout all tile
    /// coordinates within `MAX_TILE`, and both must be functions of what
    /// they are given: the grammar's value names the functions that they are.
    pub fn new(
        production: (OddD8TranslationSmall, OddD8TranslationSmall),
        splitting: (OddD8TranslationSmall, OddD8TranslationSmall),
        acceptable: A,
        layout: L,
        splitting_type: (bool, bool),
    ) -> (r: Option<FractalSpecification<A, L>>)
        requires
            exists|accepts: spec_fn(EvenTransform) -> bool| accepts_as(&acceptable, accepts),
            exists|plan: spec_fn(int, int) -> TilePlan| lays_out_as(&layout, plan),
        ensures
            match r {
                Some(fractal) => {
                    &&& fractal@.wf()
                    &&& fractal@.splitting == (splitting.0@, splitting.1@)
                    &&& fractal@.production == (production.0@, production.1@)
                    &&& fractal@.splitting_type == splitting_type
                    &&& fractal.spec_acceptable() == acceptable
                    &&& fractal.spec_layout() == layout
                    &&& accepts_as(&acceptable, fractal@.acceptance)
                    &&& lays_out_as(&layout, fractal@.layout)
                },
                None => !(splitting.0@.within(MAX_REACH as int) && splitting.1@.within(
                    MAX_REACH as int,
                ) && production.0@.within(MAX_REACH as int) && production.1@.within(
                    MAX_REACH as int,
                )),
            },
    {
        proof {
            use_type_invariant(&splitting.0);
            use_type_invariant(&splitting.1);
            use_type_invariant(&production.0);
            use_type_invariant(&production.1);
        }
        let ghost accepts = choose|accepts: spec_fn(EvenTransform) -> bool|
            accepts_as(&acceptable, accepts);
        let ghost plan = choose|plan: spec_fn(int, int) -> TilePlan| lays_out_as(&layout, plan);
        if splitting.0.within(MAX_REACH) && splitting.1.within(MAX_REACH) && production.0.within(
            MAX_REACH,
        ) && production.1.within(MAX_REACH) {
            Some(
                FractalSpecification {
                    splitting_policy_tuple: splitting,
                    production_policy_tuple: production,
                    internal_acceptable: acceptable,
                    square_config: layout,
                    splitting_type,
                    acceptance: Ghost(accepts),
                    layout: Ghost(plan),
                },
            )
        } else {
            None
        }
    }

    /// The two splitting transforms: of the far and of the near child.
    pub fn splitting_policy(&self) -> (r: (OddD8TranslationSmall, OddD8TranslationSmall))
        ensures
            (r.0@, r.1@) == self@.splitting,
            self@.wf(),
    {
        proof {
            use_type_invariant(self);
        }
        self.splitting_policy_tuple
    }

    /// The two production transforms.
    pub fn production_policy(&self) -> (r: (OddD8TranslationSmall, OddD8TranslationSmall))
        ensures
            (r.0@, r.1@) == self@.production,
            self@.wf(),
    {
        proof {
            use_type_invariant(self);
        }
        self.production_policy_tuple
    }

    /// Whether a tile sits at the placement `transformation`.
    pub fn acceptable(&self, transformation: EvenD8Translation) -> (r: bool)
        ensures
            r == self@.accepts(transformation@),
    {
        proof {
            use_type_invariant(self);
        }
        (self.internal_acceptable)(transformation)
    }

    /// How the coarsest square with the tile coordinates `(x, y)`, which
    /// must be within `MAX_TILE`, is filled.
    pub fn get_tile_seed(&self, x: isize, y: isize) -> (r: TileSeed)
        requires
            tile_within(x as int, y as int),
        ensures
            r@ == self@.plan(x as int, y as int),
            r@.fits(),
    {
        proof {
            use_type_invariant(self);
        }
        (self.square_config)(x, y)
    }

    /// The cut of the coarsest square with the tile coordinates `(x, y)`,
    /// its two triangles filled by the colouring. The tile coordinates
    /// must be within `MAX_TILE` and the requirements within `MAX_REACH`.
    pub fn get_square_config<F>(
        &self,
        x: isize,
        y: isize,
        requirement_list: &[EvenD8Translation],
        triangle_colouring: &F,
    ) -> (r: SquareCut) where F: Fn(EvenD8Translation) -> ColourInterval
        requires
            can_seed(x as int, y as int, triangle_colouring, requirement_list@),
        ensures
            cut_seeded(r, self@.plan(x as int, y as int), triangle_colouring, requirement_list@),
            self@.plan(x as int, y as int).fits(),
    {
        seed_cut(self.get_tile_seed(x, y), requirement_list, triangle_colouring)
    }

    /// The orientation flags of the two children of a split triangle.
    pub fn get_splitting_type(&self) -> (r: (bool, bool))
        ensures
            r == self@.splitting_type,
    {
        self.splitting_type
    }
}

/// The coral.
pub fn coral() -> (r: FractalSpecification<
    impl Fn(EvenD8Translation) -> bool,
    impl Fn(isize, isize) -> TileSeed,
>)
    ensures
        r@ == Grammar::coral(),
{
    FractalSpecification {
        production_policy_tuple: (
            OddD8TranslationSmall::new(true, 2, (1, 0)),
            OddD8TranslationSmall::new(false, 0, (-1, 0)),
        ),
        splitting_policy_tuple: (
            OddD8TranslationSmall::new(true, 1, (1, 0)),
            OddD8TranslationSmall::new(false, 1, (1, 0)),
        ),
        internal_acceptable: even_coordinates,
        square_config: dense_layout,
        splitting_type: (false, false),
        acceptance: Ghost(Grammar::coral().acceptance),
        layout: Ghost(Grammar::coral().layout),
    }
}

/// The hydra.
pub fn hydra() -> (r: FractalSpecification<
    impl Fn(EvenD8Translation) -> bool,
    impl Fn(isize, isize) -> TileSeed,
>)
    ensures
        r@ == Grammar::hydra(),
{
    FractalSpecification {
        production_policy_tuple: (
            OddD8TranslationSmall::new(true, 0, (-1, 0)),
            OddD8TranslationSmall::new(false, 2, (1, 0)),
        ),
        splitting_policy_tuple: (
            OddD8TranslationSmall::new(true, 1, (1, 0)),
            OddD8TranslationSmall::new(false, 1, (1, 0)),
        ),
        internal_acceptable: even_coordinates,
        square_config: dense_layout,
        splitting_type: (false, false),
        acceptance: Ghost(Grammar::hydra().acceptance),
        layout: Ghost(Grammar::hydra().layout),
    }
}

/// The dibolt.
pub fn dibolt() -> (r: FractalSpecification<
    impl Fn(EvenD8Translation) -> bool,
    impl Fn(isize, isize) -> TileSeed,
>)
    ensures
        r@ == Grammar::dibolt(),
{
    FractalSpecification {
        production_policy_tuple: (
            OddD8TranslationSmall::new(true, 2, (1, 0)),
            OddD8TranslationSmall::new(true, 3, (-1, 0)),
        ),
        splitting_policy_tuple: (
            OddD8TranslationSmall::new(true, 2, (1, 0)),
            OddD8TranslationSmall::new(true, 1, (1, 0)),
        ),
        internal_acceptable: even_coordinates_with_parity,
        square_config: mid_layout,
        splitting_type: (false, true),
        acceptance: Ghost(Grammar::dibolt().acceptance),
        layout: Ghost(Grammar::dibolt().layout),
    }
}

/// The Lévy curve.
pub fn levy() -> (r: FractalSpecification<
    impl Fn(EvenD8Translation) -> bool,
    impl Fn(isize, isize) -> TileSeed,
>)
    ensures
        r@ == Grammar::levy(),
{
    FractalSpecification {
        production_policy_tuple: (
            OddD8TranslationSmall::new(false, 3, (1, 0)),
            OddD8TranslationSmall::new(false, 0, (-1, 0)),
        ),
        splitting_policy_tuple: (
            OddD8TranslationSmall::new(false, 2, (1, 0)),
            OddD8TranslationSmall::new(false, 1, (1, 0)),
        ),
        internal_acceptable: even_coordinates_with_parity,
        square_config: mid_layout,
        splitting_type: (true, false),
        acceptance: Ghost(Grammar::levy().acceptance),
        layout: Ghost(Grammar::levy().layout),
    }
}

/// The scorpion.
pub fn scorpion() -> (r: FractalSpecification<
    impl Fn(EvenD8Translation) -> bool,
    impl Fn(isize, isize) -> TileSeed,
>)
    ensures
        r@ == Grammar::scorpion(),
{
    FractalSpecification {
        production_policy_tuple: (
            OddD8TranslationSmall::new(false, 3, (1, 0)),
            OddD8TranslationSmall::new(true, 0, (-1, 0)),
        ),
        splitting_policy_tuple: (
            OddD8TranslationSmall::new(true, 2, (1, 0)),
            OddD8TranslationSmall::new(false, 2, (0, 1)),
        ),
        internal_acceptable: outer_squares_around,
        square_config: large_layout,
        splitting_type: (false, false),
        acceptance: Ghost(Grammar::scorpion().acceptance),
        layout: Ghost(Grammar::scorpion().layout),
    }
}

/// The Heighway dragon.
pub fn heighway() -> (r: FractalSpecification<
    impl Fn(EvenD8Translation) -> bool,
    impl Fn(isize, isize) -> TileSeed,
>)
    ensures
        r@ == Grammar::heighway(),
{
    FractalSpecification {
        production_policy_tuple: (
            OddD8TranslationSmall::new(false, 1, (1, 0)),
            OddD8TranslationSmall::new(false, 0, (-1, 0)),
        ),
        splitting_policy_tuple: (
            OddD8TranslationSmall::new(false, 2, (1, 2)),
            OddD8TranslationSmall::new(false, 1, (1, 0)),
        ),
        internal_acceptable: dragon_acceptable,
        square_config: dragon_layout,
        splitting_type: (true, false),
        acceptance: Ghost(Grammar::heighway().acceptance),
        layout: Ghost(Grammar::heighway().layout),
    }
}

} // verus!
