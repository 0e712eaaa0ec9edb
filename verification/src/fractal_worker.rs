//! A render session: a grammar resolved once, and the viewport that it is
//! drawn into.
//!
//! Starting a session resolves the grammar: the relevance list, the
//! requirement list, the splitter list and the images that the weights are
//! solved from. Drawing lists what is to be done, for the caller to carry
//! out on the canvas and on the progress channel.

use crate::auxiliary::{lemma_two_colouring_splittable, spec_two_colouring, two_colouring};
use crate::dihedral_translation::{EvenD8Translation, EvenTransform};
use crate::drawing_order::{
    lemma_canvas_orderly, lemma_canvas_written_once, once_inside, orderly, rect_nonempty, writes,
};
use crate::auxiliary::TileSeed;
use crate::fractal_specification::{FractalSpecification, Grammar};
use crate::interval_colouring::{ColourInterval, IntervalModel};
use crate::relevance_getter::{resolution_fails, resolve, Resolution, ResolveError};
use crate::square::{
    bounds_of, canvas_model, colours_splittable, describes, draw_into_canvas, event_views,
    DrawEvent, MAX_CANVAS, MAX_SCALE, SENDING_SIZE,
};
use crate::triangle::splitter_fits;
use vstd::prelude::*;

verus! {

/// Why a session could not be started.
#[derive(Clone, Copy, Debug, PartialEq, Eq, Structural)]
pub enum StartError {
    /// The grammar could not be resolved.
    Unresolved(ResolveError),
    /// The canvas is wider or higher than `MAX_CANVAS`, or the scale is
    /// above `MAX_SCALE`.
    CanvasTooLarge,
}

/// A grammar with all that was resolved from it, and the size of the
/// canvas that it is drawn into.
pub struct RenderSession<A: Fn(EvenD8Translation) -> bool, L: Fn(isize, isize) -> TileSeed> {
    fractal: FractalSpecification<A, L>,
    resolution: Resolution,
    width: usize,
    height: usize,
    scale: u32,
    limit: Ghost<nat>,
}

impl<A: Fn(EvenD8Translation) -> bool, L: Fn(isize, isize) -> TileSeed> RenderSession<A, L> {
    /// The invariant of the type: the lists are those of the grammar, and
    /// the canvas is within the limits of the drawing.
    #[verifier::type_invariant]
    pub closed spec fn well_formed(self) -> bool {
        &&& self.resolution.resolves(self.fractal@, self.limit@)
        &&& splitter_fits(self.resolution.splitter_list@, self.resolution.splitter_list@.len())
        &&& self.width <= MAX_CANVAS
        &&& self.height <= MAX_CANVAS
        &&& self.scale <= MAX_SCALE
    }

    /// The grammar of the session.
    pub closed spec fn spec_fractal(self) -> Grammar {
        self.fractal@
    }

    /// What was resolved from the grammar.
    pub closed spec fn spec_resolution(self) -> Resolution {
        self.resolution
    }

    /// The width and the height of the canvas.
    pub closed spec fn spec_size(self) -> (usize, usize) {
        (self.width, self.height)
    }

    /// The scale of the coarsest squares.
    pub closed spec fn spec_scale(self) -> u32 {
        self.scale
    }

    /// The viewport of the session: the whole canvas.
    pub open spec fn spec_bounds(self) -> (isize, isize, isize, isize) {
        (0, 0, self.spec_size().0 as isize, self.spec_size().1 as isize)
    }

    /// The origin of the session: the middle of the canvas.
    pub open spec fn spec_origin(self) -> (isize, isize) {
        ((self.spec_size().0 / 2) as isize, (self.spec_size().1 / 2) as isize)
    }

    /// Resolves the grammar for a canvas of `width` times `height` pixels
    /// whose coarsest squares have the side `2^scale`. The relevance search
    /// gives up beyond `limit` placements.
    ///
    /// Limits: a width or a height above `MAX_CANVAS` and a scale above
    /// `MAX_SCALE` are refused with `CanvasTooLarge`.
    pub fn start(
        fractal: FractalSpecification<A, L>,
        width: usize,
        height: usize,
        scale: u32,
        limit: usize,
    ) -> (r: Result<RenderSession<A, L>, StartError>)
        ensures
            match r {
                Ok(session) => {
                    &&& width <= MAX_CANVAS && height <= MAX_CANVAS && scale <= MAX_SCALE
                    &&& session.spec_fractal() == fractal@
                    &&& session.spec_size() == (width, height)
                    &&& session.spec_scale() == scale
                    &&& session.spec_resolution().resolves(fractal@, limit as nat)
                },
                Err(StartError::CanvasTooLarge) => !(width <= MAX_CANVAS && height <= MAX_CANVAS
                    && scale <= MAX_SCALE),
                Err(StartError::Unresolved(e)) => width <= MAX_CANVAS && height <= MAX_CANVAS
                    && scale <= MAX_SCALE && resolution_fails(fractal@, limit as nat, e),
            },
    {
        if width > MAX_CANVAS as usize || height > MAX_CANVAS as usize || scale > MAX_SCALE {
            return Err(StartError::CanvasTooLarge);
        }
        let resolution = match resolve(&fractal, limit) {
            Ok(resolution) => resolution,
            Err(e) => {
                return Err(StartError::Unresolved(e));
            },
        };
        Ok(RenderSession { fractal, resolution, width, height, scale, limit: Ghost(limit as nat) })
    }

    /// All that was resolved from the grammar.
    pub fn get_resolution(&self) -> (r: &Resolution)
        ensures
            *r == self.spec_resolution(),
    {
        &self.resolution
    }

    /// The width and the height of the canvas.
    pub fn get_size(&self) -> (r: (usize, usize))
        ensures
            r == self.spec_size(),
            r.0 <= MAX_CANVAS,
            r.1 <= MAX_CANVAS,
    {
        proof {
            use_type_invariant(self);
        }
        (self.width, self.height)
    }

    /// The scale of the coarsest squares.
    pub fn get_scale(&self) -> (r: u32)
        ensures
            r == self.spec_scale(),
            r <= MAX_SCALE,
    {
        proof {
            use_type_invariant(self);
        }
        self.scale
    }

    /// Where the band of rows that starts at `top` ends: at the next row in
    /// which chunks start, or at the bottom of the canvas where that comes
    /// first. Drawn band by band, a canvas gets the chunks that it gets
    /// when it is drawn at once.
    pub fn next_band(&self, top: usize) -> (bottom: usize)
        requires
            top < self.spec_size().1,
        ensures
            top < bottom <= self.spec_size().1,
            bottom - top <= SENDING_SIZE,
            bottom == self.spec_size().1 || (bottom - self.spec_origin().1) % (
            SENDING_SIZE as int) == 0,
    {
        proof {
            use_type_invariant(self);
        }
        let side: usize = 16;
        let into_row = (top + side - (self.height / 2) % side) % side;
        let next = top + side - into_row;
        if next < self.height {
            next
        } else {
            self.height
        }
    }

    /// The rows of the canvas from `top` up to, but without, `bottom`.
    pub open spec fn spec_rows(self, top: usize, bottom: usize) -> (isize, isize, isize, isize) {
        (0, top as isize, self.spec_size().0 as isize, bottom as isize)
    }

    /// Lists what is to be done to draw the rows of the canvas from `top`
    /// up to, but without, `bottom`, with the origin in the middle of the
    /// canvas. The drawing writes every pixel of those rows once and no
    /// other pixel, and every chunk that it begins it ends.
    pub fn draw_rows<F>(&self, triangle_colouring: &F, top: usize, bottom: usize) -> (events: Vec<
        DrawEvent,
    >) where F: Fn(EvenD8Translation) -> ColourInterval
        requires
            top <= bottom <= self.spec_size().1,
            forall|t: EvenD8Translation| call_requires(triangle_colouring, (t,)),
            colours_splittable(triangle_colouring, 2 * self.spec_scale() as nat),
        ensures
            forall|shade: spec_fn(EvenTransform) -> IntervalModel|
                describes(triangle_colouring, shade) ==> event_views(events@) == (
                #[trigger] canvas_model(
                    self.spec_fractal(),
                    shade,
                    self.spec_resolution().requirement_list@,
                    self.spec_resolution().splitter_list@,
                    self.spec_rows(top, bottom),
                    self.spec_origin(),
                    self.spec_scale(),
                    triangle_colouring,
                )).events(),
            forall|shade: spec_fn(EvenTransform) -> IntervalModel|
                #![trigger describes(triangle_colouring, shade)]
                describes(triangle_colouring, shade) && rect_nonempty(
                    bounds_of(self.spec_rows(top, bottom)),
                ) ==> orderly(event_views(events@), bounds_of(self.spec_rows(top, bottom))),
            forall|shade: spec_fn(EvenTransform) -> IntervalModel, x: int, y: int|
                #![trigger describes(triangle_colouring, shade), writes(event_views(events@), x, y)]
                describes(triangle_colouring, shade) ==> writes(event_views(events@), x, y)
                    == once_inside(bounds_of(self.spec_rows(top, bottom)), x, y),
    {
        proof {
            use_type_invariant(self);
        }
        let bounds = (0, top as isize, self.width as isize, bottom as isize);
        let origin = ((self.width / 2) as isize, (self.height / 2) as isize);
        let events = draw_into_canvas(
            self.resolution.requirement_list.as_slice(),
            bounds,
            origin,
            self.scale,
            &self.fractal,
            triangle_colouring,
            self.resolution.splitter_list.as_slice(),
        );
        proof {
            assert forall|shade: spec_fn(EvenTransform) -> IntervalModel|
                #![trigger describes(triangle_colouring, shade)]
                describes(triangle_colouring, shade) && rect_nonempty(
                    bounds_of(bounds),
                ) implies orderly(event_views(events@), bounds_of(bounds)) by {
                let canvas = canvas_model(
                    self.fractal@,
                    shade,
                    self.resolution.requirement_list@,
                    self.resolution.splitter_list@,
                    bounds,
                    origin,
                    self.scale,
                    triangle_colouring,
                );
                vstd::arithmetic::power2::lemma_pow2_pos(self.scale as nat);
                lemma_canvas_orderly(canvas);
            }
            assert forall|shade: spec_fn(EvenTransform) -> IntervalModel, x: int, y: int|
                #![trigger describes(triangle_colouring, shade), writes(event_views(events@), x, y)]
                describes(triangle_colouring, shade) implies writes(event_views(events@), x, y)
                == once_inside(bounds_of(bounds), x, y) by {
                let canvas = canvas_model(
                    self.fractal@,
                    shade,
                    self.resolution.requirement_list@,
                    self.resolution.splitter_list@,
                    bounds,
                    origin,
                    self.scale,
                    triangle_colouring,
                );
                lemma_canvas_written_once(canvas, self.scale as nat, x, y);
            }
        }
        events
    }

    /// Lists what is to be done to draw the whole canvas in two colours:
    /// the tile at the identity red in its first half and blue in its
    /// second, every other tile black.
    pub fn draw_in_two_colours(&self) -> (events: Vec<DrawEvent>)
        ensures
            event_views(events@) == canvas_model(
                self.spec_fractal(),
                |t: EvenTransform| spec_two_colouring(t),
                self.spec_resolution().requirement_list@,
                self.spec_resolution().splitter_list@,
                self.spec_bounds(),
                self.spec_origin(),
                self.spec_scale(),
                &two_colouring,
            ).events(),
            rect_nonempty(bounds_of(self.spec_bounds())) ==> orderly(
                event_views(events@),
                bounds_of(self.spec_bounds()),
            ),
            forall|x: int, y: int|
                #[trigger] writes(event_views(events@), x, y) == once_inside(
                    bounds_of(self.spec_bounds()),
                    x,
                    y,
                ),
    {
        let ghost shade = |t: EvenTransform| spec_two_colouring(t);
        proof {
            assert forall|t: EvenD8Translation, interval: ColourInterval|
                call_ensures(two_colouring, (t,), interval) implies interval@.splittable(
                2 * self.spec_scale() as nat,
            ) by {
                lemma_two_colouring_splittable(t@, 2 * self.spec_scale() as nat);
            }
            assert(describes(&two_colouring, shade));
        }
        self.draw(&two_colouring)
    }

    /// Lists what is to be done to draw the whole canvas.
    pub fn draw<F>(&self, triangle_colouring: &F) -> (events: Vec<DrawEvent>) where
        F: Fn(EvenD8Translation) -> ColourInterval,

        requires
            forall|t: EvenD8Translation| call_requires(triangle_colouring, (t,)),
            colours_splittable(triangle_colouring, 2 * self.spec_scale() as nat),
        ensures
            forall|shade: spec_fn(EvenTransform) -> IntervalModel|
                describes(triangle_colouring, shade) ==> event_views(events@) == (
                #[trigger] canvas_model(
                    self.spec_fractal(),
                    shade,
                    self.spec_resolution().requirement_list@,
                    self.spec_resolution().splitter_list@,
                    self.spec_bounds(),
                    self.spec_origin(),
                    self.spec_scale(),
                    triangle_colouring,
                )).events(),
            forall|shade: spec_fn(EvenTransform) -> IntervalModel|
                #![trigger describes(triangle_colouring, shade)]
                describes(triangle_colouring, shade) && rect_nonempty(bounds_of(self.spec_bounds()))
                    ==> orderly(event_views(events@), bounds_of(self.spec_bounds())),
            forall|shade: spec_fn(EvenTransform) -> IntervalModel, x: int, y: int|
                #![trigger describes(triangle_colouring, shade), writes(event_views(events@), x, y)]
                describes(triangle_colouring, shade) ==> writes(event_views(events@), x, y)
                    == once_inside(bounds_of(self.spec_bounds()), x, y),
    {
        let (_, height) = self.get_size();
        self.draw_rows(triangle_colouring, 0, height)
    }
}

} // verus!
