//! The square tiling: squares of two triangles each, split into four down
//! to single pixels, and cropped against a viewport on the way.
//!
//! Drawing does not touch a canvas. It lists what is to be done, in order:
//! which pixel gets which colours, and where a chunk of the canvas begins
//! and ends. The caller blends the colours and writes the bytes.

use crate::auxiliary::{
    cut_seeded, triangle_seeded, TilePlan, TileSeed, WorkingMessage, MAX_TILE,
};
use crate::dihedral_translation::{EvenD8Translation, EvenTransform};
use crate::fractal_specification::{FractalSpecification, Grammar, MAX_REACH};
use crate::interval_colouring::{ColourInterval, ColourKey, IntervalModel};
use crate::relevance_getter::{all_within_reach, transform_views};
use crate::triangle::{
    all_splittable, colours_of, far_child, lemma_all_splittable_monotonic,
    lemma_children_splittable, near_child, splitter_fits, SplitterEntry, Triangle,
};
use vstd::arithmetic::power2::{
    lemma2_to64, lemma_pow2_strictly_increases, lemma_pow2_unfold, pow2,
};
use vstd::prelude::*;

verus! {

/// The side of the squares whose drawing is announced to the consumer.
pub const SENDING_SIZE: isize = 16;

/// A rectangle of the canvas: left, top, right, bottom, the last two exclusive.
pub type Bounds = (isize, isize, isize, isize);

/// A triangle with its orientation bit, as the contracts see it.
pub type OrientedModel = (Seq<IntervalModel>, bool);

/// The two children of a triangle, in the order that its orientation
/// gives them, with the orientation bits that make them recombine.
///
/// A triangle that is oriented to its right angle hands on its far child
/// first, one that is oriented to its 45 degree vertex its near child. The
/// first of the splitting type's flags goes with the far child, the second
/// with the near child, and the child handed on first gets its flag negated.
pub open spec fn oriented_children(
    triangle: OrientedModel,
    splitter: Seq<SplitterEntry>,
    splitting_type: (bool, bool),
) -> (OrientedModel, OrientedModel) {
    let far = far_child(triangle.0, splitter);
    let near = near_child(triangle.0, splitter);
    if triangle.1 {
        ((near, !splitting_type.1), (far, splitting_type.0))
    } else {
        ((far, !splitting_type.0), (near, splitting_type.1))
    }
}

/// The mathematical value of a [`SquareCut`].
pub struct CutModel {
    /// Whether the diagonal rises from the bottom left to the top right.
    pub slash: bool,
    /// The top left triangle of a slash, the bottom left one of a backslash.
    pub first: OrientedModel,
    /// The bottom right triangle of a slash, the top right one of a backslash.
    pub second: OrientedModel,
}

impl CutModel {
    /// Both triangles have `count` intervals.
    pub open spec fn has_intervals(self, count: nat) -> bool {
        self.first.0.len() == count && self.second.0.len() == count
    }

    /// Every interval of both triangles can be split `depth` times in a row.
    pub open spec fn splittable(self, depth: nat) -> bool {
        all_splittable(self.first.0, depth) && all_splittable(self.second.0, depth)
    }

    /// The cuts of the four quarters: top left, top right, bottom left, bottom right.
    ///
    /// Each triangle of the square is split into the two triangles that
    /// touch one side of the square each, and each of those into two again,
    /// which lie in neighbouring quarters. A quarter is made of the two
    /// eighths that lie in it, so whichever way the square is cut, every
    /// quarter is cut by its diagonal through the middle of the square.
    pub open spec fn quarters(self, splitter: Seq<SplitterEntry>, splitting_type: (bool, bool)) -> (
        CutModel,
        CutModel,
        CutModel,
        CutModel,
    ) {
        let one = oriented_children(self.first, splitter, splitting_type);
        let two = oriented_children(self.second, splitter, splitting_type);
        let (left, top, right, bottom) = if self.slash {
            (one.0, one.1, two.0, two.1)
        } else {
            (one.1, two.0, two.1, one.0)
        };
        let of_left = oriented_children(left, splitter, splitting_type);
        let of_top = oriented_children(top, splitter, splitting_type);
        let of_right = oriented_children(right, splitter, splitting_type);
        let of_bottom = oriented_children(bottom, splitter, splitting_type);
        (
            CutModel { slash: false, first: of_left.0, second: of_top.1 },
            CutModel { slash: true, first: of_top.0, second: of_right.1 },
            CutModel { slash: true, first: of_left.1, second: of_bottom.0 },
            CutModel { slash: false, first: of_bottom.1, second: of_right.0 },
        )
    }
}

/// A square cut into two triangles by one of its diagonals.
///
/// Each triangle comes with its orientation bit: unset where the triangle
/// is oriented to its right angle, set where it is oriented to its 45
/// degree vertex. The bit decides which child of the triangle is the far one.
pub enum SquareCut {
    /// Cut from the bottom left to the top right: the top left triangle,
    /// then the bottom right one.
    Slash((Triangle, bool), (Triangle, bool)),
    /// Cut from the top left to the bottom right: the bottom left triangle,
    /// then the top right one.
    Backslash((Triangle, bool), (Triangle, bool)),
}

impl View for SquareCut {
    type V = CutModel;

    open spec fn view(&self) -> CutModel {
        match self {
            SquareCut::Slash(first, second) => CutModel {
                slash: true,
                first: (first.0@, first.1),
                second: (second.0@, second.1),
            },
            SquareCut::Backslash(first, second) => CutModel {
                slash: false,
                first: (first.0@, first.1),
                second: (second.0@, second.1),
            },
        }
    }
}

/// The two children of a triangle, in the order that its orientation gives them.
fn split_oriented(
    triangle: (Triangle, bool),
    splitter_list: &[SplitterEntry],
    splitting_type: (bool, bool),
) -> (r: ((Triangle, bool), (Triangle, bool)))
    requires
        triangle.0@.len() == splitter_list.len(),
        splitter_fits(splitter_list@, splitter_list@.len()),
        all_splittable(triangle.0@, 1),
    ensures
        ((r.0.0@, r.0.1), (r.1.0@, r.1.1)) == oriented_children(
            (triangle.0@, triangle.1),
            splitter_list@,
            splitting_type,
        ),
{
    let (split_a, split_b) = splitting_type;
    proof {
        lemma_children_splittable(triangle.0@, splitter_list@, 1);
    }
    let (far, near) = triangle.0.split(splitter_list);
    if triangle.1 {
        ((near, !split_b), (far, split_a))
    } else {
        ((far, !split_a), (near, split_b))
    }
}

impl SquareCut {
    /// The cuts of the four quarters of the square: top left, top right,
    /// bottom left, bottom right.
    pub fn split(self, splitter_list: &[SplitterEntry], splitting_type: (bool, bool)) -> (r: (
        SquareCut,
        SquareCut,
        SquareCut,
        SquareCut,
    ))
        requires
            self@.has_intervals(splitter_list@.len()),
            splitter_fits(splitter_list@, splitter_list@.len()),
            self@.splittable(2),
        ensures
            (r.0@, r.1@, r.2@, r.3@) == self@.quarters(splitter_list@, splitting_type),
    {
        let ghost splitter = splitter_list@;
        proof {
            lemma_children_splittable(self@.first.0, splitter, 2);
            lemma_children_splittable(self@.second.0, splitter, 2);
            lemma_all_splittable_monotonic(self@.first.0, 2, 1);
            lemma_all_splittable_monotonic(self@.second.0, 2, 1);
        }
        let (left, top, right, bottom) = match self {
            SquareCut::Slash(tl, br) => {
                let (left, top) = split_oriented(tl, splitter_list, splitting_type);
                let (right, bottom) = split_oriented(br, splitter_list, splitting_type);
                (left, top, right, bottom)
            },
            SquareCut::Backslash(bl, tr) => {
                let (bottom, left) = split_oriented(bl, splitter_list, splitting_type);
                let (top, right) = split_oriented(tr, splitter_list, splitting_type);
                (left, top, right, bottom)
            },
        };
        let (tl_l, bl_l) = split_oriented(left, splitter_list, splitting_type);
        let (tr_t, tl_t) = split_oriented(top, splitter_list, splitting_type);
        let (br_r, tr_r) = split_oriented(right, splitter_list, splitting_type);
        let (bl_b, br_b) = split_oriented(bottom, splitter_list, splitting_type);
        (
            SquareCut::Backslash(tl_l, tl_t),
            SquareCut::Slash(tr_t, tr_r),
            SquareCut::Slash(bl_l, bl_b),
            SquareCut::Backslash(br_b, br_r),
        )
    }
}

/// A rectangle as the contracts see it.
pub type SpecBounds = (int, int, int, int);

/// A rectangle that the machine holds, as the contracts see it.
pub open spec fn bounds_of(bounds: Bounds) -> SpecBounds {
    (bounds.0 as int, bounds.1 as int, bounds.2 as int, bounds.3 as int)
}

/// The pixel at `(x, y)` lies in the rectangle.
pub open spec fn bounds_contain(bounds: SpecBounds, x: int, y: int) -> bool {
    bounds.0 <= x < bounds.2 && bounds.1 <= y < bounds.3
}

/// How often a square with the given side is split before single pixels are reached.
pub open spec fn levels(sidelength: int) -> nat
    decreases sidelength,
{
    if sidelength <= 1 {
        0
    } else {
        1 + levels(sidelength / 2)
    }
}

/// The mathematical value of an [`UncroppedSquare`]: y grows downwards, and
/// `(x, y)` is the top left corner.
pub struct SquareModel {
    pub x: int,
    pub y: int,
    pub sidelength: int,
    pub triangles: CutModel,
}

/// The mathematical value of a [`CropOutput`].
pub enum CropModel {
    Unaffected(SquareModel),
    Cropped(SquareModel, SpecBounds),
    Empty,
}

/// The mathematical value of a [`DrawEvent`].
pub enum EventModel {
    Message(SpecBounds, WorkingMessage),
    Pixel { x: int, y: int, first: Seq<ColourKey>, second: Seq<ColourKey> },
}

impl SquareModel {
    /// The rectangle that the square covers.
    pub open spec fn bounds(self) -> SpecBounds {
        (self.x, self.y, self.x + self.sidelength, self.y + self.sidelength)
    }

    /// The four quarters: top left, top right, bottom left, bottom right.
    pub open spec fn quarters(self, splitter: Seq<SplitterEntry>, splitting_type: (bool, bool)) -> (
        SquareModel,
        SquareModel,
        SquareModel,
        SquareModel,
    ) {
        let half = self.sidelength / 2;
        let cuts = self.triangles.quarters(splitter, splitting_type);
        (
            SquareModel { x: self.x, y: self.y, sidelength: half, triangles: cuts.0 },
            SquareModel { x: self.x + half, y: self.y, sidelength: half, triangles: cuts.1 },
            SquareModel { x: self.x, y: self.y + half, sidelength: half, triangles: cuts.2 },
            SquareModel { x: self.x + half, y: self.y + half, sidelength: half, triangles: cuts.3 },
        )
    }

    /// The square against the viewport `bounds`: untouched where it lies
    /// inside, gone where it lies outside, and marked for cropping else.
    pub open spec fn crop(self, bounds: SpecBounds) -> CropModel {
        if bounds.0 <= self.x && bounds.1 <= self.y && bounds.2 >= self.x + self.sidelength
            && bounds.3 >= self.y + self.sidelength {
            CropModel::Unaffected(self)
        } else if bounds.2 <= self.x || bounds.3 <= self.y || bounds.0 >= self.x + self.sidelength
            || bounds.1 >= self.y + self.sidelength {
            CropModel::Empty
        } else {
            CropModel::Cropped(self, bounds)
        }
    }

    /// The far corner of the square is representable.
    pub open spec fn fits(self) -> bool {
        &&& 0 <= self.sidelength
        &&& self.x + self.sidelength <= isize::MAX
        &&& self.y + self.sidelength <= isize::MAX
    }

    /// The square can be split down to pixels by the splitter list.
    pub open spec fn splits_to_pixels(self, splitter: Seq<SplitterEntry>) -> bool {
        &&& self.fits()
        &&& self.triangles.has_intervals(splitter.len())
        &&& splitter_fits(splitter, splitter.len())
        &&& self.triangles.splittable(2 * levels(self.sidelength))
    }

    /// What drawing the square lists: the pixel itself where the square is
    /// one, else what drawing the four quarters lists, in their order. The
    /// list of a square with the side `SENDING_SIZE` is announced at its
    /// start and at its end.
    pub open spec fn events(self, splitter: Seq<SplitterEntry>, splitting_type: (bool, bool)) -> Seq<
        EventModel,
    >
        decreases self.sidelength,
    {
        if self.sidelength <= 1 {
            seq![
                EventModel::Pixel {
                    x: self.x,
                    y: self.y,
                    first: colours_of(self.triangles.first.0),
                    second: colours_of(self.triangles.second.0),
                },
            ]
        } else {
            let quarters = self.quarters(splitter, splitting_type);
            let inner = quarters.0.events(splitter, splitting_type) + quarters.1.events(
                splitter,
                splitting_type,
            ) + quarters.2.events(splitter, splitting_type) + quarters.3.events(
                splitter,
                splitting_type,
            );
            if self.sidelength == SENDING_SIZE {
                seq![EventModel::Message(self.bounds(), WorkingMessage::Begin)] + inner
                    + seq![EventModel::Message(self.bounds(), WorkingMessage::End)]
            } else {
                inner
            }
        }
    }
}

/// The part of the square `base` that lies in the viewport `bounds`.
pub open spec fn clipped_bounds(base: SquareModel, bounds: SpecBounds) -> SpecBounds {
    (
        if bounds.0 >= base.x {
            bounds.0
        } else {
            base.x
        },
        if bounds.1 >= base.y {
            bounds.1
        } else {
            base.y
        },
        if bounds.2 <= base.x + base.sidelength {
            bounds.2
        } else {
            base.x + base.sidelength
        },
        if bounds.3 <= base.y + base.sidelength {
            bounds.3
        } else {
            base.y + base.sidelength
        },
    )
}

impl CropModel {
    /// The side of the square that is left, zero where none is.
    pub open spec fn sidelength(self) -> int {
        match self {
            CropModel::Unaffected(square) => square.sidelength,
            CropModel::Cropped(base, bounds) => base.sidelength,
            CropModel::Empty => 0,
        }
    }

    /// The square can be drawn: it can be split down to pixels, it lies
    /// where coordinates are not negative, and what is marked for cropping
    /// does overlap the viewport without lying inside it.
    pub open spec fn drawable(self, splitter: Seq<SplitterEntry>) -> bool {
        match self {
            CropModel::Unaffected(square) => square.splits_to_pixels(splitter) && 0 <= square.x
                && 0 <= square.y && 1 <= square.sidelength,
            CropModel::Cropped(base, bounds) => base.splits_to_pixels(splitter) && 0 <= bounds.0
                <= bounds.2 && 0 <= bounds.1 <= bounds.3 && base.crop(bounds) == self,
            CropModel::Empty => true,
        }
    }

    /// What drawing lists: for an untouched square what the square lists,
    /// for nothing nothing, and for a square marked for cropping what its
    /// four quarters list once each is cropped in turn. The list of a
    /// cropped square with the side `SENDING_SIZE` is announced with the
    /// part of the square that lies in the viewport.
    pub open spec fn events(self, splitter: Seq<SplitterEntry>, splitting_type: (bool, bool)) -> Seq<
        EventModel,
    >
        decreases self.sidelength(),
    {
        match self {
            CropModel::Unaffected(square) => square.events(splitter, splitting_type),
            CropModel::Empty => Seq::empty(),
            CropModel::Cropped(base, bounds) => {
                if base.sidelength <= 1 {
                    Seq::empty()
                } else {
                    let quarters = base.quarters(splitter, splitting_type);
                    let inner = quarters.0.crop(bounds).events(splitter, splitting_type)
                        + quarters.1.crop(bounds).events(splitter, splitting_type)
                        + quarters.2.crop(bounds).events(splitter, splitting_type)
                        + quarters.3.crop(bounds).events(splitter, splitting_type);
                    if base.sidelength == SENDING_SIZE {
                        seq![
                            EventModel::Message(clipped_bounds(base, bounds), WorkingMessage::Begin),
                        ] + inner + seq![
                            EventModel::Message(clipped_bounds(base, bounds), WorkingMessage::End),
                        ]
                    } else {
                        inner
                    }
                }
            },
        }
    }
}

/// One step of a drawing, for the caller to carry out.
#[derive(Debug, PartialEq, Eq)]
pub enum DrawEvent {
    /// The drawing of the chunk with these bounds begins or ends.
    Message((usize, usize, usize, usize), WorkingMessage),
    /// The pixel at `(x, y)` shows the mean of the colours of its two
    /// triangles; the colour of a triangle is the sum of its intervals'
    /// colours, each times the weight of its position.
    Pixel { x: usize, y: usize, first: Vec<ColourKey>, second: Vec<ColourKey> },
}

impl View for DrawEvent {
    type V = EventModel;

    open spec fn view(&self) -> EventModel {
        match self {
            DrawEvent::Message(bounds, message) => EventModel::Message(
                (bounds.0 as int, bounds.1 as int, bounds.2 as int, bounds.3 as int),
                *message,
            ),
            DrawEvent::Pixel { x, y, first, second } => EventModel::Pixel {
                x: *x as int,
                y: *y as int,
                first: first@,
                second: second@,
            },
        }
    }
}

/// The mathematical values of a list of events.
pub open spec fn event_views(events: Seq<DrawEvent>) -> Seq<EventModel> {
    events.map_values(|event: DrawEvent| event@)
}

/// A square of the canvas with its two triangles.
pub struct UncroppedSquare {
    x: isize,
    y: isize,
    sidelength: isize,
    triangles: SquareCut,
}

/// A square after it was held against the viewport.
pub enum CropOutput {
    /// The square lies inside the viewport.
    Unaffected(UncroppedSquare),
    /// The square lies across the edge of the viewport with these bounds.
    Cropped(UncroppedSquare, Bounds),
    /// The square lies outside the viewport.
    Empty,
}

impl View for UncroppedSquare {
    type V = SquareModel;

    closed spec fn view(&self) -> SquareModel {
        SquareModel {
            x: self.x as int,
            y: self.y as int,
            sidelength: self.sidelength as int,
            triangles: self.triangles@,
        }
    }
}

impl View for CropOutput {
    type V = CropModel;

    open spec fn view(&self) -> CropModel {
        match self {
            CropOutput::Unaffected(square) => CropModel::Unaffected(square@),
            CropOutput::Cropped(base, bounds) => CropModel::Cropped(base@, bounds_of(*bounds)),
            CropOutput::Empty => CropModel::Empty,
        }
    }
}

/// The list with one more event at its end.
proof fn lemma_event_pushed(events: Seq<DrawEvent>, event: DrawEvent)
    ensures
        event_views(events.push(event)) == event_views(events) + seq![event@],
{
    assert(event_views(events.push(event)) =~= event_views(events) + seq![event@]);
}

/// The rectangle as the consumer is told of it.
fn message_bounds(left: isize, top: isize, right: isize, bottom: isize) -> (r: (
    usize,
    usize,
    usize,
    usize,
))
    requires
        0 <= left,
        0 <= top,
        0 <= right,
        0 <= bottom,
    ensures
        (r.0 as int, r.1 as int, r.2 as int, r.3 as int) == (
            left as int,
            top as int,
            right as int,
            bottom as int,
        ),
{
    (left as usize, top as usize, right as usize, bottom as usize)
}

impl UncroppedSquare {
    /// The square with the top left corner `(x, y)`.
    pub fn new(x: isize, y: isize, sidelength: isize, triangles: SquareCut) -> (r: UncroppedSquare)
        ensures
            r@ == (SquareModel {
                x: x as int,
                y: y as int,
                sidelength: sidelength as int,
                triangles: triangles@,
            }),
    {
        UncroppedSquare { x, y, sidelength, triangles }
    }

    /// The four quarters of the square: top left, top right, bottom left,
    /// bottom right.
    pub fn split(self, splitter_list: &[SplitterEntry], splitting_type: (bool, bool)) -> (r: (
        UncroppedSquare,
        UncroppedSquare,
        UncroppedSquare,
        UncroppedSquare,
    ))
        requires
            self@.fits(),
            self@.triangles.has_intervals(splitter_list@.len()),
            splitter_fits(splitter_list@, splitter_list@.len()),
            self@.triangles.splittable(2),
        ensures
            (r.0@, r.1@, r.2@, r.3@) == self@.quarters(splitter_list@, splitting_type),
    {
        let half_sidelength = self.sidelength / 2;
        let (tl_triangles, tr_triangles, bl_triangles, br_triangles) = self.triangles.split(
            splitter_list,
            splitting_type,
        );
        (
            UncroppedSquare {
                x: self.x,
                y: self.y,
                sidelength: half_sidelength,
                triangles: tl_triangles,
            },
            UncroppedSquare {
                x: self.x + half_sidelength,
                y: self.y,
                sidelength: half_sidelength,
                triangles: tr_triangles,
            },
            UncroppedSquare {
                x: self.x,
                y: self.y + half_sidelength,
                sidelength: half_sidelength,
                triangles: bl_triangles,
            },
            UncroppedSquare {
                x: self.x + half_sidelength,
                y: self.y + half_sidelength,
                sidelength: half_sidelength,
                triangles: br_triangles,
            },
        )
    }

    /// The square held against the viewport `bounds`.
    pub fn crop(self, bounds: Bounds) -> (r: CropOutput)
        requires
            self@.fits(),
        ensures
            r@ == self@.crop(bounds_of(bounds)),
    {
        if (bounds.0 <= self.x) && (bounds.1 <= self.y) && (bounds.2 >= self.x + self.sidelength)
            && (bounds.3 >= self.y + self.sidelength) {
            CropOutput::Unaffected(self)
        } else if (bounds.2 <= self.x) || (bounds.3 <= self.y) || (bounds.0 >= self.x
            + self.sidelength) || (bounds.1 >= self.y + self.sidelength) {
            CropOutput::Empty
        } else {
            CropOutput::Cropped(self, bounds)
        }
    }

    /// The part of the square that lies in the viewport `bounds`.
    fn clip(&self, bounds: Bounds) -> (r: (usize, usize, usize, usize))
        requires
            self@.fits(),
            0 <= clipped_bounds(self@, bounds_of(bounds)).0,
            0 <= clipped_bounds(self@, bounds_of(bounds)).1,
            0 <= clipped_bounds(self@, bounds_of(bounds)).2,
            0 <= clipped_bounds(self@, bounds_of(bounds)).3,
        ensures
            (r.0 as int, r.1 as int, r.2 as int, r.3 as int) == clipped_bounds(
                self@,
                bounds_of(bounds),
            ),
    {
        message_bounds(
            if bounds.0 >= self.x {
                bounds.0
            } else {
                self.x
            },
            if bounds.1 >= self.y {
                bounds.1
            } else {
                self.y
            },
            if bounds.2 <= self.x + self.sidelength {
                bounds.2
            } else {
                self.x + self.sidelength
            },
            if bounds.3 <= self.y + self.sidelength {
                bounds.3
            } else {
                self.y + self.sidelength
            },
        )
    }

    /// Whether the square has the side whose drawing is announced.
    fn is_chunk(&self) -> (r: bool)
        ensures
            r == (self@.sidelength == SENDING_SIZE),
    {
        self.sidelength == SENDING_SIZE
    }

    /// Lists, at the end of `events`, what is to be done to draw the square.
    pub fn draw(
        self,
        splitter_list: &[SplitterEntry],
        splitting_type: (bool, bool),
        events: &mut Vec<DrawEvent>,
    )
        requires
            self@.splits_to_pixels(splitter_list@),
            1 <= self@.sidelength,
            0 <= self@.x,
            0 <= self@.y,
        ensures
            event_views(final(events)@) == event_views(old(events)@) + self@.events(
                splitter_list@,
                splitting_type,
            ),
        decreases self@.sidelength,
    {
        let ghost splitter = splitter_list@;
        let ghost before = event_views(events@);
        let ghost square = self@;
        if self.sidelength == 1 {
            let (first, second) = match self.triangles {
                SquareCut::Slash((t1, _), (t2, _)) => (t1.get_colours(), t2.get_colours()),
                SquareCut::Backslash((t1, _), (t2, _)) => (t1.get_colours(), t2.get_colours()),
            };
            let event = DrawEvent::Pixel { x: self.x as usize, y: self.y as usize, first, second };
            proof {
                lemma_event_pushed(events@, event);
            }
            events.push(event);
            return ;
        }
        let message = if self.sidelength == SENDING_SIZE {
            let bounds = message_bounds(
                self.x,
                self.y,
                self.x + self.sidelength,
                self.y + self.sidelength,
            );
            let event = DrawEvent::Message(bounds, WorkingMessage::Begin);
            proof {
                lemma_event_pushed(events@, event);
            }
            events.push(event);
            Some(bounds)
        } else {
            None
        };
        let ghost begun = event_views(events@);
        proof {
            lemma_quarters_split_to_pixels(square, splitter, splitting_type);
        }
        let (tl, tr, bl, br) = self.split(splitter_list, splitting_type);
        tl.draw(splitter_list, splitting_type, events);
        tr.draw(splitter_list, splitting_type, events);
        bl.draw(splitter_list, splitting_type, events);
        br.draw(splitter_list, splitting_type, events);
        let ghost quarters = square.quarters(splitter, splitting_type);
        let ghost inner = quarters.0.events(splitter, splitting_type) + quarters.1.events(
            splitter,
            splitting_type,
        ) + quarters.2.events(splitter, splitting_type) + quarters.3.events(
            splitter,
            splitting_type,
        );
        assert(event_views(events@) =~= begun + inner);
        match message {
            Some(bounds) => {
                let event = DrawEvent::Message(bounds, WorkingMessage::End);
                proof {
                    lemma_event_pushed(events@, event);
                }
                events.push(event);
                assert(event_views(events@) =~= before + square.events(splitter, splitting_type));
            },
            None => {
                assert(event_views(events@) =~= before + square.events(splitter, splitting_type));
            },
        }
    }
}

/// The children of a triangle with as many intervals as the splitter
/// list has entries have as many too, and can be split one time less.
pub proof fn lemma_oriented_children(
    triangle: OrientedModel,
    splitter: Seq<SplitterEntry>,
    splitting_type: (bool, bool),
    depth: nat,
)
    requires
        depth > 0,
        triangle.0.len() == splitter.len(),
        splitter_fits(splitter, splitter.len()),
        all_splittable(triangle.0, depth),
    ensures
        oriented_children(triangle, splitter, splitting_type).0.0.len() == splitter.len(),
        oriented_children(triangle, splitter, splitting_type).1.0.len() == splitter.len(),
        all_splittable(
            oriented_children(triangle, splitter, splitting_type).0.0,
            (depth - 1) as nat,
        ),
        all_splittable(
            oriented_children(triangle, splitter, splitting_type).1.0,
            (depth - 1) as nat,
        ),
{
    lemma_children_splittable(triangle.0, splitter, depth);
}

/// The quarters of a cut have as many intervals as the cut, and can be
/// split two times less.
pub proof fn lemma_cut_quarters(
    cut: CutModel,
    splitter: Seq<SplitterEntry>,
    splitting_type: (bool, bool),
    depth: nat,
)
    requires
        depth >= 2,
        cut.has_intervals(splitter.len()),
        splitter_fits(splitter, splitter.len()),
        cut.splittable(depth),
    ensures
        cut.splittable(2),
        cut.quarters(splitter, splitting_type).0.has_intervals(splitter.len()),
        cut.quarters(splitter, splitting_type).1.has_intervals(splitter.len()),
        cut.quarters(splitter, splitting_type).2.has_intervals(splitter.len()),
        cut.quarters(splitter, splitting_type).3.has_intervals(splitter.len()),
        cut.quarters(splitter, splitting_type).0.splittable((depth - 2) as nat),
        cut.quarters(splitter, splitting_type).1.splittable((depth - 2) as nat),
        cut.quarters(splitter, splitting_type).2.splittable((depth - 2) as nat),
        cut.quarters(splitter, splitting_type).3.splittable((depth - 2) as nat),
{
    lemma_all_splittable_monotonic(cut.first.0, depth, 2);
    lemma_all_splittable_monotonic(cut.second.0, depth, 2);
    lemma_oriented_children(cut.first, splitter, splitting_type, depth);
    lemma_oriented_children(cut.second, splitter, splitting_type, depth);
    let one = oriented_children(cut.first, splitter, splitting_type);
    let two = oriented_children(cut.second, splitter, splitting_type);
    let below = (depth - 1) as nat;
    lemma_oriented_children(one.0, splitter, splitting_type, below);
    lemma_oriented_children(one.1, splitter, splitting_type, below);
    lemma_oriented_children(two.0, splitter, splitting_type, below);
    lemma_oriented_children(two.1, splitter, splitting_type, below);
}

/// The quarters of a square that splits down to pixels do so too, lie in
/// the square, and are smaller than it.
pub proof fn lemma_quarters_split_to_pixels(
    square: SquareModel,
    splitter: Seq<SplitterEntry>,
    splitting_type: (bool, bool),
)
    requires
        square.splits_to_pixels(splitter),
        2 <= square.sidelength,
    ensures
        square.triangles.splittable(2),
        square.quarters(splitter, splitting_type).0.splits_to_pixels(splitter),
        square.quarters(splitter, splitting_type).1.splits_to_pixels(splitter),
        square.quarters(splitter, splitting_type).2.splits_to_pixels(splitter),
        square.quarters(splitter, splitting_type).3.splits_to_pixels(splitter),
        1 <= square.sidelength / 2 < square.sidelength,
        2 * (square.sidelength / 2) <= square.sidelength,
{
    let depth = 2 * levels(square.sidelength);
    assert(levels(square.sidelength) == 1 + levels(square.sidelength / 2));
    assert((depth - 2) as nat == 2 * levels(square.sidelength / 2));
    lemma_cut_quarters(square.triangles, splitter, splitting_type, depth);
}

/// What is left of the quarters of a square that lies across the edge of
/// the viewport can be drawn.
pub proof fn lemma_cropped_quarters_drawable(
    base: SquareModel,
    bounds: SpecBounds,
    splitter: Seq<SplitterEntry>,
    splitting_type: (bool, bool),
)
    requires
        CropModel::Cropped(base, bounds).drawable(splitter),
    ensures
        2 <= base.sidelength,
        base.triangles.splittable(2),
        base.quarters(splitter, splitting_type).0.crop(bounds).drawable(splitter),
        base.quarters(splitter, splitting_type).1.crop(bounds).drawable(splitter),
        base.quarters(splitter, splitting_type).2.crop(bounds).drawable(splitter),
        base.quarters(splitter, splitting_type).3.crop(bounds).drawable(splitter),
        0 <= clipped_bounds(base, bounds).0 <= clipped_bounds(base, bounds).2,
        0 <= clipped_bounds(base, bounds).1 <= clipped_bounds(base, bounds).3,
{
    lemma_quarters_split_to_pixels(base, splitter, splitting_type);
}

/// Four lists in a row, announced at both ends or not at all, make one list.
proof fn lemma_events_assembled(
    before: Seq<EventModel>,
    announced: bool,
    begin: EventModel,
    a: Seq<EventModel>,
    b: Seq<EventModel>,
    c: Seq<EventModel>,
    d: Seq<EventModel>,
    end: EventModel,
)
    ensures
        announced ==> (before + seq![begin] + a + b + c + d) + seq![end] == before + (seq![begin]
            + (a + b + c + d) + seq![end]),
        !announced ==> before + a + b + c + d == before + (a + b + c + d),
{
    assert((before + seq![begin] + a + b + c + d) + seq![end] =~= before + (seq![begin] + (a + b
        + c + d) + seq![end]));
    assert(before + a + b + c + d =~= before + (a + b + c + d));
}

/// Lists what is to be done to draw a square that lies across the edge of
/// the viewport.
fn draw_cropped(
    base: UncroppedSquare,
    bounds: Bounds,
    splitter_list: &[SplitterEntry],
    splitting_type: (bool, bool),
    events: &mut Vec<DrawEvent>,
)
    requires
        CropModel::Cropped(base@, bounds_of(bounds)).drawable(splitter_list@),
    ensures
        event_views(final(events)@) == event_views(old(events)@) + CropModel::Cropped(
            base@,
            bounds_of(bounds),
        ).events(splitter_list@, splitting_type),
    decreases base@.sidelength, 0int,
{
    let ghost splitter = splitter_list@;
    let ghost before = event_views(events@);
    let ghost square = base@;
    let ghost view_bounds = bounds_of(bounds);
    proof {
        lemma_cropped_quarters_drawable(square, view_bounds, splitter, splitting_type);
    }
    let announced = base.is_chunk();
    let clipped = base.clip(bounds);
    let ghost begin = EventModel::Message(clipped_bounds(square, view_bounds), WorkingMessage::Begin);
    let ghost end = EventModel::Message(clipped_bounds(square, view_bounds), WorkingMessage::End);
    if announced {
        let event = DrawEvent::Message(clipped, WorkingMessage::Begin);
        proof {
            lemma_event_pushed(events@, event);
        }
        events.push(event);
    }
    let ghost quarters = square.quarters(splitter, splitting_type);
    let ghost a = quarters.0.crop(view_bounds).events(splitter, splitting_type);
    let ghost b = quarters.1.crop(view_bounds).events(splitter, splitting_type);
    let ghost c = quarters.2.crop(view_bounds).events(splitter, splitting_type);
    let ghost d = quarters.3.crop(view_bounds).events(splitter, splitting_type);
    let (tl, tr, bl, br) = base.split(splitter_list, splitting_type);
    tl.crop(bounds).draw(splitter_list, splitting_type, events);
    tr.crop(bounds).draw(splitter_list, splitting_type, events);
    bl.crop(bounds).draw(splitter_list, splitting_type, events);
    br.crop(bounds).draw(splitter_list, splitting_type, events);
    if announced {
        let event = DrawEvent::Message(clipped, WorkingMessage::End);
        proof {
            lemma_event_pushed(events@, event);
        }
        events.push(event);
    }
    proof {
        lemma_events_assembled(before, announced, begin, a, b, c, d, end);
    }
}

impl CropOutput {
    /// Lists, at the end of `events`, what is to be done to draw what the
    /// viewport leaves of the square.
    pub fn draw(
        self,
        splitter_list: &[SplitterEntry],
        splitting_type: (bool, bool),
        events: &mut Vec<DrawEvent>,
    )
        requires
            self@.drawable(splitter_list@),
        ensures
            event_views(final(events)@) == event_views(old(events)@) + self@.events(
                splitter_list@,
                splitting_type,
            ),
        decreases self@.sidelength(), 1int,
    {
        match self {
            CropOutput::Unaffected(uncropped) => uncropped.draw(
                splitter_list,
                splitting_type,
                events,
            ),
            CropOutput::Cropped(base, bounds) => draw_cropped(
                base,
                bounds,
                splitter_list,
                splitting_type,
                events,
            ),
            CropOutput::Empty => {
                assert(event_views(events@) + Seq::<EventModel>::empty() =~= event_views(events@));
            },
        }
    }
}

/// The largest coordinate that a viewport or an origin may have: `2^23`.
/// The limit is far above any canvas and keeps every coordinate that a
/// drawing forms inside the machine's word, whatever its width.
pub const MAX_CANVAS: isize = 0x80_0000;

/// The largest scale: the coarsest squares have at most the side `2^20`.
/// With `MAX_CANVAS` it keeps the tile coordinates within `MAX_TILE`.
pub const MAX_SCALE: u32 = 20;

/// The colouring gives, for every placement, an interval with the value
/// that `shade` has at the placement's value.
pub open spec fn describes<F: Fn(EvenD8Translation) -> ColourInterval>(
    colouring: &F,
    shade: spec_fn(EvenTransform) -> IntervalModel,
) -> bool {
    forall|t: EvenD8Translation, interval: ColourInterval|
        call_ensures(colouring, (t,), interval) ==> interval@ == shade(t@)
}

/// The colouring gives intervals that can be split `depth` times in a row.
pub open spec fn colours_splittable<F: Fn(EvenD8Translation) -> ColourInterval>(
    colouring: &F,
    depth: nat,
) -> bool {
    forall|t: EvenD8Translation, interval: ColourInterval|
        call_ensures(colouring, (t,), interval) ==> interval@.splittable(depth)
}

/// All that the drawing of a viewport depends on.
pub struct CanvasModel {
    pub layout: spec_fn(int, int) -> TilePlan,
    pub shade: spec_fn(EvenTransform) -> IntervalModel,
    pub requirements: Seq<EvenTransform>,
    pub splitter: Seq<SplitterEntry>,
    pub splitting_type: (bool, bool),
    pub bounds: SpecBounds,
    pub origin: (int, int),
    pub sidelength: int,
}

impl CanvasModel {
    /// The intervals of the triangle at `location`: for each requirement,
    /// the shade of the placement `location * requirement`.
    pub open spec fn triangle(self, location: EvenTransform) -> Seq<IntervalModel> {
        Seq::new(
            self.requirements.len(),
            |k: int| (self.shade)(location.mul(self.requirements[k])),
        )
    }

    /// The cut of the coarsest square with the tile coordinates `(tile_x, tile_y)`.
    pub open spec fn cut(self, tile_x: int, tile_y: int) -> CutModel {
        let plan = (self.layout)(tile_x, tile_y);
        CutModel {
            slash: plan.slash,
            first: (self.triangle(plan.first.0), plan.first.1),
            second: (self.triangle(plan.second.0), plan.second.1),
        }
    }

    /// The coarsest square with the tile coordinates `(tile_x, tile_y)`.
    pub open spec fn tile(self, tile_x: int, tile_y: int) -> SquareModel {
        SquareModel {
            x: tile_x * self.sidelength + self.origin.0,
            y: tile_y * self.sidelength + self.origin.1,
            sidelength: self.sidelength,
            triangles: self.cut(tile_x, tile_y),
        }
    }

    /// What drawing the part of one coarsest square that lies in the viewport lists.
    pub open spec fn tile_events(self, tile_x: int, tile_y: int) -> Seq<EventModel> {
        self.tile(tile_x, tile_y).crop(self.bounds).events(self.splitter, self.splitting_type)
    }

    /// What the squares of the row `tile_y` list, from the column `from_x`
    /// up to, but without, the column `to_x`.
    pub open spec fn row_events(self, tile_y: int, from_x: int, to_x: int) -> Seq<EventModel>
        decreases to_x - from_x,
    {
        if from_x >= to_x {
            Seq::empty()
        } else {
            self.row_events(tile_y, from_x, to_x - 1) + self.tile_events(to_x - 1, tile_y)
        }
    }

    /// What the rows from `from_y` up to, but without, `to_y` list, each
    /// from the column `from_x` up to, but without, `to_x`.
    pub open spec fn rows_events(self, from_y: int, to_y: int, from_x: int, to_x: int) -> Seq<
        EventModel,
    >
        decreases to_y - from_y,
    {
        if from_y >= to_y {
            Seq::empty()
        } else {
            self.rows_events(from_y, to_y - 1, from_x, to_x) + self.row_events(
                to_y - 1,
                from_x,
                to_x,
            )
        }
    }

    /// The tile coordinates of the square that holds the viewport's top left corner.
    pub open spec fn first_tile(self) -> (int, int) {
        (
            (self.bounds.0 - self.origin.0) / self.sidelength,
            (self.bounds.1 - self.origin.1) / self.sidelength,
        )
    }

    /// The tile coordinates of the square that holds the viewport's bottom right corner.
    pub open spec fn last_tile(self) -> (int, int) {
        (
            (self.bounds.2 - self.origin.0) / self.sidelength,
            (self.bounds.3 - self.origin.1) / self.sidelength,
        )
    }

    /// What drawing the viewport lists: every coarsest square that meets
    /// it, row by row from the top and from left to right in a row.
    pub open spec fn events(self) -> Seq<EventModel> {
        self.rows_events(
            self.first_tile().1,
            self.last_tile().1 + 1,
            self.first_tile().0,
            self.last_tile().0 + 1,
        )
    }
}

/// The viewport and the origin are within `MAX_CANVAS` and the scale is
/// at most `MAX_SCALE`.
pub open spec fn canvas_fits(bounds: SpecBounds, origin: (int, int), scale: nat) -> bool {
    &&& 0 <= bounds.0 <= bounds.2 <= MAX_CANVAS
    &&& 0 <= bounds.1 <= bounds.3 <= MAX_CANVAS
    &&& -MAX_CANVAS <= origin.0 <= MAX_CANVAS
    &&& -MAX_CANVAS <= origin.1 <= MAX_CANVAS
    &&& scale <= MAX_SCALE
}

/// A square with the side `2^scale` is split `scale` times.
pub proof fn lemma_levels_of_power(scale: nat)
    ensures
        levels(pow2(scale) as int) == scale,
        1 <= pow2(scale),
    decreases scale,
{
    if scale > 0 {
        lemma_pow2_unfold(scale);
        lemma_levels_of_power((scale - 1) as nat);
        assert(pow2(scale) == 2 * pow2((scale - 1) as nat));
        assert(pow2(scale) as int / 2 == pow2((scale - 1) as nat));
    } else {
        lemma2_to64();
    }
}

/// The side of the coarsest squares: `2^scale`.
fn side_of_scale(scale: u32) -> (r: isize)
    requires
        scale <= MAX_SCALE,
    ensures
        r == pow2(scale as nat),
        1 <= r <= 0x10_0000,
        levels(r as int) == scale,
{
    let mut side: isize = 1;
    let mut done: u32 = 0;
    proof {
        lemma2_to64();
    }
    while done < scale
        invariant
            done <= scale <= MAX_SCALE,
            side == pow2(done as nat),
            pow2(20) == 0x10_0000,
        decreases scale - done,
    {
        proof {
            lemma_pow2_unfold((done + 1) as nat);
            if done + 1 < 20 {
                lemma_pow2_strictly_increases((done + 1) as nat, 20);
            }
        }
        side = side * 2;
        done += 1;
    }
    proof {
        lemma_levels_of_power(scale as nat);
        if scale < 20 {
            lemma_pow2_strictly_increases(scale as nat, 20);
        }
    }
    side
}

/// `value / side` rounded down, with what it implies for the products
/// that the drawing forms.
fn tile_coordinate(value: isize, side: isize) -> (r: isize)
    requires
        -2 * MAX_CANVAS <= value <= 2 * MAX_CANVAS,
        1 <= side <= 0x10_0000,
    ensures
        r == value as int / side as int,
        -MAX_TILE <= r <= MAX_TILE,
        value - side < r * side <= value,
{
    let tile = match value.checked_div_euclid(side) {
        Some(tile) => tile,
        None => 0,
    };
    proof {
        let v = value as int;
        let d = side as int;
        assert(v == d * (v / d) + v % d && 0 <= v % d < d) by (nonlinear_arith)
            requires
                d > 0,
        ;
        assert(d * (v / d) == (v / d) * d) by (nonlinear_arith);
        assert(-2 * MAX_CANVAS <= v / d <= 2 * MAX_CANVAS) by (nonlinear_arith)
            requires
                -2 * MAX_CANVAS <= v <= 2 * MAX_CANVAS,
                d >= 1,
                v - d < (v / d) * d <= v,
        ;
    }
    tile
}

/// The cut that the layout seeds has the value that the canvas gives the tile.
proof fn lemma_seeded_cut<F: Fn(EvenD8Translation) -> ColourInterval>(
    cut: SquareCut,
    plan: TilePlan,
    colouring: &F,
    requirements: Seq<EvenD8Translation>,
    canvas: CanvasModel,
    tile_x: int,
    tile_y: int,
)
    requires
        cut_seeded(cut, plan, colouring, requirements),
        describes(colouring, canvas.shade),
        canvas.requirements == transform_views(requirements),
        all_within_reach(canvas.requirements),
        plan == (canvas.layout)(tile_x, tile_y),
        plan.fits(),
        -MAX_TILE <= tile_x <= MAX_TILE,
        -MAX_TILE <= tile_y <= MAX_TILE,
    ensures
        cut@ == canvas.cut(tile_x, tile_y),
{
    let (first, second) = match cut {
        SquareCut::Slash(first, second) => (first, second),
        SquareCut::Backslash(first, second) => (first, second),
    };
    lemma_seeded_triangle(first.0, plan.first.0, colouring, requirements, canvas);
    lemma_seeded_triangle(second.0, plan.second.0, colouring, requirements, canvas);
}

/// The triangle that a layout seeds has the value that the canvas gives it.
proof fn lemma_seeded_triangle<F: Fn(EvenD8Translation) -> ColourInterval>(
    triangle: Triangle,
    location: EvenTransform,
    colouring: &F,
    requirements: Seq<EvenD8Translation>,
    canvas: CanvasModel,
)
    requires
        triangle_seeded(triangle, location, colouring, requirements),
        describes(colouring, canvas.shade),
        canvas.requirements == transform_views(requirements),
        all_within_reach(canvas.requirements),
        location.wf(),
        location.within(4 * MAX_TILE + 4),
    ensures
        triangle@ == canvas.triangle(location),
{
    triangle.lemma_view_of_intervals();
    assert forall|k: int| 0 <= k < requirements.len() implies #[trigger] triangle@[k]
        == canvas.triangle(location)[k] by {
        let product = location.mul(requirements[k]@);
        assert(canvas.requirements[k] == requirements[k]@);
        assert(canvas.requirements[k].wf() && canvas.requirements[k].within(MAX_REACH as int));
        crate::dihedral::lemma_even_mul_is_composition(
            location.dihedral,
            requirements[k]@.dihedral,
            (0, 0),
        );
        EvenD8Translation::lemma_from_view(product);
        assert(call_ensures(
            colouring,
            (EvenD8Translation::from_view(product),),
            triangle.intervals()[k],
        ));
    }
    assert(triangle@ =~= canvas.triangle(location));
}

/// The model of the drawing of the viewport `bounds` with the coarsest
/// squares of the side `2^scale`, placed so that the tile with the
/// coordinates zero has its top left corner at `origin`.
pub open spec fn canvas_model<F: Fn(EvenD8Translation) -> ColourInterval>(
    fractal: Grammar,
    shade: spec_fn(EvenTransform) -> IntervalModel,
    requirements: Seq<EvenD8Translation>,
    splitter: Seq<SplitterEntry>,
    bounds: Bounds,
    origin: (isize, isize),
    scale: u32,
    colouring: &F,
) -> CanvasModel {
    CanvasModel {
        layout: fractal.layout,
        shade,
        requirements: transform_views(requirements),
        splitter,
        splitting_type: fractal.splitting_type,
        bounds: bounds_of(bounds),
        origin: (origin.0 as int, origin.1 as int),
        sidelength: pow2(scale as nat) as int,
    }
}

/// The triangles of a cut that a layout seeds have as many intervals as
/// there are requirements, and their intervals can be split as often as
/// those of the colouring.
proof fn lemma_seeded_cut_splittable<F: Fn(EvenD8Translation) -> ColourInterval>(
    cut: SquareCut,
    plan: TilePlan,
    colouring: &F,
    requirements: Seq<EvenD8Translation>,
    depth: nat,
)
    requires
        cut_seeded(cut, plan, colouring, requirements),
        colours_splittable(colouring, depth),
    ensures
        cut@.has_intervals(requirements.len()),
        cut@.splittable(depth),
{
    let (first, second) = match cut {
        SquareCut::Slash(first, second) => (first, second),
        SquareCut::Backslash(first, second) => (first, second),
    };
    first.0.lemma_view_of_intervals();
    second.0.lemma_view_of_intervals();
    assert forall|i: int| 0 <= i < first.0@.len() implies (#[trigger] first.0@[i]).splittable(
        depth,
    ) by {
        assert(first.0@[i] == first.0.intervals()[i]@);
    }
    assert forall|i: int| 0 <= i < second.0@.len() implies (#[trigger] second.0@[i]).splittable(
        depth,
    ) by {
        assert(second.0@[i] == second.0.intervals()[i]@);
    }
}

/// Lists what is to be done to draw the part of one coarsest square that
/// lies in the viewport.
fn draw_tile<F, A, L>(
    tile_x: isize,
    tile_y: isize,
    sidelength: isize,
    requirement_list: &[EvenD8Translation],
    bounds: Bounds,
    origin: (isize, isize),
    scale: u32,
    fractal: &FractalSpecification<A, L>,
    triangle_colouring: &F,
    splitter_list: &[SplitterEntry],
    events: &mut Vec<DrawEvent>,
) where
    F: Fn(EvenD8Translation) -> ColourInterval,
    A: Fn(EvenD8Translation) -> bool,
    L: Fn(isize, isize) -> TileSeed,

    requires
        canvas_fits(bounds_of(bounds), (origin.0 as int, origin.1 as int), scale as nat),
        sidelength == pow2(scale as nat),
        1 <= sidelength <= 0x10_0000,
        levels(sidelength as int) == scale,
        -MAX_TILE <= tile_x <= MAX_TILE,
        -MAX_TILE <= tile_y <= MAX_TILE,
        -3 * MAX_CANVAS <= tile_x * sidelength <= 2 * MAX_CANVAS,
        -3 * MAX_CANVAS <= tile_y * sidelength <= 2 * MAX_CANVAS,
        all_within_reach(transform_views(requirement_list@)),
        requirement_list.len() == splitter_list.len(),
        splitter_fits(splitter_list@, splitter_list@.len()),
        forall|t: EvenD8Translation| call_requires(triangle_colouring, (t,)),
        colours_splittable(triangle_colouring, 2 * scale as nat),
    ensures
        forall|shade: spec_fn(EvenTransform) -> IntervalModel|
            describes(triangle_colouring, shade) ==> event_views(final(events)@) == event_views(
                old(events)@,
            ) + (#[trigger] canvas_model(
                fractal@,
                shade,
                requirement_list@,
                splitter_list@,
                bounds,
                origin,
                scale,
                triangle_colouring,
            )).tile_events(tile_x as int, tile_y as int),
{
    let ghost before = event_views(events@);
    let splitting_type = fractal.get_splitting_type();
    let square_config = fractal.get_square_config(
        tile_x,
        tile_y,
        requirement_list,
        triangle_colouring,
    );
    let ghost plan = fractal@.plan(tile_x as int, tile_y as int);
    proof {
        lemma_seeded_cut_splittable(
            square_config,
            plan,
            triangle_colouring,
            requirement_list@,
            2 * scale as nat,
        );
    }
    let ghost cut = square_config;
    let uncropped_tile = UncroppedSquare::new(
        tile_x * sidelength + origin.0,
        tile_y * sidelength + origin.1,
        sidelength,
        square_config,
    );
    let ghost square = uncropped_tile@;
    let cropped_tile = uncropped_tile.crop(bounds);
    cropped_tile.draw(splitter_list, splitting_type, events);
    proof {
        assert forall|shade: spec_fn(EvenTransform) -> IntervalModel|
            describes(triangle_colouring, shade) implies event_views(events@) == before + (
            #[trigger] canvas_model(
                fractal@,
                shade,
                requirement_list@,
                splitter_list@,
                bounds,
                origin,
                scale,
                triangle_colouring,
            )).tile_events(tile_x as int, tile_y as int) by {
            let canvas = canvas_model(
                fractal@,
                shade,
                requirement_list@,
                splitter_list@,
                bounds,
                origin,
                scale,
                triangle_colouring,
            );
            lemma_seeded_cut(
                cut,
                plan,
                triangle_colouring,
                requirement_list@,
                canvas,
                tile_x as int,
                tile_y as int,
            );
            assert(square == canvas.tile(tile_x as int, tile_y as int));
        }
    }
}

/// Lists what is to be done to draw the viewport `bounds`: every coarsest
/// square that meets it, row by row from the top and from left to right
/// in a row, each cropped against the viewport and split down to pixels.
///
/// The coarsest squares have the side `2^scale`, and the one with the tile
/// coordinates zero has its top left corner at `origin`.
///
/// Limits: the viewport and the origin must be within `MAX_CANVAS`, the
/// scale at most `MAX_SCALE`, and the requirements within `MAX_REACH`. The
/// splitter list must have an entry for each requirement and name
/// positions of the list only, and the colouring must give intervals
/// that can be split `2 * scale` times.
pub fn draw_into_canvas<F, A, L>(
    requirement_list: &[EvenD8Translation],
    bounds: Bounds,
    origin: (isize, isize),
    scale: u32,
    fractal: &FractalSpecification<A, L>,
    triangle_colouring: &F,
    splitter_list: &[SplitterEntry],
) -> (events: Vec<DrawEvent>) where
    F: Fn(EvenD8Translation) -> ColourInterval,
    A: Fn(EvenD8Translation) -> bool,
    L: Fn(isize, isize) -> TileSeed,

    requires
        canvas_fits(bounds_of(bounds), (origin.0 as int, origin.1 as int), scale as nat),
        all_within_reach(transform_views(requirement_list@)),
        requirement_list.len() == splitter_list.len(),
        splitter_fits(splitter_list@, splitter_list@.len()),
        forall|t: EvenD8Translation| call_requires(triangle_colouring, (t,)),
        colours_splittable(triangle_colouring, 2 * scale as nat),
    ensures
        forall|shade: spec_fn(EvenTransform) -> IntervalModel|
            describes(triangle_colouring, shade) ==> event_views(events@) == (#[trigger] canvas_model(
                fractal@,
                shade,
                requirement_list@,
                splitter_list@,
                bounds,
                origin,
                scale,
                triangle_colouring,
            )).events(),
{
    let sidelength = side_of_scale(scale);
    let leftmost_tile_x = tile_coordinate(bounds.0 - origin.0, sidelength);
    let highest_tile_y = tile_coordinate(bounds.1 - origin.1, sidelength);
    let rightmost_tile_x = tile_coordinate(bounds.2 - origin.0, sidelength);
    let lowest_tile_y = tile_coordinate(bounds.3 - origin.1, sidelength);
    let mut events: Vec<DrawEvent> = Vec::new();
    let mut current_tile_y = highest_tile_y;
    proof {
        assert(event_views(events@) =~= Seq::<EventModel>::empty());
    }
    while current_tile_y <= lowest_tile_y
        invariant
            canvas_fits(bounds_of(bounds), (origin.0 as int, origin.1 as int), scale as nat),
            sidelength == pow2(scale as nat),
            1 <= sidelength <= 0x10_0000,
            levels(sidelength as int) == scale,
            leftmost_tile_x == (bounds.0 - origin.0) / sidelength as int,
            highest_tile_y == (bounds.1 - origin.1) / sidelength as int,
            rightmost_tile_x == (bounds.2 - origin.0) / sidelength as int,
            lowest_tile_y == (bounds.3 - origin.1) / sidelength as int,
            -MAX_TILE <= leftmost_tile_x <= MAX_TILE,
            -MAX_TILE <= rightmost_tile_x <= MAX_TILE,
            -MAX_TILE <= highest_tile_y <= MAX_TILE,
            -MAX_TILE <= lowest_tile_y <= MAX_TILE,
            -3 * MAX_CANVAS <= leftmost_tile_x * sidelength,
            rightmost_tile_x * sidelength <= 2 * MAX_CANVAS,
            -3 * MAX_CANVAS <= highest_tile_y * sidelength,
            lowest_tile_y * sidelength <= 2 * MAX_CANVAS,
            highest_tile_y <= current_tile_y,
            current_tile_y <= lowest_tile_y + 1 || current_tile_y == highest_tile_y,
            all_within_reach(transform_views(requirement_list@)),
            requirement_list.len() == splitter_list.len(),
            splitter_fits(splitter_list@, splitter_list@.len()),
            forall|t: EvenD8Translation| call_requires(triangle_colouring, (t,)),
            colours_splittable(triangle_colouring, 2 * scale as nat),
            forall|shade: spec_fn(EvenTransform) -> IntervalModel|
                describes(triangle_colouring, shade) ==> event_views(events@) == (
                #[trigger] canvas_model(
                    fractal@,
                    shade,
                    requirement_list@,
                    splitter_list@,
                    bounds,
                    origin,
                    scale,
                    triangle_colouring,
                )).rows_events(
                    highest_tile_y as int,
                    current_tile_y as int,
                    leftmost_tile_x as int,
                    rightmost_tile_x + 1,
                ),
        decreases lowest_tile_y + 1 - current_tile_y,
    {
        let ghost row_start = event_views(events@);
        let mut current_tile_x = leftmost_tile_x;
        proof {
            assert(row_start + Seq::<EventModel>::empty() =~= row_start);
        }
        while current_tile_x <= rightmost_tile_x
            invariant
                canvas_fits(bounds_of(bounds), (origin.0 as int, origin.1 as int), scale as nat),
                sidelength == pow2(scale as nat),
                1 <= sidelength <= 0x10_0000,
                levels(sidelength as int) == scale,
                -MAX_TILE <= leftmost_tile_x <= MAX_TILE,
                -MAX_TILE <= rightmost_tile_x <= MAX_TILE,
                -MAX_TILE <= highest_tile_y <= current_tile_y <= lowest_tile_y <= MAX_TILE,
                -3 * MAX_CANVAS <= leftmost_tile_x * sidelength,
                rightmost_tile_x * sidelength <= 2 * MAX_CANVAS,
                -3 * MAX_CANVAS <= highest_tile_y * sidelength,
                lowest_tile_y * sidelength <= 2 * MAX_CANVAS,
                leftmost_tile_x <= current_tile_x,
                current_tile_x <= rightmost_tile_x + 1 || current_tile_x == leftmost_tile_x,
                all_within_reach(transform_views(requirement_list@)),
                requirement_list.len() == splitter_list.len(),
                splitter_fits(splitter_list@, splitter_list@.len()),
                forall|t: EvenD8Translation| call_requires(triangle_colouring, (t,)),
                colours_splittable(triangle_colouring, 2 * scale as nat),
                forall|shade: spec_fn(EvenTransform) -> IntervalModel|
                    describes(triangle_colouring, shade) ==> event_views(events@) == row_start + (
                    #[trigger] canvas_model(
                        fractal@,
                        shade,
                        requirement_list@,
                        splitter_list@,
                        bounds,
                        origin,
                        scale,
                        triangle_colouring,
                    )).row_events(
                        current_tile_y as int,
                        leftmost_tile_x as int,
                        current_tile_x as int,
                    ),
            decreases rightmost_tile_x + 1 - current_tile_x,
        {
            let ghost tile_start = event_views(events@);
            proof {
                lemma_product_between(
                    leftmost_tile_x as int,
                    current_tile_x as int,
                    rightmost_tile_x as int,
                    sidelength as int,
                );
                lemma_product_between(
                    highest_tile_y as int,
                    current_tile_y as int,
                    lowest_tile_y as int,
                    sidelength as int,
                );
            }
            draw_tile(
                current_tile_x,
                current_tile_y,
                sidelength,
                requirement_list,
                bounds,
                origin,
                scale,
                fractal,
                triangle_colouring,
                splitter_list,
                &mut events,
            );
            proof {
                assert forall|shade: spec_fn(EvenTransform) -> IntervalModel|
                    describes(triangle_colouring, shade) implies event_views(events@) == row_start
                    + (#[trigger] canvas_model(
                    fractal@,
                    shade,
                    requirement_list@,
                    splitter_list@,
                    bounds,
                    origin,
                    scale,
                    triangle_colouring,
                )).row_events(
                    current_tile_y as int,
                    leftmost_tile_x as int,
                    current_tile_x + 1,
                ) by {
                    let canvas = canvas_model(
                        fractal@,
                        shade,
                        requirement_list@,
                        splitter_list@,
                        bounds,
                        origin,
                        scale,
                        triangle_colouring,
                    );
                    let row = canvas.row_events(
                        current_tile_y as int,
                        leftmost_tile_x as int,
                        current_tile_x as int,
                    );
                    let tile = canvas.tile_events(current_tile_x as int, current_tile_y as int);
                    assert(tile_start == row_start + row);
                    assert((row_start + row) + tile =~= row_start + (row + tile));
                }
            }
            current_tile_x += 1;
        }
        current_tile_y += 1;
    }
    events
}

/// A product with a positive factor lies between the products of the
/// bounds of its other factor.
proof fn lemma_product_between(low: int, value: int, high: int, factor: int)
    by (nonlinear_arith)
    requires
        low <= value <= high,
        0 < factor,
    ensures
        low * factor <= value * factor <= high * factor,
{
}

} // verus!
