//! What holds of every list of events that a drawing gives: pixels are
//! written only where the square and the viewport meet, each of them
//! once and with colours that do not depend on the viewport, and every
//! chunk that is begun is ended, with its pixels in between and none after.

use crate::auxiliary::WorkingMessage;
use crate::square::{
    bounds_contain, clipped_bounds, CanvasModel, CropModel, EventModel, SpecBounds, SquareModel,
    SENDING_SIZE,
};
use crate::interval_colouring::ColourKey;
use crate::triangle::{colours_of, SplitterEntry};
use vstd::arithmetic::power2::{lemma_pow2_pos, lemma_pow2_unfold, pow2};
use vstd::prelude::*;

verus! {

/// The rectangle `inner` lies in the rectangle `outer`.
pub open spec fn rect_inside(inner: SpecBounds, outer: SpecBounds) -> bool {
    outer.0 <= inner.0 && inner.2 <= outer.2 && outer.1 <= inner.1 && inner.3 <= outer.3
}

/// The rectangle holds a pixel.
pub open spec fn rect_nonempty(r: SpecBounds) -> bool {
    r.0 < r.2 && r.1 < r.3
}

/// The two rectangles share no pixel, because one ends where or before
/// the other starts.
pub open spec fn rects_apart(a: SpecBounds, b: SpecBounds) -> bool {
    a.2 <= b.0 || b.2 <= a.0 || a.3 <= b.1 || b.3 <= a.1
}

/// The event is the writing of a pixel.
pub open spec fn is_pixel(e: EventModel) -> bool {
    e is Pixel
}

/// The event is the beginning of a chunk.
pub open spec fn is_begin(e: EventModel) -> bool {
    match e {
        EventModel::Message(bounds, message) => message == WorkingMessage::Begin,
        _ => false,
    }
}

/// The bounds that a message names.
pub open spec fn message_rect(e: EventModel) -> SpecBounds {
    match e {
        EventModel::Message(bounds, message) => bounds,
        _ => (0, 0, 0, 0),
    }
}

/// The event touches nothing outside `region`: its pixel lies in it, or
/// the chunk that it names does, and holds a pixel.
pub open spec fn event_inside(e: EventModel, region: SpecBounds) -> bool {
    match e {
        EventModel::Pixel { x, y, first, second } => bounds_contain(region, x, y),
        EventModel::Message(bounds, message) => rect_inside(bounds, region) && rect_nonempty(
            bounds,
        ),
    }
}

/// The event touches nothing inside `region`.
pub open spec fn event_outside(e: EventModel, region: SpecBounds) -> bool {
    match e {
        EventModel::Pixel { x, y, first, second } => !bounds_contain(region, x, y),
        EventModel::Message(bounds, message) => rects_apart(bounds, region),
    }
}

/// Every event touches nothing outside `region`.
pub open spec fn all_inside(events: Seq<EventModel>, region: SpecBounds) -> bool {
    forall|i: int| 0 <= i < events.len() ==> event_inside(#[trigger] events[i], region)
}

/// Every event writes a pixel of `region`.
pub open spec fn all_pixels_inside(events: Seq<EventModel>, region: SpecBounds) -> bool {
    forall|i: int|
        0 <= i < events.len() ==> is_pixel(#[trigger] events[i]) && event_inside(events[i], region)
}

/// The chunk that begins at position `i` ends at position `j`: the two
/// messages name the same bounds, the events between them write pixels of
/// the chunk, and no other event of the list touches the chunk.
pub open spec fn chunk_at(events: Seq<EventModel>, i: int, j: int) -> bool {
    &&& 0 <= i < j < events.len()
    &&& events[j] == EventModel::Message(message_rect(events[i]), WorkingMessage::End)
    &&& forall|k: int|
        i < k < j ==> is_pixel(#[trigger] events[k]) && event_inside(
            events[k],
            message_rect(events[i]),
        )
    &&& forall|k: int|
        0 <= k < events.len() && (k < i || j < k) ==> event_outside(
            #[trigger] events[k],
            message_rect(events[i]),
        )
}

/// Every chunk that the list begins it ends.
pub open spec fn chunks_paired(events: Seq<EventModel>) -> bool {
    forall|i: int|
        0 <= i < events.len() && is_begin(#[trigger] events[i]) ==> exists|j: int|
            chunk_at(events, i, j)
}

/// A list that stays in its region and pairs its chunks.
pub open spec fn orderly(events: Seq<EventModel>, region: SpecBounds) -> bool {
    all_inside(events, region) && chunks_paired(events)
}

/// A list of pixels of a region is orderly in every region around it.
pub proof fn lemma_pixels_orderly(events: Seq<EventModel>, inner: SpecBounds, region: SpecBounds)
    requires
        all_pixels_inside(events, inner),
        rect_inside(inner, region),
    ensures
        orderly(events, region),
        all_pixels_inside(events, region),
{
    assert forall|i: int| 0 <= i < events.len() implies event_inside(
        #[trigger] events[i],
        region,
    ) && is_pixel(events[i]) by {
        assert(is_pixel(events[i]) && event_inside(events[i], inner));
    }
}

/// Two lists of pixels of a region, one after the other, are a list of
/// pixels of the region.
pub proof fn lemma_pixels_joined(a: Seq<EventModel>, b: Seq<EventModel>, region: SpecBounds)
    requires
        all_pixels_inside(a, region),
        all_pixels_inside(b, region),
    ensures
        all_pixels_inside(a + b, region),
{
    assert forall|i: int| 0 <= i < (a + b).len() implies is_pixel(#[trigger] (a + b)[i])
        && event_inside((a + b)[i], region) by {
        if i < a.len() {
            assert((a + b)[i] == a[i]);
        } else {
            assert((a + b)[i] == b[i - a.len()]);
        }
    }
}

/// Two orderly lists whose regions lie apart, one after the other, are an
/// orderly list of every region around both.
pub proof fn lemma_orderly_joined(
    a: Seq<EventModel>,
    region_a: SpecBounds,
    b: Seq<EventModel>,
    region_b: SpecBounds,
    region: SpecBounds,
)
    requires
        orderly(a, region_a),
        orderly(b, region_b),
        rects_apart(region_a, region_b),
        rect_inside(region_a, region),
        rect_inside(region_b, region),
    ensures
        orderly(a + b, region),
{
    let joined = a + b;
    assert forall|i: int| 0 <= i < joined.len() implies event_inside(
        #[trigger] joined[i],
        region,
    ) by {
        if i < a.len() {
            assert(joined[i] == a[i]);
            assert(event_inside(a[i], region_a));
        } else {
            assert(joined[i] == b[i - a.len()]);
            assert(event_inside(b[i - a.len()], region_b));
        }
    }
    assert forall|i: int| 0 <= i < joined.len() && is_begin(#[trigger] joined[i]) implies exists|
        j: int,
    |
        chunk_at(joined, i, j) by {
        if i < a.len() {
            assert(joined[i] == a[i]);
            assert(event_inside(a[i], region_a));
            let j = choose|j: int| chunk_at(a, i, j);
            assert(joined[j] == a[j]);
            assert forall|k: int| i < k < j implies is_pixel(#[trigger] joined[k]) && event_inside(
                joined[k],
                message_rect(joined[i]),
            ) by {
                assert(joined[k] == a[k]);
            }
            assert forall|k: int| 0 <= k < joined.len() && (k < i || j < k) implies event_outside(
                #[trigger] joined[k],
                message_rect(joined[i]),
            ) by {
                if k < a.len() {
                    assert(joined[k] == a[k]);
                } else {
                    assert(joined[k] == b[k - a.len()]);
                    assert(event_inside(b[k - a.len()], region_b));
                }
            }
            assert(chunk_at(joined, i, j));
        } else {
            let shift = a.len() as int;
            let start = i - shift;
            assert(joined[i] == b[start]);
            assert(event_inside(b[start], region_b));
            let j = choose|j: int| chunk_at(b, start, j);
            assert(joined[j + shift] == b[j]);
            assert forall|k: int| i < k < j + shift implies is_pixel(#[trigger] joined[k])
                && event_inside(joined[k], message_rect(joined[i])) by {
                assert(joined[k] == b[k - shift]);
            }
            assert forall|k: int|
                0 <= k < joined.len() && (k < i || j + shift < k) implies event_outside(
                #[trigger] joined[k],
                message_rect(joined[i]),
            ) by {
                if k < a.len() {
                    assert(joined[k] == a[k]);
                    assert(event_inside(a[k], region_a));
                } else {
                    assert(joined[k] == b[k - shift]);
                }
            }
            assert(chunk_at(joined, i, j + shift));
        }
    }
}

/// A list of pixels of a chunk, announced at both ends, is an orderly list
/// of every region around the chunk.
pub proof fn lemma_chunk_orderly(inner: Seq<EventModel>, chunk: SpecBounds, region: SpecBounds)
    requires
        all_pixels_inside(inner, chunk),
        rect_nonempty(chunk),
        rect_inside(chunk, region),
    ensures
        orderly(
            seq![EventModel::Message(chunk, WorkingMessage::Begin)] + inner + seq![
                EventModel::Message(chunk, WorkingMessage::End),
            ],
            region,
        ),
{
    let whole = seq![EventModel::Message(chunk, WorkingMessage::Begin)] + inner + seq![
        EventModel::Message(chunk, WorkingMessage::End),
    ];
    let last: int = inner.len() as int + 1;
    assert(whole[0] == EventModel::Message(chunk, WorkingMessage::Begin));
    assert(whole[last] == EventModel::Message(chunk, WorkingMessage::End));
    assert forall|k: int| 0 < k < last implies is_pixel(#[trigger] whole[k]) && event_inside(
        whole[k],
        chunk,
    ) by {
        assert(whole[k] == inner[k - 1]);
    }
    assert forall|i: int| 0 <= i < whole.len() implies event_inside(#[trigger] whole[i], region) by {
        if 0 < i < last {
            assert(is_pixel(whole[i]) && event_inside(whole[i], chunk));
        }
    }
    assert forall|i: int| 0 <= i < whole.len() && is_begin(#[trigger] whole[i]) implies exists|
        j: int,
    |
        chunk_at(whole, i, j) by {
        if 0 < i < last {
            assert(is_pixel(whole[i]));
        }
        assert(i == 0);
        assert(chunk_at(whole, 0, last));
    }
}

/// The pixels that two rectangles share.
pub open spec fn rect_meet(a: SpecBounds, b: SpecBounds) -> SpecBounds {
    (
        if b.0 >= a.0 {
            b.0
        } else {
            a.0
        },
        if b.1 >= a.1 {
            b.1
        } else {
            a.1
        },
        if b.2 <= a.2 {
            b.2
        } else {
            a.2
        },
        if b.3 <= a.3 {
            b.3
        } else {
            a.3
        },
    )
}

/// An orderly list of a region is an orderly list of every region around it.
pub proof fn lemma_orderly_widened(events: Seq<EventModel>, inner: SpecBounds, region: SpecBounds)
    requires
        orderly(events, inner),
        rect_inside(inner, region),
    ensures
        orderly(events, region),
{
    assert forall|i: int| 0 <= i < events.len() implies event_inside(
        #[trigger] events[i],
        region,
    ) by {
        assert(event_inside(events[i], inner));
    }
}

/// Four lists of pixels, each of its own part of a region, are in a row a
/// list of pixels of the region.
proof fn lemma_four_pixel_lists(
    a: Seq<EventModel>,
    b: Seq<EventModel>,
    c: Seq<EventModel>,
    d: Seq<EventModel>,
    parts: (SpecBounds, SpecBounds, SpecBounds, SpecBounds),
    region: SpecBounds,
)
    requires
        all_pixels_inside(a, parts.0),
        all_pixels_inside(b, parts.1),
        all_pixels_inside(c, parts.2),
        all_pixels_inside(d, parts.3),
        rect_inside(parts.0, region),
        rect_inside(parts.1, region),
        rect_inside(parts.2, region),
        rect_inside(parts.3, region),
    ensures
        all_pixels_inside(a + b + c + d, region),
{
    lemma_pixels_orderly(a, parts.0, region);
    lemma_pixels_orderly(b, parts.1, region);
    lemma_pixels_orderly(c, parts.2, region);
    lemma_pixels_orderly(d, parts.3, region);
    lemma_pixels_joined(a, b, region);
    lemma_pixels_joined(a + b, c, region);
    lemma_pixels_joined(a + b + c, d, region);
}

/// Four orderly lists, of the four quarters of a region that lie apart as
/// top left, top right, bottom left and bottom right, are in a row an
/// orderly list of the region.
proof fn lemma_four_orderly_lists(
    a: Seq<EventModel>,
    b: Seq<EventModel>,
    c: Seq<EventModel>,
    d: Seq<EventModel>,
    parts: (SpecBounds, SpecBounds, SpecBounds, SpecBounds),
    top: SpecBounds,
    bottom: SpecBounds,
    region: SpecBounds,
)
    requires
        orderly(a, parts.0),
        orderly(b, parts.1),
        orderly(c, parts.2),
        orderly(d, parts.3),
        rects_apart(parts.0, parts.1),
        rects_apart(parts.2, parts.3),
        rect_inside(parts.0, top),
        rect_inside(parts.1, top),
        rect_inside(parts.2, bottom),
        rect_inside(parts.3, bottom),
        rects_apart(top, bottom),
        rect_inside(top, region),
        rect_inside(bottom, region),
    ensures
        orderly(a + b + c + d, region),
{
    lemma_orderly_joined(a, parts.0, b, parts.1, top);
    lemma_orderly_joined(c, parts.2, d, parts.3, bottom);
    lemma_orderly_joined(a + b, top, c + d, bottom, region);
    assert((a + b) + (c + d) =~= a + b + c + d);
}

/// A square that is smaller than a chunk lists nothing but pixels of its own.
pub proof fn lemma_small_square_pixels(
    square: SquareModel,
    splitter: Seq<SplitterEntry>,
    splitting_type: (bool, bool),
)
    requires
        1 <= square.sidelength < SENDING_SIZE,
    ensures
        all_pixels_inside(square.events(splitter, splitting_type), square.bounds()),
    decreases square.sidelength,
{
    if square.sidelength > 1 {
        let quarters = square.quarters(splitter, splitting_type);
        lemma_small_square_pixels(quarters.0, splitter, splitting_type);
        lemma_small_square_pixels(quarters.1, splitter, splitting_type);
        lemma_small_square_pixels(quarters.2, splitter, splitting_type);
        lemma_small_square_pixels(quarters.3, splitter, splitting_type);
        lemma_four_pixel_lists(
            quarters.0.events(splitter, splitting_type),
            quarters.1.events(splitter, splitting_type),
            quarters.2.events(splitter, splitting_type),
            quarters.3.events(splitter, splitting_type),
            (quarters.0.bounds(), quarters.1.bounds(), quarters.2.bounds(), quarters.3.bounds()),
            square.bounds(),
        );
    }
}

/// What the viewport leaves of a square that is smaller than a chunk lists
/// nothing but pixels that lie in the square and in the viewport.
pub proof fn lemma_small_crop_pixels(
    square: SquareModel,
    bounds: SpecBounds,
    splitter: Seq<SplitterEntry>,
    splitting_type: (bool, bool),
)
    requires
        1 <= square.sidelength < SENDING_SIZE,
    ensures
        all_pixels_inside(
            square.crop(bounds).events(splitter, splitting_type),
            clipped_bounds(square, bounds),
        ),
    decreases square.sidelength,
{
    match square.crop(bounds) {
        CropModel::Unaffected(_) => {
            lemma_small_square_pixels(square, splitter, splitting_type);
            lemma_pixels_orderly(
                square.events(splitter, splitting_type),
                square.bounds(),
                clipped_bounds(square, bounds),
            );
        },
        CropModel::Empty => {},
        CropModel::Cropped(_, _) => {
            if square.sidelength > 1 {
                let quarters = square.quarters(splitter, splitting_type);
                lemma_small_crop_pixels(quarters.0, bounds, splitter, splitting_type);
                lemma_small_crop_pixels(quarters.1, bounds, splitter, splitting_type);
                lemma_small_crop_pixels(quarters.2, bounds, splitter, splitting_type);
                lemma_small_crop_pixels(quarters.3, bounds, splitter, splitting_type);
                lemma_four_pixel_lists(
                    quarters.0.crop(bounds).events(splitter, splitting_type),
                    quarters.1.crop(bounds).events(splitter, splitting_type),
                    quarters.2.crop(bounds).events(splitter, splitting_type),
                    quarters.3.crop(bounds).events(splitter, splitting_type),
                    (
                        clipped_bounds(quarters.0, bounds),
                        clipped_bounds(quarters.1, bounds),
                        clipped_bounds(quarters.2, bounds),
                        clipped_bounds(quarters.3, bounds),
                    ),
                    clipped_bounds(square, bounds),
                );
            }
        },
    }
}

/// The list of a square stays in the square, and every chunk that it
/// begins it ends: with the chunk's pixels in between, and with nothing
/// that touches the chunk before or after.
pub proof fn lemma_square_orderly(
    square: SquareModel,
    splitter: Seq<SplitterEntry>,
    splitting_type: (bool, bool),
)
    requires
        1 <= square.sidelength,
    ensures
        orderly(square.events(splitter, splitting_type), square.bounds()),
    decreases square.sidelength,
{
    let quarters = square.quarters(splitter, splitting_type);
    let parts = (
        quarters.0.bounds(),
        quarters.1.bounds(),
        quarters.2.bounds(),
        quarters.3.bounds(),
    );
    let a = quarters.0.events(splitter, splitting_type);
    let b = quarters.1.events(splitter, splitting_type);
    let c = quarters.2.events(splitter, splitting_type);
    let d = quarters.3.events(splitter, splitting_type);
    if square.sidelength < SENDING_SIZE {
        lemma_small_square_pixels(square, splitter, splitting_type);
        lemma_pixels_orderly(
            square.events(splitter, splitting_type),
            square.bounds(),
            square.bounds(),
        );
    } else if square.sidelength == SENDING_SIZE {
        lemma_small_square_pixels(quarters.0, splitter, splitting_type);
        lemma_small_square_pixels(quarters.1, splitter, splitting_type);
        lemma_small_square_pixels(quarters.2, splitter, splitting_type);
        lemma_small_square_pixels(quarters.3, splitter, splitting_type);
        lemma_four_pixel_lists(a, b, c, d, parts, square.bounds());
        lemma_chunk_orderly(a + b + c + d, square.bounds(), square.bounds());
    } else {
        let half = square.sidelength / 2;
        lemma_square_orderly(quarters.0, splitter, splitting_type);
        lemma_square_orderly(quarters.1, splitter, splitting_type);
        lemma_square_orderly(quarters.2, splitter, splitting_type);
        lemma_square_orderly(quarters.3, splitter, splitting_type);
        let top = (square.x, square.y, square.x + 2 * half, square.y + half);
        let bottom = (square.x, square.y + half, square.x + 2 * half, square.y + 2 * half);
        lemma_four_orderly_lists(a, b, c, d, parts, top, bottom, square.bounds());
    }
}

/// The list of what the viewport leaves of a square stays where the square
/// and the viewport meet, and every chunk that it begins it ends.
pub proof fn lemma_crop_orderly(
    square: SquareModel,
    bounds: SpecBounds,
    splitter: Seq<SplitterEntry>,
    splitting_type: (bool, bool),
)
    requires
        1 <= square.sidelength,
        rect_nonempty(bounds),
    ensures
        orderly(
            square.crop(bounds).events(splitter, splitting_type),
            clipped_bounds(square, bounds),
        ),
    decreases square.sidelength,
{
    let region = clipped_bounds(square, bounds);
    match square.crop(bounds) {
        CropModel::Unaffected(_) => {
            lemma_square_orderly(square, splitter, splitting_type);
            lemma_orderly_widened(square.events(splitter, splitting_type), square.bounds(), region);
        },
        CropModel::Empty => {},
        CropModel::Cropped(_, _) => {
            let quarters = square.quarters(splitter, splitting_type);
            let parts = (
                clipped_bounds(quarters.0, bounds),
                clipped_bounds(quarters.1, bounds),
                clipped_bounds(quarters.2, bounds),
                clipped_bounds(quarters.3, bounds),
            );
            let a = quarters.0.crop(bounds).events(splitter, splitting_type);
            let b = quarters.1.crop(bounds).events(splitter, splitting_type);
            let c = quarters.2.crop(bounds).events(splitter, splitting_type);
            let d = quarters.3.crop(bounds).events(splitter, splitting_type);
            if square.sidelength < SENDING_SIZE {
                lemma_small_crop_pixels(square, bounds, splitter, splitting_type);
                lemma_pixels_orderly(
                    square.crop(bounds).events(splitter, splitting_type),
                    region,
                    region,
                );
            } else if square.sidelength == SENDING_SIZE {
                lemma_small_crop_pixels(quarters.0, bounds, splitter, splitting_type);
                lemma_small_crop_pixels(quarters.1, bounds, splitter, splitting_type);
                lemma_small_crop_pixels(quarters.2, bounds, splitter, splitting_type);
                lemma_small_crop_pixels(quarters.3, bounds, splitter, splitting_type);
                lemma_four_pixel_lists(a, b, c, d, parts, region);
                lemma_chunk_orderly(a + b + c + d, region, region);
            } else {
                let half = square.sidelength / 2;
                lemma_crop_orderly(quarters.0, bounds, splitter, splitting_type);
                lemma_crop_orderly(quarters.1, bounds, splitter, splitting_type);
                lemma_crop_orderly(quarters.2, bounds, splitter, splitting_type);
                lemma_crop_orderly(quarters.3, bounds, splitter, splitting_type);
                let top = rect_meet(
                    (square.x, square.y, square.x + 2 * half, square.y + half),
                    bounds,
                );
                let bottom = rect_meet(
                    (square.x, square.y + half, square.x + 2 * half, square.y + 2 * half),
                    bounds,
                );
                lemma_four_orderly_lists(a, b, c, d, parts, top, bottom, region);
            }
        },
    }
}

/// A square that the viewport does not meet lists nothing.
pub proof fn lemma_outside_viewport_draws_nothing(
    square: SquareModel,
    bounds: SpecBounds,
    splitter: Seq<SplitterEntry>,
    splitting_type: (bool, bool),
)
    requires
        1 <= square.sidelength,
        rects_apart(square.bounds(), bounds),
    ensures
        square.crop(bounds) == CropModel::Empty,
        square.crop(bounds).events(splitter, splitting_type) == Seq::<EventModel>::empty(),
{
}

/// Every pixel that the drawing of a square against a viewport writes lies
/// in the square and in the viewport.
pub proof fn lemma_pixels_inside_viewport(
    square: SquareModel,
    bounds: SpecBounds,
    splitter: Seq<SplitterEntry>,
    splitting_type: (bool, bool),
    i: int,
)
    requires
        1 <= square.sidelength,
        rect_nonempty(bounds),
        0 <= i < square.crop(bounds).events(splitter, splitting_type).len(),
    ensures
        square.crop(bounds).events(splitter, splitting_type)[i] matches EventModel::Pixel {
            x,
            y,
            first,
            second,
        } ==> bounds_contain(square.bounds(), x, y) && bounds_contain(bounds, x, y),
{
    lemma_crop_orderly(square, bounds, splitter, splitting_type);
    let events = square.crop(bounds).events(splitter, splitting_type);
    assert(event_inside(events[i], clipped_bounds(square, bounds)));
}

/// The rectangle that the coarsest squares of the columns from `from_x` up
/// to, but without, `to_x` and of the rows from `from_y` up to, but
/// without, `to_y` cover.
pub open spec fn tiles_rect(canvas: CanvasModel, from_x: int, from_y: int, to_x: int, to_y: int)
    -> SpecBounds {
    (
        from_x * canvas.sidelength + canvas.origin.0,
        from_y * canvas.sidelength + canvas.origin.1,
        to_x * canvas.sidelength + canvas.origin.0,
        to_y * canvas.sidelength + canvas.origin.1,
    )
}

/// The next tile starts where the one before it ends.
proof fn lemma_next_tile(tile: int, side: int)
    by (nonlinear_arith)
    requires
        0 <= side,
    ensures
        (tile + 1) * side == tile * side + side,
        tile * side <= (tile + 1) * side,
{
}

/// Of two tiles the earlier one starts first.
proof fn lemma_tiles_in_order(earlier: int, later: int, side: int)
    by (nonlinear_arith)
    requires
        earlier <= later,
        0 <= side,
    ensures
        earlier * side <= later * side,
{
}

/// The list of a part of a row of coarsest squares stays where the part
/// and the viewport meet, and every chunk that it begins it ends.
pub proof fn lemma_row_orderly(canvas: CanvasModel, tile_y: int, from_x: int, to_x: int)
    requires
        1 <= canvas.sidelength,
        rect_nonempty(canvas.bounds),
        from_x <= to_x,
    ensures
        orderly(
            canvas.row_events(tile_y, from_x, to_x),
            rect_meet(tiles_rect(canvas, from_x, tile_y, to_x, tile_y + 1), canvas.bounds),
        ),
    decreases to_x - from_x,
{
    if from_x < to_x {
        let before = canvas.row_events(tile_y, from_x, to_x - 1);
        let tile = canvas.tile(to_x - 1, tile_y);
        lemma_row_orderly(canvas, tile_y, from_x, to_x - 1);
        lemma_crop_orderly(tile, canvas.bounds, canvas.splitter, canvas.splitting_type);
        lemma_next_tile(to_x - 1, canvas.sidelength);
        lemma_next_tile(tile_y, canvas.sidelength);
        lemma_tiles_in_order(from_x, to_x - 1, canvas.sidelength);
        lemma_orderly_joined(
            before,
            rect_meet(tiles_rect(canvas, from_x, tile_y, to_x - 1, tile_y + 1), canvas.bounds),
            canvas.tile_events(to_x - 1, tile_y),
            clipped_bounds(tile, canvas.bounds),
            rect_meet(tiles_rect(canvas, from_x, tile_y, to_x, tile_y + 1), canvas.bounds),
        );
    }
}

/// The list of some rows of coarsest squares stays where the rows and the
/// viewport meet, and every chunk that it begins it ends.
pub proof fn lemma_rows_orderly(canvas: CanvasModel, from_y: int, to_y: int, from_x: int, to_x: int)
    requires
        1 <= canvas.sidelength,
        rect_nonempty(canvas.bounds),
        from_x <= to_x,
        from_y <= to_y,
    ensures
        orderly(
            canvas.rows_events(from_y, to_y, from_x, to_x),
            rect_meet(tiles_rect(canvas, from_x, from_y, to_x, to_y), canvas.bounds),
        ),
    decreases to_y - from_y,
{
    if from_y < to_y {
        lemma_rows_orderly(canvas, from_y, to_y - 1, from_x, to_x);
        lemma_row_orderly(canvas, to_y - 1, from_x, to_x);
        lemma_next_tile(to_y - 1, canvas.sidelength);
        lemma_tiles_in_order(from_y, to_y - 1, canvas.sidelength);
        lemma_orderly_joined(
            canvas.rows_events(from_y, to_y - 1, from_x, to_x),
            rect_meet(tiles_rect(canvas, from_x, from_y, to_x, to_y - 1), canvas.bounds),
            canvas.row_events(to_y - 1, from_x, to_x),
            rect_meet(tiles_rect(canvas, from_x, to_y - 1, to_x, to_y), canvas.bounds),
            rect_meet(tiles_rect(canvas, from_x, from_y, to_x, to_y), canvas.bounds),
        );
    }
}

/// The drawing of a viewport writes pixels of the viewport only, and every
/// chunk that it begins it ends exactly once: the end names the bounds
/// that the beginning named, the events between the two write pixels of
/// the chunk, and no event before the beginning or after the end touches
/// the chunk.
pub proof fn lemma_canvas_orderly(canvas: CanvasModel)
    requires
        1 <= canvas.sidelength,
        rect_nonempty(canvas.bounds),
    ensures
        orderly(canvas.events(), canvas.bounds),
{
    let first = canvas.first_tile();
    let last = canvas.last_tile();
    let side = canvas.sidelength;
    assert(first.0 <= last.0 && first.1 <= last.1) by (nonlinear_arith)
        requires
            first.0 == (canvas.bounds.0 - canvas.origin.0) / side,
            last.0 == (canvas.bounds.2 - canvas.origin.0) / side,
            first.1 == (canvas.bounds.1 - canvas.origin.1) / side,
            last.1 == (canvas.bounds.3 - canvas.origin.1) / side,
            canvas.bounds.0 < canvas.bounds.2,
            canvas.bounds.1 < canvas.bounds.3,
            1 <= side,
    ;
    lemma_rows_orderly(canvas, first.1, last.1 + 1, first.0, last.0 + 1);
    lemma_orderly_widened(
        canvas.events(),
        rect_meet(tiles_rect(canvas, first.0, first.1, last.0 + 1, last.1 + 1), canvas.bounds),
        canvas.bounds,
    );
}

/// Whether the event writes the pixel at `(x, y)`.
pub open spec fn writes_pixel(e: EventModel, x: int, y: int) -> bool {
    match e {
        EventModel::Pixel { x: at_x, y: at_y, first, second } => at_x == x && at_y == y,
        _ => false,
    }
}

/// How often the list writes the pixel at `(x, y)`.
pub open spec fn writes(events: Seq<EventModel>, x: int, y: int) -> nat
    decreases events.len(),
{
    if events.len() == 0 {
        0
    } else {
        writes(events.drop_last(), x, y) + if writes_pixel(events.last(), x, y) {
            1nat
        } else {
            0nat
        }
    }
}

/// One if the rectangle holds the pixel at `(x, y)`, else zero.
pub open spec fn once_inside(region: SpecBounds, x: int, y: int) -> nat {
    if bounds_contain(region, x, y) {
        1
    } else {
        0
    }
}

/// Two lists in a row write a pixel as often as the two together.
pub proof fn lemma_writes_joined(a: Seq<EventModel>, b: Seq<EventModel>, x: int, y: int)
    ensures
        writes(a + b, x, y) == writes(a, x, y) + writes(b, x, y),
    decreases b.len(),
{
    if b.len() == 0 {
        assert(a + b =~= a);
    } else {
        lemma_writes_joined(a, b.drop_last(), x, y);
        assert((a + b).drop_last() =~= a + b.drop_last());
        assert((a + b).last() == b.last());
    }
}

/// A list of one event writes the pixel of the event once and no other.
proof fn lemma_writes_single(e: EventModel, x: int, y: int)
    ensures
        writes(seq![e], x, y) == if writes_pixel(e, x, y) {
            1nat
        } else {
            0nat
        },
{
    reveal_with_fuel(writes, 2);
    assert(seq![e].drop_last() =~= Seq::<EventModel>::empty());
    assert(seq![e].last() == e);
    assert(writes(Seq::<EventModel>::empty(), x, y) == 0);
}

/// Four lists in a row, announced at both ends or not at all, write a
/// pixel as often as the four together.
proof fn lemma_writes_assembled(
    announced: bool,
    chunk: SpecBounds,
    a: Seq<EventModel>,
    b: Seq<EventModel>,
    c: Seq<EventModel>,
    d: Seq<EventModel>,
    x: int,
    y: int,
)
    ensures
        writes(
            if announced {
                seq![EventModel::Message(chunk, WorkingMessage::Begin)] + (a + b + c + d) + seq![
                    EventModel::Message(chunk, WorkingMessage::End),
                ]
            } else {
                a + b + c + d
            },
            x,
            y,
        ) == writes(a, x, y) + writes(b, x, y) + writes(c, x, y) + writes(d, x, y),
{
    let begin = seq![EventModel::Message(chunk, WorkingMessage::Begin)];
    let end = seq![EventModel::Message(chunk, WorkingMessage::End)];
    lemma_writes_joined(a, b, x, y);
    lemma_writes_joined(a + b, c, x, y);
    lemma_writes_joined(a + b + c, d, x, y);
    lemma_writes_single(EventModel::Message(chunk, WorkingMessage::Begin), x, y);
    lemma_writes_single(EventModel::Message(chunk, WorkingMessage::End), x, y);
    lemma_writes_joined(begin, a + b + c + d, x, y);
    lemma_writes_joined(begin + (a + b + c + d), end, x, y);
}

/// The drawing of a square whose side is a power of two writes every pixel
/// of the square once and no other pixel.
pub proof fn lemma_square_written_once(
    square: SquareModel,
    splitter: Seq<SplitterEntry>,
    splitting_type: (bool, bool),
    level: nat,
    x: int,
    y: int,
)
    requires
        square.sidelength == pow2(level),
    ensures
        writes(square.events(splitter, splitting_type), x, y) == once_inside(square.bounds(), x, y),
    decreases level,
{
    if level == 0 {
        vstd::arithmetic::power2::lemma2_to64();
        lemma_writes_single(square.events(splitter, splitting_type)[0], x, y);
        assert(square.events(splitter, splitting_type) =~= seq![
            square.events(splitter, splitting_type)[0],
        ]);
    } else {
        lemma_pow2_unfold(level);
        lemma_pow2_pos((level - 1) as nat);
        let quarters = square.quarters(splitter, splitting_type);
        let below = (level - 1) as nat;
        lemma_square_written_once(quarters.0, splitter, splitting_type, below, x, y);
        lemma_square_written_once(quarters.1, splitter, splitting_type, below, x, y);
        lemma_square_written_once(quarters.2, splitter, splitting_type, below, x, y);
        lemma_square_written_once(quarters.3, splitter, splitting_type, below, x, y);
        lemma_writes_assembled(
            square.sidelength == SENDING_SIZE,
            square.bounds(),
            quarters.0.events(splitter, splitting_type),
            quarters.1.events(splitter, splitting_type),
            quarters.2.events(splitter, splitting_type),
            quarters.3.events(splitter, splitting_type),
            x,
            y,
        );
    }
}

/// The drawing of a square whose side is a power of two against a
/// viewport writes every pixel that lies in both once and no other pixel.
pub proof fn lemma_crop_written_once(
    square: SquareModel,
    bounds: SpecBounds,
    splitter: Seq<SplitterEntry>,
    splitting_type: (bool, bool),
    level: nat,
    x: int,
    y: int,
)
    requires
        square.sidelength == pow2(level),
    ensures
        writes(square.crop(bounds).events(splitter, splitting_type), x, y) == if bounds_contain(
            bounds,
            x,
            y,
        ) {
            once_inside(square.bounds(), x, y)
        } else {
            0
        },
    decreases level,
{
    lemma_pow2_pos(level);
    match square.crop(bounds) {
        CropModel::Unaffected(_) => {
            lemma_square_written_once(square, splitter, splitting_type, level, x, y);
        },
        CropModel::Empty => {},
        CropModel::Cropped(_, _) => {
            if level == 0 {
                vstd::arithmetic::power2::lemma2_to64();
            } else {
                lemma_pow2_unfold(level);
                lemma_pow2_pos((level - 1) as nat);
                let quarters = square.quarters(splitter, splitting_type);
                let below = (level - 1) as nat;
                lemma_crop_written_once(quarters.0, bounds, splitter, splitting_type, below, x, y);
                lemma_crop_written_once(quarters.1, bounds, splitter, splitting_type, below, x, y);
                lemma_crop_written_once(quarters.2, bounds, splitter, splitting_type, below, x, y);
                lemma_crop_written_once(quarters.3, bounds, splitter, splitting_type, below, x, y);
                lemma_writes_assembled(
                    square.sidelength == SENDING_SIZE,
                    clipped_bounds(square, bounds),
                    quarters.0.crop(bounds).events(splitter, splitting_type),
                    quarters.1.crop(bounds).events(splitter, splitting_type),
                    quarters.2.crop(bounds).events(splitter, splitting_type),
                    quarters.3.crop(bounds).events(splitter, splitting_type),
                    x,
                    y,
                );
            }
        },
    }
}

/// The drawing of a part of a row of coarsest squares writes every pixel
/// that lies in the part and in the viewport once and no other pixel.
pub proof fn lemma_row_written_once(
    canvas: CanvasModel,
    level: nat,
    tile_y: int,
    from_x: int,
    to_x: int,
    x: int,
    y: int,
)
    requires
        canvas.sidelength == pow2(level),
        from_x <= to_x,
    ensures
        writes(canvas.row_events(tile_y, from_x, to_x), x, y) == if bounds_contain(
            canvas.bounds,
            x,
            y,
        ) {
            once_inside(tiles_rect(canvas, from_x, tile_y, to_x, tile_y + 1), x, y)
        } else {
            0
        },
    decreases to_x - from_x,
{
    lemma_pow2_pos(level);
    if from_x < to_x {
        lemma_row_written_once(canvas, level, tile_y, from_x, to_x - 1, x, y);
        lemma_crop_written_once(
            canvas.tile(to_x - 1, tile_y),
            canvas.bounds,
            canvas.splitter,
            canvas.splitting_type,
            level,
            x,
            y,
        );
        lemma_writes_joined(
            canvas.row_events(tile_y, from_x, to_x - 1),
            canvas.tile_events(to_x - 1, tile_y),
            x,
            y,
        );
        lemma_next_tile(to_x - 1, canvas.sidelength);
        lemma_next_tile(tile_y, canvas.sidelength);
        lemma_tiles_in_order(from_x, to_x - 1, canvas.sidelength);
    }
}

/// The drawing of some rows of coarsest squares writes every pixel that
/// lies in the rows and in the viewport once and no other pixel.
pub proof fn lemma_rows_written_once(
    canvas: CanvasModel,
    level: nat,
    from_y: int,
    to_y: int,
    from_x: int,
    to_x: int,
    x: int,
    y: int,
)
    requires
        canvas.sidelength == pow2(level),
        from_x <= to_x,
        from_y <= to_y,
    ensures
        writes(canvas.rows_events(from_y, to_y, from_x, to_x), x, y) == if bounds_contain(
            canvas.bounds,
            x,
            y,
        ) {
            once_inside(tiles_rect(canvas, from_x, from_y, to_x, to_y), x, y)
        } else {
            0
        },
    decreases to_y - from_y,
{
    lemma_pow2_pos(level);
    if from_y < to_y {
        lemma_rows_written_once(canvas, level, from_y, to_y - 1, from_x, to_x, x, y);
        lemma_row_written_once(canvas, level, to_y - 1, from_x, to_x, x, y);
        lemma_writes_joined(
            canvas.rows_events(from_y, to_y - 1, from_x, to_x),
            canvas.row_events(to_y - 1, from_x, to_x),
            x,
            y,
        );
        lemma_next_tile(to_y - 1, canvas.sidelength);
        lemma_tiles_in_order(from_y, to_y - 1, canvas.sidelength);
    }
}

/// The coarsest squares that a drawing visits cover the viewport.
proof fn lemma_tiles_cover(low: int, high: int, origin: int, side: int)
    by (nonlinear_arith)
    requires
        low <= high,
        1 <= side,
    ensures
        (low - origin) / side <= (high - origin) / side,
        ((low - origin) / side) * side + origin <= low,
        high < ((high - origin) / side + 1) * side + origin,
{
}

/// The drawing of a viewport writes every pixel of the viewport once and
/// no other pixel.
pub proof fn lemma_canvas_written_once(canvas: CanvasModel, level: nat, x: int, y: int)
    requires
        canvas.sidelength == pow2(level),
        canvas.bounds.0 <= canvas.bounds.2,
        canvas.bounds.1 <= canvas.bounds.3,
    ensures
        writes(canvas.events(), x, y) == once_inside(canvas.bounds, x, y),
{
    lemma_pow2_pos(level);
    let first = canvas.first_tile();
    let last = canvas.last_tile();
    lemma_tiles_cover(canvas.bounds.0, canvas.bounds.2, canvas.origin.0, canvas.sidelength);
    lemma_tiles_cover(canvas.bounds.1, canvas.bounds.3, canvas.origin.1, canvas.sidelength);
    lemma_rows_written_once(canvas, level, first.1, last.1 + 1, first.0, last.0 + 1, x, y);
}

/// The colours of the two triangles of a pixel.
pub type PixelColours = (Seq<ColourKey>, Seq<ColourKey>);

/// The colours that a square shows at the pixel at `(x, y)`: those of the
/// square's own triangles where the square is a pixel, else those that
/// the quarter which holds the pixel shows there.
pub open spec fn shown_by_square(
    square: SquareModel,
    splitter: Seq<SplitterEntry>,
    splitting_type: (bool, bool),
    x: int,
    y: int,
) -> PixelColours
    decreases square.sidelength,
{
    if square.sidelength <= 1 {
        (colours_of(square.triangles.first.0), colours_of(square.triangles.second.0))
    } else {
        let quarters = square.quarters(splitter, splitting_type);
        let half = square.sidelength / 2;
        if y < square.y + half {
            if x < square.x + half {
                shown_by_square(quarters.0, splitter, splitting_type, x, y)
            } else {
                shown_by_square(quarters.1, splitter, splitting_type, x, y)
            }
        } else {
            if x < square.x + half {
                shown_by_square(quarters.2, splitter, splitting_type, x, y)
            } else {
                shown_by_square(quarters.3, splitter, splitting_type, x, y)
            }
        }
    }
}

/// Where the event writes a pixel, it writes the colours that `shown`
/// gives for the pixel.
pub open spec fn event_shows(e: EventModel, shown: spec_fn(int, int) -> PixelColours) -> bool {
    match e {
        EventModel::Pixel { x, y, first, second } => (first, second) == shown(x, y),
        _ => true,
    }
}

/// Every pixel that the list writes gets the colours that `shown` gives for it.
pub open spec fn all_show(events: Seq<EventModel>, shown: spec_fn(int, int) -> PixelColours) -> bool {
    forall|i: int| 0 <= i < events.len() ==> event_shows(#[trigger] events[i], shown)
}

/// A list that stays in a region shows what any function shows that
/// agrees, in the region, with one that the list shows.
proof fn lemma_shows_in_region(
    events: Seq<EventModel>,
    region: SpecBounds,
    shown: spec_fn(int, int) -> PixelColours,
    other: spec_fn(int, int) -> PixelColours,
)
    requires
        all_inside(events, region),
        all_show(events, shown),
        forall|x: int, y: int| bounds_contain(region, x, y) ==> #[trigger] shown(x, y) == other(x, y),
    ensures
        all_show(events, other),
{
    assert forall|i: int| 0 <= i < events.len() implies event_shows(#[trigger] events[i], other) by {
        assert(event_inside(events[i], region));
        assert(event_shows(events[i], shown));
    }
}

/// Four lists in a row, announced at both ends or not at all, show what
/// each of them shows.
proof fn lemma_shows_assembled(
    announced: bool,
    chunk: SpecBounds,
    a: Seq<EventModel>,
    b: Seq<EventModel>,
    c: Seq<EventModel>,
    d: Seq<EventModel>,
    shown: spec_fn(int, int) -> PixelColours,
)
    requires
        all_show(a, shown),
        all_show(b, shown),
        all_show(c, shown),
        all_show(d, shown),
    ensures
        all_show(
            if announced {
                seq![EventModel::Message(chunk, WorkingMessage::Begin)] + (a + b + c + d) + seq![
                    EventModel::Message(chunk, WorkingMessage::End),
                ]
            } else {
                a + b + c + d
            },
            shown,
        ),
{
    let inner = a + b + c + d;
    assert forall|i: int| 0 <= i < inner.len() implies event_shows(#[trigger] inner[i], shown) by {
        if i < a.len() {
            assert(inner[i] == a[i]);
        } else if i < a.len() + b.len() {
            assert(inner[i] == b[i - a.len()]);
        } else if i < a.len() + b.len() + c.len() {
            assert(inner[i] == c[i - a.len() - b.len()]);
        } else {
            assert(inner[i] == d[i - a.len() - b.len() - c.len()]);
        }
    }
    let whole = seq![EventModel::Message(chunk, WorkingMessage::Begin)] + inner + seq![
        EventModel::Message(chunk, WorkingMessage::End),
    ];
    assert forall|i: int| 0 <= i < whole.len() implies event_shows(#[trigger] whole[i], shown) by {
        if 0 < i <= inner.len() {
            assert(whole[i] == inner[i - 1]);
        }
    }
}

/// What a quarter of a square shows, the square shows in the quarter.
proof fn lemma_quarter_shows(
    events: Seq<EventModel>,
    square: SquareModel,
    quarter: SquareModel,
    splitter: Seq<SplitterEntry>,
    splitting_type: (bool, bool),
)
    requires
        2 <= square.sidelength,
        quarter == square.quarters(splitter, splitting_type).0 || quarter == square.quarters(
            splitter,
            splitting_type,
        ).1 || quarter == square.quarters(splitter, splitting_type).2 || quarter
            == square.quarters(splitter, splitting_type).3,
        all_inside(events, quarter.bounds()),
        all_show(events, |x: int, y: int| shown_by_square(quarter, splitter, splitting_type, x, y)),
    ensures
        all_show(events, |x: int, y: int| shown_by_square(square, splitter, splitting_type, x, y)),
{
    lemma_shows_in_region(
        events,
        quarter.bounds(),
        |x: int, y: int| shown_by_square(quarter, splitter, splitting_type, x, y),
        |x: int, y: int| shown_by_square(square, splitter, splitting_type, x, y),
    );
}

/// Every pixel that the drawing of a square writes gets the colours that
/// the square shows there.
pub proof fn lemma_square_shows(
    square: SquareModel,
    splitter: Seq<SplitterEntry>,
    splitting_type: (bool, bool),
)
    requires
        1 <= square.sidelength,
    ensures
        all_show(
            square.events(splitter, splitting_type),
            |x: int, y: int| shown_by_square(square, splitter, splitting_type, x, y),
        ),
    decreases square.sidelength,
{
    let shown = |x: int, y: int| shown_by_square(square, splitter, splitting_type, x, y);
    if square.sidelength > 1 {
        let quarters = square.quarters(splitter, splitting_type);
        lemma_square_shows(quarters.0, splitter, splitting_type);
        lemma_square_shows(quarters.1, splitter, splitting_type);
        lemma_square_shows(quarters.2, splitter, splitting_type);
        lemma_square_shows(quarters.3, splitter, splitting_type);
        lemma_square_orderly(quarters.0, splitter, splitting_type);
        lemma_square_orderly(quarters.1, splitter, splitting_type);
        lemma_square_orderly(quarters.2, splitter, splitting_type);
        lemma_square_orderly(quarters.3, splitter, splitting_type);
        let a = quarters.0.events(splitter, splitting_type);
        let b = quarters.1.events(splitter, splitting_type);
        let c = quarters.2.events(splitter, splitting_type);
        let d = quarters.3.events(splitter, splitting_type);
        lemma_quarter_shows(a, square, quarters.0, splitter, splitting_type);
        lemma_quarter_shows(b, square, quarters.1, splitter, splitting_type);
        lemma_quarter_shows(c, square, quarters.2, splitter, splitting_type);
        lemma_quarter_shows(d, square, quarters.3, splitter, splitting_type);
        lemma_shows_assembled(square.sidelength == SENDING_SIZE, square.bounds(), a, b, c, d, shown);
    }
}

/// Every pixel that the drawing of a square against a viewport writes gets
/// the colours that the square shows there, whatever the viewport is.
pub proof fn lemma_crop_shows(
    square: SquareModel,
    bounds: SpecBounds,
    splitter: Seq<SplitterEntry>,
    splitting_type: (bool, bool),
)
    requires
        1 <= square.sidelength,
        rect_nonempty(bounds),
    ensures
        all_show(
            square.crop(bounds).events(splitter, splitting_type),
            |x: int, y: int| shown_by_square(square, splitter, splitting_type, x, y),
        ),
    decreases square.sidelength,
{
    let shown = |x: int, y: int| shown_by_square(square, splitter, splitting_type, x, y);
    match square.crop(bounds) {
        CropModel::Unaffected(_) => {
            lemma_square_shows(square, splitter, splitting_type);
        },
        CropModel::Empty => {},
        CropModel::Cropped(_, _) => {
            if square.sidelength > 1 {
                let quarters = square.quarters(splitter, splitting_type);
                lemma_crop_shows(quarters.0, bounds, splitter, splitting_type);
                lemma_crop_shows(quarters.1, bounds, splitter, splitting_type);
                lemma_crop_shows(quarters.2, bounds, splitter, splitting_type);
                lemma_crop_shows(quarters.3, bounds, splitter, splitting_type);
                lemma_crop_orderly(quarters.0, bounds, splitter, splitting_type);
                lemma_crop_orderly(quarters.1, bounds, splitter, splitting_type);
                lemma_crop_orderly(quarters.2, bounds, splitter, splitting_type);
                lemma_crop_orderly(quarters.3, bounds, splitter, splitting_type);
                let a = quarters.0.crop(bounds).events(splitter, splitting_type);
                let b = quarters.1.crop(bounds).events(splitter, splitting_type);
                let c = quarters.2.crop(bounds).events(splitter, splitting_type);
                let d = quarters.3.crop(bounds).events(splitter, splitting_type);
                lemma_orderly_widened(a, clipped_bounds(quarters.0, bounds), quarters.0.bounds());
                lemma_orderly_widened(b, clipped_bounds(quarters.1, bounds), quarters.1.bounds());
                lemma_orderly_widened(c, clipped_bounds(quarters.2, bounds), quarters.2.bounds());
                lemma_orderly_widened(d, clipped_bounds(quarters.3, bounds), quarters.3.bounds());
                lemma_quarter_shows(a, square, quarters.0, splitter, splitting_type);
                lemma_quarter_shows(b, square, quarters.1, splitter, splitting_type);
                lemma_quarter_shows(c, square, quarters.2, splitter, splitting_type);
                lemma_quarter_shows(d, square, quarters.3, splitter, splitting_type);
                lemma_shows_assembled(
                    square.sidelength == SENDING_SIZE,
                    clipped_bounds(square, bounds),
                    a,
                    b,
                    c,
                    d,
                    shown,
                );
            }
        },
    }
}

/// The colours that a canvas shows at the pixel at `(x, y)`: those that
/// the coarsest square which holds the pixel shows there. The viewport
/// has no part in them.
pub open spec fn shown_by_canvas(canvas: CanvasModel, x: int, y: int) -> PixelColours {
    shown_by_square(
        canvas.tile(
            (x - canvas.origin.0) / canvas.sidelength,
            (y - canvas.origin.1) / canvas.sidelength,
        ),
        canvas.splitter,
        canvas.splitting_type,
        x,
        y,
    )
}

/// A coordinate in a tile has the tile's number.
proof fn lemma_tile_of(value: int, tile: int, side: int)
    by (nonlinear_arith)
    requires
        1 <= side,
        tile * side <= value < tile * side + side,
    ensures
        value / side == tile,
{
}

/// Two lists that show the same, one after the other, show it too.
proof fn lemma_shows_joined(
    a: Seq<EventModel>,
    b: Seq<EventModel>,
    shown: spec_fn(int, int) -> PixelColours,
)
    requires
        all_show(a, shown),
        all_show(b, shown),
    ensures
        all_show(a + b, shown),
{
    assert forall|i: int| 0 <= i < (a + b).len() implies event_shows(
        #[trigger] (a + b)[i],
        shown,
    ) by {
        if i < a.len() {
            assert((a + b)[i] == a[i]);
        } else {
            assert((a + b)[i] == b[i - a.len()]);
        }
    }
}

/// Every pixel that the drawing of one coarsest square writes gets the
/// colours that the canvas shows there.
proof fn lemma_tile_shows(canvas: CanvasModel, tile_x: int, tile_y: int)
    requires
        1 <= canvas.sidelength,
        rect_nonempty(canvas.bounds),
    ensures
        all_show(canvas.tile_events(tile_x, tile_y), |x: int, y: int| shown_by_canvas(canvas, x, y)),
{
    let tile = canvas.tile(tile_x, tile_y);
    lemma_crop_shows(tile, canvas.bounds, canvas.splitter, canvas.splitting_type);
    lemma_crop_orderly(tile, canvas.bounds, canvas.splitter, canvas.splitting_type);
    lemma_orderly_widened(
        canvas.tile_events(tile_x, tile_y),
        clipped_bounds(tile, canvas.bounds),
        tile.bounds(),
    );
    assert forall|x: int, y: int| bounds_contain(tile.bounds(), x, y) implies #[trigger] shown_by_square(
        tile,
        canvas.splitter,
        canvas.splitting_type,
        x,
        y,
    ) == shown_by_canvas(canvas, x, y) by {
        lemma_tile_of(x - canvas.origin.0, tile_x, canvas.sidelength);
        lemma_tile_of(y - canvas.origin.1, tile_y, canvas.sidelength);
    }
    lemma_shows_in_region(
        canvas.tile_events(tile_x, tile_y),
        tile.bounds(),
        |x: int, y: int| shown_by_square(tile, canvas.splitter, canvas.splitting_type, x, y),
        |x: int, y: int| shown_by_canvas(canvas, x, y),
    );
}

/// Every pixel that the drawing of a part of a row writes gets the colours
/// that the canvas shows there.
proof fn lemma_row_shows(canvas: CanvasModel, tile_y: int, from_x: int, to_x: int)
    requires
        1 <= canvas.sidelength,
        rect_nonempty(canvas.bounds),
    ensures
        all_show(
            canvas.row_events(tile_y, from_x, to_x),
            |x: int, y: int| shown_by_canvas(canvas, x, y),
        ),
    decreases to_x - from_x,
{
    if from_x < to_x {
        lemma_row_shows(canvas, tile_y, from_x, to_x - 1);
        lemma_tile_shows(canvas, to_x - 1, tile_y);
        lemma_shows_joined(
            canvas.row_events(tile_y, from_x, to_x - 1),
            canvas.tile_events(to_x - 1, tile_y),
            |x: int, y: int| shown_by_canvas(canvas, x, y),
        );
    }
}

/// Every pixel that the drawing of some rows writes gets the colours that
/// the canvas shows there.
proof fn lemma_rows_shows(canvas: CanvasModel, from_y: int, to_y: int, from_x: int, to_x: int)
    requires
        1 <= canvas.sidelength,
        rect_nonempty(canvas.bounds),
    ensures
        all_show(
            canvas.rows_events(from_y, to_y, from_x, to_x),
            |x: int, y: int| shown_by_canvas(canvas, x, y),
        ),
    decreases to_y - from_y,
{
    if from_y < to_y {
        lemma_rows_shows(canvas, from_y, to_y - 1, from_x, to_x);
        lemma_row_shows(canvas, to_y - 1, from_x, to_x);
        lemma_shows_joined(
            canvas.rows_events(from_y, to_y - 1, from_x, to_x),
            canvas.row_events(to_y - 1, from_x, to_x),
            |x: int, y: int| shown_by_canvas(canvas, x, y),
        );
    }
}

/// Every pixel that the drawing of a viewport writes gets the colours that
/// the canvas shows there.
pub proof fn lemma_canvas_shows(canvas: CanvasModel)
    requires
        1 <= canvas.sidelength,
        rect_nonempty(canvas.bounds),
    ensures
        all_show(canvas.events(), |x: int, y: int| shown_by_canvas(canvas, x, y)),
{
    lemma_rows_shows(
        canvas,
        canvas.first_tile().1,
        canvas.last_tile().1 + 1,
        canvas.first_tile().0,
        canvas.last_tile().0 + 1,
    );
}

/// The colours of a pixel do not depend on the viewport: a pixel that two
/// drawings write, which differ in their viewports alone, gets the same
/// colours in both.
pub proof fn lemma_viewport_keeps_colours(
    canvas: CanvasModel,
    other_bounds: SpecBounds,
    i: int,
    j: int,
)
    requires
        1 <= canvas.sidelength,
        rect_nonempty(canvas.bounds),
        rect_nonempty(other_bounds),
        0 <= i < canvas.events().len(),
        0 <= j < (CanvasModel { bounds: other_bounds, ..canvas }).events().len(),
        canvas.events()[i] is Pixel,
        (CanvasModel { bounds: other_bounds, ..canvas }).events()[j] is Pixel,
        canvas.events()[i]->x == (CanvasModel { bounds: other_bounds, ..canvas }).events()[j]->x,
        canvas.events()[i]->y == (CanvasModel { bounds: other_bounds, ..canvas }).events()[j]->y,
    ensures
        canvas.events()[i] == (CanvasModel { bounds: other_bounds, ..canvas }).events()[j],
{
    let other = CanvasModel { bounds: other_bounds, ..canvas };
    lemma_canvas_shows(canvas);
    lemma_canvas_shows(other);
    let here = canvas.events()[i];
    let there = other.events()[j];
    assert(event_shows(here, |x: int, y: int| shown_by_canvas(canvas, x, y)));
    assert(event_shows(there, |x: int, y: int| shown_by_canvas(other, x, y)));
    assert(shown_by_canvas(canvas, here->x, here->y) == shown_by_canvas(other, here->x, here->y));
}

} // verus!
