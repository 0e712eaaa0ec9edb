//! The consumer's side of a drawing: where a pixel lies in the buffer,
//! which chunks are being drawn, and how a chunk is copied from the shared
//! buffer into the consumer's own.

use crate::auxiliary::{WorkingMessage, WorkingState};
use vstd::prelude::*;

verus! {

/// The bounds of a chunk: left, top, right, bottom, the last two exclusive.
pub type ChunkBounds = (usize, usize, usize, usize);

/// How a pixel is laid out in the buffer.
#[derive(Clone, Copy, Debug, PartialEq, Eq, Structural)]
pub enum PixelFormat {
    /// One byte of brightness.
    Grayscale,
    /// Three bytes: red, green, blue.
    Rgb,
    /// Four bytes: red, green, blue and a separate alpha.
    RgbaSeparate,
    /// Four bytes: red, green, blue, each times alpha, and alpha.
    RgbaPremul,
}

impl PixelFormat {
    /// The number of bytes that a pixel takes.
    pub open spec fn spec_bytes_per_pixel(self) -> int {
        match self {
            PixelFormat::Grayscale => 1,
            PixelFormat::Rgb => 3,
            PixelFormat::RgbaSeparate => 4,
            PixelFormat::RgbaPremul => 4,
        }
    }

    /// The number of bytes that a pixel takes.
    pub fn bytes_per_pixel(self) -> (r: usize)
        ensures
            r == self.spec_bytes_per_pixel(),
    {
        match self {
            PixelFormat::Grayscale => 1,
            PixelFormat::Rgb => 3,
            PixelFormat::RgbaSeparate => 4,
            PixelFormat::RgbaPremul => 4,
        }
    }
}

/// The number of bytes of a buffer for `width` times `height` pixels;
/// `None` where the machine cannot address that many.
pub fn canvas_size(format: PixelFormat, width: usize, height: usize) -> (r: Option<usize>)
    ensures
        match r {
            Some(size) => size == format.spec_bytes_per_pixel() * width * height,
            None => format.spec_bytes_per_pixel() * width * height > usize::MAX,
        },
{
    let row = match format.bytes_per_pixel().checked_mul(width) {
        Some(row) => row,
        None => {
            proof {
                lemma_product_grows(format.spec_bytes_per_pixel() * width, height as int);
            }
            return if height == 0 {
                Some(0)
            } else {
                None
            };
        },
    };
    row.checked_mul(height)
}

/// A product with a positive factor is at least the other factor, and a
/// product with zero is zero.
proof fn lemma_product_grows(a: int, b: int)
    by (nonlinear_arith)
    requires
        0 <= a,
        0 <= b,
    ensures
        b >= 1 ==> a * b >= a,
        b == 0 ==> a * b == 0,
{
}

/// The position in the buffer of the first byte of the pixel at `(x, y)`,
/// in a buffer whose rows hold `canvas_width` pixels; `None` where the
/// machine cannot address the pixel's last byte.
pub fn buffer_position(format: PixelFormat, canvas_width: usize, x: usize, y: usize) -> (r: Option<
    usize,
>)
    ensures
        match r {
            Some(position) => position == format.spec_bytes_per_pixel() * (y * canvas_width + x)
                && position + format.spec_bytes_per_pixel() <= usize::MAX,
            None => format.spec_bytes_per_pixel() * (y * canvas_width + x)
                + format.spec_bytes_per_pixel() > usize::MAX,
        },
{
    let depth = format.bytes_per_pixel();
    let pixel = match y.checked_mul(canvas_width) {
        Some(row) => match row.checked_add(x) {
            Some(pixel) => pixel,
            None => {
                proof {
                    lemma_product_grows(y * canvas_width + x, depth as int);
                    assert(depth * (y * canvas_width + x) == (y * canvas_width + x) * depth)
                        by (nonlinear_arith);
                }
                return None;
            },
        },
        None => {
            proof {
                lemma_product_grows(y * canvas_width + x, depth as int);
                assert(depth * (y * canvas_width + x) == (y * canvas_width + x) * depth)
                    by (nonlinear_arith);
            }
            return None;
        },
    };
    match depth.checked_mul(pixel) {
        Some(position) => match position.checked_add(depth) {
            Some(_) => Some(position),
            None => None,
        },
        None => None,
    }
}

/// What the consumer knows of a chunk after the message.
pub open spec fn state_after(message: WorkingMessage) -> WorkingState {
    match message {
        WorkingMessage::Begin => WorkingState::Working,
        WorkingMessage::End => WorkingState::Finished,
    }
}

/// The position of the chunk with the given bounds among the entries.
pub open spec fn chunk_position(entries: Seq<(ChunkBounds, WorkingState)>, bounds: ChunkBounds)
    -> Option<int> {
    if exists|i: int| 0 <= i < entries.len() && (#[trigger] entries[i]).0 == bounds {
        Some(choose|i: int| 0 <= i < entries.len() && (#[trigger] entries[i]).0 == bounds)
    } else {
        None
    }
}

/// No chunk stands twice among the entries.
pub open spec fn chunks_distinct(entries: Seq<(ChunkBounds, WorkingState)>) -> bool {
    forall|i: int, j: int|
        0 <= i < j < entries.len() ==> (#[trigger] entries[i]).0 != (#[trigger] entries[j]).0
}

/// The entries after a message: the chunk's state is replaced where the
/// chunk is known, and the chunk is added at the end where it is not.
pub open spec fn entries_after(
    entries: Seq<(ChunkBounds, WorkingState)>,
    bounds: ChunkBounds,
    message: WorkingMessage,
) -> Seq<(ChunkBounds, WorkingState)> {
    match chunk_position(entries, bounds) {
        Some(i) => entries.update(i, (bounds, state_after(message))),
        None => entries.push((bounds, state_after(message))),
    }
}

/// The entries of the chunks that are still being drawn, in their order.
pub open spec fn still_working(entries: Seq<(ChunkBounds, WorkingState)>) -> Seq<
    (ChunkBounds, WorkingState),
>
    decreases entries.len(),
{
    if entries.len() == 0 {
        entries
    } else if entries.last().1 == WorkingState::Working {
        still_working(entries.drop_last()).push(entries.last())
    } else {
        still_working(entries.drop_last())
    }
}

/// Whether the two are the bounds of the same chunk.
fn same_bounds(a: ChunkBounds, b: ChunkBounds) -> (r: bool)
    ensures
        r == (a == b),
{
    a.0 == b.0 && a.1 == b.1 && a.2 == b.2 && a.3 == b.3
}

/// The chunks that the consumer was told of and has not retired yet, each
/// with its state, in the order in which they were first announced.
pub struct ChunkTracker {
    working_chunks: Vec<(ChunkBounds, WorkingState)>,
}

impl View for ChunkTracker {
    type V = Seq<(ChunkBounds, WorkingState)>;

    closed spec fn view(&self) -> Seq<(ChunkBounds, WorkingState)> {
        self.working_chunks@
    }
}

impl ChunkTracker {
    /// The invariant of the type: no chunk stands twice.
    pub open spec fn wf(&self) -> bool {
        chunks_distinct(self@)
    }

    /// A tracker that knows of no chunk.
    pub fn new() -> (r: ChunkTracker)
        ensures
            r@ == Seq::<(ChunkBounds, WorkingState)>::empty(),
            r.wf(),
    {
        ChunkTracker { working_chunks: Vec::new() }
    }

    /// Takes note of a message of the worker: a chunk that begins is being
    /// drawn, a chunk that ends is finished.
    pub fn receive(&mut self, bounds: ChunkBounds, message: WorkingMessage)
        requires
            old(self).wf(),
        ensures
            final(self)@ == entries_after(old(self)@, bounds, message),
            final(self).wf(),
    {
        let state = match message {
            WorkingMessage::Begin => WorkingState::Working,
            WorkingMessage::End => WorkingState::Finished,
        };
        let ghost entries = self.working_chunks@;
        let mut index: usize = 0;
        while index < self.working_chunks.len()
            invariant
                index <= self.working_chunks.len(),
                self.working_chunks@ == entries,
                entries == old(self)@,
                state == state_after(message),
                chunks_distinct(entries),
                forall|i: int| 0 <= i < index ==> (#[trigger] entries[i]).0 != bounds,
            decreases self.working_chunks.len() - index,
        {
            if same_bounds(self.working_chunks[index].0, bounds) {
                proof {
                    assert(entries[index as int].0 == bounds);
                    let found = chunk_position(entries, bounds).unwrap();
                    assert(entries[found].0 == bounds);
                    assert(found == index);
                }
                self.working_chunks.set(index, (bounds, state));
                return ;
            }
            index += 1;
        }
        self.working_chunks.push((bounds, state));
    }

    /// The bounds of the chunks to copy: every chunk that is being drawn
    /// or is finished and not retired yet.
    pub fn chunks_to_copy(&self) -> (r: Vec<ChunkBounds>)
        ensures
            r.len() == self@.len(),
            forall|i: int| 0 <= i < r.len() ==> #[trigger] r[i] == self@[i].0,
    {
        let mut bounds: Vec<ChunkBounds> = Vec::new();
        let mut index: usize = 0;
        while index < self.working_chunks.len()
            invariant
                index <= self.working_chunks.len(),
                bounds.len() == index,
                forall|i: int| 0 <= i < index ==> #[trigger] bounds[i] == self.working_chunks@[i].0,
            decreases self.working_chunks.len() - index,
        {
            bounds.push(self.working_chunks[index].0);
            index += 1;
        }
        bounds
    }

    /// Forgets the chunks that are finished.
    pub fn retire_finished(&mut self)
        requires
            old(self).wf(),
        ensures
            final(self)@ == still_working(old(self)@),
            final(self).wf(),
    {
        let ghost entries = self.working_chunks@;
        let mut kept: Vec<(ChunkBounds, WorkingState)> = Vec::new();
        let mut index: usize = 0;
        while index < self.working_chunks.len()
            invariant
                index <= self.working_chunks.len(),
                self.working_chunks@ == entries,
                chunks_distinct(entries),
                kept@ == still_working(entries.subrange(0, index as int)),
                forall|k: int|
                    0 <= k < kept.len() ==> exists|i: int|
                        0 <= i < index && entries[i] == #[trigger] kept[k],
                chunks_distinct(kept@),
            decreases self.working_chunks.len() - index,
        {
            let entry = self.working_chunks[index];
            proof {
                assert(entries.subrange(0, index + 1).drop_last() =~= entries.subrange(
                    0,
                    index as int,
                ));
                assert(entries.subrange(0, index + 1).last() == entry);
            }
            if entry.1 == WorkingState::Working {
                proof {
                    let before = kept@;
                    assert forall|i: int, j: int| 0 <= i < j < before.len() + 1 implies (
                    #[trigger] before.push(entry)[i]).0 != (#[trigger] before.push(entry)[j]).0 by {
                        if j == before.len() {
                            let source = choose|source: int|
                                0 <= source < index && entries[source] == before[i];
                            assert(entries[source].0 != entries[index as int].0);
                        }
                    }
                    assert forall|k: int| 0 <= k < before.len() + 1 implies exists|i: int|
                        0 <= i < index + 1 && entries[i] == #[trigger] before.push(entry)[k] by {
                        if k == before.len() {
                            assert(entries[index as int] == before.push(entry)[k]);
                        } else {
                            let source = choose|source: int|
                                0 <= source < index && entries[source] == before[k];
                            assert(entries[source] == before.push(entry)[k]);
                        }
                    }
                }
                kept.push(entry);
            }
            index += 1;
        }
        proof {
            assert(entries.subrange(0, index as int) =~= entries);
        }
        self.working_chunks = kept;
    }
}

/// The byte at `index` belongs to a pixel of the row `y` of the chunk.
pub open spec fn in_row(index: int, bounds: ChunkBounds, width: int, depth: int, y: int) -> bool {
    (y * width + bounds.0) * depth <= index < (y * width + bounds.2) * depth
}

/// The byte at `index` belongs to a pixel of the chunk, in one of the rows
/// from `from_y` up to, but without, `to_y`.
pub open spec fn in_rows(
    index: int,
    bounds: ChunkBounds,
    width: int,
    depth: int,
    from_y: int,
    to_y: int,
) -> bool {
    exists|y: int| from_y <= y < to_y && #[trigger] in_row(index, bounds, width, depth, y)
}

/// The byte at `index` belongs to a pixel of the chunk.
pub open spec fn in_chunk(index: int, bounds: ChunkBounds, width: int, depth: int) -> bool {
    in_rows(index, bounds, width, depth, bounds.1 as int, bounds.3 as int)
}

/// The chunk lies in a buffer of `length` bytes whose rows hold `width`
/// pixels of `depth` bytes each.
pub open spec fn chunk_fits(bounds: ChunkBounds, width: int, depth: int, length: int) -> bool {
    &&& bounds.0 <= bounds.2 <= width
    &&& bounds.1 < bounds.3 ==> bounds.3 * width * depth <= length
}

/// The last byte of a row of the chunk lies before the end of the chunk's last row.
proof fn lemma_row_in_buffer(bounds: ChunkBounds, width: int, depth: int, y: int)
    by (nonlinear_arith)
    requires
        0 <= bounds.0 <= bounds.2 <= width,
        0 <= y < bounds.3,
        0 <= depth,
    ensures
        0 <= (y * width + bounds.0) * depth <= (y * width + bounds.2) * depth <= bounds.3 * width
            * depth,
        0 <= y * width,
        1 <= depth ==> y * width + bounds.2 <= (y * width + bounds.2) * depth,
        1 <= depth ==> y * width + bounds.0 <= (y * width + bounds.0) * depth,
{
}

/// Copies the bytes of the chunk's pixels from the shared buffer into the
/// consumer's own, and leaves every other byte as it is.
pub fn copy_region(
    own_canvas: &mut Vec<u8>,
    shared_canvas: &[u8],
    bounds: ChunkBounds,
    width: usize,
    colour_depth: usize,
)
    requires
        old(own_canvas).len() == shared_canvas.len(),
        chunk_fits(bounds, width as int, colour_depth as int, shared_canvas.len() as int),
    ensures
        final(own_canvas).len() == old(own_canvas).len(),
        forall|index: int|
            0 <= index < final(own_canvas).len() ==> #[trigger] final(own_canvas)[index] == if in_chunk(
                index,
                bounds,
                width as int,
                colour_depth as int,
            ) {
                shared_canvas[index]
            } else {
                old(own_canvas)[index]
            },
{
    let ghost before = own_canvas@;
    let ghost w = width as int;
    let ghost d = colour_depth as int;
    if colour_depth == 0 {
        proof {
            assert forall|index: int| 0 <= index < own_canvas.len() implies !in_chunk(
                index,
                bounds,
                w,
                d,
            ) by {
                if in_chunk(index, bounds, w, d) {
                    let row = choose|row: int|
                        bounds.1 <= row < bounds.3 && #[trigger] in_row(index, bounds, w, d, row);
                    assert((row * w + bounds.2) * d == 0) by (nonlinear_arith)
                        requires
                            d == 0,
                    ;
                }
            }
        }
        return ;
    }
    let mut y = bounds.1;
    while y < bounds.3
        invariant
            bounds.1 <= y,
            y <= bounds.3 || y == bounds.1,
            before == old(own_canvas)@,
            own_canvas.len() == shared_canvas.len(),
            own_canvas.len() == before.len(),
            w == width,
            d == colour_depth,
            1 <= d,
            chunk_fits(bounds, w, d, shared_canvas.len() as int),
            forall|index: int|
                0 <= index < own_canvas.len() ==> #[trigger] own_canvas[index] == if in_rows(
                    index,
                    bounds,
                    w,
                    d,
                    bounds.1 as int,
                    y as int,
                ) {
                    shared_canvas[index]
                } else {
                    before[index]
                },
        decreases bounds.3 - y,
    {
        proof {
            lemma_row_in_buffer(bounds, w, d, y as int);
        }
        let end = (y * width + bounds.2) * colour_depth;
        let start = (y * width + bounds.0) * colour_depth;
        let mut position = start;
        while position < end
            invariant
                start <= position <= end <= shared_canvas.len(),
                start == (y * w + bounds.0) * d,
                end == (y * w + bounds.2) * d,
                bounds.1 <= y < bounds.3,
                own_canvas.len() == shared_canvas.len(),
                own_canvas.len() == before.len(),
                forall|index: int|
                    0 <= index < own_canvas.len() ==> #[trigger] own_canvas[index] == if in_rows(
                        index,
                        bounds,
                        w,
                        d,
                        bounds.1 as int,
                        y as int,
                    ) || start <= index < position {
                        shared_canvas[index]
                    } else {
                        before[index]
                    },
            decreases end - position,
        {
            own_canvas.set(position, shared_canvas[position]);
            position += 1;
        }
        proof {
            assert forall|index: int| 0 <= index < own_canvas.len() implies (in_rows(
                index,
                bounds,
                w,
                d,
                bounds.1 as int,
                y + 1,
            ) <==> in_rows(index, bounds, w, d, bounds.1 as int, y as int) || start <= index
                < end) by {
                if in_rows(index, bounds, w, d, bounds.1 as int, y + 1) {
                    let row = choose|row: int|
                        bounds.1 <= row < y + 1 && #[trigger] in_row(index, bounds, w, d, row);
                    if row < y {
                        assert(in_rows(index, bounds, w, d, bounds.1 as int, y as int));
                    }
                }
                if in_rows(index, bounds, w, d, bounds.1 as int, y as int) {
                    let row = choose|row: int|
                        bounds.1 <= row < y && #[trigger] in_row(index, bounds, w, d, row);
                    assert(in_row(index, bounds, w, d, row));
                }
                if start <= index < end {
                    assert(in_row(index, bounds, w, d, y as int));
                }
            }
        }
        y += 1;
    }
    proof {
        assert forall|index: int| 0 <= index < own_canvas.len() implies (in_rows(
            index,
            bounds,
            w,
            d,
            bounds.1 as int,
            y as int,
        ) <==> in_chunk(index, bounds, w, d)) by {
            if in_chunk(index, bounds, w, d) {
                let row = choose|row: int|
                    bounds.1 <= row < bounds.3 && #[trigger] in_row(index, bounds, w, d, row);
                assert(in_row(index, bounds, w, d, row));
            }
            if in_rows(index, bounds, w, d, bounds.1 as int, y as int) {
                let row = choose|row: int|
                    bounds.1 <= row < y && #[trigger] in_row(index, bounds, w, d, row);
                assert(in_row(index, bounds, w, d, row));
            }
        }
    }
}

} // verus!
