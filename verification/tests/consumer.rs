use dimers::auxiliary::{WorkingMessage, WorkingState};
use dimers::canvas::{buffer_position, canvas_size, copy_region, ChunkTracker, PixelFormat};

#[test]
fn formats_have_their_depths() {
    assert_eq!(PixelFormat::Grayscale.bytes_per_pixel(), 1);
    assert_eq!(PixelFormat::Rgb.bytes_per_pixel(), 3);
    assert_eq!(PixelFormat::RgbaSeparate.bytes_per_pixel(), 4);
    assert_eq!(PixelFormat::RgbaPremul.bytes_per_pixel(), 4);
}

#[test]
fn canvas_size_is_depth_times_area() {
    assert_eq!(canvas_size(PixelFormat::RgbaSeparate, 960, 540), Some(2073600));
    assert_eq!(canvas_size(PixelFormat::Rgb, 7, 5), Some(105));
    assert_eq!(canvas_size(PixelFormat::Grayscale, 0, 5), Some(0));
    assert_eq!(canvas_size(PixelFormat::Rgb, usize::MAX, 0), Some(0));
    assert_eq!(canvas_size(PixelFormat::Rgb, usize::MAX, 1), None);
    assert_eq!(canvas_size(PixelFormat::Grayscale, usize::MAX, 2), None);
    assert_eq!(canvas_size(PixelFormat::Grayscale, usize::MAX, 1), Some(usize::MAX));
}

#[test]
fn buffer_position_counts_rows_then_columns_then_bytes() {
    assert_eq!(buffer_position(PixelFormat::Grayscale, 10, 3, 2), Some(23));
    assert_eq!(buffer_position(PixelFormat::Rgb, 10, 3, 2), Some(69));
    assert_eq!(buffer_position(PixelFormat::RgbaSeparate, 960, 959, 539), Some(2073596));
    assert_eq!(buffer_position(PixelFormat::RgbaPremul, 10, 0, 0), Some(0));
    assert_eq!(buffer_position(PixelFormat::Grayscale, usize::MAX, 0, 2), None);
    assert_eq!(buffer_position(PixelFormat::Grayscale, 1, usize::MAX, 1), None);
    assert_eq!(buffer_position(PixelFormat::Rgb, 1, usize::MAX / 2, 0), None);
    assert_eq!(buffer_position(PixelFormat::Grayscale, 1, usize::MAX - 1, 0), Some(usize::MAX - 1));
    assert_eq!(buffer_position(PixelFormat::Grayscale, 1, usize::MAX, 0), None);
}

#[test]
fn tracker_keeps_each_chunk_once_until_it_is_retired() {
    let mut tracker = ChunkTracker::new();
    assert_eq!(tracker.chunks_to_copy(), vec![]);
    tracker.receive((0, 0, 16, 16), WorkingMessage::Begin);
    tracker.receive((16, 0, 32, 16), WorkingMessage::Begin);
    assert_eq!(tracker.chunks_to_copy(), vec![(0, 0, 16, 16), (16, 0, 32, 16)]);
    tracker.receive((0, 0, 16, 16), WorkingMessage::End);
    assert_eq!(tracker.chunks_to_copy(), vec![(0, 0, 16, 16), (16, 0, 32, 16)]);
    tracker.retire_finished();
    assert_eq!(tracker.chunks_to_copy(), vec![(16, 0, 32, 16)]);
    tracker.receive((32, 0, 48, 16), WorkingMessage::End);
    tracker.receive((16, 0, 32, 16), WorkingMessage::Begin);
    assert_eq!(tracker.chunks_to_copy(), vec![(16, 0, 32, 16), (32, 0, 48, 16)]);
    tracker.retire_finished();
    tracker.receive((16, 0, 32, 16), WorkingMessage::End);
    tracker.retire_finished();
    assert_eq!(tracker.chunks_to_copy(), vec![]);
    assert_ne!(WorkingState::Working, WorkingState::Finished);
}

#[test]
fn copy_region_copies_the_chunk_and_nothing_else() {
    let width = 5;
    let height = 4;
    let depth = 3;
    let shared: Vec<u8> = (0..(width * height * depth) as u8).map(|byte| byte + 100).collect();
    let mut own: Vec<u8> = vec![7; width * height * depth];
    copy_region(&mut own, &shared, (1, 1, 4, 3), width, depth);
    for y in 0..height {
        for x in 0..width {
            for byte in 0..depth {
                let position = (y * width + x) * depth + byte;
                let inside = 1 <= x && x < 4 && 1 <= y && y < 3;
                assert_eq!(own[position], if inside { shared[position] } else { 7 });
            }
        }
    }
    let mut untouched: Vec<u8> = vec![7; width * height * depth];
    copy_region(&mut untouched, &shared, (2, 2, 2, 4), width, depth);
    copy_region(&mut untouched, &shared, (0, 3, 5, 3), width, depth);
    copy_region(&mut untouched, &shared, (0, 0, 5, 4), width, 0);
    assert_eq!(untouched, vec![7; width * height * depth]);
    copy_region(&mut untouched, &shared, (0, 0, 5, 4), width, depth);
    assert_eq!(untouched, shared);
}
