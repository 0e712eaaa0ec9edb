use dimers::auxiliary::{simple_colouring, two_colouring};
use dimers::fractal_specification::{coral, heighway, hydra, levy, scorpion};
use dimers::fractal_worker::{RenderSession, StartError};
use dimers::relevance_getter::{
    get_relevance_list, get_splitter_list, get_weight_images, resolve, to_requirement_list,
    ResolveError,
};
use dimers::square::{draw_into_canvas, DrawEvent, MAX_CANVAS, MAX_SCALE};

#[test]
fn session_resolves_the_grammar_once() {
    let fractal = levy();
    let session = RenderSession::start(levy(), 40, 30, 3, 100).unwrap();
    assert_eq!(session.get_size(), (40, 30));
    assert_eq!(session.get_scale(), 3);
    let relevance = get_relevance_list(&fractal, 100).unwrap();
    let requirement = to_requirement_list(&relevance);
    let resolution = session.get_resolution();
    assert_eq!(resolution, &resolve(&fractal, 100).unwrap());
    assert_eq!(resolution.weight_images, get_weight_images(&fractal, &relevance).unwrap());
    assert_eq!(resolution.splitter_list, get_splitter_list(&fractal, &requirement).unwrap());
    assert_eq!(resolution.requirement_list, requirement);
    assert_eq!(resolution.relevance_list, relevance);
    assert_eq!(resolution.weight_images.len(), 15);
}

#[test]
fn resolution_fails_with_the_first_failure() {
    assert_eq!(resolve(&hydra(), 41), Err(ResolveError::LimitExceeded));
    assert_eq!(resolve(&hydra(), 0), Err(ResolveError::LimitExceeded));
    assert!(resolve(&scorpion(), 16).is_ok());
}

#[test]
fn session_refuses_what_it_cannot_draw() {
    let too_wide = RenderSession::start(hydra(), MAX_CANVAS as usize + 1, 10, 3, 100);
    assert_eq!(too_wide.err(), Some(StartError::CanvasTooLarge));
    let too_high = RenderSession::start(hydra(), 10, MAX_CANVAS as usize + 1, 3, 100);
    assert_eq!(too_high.err(), Some(StartError::CanvasTooLarge));
    let too_coarse = RenderSession::start(hydra(), 10, 10, MAX_SCALE + 1, 100);
    assert_eq!(too_coarse.err(), Some(StartError::CanvasTooLarge));
    let too_many = RenderSession::start(hydra(), 10, 10, 3, 41);
    assert_eq!(too_many.err(), Some(StartError::Unresolved(ResolveError::LimitExceeded)));
    assert!(RenderSession::start(hydra(), 10, 10, 3, 42).is_ok());
    assert!(RenderSession::start(hydra(), MAX_CANVAS as usize, 0, MAX_SCALE, 42).is_ok());
}

#[test]
fn session_draws_the_canvas_around_its_middle() {
    let fractal = heighway();
    let session = RenderSession::start(heighway(), 21, 13, 3, 100).unwrap();
    let relevance = get_relevance_list(&fractal, 100).unwrap();
    let requirement = to_requirement_list(&relevance);
    let splitter = get_splitter_list(&fractal, &requirement).unwrap();
    let direct = draw_into_canvas(
        &requirement,
        (0, 0, 21, 13),
        (10, 6),
        3,
        &fractal,
        &two_colouring,
        &splitter,
    );
    assert_eq!(session.draw(&two_colouring), direct);
    assert_eq!(session.draw_in_two_colours(), direct);
    assert_eq!(direct.len(), 21 * 13);
    assert_ne!(session.draw(&simple_colouring), direct);
}

#[test]
fn rows_of_coarsest_squares_add_up_to_the_canvas() {
    let session = RenderSession::start(coral(), 37, 45, 4, 100).unwrap();
    let whole = session.draw(&two_colouring);
    let mut by_rows = Vec::new();
    for (top, bottom) in [(0, 6), (6, 22), (22, 38), (38, 45)] {
        by_rows.extend(session.draw_rows(&two_colouring, top, bottom));
    }
    assert_eq!(by_rows, whole);
    let no_rows = session.draw_rows(&two_colouring, 5, 5);
    assert!(no_rows.iter().all(|event| matches!(event, DrawEvent::Message(..))));
}

#[test]
fn bands_end_where_chunks_start() {
    let session = RenderSession::start(hydra(), 37, 45, 4, 100).unwrap();
    let mut tops = vec![0];
    while *tops.last().unwrap() < 45 {
        let top = *tops.last().unwrap();
        tops.push(session.next_band(top));
    }
    assert_eq!(tops, vec![0, 6, 22, 38, 45]);
    assert_eq!(session.next_band(7), 22);
    assert_eq!(session.next_band(21), 22);
    assert_eq!(session.next_band(44), 45);
    let whole = session.draw(&two_colouring);
    let mut by_bands = Vec::new();
    for band in tops.windows(2) {
        by_bands.extend(session.draw_rows(&two_colouring, band[0], band[1]));
    }
    let mut whole_pixels: Vec<String> = whole
        .iter()
        .filter(|event| matches!(event, DrawEvent::Pixel { .. }))
        .map(|event| format!("{:?}", event))
        .collect();
    let mut band_pixels: Vec<String> = by_bands
        .iter()
        .filter(|event| matches!(event, DrawEvent::Pixel { .. }))
        .map(|event| format!("{:?}", event))
        .collect();
    whole_pixels.sort();
    band_pixels.sort();
    assert_eq!(whole_pixels, band_pixels);
    let mut whole_messages: Vec<String> = whole
        .iter()
        .filter(|event| matches!(event, DrawEvent::Message(..)))
        .map(|event| format!("{:?}", event))
        .collect();
    let mut band_messages: Vec<String> = by_bands
        .iter()
        .filter(|event| matches!(event, DrawEvent::Message(..)))
        .map(|event| format!("{:?}", event))
        .collect();
    whole_messages.sort();
    band_messages.sort();
    assert_eq!(whole_messages, band_messages);
}
