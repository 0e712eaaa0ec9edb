use dimers::auxiliary::{
    dense_square_config, dragon_config, large_square_config, mid_square_config, simple_colouring,
    simple_continuum_colouring, two_colouring, WorkingMessage, BLACK, WHITE,
};
use dimers::dihedral_translation::EvenD8Translation;
use dimers::auxiliary::{large_layout, TileSeed};
use dimers::dihedral_translation::OddD8TranslationSmall;
use dimers::fractal_specification::{
    coral, dibolt, heighway, hydra, levy, scorpion, FractalSpecification,
};
use dimers::interval_colouring::{ColourInterval, ColourKey};
use dimers::relevance_getter::{get_relevance_list, get_splitter_list, to_requirement_list};
use dimers::square::{draw_into_canvas, CropOutput, DrawEvent, SquareCut, UncroppedSquare};
use dimers::triangle::SplitterEntry;

fn key_text(key: &ColourKey) -> String {
    match key {
        ColourKey::Fixed(entry) => format!("{}", entry),
        ColourKey::Graded { gradient, numerator, denominator } => {
            format!("g{}:{}/{}", gradient, numerator, denominator)
        }
    }
}

fn keys_text(keys: &[ColourKey]) -> String {
    keys.iter().map(key_text).collect::<Vec<String>>().join(",")
}

fn event_text(event: &DrawEvent) -> String {
    match event {
        DrawEvent::Message(b, WorkingMessage::Begin) => {
            format!("B {} {} {} {}", b.0, b.1, b.2, b.3)
        }
        DrawEvent::Message(b, WorkingMessage::End) => format!("E {} {} {} {}", b.0, b.1, b.2, b.3),
        DrawEvent::Pixel { x, y, first, second } => {
            format!("P {} {} {}|{}", x, y, keys_text(first), keys_text(second))
        }
    }
}

fn texts(events: &[DrawEvent]) -> Vec<String> {
    events.iter().map(event_text).collect()
}

fn digest(lines: &[String]) -> u64 {
    let mut hash: u64 = 0xcbf29ce484222325;
    for line in lines {
        for byte in line.bytes().chain("\n".bytes()) {
            hash ^= byte as u64;
            hash = hash.wrapping_mul(0x100000001b3);
        }
    }
    hash
}

fn resolved<A, L>(
    fractal: &FractalSpecification<A, L>,
) -> (Vec<EvenD8Translation>, Vec<SplitterEntry>)
where
    A: Fn(EvenD8Translation) -> bool,
    L: Fn(isize, isize) -> TileSeed,
{
    let relevance = get_relevance_list(fractal, 1000).unwrap();
    let requirement = to_requirement_list(&relevance);
    let splitter = get_splitter_list(fractal, &requirement).unwrap();
    (requirement, splitter)
}

fn render<F, A, L>(
    fractal: &FractalSpecification<A, L>,
    colouring: &F,
    bounds: (isize, isize, isize, isize),
    origin: (isize, isize),
    scale: u32,
) -> Vec<DrawEvent>
where
    F: Fn(EvenD8Translation) -> ColourInterval,
    A: Fn(EvenD8Translation) -> bool,
    L: Fn(isize, isize) -> TileSeed,
{
    let (requirement, splitter) = resolved(fractal);
    draw_into_canvas(&requirement, bounds, origin, scale, fractal, colouring, &splitter)
}

fn is_paired(events: &[DrawEvent]) -> bool {
    let inside = |b: &(usize, usize, usize, usize), x: usize, y: usize| {
        b.0 <= x && x < b.2 && b.1 <= y && y < b.3
    };
    for (i, event) in events.iter().enumerate() {
        if let DrawEvent::Message(bounds, WorkingMessage::Begin) = event {
            let end = DrawEvent::Message(*bounds, WorkingMessage::End);
            let ends: Vec<usize> = (0..events.len()).filter(|j| events[*j] == end).collect();
            if ends.len() != 1 || ends[0] <= i {
                return false;
            }
            for (k, other) in events.iter().enumerate() {
                let between = i < k && k < ends[0];
                match other {
                    DrawEvent::Pixel { x, y, .. } => {
                        if between != inside(bounds, *x, *y) {
                            return false;
                        }
                    }
                    DrawEvent::Message(..) => {
                        if between {
                            return false;
                        }
                    }
                }
            }
        }
    }
    true
}

#[test]
fn dragon_in_two_colours_pixel_by_pixel() {
    let events = render(&heighway(), &two_colouring, (0, 0, 4, 3), (2, 1), 2);
    assert_eq!(
        texts(&events),
        vec![
            "P 0 0 0,0,0,0,0,0,3,0,0,3|0,0,3,0,0,3,0,3,0,0",
            "P 1 0 3,0,3,0,0,0,0,0,0,3|0,3,3,0,0,3,0,0,0,3",
            "P 2 0 0,0,0,3,0,3,3,3,3,0|0,0,0,0,3,0,3,3,0,0",
            "P 3 0 0,2,0,0,2,0,3,0,0,3|2,0,3,2,0,3,0,3,2,0",
            "P 0 1 0,0,0,0,0,0,0,0,0,0|0,0,0,0,0,3,0,0,3,0",
            "P 1 1 3,0,0,0,0,0,0,0,3,0|0,3,0,0,0,0,0,0,0,0",
            "P 0 2 0,0,0,0,0,0,0,0,0,0|0,0,0,0,0,0,0,0,0,0",
            "P 1 2 0,0,0,0,0,0,0,0,0,0|0,0,0,0,0,0,0,0,0,0",
            "P 2 1 0,0,0,3,0,0,0,0,0,0|0,0,0,0,3,0,0,0,0,0",
            "P 3 1 0,0,0,2,0,0,2,0,0,0|0,0,0,0,2,0,0,2,0,0",
            "P 2 2 0,0,0,0,0,0,0,0,0,0|0,0,0,0,0,0,0,0,0,0",
            "P 3 2 0,0,0,0,0,0,0,0,0,0|0,0,0,0,0,0,0,0,0,0",
        ]
    );
}

#[test]
fn levy_curve_in_a_gradient_pixel_by_pixel() {
    let events = render(
        &levy(),
        &simple_continuum_colouring,
        (0, 0, 3, 2),
        (1, 1),
        3,
    );
    assert_eq!(
        texts(&events),
        vec![
            "P 0 0 0,0,0,0,0,0,0,0,g0:65/128,0,0,0,0,0,g0:63/128|0,0,0,0,0,0,0,0,0,0,g0:65/128,g0:63/128,0,0,0",
            "P 1 0 0,0,0,0,0,0,0,0,0,g0:63/128,g0:67/128,0,g0:65/128,0,0|0,0,0,0,0,0,0,g0:63/128,g0:67/128,0,0,0,0,g0:65/128,0",
            "P 2 0 0,0,g0:65/128,0,0,0,g0:67/128,0,0,0,0,0,0,0,0|0,0,0,g0:67/128,0,g0:65/128,0,0,0,0,0,0,0,0,0",
            "P 0 1 0,0,0,0,0,0,g0:65/128,0,0,0,0,0,g0:63/128,0,g0:61/128|0,0,0,g0:65/128,0,0,0,0,0,0,0,g0:61/128,0,g0:63/128,0",
            "P 1 1 0,g0:65/128,g0:63/128,0,0,0,0,0,0,0,0,0,0,0,0|g0:65/128,0,0,0,0,g0:63/128,0,0,0,0,0,0,0,0,0",
            "P 2 1 0,0,0,0,g0:65/128,0,0,0,0,0,0,0,0,0,0|0,0,0,0,0,0,0,0,0,0,0,0,0,0,0",
        ]
    );
}

#[test]
fn hydra_with_one_tile_white() {
    let events = render(
        &hydra(),
        &simple_colouring,
        (0, 0, 40, 20),
        (20, 10),
        4,
    );
    let lines = texts(&events);
    assert_eq!(lines.len(), 816);
    assert_eq!(lines.iter().filter(|l| l.starts_with('P')).count(), 800);
    assert_eq!(lines.iter().filter(|l| l.starts_with('B')).count(), 8);
    assert_eq!(lines.iter().filter(|l| l.starts_with('E')).count(), 8);
    assert_eq!(lines[0], "B 0 0 4 10");
    assert_eq!(lines[lines.len() - 1], "E 36 10 40 20");
    assert_eq!(digest(&lines), 0x75e278c38e5e630a);
    assert!(is_paired(&events));
}

#[test]
fn scorpion_cropped_inside_its_tiles() {
    let events = render(
        &scorpion(),
        &two_colouring,
        (0, 0, 33, 17),
        (5, 3),
        5,
    );
    let lines = texts(&events);
    assert_eq!(lines.len(), 573);
    assert_eq!(lines.iter().filter(|l| l.starts_with('P')).count(), 561);
    assert_eq!(lines.iter().filter(|l| l.starts_with('B')).count(), 6);
    assert_eq!(lines.iter().filter(|l| l.starts_with('E')).count(), 6);
    assert_eq!(lines[0], "B 0 0 5 3");
    assert_eq!(lines[lines.len() - 1], "E 21 3 33 17");
    assert_eq!(digest(&lines), 0x0eb94b4b183af9f6);
    assert!(is_paired(&events));
}

#[test]
fn coral_off_the_chunk_size() {
    let events = render(
        &coral(),
        &two_colouring,
        (3, 2, 21, 19),
        (8, 8),
        3,
    );
    let lines = texts(&events);
    assert_eq!(lines.len(), 306);
    assert_eq!(lines.iter().filter(|l| l.starts_with('P')).count(), 306);
    assert_eq!(lines.iter().filter(|l| l.starts_with('B')).count(), 0);
    assert_eq!(lines.iter().filter(|l| l.starts_with('E')).count(), 0);
    assert_eq!(lines[0], "P 3 2 0,0,0,0,0,0,0,0,0,0,0,0,0,0,0,0,3,0,0,0,0,0,0,0,0,0,0,0,0,0,0|3,0,0,0,0,0,0,0,0,0,0,0,0,0,0,0,0,0,0,0,0,0,0,0,0,0,0,0,0,0,0");
    assert_eq!(lines[lines.len() - 1], "P 20 18 0,0,0,0,0,0,0,0,0,0,0,0,0,0,0,0,0,0,0,0,0,0,0,0,0,0,0,0,0,0,0|0,0,0,0,0,0,0,0,0,0,0,0,0,0,0,0,0,0,0,0,0,0,0,0,0,0,0,0,0,0,0");
    assert_eq!(digest(&lines), 0xecc1f6f9bcf8ff4e);
    assert!(is_paired(&events));
}

#[test]
fn dibolt_of_one_chunk() {
    let events = render(
        &dibolt(),
        &simple_continuum_colouring,
        (0, 0, 16, 16),
        (0, 0),
        4,
    );
    let lines = texts(&events);
    assert_eq!(lines.len(), 258);
    assert_eq!(lines.iter().filter(|l| l.starts_with('P')).count(), 256);
    assert_eq!(lines.iter().filter(|l| l.starts_with('B')).count(), 1);
    assert_eq!(lines.iter().filter(|l| l.starts_with('E')).count(), 1);
    assert_eq!(lines[0], "B 0 0 16 16");
    assert_eq!(lines[lines.len() - 1], "E 0 0 16 16");
    assert_eq!(digest(&lines), 0x92b07c06266e9d72);
    assert!(is_paired(&events));
}

#[test]
fn levy_curve_across_tiles() {
    let events = render(
        &levy(),
        &two_colouring,
        (1, 1, 30, 18),
        (16, 9),
        4,
    );
    let lines = texts(&events);
    assert_eq!(lines.len(), 501);
    assert_eq!(lines.iter().filter(|l| l.starts_with('P')).count(), 493);
    assert_eq!(lines.iter().filter(|l| l.starts_with('B')).count(), 4);
    assert_eq!(lines.iter().filter(|l| l.starts_with('E')).count(), 4);
    assert_eq!(lines[0], "B 1 1 16 9");
    assert_eq!(lines[lines.len() - 1], "E 16 9 30 18");
    assert_eq!(digest(&lines), 0x04cdf95f229e691d);
    assert!(is_paired(&events));
}

#[test]
fn dragon_in_a_gradient_below_its_tile() {
    let events = render(
        &heighway(),
        &simple_continuum_colouring,
        (0, 0, 24, 24),
        (12, 12),
        5,
    );
    let lines = texts(&events);
    assert_eq!(lines.len(), 584);
    assert_eq!(lines.iter().filter(|l| l.starts_with('P')).count(), 576);
    assert_eq!(lines.iter().filter(|l| l.starts_with('B')).count(), 4);
    assert_eq!(lines.iter().filter(|l| l.starts_with('E')).count(), 4);
    assert_eq!(lines[0], "B 0 0 12 12");
    assert_eq!(lines[lines.len() - 1], "E 12 12 24 24");
    assert_eq!(digest(&lines), 0x64f72e2c6cd7e72c);
    assert!(is_paired(&events));
}

#[test]
fn every_pixel_of_the_viewport_is_written_once() {
    let bounds = (2, 1, 37, 23);
    let events = render(&hydra(), &simple_colouring, bounds, (17, 11), 3);
    let mut seen = vec![0u8; 40 * 30];
    for event in &events {
        match event {
            DrawEvent::Pixel { x, y, first, second } => {
                assert!(2 <= *x && *x < 37 && 1 <= *y && *y < 23);
                assert_eq!(first.len(), 42);
                assert_eq!(second.len(), 42);
                seen[y * 40 + x] += 1;
            }
            DrawEvent::Message(..) => panic!("a square of the side eight is no chunk"),
        }
    }
    for y in 0..30 {
        for x in 0..40 {
            let inside = 2 <= x && x < 37 && 1 <= y && y < 23;
            assert_eq!(seen[y * 40 + x], if inside { 1 } else { 0 });
        }
    }
}

#[test]
fn viewport_of_two_by_two_shows_the_identity_tile_as_the_uncropped_square_does() {
    let only_identity = |t: EvenD8Translation| t == EvenD8Translation::identity();
    let fractal = FractalSpecification::new(
        (
            OddD8TranslationSmall::new(false, 3, (1, 0)),
            OddD8TranslationSmall::new(true, 0, (-1, 0)),
        ),
        (
            OddD8TranslationSmall::new(true, 2, (1, 0)),
            OddD8TranslationSmall::new(false, 2, (0, 1)),
        ),
        only_identity,
        large_layout,
        (false, false),
    )
    .unwrap();
    assert!(fractal.acceptable(EvenD8Translation::identity()));
    assert!(!fractal.acceptable(EvenD8Translation::new(true, 3, (0, 0))));
    let requirement = vec![EvenD8Translation::identity()];
    let splitter: Vec<SplitterEntry> = vec![((0, false), (0, true))];
    let events = draw_into_canvas(
        &requirement,
        (0, 0, 2, 2),
        (0, 0),
        1,
        &fractal,
        &simple_colouring,
        &splitter,
    );
    assert_eq!(
        texts(&events),
        vec![
            "P 0 0 0|1",
            "P 1 0 1|1",
            "P 0 1 0|0",
            "P 1 1 0|1",
        ]
    );
    let brightness = |keys: &Vec<ColourKey>| -> f64 {
        assert_eq!(keys.len(), 1);
        if keys[0] == ColourKey::Fixed(WHITE) {
            1.0
        } else {
            assert_eq!(keys[0], ColourKey::Fixed(BLACK));
            0.0
        }
    };
    let mut blended = Vec::new();
    for event in &events {
        match event {
            DrawEvent::Pixel { first, second, .. } => {
                blended.push((brightness(first) + brightness(second)) / 2.0);
            }
            DrawEvent::Message(..) => panic!("a square of the side two is no chunk"),
        }
    }
    assert_eq!(blended, vec![0.5, 1.0, 0.0, 0.5]);
    let cut = fractal.get_square_config(0, 0, &requirement, &simple_colouring);
    let mut uncropped = Vec::new();
    UncroppedSquare::new(0, 0, 2, cut).draw(&splitter, fractal.get_splitting_type(), &mut uncropped);
    assert_eq!(events, uncropped);
    let larger = draw_into_canvas(
        &requirement,
        (0, 0, 4, 4),
        (0, 0),
        1,
        &fractal,
        &simple_colouring,
        &splitter,
    );
    assert_eq!(
        texts(&larger),
        vec![
            "P 0 0 0|1",
            "P 1 0 1|1",
            "P 0 1 0|0",
            "P 1 1 0|1",
            "P 2 0 0|0",
            "P 3 0 0|0",
            "P 2 1 0|0",
            "P 3 1 0|0",
            "P 0 2 0|0",
            "P 1 2 0|0",
            "P 0 3 0|0",
            "P 1 3 0|0",
            "P 2 2 0|0",
            "P 3 2 0|0",
            "P 2 3 0|0",
            "P 3 3 0|0",
        ]
    );
    for event in &events {
        assert_eq!(larger.iter().filter(|other| *other == event).count(), 1);
    }
    let beside = draw_into_canvas(
        &requirement,
        (2, 0, 4, 2),
        (0, 0),
        1,
        &fractal,
        &simple_colouring,
        &splitter,
    );
    assert_eq!(
        texts(&beside),
        vec![
            "P 2 0 0|0",
            "P 3 0 0|0",
            "P 2 1 0|0",
            "P 3 1 0|0",
        ]
    );
}

fn hydra_square(x: isize, y: isize, sidelength: isize) -> (UncroppedSquare, Vec<SplitterEntry>) {
    let fractal = hydra();
    let (requirement, splitter) = resolved(&fractal);
    let cut = dense_square_config(0, 0, &requirement, &two_colouring);
    (UncroppedSquare::new(x, y, sidelength, cut), splitter)
}

#[test]
fn square_outside_the_viewport_draws_nothing() {
    for bounds in [(0, 0, 4, 8), (8, 0, 12, 12), (0, 0, 12, 4), (0, 8, 12, 12)] {
        let (square, splitter) = hydra_square(4, 4, 4);
        let cropped = square.crop(bounds);
        assert!(matches!(cropped, CropOutput::Empty));
        let mut events = Vec::new();
        cropped.draw(&splitter, (false, false), &mut events);
        assert_eq!(events, vec![]);
    }
}

#[test]
fn square_inside_the_viewport_is_unaffected() {
    let (square, splitter) = hydra_square(4, 4, 4);
    let (same, _) = hydra_square(4, 4, 4);
    let cropped = square.crop((4, 4, 8, 8));
    assert!(matches!(cropped, CropOutput::Unaffected(_)));
    let mut events = Vec::new();
    cropped.draw(&splitter, (false, false), &mut events);
    let mut uncropped = Vec::new();
    same.draw(&splitter, (false, false), &mut uncropped);
    assert_eq!(events, uncropped);
    assert_eq!(events.len(), 16);
}

#[test]
fn square_across_the_edge_draws_the_intersection_only() {
    let (square, splitter) = hydra_square(4, 4, 4);
    let cropped = square.crop((6, 5, 20, 7));
    assert!(matches!(cropped, CropOutput::Cropped(_, (6, 5, 20, 7))));
    let mut events = Vec::new();
    cropped.draw(&splitter, (false, false), &mut events);
    assert_eq!(
        texts(&events),
        vec![
            "P 6 5 3,0,0,0,0,0,0,0,0,0,0,0,0,0,0,0,0,0,0,3,0,0,0,3,0,0,0,0,0,0,0,0,0,0,0,0,0,0,0,0,0,0|0,0,0,0,0,0,0,0,0,3,0,3,0,0,0,0,0,0,0,0,0,3,0,0,0,0,0,0,0,0,0,0,0,0,0,0,0,0,0,0,0,0",
            "P 7 5 0,0,0,0,0,3,0,3,0,0,0,0,0,0,0,0,0,0,0,0,0,0,0,0,0,0,0,0,0,0,0,0,0,0,0,0,0,0,0,0,0,0|0,3,0,3,0,0,0,0,0,0,0,0,0,0,0,0,0,0,0,0,0,0,0,0,0,0,0,0,0,0,0,0,0,0,0,0,0,0,0,0,0,0",
            "P 6 6 0,0,0,0,0,0,0,0,0,0,0,0,0,0,0,0,0,0,0,0,3,0,0,0,0,0,3,0,3,0,0,0,0,0,0,0,0,0,0,0,0,0|0,0,0,0,0,0,0,0,0,0,0,0,0,0,0,0,0,0,0,0,0,0,3,0,0,0,0,3,0,3,0,0,0,0,0,0,0,0,3,0,0,0",
            "P 7 6 0,0,0,0,0,0,0,0,0,0,0,0,0,0,0,0,0,0,0,3,0,0,0,0,0,0,0,0,0,0,0,0,0,0,0,0,0,3,0,3,0,0|0,0,0,0,0,0,0,0,0,0,0,0,0,0,0,0,0,0,0,0,0,3,0,0,0,0,0,0,0,0,0,0,0,0,0,0,3,0,0,0,3,0",
        ]
    );
}

#[test]
fn cropped_chunk_announces_its_clipped_bounds() {
    let (square, splitter) = hydra_square(16, 0, 16);
    let mut events = Vec::new();
    square.crop((10, 3, 18, 5)).draw(&splitter, (false, false), &mut events);
    let lines = texts(&events);
    assert_eq!(lines.len(), 6);
    assert_eq!(lines[0], "B 16 3 18 5");
    assert_eq!(lines[1], "P 16 3 0,0,0,0,0,0,0,0,0,2,0,0,0,0,0,0,0,0,0,0,0,0,0,0,0,0,0,0,0,0,0,0,0,0,0,0,0,0,0,0,0,0|0,0,0,0,0,0,0,0,0,0,0,0,0,0,0,0,0,0,0,0,0,0,0,2,0,0,0,0,0,0,0,0,0,0,0,0,0,0,0,0,0,0");
    assert_eq!(lines[lines.len() - 1], "E 16 3 18 5");
    assert_eq!(digest(&lines), 0xbe0ca4dec718da40);
    assert!(is_paired(&events));
}

#[test]
fn square_splits_into_quarters_by_the_table() {
    let fractal = levy();
    let (requirement, splitter) = resolved(&fractal);
    let cut = mid_square_config(1, 0, &requirement, &two_colouring);
    assert!(matches!(cut, SquareCut::Backslash(_, _)));
    let square = UncroppedSquare::new(10, 20, 2, cut);
    let (tl, tr, bl, br) = square.split(&splitter, fractal.get_splitting_type());
    let mut lines = Vec::new();
    for quarter in [tl, tr, bl, br] {
        let mut events = Vec::new();
        quarter.draw(&splitter, fractal.get_splitting_type(), &mut events);
        lines.extend(texts(&events));
    }
    assert_eq!(
        lines,
        vec![
            "P 10 20 0,0,0,0,0,0,2,0,0,0,0,0,0,0,0|0,0,0,2,0,0,0,0,0,0,0,0,0,0,0",
            "P 11 20 0,0,0,0,0,0,0,0,0,0,0,0,0,0,0|0,0,0,0,0,0,0,0,0,0,0,0,0,0,0",
            "P 10 21 0,0,0,0,0,0,0,0,0,0,0,0,0,0,0|0,0,0,0,0,0,0,0,0,0,0,0,0,0,0",
            "P 11 21 0,0,0,0,0,0,0,0,0,0,0,0,0,0,0|0,0,0,0,0,0,0,0,0,0,0,0,0,0,0",
        ]
    );
    let cut = mid_square_config(1, 0, &requirement, &two_colouring);
    let (tl, tr, bl, br) = cut.split(&splitter, fractal.get_splitting_type());
    assert!(matches!(tl, SquareCut::Backslash(_, _)));
    assert!(matches!(tr, SquareCut::Slash(_, _)));
    assert!(matches!(bl, SquareCut::Slash(_, _)));
    assert!(matches!(br, SquareCut::Backslash(_, _)));
}

fn cut_text(cut: &SquareCut) -> String {
    let (name, first, second) = match cut {
        SquareCut::Slash(first, second) => ("slash", first, second),
        SquareCut::Backslash(first, second) => ("back", first, second),
    };
    format!(
        "{} {}{}|{}{}",
        name,
        keys_text(&first.0.get_colours()),
        if first.1 { "+" } else { "-" },
        keys_text(&second.0.get_colours()),
        if second.1 { "+" } else { "-" }
    )
}

fn placement_code(t: EvenD8Translation) -> ColourInterval {
    let (x, y) = t.get_translation();
    let dihedral = t.get_dihedral();
    let turn = dihedral.rot() as isize + if dihedral.flipped() { 4 } else { 0 };
    let code = turn * 10000 + (x + 50) * 100 + (y + 50);
    ColourInterval::Constant(dimers::interval_colouring::ConstantInterval::from(ColourKey::Fixed(
        code as usize,
    )))
}

#[test]
fn layouts_place_their_triangles() {
    let requirement = vec![EvenD8Translation::identity()];
    assert_eq!(
        cut_text(&dense_square_config(0, 0, &requirement, &placement_code)),
        "back 35050-|45050+"
    );
    assert_eq!(
        cut_text(&dense_square_config(0, 1, &requirement, &placement_code)),
        "slash 55048+|5048-"
    );
    assert_eq!(
        cut_text(&dense_square_config(1, 0, &requirement, &placement_code)),
        "slash 25250-|75250+"
    );
    assert_eq!(
        cut_text(&dense_square_config(1, 1, &requirement, &placement_code)),
        "back 65248+|15248-"
    );
    assert_eq!(
        cut_text(&dense_square_config(-1, -2, &requirement, &placement_code)),
        "slash 25052-|75052+"
    );
    assert_eq!(
        cut_text(&dense_square_config(2, -3, &requirement, &placement_code)),
        "slash 55252+|5252-"
    );
    assert_eq!(
        cut_text(&mid_square_config(0, 0, &requirement, &placement_code)),
        "slash 35050-|15048-"
    );
    assert_eq!(
        cut_text(&mid_square_config(0, 1, &requirement, &placement_code)),
        "back 4848-|25048-"
    );
    assert_eq!(
        cut_text(&mid_square_config(1, 0, &requirement, &placement_code)),
        "back 5048-|25248-"
    );
    assert_eq!(
        cut_text(&mid_square_config(1, 1, &requirement, &placement_code)),
        "slash 35048-|15046-"
    );
    assert_eq!(
        cut_text(&mid_square_config(-1, -2, &requirement, &placement_code)),
        "back 5052-|25252-"
    );
    assert_eq!(
        cut_text(&mid_square_config(2, -3, &requirement, &placement_code)),
        "back 5450-|25650-"
    );
    assert_eq!(
        cut_text(&large_square_config(0, 0, &requirement, &placement_code)),
        "back 75050-|5050+"
    );
    assert_eq!(
        cut_text(&large_square_config(0, 1, &requirement, &placement_code)),
        "slash 15048+|45048-"
    );
    assert_eq!(
        cut_text(&large_square_config(1, 0, &requirement, &placement_code)),
        "slash 65250-|35250+"
    );
    assert_eq!(
        cut_text(&large_square_config(1, 1, &requirement, &placement_code)),
        "back 25248+|55248-"
    );
    assert_eq!(
        cut_text(&large_square_config(-1, -2, &requirement, &placement_code)),
        "slash 64854-|34854+"
    );
    assert_eq!(
        cut_text(&large_square_config(2, -3, &requirement, &placement_code)),
        "slash 15456+|45456-"
    );
    assert_eq!(
        cut_text(&dragon_config(0, 0, &requirement, &placement_code)),
        "back 35048-|15248-"
    );
    assert_eq!(
        cut_text(&dragon_config(0, 1, &requirement, &placement_code)),
        "slash 25246-|5244-"
    );
    assert_eq!(
        cut_text(&dragon_config(1, 0, &requirement, &placement_code)),
        "slash 25450-|5448-"
    );
    assert_eq!(
        cut_text(&dragon_config(1, 1, &requirement, &placement_code)),
        "back 35446-|15646-"
    );
    assert_eq!(
        cut_text(&dragon_config(-1, -2, &requirement, &placement_code)),
        "slash 24654-|4652-"
    );
    assert_eq!(
        cut_text(&dragon_config(2, -3, &requirement, &placement_code)),
        "slash 25460-|5458-"
    );
}
