use dimers::auxiliary::{
    dense_layout, dragon_acceptable, dragon_layout, even_coordinates, large_layout, mid_layout,
    outer_squares_around, TileSeed,
};
use dimers::dihedral_translation::{EvenD8Translation, OddD8TranslationSmall};
use dimers::fractal_specification::{
    coral, dibolt, heighway, hydra, levy, scorpion, FractalSpecification, MAX_REACH,
};
use dimers::relevance_getter::{
    find_last, get_relevance_list, get_splitter_list, get_weight_equations, get_weight_images,
    to_requirement_list, ResolveError,
};

const SIZES: [usize; 6] = [31, 42, 20, 15, 16, 10];

fn heighway_relevance() -> Vec<EvenD8Translation> {
    vec![
        EvenD8Translation::new(false, 0, (0, 0)),
        EvenD8Translation::new(false, 2, (0, 2)),
        EvenD8Translation::new(false, 1, (2, -2)),
        EvenD8Translation::new(false, 1, (-2, 0)),
        EvenD8Translation::new(false, 3, (-4, 0)),
        EvenD8Translation::new(false, 2, (4, 0)),
        EvenD8Translation::new(false, 2, (-2, -2)),
        EvenD8Translation::new(false, 0, (-2, -4)),
        EvenD8Translation::new(false, 3, (2, 2)),
        EvenD8Translation::new(false, 3, (0, -2)),
    ]
}

fn levy_relevance() -> Vec<EvenD8Translation> {
    vec![
        EvenD8Translation::new(false, 0, (0, 0)),
        EvenD8Translation::new(false, 2, (2, 0)),
        EvenD8Translation::new(false, 2, (0, 0)),
        EvenD8Translation::new(false, 3, (2, 0)),
        EvenD8Translation::new(false, 1, (0, 0)),
        EvenD8Translation::new(false, 0, (-2, 0)),
        EvenD8Translation::new(false, 1, (2, -2)),
        EvenD8Translation::new(false, 3, (-2, 0)),
        EvenD8Translation::new(false, 2, (2, -2)),
        EvenD8Translation::new(false, 1, (-2, -2)),
        EvenD8Translation::new(false, 0, (0, -2)),
        EvenD8Translation::new(false, 0, (-2, -2)),
        EvenD8Translation::new(false, 1, (0, -2)),
        EvenD8Translation::new(false, 3, (0, 0)),
        EvenD8Translation::new(false, 2, (0, -2)),
    ]
}

fn check_relevance<A, L>(fractal: FractalSpecification<A, L>, size: usize)
where
    A: Fn(EvenD8Translation) -> bool,
    L: Fn(isize, isize) -> TileSeed,
{
    let list = get_relevance_list(&fractal, 1000).unwrap();
    assert_eq!(list.len(), size);
    assert_eq!(list[0], EvenD8Translation::identity());
    for i in 0..list.len() {
        for j in 0..i {
            assert_ne!(list[i], list[j]);
        }
    }
}

#[test]
fn relevance_list_starts_with_identity_and_has_no_duplicates() {
    check_relevance(coral(), SIZES[0]);
    check_relevance(hydra(), SIZES[1]);
    check_relevance(dibolt(), SIZES[2]);
    check_relevance(levy(), SIZES[3]);
    check_relevance(scorpion(), SIZES[4]);
    check_relevance(heighway(), SIZES[5]);
}

#[test]
fn relevance_list_comes_in_the_order_of_discovery() {
    assert_eq!(
        get_relevance_list(&heighway(), 1000).unwrap(),
        heighway_relevance()
    );
    assert_eq!(get_relevance_list(&levy(), 15).unwrap(), levy_relevance());
}

#[test]
fn relevance_search_gives_up_at_the_limit() {
    let hydra = hydra();
    assert_eq!(get_relevance_list(&hydra, 0), Err(ResolveError::LimitExceeded));
    assert_eq!(get_relevance_list(&hydra, 1), Err(ResolveError::LimitExceeded));
    assert_eq!(get_relevance_list(&hydra, 41), Err(ResolveError::LimitExceeded));
    assert_eq!(get_relevance_list(&hydra, 42).unwrap().len(), 42);
    let runaway = FractalSpecification::new(
        (OddD8TranslationSmall::new(true, 0, (0, 2)), OddD8TranslationSmall::new(false, 0, (-2, -2))),
        (OddD8TranslationSmall::new(true, 2, (1, 1)), OddD8TranslationSmall::new(false, 0, (2, 0))),
        even_coordinates,
        dense_layout,
        (false, false),
    )
    .unwrap();
    assert_eq!(get_relevance_list(&runaway, 50), Err(ResolveError::LimitExceeded));
}

#[test]
fn relevance_search_reports_a_product_off_the_lattice() {
    let mismatched = FractalSpecification::new(
        (OddD8TranslationSmall::new(false, 0, (0, -2)), OddD8TranslationSmall::new(true, 3, (1, 1))),
        (OddD8TranslationSmall::new(false, 0, (1, -2)), OddD8TranslationSmall::new(true, 3, (2, -2))),
        dragon_acceptable,
        dragon_layout,
        (false, false),
    )
    .unwrap();
    assert_eq!(get_relevance_list(&mismatched, 100), Err(ResolveError::IncompatibleProduction));
}

#[test]
fn relevance_search_reports_a_placement_out_of_reach() {
    let far = FractalSpecification::new(
        (
            OddD8TranslationSmall::new(false, 3, (MAX_REACH, 0)),
            OddD8TranslationSmall::new(false, 0, (-MAX_REACH, 0)),
        ),
        (
            OddD8TranslationSmall::new(false, 2, (MAX_REACH, 0)),
            OddD8TranslationSmall::new(false, 1, (MAX_REACH, 0)),
        ),
        outer_squares_around,
        large_layout,
        (false, false),
    )
    .unwrap();
    assert_eq!(get_relevance_list(&far, 100), Err(ResolveError::OutOfReach));
}

fn check_requirements<A, L>(fractal: FractalSpecification<A, L>)
where
    A: Fn(EvenD8Translation) -> bool,
    L: Fn(isize, isize) -> TileSeed,
{
    let relevance = get_relevance_list(&fractal, 1000).unwrap();
    let requirement = to_requirement_list(&relevance);
    assert_eq!(requirement.len(), relevance.len());
    for k in 0..relevance.len() {
        assert_eq!(requirement[k], relevance[k].inv());
        assert_eq!(requirement[k] * relevance[k], EvenD8Translation::identity());
    }
    assert_eq!(to_requirement_list(&requirement), relevance);
}

#[test]
fn requirement_list_is_the_elementwise_inverse() {
    check_requirements(coral());
    check_requirements(hydra());
    check_requirements(dibolt());
    check_requirements(levy());
    check_requirements(scorpion());
    check_requirements(heighway());
    let requirement = to_requirement_list(&heighway_relevance());
    assert_eq!(requirement[1], EvenD8Translation::new(false, 2, (0, 2)));
    assert_eq!(requirement[2], EvenD8Translation::new(false, 3, (2, 2)));
    assert_eq!(requirement[4], EvenD8Translation::new(false, 1, (0, 4)));
    assert_eq!(to_requirement_list(&[]), vec![]);
}

#[test]
fn find_last_gives_the_last_position() {
    let a = EvenD8Translation::new(false, 1, (2, 0));
    let b = EvenD8Translation::new(true, 1, (2, 0));
    let c = EvenD8Translation::new(false, 1, (2, 2));
    assert_eq!(find_last(&[a, b, a, c], a), Some(2));
    assert_eq!(find_last(&[a, b, a, c], b), Some(1));
    assert_eq!(find_last(&[a, b, a], c), None);
    assert_eq!(find_last(&[], c), None);
}

#[test]
fn splitter_list_of_the_dragon() {
    let fractal = heighway();
    let requirement = to_requirement_list(&heighway_relevance());
    assert_eq!(
        get_splitter_list(&fractal, &requirement).unwrap(),
        vec![
            ((1, true), (0, false)),
            ((2, false), (3, true)),
            ((0, false), (0, true)),
            ((4, true), (2, false)),
            ((5, false), (6, true)),
            ((0, true), (1, false)),
            ((7, true), (5, false)),
            ((8, false), (9, true)),
            ((1, false), (1, true)),
            ((2, true), (8, false)),
        ]
    );
}

fn check_splitter<A, L>(fractal: FractalSpecification<A, L>, size: usize)
where
    A: Fn(EvenD8Translation) -> bool,
    L: Fn(isize, isize) -> TileSeed,
{
    let relevance = get_relevance_list(&fractal, 1000).unwrap();
    let requirement = to_requirement_list(&relevance);
    let splitter = get_splitter_list(&fractal, &requirement).unwrap();
    assert_eq!(splitter.len(), size);
    let (split_far, split_near) = fractal.splitting_policy();
    let (prod_a, prod_b) = fractal.production_policy();
    for k in 0..size {
        let ((far_parent, far_side), (near_parent, near_side)) = splitter[k];
        let far_production = if far_side { prod_b } else { prod_a };
        let near_production = if near_side { prod_b } else { prod_a };
        assert_eq!(split_far.inv() * requirement[far_parent] * far_production, requirement[k]);
        assert_eq!(split_near.inv() * requirement[near_parent] * near_production, requirement[k]);
    }
}

#[test]
fn splitter_entries_lead_back_to_their_requirement() {
    check_splitter(coral(), SIZES[0]);
    check_splitter(hydra(), SIZES[1]);
    check_splitter(dibolt(), SIZES[2]);
    check_splitter(levy(), SIZES[3]);
    check_splitter(scorpion(), SIZES[4]);
    check_splitter(heighway(), SIZES[5]);
}

#[test]
fn splitter_list_reports_what_it_cannot_map() {
    let fractal = heighway();
    let stray = EvenD8Translation::new(false, 0, (7, 7));
    assert_eq!(
        get_splitter_list(&fractal, &[EvenD8Translation::identity(), stray]),
        Err(ResolveError::UnmappedRequirement)
    );
    let far = EvenD8Translation::new(false, 0, (MAX_REACH + 1, 0));
    assert_eq!(
        get_splitter_list(&fractal, &[EvenD8Translation::identity(), far]),
        Err(ResolveError::OutOfReach)
    );
    assert_eq!(get_splitter_list(&fractal, &[]), Ok(vec![]));
}

#[test]
fn weight_images_of_the_dragon_and_of_the_levy_curve() {
    assert_eq!(
        get_weight_images(&heighway(), &heighway_relevance()).unwrap(),
        vec![(0, 1), (2, 3), (0, 0), (2, 4), (5, 6), (1, 0), (5, 7), (8, 9), (1, 1), (8, 2)]
    );
    assert_eq!(
        get_weight_images(&levy(), &levy_relevance()).unwrap(),
        vec![(1, 2), (3, 4), (0, 5), (6, 4), (1, 5), (4, 7), (8, 0), (4, 9), (10, 0), (2, 11), (12, 13), (2, 14), (13, 13), (0, 2), (13, 12)]
    );
}

fn check_images<A, L>(fractal: FractalSpecification<A, L>, size: usize)
where
    A: Fn(EvenD8Translation) -> bool,
    L: Fn(isize, isize) -> TileSeed,
{
    let relevance = get_relevance_list(&fractal, 1000).unwrap();
    let images = get_weight_images(&fractal, &relevance).unwrap();
    assert_eq!(images.len(), size);
    for (a, b) in images {
        assert!(a < size && b < size);
    }
}

#[test]
fn weight_images_point_into_the_list() {
    check_images(coral(), SIZES[0]);
    check_images(hydra(), SIZES[1]);
    check_images(dibolt(), SIZES[2]);
    check_images(levy(), SIZES[3]);
    check_images(scorpion(), SIZES[4]);
    check_images(heighway(), SIZES[5]);
}

#[test]
fn weight_images_report_each_failure() {
    let hydra = hydra();
    let identity = EvenD8Translation::identity();
    assert_eq!(get_weight_images(&hydra, &[identity]), Err(ResolveError::ImageNotRelevant));
    assert_eq!(
        get_weight_images(&hydra, &[EvenD8Translation::new(false, 0, (-3, -3))]),
        Err(ResolveError::NoAcceptableImage)
    );
    assert_eq!(
        get_weight_images(&hydra, &[EvenD8Translation::new(false, 0, (-3, -2))]),
        Err(ResolveError::IncompatibleProduction)
    );
    assert_eq!(
        get_weight_images(&hydra, &[EvenD8Translation::new(false, 0, (MAX_REACH + 1, 0))]),
        Err(ResolveError::OutOfReach)
    );
    let twofold = FractalSpecification::new(
        (OddD8TranslationSmall::new(false, 3, (1, 0)), OddD8TranslationSmall::new(false, 0, (-1, 0))),
        (OddD8TranslationSmall::new(false, 1, (1, 0)), OddD8TranslationSmall::new(false, 1, (1, 0))),
        even_coordinates,
        mid_layout,
        (false, false),
    )
    .unwrap();
    assert_eq!(get_weight_images(&twofold, &[identity]), Err(ResolveError::AmbiguousImage));
    assert_eq!(get_weight_images(&hydra, &[]), Ok(vec![]));
}

#[test]
fn weight_equations_are_doubled_and_end_with_the_normalisation() {
    assert_eq!(
        get_weight_equations(&[(1, 2), (0, 0), (2, 1)]),
        vec![vec![-2, 1, 1], vec![2, -2, 0], vec![0, 1, -1], vec![2, 2, 2]]
    );
    assert_eq!(get_weight_equations(&[(0, 0)]), vec![vec![0], vec![2]]);
    assert_eq!(get_weight_equations(&[]), vec![Vec::<i8>::new()]);
}
