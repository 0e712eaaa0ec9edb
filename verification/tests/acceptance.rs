use dimers::auxiliary::{
    dense_layout, dragon_acceptable, dragon_layout, even_coordinates,
    even_coordinates_with_parity, large_layout, mid_layout, outer_squares_around, TileSeed,
};
use dimers::dihedral_translation::EvenD8Translation;
use dimers::fractal_specification::{
    coral, dibolt, heighway, hydra, levy, scorpion, FractalSpecification, MAX_REACH,
};
use dimers::relevance_getter::get_relevance_list;
use dimers::dihedral_translation::OddD8TranslationSmall;

fn placed(flip: bool, rot: i8, x: isize, y: isize) -> EvenD8Translation {
    EvenD8Translation::new(flip, rot, (x, y))
}

#[test]
fn even_coordinates_wants_both_even() {
    assert!(even_coordinates(placed(true, 3, 0, 0)));
    assert!(even_coordinates(placed(false, 1, -2, 4)));
    assert!(!even_coordinates(placed(false, 0, 1, 0)));
    assert!(!even_coordinates(placed(false, 0, 0, -1)));
    assert!(!even_coordinates(placed(false, 0, -3, 5)));
}

#[test]
fn even_coordinates_with_parity_refuses_flips() {
    assert!(even_coordinates_with_parity(placed(false, 2, 2, -6)));
    assert!(!even_coordinates_with_parity(placed(true, 2, 2, -6)));
    assert!(!even_coordinates_with_parity(placed(false, 2, 2, -5)));
}

#[test]
fn outer_squares_around_unfolds_by_cell() {
    assert!(outer_squares_around(placed(false, 0, 0, 0)));
    assert!(outer_squares_around(placed(true, 3, 0, 0)));
    assert!(!outer_squares_around(placed(false, 1, 0, 0)));
    assert!(!outer_squares_around(placed(false, 0, 1, 0)));
    assert!(outer_squares_around(placed(true, 2, 2, 0)));
    assert!(outer_squares_around(placed(false, 3, 2, 0)));
    assert!(!outer_squares_around(placed(false, 0, 2, 0)));
    assert!(outer_squares_around(placed(true, 0, 0, 2)));
    assert!(outer_squares_around(placed(false, 1, 0, -2)));
    assert!(outer_squares_around(placed(false, 2, 2, 2)));
    assert!(outer_squares_around(placed(true, 1, -2, -2)));
    assert!(outer_squares_around(placed(false, 0, 4, -4)));
}

#[test]
fn dragon_acceptable_goes_by_class_of_five() {
    assert!(dragon_acceptable(placed(false, 0, 0, 0)));
    assert!(!dragon_acceptable(placed(false, 1, 0, 0)));
    assert!(!dragon_acceptable(placed(true, 0, 0, 0)));
    for rot in 0..4 {
        assert!(!dragon_acceptable(placed(false, rot, 2, 0)));
    }
    assert!(dragon_acceptable(placed(false, 2, 4, 0)));
    assert!(dragon_acceptable(placed(false, 2, 0, 2)));
    assert!(dragon_acceptable(placed(false, 3, 6, 0)));
    assert!(dragon_acceptable(placed(false, 1, 8, 0)));
    assert!(dragon_acceptable(placed(false, 1, -2, 0)));
    assert!(dragon_acceptable(placed(false, 0, -2, -4)));
    assert!(!dragon_acceptable(placed(false, 0, 1, 0)));
    assert!(dragon_acceptable(placed(false, 0, 10, 0)));
}

#[test]
fn built_in_grammars_hold_their_data() {
    let hydra = hydra();
    assert_eq!(
        hydra.production_policy(),
        (
            OddD8TranslationSmall::new(true, 0, (-1, 0)),
            OddD8TranslationSmall::new(false, 2, (1, 0))
        )
    );
    assert_eq!(
        hydra.splitting_policy(),
        (
            OddD8TranslationSmall::new(true, 1, (1, 0)),
            OddD8TranslationSmall::new(false, 1, (1, 0))
        )
    );
    assert_eq!(hydra.get_splitting_type(), (false, false));
    assert_eq!(hydra.get_tile_seed(3, 4), dense_layout(3, 4));
    assert!(hydra.acceptable(placed(true, 1, 2, 2)));
    assert!(!hydra.acceptable(placed(true, 1, 2, 1)));
    let heighway = heighway();
    assert_eq!(heighway.get_splitting_type(), (true, false));
    assert_eq!(heighway.get_tile_seed(-2, 5), dragon_layout(-2, 5));
    assert_eq!(heighway.splitting_policy().0, OddD8TranslationSmall::new(false, 2, (1, 2)));
    assert!(heighway.acceptable(placed(false, 3, 6, 0)));
    assert_eq!(coral().get_tile_seed(1, 1), dense_layout(1, 1));
    assert_eq!(dibolt().get_splitting_type(), (false, true));
    assert_eq!(dibolt().get_tile_seed(1, 0), mid_layout(1, 0));
    assert_eq!(levy().get_splitting_type(), (true, false));
    assert_eq!(scorpion().get_tile_seed(0, 1), large_layout(0, 1));
    assert!(scorpion().acceptable(placed(true, 3, 0, 0)));
    assert!(!levy().acceptable(placed(true, 3, 0, 0)));
}

#[test]
fn layouts_give_their_seeds() {
    assert_eq!(
        dense_layout(2, 3),
        TileSeed {
            slash: true,
            first: (placed(true, 1, 2, -4), true),
            second: (placed(false, 0, 2, -4), false)
        }
    );
    assert_eq!(
        mid_layout(1, 0),
        TileSeed {
            slash: false,
            first: (placed(false, 0, 0, -2), false),
            second: (placed(false, 2, 2, -2), false)
        }
    );
    assert_eq!(
        large_layout(1, 1),
        TileSeed {
            slash: false,
            first: (placed(false, 2, 2, -2), true),
            second: (placed(true, 1, 2, -2), false)
        }
    );
    assert_eq!(
        dragon_layout(1, 1),
        TileSeed {
            slash: false,
            first: (placed(false, 3, 4, -4), false),
            second: (placed(false, 1, 6, -4), false)
        }
    );
}

#[test]
fn a_new_grammar_is_pure_data() {
    let production = (
        OddD8TranslationSmall::new(false, 3, (1, 0)),
        OddD8TranslationSmall::new(false, 0, (-1, 0)),
    );
    let splitting = (
        OddD8TranslationSmall::new(false, 2, (1, 0)),
        OddD8TranslationSmall::new(false, 1, (1, 0)),
    );
    let made = FractalSpecification::new(
        production,
        splitting,
        even_coordinates_with_parity,
        mid_layout,
        (true, false),
    )
    .unwrap();
    let levy = levy();
    assert_eq!(made.production_policy(), levy.production_policy());
    assert_eq!(made.splitting_policy(), levy.splitting_policy());
    assert_eq!(made.get_tile_seed(4, 7), levy.get_tile_seed(4, 7));
    assert_eq!(made.get_splitting_type(), levy.get_splitting_type());
    assert_eq!(get_relevance_list(&made, 100), get_relevance_list(&levy, 100));
    let far = (
        OddD8TranslationSmall::new(false, 3, (MAX_REACH + 1, 0)),
        OddD8TranslationSmall::new(false, 0, (-1, 0)),
    );
    assert!(FractalSpecification::new(far, splitting, even_coordinates, dense_layout, (false, false))
        .is_none());
}

#[test]
fn a_grammar_may_bring_its_own_predicate_and_layout() {
    let rotations_on_the_axis = |t: EvenD8Translation| {
        let (x, y) = t.get_translation();
        x % 2 == 0 && y == 0 && !t.get_dihedral().flipped()
    };
    let all_at_home = |x: isize, _y: isize| TileSeed {
        slash: x % 2 == 0,
        first: (EvenD8Translation::identity(), false),
        second: (EvenD8Translation::new(false, 2, (0, 0)), true),
    };
    let own = FractalSpecification::new(
        (
            OddD8TranslationSmall::new(false, 3, (1, 0)),
            OddD8TranslationSmall::new(false, 0, (-1, 0)),
        ),
        (
            OddD8TranslationSmall::new(false, 2, (1, 0)),
            OddD8TranslationSmall::new(false, 1, (1, 0)),
        ),
        rotations_on_the_axis,
        all_at_home,
        (false, false),
    )
    .unwrap();
    assert!(own.acceptable(placed(false, 1, 4, 0)));
    assert!(!own.acceptable(placed(false, 1, 4, 2)));
    assert!(own.get_tile_seed(2, 9).slash);
    assert!(!own.get_tile_seed(3, 9).slash);
    assert!(get_relevance_list(&own, 3).is_err());
}
