use dimers::auxiliary::{
    simple_colouring, simple_continuum_colouring, two_colouring, BLACK, BLUE, PURPLE, RED,
    RED_TO_BLUE, WHITE,
};
use dimers::dihedral_translation::EvenD8Translation;
use dimers::interval_colouring::{
    ColourInterval, ColourKey, ConstantInterval, FunctionInterval, SplitInterval, TreeInterval,
};
use std::rc::Rc;

fn constant(entry: usize) -> ColourInterval {
    ColourInterval::Constant(ConstantInterval::from(ColourKey::Fixed(entry)))
}

fn graded(numerator: u64, denominator: u64) -> ColourKey {
    ColourKey::Graded { gradient: 7, numerator, denominator }
}

#[test]
fn constant_interval_returns_its_colour_from_both_halves() {
    let interval = ConstantInterval::from(ColourKey::Fixed(5));
    assert_eq!(interval.get(), ColourKey::Fixed(5));
    let (first, second) = interval.split();
    assert_eq!(first.get(), ColourKey::Fixed(5));
    assert_eq!(second.get(), ColourKey::Fixed(5));
    let mut deep = constant(9);
    for step in 0..200 {
        let (first, second) = deep.split();
        assert_eq!(first.get(), ColourKey::Fixed(9));
        assert_eq!(second.get(), ColourKey::Fixed(9));
        deep = if step % 3 == 0 { first } else { second };
    }
}

#[test]
fn function_interval_names_the_middle_of_its_part() {
    let whole = FunctionInterval::from(7);
    assert_eq!(whole.get(), graded(1, 2));
    let (first, second) = whole.split();
    assert_eq!(first.get(), graded(1, 4));
    assert_eq!(second.get(), graded(3, 4));
    let (a, b) = first.split();
    let (c, d) = second.split();
    assert_eq!(a.get(), graded(1, 8));
    assert_eq!(b.get(), graded(3, 8));
    assert_eq!(c.get(), graded(5, 8));
    assert_eq!(d.get(), graded(7, 8));
    let (_, e) = c.split();
    assert_eq!(e.get(), graded(11, 16));
}

#[test]
fn halves_do_not_depend_on_the_way_to_the_interval() {
    let by_one_way = ColourInterval::Function(FunctionInterval::from(7)).split().1.split().0;
    let (_, second) = FunctionInterval::from(7).split();
    let by_another = second.split().0;
    for (a, b) in [(by_one_way.split(), by_another.split())] {
        assert_eq!(a.0.get(), b.0.get());
        assert_eq!(a.1.get(), b.1.get());
        assert_eq!(a.0.get(), graded(9, 16));
        assert_eq!(a.1.get(), graded(11, 16));
    }
}

#[test]
fn function_interval_splits_sixty_times() {
    let mut interval = ColourInterval::Function(FunctionInterval::from(0));
    for _ in 0..60 {
        interval = interval.split().1;
    }
    assert_eq!(
        interval.get(),
        ColourKey::Graded {
            gradient: 0,
            numerator: (1u64 << 61) - 1,
            denominator: 1u64 << 61
        }
    );
}

#[test]
fn tree_interval_hands_out_its_children() {
    let left = Rc::new(constant(RED));
    let right = Rc::new(ColourInterval::Function(FunctionInterval::from(7)));
    let tree = TreeInterval::new(ColourKey::Fixed(PURPLE), left.clone(), right.clone());
    assert_eq!(tree.get(), ColourKey::Fixed(PURPLE));
    let (first, second) = tree.split();
    assert!(matches!(first, ColourInterval::Shared(_)));
    assert_eq!(first.get(), ColourKey::Fixed(RED));
    assert_eq!(second.get(), graded(1, 2));
    assert_eq!(second.split().0.get(), graded(1, 4));
    assert_eq!(first.split().1.get(), ColourKey::Fixed(RED));
    assert_eq!(Rc::strong_count(&left), 3);
    let (again, _) = tree.split();
    assert_eq!(again.get(), ColourKey::Fixed(RED));
    if let ColourInterval::Shared(handle) = again {
        assert!(Rc::ptr_eq(&handle, &left));
    }
}

#[test]
fn nested_trees_are_walked_by_splitting() {
    let inner = ColourInterval::Tree(TreeInterval::new(
        ColourKey::Fixed(10),
        Rc::new(constant(11)),
        Rc::new(constant(12)),
    ));
    let outer = ColourInterval::Tree(TreeInterval::new(
        ColourKey::Fixed(20),
        Rc::new(inner),
        Rc::new(constant(21)),
    ));
    assert_eq!(outer.get(), ColourKey::Fixed(20));
    let (first, second) = outer.split();
    assert_eq!(first.get(), ColourKey::Fixed(10));
    assert_eq!(second.get(), ColourKey::Fixed(21));
    let (a, b) = first.split();
    assert_eq!(a.get(), ColourKey::Fixed(11));
    assert_eq!(b.get(), ColourKey::Fixed(12));
    let shared = ColourInterval::Shared(Rc::new(second));
    assert_eq!(shared.get(), ColourKey::Fixed(21));
    assert_eq!(shared.split().0.get(), ColourKey::Fixed(21));
}

#[test]
fn base_colourings_mark_the_identity() {
    let identity = EvenD8Translation::identity();
    let others = [
        EvenD8Translation::new(false, 1, (0, 0)),
        EvenD8Translation::new(true, 0, (0, 0)),
        EvenD8Translation::new(false, 0, (2, 0)),
        EvenD8Translation::new(false, 0, (0, -2)),
    ];
    assert_eq!(simple_colouring(identity).get(), ColourKey::Fixed(WHITE));
    assert_eq!(simple_colouring(EvenD8Translation::new(false, 4, (0, 0))).get(), ColourKey::Fixed(WHITE));
    let two = two_colouring(identity);
    assert_eq!(two.get(), ColourKey::Fixed(PURPLE));
    assert_eq!(two.split().0.get(), ColourKey::Fixed(RED));
    assert_eq!(two.split().1.get(), ColourKey::Fixed(BLUE));
    assert_eq!(two.split().1.split().0.get(), ColourKey::Fixed(BLUE));
    let continuum = simple_continuum_colouring(identity);
    assert_eq!(
        continuum.get(),
        ColourKey::Graded { gradient: RED_TO_BLUE, numerator: 1, denominator: 2 }
    );
    assert_eq!(
        continuum.split().1.get(),
        ColourKey::Graded { gradient: RED_TO_BLUE, numerator: 3, denominator: 4 }
    );
    for other in others {
        assert_eq!(simple_colouring(other).get(), ColourKey::Fixed(BLACK));
        assert_eq!(two_colouring(other).get(), ColourKey::Fixed(BLACK));
        assert_eq!(two_colouring(other).split().0.get(), ColourKey::Fixed(BLACK));
        assert_eq!(simple_continuum_colouring(other).get(), ColourKey::Fixed(BLACK));
    }
}

fn colour_of_any<I: SplitInterval>(interval: &I) -> ColourKey {
    interval.get()
}

fn second_half_of_any<I: SplitInterval>(interval: &I) -> ColourKey {
    interval.split().1.get()
}

#[test]
fn every_kind_of_interval_splits_through_the_trait() {
    let constant_interval = ConstantInterval::from(ColourKey::Fixed(3));
    let function_interval = FunctionInterval::from(7);
    let tree = TreeInterval::new(ColourKey::Fixed(1), Rc::new(constant(2)), Rc::new(constant(4)));
    assert_eq!(colour_of_any(&constant_interval), ColourKey::Fixed(3));
    assert_eq!(second_half_of_any(&constant_interval), ColourKey::Fixed(3));
    assert_eq!(colour_of_any(&function_interval), graded(1, 2));
    assert_eq!(second_half_of_any(&function_interval), graded(3, 4));
    assert_eq!(colour_of_any(&tree), ColourKey::Fixed(1));
    assert_eq!(second_half_of_any(&tree), ColourKey::Fixed(4));
    let shared = Rc::new(tree);
    assert_eq!(colour_of_any(&shared), ColourKey::Fixed(1));
    assert_eq!(second_half_of_any(&shared), ColourKey::Fixed(4));
    let any = ColourInterval::Shared(Rc::new(ColourInterval::Function(function_interval)));
    assert_eq!(colour_of_any(&any), graded(1, 2));
    assert_eq!(second_half_of_any(&Rc::new(any)), graded(3, 4));
}

#[test]
fn intervals_tell_whether_they_can_be_halved() {
    assert!(constant(3).can_split());
    let tree = TreeInterval::new(ColourKey::Fixed(1), Rc::new(constant(2)), Rc::new(constant(4)));
    assert!(ColourInterval::Tree(tree).can_split());
    let mut part = FunctionInterval::from(0);
    assert!(part.can_split());
    let mut halvings = 0;
    while part.can_split() {
        part = match part.split().0 {
            ColourInterval::Function(half) => half,
            _ => unreachable!(),
        };
        halvings += 1;
    }
    assert_eq!(halvings, 62);
    assert_eq!(
        part.get(),
        ColourKey::Graded { gradient: 0, numerator: 1, denominator: 1u64 << 63 }
    );
    let deep = ColourInterval::Shared(Rc::new(ColourInterval::Function(part)));
    assert!(!deep.can_split());
    assert!(ColourInterval::Shared(Rc::new(constant(1))).can_split());
}
