use dimers::dihedral_translation::EvenD8Translation;
use dimers::interval_colouring::{
    ColourInterval, ColourKey, ConstantInterval, FunctionInterval, TreeInterval,
};
use dimers::triangle::{SplitterEntry, Triangle};
use std::rc::Rc;

fn code_of(t: EvenD8Translation) -> usize {
    let (x, y) = t.get_translation();
    let dihedral = t.get_dihedral();
    let turn = dihedral.rot() as isize + if dihedral.flipped() { 4 } else { 0 };
    (turn * 10000 + (x + 50) * 100 + (y + 50)) as usize
}

fn coded(t: EvenD8Translation) -> ColourInterval {
    ColourInterval::Constant(ConstantInterval::from(ColourKey::Fixed(code_of(t))))
}

fn halved(t: EvenD8Translation) -> ColourInterval {
    let code = code_of(t);
    ColourInterval::Tree(TreeInterval::new(
        ColourKey::Fixed(code),
        Rc::new(ColourInterval::Constant(ConstantInterval::from(ColourKey::Fixed(code + 1000000)))),
        Rc::new(ColourInterval::Constant(ConstantInterval::from(ColourKey::Fixed(code + 2000000)))),
    ))
}

fn fixed(entries: &[usize]) -> Vec<ColourKey> {
    entries.iter().map(|entry| ColourKey::Fixed(*entry)).collect()
}

fn requirements() -> Vec<EvenD8Translation> {
    vec![
        EvenD8Translation::identity(),
        EvenD8Translation::new(true, 5, (2, 3)),
        EvenD8Translation::new(false, 2, (-2, 0)),
    ]
}

#[test]
fn triangle_colours_the_placements_behind_its_location() {
    let location = EvenD8Translation::new(false, 1, (1, 0));
    let triangle = Triangle::new(location, &coded, &requirements());
    assert_eq!(triangle.get_colours(), fixed(&[15150, 64852, 35148]));
    let at_home = Triangle::new(EvenD8Translation::identity(), &coded, &requirements());
    assert_eq!(at_home.get_colours(), fixed(&[5050, 55253, 24850]));
    let empty = Triangle::new(location, &coded, &[]);
    assert_eq!(empty.get_colours(), vec![]);
}

#[test]
fn identity_splitter_reproduces_constant_colours() {
    let splitter: Vec<SplitterEntry> =
        vec![((0, false), (0, true)), ((1, false), (1, true)), ((2, false), (2, true))];
    let parent = Triangle::new(EvenD8Translation::identity(), &coded, &requirements());
    let (far, near) = parent.split(&splitter);
    assert_eq!(far.get_colours(), parent.get_colours());
    assert_eq!(near.get_colours(), parent.get_colours());
    let (far_far, far_near) = far.split(&splitter);
    assert_eq!(far_far.get_colours(), parent.get_colours());
    assert_eq!(far_near.get_colours(), parent.get_colours());
}

#[test]
fn identity_splitter_hands_the_halves_to_the_children() {
    let splitter: Vec<SplitterEntry> =
        vec![((0, false), (0, true)), ((1, false), (1, true)), ((2, false), (2, true))];
    let parent = Triangle::new(EvenD8Translation::identity(), &halved, &requirements());
    assert_eq!(parent.get_colours(), fixed(&[5050, 55253, 24850]));
    let (far, near) = parent.split(&splitter);
    assert_eq!(far.get_colours(), fixed(&[1005050, 1055253, 1024850]));
    assert_eq!(near.get_colours(), fixed(&[2005050, 2055253, 2024850]));
}

#[test]
fn splitter_picks_parent_and_half_for_each_child() {
    let splitter: Vec<SplitterEntry> =
        vec![((2, true), (0, false)), ((0, false), (0, true)), ((1, true), (2, true))];
    let parent = Triangle::new(EvenD8Translation::identity(), &halved, &requirements());
    let (far, near) = parent.split(&splitter);
    assert_eq!(far.get_colours(), fixed(&[2024850, 1005050, 2055253]));
    assert_eq!(near.get_colours(), fixed(&[1005050, 2005050, 2024850]));
    let shorter: Vec<SplitterEntry> = vec![((1, false), (2, false))];
    let (far, near) = parent.split(&shorter);
    assert_eq!(far.get_colours(), fixed(&[1055253]));
    assert_eq!(near.get_colours(), fixed(&[1024850]));
}

#[test]
fn gradient_parts_follow_the_splitter() {
    let gradient = |_t: EvenD8Translation| ColourInterval::Function(FunctionInterval::from(4));
    let splitter: Vec<SplitterEntry> = vec![((0, true), (0, false))];
    let parent = Triangle::new(
        EvenD8Translation::identity(),
        &gradient,
        &[EvenD8Translation::identity()],
    );
    let (far, near) = parent.split(&splitter);
    assert_eq!(
        far.get_colours(),
        vec![ColourKey::Graded { gradient: 4, numerator: 3, denominator: 4 }]
    );
    assert_eq!(
        near.get_colours(),
        vec![ColourKey::Graded { gradient: 4, numerator: 1, denominator: 4 }]
    );
    let (far_far, far_near) = far.split(&splitter);
    assert_eq!(
        far_far.get_colours(),
        vec![ColourKey::Graded { gradient: 4, numerator: 7, denominator: 8 }]
    );
    assert_eq!(
        far_near.get_colours(),
        vec![ColourKey::Graded { gradient: 4, numerator: 5, denominator: 8 }]
    );
}
