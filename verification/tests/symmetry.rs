use dimers::dihedral::{EvenD8, OddD8};
use dimers::dihedral_translation::{EvenD8Translation, OddD8TranslationLarge, OddD8TranslationSmall};

#[test]
fn rotation_is_reduced_modulo_four() {
    assert_eq!(EvenD8::new(false, 5).rot(), 1);
    assert_eq!(EvenD8::new(false, -1).rot(), 3);
    assert_eq!(OddD8::new(true, 7).rot(), 3);
    assert_eq!(OddD8::new(true, -6).rot(), 2);
    assert!(OddD8::new(true, 0).flipped());
    assert!(!EvenD8::new(false, 0).flipped());
}

#[test]
fn even_apply_flips_then_turns() {
    assert_eq!(EvenD8::new(false, 0).apply((3, 5)), (3, 5));
    assert_eq!(EvenD8::new(false, 1).apply((3, 5)), (-5, 3));
    assert_eq!(EvenD8::new(false, 2).apply((3, 5)), (-3, -5));
    assert_eq!(EvenD8::new(false, 3).apply((3, 5)), (5, -3));
    assert_eq!(EvenD8::new(true, 0).apply((3, 5)), (3, -5));
    assert_eq!(EvenD8::new(true, 1).apply((3, 5)), (5, 3));
    assert_eq!(EvenD8::new(true, 2).apply((3, 5)), (-3, 5));
    assert_eq!(EvenD8::new(true, 3).apply((3, 5)), (-5, -3));
}

#[test]
fn even_transform_times_its_inverse_is_the_identity() {
    for flip in [false, true] {
        for rot in 0..4 {
            let t = EvenD8Translation::new(flip, rot, (7, -4));
            assert_eq!(t * t.inv(), EvenD8Translation::identity());
            assert_eq!(t.inv() * t, EvenD8Translation::identity());
            assert_eq!(t.inv().inv(), t);
        }
    }
}

#[test]
fn small_and_large_inverses_undo_each_other() {
    for flip in [false, true] {
        for rot in 0..4 {
            let s = OddD8TranslationSmall::new(flip, rot, (3, -2));
            assert_eq!(s.inv().inv(), Some(s));
            assert_eq!(s * s.inv(), Some(EvenD8Translation::identity()));
            assert_eq!(s.inv() * s, EvenD8Translation::identity());
        }
    }
    let off_lattice = OddD8TranslationLarge::new(false, 0, (1, 0));
    assert_eq!(off_lattice.inv(), None);
    let on_lattice = OddD8TranslationLarge::new(false, 0, (1, 1));
    assert_eq!(on_lattice.inv().map(|s| s.inv()), Some(on_lattice));
}

#[test]
fn odd_apply_turns_by_an_eighth_and_scales() {
    assert_eq!(OddD8::new(false, 0).apply_as_large((1, 0)), (1, 1));
    assert_eq!(OddD8::new(false, 0).apply_as_large((3, 5)), (-2, 8));
    assert_eq!(OddD8::new(false, 1).apply_as_large((3, 5)), (-8, -2));
    assert_eq!(OddD8::new(false, 2).apply_as_large((3, 5)), (2, -8));
    assert_eq!(OddD8::new(false, 3).apply_as_large((3, 5)), (8, 2));
    assert_eq!(OddD8::new(true, 0).apply_as_large((3, 5)), (8, -2));
    assert_eq!(OddD8::new(false, 0).apply_as_small((3, 5)), Some((-1, 4)));
    assert_eq!(OddD8::new(false, 0).apply_as_small((1, 0)), None);
    assert_eq!(OddD8::new(true, 3).apply_as_small((2, 0)), Some((1, -1)));
    assert_eq!(OddD8::new(true, 3).apply_as_small((1, 1)), Some((0, -1)));
    assert_eq!(OddD8::new(true, 3).apply_as_small((1, 0)), None);
}

#[test]
fn dihedral_inverses_undo() {
    for flip in [false, true] {
        for rot in 0..4 {
            let even = EvenD8::new(flip, rot);
            assert_eq!(even.inv().inv(), even);
            assert_eq!(even * even.inv(), EvenD8::identity());
            assert_eq!(even.inv() * even, EvenD8::identity());
            assert_eq!(even.inv().apply(even.apply((4, -9))), (4, -9));
            let odd = OddD8::new(flip, rot);
            assert_eq!(odd.inv().inv(), odd);
            assert_eq!(odd * odd.inv(), EvenD8::identity());
            assert_eq!(odd.inv() * odd, EvenD8::identity());
            assert_eq!(odd.inv().apply_as_large(odd.apply_as_large((4, -9))), (8, -18));
        }
    }
    assert_eq!(EvenD8::new(false, 1).inv(), EvenD8::new(false, 3));
    assert_eq!(EvenD8::new(true, 1).inv(), EvenD8::new(true, 1));
    assert_eq!(OddD8::new(false, 0).inv(), OddD8::new(false, 3));
    assert_eq!(OddD8::new(true, 2).inv(), OddD8::new(true, 2));
}

#[test]
fn dihedral_products_follow_the_tables() {
    assert_eq!(EvenD8::new(false, 1) * EvenD8::new(true, 2), EvenD8::new(true, 3));
    assert_eq!(EvenD8::new(true, 1) * EvenD8::new(true, 2), EvenD8::new(false, 3));
    assert_eq!(EvenD8::new(true, 1) * EvenD8::new(false, 2), EvenD8::new(true, 3));
    assert_eq!(OddD8::new(false, 0) * OddD8::new(false, 0), EvenD8::new(false, 1));
    assert_eq!(OddD8::new(true, 1) * OddD8::new(false, 3), EvenD8::new(true, 2));
    assert_eq!(EvenD8::new(true, 0) * OddD8::new(false, 0), OddD8::new(true, 3));
    assert_eq!(EvenD8::new(false, 3) * OddD8::new(true, 2), OddD8::new(true, 1));
    assert_eq!(OddD8::new(true, 0) * EvenD8::new(false, 1), OddD8::new(true, 3));
    assert_eq!(OddD8::new(false, 2) * EvenD8::new(true, 3), OddD8::new(true, 1));
}

#[test]
fn products_act_as_compositions() {
    let points = [(0, 0), (1, 0), (0, 1), (5, -3), (-7, 2)];
    for fa in [false, true] {
        for ra in 0..4 {
            for fb in [false, true] {
                for rb in 0..4 {
                    for p in points {
                        let (ea, eb) = (EvenD8::new(fa, ra), EvenD8::new(fb, rb));
                        let (oa, ob) = (OddD8::new(fa, ra), OddD8::new(fb, rb));
                        assert_eq!((ea * eb).apply(p), ea.apply(eb.apply(p)));
                        let twice = (oa * ob).apply(p);
                        assert_eq!(
                            oa.apply_as_large(ob.apply_as_large(p)),
                            (2 * twice.0, 2 * twice.1)
                        );
                        assert_eq!((ea * ob).apply_as_large(p), ea.apply(ob.apply_as_large(p)));
                        assert_eq!((oa * eb).apply_as_large(p), oa.apply_as_large(eb.apply(p)));
                    }
                }
            }
        }
    }
}

#[test]
fn transform_products_conjugate_the_right_translation() {
    let a = EvenD8Translation::new(false, 1, (1, 0));
    let b = EvenD8Translation::new(true, 5, (2, 3));
    let c = a * b;
    assert_eq!(c.get_translation(), (-2, 2));
    assert_eq!(c.get_dihedral(), EvenD8::new(true, 2));
    assert_eq!(b * a, EvenD8Translation::new(true, 0, (2, 4)));
    let small = OddD8TranslationSmall::new(false, 3, (1, 0));
    let large = small.inv();
    assert_eq!(large, OddD8TranslationLarge::new(false, 0, (-1, -1)));
    assert_eq!(large.get_translation(), (-1, -1));
    assert_eq!(large.get_dihedral(), OddD8::new(false, 0));
    assert_eq!(small.get_translation(), (1, 0));
    assert_eq!(small.get_dihedral(), OddD8::new(false, 3));
    assert_eq!(a * small, OddD8TranslationSmall::new(false, 0, (1, 1)));
    assert_eq!(a * large, OddD8TranslationLarge::new(false, 1, (2, -1)));
    assert_eq!(large * a, OddD8TranslationLarge::new(false, 1, (0, 0)));
    assert_eq!(large * small, EvenD8Translation::identity());
    assert_eq!(small * a, None);
    assert_eq!(
        small * EvenD8Translation::new(false, 1, (2, 0)),
        Some(OddD8TranslationSmall::new(false, 0, (2, -1)))
    );
    assert_eq!(small * OddD8TranslationLarge::new(true, 2, (3, 0)), None);
    assert_eq!(
        small * OddD8TranslationLarge::new(true, 2, (3, 1)),
        Some(EvenD8Translation::new(true, 2, (3, -1)))
    );
}

#[test]
fn translations_are_told_from_their_bound() {
    let t = EvenD8Translation::new(false, 0, (3, -5));
    assert!(t.within(5));
    assert!(!t.within(4));
    let s = OddD8TranslationSmall::new(false, 0, (-6, 2));
    assert!(s.within(6));
    assert!(!s.within(5));
}
