//! Orientations with a translation: the placements of tiles.
//!
//! Translations use "x to the right, y up". There are three flavours, which
//! are not interchangeable. An even transform places a tile on the lattice.
//! A small odd transform comes with a scale down by the square root of two,
//! a large odd transform with a scale up by it. Small times large and large
//! times small are even; there is no product of two small or of two large
//! ones. Where a product or an inverse would leave the integer lattice, it
//! is absent.

use crate::dihedral::{
    lemma_even_apply_is_linear, lemma_even_inverse_cancels, lemma_even_inverse_involution,
    lemma_even_inverse_undoes_apply, lemma_even_mul_associative, lemma_even_mul_is_composition,
    lemma_odd_apply_is_linear, lemma_odd_inverse_cancels, lemma_odd_inverse_involution,
    lemma_odd_inverse_undoes_apply, point_negatable, point_scalable, EvenD8, EvenSymmetry, OddD8,
    OddSymmetry, SpecPoint,
};
use std::ops::Mul;
use vstd::prelude::*;
use vstd::std_specs::ops::{MulSpec, MulSpecImpl};

verus! {

/// Both coordinates fit the machine's signed word.
pub open spec fn point_representable(p: SpecPoint) -> bool {
    isize::MIN <= p.0 <= isize::MAX && isize::MIN <= p.1 <= isize::MAX
}

/// The sum of two points.
pub open spec fn point_sum(p: SpecPoint, q: SpecPoint) -> SpecPoint {
    (p.0 + q.0, p.1 + q.1)
}

/// The point opposite to `p`.
pub open spec fn point_neg(p: SpecPoint) -> SpecPoint {
    (-p.0, -p.1)
}

/// The mathematical value of an [`EvenD8Translation`]: `p` goes to
/// `dihedral(p) + translation`.
pub struct EvenTransform {
    pub dihedral: EvenSymmetry,
    pub translation: SpecPoint,
}

/// The mathematical value of an [`OddD8TranslationSmall`].
pub struct SmallTransform {
    pub dihedral: OddSymmetry,
    pub translation: SpecPoint,
}

/// The mathematical value of an [`OddD8TranslationLarge`].
pub struct LargeTransform {
    pub dihedral: OddSymmetry,
    pub translation: SpecPoint,
}

impl EvenTransform {
    /// The orientation is reduced.
    pub open spec fn wf(self) -> bool {
        self.dihedral.wf()
    }

    /// The transform that moves nothing.
    pub open spec fn identity() -> EvenTransform {
        EvenTransform { dihedral: EvenSymmetry::identity(), translation: (0, 0) }
    }

    /// Where the transform sends the lattice point `p`.
    pub open spec fn act(self, p: SpecPoint) -> SpecPoint {
        point_sum(self.dihedral.apply(p), self.translation)
    }

    /// The transform that undoes this one.
    pub open spec fn inv(self) -> EvenTransform {
        EvenTransform {
            dihedral: self.dihedral.inv(),
            translation: self.dihedral.inv().apply(point_neg(self.translation)),
        }
    }

    /// `self` after `rhs`.
    pub open spec fn mul(self, rhs: EvenTransform) -> EvenTransform {
        EvenTransform {
            dihedral: self.dihedral.mul(rhs.dihedral),
            translation: point_sum(self.translation, self.dihedral.apply(rhs.translation)),
        }
    }

    /// `self` after the small transform `rhs`.
    pub open spec fn mul_small(self, rhs: SmallTransform) -> SmallTransform {
        SmallTransform {
            dihedral: self.dihedral.mul_odd(rhs.dihedral),
            translation: point_sum(self.translation, self.dihedral.apply(rhs.translation)),
        }
    }

    /// `self` after the large transform `rhs`.
    pub open spec fn mul_large(self, rhs: LargeTransform) -> LargeTransform {
        LargeTransform {
            dihedral: self.dihedral.mul_odd(rhs.dihedral),
            translation: point_sum(self.translation, self.dihedral.apply(rhs.translation)),
        }
    }

    /// Neither coordinate of the translation exceeds `bound` in absolute value.
    pub open spec fn within(self, bound: int) -> bool {
        -bound <= self.translation.0 <= bound && -bound <= self.translation.1 <= bound
    }
}

impl SmallTransform {
    /// The orientation is reduced.
    pub open spec fn wf(self) -> bool {
        self.dihedral.wf()
    }

    /// The inverse scales up, so it always exists.
    pub open spec fn inv(self) -> LargeTransform {
        LargeTransform {
            dihedral: self.dihedral.inv(),
            translation: self.dihedral.inv().apply_as_large(point_neg(self.translation)),
        }
    }

    /// `self` after the large transform `rhs`; absent where `rhs` moves the
    /// origin off the small lattice.
    pub open spec fn mul_large(self, rhs: LargeTransform) -> Option<EvenTransform> {
        match self.dihedral.apply_as_small(rhs.translation) {
            Some(conjugated) => Some(
                EvenTransform {
                    dihedral: self.dihedral.mul(rhs.dihedral),
                    translation: point_sum(self.translation, conjugated),
                },
            ),
            None => None,
        }
    }

    /// `self` after the even transform `rhs`; absent where `rhs` moves the
    /// origin off the small lattice.
    pub open spec fn mul_even(self, rhs: EvenTransform) -> Option<SmallTransform> {
        match self.dihedral.apply_as_small(rhs.translation) {
            Some(conjugated) => Some(
                SmallTransform {
                    dihedral: self.dihedral.mul_even(rhs.dihedral),
                    translation: point_sum(self.translation, conjugated),
                },
            ),
            None => None,
        }
    }

    /// Neither coordinate of the translation exceeds `bound` in absolute value.
    pub open spec fn within(self, bound: int) -> bool {
        -bound <= self.translation.0 <= bound && -bound <= self.translation.1 <= bound
    }
}

impl LargeTransform {
    /// The orientation is reduced.
    pub open spec fn wf(self) -> bool {
        self.dihedral.wf()
    }

    /// The inverse scales down; absent where the translation is off the
    /// small lattice.
    pub open spec fn inv(self) -> Option<SmallTransform> {
        match self.dihedral.inv().apply_as_small(point_neg(self.translation)) {
            Some(translation) => Some(
                SmallTransform { dihedral: self.dihedral.inv(), translation },
            ),
            None => None,
        }
    }

    /// `self` after the small transform `rhs`.
    pub open spec fn mul_small(self, rhs: SmallTransform) -> EvenTransform {
        EvenTransform {
            dihedral: self.dihedral.mul(rhs.dihedral),
            translation: point_sum(self.translation, self.dihedral.apply_as_large(rhs.translation)),
        }
    }

    /// `self` after the even transform `rhs`.
    pub open spec fn mul_even(self, rhs: EvenTransform) -> LargeTransform {
        LargeTransform {
            dihedral: self.dihedral.mul_even(rhs.dihedral),
            translation: point_sum(self.translation, self.dihedral.apply_as_large(rhs.translation)),
        }
    }

    /// Neither coordinate of the translation exceeds `bound` in absolute value.
    pub open spec fn within(self, bound: int) -> bool {
        -bound <= self.translation.0 <= bound && -bound <= self.translation.1 <= bound
    }
}

/// A point that the machine holds, as the contracts see it.
pub open spec fn point_of(p: (isize, isize)) -> SpecPoint {
    (p.0 as int, p.1 as int)
}

/// An even orientation followed by a translation.
#[derive(Clone, Copy, Hash, Eq, PartialEq, Debug, Structural)]
pub struct EvenD8Translation {
    dihedral: EvenD8,
    x: isize,
    y: isize,
}

impl View for EvenD8Translation {
    type V = EvenTransform;

    closed spec fn view(&self) -> EvenTransform {
        EvenTransform { dihedral: self.dihedral@, translation: (self.x as int, self.y as int) }
    }
}

impl EvenD8Translation {
    /// The invariant of the type: the orientation is reduced.
    #[verifier::type_invariant]
    pub open spec fn well_formed(self) -> bool {
        self@.wf()
    }

    /// The transform with the given flip, quarter turns and translation, the
    /// turns taken modulo four.
    pub fn new(flip: bool, rot: i8, translation: (isize, isize)) -> (r: EvenD8Translation)
        ensures
            r@ == (EvenTransform {
                dihedral: EvenSymmetry { flip, rot: rot as int % 4 },
                translation: point_of(translation),
            }),
            r@.wf(),
    {
        EvenD8Translation { dihedral: EvenD8::new(flip, rot), x: translation.0, y: translation.1 }
    }

    /// The transform that moves nothing.
    pub fn identity() -> (r: EvenD8Translation)
        ensures
            r@ == EvenTransform::identity(),
    {
        EvenD8Translation { dihedral: EvenD8::identity(), x: 0, y: 0 }
    }

    /// The transform that undoes this one.
    pub fn inv(self) -> (r: EvenD8Translation)
        requires
            point_negatable(self@.translation),
        ensures
            r@ == self@.inv(),
            r@.wf(),
            point_negatable(r@.translation),
    {
        let inverse_dihedral = self.dihedral.inv();
        let translation = inverse_dihedral.apply((-self.x, -self.y));
        EvenD8Translation { dihedral: inverse_dihedral, x: translation.0, y: translation.1 }
    }

    /// The translation of the transform.
    pub fn get_translation(self) -> (r: (isize, isize))
        ensures
            point_of(r) == self@.translation,
    {
        (self.x, self.y)
    }

    /// The orientation of the transform.
    pub fn get_dihedral(self) -> (r: EvenD8)
        ensures
            r@ == self@.dihedral,
            r@.wf(),
    {
        proof {
            use_type_invariant(&self);
        }
        self.dihedral
    }

    /// Whether neither coordinate of the translation exceeds `bound` in absolute value.
    pub fn within(self, bound: isize) -> (r: bool)
        requires
            0 <= bound,
        ensures
            r == self@.within(bound as int),
    {
        -bound <= self.x && self.x <= bound && -bound <= self.y && self.y <= bound
    }

    /// Two values are the same exactly where their mathematical values are.
    pub proof fn lemma_view_injective(a: EvenD8Translation, b: EvenD8Translation)
        ensures
            (a@ == b@) == (a == b),
    {
        EvenD8::lemma_view_injective(a.dihedral, b.dihedral);
    }

    /// The value with the mathematical value `v`.
    pub closed spec fn from_view(v: EvenTransform) -> EvenD8Translation {
        EvenD8Translation {
            dihedral: EvenD8::from_view(v.dihedral),
            x: v.translation.0 as isize,
            y: v.translation.1 as isize,
        }
    }

    /// A well-formed mathematical value that the machine can hold is that
    /// of the value made from it.
    pub proof fn lemma_from_view(v: EvenTransform)
        requires
            v.wf(),
            point_representable(v.translation),
        ensures
            EvenD8Translation::from_view(v)@ == v,
    {
        EvenD8::lemma_from_view(v.dihedral);
    }

    /// The product that the machine computes is the value of the product
    /// of the mathematical values.
    pub proof fn lemma_mul_spec(self, rhs: EvenD8Translation)
        requires
            self@.wf(),
            rhs@.wf(),
            MulSpec::mul_req(self, rhs),
        ensures
            MulSpec::mul_spec(self, rhs) == EvenD8Translation::from_view(self@.mul(rhs@)),
            MulSpec::mul_spec(self, rhs)@ == self@.mul(rhs@),
    {
        EvenD8::lemma_mul_spec(self.dihedral, rhs.dihedral);
        EvenD8::lemma_from_view(self@.dihedral.mul(rhs@.dihedral));
        EvenD8::lemma_view_injective(
            MulSpec::mul_spec(self.dihedral, rhs.dihedral),
            EvenD8::from_view(self@.dihedral.mul(rhs@.dihedral)),
        );
    }
}

impl MulSpecImpl<EvenD8Translation> for EvenD8Translation {
    open spec fn obeys_mul_spec() -> bool {
        true
    }

    open spec fn mul_req(self, rhs: EvenD8Translation) -> bool {
        &&& point_negatable(rhs@.translation)
        &&& point_representable(self@.mul(rhs@).translation)
    }

    closed spec fn mul_spec(self, rhs: EvenD8Translation) -> EvenD8Translation {
        let t = self@.mul(rhs@).translation;
        EvenD8Translation {
            dihedral: MulSpec::mul_spec(self.dihedral, rhs.dihedral),
            x: t.0 as isize,
            y: t.1 as isize,
        }
    }
}

impl Mul<EvenD8Translation> for EvenD8Translation {
    type Output = EvenD8Translation;

    fn mul(self, rhs: EvenD8Translation) -> (r: EvenD8Translation)
        ensures
            r@ == self@.mul(rhs@),
            r@.wf(),
    {
        let conjugated_translation = self.dihedral.apply((rhs.x, rhs.y));
        EvenD8Translation {
            dihedral: self.dihedral * rhs.dihedral,
            x: self.x + conjugated_translation.0,
            y: self.y + conjugated_translation.1,
        }
    }
}

/// An odd orientation followed by a translation, with a scale down by the
/// square root of two applied first.
#[derive(Clone, Copy, Hash, Eq, PartialEq, Debug, Structural)]
pub struct OddD8TranslationSmall {
    dihedral: OddD8,
    x: isize,
    y: isize,
}

/// An odd orientation followed by a translation, with a scale up by the
/// square root of two applied first.
#[derive(Clone, Copy, Hash, Eq, PartialEq, Debug, Structural)]
pub struct OddD8TranslationLarge {
    dihedral: OddD8,
    x: isize,
    y: isize,
}

impl View for OddD8TranslationSmall {
    type V = SmallTransform;

    closed spec fn view(&self) -> SmallTransform {
        SmallTransform { dihedral: self.dihedral@, translation: (self.x as int, self.y as int) }
    }
}

impl View for OddD8TranslationLarge {
    type V = LargeTransform;

    closed spec fn view(&self) -> LargeTransform {
        LargeTransform { dihedral: self.dihedral@, translation: (self.x as int, self.y as int) }
    }
}

impl OddD8TranslationSmall {
    /// The invariant of the type: the orientation is reduced.
    #[verifier::type_invariant]
    pub open spec fn well_formed(self) -> bool {
        self@.wf()
    }

    /// Two values are the same exactly where their mathematical values are.
    pub proof fn lemma_view_injective(a: OddD8TranslationSmall, b: OddD8TranslationSmall)
        ensures
            (a@ == b@) == (a == b),
    {
        OddD8::lemma_view_injective(a.dihedral, b.dihedral);
    }

    /// The transform with the given flip, quarter turns and translation, the
    /// turns taken modulo four.
    pub fn new(flip: bool, rot: i8, translation: (isize, isize)) -> (r: OddD8TranslationSmall)
        ensures
            r@ == (SmallTransform {
                dihedral: OddSymmetry { flip, rot: rot as int % 4 },
                translation: point_of(translation),
            }),
            r@.wf(),
    {
        OddD8TranslationSmall { dihedral: OddD8::new(flip, rot), x: translation.0, y: translation.1 }
    }

    /// The inverse is a large transform.
    pub fn inv(self) -> (r: OddD8TranslationLarge)
        requires
            point_scalable(self@.translation),
        ensures
            r@ == self@.inv(),
            r@.wf(),
            point_negatable(r@.translation),
    {
        let inverse_dihedral = self.dihedral.inv();
        let translation = inverse_dihedral.apply_as_large((-self.x, -self.y));
        OddD8TranslationLarge { dihedral: inverse_dihedral, x: translation.0, y: translation.1 }
    }

    /// The translation of the transform.
    pub fn get_translation(self) -> (r: (isize, isize))
        ensures
            point_of(r) == self@.translation,
    {
        (self.x, self.y)
    }

    /// The orientation of the transform.
    pub fn get_dihedral(self) -> (r: OddD8)
        ensures
            r@ == self@.dihedral,
            r@.wf(),
    {
        proof {
            use_type_invariant(&self);
        }
        self.dihedral
    }

    /// Whether neither coordinate of the translation exceeds `bound` in absolute value.
    pub fn within(self, bound: isize) -> (r: bool)
        requires
            0 <= bound,
        ensures
            r == self@.within(bound as int),
    {
        -bound <= self.x && self.x <= bound && -bound <= self.y && self.y <= bound
    }
}

impl OddD8TranslationLarge {
    /// The invariant of the type: the orientation is reduced.
    #[verifier::type_invariant]
    pub open spec fn well_formed(self) -> bool {
        self@.wf()
    }

    /// Two values are the same exactly where their mathematical values are.
    pub proof fn lemma_view_injective(a: OddD8TranslationLarge, b: OddD8TranslationLarge)
        ensures
            (a@ == b@) == (a == b),
    {
        OddD8::lemma_view_injective(a.dihedral, b.dihedral);
    }

    /// The transform with the given flip, quarter turns and translation, the
    /// turns taken modulo four.
    pub fn new(flip: bool, rot: i8, translation: (isize, isize)) -> (r: OddD8TranslationLarge)
        ensures
            r@ == (LargeTransform {
                dihedral: OddSymmetry { flip, rot: rot as int % 4 },
                translation: point_of(translation),
            }),
            r@.wf(),
    {
        OddD8TranslationLarge { dihedral: OddD8::new(flip, rot), x: translation.0, y: translation.1 }
    }

    /// The inverse is a small transform; `None` where the translation has no
    /// image on the small lattice.
    pub fn inv(self) -> (r: Option<OddD8TranslationSmall>)
        requires
            point_scalable(self@.translation),
        ensures
            match self@.inv() {
                Some(inverse) => r.is_some() && r.unwrap()@ == inverse && inverse.wf()
                    && point_negatable(inverse.translation),
                None => r.is_none(),
            },
    {
        let inverse_dihedral = self.dihedral.inv();
        match inverse_dihedral.apply_as_small((-self.x, -self.y)) {
            Some(translation) => Some(
                OddD8TranslationSmall {
                    dihedral: inverse_dihedral,
                    x: translation.0,
                    y: translation.1,
                },
            ),
            None => None,
        }
    }

    /// The translation of the transform.
    pub fn get_translation(self) -> (r: (isize, isize))
        ensures
            point_of(r) == self@.translation,
    {
        (self.x, self.y)
    }

    /// The orientation of the transform.
    pub fn get_dihedral(self) -> (r: OddD8)
        ensures
            r@ == self@.dihedral,
            r@.wf(),
    {
        proof {
            use_type_invariant(&self);
        }
        self.dihedral
    }
}

impl MulSpecImpl<OddD8TranslationSmall> for OddD8TranslationLarge {
    open spec fn obeys_mul_spec() -> bool {
        true
    }

    open spec fn mul_req(self, rhs: OddD8TranslationSmall) -> bool {
        &&& point_scalable(rhs@.translation)
        &&& point_representable(self@.mul_small(rhs@).translation)
    }

    closed spec fn mul_spec(self, rhs: OddD8TranslationSmall) -> EvenD8Translation {
        let t = self@.mul_small(rhs@).translation;
        EvenD8Translation {
            dihedral: MulSpec::mul_spec(self.dihedral, rhs.dihedral),
            x: t.0 as isize,
            y: t.1 as isize,
        }
    }
}

impl Mul<OddD8TranslationSmall> for OddD8TranslationLarge {
    type Output = EvenD8Translation;

    fn mul(self, rhs: OddD8TranslationSmall) -> (r: EvenD8Translation)
        ensures
            r@ == self@.mul_small(rhs@),
            r@.wf(),
    {
        let conjugated_translation = self.dihedral.apply_as_large((rhs.x, rhs.y));
        EvenD8Translation {
            dihedral: self.dihedral * rhs.dihedral,
            x: self.x + conjugated_translation.0,
            y: self.y + conjugated_translation.1,
        }
    }
}

impl MulSpecImpl<OddD8TranslationLarge> for OddD8TranslationSmall {
    open spec fn obeys_mul_spec() -> bool {
        true
    }

    open spec fn mul_req(self, rhs: OddD8TranslationLarge) -> bool {
        &&& point_scalable(rhs@.translation)
        &&& self@.mul_large(rhs@) matches Some(product) ==> point_representable(
            product.translation,
        )
    }

    closed spec fn mul_spec(self, rhs: OddD8TranslationLarge) -> Option<EvenD8Translation> {
        match self@.mul_large(rhs@) {
            Some(product) => Some(
                EvenD8Translation {
                    dihedral: MulSpec::mul_spec(self.dihedral, rhs.dihedral),
                    x: product.translation.0 as isize,
                    y: product.translation.1 as isize,
                },
            ),
            None => None,
        }
    }
}

impl Mul<OddD8TranslationLarge> for OddD8TranslationSmall {
    type Output = Option<EvenD8Translation>;

    /// `None` where the product is not a transform of the lattice.
    fn mul(self, rhs: OddD8TranslationLarge) -> (r: Option<EvenD8Translation>)
        ensures
            match self@.mul_large(rhs@) {
                Some(product) => r.is_some() && r.unwrap()@ == product && product.wf(),
                None => r.is_none(),
            },
    {
        match self.dihedral.apply_as_small((rhs.x, rhs.y)) {
            Some(conjugated_translation) => Some(
                EvenD8Translation {
                    dihedral: self.dihedral * rhs.dihedral,
                    x: self.x + conjugated_translation.0,
                    y: self.y + conjugated_translation.1,
                },
            ),
            None => None,
        }
    }
}

impl MulSpecImpl<OddD8TranslationSmall> for EvenD8Translation {
    open spec fn obeys_mul_spec() -> bool {
        true
    }

    open spec fn mul_req(self, rhs: OddD8TranslationSmall) -> bool {
        &&& point_negatable(rhs@.translation)
        &&& point_representable(self@.mul_small(rhs@).translation)
    }

    closed spec fn mul_spec(self, rhs: OddD8TranslationSmall) -> OddD8TranslationSmall {
        let t = self@.mul_small(rhs@).translation;
        OddD8TranslationSmall {
            dihedral: MulSpec::mul_spec(self.dihedral, rhs.dihedral),
            x: t.0 as isize,
            y: t.1 as isize,
        }
    }
}

impl Mul<OddD8TranslationSmall> for EvenD8Translation {
    type Output = OddD8TranslationSmall;

    fn mul(self, rhs: OddD8TranslationSmall) -> (r: OddD8TranslationSmall)
        ensures
            r@ == self@.mul_small(rhs@),
            r@.wf(),
    {
        let conjugated_translation = self.dihedral.apply((rhs.x, rhs.y));
        OddD8TranslationSmall {
            dihedral: self.dihedral * rhs.dihedral,
            x: self.x + conjugated_translation.0,
            y: self.y + conjugated_translation.1,
        }
    }
}

impl MulSpecImpl<OddD8TranslationLarge> for EvenD8Translation {
    open spec fn obeys_mul_spec() -> bool {
        true
    }

    open spec fn mul_req(self, rhs: OddD8TranslationLarge) -> bool {
        &&& point_negatable(rhs@.translation)
        &&& point_representable(self@.mul_large(rhs@).translation)
    }

    closed spec fn mul_spec(self, rhs: OddD8TranslationLarge) -> OddD8TranslationLarge {
        let t = self@.mul_large(rhs@).translation;
        OddD8TranslationLarge {
            dihedral: MulSpec::mul_spec(self.dihedral, rhs.dihedral),
            x: t.0 as isize,
            y: t.1 as isize,
        }
    }
}

impl Mul<OddD8TranslationLarge> for EvenD8Translation {
    type Output = OddD8TranslationLarge;

    fn mul(self, rhs: OddD8TranslationLarge) -> (r: OddD8TranslationLarge)
        ensures
            r@ == self@.mul_large(rhs@),
            r@.wf(),
    {
        let conjugated_translation = self.dihedral.apply((rhs.x, rhs.y));
        OddD8TranslationLarge {
            dihedral: self.dihedral * rhs.dihedral,
            x: self.x + conjugated_translation.0,
            y: self.y + conjugated_translation.1,
        }
    }
}

impl MulSpecImpl<EvenD8Translation> for OddD8TranslationLarge {
    open spec fn obeys_mul_spec() -> bool {
        true
    }

    open spec fn mul_req(self, rhs: EvenD8Translation) -> bool {
        &&& point_scalable(rhs@.translation)
        &&& point_representable(self@.mul_even(rhs@).translation)
    }

    closed spec fn mul_spec(self, rhs: EvenD8Translation) -> OddD8TranslationLarge {
        let t = self@.mul_even(rhs@).translation;
        OddD8TranslationLarge {
            dihedral: MulSpec::mul_spec(self.dihedral, rhs.dihedral),
            x: t.0 as isize,
            y: t.1 as isize,
        }
    }
}

impl Mul<EvenD8Translation> for OddD8TranslationLarge {
    type Output = OddD8TranslationLarge;

    fn mul(self, rhs: EvenD8Translation) -> (r: OddD8TranslationLarge)
        ensures
            r@ == self@.mul_even(rhs@),
            r@.wf(),
    {
        let conjugated_translation = self.dihedral.apply_as_large((rhs.x, rhs.y));
        OddD8TranslationLarge {
            dihedral: self.dihedral * rhs.dihedral,
            x: self.x + conjugated_translation.0,
            y: self.y + conjugated_translation.1,
        }
    }
}

impl MulSpecImpl<EvenD8Translation> for OddD8TranslationSmall {
    open spec fn obeys_mul_spec() -> bool {
        true
    }

    open spec fn mul_req(self, rhs: EvenD8Translation) -> bool {
        &&& point_scalable(rhs@.translation)
        &&& self@.mul_even(rhs@) matches Some(product) ==> point_representable(
            product.translation,
        )
    }

    closed spec fn mul_spec(self, rhs: EvenD8Translation) -> Option<OddD8TranslationSmall> {
        match self@.mul_even(rhs@) {
            Some(product) => Some(
                OddD8TranslationSmall {
                    dihedral: MulSpec::mul_spec(self.dihedral, rhs.dihedral),
                    x: product.translation.0 as isize,
                    y: product.translation.1 as isize,
                },
            ),
            None => None,
        }
    }
}

impl Mul<EvenD8Translation> for OddD8TranslationSmall {
    type Output = Option<OddD8TranslationSmall>;

    /// `None` where the product is not a transform of the lattice.
    fn mul(self, rhs: EvenD8Translation) -> (r: Option<OddD8TranslationSmall>)
        ensures
            match self@.mul_even(rhs@) {
                Some(product) => r.is_some() && r.unwrap()@ == product && product.wf(),
                None => r.is_none(),
            },
    {
        match self.dihedral.apply_as_small((rhs.x, rhs.y)) {
            Some(conjugated_translation) => Some(
                OddD8TranslationSmall {
                    dihedral: self.dihedral * rhs.dihedral,
                    x: self.x + conjugated_translation.0,
                    y: self.y + conjugated_translation.1,
                },
            ),
            None => None,
        }
    }
}

/// Undoing an even transform twice gives it back.
pub proof fn lemma_even_transform_inverse_involution(t: EvenTransform)
    requires
        t.wf(),
    ensures
        t.inv().wf(),
        t.inv().inv() == t,
{
    lemma_even_inverse_involution(t.dihedral);
    let back = t.dihedral.inv().apply(point_neg(t.translation));
    lemma_even_apply_is_linear(t.dihedral, back, back);
    lemma_even_inverse_undoes_apply(t.dihedral, point_neg(t.translation));
}

/// An even transform and its inverse compose to the identity, in either order.
pub proof fn lemma_even_transform_inverse_cancels(t: EvenTransform)
    requires
        t.wf(),
    ensures
        t.mul(t.inv()) == EvenTransform::identity(),
        t.inv().mul(t) == EvenTransform::identity(),
{
    lemma_even_inverse_cancels(t.dihedral);
    lemma_even_inverse_undoes_apply(t.dihedral, point_neg(t.translation));
    lemma_even_apply_is_linear(t.dihedral.inv(), t.translation, t.translation);
}

/// The identity is neutral for the product of even transforms.
pub proof fn lemma_even_transform_identity_neutral(t: EvenTransform)
    requires
        t.wf(),
    ensures
        EvenTransform::identity().mul(t) == t,
        t.mul(EvenTransform::identity()) == t,
{
}

/// The product of two even transforms moves points as the right factor
/// followed by the left one.
pub proof fn lemma_even_transform_mul_is_composition(
    a: EvenTransform,
    b: EvenTransform,
    p: SpecPoint,
)
    requires
        a.wf(),
        b.wf(),
    ensures
        a.mul(b).wf(),
        a.mul(b).act(p) == a.act(b.act(p)),
{
    lemma_even_mul_is_composition(a.dihedral, b.dihedral, p);
    lemma_even_apply_is_linear(a.dihedral, b.dihedral.apply(p), b.translation);
}

/// The product of even transforms is associative.
pub proof fn lemma_even_transform_mul_associative(
    a: EvenTransform,
    b: EvenTransform,
    c: EvenTransform,
)
    requires
        a.wf(),
        b.wf(),
        c.wf(),
    ensures
        a.mul(b).mul(c) == a.mul(b.mul(c)),
{
    lemma_even_mul_associative(a.dihedral, b.dihedral, c.dihedral);
    lemma_even_mul_is_composition(a.dihedral, b.dihedral, c.translation);
    lemma_even_apply_is_linear(a.dihedral, b.translation, b.dihedral.apply(c.translation));
}

/// The inverse of a small transform can always be undone, and gives the transform back.
pub proof fn lemma_small_inverse_involution(s: SmallTransform)
    requires
        s.wf(),
    ensures
        s.inv().wf(),
        s.inv().inv() == Some(s),
{
    lemma_odd_inverse_involution(s.dihedral);
    let up = s.dihedral.inv().apply_as_large(point_neg(s.translation));
    lemma_odd_apply_is_linear(s.dihedral, up, up);
    lemma_odd_inverse_undoes_apply(s.dihedral.inv(), point_neg(s.translation));
}

/// Where a large transform has an inverse, the inverse of that is the transform itself.
pub proof fn lemma_large_inverse_involution(l: LargeTransform)
    requires
        l.wf(),
        l.inv().is_some(),
    ensures
        l.inv().unwrap().wf(),
        l.inv().unwrap().inv() == l,
{
    lemma_odd_inverse_involution(l.dihedral);
    let down = l.inv().unwrap().translation;
    let twice = l.dihedral.inv().apply_as_large(point_neg(l.translation));
    assert(twice == (2 * down.0, 2 * down.1));
    lemma_odd_apply_is_linear(l.dihedral, point_neg(down), point_neg(down));
    lemma_odd_apply_is_linear(l.dihedral, down, down);
    lemma_odd_inverse_undoes_apply(l.dihedral.inv(), point_neg(l.translation));
}

/// A small transform and its inverse compose to the identity, in either order.
pub proof fn lemma_small_inverse_cancels(s: SmallTransform)
    requires
        s.wf(),
    ensures
        s.inv().mul_small(s) == EvenTransform::identity(),
        s.mul_large(s.inv()) == Some(EvenTransform::identity()),
{
    lemma_odd_inverse_cancels(s.dihedral);
    lemma_odd_inverse_involution(s.dihedral);
    lemma_odd_apply_is_linear(s.dihedral.inv(), s.translation, s.translation);
    lemma_odd_inverse_undoes_apply(s.dihedral.inv(), point_neg(s.translation));
}

} // verus!
