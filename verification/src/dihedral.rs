//! The two orientation groups of the tiling.
//!
//! An element is "flip first (negate y), then turn by `rot` quarter turns".
//! The even kind is the symmetry group of the square. The odd kind carries an
//! extra eighth turn anticlockwise and, applied to points, a scale by the
//! square root of two, so that two odd elements compose to an even one.

use std::ops::Mul;
use vstd::prelude::*;
use vstd::std_specs::ops::{MulSpec, MulSpecImpl};

verus! {

/// A lattice point as the contracts see it.
pub type SpecPoint = (int, int);

/// `p` mirrored in the x axis when `flip` is set.
pub open spec fn mirror(p: SpecPoint, flip: bool) -> SpecPoint {
    if flip {
        (p.0, -p.1)
    } else {
        p
    }
}

/// `p` turned anticlockwise by `k` quarter turns about the origin.
pub open spec fn quarter_turns(p: SpecPoint, k: int) -> SpecPoint {
    let r = k % 4;
    if r == 0 {
        p
    } else if r == 1 {
        (-p.1, p.0)
    } else if r == 2 {
        (-p.0, -p.1)
    } else {
        (p.1, -p.0)
    }
}

/// `p` turned anticlockwise by an eighth turn and scaled by the square root of two.
pub open spec fn eighth_turn_scaled(p: SpecPoint) -> SpecPoint {
    (p.0 - p.1, p.0 + p.1)
}

/// Both coordinates are representable and can be negated.
pub open spec fn point_negatable(p: SpecPoint) -> bool {
    isize::MIN < p.0 <= isize::MAX && isize::MIN < p.1 <= isize::MAX
}

/// The sum and the difference of the coordinates are representable and can be negated.
pub open spec fn point_scalable(p: SpecPoint) -> bool {
    &&& point_negatable(p)
    &&& isize::MIN < p.0 - p.1 <= isize::MAX
    &&& isize::MIN < p.0 + p.1 <= isize::MAX
}

/// The mathematical value of an [`EvenD8`].
pub struct EvenSymmetry {
    pub flip: bool,
    pub rot: int,
}

/// The mathematical value of an [`OddD8`]: `rot` counts the quarter turns
/// that follow the built-in eighth turn.
pub struct OddSymmetry {
    pub flip: bool,
    pub rot: int,
}

impl EvenSymmetry {
    /// The rotation is reduced modulo four.
    pub open spec fn wf(self) -> bool {
        0 <= self.rot < 4
    }

    /// The element that moves nothing.
    pub open spec fn identity() -> EvenSymmetry {
        EvenSymmetry { flip: false, rot: 0 }
    }

    /// The image of `p`: mirror, then turn.
    pub open spec fn apply(self, p: SpecPoint) -> SpecPoint {
        quarter_turns(mirror(p, self.flip), self.rot)
    }

    /// A reflection is its own inverse; a rotation is undone by the opposite rotation.
    pub open spec fn inv(self) -> EvenSymmetry {
        EvenSymmetry { flip: self.flip, rot: if self.flip { self.rot % 4 } else { (-self.rot) % 4 } }
    }

    /// `self` after `rhs`.
    pub open spec fn mul(self, rhs: EvenSymmetry) -> EvenSymmetry {
        if self.flip {
            EvenSymmetry { flip: !rhs.flip, rot: (self.rot - rhs.rot) % 4 }
        } else {
            EvenSymmetry { flip: rhs.flip, rot: (self.rot + rhs.rot) % 4 }
        }
    }

    /// `self` after the odd element `rhs`.
    pub open spec fn mul_odd(self, rhs: OddSymmetry) -> OddSymmetry {
        if self.flip {
            OddSymmetry { flip: !rhs.flip, rot: (self.rot - rhs.rot - 1) % 4 }
        } else {
            OddSymmetry { flip: rhs.flip, rot: (self.rot + rhs.rot) % 4 }
        }
    }
}

impl OddSymmetry {
    /// The rotation is reduced modulo four.
    pub open spec fn wf(self) -> bool {
        0 <= self.rot < 4
    }

    /// The image of `p` on the large lattice: mirror, eighth turn with scale, then turn.
    pub open spec fn apply_as_large(self, p: SpecPoint) -> SpecPoint {
        quarter_turns(eighth_turn_scaled(mirror(p, self.flip)), self.rot)
    }

    /// The image of `p` on the small lattice: half of the large image, where
    /// that is a lattice point.
    pub open spec fn apply_as_small(self, p: SpecPoint) -> Option<SpecPoint> {
        let q = self.apply_as_large(p);
        if q.0 % 2 == 0 && q.1 % 2 == 0 {
            Some((q.0 / 2, q.1 / 2))
        } else {
            None
        }
    }

    /// A reflection is its own inverse; a rotation is undone by the rotation
    /// that completes it to the full turn less the two eighth turns.
    pub open spec fn inv(self) -> OddSymmetry {
        OddSymmetry { flip: self.flip, rot: if self.flip { self.rot } else { 3 - self.rot } }
    }

    /// `self` after the odd element `rhs`; the two eighth turns add up to a quarter turn.
    pub open spec fn mul(self, rhs: OddSymmetry) -> EvenSymmetry {
        if self.flip {
            EvenSymmetry { flip: !rhs.flip, rot: (self.rot - rhs.rot) % 4 }
        } else {
            EvenSymmetry { flip: rhs.flip, rot: (self.rot + rhs.rot + 1) % 4 }
        }
    }

    /// `self` after the even element `rhs`.
    pub open spec fn mul_even(self, rhs: EvenSymmetry) -> OddSymmetry {
        if self.flip {
            OddSymmetry { flip: !rhs.flip, rot: (self.rot - rhs.rot) % 4 }
        } else {
            OddSymmetry { flip: rhs.flip, rot: (self.rot + rhs.rot) % 4 }
        }
    }
}

/// `value` reduced to `0..4`, for a value that is at most four away from that range.
fn reduce_rot(value: i8) -> (r: i8)
    requires
        -4 <= value < 8,
    ensures
        r == value as int % 4,
        0 <= r < 4,
{
    if value < 0 {
        value + 4
    } else if value >= 4 {
        value - 4
    } else {
        value
    }
}

/// An orientation without the eighth turn: one of the eight symmetries of the square.
#[derive(Clone, Copy, Hash, Eq, PartialEq, Debug, Structural)]
pub struct EvenD8 {
    flip: bool,
    rot: i8,
}

impl View for EvenD8 {
    type V = EvenSymmetry;

    closed spec fn view(&self) -> EvenSymmetry {
        EvenSymmetry { flip: self.flip, rot: self.rot as int }
    }
}

impl EvenD8 {
    /// The invariant of the type: the rotation is reduced modulo four.
    #[verifier::type_invariant]
    pub open spec fn well_formed(self) -> bool {
        self@.wf()
    }

    /// The element with the given flip and `rot` quarter turns, `rot` taken modulo four.
    pub fn new(flip: bool, rot: i8) -> (r: EvenD8)
        ensures
            r@ == (EvenSymmetry { flip, rot: rot as int % 4 }),
            r@.wf(),
    {
        let reduced = match rot.checked_rem_euclid(4) {
            Some(m) => m,
            None => 0,
        };
        EvenD8 { flip, rot: reduced }
    }

    /// The neutral element of the group.
    pub fn identity() -> (r: EvenD8)
        ensures
            r@ == EvenSymmetry::identity(),
    {
        EvenD8 { flip: false, rot: 0 }
    }

    /// Whether the element mirrors before it turns.
    pub fn flipped(self) -> (r: bool)
        ensures
            r == self@.flip,
    {
        self.flip
    }

    /// Two values are the same exactly where their mathematical values are.
    pub proof fn lemma_view_injective(a: Self, b: Self)
        ensures
            (a@ == b@) == (a == b),
    {
    }

    /// The product that the machine computes has the product of the
    /// mathematical values as its value.
    pub proof fn lemma_mul_spec(a: EvenD8, b: EvenD8)
        requires
            a@.wf(),
            b@.wf(),
        ensures
            MulSpec::mul_spec(a, b)@ == a@.mul(b@),
    {
    }

    /// The value with the mathematical value `v`.
    pub closed spec fn from_view(v: EvenSymmetry) -> EvenD8 {
        EvenD8 { flip: v.flip, rot: v.rot as i8 }
    }

    /// A well-formed mathematical value is that of the value made from it.
    pub proof fn lemma_from_view(v: EvenSymmetry)
        requires
            v.wf(),
        ensures
            EvenD8::from_view(v)@ == v,
    {
    }

    /// The number of quarter turns, in `0..4`.
    pub fn rot(self) -> (r: i8)
        ensures
            r == self@.rot,
            0 <= r < 4,
    {
        proof {
            use_type_invariant(&self);
        }
        self.rot
    }

    /// The element that undoes this one.
    pub fn inv(self) -> (r: EvenD8)
        ensures
            r@ == self@.inv(),
            r@.wf(),
    {
        proof {
            use_type_invariant(&self);
        }
        EvenD8 { flip: self.flip, rot: reduce_rot(if self.flip { self.rot } else { -self.rot }) }
    }

    /// The image of `point`: mirrored where the element flips, then turned.
    pub fn apply(self, point: (isize, isize)) -> (r: (isize, isize))
        requires
            point_negatable((point.0 as int, point.1 as int)),
        ensures
            (r.0 as int, r.1 as int) == self@.apply((point.0 as int, point.1 as int)),
            point_negatable((r.0 as int, r.1 as int)),
    {
        proof {
            use_type_invariant(&self);
        }
        let point = if self.flip {
            (point.0, -point.1)
        } else {
            point
        };
        let point = if self.rot == 1 || self.rot == 3 {
            (-point.1, point.0)
        } else {
            point
        };
        let point = if self.rot >= 2 {
            (-point.0, -point.1)
        } else {
            point
        };
        point
    }
}

impl MulSpecImpl<EvenD8> for EvenD8 {
    open spec fn obeys_mul_spec() -> bool {
        true
    }

    open spec fn mul_req(self, rhs: EvenD8) -> bool {
        true
    }

    closed spec fn mul_spec(self, rhs: EvenD8) -> EvenD8 {
        if self.flip {
            EvenD8 { flip: !rhs.flip, rot: ((self.rot - rhs.rot) % 4) as i8 }
        } else {
            EvenD8 { flip: rhs.flip, rot: ((self.rot + rhs.rot) % 4) as i8 }
        }
    }
}

impl Mul<EvenD8> for EvenD8 {
    type Output = EvenD8;

    fn mul(self, rhs: EvenD8) -> (r: EvenD8)
        ensures
            r@ == self@.mul(rhs@),
            r@.wf(),
    {
        proof {
            use_type_invariant(&self);
            use_type_invariant(&rhs);
        }
        if self.flip {
            EvenD8 { flip: !rhs.flip, rot: reduce_rot(self.rot - rhs.rot) }
        } else {
            EvenD8 { flip: rhs.flip, rot: reduce_rot(self.rot + rhs.rot) }
        }
    }
}

/// An orientation with the eighth turn: `rot` zero is an eighth turn
/// anticlockwise, and each further unit is a quarter turn.
#[derive(Clone, Copy, Hash, Eq, PartialEq, Debug, Structural)]
pub struct OddD8 {
    flip: bool,
    rot: i8,
}

impl View for OddD8 {
    type V = OddSymmetry;

    closed spec fn view(&self) -> OddSymmetry {
        OddSymmetry { flip: self.flip, rot: self.rot as int }
    }
}

impl OddD8 {
    /// The invariant of the type: the rotation is reduced modulo four.
    #[verifier::type_invariant]
    pub open spec fn well_formed(self) -> bool {
        self@.wf()
    }

    /// The element with the given flip and `rot` quarter turns, `rot` taken modulo four.
    pub fn new(flip: bool, rot: i8) -> (r: OddD8)
        ensures
            r@ == (OddSymmetry { flip, rot: rot as int % 4 }),
            r@.wf(),
    {
        let reduced = match rot.checked_rem_euclid(4) {
            Some(m) => m,
            None => 0,
        };
        OddD8 { flip, rot: reduced }
    }

    /// Whether the element mirrors before it turns.
    pub fn flipped(self) -> (r: bool)
        ensures
            r == self@.flip,
    {
        self.flip
    }

    /// Two values are the same exactly where their mathematical values are.
    pub proof fn lemma_view_injective(a: Self, b: Self)
        ensures
            (a@ == b@) == (a == b),
    {
    }

    /// The number of quarter turns after the eighth turn, in `0..4`.
    pub fn rot(self) -> (r: i8)
        ensures
            r == self@.rot,
            0 <= r < 4,
    {
        proof {
            use_type_invariant(&self);
        }
        self.rot
    }

    /// The element that undoes this one.
    pub fn inv(self) -> (r: OddD8)
        ensures
            r@ == self@.inv(),
            r@.wf(),
    {
        proof {
            use_type_invariant(&self);
        }
        OddD8 { flip: self.flip, rot: if self.flip { self.rot } else { 3 - self.rot } }
    }

    /// The image of `point` on the large lattice: mirrored where the element
    /// flips, turned by an eighth turn with the scale, then turned by quarter turns.
    pub fn apply_as_large(self, point: (isize, isize)) -> (r: (isize, isize))
        requires
            point_scalable((point.0 as int, point.1 as int)),
        ensures
            (r.0 as int, r.1 as int) == self@.apply_as_large((point.0 as int, point.1 as int)),
            point_negatable((r.0 as int, r.1 as int)),
    {
        proof {
            use_type_invariant(&self);
        }
        let point = if self.flip {
            (point.0, -point.1)
        } else {
            point
        };
        let point = (point.0 - point.1, point.0 + point.1);
        let point = if self.rot == 1 || self.rot == 3 {
            (-point.1, point.0)
        } else {
            point
        };
        let point = if self.rot >= 2 {
            (-point.0, -point.1)
        } else {
            point
        };
        point
    }

    /// `None` where the image is not a point of the small lattice.
    pub fn apply_as_small(self, point: (isize, isize)) -> (r: Option<(isize, isize)>)
        requires
            point_scalable((point.0 as int, point.1 as int)),
        ensures
            match self@.apply_as_small((point.0 as int, point.1 as int)) {
                Some(q) => r.is_some() && (r.unwrap().0 as int, r.unwrap().1 as int) == q
                    && point_negatable(q),
                None => r.is_none(),
            },
    {
        let point = self.apply_as_large(point);
        let rem_x = point.0.checked_rem_euclid(2);
        let rem_y = point.1.checked_rem_euclid(2);
        if rem_x != Some(0) || rem_y != Some(0) {
            None
        } else {
            match (point.0.checked_div_euclid(2), point.1.checked_div_euclid(2)) {
                (Some(x), Some(y)) => Some((x, y)),
                _ => None,
            }
        }
    }
}

impl MulSpecImpl<OddD8> for OddD8 {
    open spec fn obeys_mul_spec() -> bool {
        true
    }

    open spec fn mul_req(self, rhs: OddD8) -> bool {
        true
    }

    closed spec fn mul_spec(self, rhs: OddD8) -> EvenD8 {
        if self.flip {
            EvenD8 { flip: !rhs.flip, rot: ((self.rot - rhs.rot) % 4) as i8 }
        } else {
            EvenD8 { flip: rhs.flip, rot: ((self.rot + rhs.rot + 1) % 4) as i8 }
        }
    }
}

impl Mul<OddD8> for OddD8 {
    type Output = EvenD8;

    fn mul(self, rhs: OddD8) -> (r: EvenD8)
        ensures
            r@ == self@.mul(rhs@),
            r@.wf(),
    {
        proof {
            use_type_invariant(&self);
            use_type_invariant(&rhs);
        }
        if self.flip {
            EvenD8 { flip: !rhs.flip, rot: reduce_rot(self.rot - rhs.rot) }
        } else {
            EvenD8 { flip: rhs.flip, rot: reduce_rot(self.rot + rhs.rot + 1) }
        }
    }
}

impl MulSpecImpl<OddD8> for EvenD8 {
    open spec fn obeys_mul_spec() -> bool {
        true
    }

    open spec fn mul_req(self, rhs: OddD8) -> bool {
        true
    }

    closed spec fn mul_spec(self, rhs: OddD8) -> OddD8 {
        if self.flip {
            OddD8 { flip: !rhs.flip, rot: ((self.rot - rhs.rot - 1) % 4) as i8 }
        } else {
            OddD8 { flip: rhs.flip, rot: ((self.rot + rhs.rot) % 4) as i8 }
        }
    }
}

impl Mul<OddD8> for EvenD8 {
    type Output = OddD8;

    fn mul(self, rhs: OddD8) -> (r: OddD8)
        ensures
            r@ == self@.mul_odd(rhs@),
            r@.wf(),
    {
        proof {
            use_type_invariant(&self);
            use_type_invariant(&rhs);
        }
        if self.flip {
            OddD8 { flip: !rhs.flip, rot: reduce_rot(self.rot - rhs.rot - 1) }
        } else {
            OddD8 { flip: rhs.flip, rot: reduce_rot(self.rot + rhs.rot) }
        }
    }
}

impl MulSpecImpl<EvenD8> for OddD8 {
    open spec fn obeys_mul_spec() -> bool {
        true
    }

    open spec fn mul_req(self, rhs: EvenD8) -> bool {
        true
    }

    closed spec fn mul_spec(self, rhs: EvenD8) -> OddD8 {
        if self.flip {
            OddD8 { flip: !rhs.flip, rot: ((self.rot - rhs.rot) % 4) as i8 }
        } else {
            OddD8 { flip: rhs.flip, rot: ((self.rot + rhs.rot) % 4) as i8 }
        }
    }
}

impl Mul<EvenD8> for OddD8 {
    type Output = OddD8;

    fn mul(self, rhs: EvenD8) -> (r: OddD8)
        ensures
            r@ == self@.mul_even(rhs@),
            r@.wf(),
    {
        proof {
            use_type_invariant(&self);
            use_type_invariant(&rhs);
        }
        if self.flip {
            OddD8 { flip: !rhs.flip, rot: reduce_rot(self.rot - rhs.rot) }
        } else {
            OddD8 { flip: rhs.flip, rot: reduce_rot(self.rot + rhs.rot) }
        }
    }
}

/// Undoing an even element twice gives it back.
pub proof fn lemma_even_inverse_involution(s: EvenSymmetry)
    requires
        s.wf(),
    ensures
        s.inv().wf(),
        s.inv().inv() == s,
{
}

/// An even element and its inverse compose to the identity, in either order.
pub proof fn lemma_even_inverse_cancels(s: EvenSymmetry)
    requires
        s.wf(),
    ensures
        s.mul(s.inv()) == EvenSymmetry::identity(),
        s.inv().mul(s) == EvenSymmetry::identity(),
{
}

/// The inverse of an even element moves every point back where it came from.
pub proof fn lemma_even_inverse_undoes_apply(s: EvenSymmetry, p: SpecPoint)
    requires
        s.wf(),
    ensures
        s.inv().apply(s.apply(p)) == p,
        s.apply(s.inv().apply(p)) == p,
{
}

/// The product of two even elements acts as the right factor followed by the left one.
pub proof fn lemma_even_mul_is_composition(a: EvenSymmetry, b: EvenSymmetry, p: SpecPoint)
    requires
        a.wf(),
        b.wf(),
    ensures
        a.mul(b).wf(),
        a.mul(b).apply(p) == a.apply(b.apply(p)),
{
}

/// The product of even elements is associative.
pub proof fn lemma_even_mul_associative(a: EvenSymmetry, b: EvenSymmetry, c: EvenSymmetry)
    requires
        a.wf(),
        b.wf(),
        c.wf(),
    ensures
        a.mul(b).mul(c) == a.mul(b.mul(c)),
{
    let ab = a.mul(b);
    let bc = b.mul(c);
    assert(ab.rot == 0 || ab.rot == 1 || ab.rot == 2 || ab.rot == 3);
    assert(bc.rot == 0 || bc.rot == 1 || bc.rot == 2 || bc.rot == 3);
    assert(a.rot == 0 || a.rot == 1 || a.rot == 2 || a.rot == 3);
    assert(c.rot == 0 || c.rot == 1 || c.rot == 2 || c.rot == 3);
}

/// An even element maps sums to sums and negations to negations.
pub proof fn lemma_even_apply_is_linear(s: EvenSymmetry, p: SpecPoint, q: SpecPoint)
    ensures
        s.apply((p.0 + q.0, p.1 + q.1)) == (s.apply(p).0 + s.apply(q).0, s.apply(p).1 + s.apply(
            q,
        ).1),
        s.apply((-p.0, -p.1)) == (-s.apply(p).0, -s.apply(p).1),
{
}

/// Undoing an odd element twice gives it back.
pub proof fn lemma_odd_inverse_involution(s: OddSymmetry)
    requires
        s.wf(),
    ensures
        s.inv().wf(),
        s.inv().inv() == s,
{
}

/// An odd element and its inverse compose to the even identity, in either order.
pub proof fn lemma_odd_inverse_cancels(s: OddSymmetry)
    requires
        s.wf(),
    ensures
        s.mul(s.inv()) == EvenSymmetry::identity(),
        s.inv().mul(s) == EvenSymmetry::identity(),
{
}

/// Two odd elements applied in turn on the large lattice give twice the image
/// under their even product.
pub proof fn lemma_odd_mul_is_composition(a: OddSymmetry, b: OddSymmetry, p: SpecPoint)
    requires
        a.wf(),
        b.wf(),
    ensures
        a.mul(b).wf(),
        a.apply_as_large(b.apply_as_large(p)) == (2 * a.mul(b).apply(p).0, 2 * a.mul(b).apply(p).1),
{
}

/// The mixed products act as the right factor followed by the left one.
pub proof fn lemma_mixed_mul_is_composition(e: EvenSymmetry, o: OddSymmetry, p: SpecPoint)
    requires
        e.wf(),
        o.wf(),
    ensures
        e.mul_odd(o).wf(),
        o.mul_even(e).wf(),
        e.mul_odd(o).apply_as_large(p) == e.apply(o.apply_as_large(p)),
        o.mul_even(e).apply_as_large(p) == o.apply_as_large(e.apply(p)),
{
}

/// An odd element maps sums to sums and negations to negations.
pub proof fn lemma_odd_apply_is_linear(s: OddSymmetry, p: SpecPoint, q: SpecPoint)
    ensures
        s.apply_as_large((p.0 + q.0, p.1 + q.1)) == (
            s.apply_as_large(p).0 + s.apply_as_large(q).0,
            s.apply_as_large(p).1 + s.apply_as_large(q).1,
        ),
        s.apply_as_large((-p.0, -p.1)) == (-s.apply_as_large(p).0, -s.apply_as_large(p).1),
{
}

/// An odd element followed by its inverse, both on the large lattice, doubles every point;
/// on the small lattice the inverse therefore undoes the large image exactly.
pub proof fn lemma_odd_inverse_undoes_apply(s: OddSymmetry, p: SpecPoint)
    requires
        s.wf(),
    ensures
        s.inv().apply_as_large(s.apply_as_large(p)) == (2 * p.0, 2 * p.1),
        s.apply_as_large(s.inv().apply_as_large(p)) == (2 * p.0, 2 * p.1),
        s.inv().apply_as_small(s.apply_as_large(p)) == Some(p),
        s.apply_as_small(s.inv().apply_as_large(p)) == Some(p),
{
}

} // verus!
