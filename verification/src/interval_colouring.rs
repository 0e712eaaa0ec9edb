//! Colour intervals: colours that can be halved again and again.
//!
//! An interval shows one colour and splits into two intervals, one for each
//! half of its range. The library never looks into a colour. It hands out
//! keys, and the caller, who owns the palette and the gradients, turns a key
//! into a colour.

use std::rc::Rc;
use vstd::arithmetic::power2::{lemma_pow2_unfold, pow2};
use vstd::prelude::*;

verus! {

/// The name of a colour.
#[derive(Clone, Copy, Debug, PartialEq, Eq, Hash, Structural)]
pub enum ColourKey {
    /// The entry of the caller's palette with this number.
    Fixed(usize),
    /// The colour that the caller's gradient with this number takes at the
    /// point `numerator / denominator` of the unit interval.
    Graded { gradient: usize, numerator: u64, denominator: u64 },
}

/// The mathematical value of a [`ColourInterval`]. Sharing does not show in it.
pub enum IntervalModel {
    /// The same colour on the whole range, however often it is split.
    Constant(ColourKey),
    /// The part `[numerator / denominator, (numerator + 1) / denominator]`
    /// of a gradient.
    Function { gradient: usize, numerator: int, denominator: int },
    /// A colour for the whole range, and an interval for each half.
    Tree { colour: ColourKey, left: Box<IntervalModel>, right: Box<IntervalModel> },
}

impl IntervalModel {
    /// The colour that stands for the whole range: for a part of a
    /// gradient, the gradient at the middle of the part.
    pub open spec fn colour(self) -> ColourKey {
        match self {
            IntervalModel::Constant(colour) => colour,
            IntervalModel::Function { gradient, numerator, denominator } => ColourKey::Graded {
                gradient,
                numerator: (2 * numerator + 1) as u64,
                denominator: (2 * denominator) as u64,
            },
            IntervalModel::Tree { colour, left, right } => colour,
        }
    }

    /// The intervals of the first and of the second half of the range.
    pub open spec fn halves(self) -> (IntervalModel, IntervalModel) {
        match self {
            IntervalModel::Constant(colour) => (self, self),
            IntervalModel::Function { gradient, numerator, denominator } => (
                IntervalModel::Function {
                    gradient,
                    numerator: 2 * numerator,
                    denominator: 2 * denominator,
                },
                IntervalModel::Function {
                    gradient,
                    numerator: 2 * numerator + 1,
                    denominator: 2 * denominator,
                },
            ),
            IntervalModel::Tree { colour, left, right } => (*left, *right),
        }
    }

    /// The second half where `second` is set, else the first.
    pub open spec fn half(self, second: bool) -> IntervalModel {
        if second {
            self.halves().1
        } else {
            self.halves().0
        }
    }

    /// The interval reached by taking halves as `path` says, first entry first.
    pub open spec fn descend(self, path: Seq<bool>) -> IntervalModel
        decreases path.len(),
    {
        if path.len() == 0 {
            self
        } else {
            self.half(path[0]).descend(path.drop_first())
        }
    }

    /// The numbers of a part of a gradient fit the machine, those of its middle too.
    pub open spec fn representable(self) -> bool {
        match self {
            IntervalModel::Function { gradient, numerator, denominator } => 0 <= numerator
                < denominator && 2 * denominator <= u64::MAX,
            _ => true,
        }
    }

    /// The halves are representable.
    pub open spec fn can_split(self) -> bool {
        self.halves().0.representable() && self.halves().1.representable()
    }

    /// The interval can be split `depth` times in a row, whichever halves are taken.
    pub open spec fn splittable(self, depth: nat) -> bool
        decreases depth,
    {
        depth > 0 ==> self.can_split() && self.halves().0.splittable((depth - 1) as nat)
            && self.halves().1.splittable((depth - 1) as nat)
    }
}

/// An interval that shows one colour throughout.
#[derive(Clone, Copy, Debug)]
pub struct ConstantInterval(ColourKey);

/// A part of a gradient, which starts as the whole of it.
#[derive(Clone, Copy, Debug)]
pub struct FunctionInterval {
    gradient: usize,
    numerator: u64,
    denominator: u64,
}

/// An interval with a colour of its own and two shared children.
pub struct TreeInterval {
    colour: ColourKey,
    left_child: Rc<ColourInterval>,
    right_child: Rc<ColourInterval>,
}

/// A colour interval of any kind.
pub enum ColourInterval {
    Constant(ConstantInterval),
    Function(FunctionInterval),
    Tree(TreeInterval),
    /// Another handle to an interval that stands elsewhere too.
    Shared(Rc<ColourInterval>),
}

/// `Rc::clone`: a second handle to the allocation behind `interval`. The
/// handle points to the same value, so the two are equal.
#[verifier::external_body]
fn share(interval: &Rc<ColourInterval>) -> (r: Rc<ColourInterval>)
    ensures
        r == *interval,
{
    Rc::clone(interval)
}

impl View for ConstantInterval {
    type V = IntervalModel;

    closed spec fn view(&self) -> IntervalModel {
        IntervalModel::Constant(self.0)
    }
}

impl View for FunctionInterval {
    type V = IntervalModel;

    closed spec fn view(&self) -> IntervalModel {
        IntervalModel::Function {
            gradient: self.gradient,
            numerator: self.numerator as int,
            denominator: self.denominator as int,
        }
    }
}

impl View for TreeInterval {
    type V = IntervalModel;

    closed spec fn view(&self) -> IntervalModel {
        IntervalModel::Tree {
            colour: self.colour,
            left: Box::new(self.left_child.model()),
            right: Box::new(self.right_child.model()),
        }
    }
}

impl View for ColourInterval {
    type V = IntervalModel;

    closed spec fn view(&self) -> IntervalModel {
        self.model()
    }
}

impl ConstantInterval {
    /// The interval that shows `colour` throughout.
    pub fn from(colour: ColourKey) -> (r: ConstantInterval)
        ensures
            r@ == IntervalModel::Constant(colour),
    {
        ConstantInterval(colour)
    }

    /// The colour of the interval.
    pub fn get(&self) -> (colour: ColourKey)
        ensures
            colour == self@.colour(),
    {
        self.0
    }

    /// Both halves show the same colour as the whole.
    pub fn split(&self) -> (r: (ColourInterval, ColourInterval))
        ensures
            r.0@ == self@.halves().0,
            r.1@ == self@.halves().1,
    {
        (ColourInterval::Constant(*self), ColourInterval::Constant(*self))
    }
}

impl FunctionInterval {
    /// The invariant of the type: the part lies in the unit interval, and
    /// the numbers of its middle fit the machine.
    #[verifier::type_invariant]
    pub open spec fn well_formed(self) -> bool {
        self@.representable()
    }

    /// The whole of the caller's gradient with the number `gradient`.
    pub fn from(gradient: usize) -> (r: FunctionInterval)
        ensures
            r@ == (IntervalModel::Function { gradient, numerator: 0, denominator: 1 }),
    {
        FunctionInterval { gradient, numerator: 0, denominator: 1 }
    }

    /// The gradient at the middle of the part.
    pub fn get(&self) -> (colour: ColourKey)
        ensures
            colour == self@.colour(),
    {
        proof {
            use_type_invariant(self);
        }
        ColourKey::Graded {
            gradient: self.gradient,
            numerator: 2 * self.numerator + 1,
            denominator: 2 * self.denominator,
        }
    }

    /// Whether the part can be halved once more: whether the numbers of the
    /// halves and of their middles still fit the machine. A gradient can be
    /// halved sixty-two times in a row.
    pub fn can_split(&self) -> (r: bool)
        ensures
            r == self@.can_split(),
    {
        proof {
            use_type_invariant(self);
        }
        self.denominator <= u64::MAX / 4
    }

    /// The two halves of the part.
    pub fn split(&self) -> (r: (ColourInterval, ColourInterval))
        requires
            self@.can_split(),
        ensures
            r.0@ == self@.halves().0,
            r.1@ == self@.halves().1,
    {
        proof {
            use_type_invariant(self);
        }
        (
            ColourInterval::Function(
                FunctionInterval {
                    gradient: self.gradient,
                    numerator: 2 * self.numerator,
                    denominator: 2 * self.denominator,
                },
            ),
            ColourInterval::Function(
                FunctionInterval {
                    gradient: self.gradient,
                    numerator: 2 * self.numerator + 1,
                    denominator: 2 * self.denominator,
                },
            ),
        )
    }
}

impl TreeInterval {
    /// The interval that shows `colour` as a whole, `left_child` in its first
    /// half and `right_child` in its second.
    pub fn new(colour: ColourKey, left_child: Rc<ColourInterval>, right_child: Rc<ColourInterval>)
        -> (r: TreeInterval)
        ensures
            r@ == (IntervalModel::Tree {
                colour,
                left: Box::new(left_child@),
                right: Box::new(right_child@),
            }),
    {
        TreeInterval { colour, left_child, right_child }
    }

    /// The colour that the tree shows as a whole.
    pub fn get(&self) -> (colour: ColourKey)
        ensures
            colour == self@.colour(),
    {
        self.colour
    }

    /// The two children, shared and not copied.
    pub fn split(&self) -> (r: (ColourInterval, ColourInterval))
        ensures
            r.0@ == self@.halves().0,
            r.1@ == self@.halves().1,
    {
        (
            ColourInterval::Shared(share(&self.left_child)),
            ColourInterval::Shared(share(&self.right_child)),
        )
    }
}

impl ColourInterval {
    /// The mathematical value, with every shared handle looked through.
    pub closed spec fn model(&self) -> IntervalModel
        decreases self,
    {
        match self {
            ColourInterval::Constant(interval) => IntervalModel::Constant(interval.0),
            ColourInterval::Function(interval) => IntervalModel::Function {
                gradient: interval.gradient,
                numerator: interval.numerator as int,
                denominator: interval.denominator as int,
            },
            ColourInterval::Tree(interval) => IntervalModel::Tree {
                colour: interval.colour,
                left: Box::new(interval.left_child.model()),
                right: Box::new(interval.right_child.model()),
            },
            ColourInterval::Shared(interval) => interval.model(),
        }
    }

    /// The colour that stands for the whole range.
    pub fn get(&self) -> (colour: ColourKey)
        ensures
            colour == self@.colour(),
        decreases self,
    {
        match self {
            ColourInterval::Constant(interval) => interval.get(),
            ColourInterval::Function(interval) => interval.get(),
            ColourInterval::Tree(interval) => interval.get(),
            ColourInterval::Shared(interval) => ColourInterval::get(&**interval),
        }
    }

    /// Whether the numbers of the interval fit the machine. They always do.
    fn representable(&self) -> (r: bool)
        ensures
            r == self@.representable(),
            r,
        decreases self,
    {
        match self {
            ColourInterval::Constant(_) => true,
            ColourInterval::Function(interval) => {
                proof {
                    use_type_invariant(interval);
                }
                true
            },
            ColourInterval::Tree(_) => true,
            ColourInterval::Shared(interval) => ColourInterval::representable(&**interval),
        }
    }

    /// Whether the interval can be halved: always for a constant and for a
    /// tree, and for a part of a gradient as long as the numbers of the
    /// halves fit the machine.
    pub fn can_split(&self) -> (r: bool)
        ensures
            r == self@.can_split(),
        decreases self,
    {
        match self {
            ColourInterval::Constant(_) => true,
            ColourInterval::Function(interval) => interval.can_split(),
            ColourInterval::Tree(interval) => {
                ColourInterval::representable(&*interval.left_child) && ColourInterval::representable(
                    &*interval.right_child,
                )
            },
            ColourInterval::Shared(interval) => ColourInterval::can_split(&**interval),
        }
    }

    /// The intervals of the first and of the second half of the range.
    pub fn split(&self) -> (r: (ColourInterval, ColourInterval))
        requires
            self@.can_split(),
        ensures
            r.0@ == self@.halves().0,
            r.1@ == self@.halves().1,
        decreases self,
    {
        match self {
            ColourInterval::Constant(interval) => interval.split(),
            ColourInterval::Function(interval) => interval.split(),
            ColourInterval::Tree(interval) => interval.split(),
            ColourInterval::Shared(interval) => ColourInterval::split(&**interval),
        }
    }

    /// The mathematical value of a variant is that of what it holds.
    pub proof fn lemma_model_of_variant(self)
        ensures
            self matches ColourInterval::Constant(interval) ==> self@ == interval@,
            self matches ColourInterval::Function(interval) ==> self@ == interval@,
            self matches ColourInterval::Tree(interval) ==> self@ == interval@,
            self matches ColourInterval::Shared(interval) ==> self@ == interval@,
    {
    }
}

/// What every kind of colour interval offers: a colour for the whole of its
/// range, and an interval for each half.
pub trait SplitInterval {
    /// The mathematical value of the interval.
    spec fn interval_model(&self) -> IntervalModel;

    /// The colour that stands for the whole range.
    fn get(&self) -> (colour: ColourKey)
        ensures
            colour == self.interval_model().colour(),
    ;

    /// The intervals of the first and of the second half of the range.
    fn split(&self) -> (r: (ColourInterval, ColourInterval))
        requires
            self.interval_model().can_split(),
        ensures
            r.0@ == self.interval_model().halves().0,
            r.1@ == self.interval_model().halves().1,
    ;
}

impl SplitInterval for ConstantInterval {
    open spec fn interval_model(&self) -> IntervalModel {
        self@
    }

    fn get(&self) -> (colour: ColourKey) {
        ConstantInterval::get(self)
    }

    fn split(&self) -> (r: (ColourInterval, ColourInterval)) {
        ConstantInterval::split(self)
    }
}

impl SplitInterval for FunctionInterval {
    open spec fn interval_model(&self) -> IntervalModel {
        self@
    }

    fn get(&self) -> (colour: ColourKey) {
        FunctionInterval::get(self)
    }

    fn split(&self) -> (r: (ColourInterval, ColourInterval)) {
        FunctionInterval::split(self)
    }
}

impl SplitInterval for TreeInterval {
    open spec fn interval_model(&self) -> IntervalModel {
        self@
    }

    fn get(&self) -> (colour: ColourKey) {
        TreeInterval::get(self)
    }

    fn split(&self) -> (r: (ColourInterval, ColourInterval)) {
        TreeInterval::split(self)
    }
}

impl SplitInterval for ColourInterval {
    open spec fn interval_model(&self) -> IntervalModel {
        self@
    }

    fn get(&self) -> (colour: ColourKey) {
        ColourInterval::get(self)
    }

    fn split(&self) -> (r: (ColourInterval, ColourInterval)) {
        ColourInterval::split(self)
    }
}

impl<T: SplitInterval> SplitInterval for Rc<T> {
    open spec fn interval_model(&self) -> IntervalModel {
        (**self).interval_model()
    }

    fn get(&self) -> (colour: ColourKey) {
        (**self).get()
    }

    fn split(&self) -> (r: (ColourInterval, ColourInterval)) {
        (**self).split()
    }
}

/// A constant interval shows its colour however it is split: whichever
/// halves are taken, and however many, the colour is the one it started with.
pub proof fn lemma_constant_keeps_colour(colour: ColourKey, path: Seq<bool>)
    ensures
        IntervalModel::Constant(colour).descend(path) == IntervalModel::Constant(colour),
        IntervalModel::Constant(colour).descend(path).colour() == colour,
        IntervalModel::Constant(colour).splittable(path.len()),
    decreases path.len(),
{
    if path.len() > 0 {
        lemma_constant_keeps_colour(colour, path.drop_first());
        lemma_constant_splittable(colour, (path.len() - 1) as nat);
    }
}

/// A constant interval can be split any number of times.
pub proof fn lemma_constant_splittable(colour: ColourKey, depth: nat)
    ensures
        IntervalModel::Constant(colour).splittable(depth),
    decreases depth,
{
    if depth > 0 {
        lemma_constant_splittable(colour, (depth - 1) as nat);
    }
}

/// What a split gives depends on the interval alone, not on the splits
/// that led to it: two intervals with the same value have the same halves,
/// with the same colours.
pub proof fn lemma_split_depends_on_value_alone(a: IntervalModel, b: IntervalModel, second: bool)
    requires
        a == b,
    ensures
        a.half(second) == b.half(second),
        a.half(second).colour() == b.half(second).colour(),
{
}

/// An interval that can be split `depth` times can be split fewer times too,
/// and so can its halves one time less.
pub proof fn lemma_splittable_monotonic(interval: IntervalModel, depth: nat, fewer: nat)
    requires
        interval.splittable(depth),
        fewer <= depth,
    ensures
        interval.splittable(fewer),
    decreases fewer,
{
    if fewer > 0 {
        lemma_splittable_monotonic(interval.halves().0, (depth - 1) as nat, (fewer - 1) as nat);
        lemma_splittable_monotonic(interval.halves().1, (depth - 1) as nat, (fewer - 1) as nat);
    }
}

/// The halves of a part of a gradient show the gradient at one quarter and
/// at three quarters of the part, whatever splits led to the part: the
/// colours depend on the gradient and on the ends of the part alone.
pub proof fn lemma_gradient_halves(gradient: usize, numerator: int, denominator: int)
    requires
        (IntervalModel::Function { gradient, numerator, denominator }).representable(),
        (IntervalModel::Function { gradient, numerator, denominator }).can_split(),
    ensures
        (IntervalModel::Function { gradient, numerator, denominator }).half(false).colour() == (
        ColourKey::Graded {
            gradient,
            numerator: (4 * numerator + 1) as u64,
            denominator: (4 * denominator) as u64,
        }),
        (IntervalModel::Function { gradient, numerator, denominator }).half(true).colour() == (
        ColourKey::Graded {
            gradient,
            numerator: (4 * numerator + 3) as u64,
            denominator: (4 * denominator) as u64,
        }),
        (IntervalModel::Function { gradient, numerator, denominator }).half(false).representable(),
        (IntervalModel::Function { gradient, numerator, denominator }).half(true).representable(),
{
}

/// A part of a gradient can be split as long as the denominators, which
/// double with every split, fit the machine.
pub proof fn lemma_gradient_splittable(gradient: usize, numerator: int, denominator: int, depth: nat)
    requires
        0 <= numerator < denominator,
        2 * denominator * pow2(depth) <= u64::MAX,
    ensures
        (IntervalModel::Function { gradient, numerator, denominator }).splittable(depth),
    decreases depth,
{
    if depth > 0 {
        lemma_pow2_unfold(depth);
        let below = (depth - 1) as nat;
        assert(2 * (2 * denominator) * pow2(below) == 2 * denominator * pow2(depth))
            by (nonlinear_arith)
            requires
                pow2(depth) == 2 * pow2(below),
        ;
        vstd::arithmetic::power2::lemma_pow2_pos(below);
        assert(2 * (2 * denominator) <= 2 * (2 * denominator) * pow2(below)) by (nonlinear_arith)
            requires
                pow2(below) >= 1,
                denominator >= 0,
        ;
        lemma_gradient_splittable(gradient, 2 * numerator, 2 * denominator, below);
        lemma_gradient_splittable(gradient, 2 * numerator + 1, 2 * denominator, below);
    }
}

/// A tree can be split one time more than both of its children.
pub proof fn lemma_tree_splittable(
    colour: ColourKey,
    left: IntervalModel,
    right: IntervalModel,
    depth: nat,
)
    requires
        left.representable(),
        right.representable(),
        depth > 0 ==> left.splittable((depth - 1) as nat) && right.splittable((depth - 1) as nat),
    ensures
        (IntervalModel::Tree { colour, left: Box::new(left), right: Box::new(right) }).splittable(
            depth,
        ),
{
}

} // verus!
