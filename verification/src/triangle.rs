//! A triangle: one tile, with the colour intervals of the neighbours that
//! matter to it.

use crate::dihedral_translation::EvenD8Translation;
use crate::interval_colouring::{
    lemma_splittable_monotonic, ColourInterval, ColourKey, IntervalModel,
};
use vstd::prelude::*;
use vstd::std_specs::ops::MulSpec;

verus! {

/// One entry of a splitter list: for the far child and for the near child,
/// the position of the parent's interval that the child's interval is cut
/// from, and whether it is the second half.
pub type SplitterEntry = ((usize, bool), (usize, bool));

/// Every position that the splitter list names is below `parents`.
pub open spec fn splitter_fits(splitter: Seq<SplitterEntry>, parents: nat) -> bool {
    forall|k: int|
        0 <= k < splitter.len() ==> (#[trigger] splitter[k]).0.0 < parents && splitter[k].1.0
            < parents
}

/// The intervals of the far child of a triangle with the intervals `parent`.
pub open spec fn far_child(parent: Seq<IntervalModel>, splitter: Seq<SplitterEntry>) -> Seq<
    IntervalModel,
> {
    Seq::new(splitter.len(), |k: int| parent[splitter[k].0.0 as int].half(splitter[k].0.1))
}

/// The intervals of the near child of a triangle with the intervals `parent`.
pub open spec fn near_child(parent: Seq<IntervalModel>, splitter: Seq<SplitterEntry>) -> Seq<
    IntervalModel,
> {
    Seq::new(splitter.len(), |k: int| parent[splitter[k].1.0 as int].half(splitter[k].1.1))
}

/// Every interval can be split `depth` times in a row.
pub open spec fn all_splittable(intervals: Seq<IntervalModel>, depth: nat) -> bool {
    forall|i: int| 0 <= i < intervals.len() ==> (#[trigger] intervals[i]).splittable(depth)
}

/// The colours that stand for the intervals, in their order.
pub open spec fn colours_of(intervals: Seq<IntervalModel>) -> Seq<ColourKey> {
    intervals.map_values(|interval: IntervalModel| interval.colour())
}

/// A tile's snapshot of its neighbourhood: one colour interval for each
/// entry of the requirement list, in the list's order.
pub struct Triangle {
    required: Vec<ColourInterval>,
}

impl View for Triangle {
    type V = Seq<IntervalModel>;

    closed spec fn view(&self) -> Seq<IntervalModel> {
        self.required@.map_values(|interval: ColourInterval| interval@)
    }
}

impl Triangle {
    /// The intervals as the machine holds them.
    pub closed spec fn intervals(&self) -> Seq<ColourInterval> {
        self.required@
    }

    /// The mathematical value is that of the intervals, one by one.
    pub proof fn lemma_view_of_intervals(&self)
        ensures
            self@.len() == self.intervals().len(),
            forall|k: int| 0 <= k < self@.len() ==> #[trigger] self@[k] == self.intervals()[k]@,
    {
    }

    /// The triangle of the tile at `location`: for each requirement, the
    /// colouring of the placement `location * requirement`.
    pub fn new<F>(
        location: EvenD8Translation,
        colouring: &F,
        requirement_list: &[EvenD8Translation],
    ) -> (r: Triangle) where F: Fn(EvenD8Translation) -> ColourInterval
        requires
            forall|k: int|
                0 <= k < requirement_list.len() ==> location.mul_req(#[trigger] requirement_list[k]),
            forall|placement: EvenD8Translation| call_requires(colouring, (placement,)),
        ensures
            r.intervals().len() == requirement_list.len(),
            forall|k: int|
                0 <= k < requirement_list.len() ==> call_ensures(
                    colouring,
                    (location.mul_spec(requirement_list[k]),),
                    #[trigger] r.intervals()[k],
                ),
    {
        let mut required: Vec<ColourInterval> = Vec::new();
        let mut index: usize = 0;
        while index < requirement_list.len()
            invariant
                index <= requirement_list.len(),
                required.len() == index,
                forall|k: int|
                    0 <= k < requirement_list.len() ==> location.mul_req(
                        #[trigger] requirement_list[k],
                    ),
                forall|placement: EvenD8Translation| call_requires(colouring, (placement,)),
                forall|k: int|
                    0 <= k < index ==> call_ensures(
                        colouring,
                        (location.mul_spec(requirement_list[k]),),
                        #[trigger] required[k],
                    ),
            decreases requirement_list.len() - index,
        {
            let current = location * requirement_list[index];
            required.push(colouring(current));
            index += 1;
        }
        Triangle { required }
    }

    /// The far and the near child of the triangle, as the splitter list
    /// cuts them from it.
    pub fn split(&self, splitter_list: &[SplitterEntry]) -> (r: (Triangle, Triangle))
        requires
            splitter_fits(splitter_list@, self@.len()),
            forall|k: int|
                0 <= k < splitter_list.len() ==> self@[(#[trigger] splitter_list[k]).0.0 as int].can_split()
                    && self@[splitter_list[k].1.0 as int].can_split(),
        ensures
            r.0@ == far_child(self@, splitter_list@),
            r.1@ == near_child(self@, splitter_list@),
    {
        let mut next_required_a: Vec<ColourInterval> = Vec::new();
        let mut next_required_b: Vec<ColourInterval> = Vec::new();
        let mut index: usize = 0;
        while index < splitter_list.len()
            invariant
                index <= splitter_list.len(),
                next_required_a.len() == index,
                next_required_b.len() == index,
                splitter_fits(splitter_list@, self@.len()),
                forall|k: int|
                    0 <= k < splitter_list.len() ==> self@[(#[trigger] splitter_list[k]).0.0 as int].can_split()
                        && self@[splitter_list[k].1.0 as int].can_split(),
                forall|k: int|
                    0 <= k < index ==> (#[trigger] next_required_a[k])@ == far_child(
                        self@,
                        splitter_list@,
                    )[k],
                forall|k: int|
                    0 <= k < index ==> (#[trigger] next_required_b[k])@ == near_child(
                        self@,
                        splitter_list@,
                    )[k],
            decreases splitter_list.len() - index,
        {
            let ((parent_a, a_type), (parent_b, b_type)) = splitter_list[index];
            assert(self@[parent_a as int] == self.required[parent_a as int]@);
            assert(self@[parent_b as int] == self.required[parent_b as int]@);
            let halves_a = self.required[parent_a].split();
            next_required_a.push(
                if a_type {
                    halves_a.1
                } else {
                    halves_a.0
                },
            );
            let halves_b = self.required[parent_b].split();
            next_required_b.push(
                if b_type {
                    halves_b.1
                } else {
                    halves_b.0
                },
            );
            index += 1;
        }
        let far = Triangle { required: next_required_a };
        let near = Triangle { required: next_required_b };
        assert(far@ =~= far_child(self@, splitter_list@));
        assert(near@ =~= near_child(self@, splitter_list@));
        (far, near)
    }

    /// The colour of each interval, in the intervals' order, for the
    /// caller to blend by the triangle weights.
    pub fn get_colours(&self) -> (r: Vec<ColourKey>)
        ensures
            r@ == colours_of(self@),
    {
        let mut colours: Vec<ColourKey> = Vec::new();
        let mut index: usize = 0;
        while index < self.required.len()
            invariant
                index <= self.required.len(),
                colours.len() == index,
                forall|k: int| 0 <= k < index ==> #[trigger] colours[k] == self@[k].colour(),
            decreases self.required.len() - index,
        {
            colours.push(self.required[index].get());
            index += 1;
        }
        assert(colours@ =~= colours_of(self@));
        colours
    }
}

/// The children of a triangle that can be split `depth` times can be split
/// one time less.
pub proof fn lemma_children_splittable(
    parent: Seq<IntervalModel>,
    splitter: Seq<SplitterEntry>,
    depth: nat,
)
    requires
        depth > 0,
        splitter_fits(splitter, parent.len()),
        all_splittable(parent, depth),
    ensures
        all_splittable(far_child(parent, splitter), (depth - 1) as nat),
        all_splittable(near_child(parent, splitter), (depth - 1) as nat),
        far_child(parent, splitter).len() == splitter.len(),
        near_child(parent, splitter).len() == splitter.len(),
        forall|k: int|
            0 <= k < splitter.len() ==> parent[(#[trigger] splitter[k]).0.0 as int].can_split()
                && parent[splitter[k].1.0 as int].can_split(),
{
    assert forall|k: int| 0 <= k < splitter.len() implies parent[(#[trigger] splitter[k]).0.0 as int].can_split()
        && parent[splitter[k].1.0 as int].can_split() by {
        assert(parent[splitter[k].0.0 as int].splittable(depth));
        assert(parent[splitter[k].1.0 as int].splittable(depth));
    }
    assert forall|i: int| 0 <= i < splitter.len() implies (#[trigger] far_child(
        parent,
        splitter,
    )[i]).splittable((depth - 1) as nat) by {
        assert(parent[splitter[i].0.0 as int].splittable(depth));
    }
    assert forall|i: int| 0 <= i < splitter.len() implies (#[trigger] near_child(
        parent,
        splitter,
    )[i]).splittable((depth - 1) as nat) by {
        assert(parent[splitter[i].1.0 as int].splittable(depth));
    }
}

/// Intervals that can be split `depth` times can be split fewer times too.
pub proof fn lemma_all_splittable_monotonic(intervals: Seq<IntervalModel>, depth: nat, fewer: nat)
    requires
        all_splittable(intervals, depth),
        fewer <= depth,
    ensures
        all_splittable(intervals, fewer),
{
    assert forall|i: int| 0 <= i < intervals.len() implies (#[trigger] intervals[i]).splittable(
        fewer,
    ) by {
        lemma_splittable_monotonic(intervals[i], depth, fewer);
    }
}

/// Entry `k` of the splitter list cuts both children from the parent's
/// interval `k`: the far child gets the first half, the near child the second.
pub open spec fn is_identity_splitter(splitter: Seq<SplitterEntry>) -> bool {
    forall|k: int|
        0 <= k < splitter.len() ==> (#[trigger] splitter[k]).0 == (k as usize, false)
            && splitter[k].1 == (k as usize, true)
}

/// Under the identity splitter the two children of a triangle are the two
/// halves of the parent, interval by interval; where the parent's
/// intervals are constant, each child shows the parent's colours again.
pub proof fn lemma_identity_splitter_recombines(
    parent: Seq<IntervalModel>,
    splitter: Seq<SplitterEntry>,
)
    requires
        is_identity_splitter(splitter),
        splitter.len() == parent.len(),
        parent.len() <= usize::MAX,
    ensures
        forall|k: int|
            0 <= k < parent.len() ==> (
                far_child(parent, splitter)[k],
                near_child(parent, splitter)[k],
            ) == (#[trigger] parent[k]).halves(),
        (forall|k: int| 0 <= k < parent.len() ==> (#[trigger] parent[k]) is Constant) ==> colours_of(
            far_child(parent, splitter),
        ) == colours_of(parent) && colours_of(near_child(parent, splitter)) == colours_of(parent),
{
    assert forall|k: int| 0 <= k < parent.len() implies (
        far_child(parent, splitter)[k],
        near_child(parent, splitter)[k],
    ) == (#[trigger] parent[k]).halves() by {
        assert(splitter[k].0 == (k as usize, false));
        assert(splitter[k].1 == (k as usize, true));
    }
    if forall|k: int| 0 <= k < parent.len() ==> (#[trigger] parent[k]) is Constant {
        assert forall|k: int| 0 <= k < parent.len() implies far_child(parent, splitter)[k]
            == parent[k] && near_child(parent, splitter)[k] == #[trigger] parent[k] by {
            assert(parent[k] is Constant);
            assert((far_child(parent, splitter)[k], near_child(parent, splitter)[k])
                == parent[k].halves());
        }
        assert(far_child(parent, splitter) =~= parent);
        assert(near_child(parent, splitter) =~= parent);
    }
}

} // verus!
