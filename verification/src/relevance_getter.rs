//! Grammar resolution: which neighbours matter to a tile, and how that
//! knowledge passes from a tile to its children.
//!
//! The relevance list is found by a breadth-first closure search from the
//! identity. The
//! requirement list holds its inverses, entry by entry. The splitter list
//! says, for each entry of a child's requirement list, which entry of the
//! parent's list it is cut from and which half it is.

use crate::dihedral::point_negatable;
use crate::dihedral_translation::{
    lemma_even_transform_inverse_involution, EvenD8Translation, EvenTransform,
    OddD8TranslationLarge, OddD8TranslationSmall, SmallTransform,
};
use crate::auxiliary::TileSeed;
use crate::fractal_specification::{FractalSpecification, Grammar, MAX_REACH};
use vstd::prelude::*;

verus! {

/// Why a grammar could not be resolved.
#[derive(Clone, Copy, Debug, PartialEq, Eq, Structural)]
pub enum ResolveError {
    /// A production after an unsplit placement left the lattice.
    IncompatibleProduction,
    /// A placement lies further from the origin than `MAX_REACH`.
    OutOfReach,
    /// The search found more placements than the caller's limit allows.
    LimitExceeded,
    /// An entry of the requirement list is produced by no entry of the parent's list.
    UnmappedRequirement,
    /// Both candidates for an image of a tile hold a tile.
    AmbiguousImage,
    /// Neither candidate for an image of a tile holds a tile.
    NoAcceptableImage,
    /// An image of a relevant tile is not relevant itself.
    ImageNotRelevant,
}

/// The mathematical values of a sequence of placements.
pub open spec fn transform_views(s: Seq<EvenD8Translation>) -> Seq<EvenTransform> {
    s.map_values(|t: EvenD8Translation| t@)
}

/// Every placement of the sequence is well formed and within `MAX_REACH`.
pub open spec fn all_within_reach(s: Seq<EvenTransform>) -> bool {
    forall|i: int| 0 <= i < s.len() ==> (#[trigger] s[i]).wf() && s[i].within(MAX_REACH as int)
}

/// No placement occurs twice in the sequence.
pub open spec fn no_duplicates(s: Seq<EvenTransform>) -> bool {
    forall|i: int, j: int| 0 <= i < j < s.len() ==> s[i] != s[j]
}

/// The placement `production * (t * splitting⁻¹)`, where it is on the lattice.
pub open spec fn produced(
    production: SmallTransform,
    t: EvenTransform,
    splitting: SmallTransform,
) -> Option<EvenTransform> {
    production.mul_large(t.mul_large(splitting.inv()))
}

/// The two tiles that the tile at `t` produces into, by the first and by the
/// second production; `None` where a product that the search forms leaves
/// the lattice.
///
/// Each production goes with its own splitting inverse. Where that pairing
/// gives a placement that holds no tile, the other splitting inverse is taken.
pub open spec fn relevant_images(g: Grammar, t: EvenTransform) -> Option<
    (EvenTransform, EvenTransform),
> {
    match (
        produced(g.production.0, t, g.splitting.0),
        produced(g.production.1, t, g.splitting.1),
    ) {
        (Some(natural_a), Some(natural_b)) => {
            let image_a = if g.accepts(natural_a) {
                Some(natural_a)
            } else {
                produced(g.production.0, t, g.splitting.1)
            };
            let image_b = if g.accepts(natural_b) {
                Some(natural_b)
            } else {
                produced(g.production.1, t, g.splitting.0)
            };
            match (image_a, image_b) {
                (Some(a), Some(b)) => Some((a, b)),
                _ => None,
            }
        },
        _ => None,
    }
}

/// Both tiles that the tile at `t` produces into stand in `found`.
pub open spec fn images_listed(g: Grammar, found: Seq<EvenTransform>, t: EvenTransform) -> bool {
    match relevant_images(g, t) {
        Some(images) => found.contains(images.0) && found.contains(images.1),
        None => false,
    }
}

/// The state of the breadth-first closure search: what was found, in the
/// order of discovery, and how many of the found placements, from the
/// front, have been expanded. The others wait, the one found first in front.
pub struct SearchState {
    pub found: Seq<EvenTransform>,
    pub expanded: nat,
}

impl SearchState {
    /// The state that the search starts in: the identity is found and waits.
    pub open spec fn start() -> SearchState {
        SearchState { found: seq![EvenTransform::identity()], expanded: 0 }
    }

    /// The state after `t` was met: a placement that is new is found and
    /// waits behind all that wait already.
    pub open spec fn discover(self, t: EvenTransform) -> SearchState {
        if self.found.contains(t) {
            self
        } else {
            SearchState { found: self.found.push(t), expanded: self.expanded }
        }
    }

    /// The state after the placement that has waited longest has been expanded.
    pub open spec fn expand(self, g: Grammar, limit: nat) -> Result<SearchState, ResolveError>
        recommends
            self.expanded < self.found.len(),
    {
        let rest = SearchState { found: self.found, expanded: self.expanded + 1 };
        match relevant_images(g, self.found[self.expanded as int]) {
            None => Err(ResolveError::IncompatibleProduction),
            Some((a, b)) => {
                if !a.within(MAX_REACH as int) || !b.within(MAX_REACH as int) {
                    Err(ResolveError::OutOfReach)
                } else if rest.discover(a).discover(b).found.len() > limit {
                    Err(ResolveError::LimitExceeded)
                } else {
                    Ok(rest.discover(a).discover(b))
                }
            },
        }
    }

    /// The list that the search ends with, from this state on.
    pub open spec fn run(self, g: Grammar, limit: nat) -> Result<Seq<EvenTransform>, ResolveError>
        decreases limit - self.expanded,
    {
        if self.found.len() > limit {
            Err(ResolveError::LimitExceeded)
        } else if self.expanded >= self.found.len() {
            Ok(self.found)
        } else {
            match self.expand(g, limit) {
                Err(e) => Err(e),
                Ok(next) => next.run(g, limit),
            }
        }
    }
}

/// The relevance list of the grammar `g`, or the reason why it has none
/// with at most `limit` entries.
pub open spec fn relevance_search(g: Grammar, limit: nat) -> Result<
    Seq<EvenTransform>,
    ResolveError,
> {
    SearchState::start().run(g, limit)
}

/// `r` is the last position at which `t` stands in `s`, or `None` where it stands nowhere.
pub open spec fn is_last_index_of(s: Seq<EvenTransform>, t: EvenTransform, r: Option<int>) -> bool {
    match r {
        Some(i) => 0 <= i < s.len() && s[i] == t && forall|j: int| i < j < s.len() ==> s[j] != t,
        None => !s.contains(t),
    }
}

/// The last position at which `target` stands in `list`.
pub fn find_last(list: &[EvenD8Translation], target: EvenD8Translation) -> (r: Option<usize>)
    ensures
        is_last_index_of(
            transform_views(list@),
            target@,
            match r {
                Some(i) => Some(i as int),
                None => None,
            },
        ),
{
    let mut index = list.len();
    while index > 0
        invariant
            index <= list.len(),
            forall|j: int| index <= j < list.len() ==> transform_views(list@)[j] != target@,
        decreases index,
    {
        index -= 1;
        proof {
            EvenD8Translation::lemma_view_injective(list[index as int], target);
        }
        if list[index] == target {
            return Some(index);
        }
    }
    None
}

/// `production * (t * unsplit)`, with `None` where it is off the lattice.
fn produce(
    production: OddD8TranslationSmall,
    t: EvenD8Translation,
    unsplit: OddD8TranslationLarge,
) -> (r: Option<EvenD8Translation>)
    requires
        production@.within(MAX_REACH as int),
        t@.within(MAX_REACH as int),
        unsplit@.within(2 * MAX_REACH),
    ensures
        match production@.mul_large(t@.mul_large(unsplit@)) {
            Some(product) => r.is_some() && r.unwrap()@ == product && product.wf(),
            None => r.is_none(),
        },
{
    proof {
        use_type_invariant(&production);
        use_type_invariant(&t);
        use_type_invariant(&unsplit);
    }
    production * (t * unsplit)
}

/// The inverses of the two splitting transforms.
fn unsplit_pair<A: Fn(EvenD8Translation) -> bool, L: Fn(isize, isize) -> TileSeed>(fractal: &FractalSpecification<A, L>) -> (r: (
    OddD8TranslationLarge,
    OddD8TranslationLarge,
))
    ensures
        fractal@.wf(),
        r.0@ == fractal@.splitting.0.inv(),
        r.1@ == fractal@.splitting.1.inv(),
        r.0@.within(2 * MAX_REACH),
        r.1@.within(2 * MAX_REACH),
{
    let (split_a, split_b) = fractal.splitting_policy();
    (split_a.inv(), split_b.inv())
}

/// The breadth-first closure search for the placements that matter to a
/// tile's colour.
///
/// The list starts with the identity, holds no placement twice and is
/// closed: both tiles that a listed tile produces into are listed. The
/// placements are expanded in the order in which they were found. The
/// search gives up where a product leaves the lattice, where a placement
/// lies further from the origin than `MAX_REACH`, and where more than
/// `limit` placements turn up; a grammar whose closure is infinite fails
/// in one of the last two ways.
pub fn get_relevance_list<A: Fn(EvenD8Translation) -> bool, L: Fn(isize, isize) -> TileSeed>(fractal: &FractalSpecification<A, L>, limit: usize) -> (r: Result<
    Vec<EvenD8Translation>,
    ResolveError,
>)
    ensures
        match r {
            Ok(list) => relevance_search(fractal@, limit as nat) == Ok::<
                Seq<EvenTransform>,
                ResolveError,
            >(transform_views(list@)),
            Err(e) => relevance_search(fractal@, limit as nat) == Err::<
                Seq<EvenTransform>,
                ResolveError,
            >(e),
        },
        r matches Ok(list) ==> {
            let found = transform_views(list@);
            &&& 0 < found.len() <= limit
            &&& found[0] == EvenTransform::identity()
            &&& no_duplicates(found)
            &&& all_within_reach(found)
            &&& forall|i: int|
                0 <= i < found.len() ==> #[trigger] images_listed(fractal@, found, found[i])
        },
{
    let (prod_a, prod_b) = fractal.production_policy();
    let (unsplit_a, unsplit_b) = unsplit_pair(fractal);
    let identity = EvenD8Translation::identity();
    if limit == 0 {
        return Err(ResolveError::LimitExceeded);
    }
    let mut relevance_list: Vec<EvenD8Translation> = Vec::new();
    relevance_list.push(identity);
    let mut cursor: usize = 0;
    let ghost g = fractal@;
    proof {
        assert(transform_views(relevance_list@) =~= SearchState::start().found);
    }
    while cursor < relevance_list.len()
        invariant
            g == fractal@,
            g.wf(),
            (prod_a@, prod_b@) == g.production,
            unsplit_a@ == g.splitting.0.inv(),
            unsplit_b@ == g.splitting.1.inv(),
            unsplit_a@.within(2 * MAX_REACH),
            unsplit_b@.within(2 * MAX_REACH),
            cursor <= relevance_list.len(),
            0 < relevance_list.len() <= limit,
            relevance_search(g, limit as nat) == (SearchState {
                found: transform_views(relevance_list@),
                expanded: cursor as nat,
            }).run(g, limit as nat),
            transform_views(relevance_list@)[0] == EvenTransform::identity(),
            no_duplicates(transform_views(relevance_list@)),
            all_within_reach(transform_views(relevance_list@)),
            forall|i: int|
                0 <= i < cursor ==> #[trigger] images_listed(
                    g,
                    transform_views(relevance_list@),
                    transform_views(relevance_list@)[i],
                ),
        decreases limit - cursor,
    {
        let ghost before = SearchState {
            found: transform_views(relevance_list@),
            expanded: cursor as nat,
        };
        let ghost rest = SearchState { found: before.found, expanded: (cursor + 1) as nat };
        let current = relevance_list[cursor];
        proof {
            assert(current@ == before.found[cursor as int]);
            assert(before.found[cursor as int].wf());
        }
        let a_unsplit_a = match produce(prod_a, current, unsplit_a) {
            Some(t) => t,
            None => {
                return Err(ResolveError::IncompatibleProduction);
            },
        };
        let b_unsplit_b = match produce(prod_b, current, unsplit_b) {
            Some(t) => t,
            None => {
                return Err(ResolveError::IncompatibleProduction);
            },
        };
        let relevant_a = if fractal.acceptable(a_unsplit_a) {
            a_unsplit_a
        } else {
            match produce(prod_a, current, unsplit_b) {
                Some(t) => t,
                None => {
                    return Err(ResolveError::IncompatibleProduction);
                },
            }
        };
        let relevant_b = if fractal.acceptable(b_unsplit_b) {
            b_unsplit_b
        } else {
            match produce(prod_b, current, unsplit_a) {
                Some(t) => t,
                None => {
                    return Err(ResolveError::IncompatibleProduction);
                },
            }
        };
        assert(relevant_images(g, current@) == Some((relevant_a@, relevant_b@)));
        if !relevant_a.within(MAX_REACH) || !relevant_b.within(MAX_REACH) {
            return Err(ResolveError::OutOfReach);
        }
        let ghost after_a = rest.discover(relevant_a@);
        if find_last(relevance_list.as_slice(), relevant_a).is_none() {
            if relevance_list.len() >= limit {
                proof {
                    assert(after_a.discover(relevant_b@).found.len() > limit);
                }
                return Err(ResolveError::LimitExceeded);
            }
            relevance_list.push(relevant_a);
        }
        proof {
            assert(transform_views(relevance_list@) =~= after_a.found);
        }
        let ghost after_b = after_a.discover(relevant_b@);
        if find_last(relevance_list.as_slice(), relevant_b).is_none() {
            if relevance_list.len() >= limit {
                return Err(ResolveError::LimitExceeded);
            }
            relevance_list.push(relevant_b);
        }
        proof {
            assert(transform_views(relevance_list@) =~= after_b.found);
            assert(before.expand(g, limit as nat) == Ok::<SearchState, ResolveError>(after_b));
            lemma_discovery_keeps_order(before, after_a, after_b, relevant_a@, relevant_b@, g);
        }
        cursor += 1;
    }
    Ok(relevance_list)
}

/// What one expansion keeps true of the search.
proof fn lemma_discovery_keeps_order(
    before: SearchState,
    after_a: SearchState,
    after_b: SearchState,
    a: EvenTransform,
    b: EvenTransform,
    g: Grammar,
)
    requires
        before.expanded < before.found.len(),
        after_a == (SearchState { found: before.found, expanded: before.expanded + 1 }).discover(a),
        after_b == after_a.discover(b),
        relevant_images(g, before.found[before.expanded as int]) == Some((a, b)),
        a.wf() && a.within(MAX_REACH as int),
        b.wf() && b.within(MAX_REACH as int),
        no_duplicates(before.found),
        all_within_reach(before.found),
        forall|i: int|
            0 <= i < before.expanded ==> #[trigger] images_listed(g, before.found, before.found[i]),
    ensures
        after_b.expanded == before.expanded + 1,
        after_b.found[0] == before.found[0],
        no_duplicates(after_b.found),
        all_within_reach(after_b.found),
        forall|i: int|
            0 <= i < after_b.expanded ==> #[trigger] images_listed(g, after_b.found, after_b.found[i]),
{
    assert forall|t: EvenTransform| before.found.contains(t) implies after_b.found.contains(t) by {
        let k = choose|k: int| 0 <= k < before.found.len() && before.found[k] == t;
        assert(after_a.found[k] == t);
        assert(after_b.found[k] == t);
    }
    assert(after_b.found.contains(a)) by {
        if before.found.contains(a) {
        } else {
            assert(after_a.found[before.found.len() as int] == a);
            assert(after_b.found[before.found.len() as int] == a);
        }
    }
    assert(after_b.found.contains(b)) by {
        if after_a.found.contains(b) {
        } else {
            assert(after_b.found[after_a.found.len() as int] == b);
        }
    }
    assert forall|i: int| 0 <= i < after_b.expanded implies #[trigger] images_listed(
        g,
        after_b.found,
        after_b.found[i],
    ) by {
        assert(after_b.found[i] == before.found[i]);
        if i < before.expanded {
            assert(images_listed(g, before.found, before.found[i]));
            let images = relevant_images(g, before.found[i]).unwrap();
            assert(before.found.contains(images.0));
            assert(before.found.contains(images.1));
        }
    }
}

/// The inverses of the placements of `s`, entry by entry.
pub open spec fn inverses(s: Seq<EvenTransform>) -> Seq<EvenTransform> {
    s.map_values(|t: EvenTransform| t.inv())
}

/// The requirement list of a relevance list: its inverses, in the same order.
///
/// Entry `k` of the result, applied after a tile's own placement, gives the
/// placement whose colour matters to the tile at position `k`.
pub fn to_requirement_list(relevance_list: &[EvenD8Translation]) -> (r: Vec<EvenD8Translation>)
    requires
        forall|i: int|
            0 <= i < relevance_list.len() ==> point_negatable(
                (#[trigger] relevance_list[i])@.translation,
            ),
    ensures
        transform_views(r@) == inverses(transform_views(relevance_list@)),
        r.len() == relevance_list.len(),
        forall|i: int| 0 <= i < r.len() ==> (#[trigger] r[i])@ == relevance_list[i]@.inv(),
{
    let mut requirement_list: Vec<EvenD8Translation> = Vec::new();
    let mut index: usize = 0;
    while index < relevance_list.len()
        invariant
            index <= relevance_list.len(),
            requirement_list.len() == index,
            forall|i: int|
                0 <= i < relevance_list.len() ==> point_negatable(
                    (#[trigger] relevance_list[i])@.translation,
                ),
            forall|i: int|
                0 <= i < index ==> (#[trigger] requirement_list[i])@ == relevance_list[i]@.inv(),
        decreases relevance_list.len() - index,
    {
        requirement_list.push(relevance_list[index].inv());
        index += 1;
    }
    assert(transform_views(requirement_list@) =~= inverses(transform_views(relevance_list@)));
    requirement_list
}

/// The requirement list of a requirement list is the relevance list again.
pub proof fn lemma_inverses_involution(s: Seq<EvenTransform>)
    requires
        forall|i: int| 0 <= i < s.len() ==> (#[trigger] s[i]).wf(),
    ensures
        inverses(inverses(s)) == s,
{
    assert forall|i: int| 0 <= i < s.len() implies inverses(inverses(s))[i] == s[i] by {
        lemma_even_transform_inverse_involution(s[i]);
    }
    assert(inverses(inverses(s)) =~= s);
}

/// The requirement that a child of the tile with requirement `requirement`
/// has of its own: `splitting⁻¹ * requirement * production`. The splitting
/// transform is the second one for the near child, the production the
/// second one where `side` is set.
pub open spec fn candidate(g: Grammar, near: bool, requirement: EvenTransform, side: bool)
    -> EvenTransform {
    let splitting = if near {
        g.splitting.1
    } else {
        g.splitting.0
    };
    let production = if side {
        g.production.1
    } else {
        g.production.0
    };
    splitting.inv().mul_even(requirement).mul_small(production)
}

/// `r` names the last candidate, in the order "by position, first
/// production before second", that equals `target`; `None` where no candidate does.
pub open spec fn is_last_producer(
    g: Grammar,
    near: bool,
    requirements: Seq<EvenTransform>,
    target: EvenTransform,
    r: Option<(int, bool)>,
) -> bool {
    match r {
        Some((index, side)) => {
            &&& 0 <= index < requirements.len()
            &&& candidate(g, near, requirements[index], side) == target
            &&& !side ==> candidate(g, near, requirements[index], true) != target
            &&& forall|j: int|
                index < j < requirements.len() ==> candidate(g, near, #[trigger] requirements[j], false)
                    != target && candidate(g, near, requirements[j], true) != target
        },
        None => forall|j: int|
            0 <= j < requirements.len() ==> candidate(g, near, #[trigger] requirements[j], false)
                != target && candidate(g, near, requirements[j], true) != target,
    }
}

/// A pair of a position and a side, as the contracts see it.
pub open spec fn producer_view(p: (usize, bool)) -> (int, bool) {
    (p.0 as int, p.1)
}

/// `unsplit * requirement * production`.
fn make_candidate(
    unsplit: OddD8TranslationLarge,
    requirement: EvenD8Translation,
    production: OddD8TranslationSmall,
) -> (r: EvenD8Translation)
    requires
        unsplit@.within(2 * MAX_REACH),
        requirement@.within(MAX_REACH as int),
        production@.within(MAX_REACH as int),
    ensures
        r@ == unsplit@.mul_even(requirement@).mul_small(production@),
{
    proof {
        use_type_invariant(&unsplit);
        use_type_invariant(&requirement);
        use_type_invariant(&production);
    }
    unsplit * requirement * production
}

/// Whether every placement of the list is within `MAX_REACH`.
fn list_within_reach(list: &[EvenD8Translation]) -> (r: bool)
    ensures
        r == all_within_reach(transform_views(list@)),
{
    let mut index: usize = 0;
    while index < list.len()
        invariant
            index <= list.len(),
            forall|i: int|
                0 <= i < index ==> (#[trigger] transform_views(list@)[i]).wf() && transform_views(
                    list@,
                )[i].within(MAX_REACH as int),
        decreases list.len() - index,
    {
        let item = list[index];
        proof {
            use_type_invariant(&item);
        }
        if !item.within(MAX_REACH) {
            assert(!transform_views(list@)[index as int].within(MAX_REACH as int));
            return false;
        }
        index += 1;
    }
    true
}

/// The last producer of `target` among the candidates of one child.
fn find_producer<A: Fn(EvenD8Translation) -> bool, L: Fn(isize, isize) -> TileSeed>(
    fractal: &FractalSpecification<A, L>,
    near: bool,
    unsplit: OddD8TranslationLarge,
    requirement_list: &[EvenD8Translation],
    target: EvenD8Translation,
) -> (r: Option<(usize, bool)>)
    requires
        all_within_reach(transform_views(requirement_list@)),
        unsplit@ == if near {
            fractal@.splitting.1.inv()
        } else {
            fractal@.splitting.0.inv()
        },
        unsplit@.within(2 * MAX_REACH),
    ensures
        is_last_producer(
            fractal@,
            near,
            transform_views(requirement_list@),
            target@,
            match r {
                Some(p) => Some(producer_view(p)),
                None => None,
            },
        ),
{
    let (prod_a, prod_b) = fractal.production_policy();
    let ghost g = fractal@;
    let ghost requirements = transform_views(requirement_list@);
    let mut index = requirement_list.len();
    while index > 0
        invariant
            index <= requirement_list.len(),
            g == fractal@,
            g.wf(),
            requirements == transform_views(requirement_list@),
            all_within_reach(requirements),
            (prod_a@, prod_b@) == g.production,
            unsplit@ == if near {
                g.splitting.1.inv()
            } else {
                g.splitting.0.inv()
            },
            unsplit@.within(2 * MAX_REACH),
            forall|j: int|
                index <= j < requirements.len() ==> candidate(g, near, #[trigger] requirements[j], false)
                    != target@ && candidate(g, near, requirements[j], true) != target@,
        decreases index,
    {
        index -= 1;
        let requirement = requirement_list[index];
        assert(requirement@ == requirements[index as int]);
        let by_b = make_candidate(unsplit, requirement, prod_b);
        proof {
            EvenD8Translation::lemma_view_injective(by_b, target);
        }
        if by_b == target {
            return Some((index, true));
        }
        let by_a = make_candidate(unsplit, requirement, prod_a);
        proof {
            EvenD8Translation::lemma_view_injective(by_a, target);
        }
        if by_a == target {
            return Some((index, false));
        }
    }
    None
}

/// The splitter list of a requirement list.
///
/// Entry `k` is `((far_parent, far_side), (near_parent, near_side))`: the
/// far child of a tile takes, as its interval `k`, one half of the tile's
/// interval `far_parent`, the second half where `far_side` is set; likewise
/// the near child. Of several parents that produce the same requirement,
/// the last one counts.
///
/// Limit: a requirement that lies further from the origin than
/// `MAX_REACH` is refused with `OutOfReach`.
pub fn get_splitter_list<A: Fn(EvenD8Translation) -> bool, L: Fn(isize, isize) -> TileSeed>(fractal: &FractalSpecification<A, L>, requirement_list: &[EvenD8Translation])
    -> (r: Result<Vec<((usize, bool), (usize, bool))>, ResolveError>)
    ensures
        match r {
            Ok(list) => {
                let requirements = transform_views(requirement_list@);
                &&& all_within_reach(requirements)
                &&& list.len() == requirements.len()
                &&& forall|k: int|
                    0 <= k < list.len() ==> {
                        &&& is_last_producer(
                            fractal@,
                            false,
                            requirements,
                            requirements[k],
                            Some(producer_view((#[trigger] list[k]).0)),
                        )
                        &&& is_last_producer(
                            fractal@,
                            true,
                            requirements,
                            requirements[k],
                            Some(producer_view(list[k].1)),
                        )
                    }
            },
            Err(ResolveError::OutOfReach) => !all_within_reach(transform_views(requirement_list@)),
            Err(ResolveError::UnmappedRequirement) => {
                let requirements = transform_views(requirement_list@);
                &&& all_within_reach(requirements)
                &&& exists|k: int|
                    0 <= k < requirements.len() && (is_last_producer(
                        fractal@,
                        false,
                        requirements,
                        #[trigger] requirements[k],
                        None,
                    ) || is_last_producer(fractal@, true, requirements, requirements[k], None))
            },
            Err(_) => false,
        },
        r matches Ok(list) ==> forall|k: int|
            0 <= k < list.len() ==> {
                let requirements = transform_views(requirement_list@);
                let entry = #[trigger] list[k];
                &&& entry.0.0 < requirements.len()
                &&& entry.1.0 < requirements.len()
                &&& candidate(fractal@, false, requirements[entry.0.0 as int], entry.0.1)
                    == requirements[k]
                &&& candidate(fractal@, true, requirements[entry.1.0 as int], entry.1.1)
                    == requirements[k]
            },
{
    if !list_within_reach(requirement_list) {
        return Err(ResolveError::OutOfReach);
    }
    let (unsplit_far, unsplit_near) = unsplit_pair(fractal);
    let ghost requirements = transform_views(requirement_list@);
    let mut splitter_list: Vec<((usize, bool), (usize, bool))> = Vec::new();
    let mut index: usize = 0;
    while index < requirement_list.len()
        invariant
            index <= requirement_list.len(),
            splitter_list.len() == index,
            requirements == transform_views(requirement_list@),
            all_within_reach(requirements),
            unsplit_far@ == fractal@.splitting.0.inv(),
            unsplit_near@ == fractal@.splitting.1.inv(),
            unsplit_far@.within(2 * MAX_REACH),
            unsplit_near@.within(2 * MAX_REACH),
            forall|k: int|
                0 <= k < index ==> {
                    &&& is_last_producer(
                        fractal@,
                        false,
                        requirements,
                        requirements[k],
                        Some(producer_view((#[trigger] splitter_list[k]).0)),
                    )
                    &&& is_last_producer(
                        fractal@,
                        true,
                        requirements,
                        requirements[k],
                        Some(producer_view(splitter_list[k].1)),
                    )
                },
        decreases requirement_list.len() - index,
    {
        let transformation = requirement_list[index];
        assert(transformation@ == requirements[index as int]);
        let far = match find_producer(fractal, false, unsplit_far, requirement_list, transformation) {
            Some(producer) => producer,
            None => {
                return Err(ResolveError::UnmappedRequirement);
            },
        };
        let near = match find_producer(fractal, true, unsplit_near, requirement_list, transformation) {
            Some(producer) => producer,
            None => {
                return Err(ResolveError::UnmappedRequirement);
            },
        };
        splitter_list.push((far, near));
        index += 1;
    }
    Ok(splitter_list)
}

/// The tile that the tile at `t` produces into by `production`: of the two
/// placements that the two splitting inverses give, the one that holds a tile.
pub open spec fn unique_image(g: Grammar, production: SmallTransform, t: EvenTransform) -> Result<
    EvenTransform,
    ResolveError,
> {
    match (produced(production, t, g.splitting.0), produced(production, t, g.splitting.1)) {
        (Some(by_a), Some(by_b)) => {
            if g.accepts(by_a) && g.accepts(by_b) {
                Err(ResolveError::AmbiguousImage)
            } else if g.accepts(by_a) {
                Ok(by_a)
            } else if g.accepts(by_b) {
                Ok(by_b)
            } else {
                Err(ResolveError::NoAcceptableImage)
            }
        },
        _ => Err(ResolveError::IncompatibleProduction),
    }
}

/// The two substitution images of the tile at `t`, both of which must stand in `list`.
pub open spec fn weight_images(g: Grammar, list: Seq<EvenTransform>, t: EvenTransform) -> Result<
    (EvenTransform, EvenTransform),
    ResolveError,
> {
    match unique_image(g, g.production.0, t) {
        Err(e) => Err(e),
        Ok(into_a) => match unique_image(g, g.production.1, t) {
            Err(e) => Err(e),
            Ok(into_b) => if list.contains(into_a) && list.contains(into_b) {
                Ok((into_a, into_b))
            } else {
                Err(ResolveError::ImageNotRelevant)
            },
        },
    }
}

/// `positions` are the last positions in `list` of the two substitution
/// images of the tile at `t`.
pub open spec fn is_image_pair(
    g: Grammar,
    list: Seq<EvenTransform>,
    t: EvenTransform,
    positions: (usize, usize),
) -> bool {
    match weight_images(g, list, t) {
        Ok(images) => is_last_index_of(list, images.0, Some(positions.0 as int))
            && is_last_index_of(list, images.1, Some(positions.1 as int)),
        Err(_) => false,
    }
}

/// The entries of `list` before position `i` have their two images, and
/// the entry at `i` fails with `e`.
pub open spec fn first_image_failure(
    g: Grammar,
    list: Seq<EvenTransform>,
    i: int,
    e: ResolveError,
) -> bool {
    &&& 0 <= i < list.len()
    &&& weight_images(g, list, list[i]) == Err::<(EvenTransform, EvenTransform), ResolveError>(e)
    &&& forall|j: int| 0 <= j < i ==> weight_images(g, list, #[trigger] list[j]).is_ok()
}

/// The one acceptable image of `current` by `production`.
fn find_unique_image<A: Fn(EvenD8Translation) -> bool, L: Fn(isize, isize) -> TileSeed>(
    fractal: &FractalSpecification<A, L>,
    production: OddD8TranslationSmall,
    current: EvenD8Translation,
    unsplit_a: OddD8TranslationLarge,
    unsplit_b: OddD8TranslationLarge,
) -> (r: Result<EvenD8Translation, ResolveError>)
    requires
        production@.within(MAX_REACH as int),
        current@.within(MAX_REACH as int),
        unsplit_a@ == fractal@.splitting.0.inv(),
        unsplit_b@ == fractal@.splitting.1.inv(),
        unsplit_a@.within(2 * MAX_REACH),
        unsplit_b@.within(2 * MAX_REACH),
    ensures
        match r {
            Ok(image) => unique_image(fractal@, production@, current@) == Ok::<
                EvenTransform,
                ResolveError,
            >(image@),
            Err(e) => unique_image(fractal@, production@, current@) == Err::<
                EvenTransform,
                ResolveError,
            >(e),
        },
{
    let by_a = match produce(production, current, unsplit_a) {
        Some(t) => t,
        None => {
            return Err(ResolveError::IncompatibleProduction);
        },
    };
    let by_b = match produce(production, current, unsplit_b) {
        Some(t) => t,
        None => {
            return Err(ResolveError::IncompatibleProduction);
        },
    };
    let a_holds = fractal.acceptable(by_a);
    let b_holds = fractal.acceptable(by_b);
    if a_holds && b_holds {
        Err(ResolveError::AmbiguousImage)
    } else if a_holds {
        Ok(by_a)
    } else if b_holds {
        Ok(by_b)
    } else {
        Err(ResolveError::NoAcceptableImage)
    }
}

/// For each entry of the relevance list, the positions in the list of the
/// two tiles that it produces into.
///
/// Each production must give exactly one acceptable image, and that image
/// must be relevant. The first entry for which this fails decides the error.
///
/// Limit: a placement that lies further from the origin than `MAX_REACH`
/// is refused with `OutOfReach`.
pub fn get_weight_images<A: Fn(EvenD8Translation) -> bool, L: Fn(isize, isize) -> TileSeed>(fractal: &FractalSpecification<A, L>, relevance_list: &[EvenD8Translation])
    -> (r: Result<Vec<(usize, usize)>, ResolveError>)
    ensures
        match r {
            Ok(images) => {
                let list = transform_views(relevance_list@);
                &&& all_within_reach(list)
                &&& images.len() == list.len()
                &&& forall|i: int|
                    0 <= i < images.len() ==> is_image_pair(fractal@, list, list[i], #[trigger] images[i])
            },
            Err(ResolveError::OutOfReach) => !all_within_reach(transform_views(relevance_list@)),
            Err(e) => {
                let list = transform_views(relevance_list@);
                &&& all_within_reach(list)
                &&& exists|i: int| first_image_failure(fractal@, list, i, e)
            },
        },
        r matches Ok(images) ==> forall|i: int|
            0 <= i < images.len() ==> (#[trigger] images[i]).0 < images.len() && images[i].1
                < images.len(),
{
    if !list_within_reach(relevance_list) {
        return Err(ResolveError::OutOfReach);
    }
    let (production_a, production_b) = fractal.production_policy();
    let (unsplit_a, unsplit_b) = unsplit_pair(fractal);
    let ghost g = fractal@;
    let ghost list = transform_views(relevance_list@);
    let mut images: Vec<(usize, usize)> = Vec::new();
    let mut index: usize = 0;
    while index < relevance_list.len()
        invariant
            index <= relevance_list.len(),
            images.len() == index,
            g == fractal@,
            g.wf(),
            list == transform_views(relevance_list@),
            all_within_reach(list),
            (production_a@, production_b@) == g.production,
            unsplit_a@ == g.splitting.0.inv(),
            unsplit_b@ == g.splitting.1.inv(),
            unsplit_a@.within(2 * MAX_REACH),
            unsplit_b@.within(2 * MAX_REACH),
            forall|i: int| 0 <= i < index ==> is_image_pair(g, list, list[i], #[trigger] images[i]),
            forall|i: int|
                0 <= i < index ==> (#[trigger] images[i]).0 < list.len() && images[i].1 < list.len(),
        decreases relevance_list.len() - index,
    {
        let current_transformation = relevance_list[index];
        assert(current_transformation@ == list[index as int]);
        proof {
            assert forall|j: int| 0 <= j < index implies weight_images(
                g,
                list,
                #[trigger] list[j],
            ).is_ok() by {
                assert(is_image_pair(g, list, list[j], images[j]));
            }
        }
        let produces_into_a = match find_unique_image(
            fractal,
            production_a,
            current_transformation,
            unsplit_a,
            unsplit_b,
        ) {
            Ok(image) => image,
            Err(e) => {
                assert(first_image_failure(g, list, index as int, e));
                return Err(e);
            },
        };
        let produces_into_b = match find_unique_image(
            fractal,
            production_b,
            current_transformation,
            unsplit_a,
            unsplit_b,
        ) {
            Ok(image) => image,
            Err(e) => {
                assert(first_image_failure(g, list, index as int, e));
                return Err(e);
            },
        };
        let image_a = match find_last(relevance_list, produces_into_a) {
            Some(position) => position,
            None => {
                assert(first_image_failure(g, list, index as int, ResolveError::ImageNotRelevant));
                return Err(ResolveError::ImageNotRelevant);
            },
        };
        let image_b = match find_last(relevance_list, produces_into_b) {
            Some(position) => position,
            None => {
                assert(first_image_failure(g, list, index as int, ResolveError::ImageNotRelevant));
                return Err(ResolveError::ImageNotRelevant);
            },
        };
        proof {
            assert(list[image_a as int] == produces_into_a@);
            assert(list[image_b as int] == produces_into_b@);
        }
        images.push((image_a, image_b));
        index += 1;
    }
    Ok(images)
}

/// Twice the coefficient that weight `column` has in equation `row`.
///
/// Equation `row` of a tile says that its weight is half the sum of the
/// weights of its two images: minus one on the diagonal, plus a half in the
/// column of each image. The equation after the last tile's says that the
/// weights sum to one.
pub open spec fn doubled_coefficient(images: Seq<(usize, usize)>, row: int, column: int) -> int {
    if row == images.len() {
        2
    } else {
        (if images[row].0 == column {
            1int
        } else {
            0int
        }) + (if images[row].1 == column {
            1int
        } else {
            0int
        }) - (if row == column {
            2int
        } else {
            0int
        })
    }
}

/// Twice the right-hand side of equation `row`: zero for a tile's equation,
/// two for the last one.
pub open spec fn doubled_constant(tiles: int, row: int) -> int {
    if row == tiles {
        2
    } else {
        0
    }
}

/// The linear system whose solution is the weights, with every number
/// doubled so that it is an integer: one row for each tile and a last row
/// for the normalisation, one coefficient for each weight in a row.
pub fn get_weight_equations(images: &[(usize, usize)]) -> (r: Vec<Vec<i8>>)
    requires
        images.len() < usize::MAX,
    ensures
        r.len() == images.len() + 1,
        forall|row: int| 0 <= row < r.len() ==> (#[trigger] r[row]).len() == images.len(),
        forall|row: int, column: int|
            0 <= row < r.len() && 0 <= column < images.len() ==> #[trigger] r[row][column]
                == doubled_coefficient(images@, row, column),
{
    let length = images.len();
    let mut coefficients: Vec<Vec<i8>> = Vec::new();
    let mut row: usize = 0;
    while row <= length
        invariant
            length == images.len(),
            length < usize::MAX,
            row <= length + 1,
            coefficients.len() == row,
            forall|i: int| 0 <= i < row ==> (#[trigger] coefficients[i]).len() == length,
            forall|i: int, column: int|
                0 <= i < row && 0 <= column < length ==> #[trigger] coefficients[i][column]
                    == doubled_coefficient(images@, i, column),
        decreases length + 1 - row,
    {
        let mut equation: Vec<i8> = Vec::new();
        let mut column: usize = 0;
        while column < length
            invariant
                length == images.len(),
                row <= length,
                column <= length,
                equation.len() == column,
                forall|c: int|
                    0 <= c < column ==> #[trigger] equation[c] == doubled_coefficient(
                        images@,
                        row as int,
                        c,
                    ),
            decreases length - column,
        {
            let mut coefficient: i8 = 0;
            if row == length {
                coefficient = 2;
            } else {
                if images[row].0 == column {
                    coefficient += 1;
                }
                if images[row].1 == column {
                    coefficient += 1;
                }
                if row == column {
                    coefficient -= 2;
                }
            }
            equation.push(coefficient);
            column += 1;
        }
        coefficients.push(equation);
        row += 1;
    }
    coefficients
}

/// The sum of the doubled coefficients that the weights before `upto` have
/// in equation `row`.
pub open spec fn doubled_row_sum(images: Seq<(usize, usize)>, row: int, upto: int) -> int
    decreases upto,
{
    if upto <= 0 {
        0
    } else {
        doubled_row_sum(images, row, upto - 1) + doubled_coefficient(images, row, upto - 1)
    }
}

/// The sum of the coefficients of a tile's equation, as far as it has been formed.
proof fn lemma_row_sum_so_far(images: Seq<(usize, usize)>, row: int, upto: int)
    requires
        0 <= row < images.len(),
        0 <= upto,
    ensures
        doubled_row_sum(images, row, upto) == (if images[row].0 < upto {
            1int
        } else {
            0int
        }) + (if images[row].1 < upto {
            1int
        } else {
            0int
        }) - (if row < upto {
            2int
        } else {
            0int
        }),
    decreases upto,
{
    if upto > 0 {
        lemma_row_sum_so_far(images, row, upto - 1);
    }
}

/// The sum of the coefficients of the last equation, as far as it has been formed.
proof fn lemma_last_row_sum_so_far(images: Seq<(usize, usize)>, upto: int)
    requires
        0 <= upto,
    ensures
        doubled_row_sum(images, images.len() as int, upto) == 2 * upto,
    decreases upto,
{
    if upto > 0 {
        lemma_last_row_sum_so_far(images, upto - 1);
    }
}

/// The weight equations can be solved: the coefficients of every tile's
/// equation add up to zero and those of the last equation to twice the
/// number of weights, so weights that are all equal and sum to one meet
/// every equation.
pub proof fn lemma_equal_weights_solve(images: Seq<(usize, usize)>, row: int)
    requires
        0 <= row < images.len(),
        images[row].0 < images.len(),
        images[row].1 < images.len(),
    ensures
        doubled_row_sum(images, row, images.len() as int) == doubled_constant(
            images.len() as int,
            row,
        ),
        doubled_row_sum(images, images.len() as int, images.len() as int) == images.len()
            * doubled_constant(images.len() as int, images.len() as int),
{
    lemma_row_sum_so_far(images, row, images.len() as int);
    lemma_last_row_sum_so_far(images, images.len() as int);
}

/// All that is resolved from a grammar before anything is drawn.
#[derive(Debug, PartialEq, Eq)]
pub struct Resolution {
    /// The placements that matter to a tile's colour, the identity first.
    pub relevance_list: Vec<EvenD8Translation>,
    /// The inverses of the relevance list, entry by entry.
    pub requirement_list: Vec<EvenD8Translation>,
    /// How the intervals of a tile pass to its children.
    pub splitter_list: Vec<((usize, bool), (usize, bool))>,
    /// For each relevant placement, the positions of its two images.
    pub weight_images: Vec<(usize, usize)>,
}

impl Resolution {
    /// The four lists are the ones that belong to the grammar `g` and to
    /// the limit `limit` of its relevance search.
    pub open spec fn resolves(self, g: Grammar, limit: nat) -> bool {
        let relevance = transform_views(self.relevance_list@);
        let requirements = transform_views(self.requirement_list@);
        &&& relevance_search(g, limit) == Ok::<Seq<EvenTransform>, ResolveError>(relevance)
        &&& requirements == inverses(relevance)
        &&& all_within_reach(relevance)
        &&& all_within_reach(requirements)
        &&& self.requirement_list.len() == self.relevance_list.len()
        &&& self.splitter_list.len() == self.relevance_list.len()
        &&& self.weight_images.len() == self.relevance_list.len()
        &&& forall|k: int|
            0 <= k < self.splitter_list.len() ==> is_last_producer(
                g,
                false,
                requirements,
                requirements[k],
                Some(producer_view((#[trigger] self.splitter_list[k]).0)),
            ) && is_last_producer(
                g,
                true,
                requirements,
                requirements[k],
                Some(producer_view(self.splitter_list[k].1)),
            )
        &&& forall|i: int|
            0 <= i < self.weight_images.len() ==> is_image_pair(
                g,
                relevance,
                relevance[i],
                #[trigger] self.weight_images[i],
            )
    }
}

/// Some requirement is produced by no entry of the list, for the far or
/// for the near child.
pub open spec fn some_requirement_unmapped(g: Grammar, requirements: Seq<EvenTransform>) -> bool {
    exists|k: int|
        0 <= k < requirements.len() && (is_last_producer(
            g,
            false,
            requirements,
            #[trigger] requirements[k],
            None,
        ) || is_last_producer(g, true, requirements, requirements[k], None))
}

/// The resolution of the grammar `g` fails with `e`: in the relevance
/// search, else for a requirement that nothing produces, else for the
/// first relevant placement without its two images.
pub open spec fn resolution_fails(g: Grammar, limit: nat, e: ResolveError) -> bool {
    match relevance_search(g, limit) {
        Err(first) => e == first,
        Ok(relevance) => if some_requirement_unmapped(g, inverses(relevance)) {
            e == ResolveError::UnmappedRequirement
        } else {
            exists|i: int| first_image_failure(g, relevance, i, e)
        },
    }
}

/// The inverses of placements within reach are within reach.
pub proof fn lemma_inverses_within_reach(s: Seq<EvenTransform>)
    requires
        all_within_reach(s),
    ensures
        all_within_reach(inverses(s)),
{
    assert forall|i: int| 0 <= i < s.len() implies (#[trigger] inverses(s)[i]).wf() && inverses(
        s,
    )[i].within(MAX_REACH as int) by {
        assert(s[i].wf() && s[i].within(MAX_REACH as int));
        lemma_even_transform_inverse_involution(s[i]);
    }
}

/// Resolves a grammar: the relevance list by a search that gives up beyond
/// `limit` placements, then the requirement list, the splitter list and
/// the images that the weights are solved from.
pub fn resolve<A: Fn(EvenD8Translation) -> bool, L: Fn(isize, isize) -> TileSeed>(fractal: &FractalSpecification<A, L>, limit: usize) -> (r: Result<Resolution, ResolveError>)
    ensures
        match r {
            Ok(resolution) => resolution.resolves(fractal@, limit as nat),
            Err(e) => resolution_fails(fractal@, limit as nat, e),
        },
        r matches Ok(resolution) ==> forall|k: int|
            0 <= k < resolution.splitter_list.len() ==> (#[trigger] resolution.splitter_list[k]).0.0
                < resolution.splitter_list.len() && resolution.splitter_list[k].1.0
                < resolution.splitter_list.len(),
{
    let relevance_list = match get_relevance_list(fractal, limit) {
        Ok(list) => list,
        Err(e) => {
            return Err(e);
        },
    };
    let ghost g = fractal@;
    let ghost relevance = transform_views(relevance_list@);
    proof {
        assert forall|i: int| 0 <= i < relevance_list.len() implies point_negatable(
            (#[trigger] relevance_list[i])@.translation,
        ) by {
            assert(relevance[i].within(MAX_REACH as int));
        }
        lemma_inverses_within_reach(relevance);
    }
    let requirement_list = to_requirement_list(relevance_list.as_slice());
    let ghost requirements = transform_views(requirement_list@);
    let splitter_list = match get_splitter_list(fractal, requirement_list.as_slice()) {
        Ok(list) => list,
        Err(e) => {
            return Err(e);
        },
    };
    proof {
        assert(!some_requirement_unmapped(g, requirements)) by {
            if some_requirement_unmapped(g, requirements) {
                let k = choose|k: int|
                    0 <= k < requirements.len() && (is_last_producer(
                        g,
                        false,
                        requirements,
                        #[trigger] requirements[k],
                        None,
                    ) || is_last_producer(g, true, requirements, requirements[k], None));
                let entry = splitter_list[k];
                assert(is_last_producer(
                    g,
                    false,
                    requirements,
                    requirements[k],
                    Some(producer_view(entry.0)),
                ));
                assert(is_last_producer(
                    g,
                    true,
                    requirements,
                    requirements[k],
                    Some(producer_view(entry.1)),
                ));
                let far = requirements[entry.0.0 as int];
                let near = requirements[entry.1.0 as int];
                assert(candidate(g, false, far, entry.0.1) == requirements[k]);
                assert(candidate(g, true, near, entry.1.1) == requirements[k]);
            }
        }
    }
    let weight_images = match get_weight_images(fractal, relevance_list.as_slice()) {
        Ok(images) => images,
        Err(e) => {
            return Err(e);
        },
    };
    Ok(Resolution { relevance_list, requirement_list, splitter_list, weight_images })
}

} // verus!
