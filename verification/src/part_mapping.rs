use vstd::prelude::*;

use crate::criteria::{criteria_matches, PlacementMappingCriteria};
use crate::eda::EdaPlacement;
use crate::pnp::Part;

verus! {

/// A part-mapping rule: one part together with the matching rules under which
/// a placement should use it. The rules are an alternation: any one of them
/// matching is sufficient for the mapping to match.
#[derive(Debug, PartialEq, Eq)]
pub struct PartMapping {
    pub part: Part,
    pub criteria: Vec<PlacementMappingCriteria>,
}

/// The mathematical content of a part mapping: the part and the sequence of
/// matching rules.
#[verifier::ext_equal]
pub struct PartMappingView {
    pub part: Part,
    pub criteria: Seq<PlacementMappingCriteria>,
}

impl View for PartMapping {
    type V = PartMappingView;

    open spec fn view(&self) -> PartMappingView {
        PartMappingView { part: self.part, criteria: self.criteria@ }
    }
}

/// A mapping matches a placement when at least one of its rules does.
pub open spec fn mapping_matches(m: PartMappingView, p: EdaPlacement) -> bool {
    exists|i: int| 0 <= i < m.criteria.len() && #[trigger] criteria_matches(m.criteria[i], p)
}

/// The views of a sequence of part mappings, in order.
pub open spec fn mappings_view(mappings: Seq<PartMapping>) -> Seq<PartMappingView> {
    mappings.map_values(|m: PartMapping| m@)
}

/// The candidate mappings for one placement: the sub-sequence of mappings
/// that match it, in their original order. Each mapping contributes at most
/// one entry, however many of its rules individually match.
pub open spec fn candidates_for(mappings: Seq<PartMappingView>, p: EdaPlacement) -> Seq<
    PartMappingView,
> {
    mappings.filter(|m: PartMappingView| mapping_matches(m, p))
}

/// Extending the examined prefix of the mapping list by one mapping extends
/// the candidate list by that mapping exactly when it matches.
pub proof fn lemma_candidates_for_take_step(ms: Seq<PartMappingView>, p: EdaPlacement, i: int)
    requires
        0 <= i < ms.len(),
    ensures
        candidates_for(ms.take(i + 1), p) == (if mapping_matches(ms[i], p) {
            candidates_for(ms.take(i), p).push(ms[i])
        } else {
            candidates_for(ms.take(i), p)
        }),
{
    reveal(Seq::filter);
    assert(ms.take(i + 1).drop_last() =~= ms.take(i));
    assert(ms.take(i + 1).last() == ms[i]);
}

/// De-duplication law: appending one mapping to the list adds exactly one
/// candidate when any of its rules matches the placement, and none otherwise
/// — never one entry per matching rule.
pub proof fn lemma_mapping_contributes_at_most_one(
    ms: Seq<PartMappingView>,
    m: PartMappingView,
    p: EdaPlacement,
)
    ensures
        candidates_for(ms.push(m), p) == (if mapping_matches(m, p) {
            candidates_for(ms, p).push(m)
        } else {
            candidates_for(ms, p)
        }),
{
    reveal(Seq::filter);
    assert(ms.push(m).drop_last() =~= ms);
    assert(ms.push(m).last() == m);
}

/// A placement that no mapping matches has no candidates.
pub proof fn lemma_candidates_for_none(ms: Seq<PartMappingView>, p: EdaPlacement)
    requires
        forall|i: int| 0 <= i < ms.len() ==> !mapping_matches(#[trigger] ms[i], p),
    ensures
        candidates_for(ms, p) =~= Seq::<PartMappingView>::empty(),
    decreases ms.len(),
{
    reveal(Seq::filter);
    if ms.len() > 0 {
        assert(!mapping_matches(ms[ms.len() - 1], p));
        assert(forall|i: int|
            0 <= i < ms.drop_last().len() ==> #[trigger] ms.drop_last()[i] == ms[i]);
        lemma_candidates_for_none(ms.drop_last(), p);
    }
}

/// A placement that exactly one mapping matches has that mapping as its only
/// candidate.
pub proof fn lemma_candidates_for_single(ms: Seq<PartMappingView>, p: EdaPlacement, j: int)
    requires
        0 <= j < ms.len(),
        mapping_matches(ms[j], p),
        forall|i: int| 0 <= i < ms.len() && i != j ==> !mapping_matches(#[trigger] ms[i], p),
    ensures
        candidates_for(ms, p) =~= seq![ms[j]],
    decreases ms.len(),
{
    reveal(Seq::filter);
    assert(forall|i: int| 0 <= i < ms.drop_last().len() ==> #[trigger] ms.drop_last()[i] == ms[i]);
    if j == ms.len() - 1 {
        lemma_candidates_for_none(ms.drop_last(), p);
    } else {
        assert(!mapping_matches(ms[ms.len() - 1], p));
        lemma_candidates_for_single(ms.drop_last(), p, j);
    }
}

impl PartMapping {
    pub fn new(part: Part, criteria: Vec<PlacementMappingCriteria>) -> (mapping: PartMapping)
        ensures
            mapping@.part == part,
            mapping@.criteria == criteria@,
    {
        PartMapping { part, criteria }
    }

    /// Decide whether any of this mapping's rules accepts the placement.
    pub fn matches(&self, placement: &EdaPlacement) -> (r: bool)
        ensures
            r == mapping_matches(self@, *placement),
    {
        let mut i: usize = 0;
        while i < self.criteria.len()
            invariant
                i <= self.criteria@.len(),
                forall|j: int| 0 <= j < i ==> !criteria_matches(self.criteria@[j], *placement),
            decreases self.criteria@.len() - i,
        {
            if self.criteria[i].matches(placement) {
                assert(criteria_matches(self@.criteria[i as int], *placement));
                return true;
            }
            i += 1;
        }
        false
    }
}

impl Clone for PartMapping {
    fn clone(&self) -> (other: Self)
        ensures
            other@ == self@,
    {
        let mut criteria: Vec<PlacementMappingCriteria> = Vec::new();
        let mut i: usize = 0;
        while i < self.criteria.len()
            invariant
                i <= self.criteria@.len(),
                criteria@ =~= self.criteria@.take(i as int),
            decreases self.criteria@.len() - i,
        {
            criteria.push(self.criteria[i].clone());
            i += 1;
        }
        assert(criteria@ =~= self.criteria@);
        let other = PartMapping { part: self.part.clone(), criteria };
        assert(other@ =~= self@);
        other
    }
}

} // verus!
