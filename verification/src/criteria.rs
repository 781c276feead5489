use vstd::prelude::*;

use crate::eda::{EdaPlacement, EdaPlacementDetails};

verus! {

/// A DipTrace matching rule: the placement's name and value must both equal
/// the criterion's, character for character.
#[derive(Debug, PartialEq, Eq)]
pub struct ExactMatchCriteria {
    pub name: String,
    pub value: String,
}

/// What an exact-match criterion accepts: a DipTrace placement whose name and
/// value both agree with the criterion. Placements from any other tool
/// dialect are never accepted.
pub open spec fn exact_match_criteria_matches(c: ExactMatchCriteria, p: EdaPlacement) -> bool {
    match p.details {
        EdaPlacementDetails::DipTrace(details) => {
            c.name@ == details.name@ && c.value@ == details.value@
        },
    }
}

impl ExactMatchCriteria {
    pub fn new(name: String, value: String) -> (criteria: ExactMatchCriteria)
        ensures
            criteria.name == name,
            criteria.value == value,
    {
        ExactMatchCriteria { name, value }
    }

    /// Decide whether the placement satisfies this criterion.
    pub fn matches(&self, placement: &EdaPlacement) -> (r: bool)
        ensures
            r == exact_match_criteria_matches(*self, *placement),
    {
        match &placement.details {
            EdaPlacementDetails::DipTrace(details) => {
                self.name == details.name && self.value == details.value
            },
        }
    }
}

impl Clone for ExactMatchCriteria {
    fn clone(&self) -> (other: Self)
        ensures
            other == *self,
    {
        ExactMatchCriteria { name: self.name.clone(), value: self.value.clone() }
    }
}

/// One matching rule of a part mapping, tagged by the CAD-tool dialect it
/// understands. A rule handed a placement from another dialect answers
/// `false` rather than failing.
#[derive(Debug, PartialEq, Eq)]
pub enum PlacementMappingCriteria {
    ExactMatch(ExactMatchCriteria),
}

/// What one matching rule accepts.
pub open spec fn criteria_matches(c: PlacementMappingCriteria, p: EdaPlacement) -> bool {
    match c {
        PlacementMappingCriteria::ExactMatch(em) => exact_match_criteria_matches(em, p),
    }
}

impl PlacementMappingCriteria {
    /// Decide whether the placement satisfies this rule.
    pub fn matches(&self, placement: &EdaPlacement) -> (r: bool)
        ensures
            r == criteria_matches(*self, *placement),
    {
        match self {
            PlacementMappingCriteria::ExactMatch(em) => em.matches(placement),
        }
    }
}

impl Clone for PlacementMappingCriteria {
    fn clone(&self) -> (other: Self)
        ensures
            other == *self,
    {
        match self {
            PlacementMappingCriteria::ExactMatch(em) => PlacementMappingCriteria::ExactMatch(
                em.clone(),
            ),
        }
    }
}

} // verus!
