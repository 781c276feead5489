use vstd::prelude::*;

verus! {

/// The descriptive fields a DipTrace export carries for one placement: the
/// symbolic component name and its value.
#[derive(Debug, PartialEq, Eq)]
pub struct DipTracePlacementDetails {
    pub name: String,
    pub value: String,
}

impl Clone for DipTracePlacementDetails {
    fn clone(&self) -> (other: Self)
        ensures
            other == *self,
    {
        DipTracePlacementDetails { name: self.name.clone(), value: self.value.clone() }
    }
}

/// Tool-specific descriptive fields of a placement, tagged by the CAD tool
/// that exported them. New tool dialects add new variants.
#[derive(Debug, PartialEq, Eq)]
pub enum EdaPlacementDetails {
    DipTrace(DipTracePlacementDetails),
}

impl Clone for EdaPlacementDetails {
    fn clone(&self) -> (other: Self)
        ensures
            other == *self,
    {
        match self {
            EdaPlacementDetails::DipTrace(details) => EdaPlacementDetails::DipTrace(
                details.clone(),
            ),
        }
    }
}

/// One component placement on a board: its reference designator (a label
/// unique on the board, e.g. "R1") plus the CAD-tool-specific details.
#[derive(Debug, PartialEq, Eq)]
pub struct EdaPlacement {
    pub ref_des: String,
    pub details: EdaPlacementDetails,
}

impl Clone for EdaPlacement {
    fn clone(&self) -> (other: Self)
        ensures
            other == *self,
    {
        EdaPlacement { ref_des: self.ref_des.clone(), details: self.details.clone() }
    }
}

} // verus!
