use vstd::prelude::*;

verus! {

/// A concrete electronic part, identified by its manufacturer together with
/// the manufacturer's part number. Both strings are opaque labels; two parts
/// denote the same part exactly when both strings agree.
#[derive(Debug, PartialEq, Eq)]
pub struct Part {
    pub manufacturer: String,
    pub mpn: String,
}

impl Part {
    pub fn new(manufacturer: String, mpn: String) -> (part: Part)
        ensures
            part.manufacturer == manufacturer,
            part.mpn == mpn,
    {
        Part { manufacturer, mpn }
    }
}

impl Clone for Part {
    fn clone(&self) -> (other: Self)
        ensures
            other == *self,
    {
        Part { manufacturer: self.manufacturer.clone(), mpn: self.mpn.clone() }
    }
}

/// One feeder/reference slot of the production line, already loaded with the
/// part identified by `(manufacturer, mpn)`.
#[derive(Debug, PartialEq, Eq)]
pub struct LoadOutItem {
    pub mpn: String,
    pub manufacturer: String,
    pub reference: String,
}

impl LoadOutItem {
    pub fn new(mpn: String, manufacturer: String, reference: String) -> (item: LoadOutItem)
        ensures
            item.mpn == mpn,
            item.manufacturer == manufacturer,
            item.reference == reference,
    {
        LoadOutItem { mpn, manufacturer, reference }
    }
}

impl Clone for LoadOutItem {
    fn clone(&self) -> (other: Self)
        ensures
            other == *self,
    {
        LoadOutItem {
            mpn: self.mpn.clone(),
            manufacturer: self.manufacturer.clone(),
            reference: self.reference.clone(),
        }
    }
}

/// A load-out item carries a given part exactly when the part identities
/// (manufacturer and manufacturer part number) agree character for character.
pub open spec fn load_out_item_matches(item: LoadOutItem, part: Part) -> bool {
    item.mpn@ == part.mpn@ && item.manufacturer@ == part.manufacturer@
}

} // verus!
