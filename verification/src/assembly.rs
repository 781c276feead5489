use vstd::prelude::*;

use crate::eda::EdaPlacement;

verus! {

/// A named build variant: the reference designators of the placements that
/// participate in it. An empty list selects no placement.
#[derive(Debug, PartialEq, Eq)]
pub struct AssemblyVariant {
    pub name: String,
    pub ref_des_list: Vec<String>,
}

impl AssemblyVariant {
    pub fn new(name: String, ref_des_list: Vec<String>) -> (variant: AssemblyVariant)
        ensures
            variant.name == name,
            variant.ref_des_list == ref_des_list,
    {
        AssemblyVariant { name, ref_des_list }
    }
}

/// A placement belongs to a variant when its reference designator appears in
/// the variant's list.
pub open spec fn variant_includes(ref_des_list: Seq<String>, p: EdaPlacement) -> bool {
    exists|i: int| 0 <= i < ref_des_list.len() && #[trigger] ref_des_list[i]@ == p.ref_des@
}

/// The placements of a variant: the sub-sequence whose reference designators
/// the variant lists, in their original order.
pub open spec fn variant_placements(
    placements: Seq<EdaPlacement>,
    ref_des_list: Seq<String>,
) -> Seq<EdaPlacement> {
    placements.filter(|p: EdaPlacement| variant_includes(ref_des_list, p))
}

proof fn lemma_variant_placements_take_step(
    placements: Seq<EdaPlacement>,
    ref_des_list: Seq<String>,
    i: int,
)
    requires
        0 <= i < placements.len(),
    ensures
        variant_placements(placements.take(i + 1), ref_des_list) == (if variant_includes(
            ref_des_list,
            placements[i],
        ) {
            variant_placements(placements.take(i), ref_des_list).push(placements[i])
        } else {
            variant_placements(placements.take(i), ref_des_list)
        }),
{
    reveal(Seq::filter);
    assert(placements.take(i + 1).drop_last() =~= placements.take(i));
    assert(placements.take(i + 1).last() == placements[i]);
}

/// Is the given reference designator in the list?
fn ref_des_listed(ref_des_list: &Vec<String>, ref_des: &String) -> (r: bool)
    ensures
        r == exists|i: int|
            0 <= i < ref_des_list@.len() && #[trigger] ref_des_list@[i]@ == ref_des@,
{
    let mut i: usize = 0;
    while i < ref_des_list.len()
        invariant
            i <= ref_des_list@.len(),
            forall|j: int| 0 <= j < i ==> #[trigger] ref_des_list@[j]@ != ref_des@,
        decreases ref_des_list@.len() - i,
    {
        if ref_des_list[i].eq(ref_des) {
            assert(ref_des_list@[i as int]@ == ref_des@);
            return true;
        }
        i += 1;
    }
    false
}

/// The assembly-variant filter: reduces a full placement list to the
/// placements belonging to one build variant.
pub struct AssemblyVariantProcessor {}

impl AssemblyVariantProcessor {
    /// Return the placements whose reference designator the variant lists,
    /// preserving their original order. Pure and total: no error cases.
    pub fn process(eda_placements: &Vec<EdaPlacement>, variant: &AssemblyVariant) -> (r: Vec<
        EdaPlacement,
    >)
        ensures
            r@ == variant_placements(eda_placements@, variant.ref_des_list@),
    {
        let ghost refs = variant.ref_des_list@;
        let mut selected: Vec<EdaPlacement> = Vec::new();
        let mut i: usize = 0;
        while i < eda_placements.len()
            invariant
                refs == variant.ref_des_list@,
                i <= eda_placements@.len(),
                selected@ == variant_placements(eda_placements@.take(i as int), refs),
            decreases eda_placements@.len() - i,
        {
            proof {
                lemma_variant_placements_take_step(eda_placements@, refs, i as int);
            }
            let placement = &eda_placements[i];
            if ref_des_listed(&variant.ref_des_list, &placement.ref_des) {
                assert(variant_includes(refs, eda_placements@[i as int]));
                selected.push(placement.clone());
            } else {
                assert(!variant_includes(refs, eda_placements@[i as int]));
            }
            i += 1;
        }
        proof {
            assert(eda_placements@.take(eda_placements@.len() as int) =~= eda_placements@);
        }
        selected
    }
}

} // verus!
