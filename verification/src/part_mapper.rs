use vstd::prelude::*;

use crate::eda::EdaPlacement;
use crate::part_mapping::{
    candidates_for, lemma_candidates_for_none, lemma_candidates_for_single,
    lemma_candidates_for_take_step, mapping_matches, mappings_view, PartMapping, PartMappingView,
};
use crate::pnp::{load_out_item_matches, LoadOutItem, Part};
use vstd::string::StringExecFns;

verus! {

/// The disambiguation method that produced a final part assignment for a
/// placement.
#[derive(Debug, PartialEq, Eq)]
pub enum AppliedMappingRule {
    /// The mapping was the only one that matched.
    AutoSelected,
    /// Several mappings matched; this one was selected because its part is
    /// already assigned to the named feeder/reference slot.
    FoundInLoadOut(String),
}

/// The descriptive text of an applied rule.
pub open spec fn applied_mapping_rule_text(rule: AppliedMappingRule) -> Seq<char> {
    match rule {
        AppliedMappingRule::AutoSelected => "Auto-selected"@,
        AppliedMappingRule::FoundInLoadOut(reference) => "Found in load-out, reference: '"@
            + reference@ + "'"@,
    }
}

impl AppliedMappingRule {
    /// Human-readable description of how the part assignment was made.
    pub fn to_text(&self) -> (r: String)
        ensures
            r@ == applied_mapping_rule_text(*self),
    {
        match self {
            AppliedMappingRule::AutoSelected => "Auto-selected".to_owned(),
            AppliedMappingRule::FoundInLoadOut(reference) => {
                let mut text = "Found in load-out, reference: '".to_owned();
                text.append(reference.as_str());
                text.concat("'")
            },
        }
    }
}

/// One candidate mapping for a placement, together with the rule (if any)
/// under which it was selected.
#[derive(Debug, PartialEq, Eq)]
pub struct PartMappingResult {
    pub part_mapping: PartMapping,
    pub applied_rule: Option<AppliedMappingRule>,
}

/// The mathematical content of a candidate entry.
#[verifier::ext_equal]
pub struct PartMappingResultView {
    pub part_mapping: PartMappingView,
    pub applied_rule: Option<AppliedMappingRule>,
}

impl View for PartMappingResult {
    type V = PartMappingResultView;

    open spec fn view(&self) -> PartMappingResultView {
        PartMappingResultView { part_mapping: self.part_mapping@, applied_rule: self.applied_rule }
    }
}

/// The views of a sequence of candidate entries, in order.
pub open spec fn results_view(results: Seq<PartMappingResult>) -> Seq<PartMappingResultView> {
    results.map_values(|r: PartMappingResult| r@)
}

/// The mappings carried by a sequence of candidate entries, in order.
pub open spec fn result_mappings(results: Seq<PartMappingResultView>) -> Seq<PartMappingView> {
    results.map_values(|r: PartMappingResultView| r.part_mapping)
}

/// Why one placement could not be resolved to a part.
#[derive(Debug, PartialEq, Eq)]
pub enum PartMappingError {
    /// Two or more mappings matched and the load-out did not single one out;
    /// carries every tied candidate for diagnosis.
    MultipleMatchingMappings(Vec<PartMappingResult>),
    /// Two or more of the tied mappings each have their part assigned to a
    /// feeder slot, a conflict the load-out cannot settle; carries those
    /// conflicting candidates.
    ConflictingLoadOutMatches(Vec<PartMappingResult>),
    /// No mapping's rules matched the placement.
    NoMappings,
}

/// The mathematical content of a per-placement mapping error.
pub enum PartMappingErrorView {
    MultipleMatchingMappings(Seq<PartMappingResultView>),
    ConflictingLoadOutMatches(Seq<PartMappingResultView>),
    NoMappings,
}

impl View for PartMappingError {
    type V = PartMappingErrorView;

    open spec fn view(&self) -> PartMappingErrorView {
        match self {
            PartMappingError::MultipleMatchingMappings(rs) => {
                PartMappingErrorView::MultipleMatchingMappings(results_view(rs@))
            },
            PartMappingError::ConflictingLoadOutMatches(rs) => {
                PartMappingErrorView::ConflictingLoadOutMatches(results_view(rs@))
            },
            PartMappingError::NoMappings => PartMappingErrorView::NoMappings,
        }
    }
}

/// The view of a per-placement resolution outcome.
pub open spec fn resolution_view(r: Result<Vec<PartMappingResult>, PartMappingError>) -> Result<
    Seq<PartMappingResultView>,
    PartMappingErrorView,
> {
    match r {
        Ok(v) => Ok(results_view(v@)),
        Err(e) => Err(e@),
    }
}

/// The outcome of one resolution run for one placement: the placement paired
/// with either its candidate list (exactly one entry carrying an applied
/// rule) or a typed mapping error.
#[derive(Debug, PartialEq, Eq)]
pub struct PlacementPartMappingResult {
    pub eda_placement: EdaPlacement,
    pub mapping_result: Result<Vec<PartMappingResult>, PartMappingError>,
}

/// The mathematical content of a per-placement outcome.
#[verifier::ext_equal]
pub struct PlacementPartMappingResultView {
    pub eda_placement: EdaPlacement,
    pub mapping_result: Result<Seq<PartMappingResultView>, PartMappingErrorView>,
}

impl View for PlacementPartMappingResult {
    type V = PlacementPartMappingResultView;

    open spec fn view(&self) -> PlacementPartMappingResultView {
        PlacementPartMappingResultView {
            eda_placement: self.eda_placement,
            mapping_result: resolution_view(self.mapping_result),
        }
    }
}

/// The batch-level error: at least one placement failed to resolve. The full
/// per-placement list is carried unchanged, successes included, so callers
/// can report exactly which placements succeeded and which failed.
#[derive(Debug, PartialEq, Eq)]
pub enum PartMapperError {
    MappingErrors(Vec<PlacementPartMappingResult>),
}

/// A mapping's part is present in the load-out when some item carries it.
pub open spec fn has_load_out_match(m: PartMappingView, items: Seq<LoadOutItem>) -> bool {
    exists|k: int| 0 <= k < items.len() && #[trigger] load_out_item_matches(items[k], m.part)
}

/// `k` is the position of the first load-out item that carries the part.
pub open spec fn is_first_load_out_match(part: Part, items: Seq<LoadOutItem>, k: int) -> bool {
    &&& 0 <= k < items.len()
    &&& load_out_item_matches(items[k], part)
    &&& forall|j: int| 0 <= j < k ==> !load_out_item_matches(items[j], part)
}

/// The candidates whose part is present in the load-out, in order.
pub open spec fn load_out_matched(cands: Seq<PartMappingView>, items: Seq<LoadOutItem>) -> Seq<
    PartMappingView,
> {
    cands.filter(|m: PartMappingView| has_load_out_match(m, items))
}

/// `rs` lists exactly the mappings of `ms`, in order, none carrying an
/// applied rule.
pub open spec fn candidate_results(rs: Seq<PartMappingResultView>, ms: Seq<PartMappingView>) -> bool {
    &&& rs.len() == ms.len()
    &&& forall|i: int| #![trigger rs[i]] 0 <= i < rs.len() ==> rs[i].part_mapping == ms[i]
    &&& forall|i: int| #![trigger rs[i]] 0 <= i < rs.len() ==> rs[i].applied_rule is None
}

/// The resolution policy for one placement, as a relation between the
/// de-duplicated candidate list `cands` and the outcome `result`:
/// - no candidate: the `NoMappings` error;
/// - exactly one candidate: success, that candidate auto-selected;
/// - several candidates and none in the load-out: the
///   `MultipleMatchingMappings` error carrying all of them;
/// - several candidates of which exactly one is in the load-out: success,
///   that candidate selected under `FoundInLoadOut` with the reference of the
///   first load-out item carrying its part, the others left without a rule;
/// - several candidates in the load-out: the `ConflictingLoadOutMatches`
///   error carrying those candidates.
pub open spec fn resolution_matches(
    result: Result<Seq<PartMappingResultView>, PartMappingErrorView>,
    cands: Seq<PartMappingView>,
    items: Seq<LoadOutItem>,
) -> bool {
    if cands.len() == 0 {
        result matches Err(PartMappingErrorView::NoMappings)
    } else if cands.len() == 1 {
        &&& result matches Ok(rs)
        &&& rs.len() == 1
        &&& rs[0].part_mapping == cands[0]
        &&& rs[0].applied_rule == Some(AppliedMappingRule::AutoSelected)
    } else {
        let matched = load_out_matched(cands, items);
        if matched.len() == 0 {
            &&& result matches Err(PartMappingErrorView::MultipleMatchingMappings(rs))
            &&& candidate_results(rs, cands)
        } else if matched.len() == 1 {
            &&& result matches Ok(rs)
            &&& rs.len() == cands.len()
            &&& forall|i: int| #![trigger rs[i]] 0 <= i < cands.len() ==> rs[i].part_mapping == cands[i]
            &&& forall|i: int|
                #![trigger rs[i]]
                0 <= i < cands.len() && has_load_out_match(cands[i], items) ==> exists|k: int|
                    #[trigger] is_first_load_out_match(cands[i].part, items, k) && rs[i].applied_rule
                        == Some(AppliedMappingRule::FoundInLoadOut(items[k].reference))
            &&& forall|i: int|
                #![trigger rs[i]]
                0 <= i < cands.len() && !has_load_out_match(cands[i], items) ==> rs[i].applied_rule
                    is None
        } else {
            &&& result matches Err(PartMappingErrorView::ConflictingLoadOutMatches(rs))
            &&& candidate_results(rs, matched)
        }
    }
}

/// One placement's recorded outcome is correct: it names the placement and
/// its resolution follows the policy, over the candidates that the mapping
/// list yields for this placement.
pub open spec fn placement_result_matches(
    pr: PlacementPartMappingResultView,
    p: EdaPlacement,
    mappings: Seq<PartMappingView>,
    items: Seq<LoadOutItem>,
) -> bool {
    &&& pr.eda_placement == p
    &&& resolution_matches(pr.mapping_result, candidates_for(mappings, p), items)
}

/// The mappings selected by a list of (candidate index, load-out index)
/// pairs.
spec fn pair_mappings(pairs: Seq<(usize, usize)>, cands: Seq<PartMappingView>) -> Seq<
    PartMappingView,
> {
    pairs.map_values(|pr: (usize, usize)| cands[pr.0 as int])
}

proof fn lemma_load_out_matched_none(cands: Seq<PartMappingView>, items: Seq<LoadOutItem>)
    requires
        forall|i: int| 0 <= i < cands.len() ==> !has_load_out_match(#[trigger] cands[i], items),
    ensures
        load_out_matched(cands, items) =~= Seq::<PartMappingView>::empty(),
    decreases cands.len(),
{
    reveal(Seq::filter);
    if cands.len() > 0 {
        assert(!has_load_out_match(cands[cands.len() - 1], items));
        assert(forall|i: int|
            0 <= i < cands.drop_last().len() ==> #[trigger] cands.drop_last()[i] == cands[i]);
        lemma_load_out_matched_none(cands.drop_last(), items);
    }
}

proof fn lemma_load_out_matched_single(
    cands: Seq<PartMappingView>,
    items: Seq<LoadOutItem>,
    j: int,
)
    requires
        0 <= j < cands.len(),
        has_load_out_match(cands[j], items),
        forall|i: int|
            0 <= i < cands.len() && i != j ==> !has_load_out_match(#[trigger] cands[i], items),
    ensures
        load_out_matched(cands, items) =~= seq![cands[j]],
    decreases cands.len(),
{
    reveal(Seq::filter);
    assert(forall|i: int|
        0 <= i < cands.drop_last().len() ==> #[trigger] cands.drop_last()[i] == cands[i]);
    if j == cands.len() - 1 {
        lemma_load_out_matched_none(cands.drop_last(), items);
    } else {
        assert(!has_load_out_match(cands[cands.len() - 1], items));
        lemma_load_out_matched_single(cands.drop_last(), items, j);
    }
}

proof fn lemma_load_out_matched_take_step(
    cands: Seq<PartMappingView>,
    items: Seq<LoadOutItem>,
    i: int,
)
    requires
        0 <= i < cands.len(),
    ensures
        load_out_matched(cands.take(i + 1), items) == (if has_load_out_match(cands[i], items) {
            load_out_matched(cands.take(i), items).push(cands[i])
        } else {
            load_out_matched(cands.take(i), items)
        }),
{
    reveal(Seq::filter);
    assert(cands.take(i + 1).drop_last() =~= cands.take(i));
    assert(cands.take(i + 1).last() == cands[i]);
}

proof fn lemma_first_load_out_match_unique(part: Part, items: Seq<LoadOutItem>, k1: int, k2: int)
    requires
        is_first_load_out_match(part, items, k1),
        is_first_load_out_match(part, items, k2),
    ensures
        k1 == k2,
{
}

/// Position of the first load-out item carrying the part, if the load-out
/// holds the part at all.
fn find_first_load_out_match(part: &Part, load_out_items: &Vec<LoadOutItem>) -> (r: Option<usize>)
    ensures
        match r {
            Some(k) => is_first_load_out_match(*part, load_out_items@, k as int),
            None => forall|j: int|
                0 <= j < load_out_items@.len() ==> !load_out_item_matches(
                    #[trigger] load_out_items@[j],
                    *part,
                ),
        },
{
    let mut k: usize = 0;
    while k < load_out_items.len()
        invariant
            k <= load_out_items@.len(),
            forall|j: int|
                0 <= j < k ==> !load_out_item_matches(#[trigger] load_out_items@[j], *part),
        decreases load_out_items@.len() - k,
    {
        let item = &load_out_items[k];
        if item.mpn == part.mpn && item.manufacturer == part.manufacturer {
            return Some(k);
        }
        k += 1;
    }
    None
}

/// Apply the ambiguity-resolution policy to the de-duplicated candidate list
/// of one placement, consulting the load-out when several candidates tie.
pub fn apply_rules(
    mapping_results: Vec<PartMappingResult>,
    load_out_items: &Vec<LoadOutItem>,
) -> (r: Result<Vec<PartMappingResult>, PartMappingError>)
    requires
        forall|i: int|
            0 <= i < mapping_results@.len() ==> (#[trigger] mapping_results@[i]).applied_rule
                is None,
    ensures
        resolution_matches(
            resolution_view(r),
            result_mappings(results_view(mapping_results@)),
            load_out_items@,
        ),
{
    let ghost cands = result_mappings(results_view(mapping_results@));
    let ghost items = load_out_items@;
    let count = mapping_results.len();
    if count == 0 {
        return Err(PartMappingError::NoMappings);
    }
    if count == 1 {
        let selected = PartMappingResult {
            part_mapping: mapping_results[0].part_mapping.clone(),
            applied_rule: Some(AppliedMappingRule::AutoSelected),
        };
        let mut out: Vec<PartMappingResult> = Vec::new();
        out.push(selected);
        assert(results_view(out@)[0].part_mapping == cands[0]);
        return Ok(out);
    }

    // For each candidate, look its part up in the load-out.
    let mut matched: Vec<(usize, usize)> = Vec::new();
    let mut i: usize = 0;
    while i < count
        invariant
            count == mapping_results@.len(),
            count == cands.len(),
            count >= 2,
            cands == result_mappings(results_view(mapping_results@)),
            items == load_out_items@,
            i <= count,
            forall|t: int|
                #![trigger matched@[t]]
                0 <= t < matched@.len() ==> {
                    &&& 0 <= matched@[t].0 < i
                    &&& is_first_load_out_match(
                        cands[matched@[t].0 as int].part,
                        items,
                        matched@[t].1 as int,
                    )
                },
            pair_mappings(matched@, cands) == load_out_matched(cands.take(i as int), items),
            forall|j: int|
                0 <= j < i && has_load_out_match(#[trigger] cands[j], items) ==> exists|t: int|
                    0 <= t < matched@.len() && (#[trigger] matched@[t]).0 == j,
        decreases count - i,
    {
        assert(cands[i as int].part == mapping_results@[i as int].part_mapping.part);
        let found = find_first_load_out_match(
            &mapping_results[i].part_mapping.part,
            load_out_items,
        );
        proof {
            lemma_load_out_matched_take_step(cands, items, i as int);
        }
        let ghost prev = matched@;
        match found {
            Some(k) => {
                matched.push((i, k));
                proof {
                    assert(load_out_item_matches(items[k as int], cands[i as int].part));
                    assert(has_load_out_match(cands[i as int], items));
                    assert(pair_mappings(matched@, cands) =~= pair_mappings(prev, cands).push(
                        cands[i as int],
                    ));
                }
            },
            None => {
                proof {
                    assert(!has_load_out_match(cands[i as int], items));
                }
            },
        }
        i += 1;
        proof {
            assert forall|j: int|
                0 <= j < i && has_load_out_match(#[trigger] cands[j], items) implies exists|t: int|
                0 <= t < matched@.len() && (#[trigger] matched@[t]).0 == j by {
                if j < i - 1 {
                    let t = choose|t: int| 0 <= t < prev.len() && (#[trigger] prev[t]).0 == j;
                    assert(0 <= t < matched@.len() && matched@[t].0 == j);
                } else {
                    assert(matched@[matched@.len() - 1].0 == j);
                }
            }
        }
    }
    proof {
        assert(cands.take(count as int) =~= cands);
    }
    let ghost in_load_out = load_out_matched(cands, items);
    assert(matched@.len() == in_load_out.len());

    if matched.len() == 0 {
        return Err(PartMappingError::MultipleMatchingMappings(mapping_results));
    }

    if matched.len() == 1 {
        let pair = matched[0];
        let idx = pair.0;
        let kk = pair.1;
        let reference = load_out_items[kk].reference.clone();
        let mut out: Vec<PartMappingResult> = Vec::new();
        let mut u: usize = 0;
        while u < count
            invariant
                count == mapping_results@.len(),
                count == cands.len(),
                cands == result_mappings(results_view(mapping_results@)),
                items == load_out_items@,
                u <= count,
                out@.len() == u,
                idx < count,
                is_first_load_out_match(cands[idx as int].part, items, kk as int),
                reference == items[kk as int].reference,
                forall|j: int|
                    0 <= j < cands.len() && j != idx ==> !has_load_out_match(
                        #[trigger] cands[j],
                        items,
                    ),
                forall|t: int|
                    #![trigger out@[t]]
                    0 <= t < u ==> {
                        &&& out@[t]@.part_mapping == cands[t]
                        &&& out@[t]@.applied_rule == (if t == idx {
                            Some(AppliedMappingRule::FoundInLoadOut(items[kk as int].reference))
                        } else {
                            None::<AppliedMappingRule>
                        })
                    },
            decreases count - u,
        {
            let rule = if u == idx {
                Some(AppliedMappingRule::FoundInLoadOut(reference.clone()))
            } else {
                None
            };
            out.push(
                PartMappingResult {
                    part_mapping: mapping_results[u].part_mapping.clone(),
                    applied_rule: rule,
                },
            );
            u += 1;
        }
        proof {
            let rs = results_view(out@);
            assert forall|t: int|
                0 <= t < cands.len() && has_load_out_match(cands[t], items) implies exists|k: int|
                #[trigger] is_first_load_out_match(cands[t].part, items, k) && rs[t].applied_rule
                    == Some(AppliedMappingRule::FoundInLoadOut(items[k].reference)) by {
                assert(t == idx);
                assert(is_first_load_out_match(cands[t].part, items, kk as int));
            }
        }
        return Ok(out);
    }

    // Two or more candidates are each in the load-out: a conflict the
    // load-out cannot settle.
    let mut conflicting: Vec<PartMappingResult> = Vec::new();
    let mut t: usize = 0;
    let m = matched.len();
    while t < m
        invariant
            count == mapping_results@.len(),
            count == cands.len(),
            cands == result_mappings(results_view(mapping_results@)),
            items == load_out_items@,
            m == matched@.len(),
            pair_mappings(matched@, cands) == in_load_out,
            forall|s: int|
                #![trigger matched@[s]]
                0 <= s < matched@.len() ==> 0 <= matched@[s].0 < count,
            t <= m,
            conflicting@.len() == t,
            forall|s: int|
                #![trigger conflicting@[s]]
                0 <= s < t ==> {
                    &&& conflicting@[s]@.part_mapping == cands[matched@[s].0 as int]
                    &&& conflicting@[s]@.applied_rule is None
                },
        decreases m - t,
    {
        let ci = matched[t].0;
        conflicting.push(
            PartMappingResult {
                part_mapping: mapping_results[ci].part_mapping.clone(),
                applied_rule: None,
            },
        );
        t += 1;
    }
    proof {
        let rs = results_view(conflicting@);
        assert forall|s: int| 0 <= s < rs.len() implies (#[trigger] rs[s]).part_mapping
            == in_load_out[s] by {
            assert(pair_mappings(matched@, cands)[s] == cands[matched@[s].0 as int]);
        }
    }
    Err(PartMappingError::ConflictingLoadOutMatches(conflicting))
}

/// Law: if exactly one mapping in the list matches the placement, the
/// placement's recorded outcome is success with that mapping auto-selected.
pub proof fn lemma_unique_match_auto_selected(
    pr: PlacementPartMappingResultView,
    p: EdaPlacement,
    mappings: Seq<PartMappingView>,
    items: Seq<LoadOutItem>,
    j: int,
)
    requires
        placement_result_matches(pr, p, mappings, items),
        0 <= j < mappings.len(),
        mapping_matches(mappings[j], p),
        forall|k: int|
            0 <= k < mappings.len() && k != j ==> !mapping_matches(#[trigger] mappings[k], p),
    ensures
        pr.mapping_result matches Ok(rs) && rs.len() == 1 && rs[0].part_mapping == mappings[j]
            && rs[0].applied_rule == Some(AppliedMappingRule::AutoSelected),
{
    lemma_candidates_for_single(mappings, p, j);
}

/// Law: if no mapping in the list matches the placement, the placement's
/// recorded outcome is the `NoMappings` error.
pub proof fn lemma_no_match_no_mappings(
    pr: PlacementPartMappingResultView,
    p: EdaPlacement,
    mappings: Seq<PartMappingView>,
    items: Seq<LoadOutItem>,
)
    requires
        placement_result_matches(pr, p, mappings, items),
        forall|k: int| 0 <= k < mappings.len() ==> !mapping_matches(#[trigger] mappings[k], p),
    ensures
        pr.mapping_result matches Err(PartMappingErrorView::NoMappings),
{
    lemma_candidates_for_none(mappings, p);
}

/// Law: when two or more mappings match the placement and exactly one of the
/// matched candidates carries a part present in the load-out, the outcome is
/// success: that candidate is selected under `FoundInLoadOut` with the
/// reference of the first load-out item carrying its part, every candidate
/// is listed in order, and no other candidate carries a rule.
pub proof fn lemma_load_out_disambiguates(
    pr: PlacementPartMappingResultView,
    p: EdaPlacement,
    mappings: Seq<PartMappingView>,
    items: Seq<LoadOutItem>,
    j: int,
    k: int,
)
    requires
        placement_result_matches(pr, p, mappings, items),
        candidates_for(mappings, p).len() >= 2,
        0 <= j < candidates_for(mappings, p).len(),
        has_load_out_match(candidates_for(mappings, p)[j], items),
        forall|t: int|
            0 <= t < candidates_for(mappings, p).len() && t != j ==> !has_load_out_match(
                #[trigger] candidates_for(mappings, p)[t],
                items,
            ),
        is_first_load_out_match(candidates_for(mappings, p)[j].part, items, k),
    ensures
        pr.mapping_result matches Ok(rs) && {
            &&& rs.len() == candidates_for(mappings, p).len()
            &&& forall|t: int|
                #![trigger rs[t]]
                0 <= t < rs.len() ==> rs[t].part_mapping == candidates_for(mappings, p)[t]
            &&& rs[j].applied_rule == Some(
                AppliedMappingRule::FoundInLoadOut(items[k].reference),
            )
            &&& forall|t: int|
                #![trigger rs[t]]
                0 <= t < rs.len() && t != j ==> rs[t].applied_rule is None
        },
{
    let cands = candidates_for(mappings, p);
    lemma_load_out_matched_single(cands, items, j);
    let rs = pr.mapping_result->Ok_0;
    let k2 = choose|k2: int|
        #[trigger] is_first_load_out_match(cands[j].part, items, k2) && rs[j].applied_rule == Some(
            AppliedMappingRule::FoundInLoadOut(items[k2].reference),
        );
    lemma_first_load_out_match_unique(cands[j].part, items, k, k2);
}

/// Law: when two or more mappings match the placement and none of the
/// matched candidates carries a part present in the load-out, the outcome is
/// the `MultipleMatchingMappings` error listing exactly the matched mappings,
/// in order, none carrying an applied rule.
pub proof fn lemma_unresolved_ambiguity(
    pr: PlacementPartMappingResultView,
    p: EdaPlacement,
    mappings: Seq<PartMappingView>,
    items: Seq<LoadOutItem>,
)
    requires
        placement_result_matches(pr, p, mappings, items),
        candidates_for(mappings, p).len() >= 2,
        forall|t: int|
            0 <= t < candidates_for(mappings, p).len() ==> !has_load_out_match(
                #[trigger] candidates_for(mappings, p)[t],
                items,
            ),
    ensures
        pr.mapping_result matches Err(PartMappingErrorView::MultipleMatchingMappings(rs))
            && candidate_results(rs, candidates_for(mappings, p)),
{
    lemma_load_out_matched_none(candidates_for(mappings, p), items);
}

/// The part-mapping resolution engine.
pub struct PartMapper {}

impl PartMapper {
    /// Resolve every placement independently, in input order: collect the
    /// mappings whose rules match it (each mapping at most once), then apply
    /// the ambiguity-resolution policy against the load-out. Every placement
    /// yields exactly one recorded outcome. The batch succeeds if and only if
    /// every placement resolved; otherwise the error wraps the entire
    /// per-placement list, successes included.
    pub fn process(
        eda_placements: &Vec<EdaPlacement>,
        part_mappings: &Vec<PartMapping>,
        load_out_items: &Vec<LoadOutItem>,
    ) -> (r: Result<Vec<PlacementPartMappingResult>, PartMapperError>)
        ensures
            ({
                let ms = mappings_view(part_mappings@);
                let items = load_out_items@;
                match r {
                    Ok(results) => {
                        &&& results@.len() == eda_placements@.len()
                        &&& forall|i: int|
                            #![trigger results@[i]]
                            0 <= i < results@.len() ==> placement_result_matches(
                                results@[i]@,
                                eda_placements@[i],
                                ms,
                                items,
                            )
                        &&& forall|i: int|
                            #![trigger results@[i]]
                            0 <= i < results@.len() ==> results@[i].mapping_result is Ok
                    },
                    Err(e) => {
                        &&& e matches PartMapperError::MappingErrors(results)
                        &&& results@.len() == eda_placements@.len()
                        &&& forall|i: int|
                            #![trigger results@[i]]
                            0 <= i < results@.len() ==> placement_result_matches(
                                results@[i]@,
                                eda_placements@[i],
                                ms,
                                items,
                            )
                        &&& exists|i: int|
                            0 <= i < results@.len() && (#[trigger] results@[i]).mapping_result
                                is Err
                    },
                }
            }),
    {
        let ghost ms = mappings_view(part_mappings@);
        let ghost items = load_out_items@;
        let mut results: Vec<PlacementPartMappingResult> = Vec::new();
        let mut error_count: usize = 0;
        let mut i: usize = 0;
        while i < eda_placements.len()
            invariant
                ms == mappings_view(part_mappings@),
                items == load_out_items@,
                i <= eda_placements@.len(),
                results@.len() == i,
                error_count <= i,
                forall|t: int|
                    #![trigger results@[t]]
                    0 <= t < i ==> placement_result_matches(
                        results@[t]@,
                        eda_placements@[t],
                        ms,
                        items,
                    ),
                (error_count == 0) <==> (forall|t: int|
                    #![trigger results@[t]]
                    0 <= t < i ==> results@[t].mapping_result is Ok),
            decreases eda_placements@.len() - i,
        {
            let placement = &eda_placements[i];

            // Candidate collection: every mapping whose rules match, each at
            // most once, in the order the mappings were supplied.
            let mut candidates: Vec<PartMappingResult> = Vec::new();
            let mut j: usize = 0;
            while j < part_mappings.len()
                invariant
                    ms == mappings_view(part_mappings@),
                    ms.len() == part_mappings@.len(),
                    j <= part_mappings@.len(),
                    i < eda_placements@.len(),
                    *placement == eda_placements@[i as int],
                    result_mappings(results_view(candidates@)) == candidates_for(
                        ms.take(j as int),
                        *placement,
                    ),
                    forall|t: int|
                        0 <= t < candidates@.len() ==> (#[trigger] candidates@[t]).applied_rule
                            is None,
                decreases part_mappings@.len() - j,
            {
                proof {
                    assert(ms[j as int] == part_mappings@[j as int]@);
                    lemma_candidates_for_take_step(ms, *placement, j as int);
                }
                let ghost prev = candidates@;
                if part_mappings[j].matches(placement) {
                    candidates.push(
                        PartMappingResult {
                            part_mapping: part_mappings[j].clone(),
                            applied_rule: None,
                        },
                    );
                    proof {
                        assert(result_mappings(results_view(candidates@)) =~= result_mappings(
                            results_view(prev),
                        ).push(ms[j as int]));
                    }
                }
                j += 1;
            }
            proof {
                assert(ms.take(ms.len() as int) =~= ms);
            }

            let mapping_result = apply_rules(candidates, load_out_items);
            let failed = mapping_result.is_err();
            if failed {
                error_count += 1;
            }
            let ghost prev_results = results@;
            results.push(
                PlacementPartMappingResult { eda_placement: eda_placements[i].clone(), mapping_result },
            );
            i += 1;
            proof {
                if error_count == 0 {
                    assert forall|t: int| 0 <= t < i implies (#[trigger] results@[t]).mapping_result
                        is Ok by {
                        if t < i - 1 {
                            assert(results@[t] == prev_results[t]);
                        }
                    }
                } else if failed {
                    assert(!(results@[i - 1].mapping_result is Ok));
                } else {
                    let t0 = choose|t: int|
                        !(0 <= t < i - 1 ==> (#[trigger] prev_results[t]).mapping_result is Ok);
                    assert(results@[t0] == prev_results[t0]);
                    assert(!(0 <= t0 < i ==> results@[t0].mapping_result is Ok));
                }
            }
        }
        if error_count == 0 {
            Ok(results)
        } else {
            assert(!(forall|t: int|
                #![trigger results@[t]]
                0 <= t < results@.len() ==> results@[t].mapping_result is Ok));
            let ghost w = choose|t: int|
                !(0 <= t < results@.len() ==> (#[trigger] results@[t]).mapping_result is Ok);
            assert(results@[w].mapping_result is Err);
            Err(PartMapperError::MappingErrors(results))
        }
    }
}

} // verus!
