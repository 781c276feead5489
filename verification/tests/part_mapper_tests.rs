use makerpnp::criteria::{ExactMatchCriteria, PlacementMappingCriteria};
use makerpnp::eda::{DipTracePlacementDetails, EdaPlacement, EdaPlacementDetails};
use makerpnp::part_mapper::{
    AppliedMappingRule, PartMapper, PartMapperError, PartMappingError, PartMappingResult,
    PlacementPartMappingResult,
};
use makerpnp::part_mapping::PartMapping;
use makerpnp::pnp::{LoadOutItem, Part};

fn diptrace_placement(ref_des: &str, name: &str, value: &str) -> EdaPlacement {
    EdaPlacement {
        ref_des: ref_des.to_string(),
        details: EdaPlacementDetails::DipTrace(DipTracePlacementDetails {
            name: name.to_string(),
            value: value.to_string(),
        }),
    }
}

fn exact_match_mapping(part: &Part, name: &str, value: &str) -> PartMapping {
    PartMapping::new(
        part.clone(),
        vec![PlacementMappingCriteria::ExactMatch(ExactMatchCriteria::new(
            name.to_string(),
            value.to_string(),
        ))],
    )
}

#[test]
fn map_parts() {
    // given
    let eda_placement1 = diptrace_placement("R1", "NAME1", "VALUE1");
    let eda_placement2 = diptrace_placement("R2", "NAME2", "VALUE2");
    let eda_placement3 = diptrace_placement("R3", "NAME3", "VALUE3");

    let eda_placements = vec![eda_placement1, eda_placement2, eda_placement3];

    // and
    let part1 = Part::new("MFR1".to_string(), "PART1".to_string());
    let part2 = Part::new("MFR2".to_string(), "PART2".to_string());
    let part3 = Part::new("MFR3".to_string(), "PART3".to_string());

    let parts = vec![part1, part2, part3];

    // and
    let part_mapping1 = exact_match_mapping(&parts[1 - 1], "NAME1", "VALUE1");
    let part_mapping2 = exact_match_mapping(&parts[2 - 1], "NAME2", "VALUE2");
    let part_mapping3 = exact_match_mapping(&parts[3 - 1], "NAME3", "VALUE3");

    let part_mappings = vec![part_mapping1, part_mapping2, part_mapping3];

    // and
    let expected_results = Ok(vec![
        PlacementPartMappingResult {
            eda_placement: eda_placements[0].clone(),
            mapping_result: Ok(vec![PartMappingResult {
                part_mapping: part_mappings[0].clone(),
                applied_rule: Some(AppliedMappingRule::AutoSelected),
            }]),
        },
        PlacementPartMappingResult {
            eda_placement: eda_placements[1].clone(),
            mapping_result: Ok(vec![PartMappingResult {
                part_mapping: part_mappings[1].clone(),
                applied_rule: Some(AppliedMappingRule::AutoSelected),
            }]),
        },
        PlacementPartMappingResult {
            eda_placement: eda_placements[2].clone(),
            mapping_result: Ok(vec![PartMappingResult {
                part_mapping: part_mappings[2].clone(),
                applied_rule: Some(AppliedMappingRule::AutoSelected),
            }]),
        },
    ]);

    // when
    let matched_mappings = PartMapper::process(&eda_placements, &part_mappings, &vec![]);

    // then
    assert_eq!(matched_mappings, expected_results);
}

#[test]
fn map_parts_with_multiple_matching_mappings() {
    // given
    let eda_placement1 = diptrace_placement("R1", "NAME1", "VALUE1");

    let eda_placements = vec![eda_placement1];

    // and
    let part1 = Part::new("MFR1".to_string(), "PART1".to_string());
    let part2 = Part::new("MFR2".to_string(), "PART2".to_string());

    let parts = vec![part1, part2];

    // and
    let part_mapping1 = exact_match_mapping(&parts[1 - 1], "NAME1", "VALUE1");
    let part_mapping2 = exact_match_mapping(&parts[2 - 1], "NAME1", "VALUE1");

    let part_mappings = vec![part_mapping1, part_mapping2];

    // and
    let expected_results = Err(PartMapperError::MappingErrors(vec![
        PlacementPartMappingResult {
            eda_placement: eda_placements[0].clone(),
            mapping_result: Err(PartMappingError::MultipleMatchingMappings(vec![
                PartMappingResult {
                    part_mapping: part_mappings[0].clone(),
                    applied_rule: None,
                },
                PartMappingResult {
                    part_mapping: part_mappings[1].clone(),
                    applied_rule: None,
                },
            ])),
        },
    ]));

    // when
    let matched_mappings = PartMapper::process(&eda_placements, &part_mappings, &vec![]);

    // then
    assert_eq!(matched_mappings, expected_results);
}

#[test]
fn map_parts_with_no_part_mappings() {
    // given
    let eda_placement1 = diptrace_placement("R1", "NAME1", "VALUE1");

    let eda_placements = vec![eda_placement1];

    let part_mappings = vec![];

    // and
    let expected_results = Err(PartMapperError::MappingErrors(vec![
        PlacementPartMappingResult {
            eda_placement: eda_placements[0].clone(),
            mapping_result: Err(PartMappingError::NoMappings),
        },
    ]));

    // when
    let matched_mappings = PartMapper::process(&eda_placements, &part_mappings, &vec![]);

    // then
    assert_eq!(matched_mappings, expected_results);
}

#[test]
fn map_parts_with_load_out_disambiguation() {
    // given: one placement, two tied mappings, and a load-out carrying the
    // second mapping's part
    let eda_placements = vec![diptrace_placement("R1", "NAME1", "VALUE1")];

    let part1 = Part::new("MFR1".to_string(), "PART1".to_string());
    let part2 = Part::new("MFR2".to_string(), "PART2".to_string());

    let part_mapping1 = exact_match_mapping(&part1, "NAME1", "VALUE1");
    let part_mapping2 = exact_match_mapping(&part2, "NAME1", "VALUE1");

    let part_mappings = vec![part_mapping1, part_mapping2];

    let load_out_items = vec![LoadOutItem::new(
        "PART2".to_string(),
        "MFR2".to_string(),
        "FEEDER_1".to_string(),
    )];

    // and
    let expected_results = Ok(vec![PlacementPartMappingResult {
        eda_placement: eda_placements[0].clone(),
        mapping_result: Ok(vec![
            PartMappingResult {
                part_mapping: part_mappings[0].clone(),
                applied_rule: None,
            },
            PartMappingResult {
                part_mapping: part_mappings[1].clone(),
                applied_rule: Some(AppliedMappingRule::FoundInLoadOut("FEEDER_1".to_string())),
            },
        ]),
    }]);

    // when
    let matched_mappings =
        PartMapper::process(&eda_placements, &part_mappings, &load_out_items);

    // then
    assert_eq!(matched_mappings, expected_results);
}

#[test]
fn map_parts_with_first_load_out_item_selected() {
    // given: two load-out items carry the tied part; the first one's
    // reference is reported
    let eda_placements = vec![diptrace_placement("R1", "NAME1", "VALUE1")];

    let part1 = Part::new("MFR1".to_string(), "PART1".to_string());
    let part2 = Part::new("MFR2".to_string(), "PART2".to_string());

    let part_mappings = vec![
        exact_match_mapping(&part1, "NAME1", "VALUE1"),
        exact_match_mapping(&part2, "NAME1", "VALUE1"),
    ];

    let load_out_items = vec![
        LoadOutItem::new("PART2".to_string(), "MFR2".to_string(), "FEEDER_1".to_string()),
        LoadOutItem::new("PART2".to_string(), "MFR2".to_string(), "FEEDER_2".to_string()),
    ];

    // when
    let matched_mappings =
        PartMapper::process(&eda_placements, &part_mappings, &load_out_items);

    // then
    let results = matched_mappings.expect("expected aggregate success");
    let entries = results[0].mapping_result.as_ref().expect("expected resolution");
    assert_eq!(
        entries[1].applied_rule,
        Some(AppliedMappingRule::FoundInLoadOut("FEEDER_1".to_string()))
    );
}

#[test]
fn map_parts_with_conflicting_load_out_matches() {
    // given: both tied mappings have their part in the load-out
    let eda_placements = vec![diptrace_placement("R1", "NAME1", "VALUE1")];

    let part1 = Part::new("MFR1".to_string(), "PART1".to_string());
    let part2 = Part::new("MFR2".to_string(), "PART2".to_string());

    let part_mapping1 = exact_match_mapping(&part1, "NAME1", "VALUE1");
    let part_mapping2 = exact_match_mapping(&part2, "NAME1", "VALUE1");

    let part_mappings = vec![part_mapping1, part_mapping2];

    let load_out_items = vec![
        LoadOutItem::new("PART1".to_string(), "MFR1".to_string(), "FEEDER_1".to_string()),
        LoadOutItem::new("PART2".to_string(), "MFR2".to_string(), "FEEDER_2".to_string()),
    ];

    // and
    let expected_results = Err(PartMapperError::MappingErrors(vec![
        PlacementPartMappingResult {
            eda_placement: eda_placements[0].clone(),
            mapping_result: Err(PartMappingError::ConflictingLoadOutMatches(vec![
                PartMappingResult {
                    part_mapping: part_mappings[0].clone(),
                    applied_rule: None,
                },
                PartMappingResult {
                    part_mapping: part_mappings[1].clone(),
                    applied_rule: None,
                },
            ])),
        },
    ]));

    // when
    let matched_mappings =
        PartMapper::process(&eda_placements, &part_mappings, &load_out_items);

    // then
    assert_eq!(matched_mappings, expected_results);
}

#[test]
fn mapping_with_multiple_matching_criteria_contributes_one_candidate() {
    // given: one mapping whose two criteria both match the placement
    let eda_placements = vec![diptrace_placement("R1", "NAME1", "VALUE1")];

    let part1 = Part::new("MFR1".to_string(), "PART1".to_string());
    let part_mapping1 = PartMapping::new(
        part1,
        vec![
            PlacementMappingCriteria::ExactMatch(ExactMatchCriteria::new(
                "NAME1".to_string(),
                "VALUE1".to_string(),
            )),
            PlacementMappingCriteria::ExactMatch(ExactMatchCriteria::new(
                "NAME1".to_string(),
                "VALUE1".to_string(),
            )),
        ],
    );

    let part_mappings = vec![part_mapping1];

    // when
    let matched_mappings = PartMapper::process(&eda_placements, &part_mappings, &vec![]);

    // then: one candidate, auto-selected, not one entry per matching criterion
    let results = matched_mappings.expect("expected aggregate success");
    let entries = results[0].mapping_result.as_ref().expect("expected resolution");
    assert_eq!(entries.len(), 1);
    assert_eq!(entries[0].applied_rule, Some(AppliedMappingRule::AutoSelected));
}

#[test]
fn applied_mapping_rule_text_auto_selected() {
    assert_eq!(AppliedMappingRule::AutoSelected.to_text(), "Auto-selected");
}

#[test]
fn applied_mapping_rule_text_found_in_load_out() {
    assert_eq!(
        AppliedMappingRule::FoundInLoadOut("FEEDER_1".to_string()).to_text(),
        "Found in load-out, reference: 'FEEDER_1'"
    );
}
