use makerpnp::assembly::{AssemblyVariant, AssemblyVariantProcessor};
use makerpnp::eda::{DipTracePlacementDetails, EdaPlacement, EdaPlacementDetails};

fn diptrace_placement(ref_des: &str, name: &str, value: &str) -> EdaPlacement {
    EdaPlacement {
        ref_des: ref_des.to_string(),
        details: EdaPlacementDetails::DipTrace(DipTracePlacementDetails {
            name: name.to_string(),
            value: value.to_string(),
        }),
    }
}

#[test]
fn variant_filter_selects_listed_placements_in_order() {
    // given
    let eda_placements = vec![
        diptrace_placement("R1", "NAME1", "VALUE1"),
        diptrace_placement("R2", "NAME2", "VALUE2"),
        diptrace_placement("R3", "NAME3", "VALUE3"),
    ];

    // and: the variant lists the designators in another order
    let variant = AssemblyVariant::new(
        "Variant 1".to_string(),
        vec!["R3".to_string(), "R1".to_string()],
    );

    // when
    let selected = AssemblyVariantProcessor::process(&eda_placements, &variant);

    // then: input order is preserved
    let expected = vec![eda_placements[0].clone(), eda_placements[2].clone()];
    assert_eq!(selected, expected);
}

#[test]
fn variant_filter_with_empty_list_selects_none() {
    // given
    let eda_placements = vec![diptrace_placement("R1", "NAME1", "VALUE1")];

    let variant = AssemblyVariant::new("Default".to_string(), vec![]);

    // when
    let selected = AssemblyVariantProcessor::process(&eda_placements, &variant);

    // then
    assert_eq!(selected, Vec::<EdaPlacement>::new());
}

#[test]
fn variant_filter_ignores_unlisted_designators() {
    // given
    let eda_placements = vec![
        diptrace_placement("R1", "NAME1", "VALUE1"),
        diptrace_placement("R2", "NAME2", "VALUE2"),
    ];

    let variant = AssemblyVariant::new(
        "Variant 1".to_string(),
        vec!["R2".to_string(), "C1".to_string()],
    );

    // when
    let selected = AssemblyVariantProcessor::process(&eda_placements, &variant);

    // then
    assert_eq!(selected, vec![eda_placements[1].clone()]);
}
