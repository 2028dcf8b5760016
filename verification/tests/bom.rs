use pcb_extract::bom::{generate_bom, group_components, natural_sort_key, BomConfig};
use pcb_extract::types::{Component, Side};

fn comp(r: &str, val: &str, fp: &str, layer: Side, idx: usize) -> Component {
    Component {
        ref_: r.to_string(),
        val: val.to_string(),
        footprint_name: fp.to_string(),
        layer,
        footprint_index: idx,
        extra_fields: Vec::new(),
        attr: None,
    }
}

#[test]
fn test_natural_sort_key() {
    assert!(natural_sort_key("R1") < natural_sort_key("R2"));
    assert!(natural_sort_key("R2") < natural_sort_key("R10"));
    assert!(natural_sort_key("C1") < natural_sort_key("R1"));
}

#[test]
fn test_group_components() {
    let components = vec![
        Component {
            ref_: "R1".to_string(),
            val: "10k".to_string(),
            footprint_name: "0805".to_string(),
            layer: Side::Front,
            footprint_index: 0,
            extra_fields: Vec::new(),
            attr: None,
        },
        Component {
            ref_: "R2".to_string(),
            val: "10k".to_string(),
            footprint_name: "0805".to_string(),
            layer: Side::Front,
            footprint_index: 1,
            extra_fields: Vec::new(),
            attr: None,
        },
        Component {
            ref_: "C1".to_string(),
            val: "100nF".to_string(),
            footprint_name: "0603".to_string(),
            layer: Side::Front,
            footprint_index: 2,
            extra_fields: Vec::new(),
            attr: None,
        },
    ];

    let groups = group_components(&components, &[], None);
    assert_eq!(groups.len(), 2);
    // C1 comes first alphabetically
    assert_eq!(groups[0].len(), 1);
    assert_eq!(groups[0][0].0, "C1");
    // R1, R2 grouped
    assert_eq!(groups[1].len(), 2);
    assert_eq!(groups[1][0].0, "R1");
    assert_eq!(groups[1][1].0, "R2");
}

#[test]
fn natural_sort_key_splits_prefix_and_number() {
    assert_eq!(natural_sort_key("R10"), ("R".to_string(), 10));
    assert_eq!(natural_sort_key("TP"), ("TP".to_string(), 0));
    assert_eq!(natural_sort_key("U3A"), ("U".to_string(), 0));
    assert_eq!(natural_sort_key("+5"), ("+".to_string(), 5));
}

#[test]
fn refs_sorted_naturally_and_ties_keep_order() {
    let components = vec![
        comp("R10", "1k", "0402", Side::Front, 0),
        comp("R2", "1k", "0402", Side::Front, 1),
        comp("R2", "1k", "0402", Side::Back, 2),
    ];
    let groups = group_components(&components, &[], None);
    assert_eq!(groups, vec![vec![("R2".to_string(), 1), ("R2".to_string(), 2), ("R10".to_string(), 0)]]);
}

#[test]
fn side_filter_and_skip_list() {
    let components = vec![
        comp("C1", "1u", "0603", Side::Back, 0),
        comp("C2", "1u", "0603", Side::Front, 1),
        comp("C3", "1u", "0603", Side::Front, 2),
    ];
    let back = group_components(&components, &[], Some(Side::Back));
    assert_eq!(back, vec![vec![("C1".to_string(), 0)]]);
    let front = group_components(&components, &[1], Some(Side::Front));
    assert_eq!(front, vec![vec![("C3".to_string(), 2)]]);
}

#[test]
fn generate_bom_fields_and_skips() {
    let mut tp = comp("TP1", "", "pad", Side::Front, 2);
    tp.attr = Some("virtual".to_string());
    let mut r = comp("R1", "10k", "0805", Side::Front, 0);
    r.extra_fields = vec![("MPN".to_string(), "RC0805".to_string())];
    let c = comp("C1", "1u", "0603", Side::Back, 1);
    let components = vec![r, c, tp];
    let config = BomConfig {
        fields: vec!["Value".to_string(), "Footprint".to_string(), "MPN".to_string()],
        skip_attrs: vec!["virtual".to_string()],
        skip_refs: vec!["C".to_string()],
    };
    let footprints: Vec<()> = Vec::new();
    let bom = generate_bom(&footprints, &components, &config);
    assert_eq!(bom.skipped, vec![1, 2]);
    assert_eq!(bom.both, vec![vec![("R1".to_string(), 0)]]);
    assert_eq!(bom.front, vec![vec![("R1".to_string(), 0)]]);
    assert!(bom.back.is_empty());
    assert_eq!(bom.fields.0[0].0, "0");
    assert_eq!(bom.fields.0[0].1, vec!["10k".to_string(), "0805".to_string(), "RC0805".to_string()]);
    assert_eq!(bom.fields.0[1].1, vec!["1u".to_string(), "0603".to_string(), String::new()]);
    assert_eq!(bom.fields.0.len(), 3);
}

#[test]
fn default_config_fields() {
    let config = BomConfig::default();
    assert_eq!(config.fields, vec!["Value".to_string(), "Footprint".to_string()]);
    assert_eq!(config.skip_attrs, vec!["virtual".to_string()]);
    assert!(config.skip_refs.is_empty());
}
