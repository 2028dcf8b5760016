use pcb_extract::parsers::easyeda::{
    canvas_origin, parse_easyeda_component, parse_shape, pick_pcb_document, read_easyeda_components, EasyEdaBoardShape,
    EasyEdaComponent, EasyEdaDrawing, EasyEdaLayerCat,
};

fn comp(c_para: &[(&str, &str)], title: Option<&str>, shapes: Option<&[&str]>) -> EasyEdaComponent {
    EasyEdaComponent {
        c_para: c_para.iter().map(|(k, v)| (k.to_string(), v.to_string())).collect(),
        package_title: title.map(|t| t.to_string()),
        shapes: shapes.map(|v| v.iter().map(|s| s.to_string()).collect()),
    }
}

#[test]
fn component_names_prefer_designator_value_footprint() {
    let c = comp(
        &[("name", "U?"), ("Designator", "U1"), ("comment", "c"), ("Value", "10k"), ("Footprint", "SOIC-8")],
        Some("PKG"),
        Some(&[]),
    );
    let f = parse_easyeda_component(&c, 3).unwrap();
    assert_eq!(f.reference, "U1");
    assert_eq!(f.value, "10k");
    assert_eq!(f.footprint_name, "SOIC-8");
    assert_eq!(f.index, 3);
    assert!(f.pads.is_empty() && f.drawings.is_empty());
}

#[test]
fn component_names_fall_back() {
    let c = comp(&[("name", "R5"), ("comment", "4k7")], Some("R0603"), Some(&[]));
    let f = parse_easyeda_component(&c, 0).unwrap();
    assert_eq!(f.reference, "R5");
    assert_eq!(f.value, "4k7");
    assert_eq!(f.footprint_name, "R0603");
    let bare = parse_easyeda_component(&comp(&[], None, Some(&[])), 0).unwrap();
    assert_eq!((bare.reference.as_str(), bare.value.as_str(), bare.footprint_name.as_str()), ("", "", ""));
}

#[test]
fn component_without_shape_array_is_skipped() {
    assert!(parse_easyeda_component(&comp(&[("Designator", "U1")], None, None), 0).is_none());
}

#[test]
fn component_shapes_become_pads_and_drawings() {
    let shapes = [
        "PAD~RECT~100~200~10~20~1~GND~1~0~x~90",
        "PAD~ELLIPSE~0~0~5~5~11~~2~1.5",
        "PAD~OVAL~0~0~5~5~2~N~A1",
        "TRACK~1~3~0 0 10 10",
        "CIRCLE~5~6~2~0.5~4",
        "TEXT~whatever",
        "TRACK~1~3",
    ];
    let f = parse_easyeda_component(&comp(&[], None, Some(&shapes)), 0).unwrap();
    assert_eq!(f.pads.len(), 2);
    let p = &f.pads[0];
    assert_eq!(p.shape, "rect");
    assert_eq!((p.x.as_str(), p.y.as_str(), p.width.as_str(), p.height.as_str()), ("100", "200", "10", "20"));
    assert_eq!(p.side, "F");
    assert!(!p.multi_layer);
    assert_eq!(p.net.as_deref(), Some("GND"));
    assert!(p.pin1);
    assert_eq!(p.hole_radius, "0");
    assert_eq!(p.rotation.as_deref(), Some("90"));
    let q = &f.pads[1];
    assert_eq!(q.shape, "oval");
    assert!(q.multi_layer);
    assert!(q.net.is_none());
    assert!(!q.pin1);
    assert_eq!(q.hole_radius, "1.5");
    assert!(q.rotation.is_none());
    assert_eq!(f.drawings.len(), 2);
    match &f.drawings[0] {
        EasyEdaDrawing::Track { width, side, points } => {
            assert_eq!(width, "1");
            assert_eq!(*side, "F");
            assert_eq!(points, "0 0 10 10");
        }
        other => panic!("unexpected {other:?}"),
    }
    match &f.drawings[1] {
        EasyEdaDrawing::Circle { x, radius, side, .. } => {
            assert_eq!(x, "5");
            assert_eq!(radius, "2");
            assert_eq!(*side, "B");
        }
        other => panic!("unexpected {other:?}"),
    }
}

#[test]
fn components_are_numbered_in_order() {
    let comps = vec![
        comp(&[("Designator", "A")], None, Some(&[])),
        comp(&[("Designator", "skip")], None, None),
        comp(&[("Designator", "B")], None, Some(&[])),
    ];
    let fs = read_easyeda_components(&comps);
    assert_eq!(fs.len(), 2);
    assert_eq!((fs[0].reference.as_str(), fs[0].index), ("A", 0));
    assert_eq!((fs[1].reference.as_str(), fs[1].index), ("B", 1));
}

#[test]
fn pcb_document_is_the_first_of_type_five() {
    let docs = vec![None, Some("1".to_string()), Some("5".to_string()), Some("5".to_string())];
    assert_eq!(pick_pcb_document(&docs), Some(2));
    assert_eq!(pick_pcb_document(&[Some("3".to_string())]), None);
}

#[test]
fn canvas_origin_fields() {
    let canvas = "CA~1000~1000~#000000~yes~#FFFFFF~10~1000~1000~line~0.5~mil~1~45~visible~0.5~4000~3000~0~yes";
    let (x, y) = canvas_origin(canvas);
    assert_eq!(x.as_deref(), Some("4000"));
    assert_eq!(y.as_deref(), Some("3000"));
    assert_eq!(canvas_origin("CA~1"), (None, None));
}

#[test]
fn board_shapes_by_layer() {
    match parse_shape("TRACK~2~10~0 0 5 5").unwrap() {
        EasyEdaBoardShape::Track { width, cat, points } => {
            assert_eq!(width, "2");
            assert_eq!(cat, EasyEdaLayerCat::Edge);
            assert_eq!(points, "0 0 5 5");
        }
        other => panic!("unexpected {other:?}"),
    }
    assert!(matches!(parse_shape("TRACK~2~2~0 0 5 5"), Some(EasyEdaBoardShape::Track { cat: EasyEdaLayerCat::CopperB, .. })));
    assert!(parse_shape("TRACK~2~7~0 0 5 5").is_none());
    assert!(matches!(parse_shape("CIRCLE~1~2~3~0.1~3"), Some(EasyEdaBoardShape::Circle { cat: EasyEdaLayerCat::SilkF, .. })));
    assert!(parse_shape("CIRCLE~1~2~3~0.1~1").is_none());
    assert!(matches!(parse_shape("ARC~0.5~10~M0 0~~x"), Some(EasyEdaBoardShape::Arc { .. })));
    assert!(parse_shape("ARC~0.5~3~M0 0~~x").is_none());
    assert!(parse_shape("VIA~1").is_none());
}
