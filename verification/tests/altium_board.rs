use pcb_extract::parsers::altium::board::{
    build_footprints, build_track_data, categorize_drawings, extract_board_edges, net_name_exec, AltiumShape, CopperShape,
};
use pcb_extract::parsers::altium::records::{AltiumArc, AltiumComponent, AltiumPad};
use pcb_extract::parsers::altium::{AltiumFill, AltiumNet, AltiumTrack, AltiumVia, LayerCategory, LayerMap};

const FREE: u16 = 0xFFFF;

fn layer_map() -> LayerMap {
    LayerMap { categories: vec![(60, LayerCategory::FabB)], mech_kinds: vec![(58, "Assembly_Top".to_string())] }
}

fn track(layer: u8, component_id: u16, net_id: u16, x: i32) -> AltiumTrack {
    AltiumTrack { layer, net_id, component_id, start_x: x, start_y: 1, end_x: x + 10, end_y: 2, width: 3 }
}

fn arc(layer: u8, component_id: u16) -> AltiumArc {
    AltiumArc {
        layer,
        net_id: 0,
        component_id,
        center_x: 5,
        center_y: 6,
        radius: 7,
        start_angle: 0,
        end_angle: 90f64.to_bits(),
        width: 8,
    }
}

fn fill(layer: u8, component_id: u16) -> AltiumFill {
    AltiumFill { layer, component_id, x1: -1, y1: -2, x2: 3, y2: 4 }
}

fn nets() -> Vec<AltiumNet> {
    vec![AltiumNet { name: "GND".to_string() }, AltiumNet { name: String::new() }, AltiumNet { name: "VCC".to_string() }]
}

#[test]
fn net_names_skip_missing_and_empty() {
    let n = nets();
    assert_eq!(net_name_exec(&n, 0).as_deref(), Some("GND"));
    assert_eq!(net_name_exec(&n, 1), None);
    assert_eq!(net_name_exec(&n, 2).as_deref(), Some("VCC"));
    assert_eq!(net_name_exec(&n, 3), None);
}

#[test]
fn free_objects_become_board_drawings_by_side() {
    let tracks = vec![track(33, FREE, 0, 0), track(34, FREE, 0, 100), track(33, 0, 0, 200), track(1, FREE, 0, 300)];
    let arcs = vec![arc(58, FREE), arc(33, 2)];
    let fills = vec![fill(60, FREE), fill(13, FREE)];
    let d = categorize_drawings(&tracks, &arcs, &fills, &layer_map());
    assert_eq!(d.silk_f, vec![AltiumShape::Segment { x1: 0, y1: 1, x2: 10, y2: 2, width: 3 }]);
    assert_eq!(d.silk_b, vec![AltiumShape::Segment { x1: 100, y1: 1, x2: 110, y2: 2, width: 3 }]);
    assert_eq!(
        d.fab_f,
        vec![AltiumShape::Arc { cx: 5, cy: 6, radius: 7, start_angle: 0, end_angle: 90f64.to_bits(), width: 8 }]
    );
    assert_eq!(d.fab_b, vec![AltiumShape::Rect { x1: -1, y1: -2, x2: 3, y2: 4 }]);
}

#[test]
fn copper_goes_to_its_side_with_its_net() {
    let tracks = vec![track(1, FREE, 0, 0), track(32, FREE, 2, 50), track(5, FREE, 0, 90), track(1, 3, 0, 70)];
    let arcs = vec![arc(32, FREE)];
    let vias = vec![AltiumVia { net_id: 1, x: 9, y: 9, diameter: 20, hole_size: 10 }];
    let c = build_track_data(&tracks, &arcs, &vias, &nets(), &layer_map());
    assert_eq!(c.front.len(), 2);
    assert_eq!(c.front[0].shape, CopperShape::Track(AltiumShape::Segment { x1: 0, y1: 1, x2: 10, y2: 2, width: 3 }));
    assert_eq!(c.front[0].net.as_deref(), Some("GND"));
    assert_eq!(c.front[1].shape, CopperShape::Via { x: 9, y: 9, diameter: 20, drill: 10 });
    assert_eq!(c.front[1].net, None);
    assert_eq!(c.back.len(), 3);
    assert_eq!(c.back[0].net.as_deref(), Some("VCC"));
    assert!(matches!(c.back[1].shape, CopperShape::Track(AltiumShape::Arc { .. })));
    assert_eq!(c.back[2].shape, CopperShape::Via { x: 9, y: 9, diameter: 20, drill: 10 });
}

fn pad(name: &str, layer: u8, component_id: u16, hole_size: i32, shape: u8) -> AltiumPad {
    AltiumPad {
        name: name.to_string(),
        layer,
        net_id: 0,
        component_id,
        x: 1,
        y: 2,
        size_x: 30,
        size_y: 40,
        hole_size,
        shape,
        rotation: 45f64.to_bits(),
    }
}

fn component(designator: &str, layer: u8) -> AltiumComponent {
    AltiumComponent {
        designator: designator.to_string(),
        pattern: "0603".to_string(),
        comment: "10k".to_string(),
        x: Some("100mil".to_string()),
        y: Some("200mil".to_string()),
        rotation: Some("90".to_string()),
        layer,
    }
}

#[test]
fn components_collect_their_pads_and_drawings() {
    let comps = vec![component("R1", 1), component("U2", 32)];
    let pads = vec![
        pad("1", 1, 0, 0, 9),
        pad("2", 32, 1, 0, 1),
        pad("A1", 74, 1, 0, 2),
        pad("3", 1, 1, 12, 5),
    ];
    let tracks = vec![track(33, 0, 0, 0), track(1, 0, 0, 0), track(34, 1, 0, 0)];
    let arcs = vec![arc(58, 1)];
    let fills = vec![fill(60, 0)];
    let fps = build_footprints(&comps, &pads, &tracks, &arcs, &fills, &nets(), &layer_map());
    assert_eq!(fps.len(), 2);

    let r1 = &fps[0];
    assert_eq!(r1.designator, "R1");
    assert_eq!(r1.side, "F");
    assert_eq!(r1.x.as_deref(), Some("100mil"));
    assert_eq!(r1.pads.len(), 1);
    assert_eq!((r1.pads[0].shape, r1.pads[0].side, r1.pads[0].pin1), ("roundrect", Some("F"), true));
    assert_eq!(r1.pads[0].net.as_deref(), Some("GND"));
    assert_eq!(r1.pads[0].rotation, 45f64.to_bits());
    assert_eq!(r1.drawings.len(), 2);
    assert_eq!(r1.drawings[0].side, "F");
    assert_eq!(r1.drawings[1].side, "B");
    assert_eq!(r1.drawings[1].shape, AltiumShape::Rect { x1: -1, y1: -2, x2: 3, y2: 4 });

    let u2 = &fps[1];
    assert_eq!(u2.side, "B");
    assert_eq!(u2.pads.len(), 3);
    assert_eq!((u2.pads[0].shape, u2.pads[0].side, u2.pads[0].pin1), ("circle", Some("B"), false));
    assert_eq!((u2.pads[1].shape, u2.pads[1].side, u2.pads[1].pin1), ("rect", None, true));
    assert_eq!((u2.pads[2].through_hole, u2.pads[2].side, u2.pads[2].drill), (true, None, Some(12)));
    assert_eq!(u2.drawings.len(), 2);
    assert_eq!(u2.drawings[0].side, "B");
    assert_eq!(u2.drawings[1].side, "F");
}

fn rec(pairs: &[(&str, &str)]) -> Vec<(String, String)> {
    pairs.iter().map(|(k, v)| (k.to_string(), v.to_string())).collect()
}

#[test]
fn outline_records_give_closed_polygons() {
    let records = vec![
        rec(&[("RECORD", "Board"), ("DESIGNNAME", "x")]),
        rec(&[("KIND", "0"), ("VCOUNT", "3"), ("VX0", "0mil"), ("VY0", "0mil"), ("VX1", "100mil"), ("VY1", "0mil"), ("VX2", "100mil"), ("VY2", "50mil")]),
        rec(&[("KIND", "1"), ("VCOUNT", "2"), ("VX0", "9")]),
        rec(&[("KIND", "0"), ("VCOUNT", "+1"), ("VX0", "7")]),
        rec(&[("KIND", "0"), ("VCOUNT", "many")]),
    ];
    let edges = extract_board_edges(&records);
    assert_eq!(edges.len(), 4);
    let text = |o: &Option<String>| o.clone().unwrap_or_default();
    assert_eq!((text(&edges[0].x0), text(&edges[0].x1)), ("0mil".to_string(), "100mil".to_string()));
    assert_eq!((text(&edges[1].x1), text(&edges[1].y1)), ("100mil".to_string(), "50mil".to_string()));
    assert_eq!((text(&edges[2].x0), text(&edges[2].y0), text(&edges[2].x1)), ("100mil".to_string(), "50mil".to_string(), "0mil".to_string()));
    assert_eq!(edges[3].x0.as_deref(), Some("7"));
    assert_eq!(edges[3].x1.as_deref(), Some("7"));
    assert_eq!(edges[3].y0, None);
}
