use pcb_extract::parsers::eagle::board::{read_xml_board, XmlShape};
use pcb_extract::parsers::eagle::elements::XmlPad;
use pcb_extract::parsers::eagle_binary::footprint::PadShape;
use pcb_extract::ExtractOptions;

fn with_tracks() -> ExtractOptions {
    ExtractOptions { include_tracks: true, ..ExtractOptions::default() }
}

fn minimal_board_with_signal(signal_xml: &str) -> String {
    format!(
        r#"<?xml version="1.0" encoding="utf-8"?>
<eagle version="9.6.2">
<drawing><board>
<libraries/><elements/><plain/>
<signals>
{signal_xml}
</signals>
</board></drawing></eagle>"#
    )
}

#[test]
fn extracts_gnd_copper_pour_on_front() {
    let xml = minimal_board_with_signal(
        r#"<signal name="GND">
                <polygon width="0.254" layer="1" pour="solid">
                  <vertex x="0" y="0"/>
                  <vertex x="10" y="0"/>
                  <vertex x="10" y="5"/>
                  <vertex x="0" y="5"/>
                </polygon>
              </signal>"#,
    );
    let pcb = read_xml_board(&xml, &with_tracks()).unwrap();
    let zones = pcb.zones.expect("zones should be populated");
    assert_eq!(zones.back.len(), 0);
    assert_eq!(zones.front.len(), 1);

    let z = &zones.front[0];
    assert_eq!(z.net.as_deref(), Some("GND"));
    assert_eq!(z.width.as_deref(), Some("0.254"));
    assert_eq!(z.vertices.len(), 4);
    assert_eq!(z.vertices[0], (Some("0".to_string()), Some("0".to_string())));
    assert_eq!(z.vertices[2], (Some("10".to_string()), Some("5".to_string())));
}

#[test]
fn routes_bottom_copper_pour_to_back_layer() {
    let xml = minimal_board_with_signal(
        r#"<signal name="GND">
                <polygon width="0.3" layer="16">
                  <vertex x="0" y="0"/>
                  <vertex x="1" y="0"/>
                  <vertex x="1" y="1"/>
                </polygon>
              </signal>"#,
    );
    let pcb = read_xml_board(&xml, &with_tracks()).unwrap();
    let zones = pcb.zones.unwrap();
    assert_eq!(zones.front.len(), 0);
    assert_eq!(zones.back.len(), 1);
}

#[test]
fn degenerate_polygon_is_skipped() {
    let xml = minimal_board_with_signal(
        r#"<signal name="GND">
                <polygon width="0.3" layer="1">
                  <vertex x="0" y="0"/>
                  <vertex x="1" y="1"/>
                </polygon>
              </signal>"#,
    );
    let pcb = read_xml_board(&xml, &with_tracks()).unwrap();
    assert!(pcb.zones.is_none());
}

#[test]
fn boards_without_pours_emit_no_zones_field() {
    let xml = minimal_board_with_signal(
        r#"<signal name="N$1">
                <wire x1="0" y1="0" x2="5" y2="0" width="0.2" layer="1"/>
              </signal>"#,
    );
    let pcb = read_xml_board(&xml, &with_tracks()).unwrap();
    assert!(pcb.zones.is_none());
}

#[test]
fn zones_respect_include_tracks_flag() {
    let xml = minimal_board_with_signal(
        r#"<signal name="GND">
                <polygon width="0.3" layer="1">
                  <vertex x="0" y="0"/>
                  <vertex x="1" y="0"/>
                  <vertex x="1" y="1"/>
                </polygon>
              </signal>"#,
    );
    let opts = ExtractOptions { include_tracks: false, ..ExtractOptions::default() };
    let pcb = read_xml_board(&xml, &opts).unwrap();
    assert!(pcb.zones.is_none());
}

#[test]
fn signals_give_tracks_and_vias_with_nets() {
    let xml = minimal_board_with_signal(
        r#"<signal name="VCC">
                <wire x1="0" y1="0" x2="5" y2="0" width="0.2" layer="1"/>
                <wire x1="1" y1="1" x2="2" y2="2" width="0.3" layer="16"/>
                <wire x1="1" y1="1" x2="2" y2="2" width="0.3" layer="21"/>
                <via x="3" y="4" drill="0.4"/>
              </signal>
              <signal name="">
                <wire x1="9" y1="9" x2="8" y2="8" width="0.1" layer="+1"/>
              </signal>"#,
    );
    let pcb = read_xml_board(&xml, &with_tracks()).unwrap();
    let t = pcb.tracks.unwrap();
    assert_eq!(t.front.len(), 3);
    assert_eq!(t.back.len(), 2);
    assert_eq!(t.front[0].net.as_deref(), Some("VCC"));
    assert!(matches!(&t.front[1].shape, XmlShape::Via { diameter: None, .. }));
    assert_eq!(t.front[2].net, None);
    match &t.back[0].shape {
        XmlShape::Wire { width, .. } => assert_eq!(width.as_deref(), Some("0.3")),
        other => panic!("unexpected {other:?}"),
    }
    assert!(read_xml_board(&xml, &ExtractOptions::default()).unwrap().tracks.is_none());
}

#[test]
fn plain_drawings_by_layer() {
    let xml = r#"<eagle><drawing><board><plain>
        <wire x1="0" y1="0" x2="50" y2="0" width="0" layer="20"/>
        <circle x="1" y="2" radius="3" width="0.1" layer="21"/>
        <rectangle x1="0" y1="0" x2="1" y2="1" layer="52"/>
        <text x="0" y="0" layer="21">T</text>
        <wire x1="0" y1="0" x2="1" y2="0" width="0" layer="1"/>
        </plain></board></drawing></eagle>"#;
    let pcb = read_xml_board(xml, &ExtractOptions::default()).unwrap();
    assert_eq!(pcb.drawings.edges.len(), 1);
    assert_eq!(pcb.drawings.silk_f.len(), 1);
    assert!(matches!(&pcb.drawings.silk_f[0], XmlShape::Circle { .. }));
    assert_eq!(pcb.drawings.fab_b.len(), 1);
    assert!(pcb.drawings.silk_b.is_empty() && pcb.drawings.fab_f.is_empty());
}

#[test]
fn xml_errors_and_missing_board() {
    let err = read_xml_board("<eagle><drawing></eagle>", &ExtractOptions::default()).err().unwrap();
    assert!(err.message().starts_with("parse error: XML parse error: "));
    let err = read_xml_board("<eagle><drawing/></eagle>", &ExtractOptions::default()).err().unwrap();
    assert_eq!(err.message(), "parse error: No <board> element found");
}

fn board_with_elements(elements_xml: &str) -> String {
    format!(
        r#"<eagle><drawing><board>
<libraries>
<library name="rcl"><packages>
<package name="OLD"><pad name="9" x="0" y="0" drill="1"/></package>
<package name="R0805">
<pad name="1" x="-1" y="0" drill="0.8" shape="long"/>
<pad name="2" x="1" y="0" drill="0.8" diameter="1.6" shape="square"/>
<smd name="A1" x="0" y="2" dx="1.2" dy="0.6" layer="1" roundness="25"/>
<wire x1="-2" y1="-1" x2="2" y2="-1" width="0.1" layer="21"/>
<wire x1="0" y1="0" x2="1" y2="1" width="0.1" layer="1"/>
<circle x="0" y="0" radius="0.5" width="0.1" layer="51"/>
<rectangle x1="0" y1="0" x2="1" y2="1" layer="21"/>
</package>
</packages></library>
<library name="rcl"><packages>
<package name="OLD"><smd name="S" x="0" y="0" dx="1" dy="1" layer="16"/></package>
</packages></library>
</libraries>
<elements>
{elements_xml}
</elements>
</board></drawing></eagle>"#
    )
}

#[test]
fn element_takes_package_pads_and_drawings() {
    let xml = board_with_elements(r#"<element name="R1" value="10k" library="rcl" package="R0805" x="5" y="6" rot="R90"/>"#);
    let pcb = read_xml_board(&xml, &ExtractOptions::default()).unwrap();
    assert_eq!(pcb.footprints.len(), 1);
    let f = &pcb.footprints[0];
    assert_eq!(f.name, "R1");
    assert_eq!(f.value, "10k");
    assert_eq!(f.package, "R0805");
    assert_eq!(f.x.as_deref(), Some("5"));
    assert_eq!(f.y.as_deref(), Some("6"));
    assert_eq!(f.angle, "90");
    assert!(!f.mirrored);
    assert_eq!(f.side, "F");
    assert_eq!(f.pads.len(), 3);
    match &f.pads[0] {
        XmlPad::Th { name, drill, diameter, shape, pin1, .. } => {
            assert_eq!(name, "1");
            assert_eq!(drill.as_deref(), Some("0.8"));
            assert!(diameter.is_none());
            assert_eq!(*shape, PadShape::Oval);
            assert!(*pin1);
        }
        other => panic!("unexpected {other:?}"),
    }
    match &f.pads[1] {
        XmlPad::Th { diameter, shape, pin1, .. } => {
            assert_eq!(diameter.as_deref(), Some("1.6"));
            assert_eq!(*shape, PadShape::Rect);
            assert!(!*pin1);
        }
        other => panic!("unexpected {other:?}"),
    }
    match &f.pads[2] {
        XmlPad::Smd { name, dx, dy, roundness, side, pin1, .. } => {
            assert_eq!(name, "A1");
            assert_eq!(dx.as_deref(), Some("1.2"));
            assert_eq!(dy.as_deref(), Some("0.6"));
            assert_eq!(roundness.as_deref(), Some("25"));
            assert_eq!(side, "F");
            assert!(*pin1);
        }
        other => panic!("unexpected {other:?}"),
    }
    // the copper wire does not show; silk wire, fab circle, silk rectangle do
    assert_eq!(f.drawings.len(), 3);
    assert!(f.drawings.iter().all(|d| d.side == "F"));
    assert!(matches!(f.drawings[0].shape, XmlShape::Wire { .. }));
    assert!(matches!(f.drawings[1].shape, XmlShape::Circle { .. }));
    assert!(matches!(f.drawings[2].shape, XmlShape::Rect { .. }));
}

#[test]
fn mirrored_element_sits_on_back() {
    let xml = board_with_elements(r#"<element name="R2" value="1k" library="rcl" package="R0805" x="0" y="0" rot="MR270"/>"#);
    let pcb = read_xml_board(&xml, &ExtractOptions::default()).unwrap();
    let f = &pcb.footprints[0];
    assert!(f.mirrored);
    assert_eq!(f.side, "B");
    assert_eq!(f.angle, "270");
    match &f.pads[2] {
        XmlPad::Smd { side, .. } => assert_eq!(side, "B"),
        other => panic!("unexpected {other:?}"),
    }
    assert_eq!(f.drawings.len(), 3);
    assert!(f.drawings.iter().all(|d| d.side == "B"));
}

#[test]
fn element_without_rot_or_package() {
    let xml = board_with_elements(
        r#"<element name="U1" value="X" library="none" package="R0805" x="1" y="2"/>
<element name="U2" library="rcl" package="OLD"/>"#,
    );
    let pcb = read_xml_board(&xml, &ExtractOptions::default()).unwrap();
    assert_eq!(pcb.footprints.len(), 2);
    let u1 = &pcb.footprints[0];
    assert_eq!(u1.angle, "0");
    assert!(!u1.mirrored);
    assert!(u1.pads.is_empty() && u1.drawings.is_empty());
    // the later definition of a package wins
    let u2 = &pcb.footprints[1];
    assert_eq!(u2.value, "");
    assert!(u2.x.is_none());
    assert_eq!(u2.pads.len(), 1);
    match &u2.pads[0] {
        XmlPad::Smd { name, side, roundness, .. } => {
            assert_eq!(name, "S");
            assert_eq!(side, "B");
            assert!(roundness.is_none());
        }
        other => panic!("unexpected {other:?}"),
    }
}
