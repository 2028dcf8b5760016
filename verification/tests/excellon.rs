use pcb_extract::parsers::gerber::excellon::{is_float_text, parse_excellon, CoordValue, DrillHit};

/// Millimeters of a coordinate, as the drawing stage computes them.
fn mm(c: &CoordValue, inches: bool) -> f64 {
    let v = match c {
        CoordValue::Decimal(s) => s.parse::<f64>().unwrap(),
        CoordValue::Scaled { raw, decimals, negative } => {
            let val = *raw as f64 / 10f64.powi(*decimals as i32);
            if *negative {
                -val
            } else {
                val
            }
        }
    };
    if inches {
        v * 25.4
    } else {
        v
    }
}

/// `(x, y, radius)` in millimeters.
fn circle(h: &DrillHit) -> (f64, f64, f64) {
    let d = h.tool.diameter.parse::<f64>().unwrap();
    let d = if h.tool.inches { d * 25.4 } else { d };
    (mm(&h.x, h.inches), mm(&h.y, h.inches), d / 2.0)
}

#[test]
fn test_basic_excellon() {
    let content = "\
M48
METRIC,TZ,000.000
T11C0.300
T12C0.800
%
T11
X14.478Y10.541
X14.478Y12.191
T12
X15.000Y10.000
M30
";
    let hits = parse_excellon(content).unwrap();
    assert_eq!(hits.len(), 3);
    let (x, y, r) = circle(&hits[0]);
    assert!((x - 14.478).abs() < 1e-6);
    assert!((y - 10.541).abs() < 1e-6);
    assert!((r - 0.15).abs() < 1e-6);
    let (x, y, r) = circle(&hits[2]);
    assert!((x - 15.0).abs() < 1e-6);
    assert!((y - 10.0).abs() < 1e-6);
    assert!((r - 0.4).abs() < 1e-6);
}

#[test]
fn test_inch_units() {
    let content = "\
M48
INCH,TZ
T01C0.010
%
T01
X1.000Y1.000
M30
";
    let hits = parse_excellon(content).unwrap();
    assert_eq!(hits.len(), 1);
    let (x, y, r) = circle(&hits[0]);
    assert!((x - 25.4).abs() < 1e-3);
    assert!((y - 25.4).abs() < 1e-3);
    assert!((r - 0.127).abs() < 1e-3);
}

#[test]
fn test_no_decimal_trailing_zero_suppressed() {
    let content = "\
M48
METRIC,TZ,000.000
T01C0.500
%
T01
X14478Y10541
M30
";
    let hits = parse_excellon(content).unwrap();
    assert_eq!(hits.len(), 1);
    let (x, y, _) = circle(&hits[0]);
    assert!((x - 14.478).abs() < 1e-3);
    assert!((y - 10.541).abs() < 1e-3);
}

#[test]
fn test_leading_zero_suppression() {
    let content = "\
M48
METRIC,LZ,000.000
T01C0.500
%
T01
X14478Y10541
M30
";
    let hits = parse_excellon(content).unwrap();
    assert_eq!(hits.len(), 1);
    let (x, y, _) = circle(&hits[0]);
    assert!((x - 14.478).abs() < 1e-3);
    assert!((y - 10.541).abs() < 1e-3);
}

#[test]
fn test_not_excellon() {
    assert!(parse_excellon("random text without M48").is_none());
}

#[test]
fn test_empty_drill_file() {
    let content = "\
M48
METRIC,TZ,000.000
%
M30
";
    let hits = parse_excellon(content).unwrap();
    assert!(hits.is_empty());
}

#[test]
fn test_m71_m72_units() {
    let content = "\
M48
M71
T01C0.500
%
T01
X10.000Y20.000
M30
";
    let hits = parse_excellon(content).unwrap();
    assert_eq!(hits.len(), 1);
    let (x, y, _) = circle(&hits[0]);
    assert!((x - 10.0).abs() < 1e-6);
    assert!((y - 20.0).abs() < 1e-6);
}

#[test]
fn test_multiple_tools() {
    let content = "\
M48
METRIC,TZ,000.000
T01C0.300
T02C0.800
T03C1.000
%
T01
X1.000Y1.000
X2.000Y2.000
T02
X3.000Y3.000
T03
X4.000Y4.000
X5.000Y5.000
M30
";
    let hits = parse_excellon(content).unwrap();
    assert_eq!(hits.len(), 5);
    assert!((circle(&hits[0]).2 - 0.15).abs() < 1e-6);
    assert!((circle(&hits[2]).2 - 0.4).abs() < 1e-6);
    assert!((circle(&hits[3]).2 - 0.5).abs() < 1e-6);
}

#[test]
fn test_eagle_tz_leading_zeros_dropped() {
    let content = "\
M48
;GenerationSoftware,Autodesk,EAGLE,9.7.0*%
FMAT,2
ICI,OFF
METRIC,TZ,000.000
T1C4.300
%
G90
M71
T1
X4572Y4572
X135128Y58928
M30
";
    let hits = parse_excellon(content).unwrap();
    assert_eq!(hits.len(), 2);
    let (x, y, r) = circle(&hits[0]);
    assert!((x - 4.572).abs() < 1e-3, "x={x}");
    assert!((y - 4.572).abs() < 1e-3, "y={y}");
    assert!((r - 2.15).abs() < 1e-3);
    let (x, y, _) = circle(&hits[1]);
    assert!((x - 135.128).abs() < 1e-3, "x={x}");
    assert!((y - 58.928).abs() < 1e-3, "y={y}");
}

#[test]
fn excellon_details() {
    // Hits without a selected tool, or with an unknown tool, are dropped;
    // a negative digit coordinate keeps its sign; hits after M30 are ignored.
    let content = "M48\nMETRIC,TZ,00.0000\nT2C1.0\n%\nX1.0Y1.0\nT9\nX2.0Y2.0\nT2\nX-15Y20\nM30\nX3.0Y3.0\n";
    let hits = parse_excellon(content).unwrap();
    assert_eq!(hits.len(), 1);
    assert_eq!(hits[0].x, CoordValue::Scaled { raw: 15, decimals: 4, negative: true });
    assert_eq!(hits[0].y, CoordValue::Scaled { raw: 20, decimals: 4, negative: false });
    // Without a header line, tools, or hits, the text is not Excellon even
    // when it mentions M48.
    assert!(parse_excellon("M48x\nT1C0.5\n").is_none());
    assert!(parse_excellon("  M48 ").is_some());
    assert!(parse_excellon("xM48x").is_none());
}

#[test]
fn float_text_syntax() {
    for ok in ["1.5", "-0.25", "+.5", "5.", "1e3", "1.5E-3", "inf", "-Infinity", "NaN"] {
        let cs: Vec<char> = ok.chars().collect();
        assert!(is_float_text(&cs), "{ok}");
        assert!(ok.parse::<f64>().is_ok(), "{ok}");
    }
    for bad in ["", ".", "1.2.3", "e5", "1e", "--1", "1,5", " 1.5"] {
        let cs: Vec<char> = bad.chars().collect();
        assert!(!is_float_text(&cs), "{bad}");
        assert!(bad.parse::<f64>().is_err(), "{bad}");
    }
}
