use pcb_extract::error::ExtractError;
use pcb_extract::parsers::gerber::commands::{
    parse_commands, try_parse_commands, ApertureTemplate, BoardSide, CoordinateFormat, CopperSide,
    FileFunction, GerberCommand, Polarity, Units,
};
use pcb_extract::parsers::gerber::lexer::tokenize;

fn parse(input: &str) -> Vec<GerberCommand> {
    let tokens = tokenize(input);
    parse_commands(&tokens).unwrap()
}

fn parse_err(input: &str) -> String {
    match parse_commands(&tokenize(input)) {
        Err(ExtractError::ParseError(m)) => m,
        other => panic!("expected a parse error, got {other:?}"),
    }
}

/// The value of a decimal parameter.
fn num(s: &str) -> f64 {
    s.parse::<f64>().unwrap()
}

#[test]
fn test_format_spec() {
    let cmds = parse("%FSLAX24Y24*%\n");
    assert_eq!(cmds.len(), 1);
    match &cmds[0] {
        GerberCommand::FormatSpec(fmt) => {
            assert_eq!(fmt.x_integer, 2);
            assert_eq!(fmt.x_decimal, 4);
            assert_eq!(fmt.y_integer, 2);
            assert_eq!(fmt.y_decimal, 4);
        }
        other => panic!("expected FormatSpec, got: {other:?}"),
    }
}

#[test]
fn test_format_spec_35() {
    let cmds = parse("%FSLAX35Y35*%\n");
    match &cmds[0] {
        GerberCommand::FormatSpec(fmt) => {
            assert_eq!(fmt.x_integer, 3);
            assert_eq!(fmt.x_decimal, 5);
        }
        other => panic!("expected FormatSpec, got: {other:?}"),
    }
}

#[test]
fn test_units() {
    assert_eq!(parse("%MOMM*%\n"), vec![GerberCommand::Units(Units::Millimeters)]);
    assert_eq!(parse("%MOIN*%\n"), vec![GerberCommand::Units(Units::Inches)]);
}

#[test]
fn test_aperture_define_circle() {
    let cmds = parse("%ADD10C,0.020*%\n");
    assert_eq!(cmds.len(), 1);
    match &cmds[0] {
        GerberCommand::ApertureDefine { code, template: ApertureTemplate::Circle { diameter } } => {
            assert_eq!(*code, 10);
            assert_eq!(num(diameter), 0.020);
        }
        other => panic!("expected a circle aperture, got: {other:?}"),
    }
}

#[test]
fn test_aperture_define_rectangle() {
    let cmds = parse("%ADD11R,0.040X0.020*%\n");
    assert_eq!(cmds.len(), 1);
    match &cmds[0] {
        GerberCommand::ApertureDefine { code, template: ApertureTemplate::Rectangle { x_size, y_size } } => {
            assert_eq!(*code, 11);
            assert_eq!(num(x_size), 0.040);
            assert_eq!(num(y_size), 0.020);
        }
        other => panic!("expected a rectangle aperture, got: {other:?}"),
    }
}

#[test]
fn test_aperture_define_obround() {
    let cmds = parse("%ADD12O,0.050X0.030*%\n");
    assert_eq!(cmds.len(), 1);
    match &cmds[0] {
        GerberCommand::ApertureDefine { code, template: ApertureTemplate::Obround { x_size, y_size } } => {
            assert_eq!(*code, 12);
            assert_eq!(num(x_size), 0.050);
            assert_eq!(num(y_size), 0.030);
        }
        other => panic!("expected an obround aperture, got: {other:?}"),
    }
}

#[test]
fn test_aperture_define_polygon() {
    let cmds = parse("%ADD13P,0.080X6*%\n");
    assert_eq!(cmds.len(), 1);
    match &cmds[0] {
        GerberCommand::ApertureDefine {
            code,
            template: ApertureTemplate::Polygon { outer_diameter, num_vertices, rotation },
        } => {
            assert_eq!(*code, 13);
            assert_eq!(num(outer_diameter), 0.080);
            assert_eq!(num(num_vertices) as u32, 6);
            assert_eq!(rotation.as_deref().map_or(0.0, num), 0.0);
        }
        other => panic!("expected a polygon aperture, got: {other:?}"),
    }
}

#[test]
fn test_select_aperture() {
    assert_eq!(parse("D10*\n"), vec![GerberCommand::SelectAperture(10)]);
}

#[test]
fn test_interpolate() {
    assert_eq!(
        parse("X100Y200D01*\n"),
        vec![GerberCommand::Interpolate { x: Some(100), y: Some(200), i: None, j: None }]
    );
}

#[test]
fn test_move() {
    assert_eq!(parse("X100Y200D02*\n"), vec![GerberCommand::Move { x: Some(100), y: Some(200) }]);
}

#[test]
fn test_flash() {
    assert_eq!(parse("X100Y200D03*\n"), vec![GerberCommand::Flash { x: Some(100), y: Some(200) }]);
}

#[test]
fn test_g_codes() {
    assert_eq!(parse("G01*\n"), vec![GerberCommand::LinearMode]);
    assert_eq!(parse("G02*\n"), vec![GerberCommand::ClockwiseArcMode]);
    assert_eq!(parse("G03*\n"), vec![GerberCommand::CounterClockwiseArcMode]);
    assert_eq!(parse("G36*\n"), vec![GerberCommand::RegionBegin]);
    assert_eq!(parse("G37*\n"), vec![GerberCommand::RegionEnd]);
    assert_eq!(parse("G74*\n"), vec![GerberCommand::SingleQuadrant]);
    assert_eq!(parse("G75*\n"), vec![GerberCommand::MultiQuadrant]);
}

#[test]
fn test_end_of_file() {
    assert_eq!(parse("M02*\n"), vec![GerberCommand::EndOfFile]);
}

#[test]
fn test_polarity() {
    assert_eq!(parse("%LPD*%\n"), vec![GerberCommand::Polarity(Polarity::Dark)]);
    assert_eq!(parse("%LPC*%\n"), vec![GerberCommand::Polarity(Polarity::Clear)]);
}

#[test]
fn test_file_function_copper_top() {
    assert_eq!(
        parse("%TF.FileFunction,Copper,L1,Top*%\n"),
        vec![GerberCommand::FileFunction(FileFunction::Copper { layer_num: 1, side: CopperSide::Top })]
    );
}

#[test]
fn test_file_function_legend_bottom() {
    assert_eq!(
        parse("%TF.FileFunction,Legend,Bot*%\n"),
        vec![GerberCommand::FileFunction(FileFunction::Legend { side: BoardSide::Bottom })]
    );
}

#[test]
fn test_file_function_profile() {
    assert_eq!(
        parse("%TF.FileFunction,Profile*%\n"),
        vec![GerberCommand::FileFunction(FileFunction::Profile)]
    );
}

#[test]
fn test_negative_coords() {
    assert_eq!(
        parse("X-100Y-200D01*\n"),
        vec![GerberCommand::Interpolate { x: Some(-100), y: Some(-200), i: None, j: None }]
    );
}

#[test]
fn test_arc_with_ij() {
    assert_eq!(
        parse("X200Y100I50J-30D01*\n"),
        vec![GerberCommand::Interpolate { x: Some(200), y: Some(100), i: Some(50), j: Some(-30) }]
    );
}

#[test]
fn test_g_code_with_coords() {
    assert_eq!(
        parse("G01X100Y200D01*\n"),
        vec![
            GerberCommand::LinearMode,
            GerberCommand::Interpolate { x: Some(100), y: Some(200), i: None, j: None },
        ]
    );
}

#[test]
fn test_macro_define() {
    let cmds = parse("%AMOC8*5,1,8,0,0,1.08239X$1,22.5*%\n");
    assert_eq!(cmds.len(), 1);
    match &cmds[0] {
        GerberCommand::MacroDefine { name, body } => {
            assert_eq!(name, "OC8");
            assert_eq!(body.len(), 1);
            assert_eq!(body[0], "5,1,8,0,0,1.08239X$1,22.5");
        }
        other => panic!("expected MacroDefine, got: {other:?}"),
    }
}

#[test]
fn test_macro_ad_reference() {
    let cmds = parse("%ADD22OC8,0.1*%\n");
    assert_eq!(cmds.len(), 1);
    match &cmds[0] {
        GerberCommand::ApertureDefine { code, template } => {
            assert_eq!(*code, 22);
            match template {
                ApertureTemplate::Macro { name, params } => {
                    assert_eq!(name, "OC8");
                    assert_eq!(params.len(), 1);
                    assert!((num(&params[0]) - 0.1).abs() < 1e-9);
                }
                other => panic!("expected Macro template, got: {other:?}"),
            }
        }
        other => panic!("expected ApertureDefine, got: {other:?}"),
    }
}

#[test]
fn test_macro_multi_line() {
    let cmds = parse("%AMTEST*1,1,0.5,0,0*21,1,0.3,0.1,0,0,0*%\n");
    assert_eq!(cmds.len(), 1);
    match &cmds[0] {
        GerberCommand::MacroDefine { name, body } => {
            assert_eq!(name, "TEST");
            assert_eq!(body.len(), 2);
        }
        other => panic!("expected MacroDefine, got: {other:?}"),
    }
}

#[test]
fn test_step_repeat_parse() {
    match &parse("%SRX3Y2I5.0J10.0*%\n")[..] {
        [GerberCommand::StepRepeat { x_repeat, y_repeat, x_step, y_step }] => {
            assert_eq!((*x_repeat, *y_repeat), (3, 2));
            assert_eq!(x_step.as_deref().map_or(0.0, num), 5.0);
            assert_eq!(y_step.as_deref().map_or(0.0, num), 10.0);
        }
        other => panic!("expected StepRepeat, got: {other:?}"),
    }
    // Bare %SR% = close/reset
    assert_eq!(
        parse("%SR*%\n"),
        vec![GerberCommand::StepRepeat { x_repeat: 1, y_repeat: 1, x_step: None, y_step: None }]
    );
}

#[test]
fn test_image_mirror() {
    assert_eq!(parse("%MIA1B0*%\n"), vec![GerberCommand::ImageMirror { a: true, b: false }]);
    assert_eq!(parse("%MIA0B1*%\n"), vec![GerberCommand::ImageMirror { a: false, b: true }]);
    assert_eq!(parse("%MIA0B0*%\n"), vec![GerberCommand::ImageMirror { a: false, b: false }]);
}

#[test]
fn test_image_scale() {
    let cmds = parse("%SFA2.0B1.5*%\n");
    assert_eq!(cmds.len(), 1);
    match &cmds[0] {
        GerberCommand::ImageScale { a, b } => {
            assert!((a.as_deref().map_or(1.0, num) - 2.0).abs() < 1e-9);
            assert!((b.as_deref().map_or(1.0, num) - 1.5).abs() < 1e-9);
        }
        other => panic!("expected ImageScale, got: {other:?}"),
    }
    // Default scale (no-op)
    match &parse("%SFA1.0B1.0*%\n")[..] {
        [GerberCommand::ImageScale { a, b }] => {
            assert_eq!(a.as_deref().map_or(1.0, num), 1.0);
            assert_eq!(b.as_deref().map_or(1.0, num), 1.0);
        }
        other => panic!("expected ImageScale, got: {other:?}"),
    }
}

#[test]
fn coordinate_format_defaults_to_two_four() {
    assert_eq!(
        CoordinateFormat::default(),
        CoordinateFormat { x_integer: 2, x_decimal: 4, y_integer: 2, y_decimal: 4 }
    );
    assert_eq!(Units::default(), Units::Millimeters);
}

#[test]
fn format_spec_errors() {
    assert_eq!(parse_err("%FSLAY24*%"), "FS: missing X");
    assert_eq!(parse_err("%FSLAX24*%"), "FS: missing Y");
    assert_eq!(parse_err("%FSLAX2Y24*%"), "FS: invalid format digits: X=2 Y=24");
    assert_eq!(parse_err("%FSLAXa4Y24*%"), "FS: bad X integer: a4");
    assert_eq!(parse_err("%FSLAX2aY24*%"), "FS: bad X decimal: 2a");
    assert_eq!(parse_err("%FSLAX24Y2b*%"), "FS: bad Y decimal: 2b");
    assert_eq!(parse_err("%FSLAX9994Y24*%"), "FS: bad X integer: 9994");
    // Flags are skipped in any order and number.
    assert_eq!(
        parse("%FSTIALX+35Y46*%"),
        vec![GerberCommand::FormatSpec(CoordinateFormat { x_integer: 3, x_decimal: 5, y_integer: 4, y_decimal: 6 })]
    );
}

#[test]
fn format_spec_cut_inside_a_character_is_reported() {
    // Y before X, and a group ending in a two-byte character.
    assert!(try_parse_commands(&tokenize("%FSLAY24X24*%")).is_none());
    assert!(try_parse_commands(&tokenize("%FSLAX2éY24*%")).is_none());
    // An earlier error wins over a later cut.
    assert!(matches!(try_parse_commands(&tokenize("X-*%FSLAY24X24*%")), Some(Err(_))));
}

#[test]
fn aperture_errors() {
    assert_eq!(parse_err("%AD10C,1*%"), "AD: expected D, got: 10C,1");
    assert_eq!(parse_err("%ADD10*%"), "AD: no template type in: 10");
    assert_eq!(parse_err("%ADDxC,1*%"), "AD: bad aperture code: xC,1");
    assert_eq!(parse_err("%ADD10C,1Xoops*%"), "AD: bad param: oops");
    assert_eq!(parse_err("%ADD10C*%"), "AD C: missing diameter");
    assert_eq!(parse_err("%ADD10R,1*%"), "AD R: need x_size and y_size");
    assert_eq!(parse_err("%ADD10O,1*%"), "AD O: need x_size and y_size");
    assert_eq!(parse_err("%ADD10P,1*%"), "AD P: need diameter and num_vertices");
    match &parse("%ADD15P,1.5X8X45*%")[..] {
        [GerberCommand::ApertureDefine { template: ApertureTemplate::Polygon { rotation, .. }, .. }] => {
            assert_eq!(rotation.as_deref(), Some("45"));
        }
        other => panic!("unexpected {other:?}"),
    }
}

#[test]
fn word_edge_cases() {
    // Coordinates without a D code interpolate; a word of nothing makes nothing.
    assert_eq!(
        parse("X5*"),
        vec![GerberCommand::Interpolate { x: Some(5), y: None, i: None, j: None }]
    );
    assert_eq!(parse("D05*"), vec![]);
    assert_eq!(parse("M00*G54D10*"), vec![GerberCommand::SelectAperture(10)]);
    assert_eq!(parse("x1y2d2*"), vec![GerberCommand::Move { x: Some(1), y: Some(2) }]);
    assert_eq!(parse_err("X-*"), "bad coord in: X-");
    assert_eq!(parse_err("D*G01"), "bad D-code in: D");
    assert_eq!(parse_err("X99999999999999999999D01*"), "bad coord in: X99999999999999999999D01");
    assert_eq!(
        parse("X-9223372036854775808D03*"),
        vec![GerberCommand::Flash { x: Some(i64::MIN), y: None }]
    );
}

#[test]
fn macros_close_on_other_tokens() {
    let cmds = parse("%AMA*1,1*%%AMB*$1=2*%%LPD*%%AMC*%D11*");
    assert_eq!(
        cmds,
        vec![
            GerberCommand::MacroDefine { name: "A".to_string(), body: vec!["1,1".to_string()] },
            GerberCommand::MacroDefine { name: "B".to_string(), body: vec!["$1=2".to_string()] },
            GerberCommand::Polarity(Polarity::Dark),
            GerberCommand::MacroDefine { name: "C".to_string(), body: vec![] },
            GerberCommand::SelectAperture(11),
        ]
    );
    // Unknown extended commands are skipped.
    assert_eq!(parse("%IPPOS*%%AM*%"), vec![]);
}
