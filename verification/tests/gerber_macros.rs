use pcb_extract::error::ExtractError;
use pcb_extract::parsers::gerber::apertures::ApertureTable;
use pcb_extract::parsers::gerber::commands::ApertureTemplate;
use pcb_extract::parsers::gerber::macros::{
    parse_expr, parse_macro_body, ApertureMacro, Expr, MacroPrimitive, MacroTable,
};

/// The value of an expression with the given parameters ($1 is the first);
/// a missing parameter is 0, and a division by (nearly) zero gives 0.
fn eval(e: &Expr, params: &[f64]) -> f64 {
    match e {
        Expr::Literal(s) => s.parse::<f64>().unwrap(),
        Expr::Variable(idx) => {
            if *idx == 0 || *idx as usize > params.len() {
                0.0
            } else {
                params[*idx as usize - 1]
            }
        }
        Expr::Add(a, b) => eval(a, params) + eval(b, params),
        Expr::Sub(a, b) => eval(a, params) - eval(b, params),
        Expr::Mul(a, b) => eval(a, params) * eval(b, params),
        Expr::Div(a, b) => {
            let denom = eval(b, params);
            if denom.abs() < 1e-15 {
                0.0
            } else {
                eval(a, params) / denom
            }
        }
    }
}

fn expr_err(s: &str) -> String {
    match parse_expr(s) {
        Err(ExtractError::ParseError(m)) => m,
        other => panic!("expected an error, got {other:?}"),
    }
}

#[test]
fn test_expr_literal() {
    let expr = parse_expr("42.5").unwrap();
    assert!((eval(&expr, &[]) - 42.5).abs() < 1e-9);
}

#[test]
fn test_expr_variable() {
    let expr = parse_expr("$1").unwrap();
    assert!((eval(&expr, &[3.0]) - 3.0).abs() < 1e-9);
}

#[test]
fn test_expr_multiply() {
    let expr = parse_expr("1.08239X$1").unwrap();
    assert!((eval(&expr, &[0.1]) - 0.108239).abs() < 1e-9);
}

#[test]
fn test_expr_add_sub() {
    let expr = parse_expr("$1+$2-1.0").unwrap();
    assert!((eval(&expr, &[3.0, 5.0]) - 7.0).abs() < 1e-9);
}

#[test]
fn test_expr_precedence() {
    // 2 + 3 * 4 = 14, not 20
    let expr = parse_expr("2+3x4").unwrap();
    assert!((eval(&expr, &[]) - 14.0).abs() < 1e-9);
}

#[test]
fn test_expr_parentheses() {
    let expr = parse_expr("(2+3)x4").unwrap();
    assert!((eval(&expr, &[]) - 20.0).abs() < 1e-9);
}

#[test]
fn test_expr_negative() {
    let expr = parse_expr("-1.5").unwrap();
    assert!((eval(&expr, &[]) - (-1.5)).abs() < 1e-9);
}

#[test]
fn test_parse_polygon_primitive() {
    let lines = vec!["5,1,8,0,0,1.08239X$1,22.5".to_string()];
    let prims = parse_macro_body(&lines).unwrap();
    assert_eq!(prims.len(), 1);
    assert!(matches!(prims[0], MacroPrimitive::Polygon { .. }));
}

#[test]
fn test_parse_circle_primitive() {
    let lines = vec!["1,1,0.5,0,0".to_string()];
    let prims = parse_macro_body(&lines).unwrap();
    assert_eq!(prims.len(), 1);
    assert!(matches!(prims[0], MacroPrimitive::Circle { .. }));
}

#[test]
fn test_parse_center_line() {
    let lines = vec!["21,1,0.5,0.3,0,0,0".to_string()];
    let prims = parse_macro_body(&lines).unwrap();
    assert_eq!(prims.len(), 1);
    assert!(matches!(prims[0], MacroPrimitive::CenterLine { .. }));
}

#[test]
fn expression_shapes() {
    let lit = |s: &str| Box::new(Expr::Literal(s.to_string()));
    assert_eq!(parse_expr("  ").unwrap(), Expr::Literal("0".to_string()));
    assert_eq!(
        parse_expr("1-2-3").unwrap(),
        Expr::Sub(Box::new(Expr::Sub(lit("1"), lit("2"))), lit("3"))
    );
    assert_eq!(
        parse_expr("$2/-4").unwrap(),
        Expr::Div(Box::new(Expr::Variable(2)), lit("-4"))
    );
    // After a number, `-` is the operator.
    assert_eq!(parse_expr("5 -1").unwrap(), Expr::Sub(lit("5"), lit("1")));
    assert!((eval(&parse_expr("$1/0").unwrap(), &[2.0])).abs() < 1e-12);
    assert!((eval(&parse_expr("$3").unwrap(), &[1.0])).abs() < 1e-12);
}

#[test]
fn expression_errors() {
    assert_eq!(expr_err("1.2.3"), "AM expr: bad number: 1.2.3");
    assert_eq!(expr_err("-."), "AM expr: bad number: -.");
    assert_eq!(expr_err("$"), "AM expr: bad variable: $");
    assert_eq!(expr_err("2*3"), "AM expr: unexpected char '*' in: 2*3");
    assert_eq!(expr_err("(1+2"), "AM expr: missing closing paren");
    assert_eq!(expr_err("1+"), "AM expr: unexpected end of expression");
    assert_eq!(expr_err("1 2"), "AM expr: unexpected tokens after expression: 1 2");
}

#[test]
fn macro_body_lines() {
    let lines: Vec<String> = ["0 comment", "", "4,1,3,0,0,1,0,1,1,0,0,15", "99,1", "20,1,0.1,0,0,1,1,0", "1,1,2,3,4,45"]
        .iter()
        .map(|s| s.to_string())
        .collect();
    let prims = parse_macro_body(&lines).unwrap();
    assert_eq!(prims.len(), 4);
    assert_eq!(prims[0], MacroPrimitive::Comment);
    match &prims[1] {
        MacroPrimitive::Outline { points, rotation, .. } => {
            assert_eq!(points.len(), 9);
            assert_eq!(*rotation, Expr::Literal("15".to_string()));
        }
        other => panic!("expected an outline, got {other:?}"),
    }
    assert!(matches!(prims[2], MacroPrimitive::VectorLine { .. }));
    match &prims[3] {
        MacroPrimitive::Circle { rotation, .. } => assert_eq!(*rotation, Some(Expr::Literal("45".to_string()))),
        other => panic!("expected a circle, got {other:?}"),
    }
}

#[test]
fn macro_body_errors() {
    let err = |line: &str| match parse_macro_body(&[line.to_string()]) {
        Err(ExtractError::ParseError(m)) => m,
        other => panic!("expected an error, got {other:?}"),
    };
    assert_eq!(err("x,1"), "AM: bad primitive code: x");
    assert_eq!(err("1,1,2,3"), "AM circle: need at least 4 params");
    assert_eq!(err("2,1,2,3,4,5,6"), "AM vector line: need 7 params");
    assert_eq!(err("21,1,2,3,4,5"), "AM center line: need 6 params");
    assert_eq!(err("4,1"), "AM outline: need at least 2 params");
    assert_eq!(err("5,1,2,3,4,5"), "AM polygon: need 6 params");
    assert_eq!(err("7,1,2,3,4,5"), "AM thermal: need 6 params");
    assert_eq!(err("1,1,2,3,4?"), "AM expr: unexpected char '?' in: 4?");
}

#[test]
fn test_define_and_get() {
    let mut table = ApertureTable::default();
    table.define(10, ApertureTemplate::Circle { diameter: "0.5".to_string() });
    let ap = table.get(10).unwrap();
    assert!(
        matches!(&ap.template, ApertureTemplate::Circle { diameter } if (diameter.parse::<f64>().unwrap() - 0.5).abs() < 1e-9)
    );
}

#[test]
fn test_get_missing() {
    let table = ApertureTable::default();
    assert!(table.get(10).is_none());
}

#[test]
fn macro_table_keeps_the_last_definition() {
    let mut table = MacroTable::default();
    assert!(table.get("OC8").is_none());
    let first = ApertureMacro { name: "OC8".to_string(), primitives: vec![MacroPrimitive::Comment] };
    let second = ApertureMacro { name: "OC8".to_string(), primitives: vec![] };
    table.define("OC8".to_string(), first.clone());
    assert_eq!(table.get("OC8").unwrap().primitives.len(), 1);
    table.define("OC8".to_string(), second);
    assert_eq!(table.get("OC8").unwrap().primitives.len(), 0);
    assert!(table.get("OC9").is_none());
}
