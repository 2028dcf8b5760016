use pcb_extract::parsers::gdsii::tile::WorldBox;
use pcb_extract::parsers::gerber::layers::{GerberLayerType, LayerFunction, LayerSide};
use pcb_extract::parsers::gerber::project::{
    board_bbox, destination, edges_bbox, route_layers, zip_board_layers, Destination, GerberLayer, GerberProject, ParsedSource,
};
use pcb_extract::parsers::gerber::FileError;

fn bx(minx: i64, miny: i64, maxx: i64, maxy: i64) -> Option<WorldBox> {
    Some(WorldBox { minx, miny, maxx, maxy })
}

fn layer(name: &str, t: GerberLayerType, bbox: Option<WorldBox>) -> GerberLayer<&'static str> {
    GerberLayer::new(name, t, "geometry", 1, 0, bbox)
}

fn source(layers: Vec<GerberLayer<&'static str>>) -> ParsedSource<&'static str> {
    let mut p = ParsedSource::new();
    for l in layers {
        let name = l.name.clone();
        p.add_file(&name, Ok(l));
    }
    p
}

#[test]
fn new_layer_takes_function_side_and_inner_name_from_its_type() {
    let l = layer("board-In2_Cu.gbr", GerberLayerType::CopperInner("In2".to_string()), None);
    assert_eq!(l.function, LayerFunction::Copper);
    assert_eq!(l.side, Some(LayerSide::Inner));
    assert_eq!(l.inner.as_deref(), Some("In2"));
    let o = layer("board.GKO", GerberLayerType::BoardOutline, None);
    assert_eq!(o.function, LayerFunction::Outline);
    assert_eq!(o.side, None);
    assert_eq!(o.inner, None);
}

#[test]
fn project_layers_are_stacked_back_to_front() {
    let mut project = GerberProject::new();
    project.add_source(source(vec![
        layer("board.GKO", GerberLayerType::BoardOutline, None),
        layer("board.GTO", GerberLayerType::SilkscreenTop, None),
        layer("board.GTL", GerberLayerType::CopperTop, None),
        layer("board.GBL", GerberLayerType::CopperBottom, None),
    ]));
    project.add_source(source(vec![
        layer("a.drl", GerberLayerType::Drills, None),
        layer("second.GTL", GerberLayerType::CopperTop, None),
        layer("board.GBP", GerberLayerType::SolderPasteBottom, None),
    ]));
    let names: Vec<&str> = project.layers.iter().map(|l| l.name.as_str()).collect();
    assert_eq!(names, ["board.GBP", "board.GBL", "board.GTL", "second.GTL", "board.GTO", "a.drl", "board.GKO"]);
}

#[test]
fn project_collects_diagnostics_of_every_source() {
    let mut project: GerberProject<()> = GerberProject::new();
    let mut a = ParsedSource::new();
    a.warn("x.gbr", "broken");
    a.skip("README.txt", "not a Gerber or Excellon file");
    let mut b = ParsedSource::new();
    b.warn("y.gbr", "also broken");
    project.add_source(a);
    project.add_source(b);
    assert_eq!(project.warnings, ["x.gbr: broken", "y.gbr: also broken"]);
    assert_eq!(project.skipped, ["README.txt: not a Gerber or Excellon file"]);
    assert!(project.layers.is_empty());
    assert_eq!(project.bbox, None);
}

#[test]
fn bbox_prefers_outline_then_copper_then_everything() {
    let outline = layer("board.GKO", GerberLayerType::BoardOutline, bx(0, 0, 50, 30));
    let copper = layer("board.GTL", GerberLayerType::CopperTop, bx(5, 5, 20, 20));
    let copper2 = layer("board.GBL", GerberLayerType::CopperBottom, bx(-3, 2, 10, 40));
    let fab = layer("fab.gbr", GerberLayerType::Other, bx(-100, -100, 300, 300));

    let mut with_outline = GerberProject::new();
    with_outline.add_source(source(vec![fab.clone(), copper.clone(), outline]));
    assert_eq!(with_outline.bbox, bx(0, 0, 50, 30));

    let mut copper_only = GerberProject::new();
    copper_only.add_source(source(vec![fab.clone(), copper.clone(), copper2]));
    assert_eq!(copper_only.bbox, bx(-3, 2, 20, 40));

    let mut documentation = GerberProject::new();
    documentation.add_source(source(vec![fab.clone(), layer("silk.GTO", GerberLayerType::SilkscreenTop, bx(1, 1, 2, 2))]));
    assert_eq!(documentation.bbox, bx(-100, -100, 300, 300));

    let empty: Vec<GerberLayer<()>> = Vec::new();
    assert_eq!(board_bbox(&empty), None);
}

#[test]
fn layers_without_bounds_do_not_count() {
    let layers = vec![
        layer("board.GKO", GerberLayerType::BoardOutline, None),
        layer("board.GTL", GerberLayerType::CopperTop, bx(1, 2, 3, 4)),
    ];
    assert_eq!(board_bbox(&layers), bx(1, 2, 3, 4));
}

#[test]
fn zip_keeps_known_or_drawn_layers_in_order() {
    let blank = GerberLayer::new("notes.gbr", GerberLayerType::Unknown, "geometry", 0, 0, None);
    let drawn = GerberLayer::new("art.gbr", GerberLayerType::Unknown, "geometry", 2, 0, None);
    let files = vec![
        Err(FileError::NotFabricationData("not a text file")),
        Ok(layer("board.GBL", GerberLayerType::CopperBottom, None)),
        Ok(blank),
        Ok(drawn),
        Ok(layer("board.GTL", GerberLayerType::CopperTop, None)),
    ];
    let kept = zip_board_layers(files).ok().unwrap();
    let names: Vec<&str> = kept.iter().map(|l| l.name.as_str()).collect();
    assert_eq!(names, vec!["board.GBL", "art.gbr", "board.GTL"]);
}

#[test]
fn zip_without_fabrication_files_is_an_error() {
    let files: Vec<Result<GerberLayer<&'static str>, FileError>> =
        vec![Err(FileError::NotFabricationData("not a text file"))];
    let err = zip_board_layers(files).err().unwrap();
    assert_eq!(err.message(), "parse error: No Gerber files found in zip");
    let none: Vec<Result<GerberLayer<&'static str>, FileError>> = Vec::new();
    assert!(zip_board_layers(none).is_err());
}

#[test]
fn layers_are_routed_by_type() {
    let layers = vec![
        layer("a.GKO", GerberLayerType::BoardOutline, None),
        layer("a.GTO", GerberLayerType::SilkscreenTop, None),
        layer("a.GBO", GerberLayerType::SilkscreenBottom, None),
        layer("a.DRL", GerberLayerType::Drills, None),
        layer("a.GTL", GerberLayerType::CopperTop, None),
        layer("a.GBL", GerberLayerType::CopperBottom, None),
        layer("a.G2", GerberLayerType::CopperInner("In2".to_string()), None),
        layer("a.GTS", GerberLayerType::SolderMaskTop, None),
        layer("b.GKO", GerberLayerType::BoardOutline, None),
    ];
    let b = route_layers(layers.clone(), true);
    assert_eq!(b.edges.len(), 2);
    assert_eq!((b.silkscreen_front.len(), b.silkscreen_back.len(), b.drills.len()), (1, 1, 1));
    assert_eq!((b.copper_front.len(), b.copper_back.len()), (1, 1));
    assert_eq!(b.copper_inner.len(), 1);
    assert_eq!(b.copper_inner[0].0, "In2");
    let no_tracks = route_layers(layers, false);
    assert!(no_tracks.copper_front.is_empty() && no_tracks.copper_back.is_empty() && no_tracks.copper_inner.is_empty());
    assert_eq!(no_tracks.edges.len(), 2);
    assert_eq!(destination(&GerberLayerType::SolderPasteTop, true), Destination::Dropped);
    assert_eq!(destination(&GerberLayerType::CopperTop, false), Destination::Dropped);
    assert_eq!(destination(&GerberLayerType::CopperTop, true), Destination::CopperFront);
}

#[test]
fn assembled_bounds_prefer_outline_then_silkscreen() {
    let with_outline = vec![
        layer("a.GTO", GerberLayerType::SilkscreenTop, bx(0, 0, 500, 500)),
        layer("a.GKO", GerberLayerType::BoardOutline, bx(10, 10, 20, 20)),
        layer("a.GTL", GerberLayerType::CopperTop, bx(-100, -100, 900, 900)),
    ];
    assert_eq!(edges_bbox(&with_outline), bx(10, 10, 20, 20));
    let silk_only = vec![
        layer("a.GTO", GerberLayerType::SilkscreenTop, bx(0, 0, 5, 5)),
        layer("a.GBO", GerberLayerType::SilkscreenBottom, bx(3, -2, 8, 4)),
        layer("a.GTL", GerberLayerType::CopperTop, bx(-100, -100, 900, 900)),
    ];
    assert_eq!(edges_bbox(&silk_only), bx(0, -2, 8, 5));
    assert_eq!(edges_bbox(&vec![layer("a.GTL", GerberLayerType::CopperTop, bx(0, 0, 1, 1))]), None);
}
