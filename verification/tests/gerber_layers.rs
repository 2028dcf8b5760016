use pcb_extract::parsers::gerber::commands::{BoardSide, CopperSide, FileFunction};
use pcb_extract::parsers::gerber::layers::{
    identify_from_filename, identify_from_x2, GerberLayerType, LayerFunction, LayerSide,
};

// --- X2 attribute tests ---

#[test]
fn test_x2_copper_top() {
    let func = FileFunction::Copper {
        layer_num: 1,
        side: CopperSide::Top,
    };
    assert_eq!(identify_from_x2(&func), GerberLayerType::CopperTop);
}

#[test]
fn test_x2_copper_bottom() {
    let func = FileFunction::Copper {
        layer_num: 2,
        side: CopperSide::Bottom,
    };
    assert_eq!(identify_from_x2(&func), GerberLayerType::CopperBottom);
}

#[test]
fn test_x2_copper_inner() {
    let func = FileFunction::Copper {
        layer_num: 3,
        side: CopperSide::Inner,
    };
    // Physical layer 3 is the second inner layer.
    assert_eq!(
        identify_from_x2(&func),
        GerberLayerType::CopperInner("In2".into())
    );
}

#[test]
fn test_x2_other_functions() {
    for f in ["Other", "Glue", "AssemblyDrawing", "Drillmap"] {
        assert_eq!(
            identify_from_x2(&FileFunction::Other(f.into())),
            GerberLayerType::Other,
            "{f}"
        );
    }
    for f in ["Plated", "NonPlated"] {
        assert_eq!(
            identify_from_x2(&FileFunction::Other(f.into())),
            GerberLayerType::Drills
        );
    }
    assert_eq!(
        identify_from_x2(&FileFunction::Other(String::new())),
        GerberLayerType::Unknown
    );
}

#[test]
fn test_kicad_documentation_layers() {
    for name in [
        "board-F_Courtyard.gbr",
        "board-B_Fab.gbr",
        "board-F_Adhes.gbr",
        "board-Margin.gbr",
        "board-User_2.gbr",
        "board-Dwgs_User.gbr",
    ] {
        assert_eq!(
            identify_from_filename(name),
            GerberLayerType::Other,
            "{name}"
        );
    }
}

#[test]
fn test_allegro_artwork_names() {
    let cases = [
        ("l1_top.art", GerberLayerType::CopperTop),
        ("l6_bottom.art", GerberLayerType::CopperBottom),
        ("L2.art", GerberLayerType::CopperInner("In1".into())),
        ("l5.art", GerberLayerType::CopperInner("In4".into())),
        ("masktop.art", GerberLayerType::SolderMaskTop),
        ("maskbot.art", GerberLayerType::SolderMaskBottom),
        ("silkbot2.art", GerberLayerType::SilkscreenBottom),
        ("pastetop.art", GerberLayerType::SolderPasteTop),
        ("fab.art", GerberLayerType::Other),
        ("fabnotes.art", GerberLayerType::Other),
        ("logo.art", GerberLayerType::Unknown),
    ];
    for (name, expected) in cases {
        assert_eq!(identify_from_filename(name), expected, "{name}");
    }
}

#[test]
fn test_x2_legend_top() {
    let func = FileFunction::Legend {
        side: BoardSide::Top,
    };
    assert_eq!(identify_from_x2(&func), GerberLayerType::SilkscreenTop);
}

#[test]
fn test_x2_profile() {
    assert_eq!(
        identify_from_x2(&FileFunction::Profile),
        GerberLayerType::BoardOutline
    );
}

#[test]
fn test_x2_paste() {
    let func = FileFunction::Paste {
        side: BoardSide::Bottom,
    };
    assert_eq!(identify_from_x2(&func), GerberLayerType::SolderPasteBottom);
}

#[test]
fn test_paste_filenames() {
    assert_eq!(
        identify_from_filename("board.GTP"),
        GerberLayerType::SolderPasteTop
    );
    assert_eq!(
        identify_from_filename("board.gbp"),
        GerberLayerType::SolderPasteBottom
    );
    assert_eq!(
        identify_from_filename("board-F_Paste.gbr"),
        GerberLayerType::SolderPasteTop
    );
    assert_eq!(
        identify_from_filename("board-B_Paste.gbr"),
        GerberLayerType::SolderPasteBottom
    );
}

#[test]
fn test_function_and_side() {
    let inner = GerberLayerType::CopperInner("In2".into());
    assert_eq!(inner.function(), LayerFunction::Copper);
    assert_eq!(inner.side(), Some(LayerSide::Inner));
    assert_eq!(inner.inner_name(), Some("In2"));

    let mask = GerberLayerType::SolderMaskBottom;
    assert_eq!(mask.function(), LayerFunction::SolderMask);
    assert_eq!(mask.side(), Some(LayerSide::Bottom));
    assert_eq!(mask.inner_name(), None);

    assert_eq!(GerberLayerType::Drills.side(), None);
    assert!(
        GerberLayerType::CopperTop.stack_order() > GerberLayerType::CopperBottom.stack_order()
    );
    assert!(
        GerberLayerType::BoardOutline.stack_order()
            > GerberLayerType::SilkscreenTop.stack_order()
    );
}

// --- Altium/Protel extension tests ---

#[test]
fn test_altium_extensions() {
    assert_eq!(
        identify_from_filename("board.GTL"),
        GerberLayerType::CopperTop
    );
    assert_eq!(
        identify_from_filename("board.GBL"),
        GerberLayerType::CopperBottom
    );
    assert_eq!(
        identify_from_filename("board.GTO"),
        GerberLayerType::SilkscreenTop
    );
    assert_eq!(
        identify_from_filename("board.GBO"),
        GerberLayerType::SilkscreenBottom
    );
    assert_eq!(
        identify_from_filename("board.GTS"),
        GerberLayerType::SolderMaskTop
    );
    assert_eq!(
        identify_from_filename("board.GBS"),
        GerberLayerType::SolderMaskBottom
    );
    assert_eq!(
        identify_from_filename("board.GKO"),
        GerberLayerType::BoardOutline
    );
}

#[test]
fn test_altium_case_insensitive() {
    assert_eq!(
        identify_from_filename("BOARD.gtl"),
        GerberLayerType::CopperTop
    );
    assert_eq!(
        identify_from_filename("Board.Gbl"),
        GerberLayerType::CopperBottom
    );
}

#[test]
fn test_altium_inner_layers() {
    assert_eq!(
        identify_from_filename("board.G1"),
        GerberLayerType::CopperInner("In1".into())
    );
    assert_eq!(
        identify_from_filename("board.G2"),
        GerberLayerType::CopperInner("In2".into())
    );
}

// --- KiCad naming tests ---

#[test]
fn test_kicad_naming() {
    assert_eq!(
        identify_from_filename("board-F_Cu.gbr"),
        GerberLayerType::CopperTop
    );
    assert_eq!(
        identify_from_filename("board-B_Cu.gbr"),
        GerberLayerType::CopperBottom
    );
    assert_eq!(
        identify_from_filename("board-F_SilkS.gbr"),
        GerberLayerType::SilkscreenTop
    );
    assert_eq!(
        identify_from_filename("board-B_SilkS.gbr"),
        GerberLayerType::SilkscreenBottom
    );
    assert_eq!(
        identify_from_filename("board-Edge_Cuts.gbr"),
        GerberLayerType::BoardOutline
    );
    assert_eq!(
        identify_from_filename("board-F_Mask.gbr"),
        GerberLayerType::SolderMaskTop
    );
}

#[test]
fn test_kicad_inner_copper() {
    assert_eq!(
        identify_from_filename("board-In1_Cu.gbr"),
        GerberLayerType::CopperInner("In1".into())
    );
    assert_eq!(
        identify_from_filename("board-In2_Cu.gbr"),
        GerberLayerType::CopperInner("In2".into())
    );
}

// --- Eagle naming tests ---

#[test]
fn test_eagle_extensions() {
    assert_eq!(
        identify_from_filename("board.cmp"),
        GerberLayerType::CopperTop
    );
    assert_eq!(
        identify_from_filename("board.sol"),
        GerberLayerType::CopperBottom
    );
    assert_eq!(
        identify_from_filename("board.plc"),
        GerberLayerType::SilkscreenTop
    );
}

// --- EasyEDA naming tests ---

#[test]
fn test_easyeda_naming() {
    assert_eq!(
        identify_from_filename("Gerber_TopLayer.GTL"),
        GerberLayerType::CopperTop
    );
    assert_eq!(
        identify_from_filename("Gerber_BottomLayer.GBL"),
        GerberLayerType::CopperBottom
    );
    assert_eq!(
        identify_from_filename("Gerber_TopSilkLayer.GTO"),
        GerberLayerType::SilkscreenTop
    );
}

// --- Generic naming patterns (EAGLE CAM output style) ---

#[test]
fn test_generic_silkscreen_naming() {
    assert_eq!(
        identify_from_filename("silkscreen_top.gbr"),
        GerberLayerType::SilkscreenTop
    );
    assert_eq!(
        identify_from_filename("silkscreen_bottom.gbr"),
        GerberLayerType::SilkscreenBottom
    );
    assert_eq!(
        identify_from_filename("GerberFiles/silkscreen_top.gbr"),
        GerberLayerType::SilkscreenTop
    );
}

#[test]
fn test_generic_soldermask_naming() {
    assert_eq!(
        identify_from_filename("soldermask_top.gbr"),
        GerberLayerType::SolderMaskTop
    );
    assert_eq!(
        identify_from_filename("soldermask_bottom.gbr"),
        GerberLayerType::SolderMaskBottom
    );
}

#[test]
fn test_generic_copper_naming() {
    assert_eq!(
        identify_from_filename("copper_top.gbr"),
        GerberLayerType::CopperTop
    );
    assert_eq!(
        identify_from_filename("copper_bottom.gbr"),
        GerberLayerType::CopperBottom
    );
}

#[test]
fn test_generic_profile_naming() {
    assert_eq!(
        identify_from_filename("profile.gbr"),
        GerberLayerType::BoardOutline
    );
}

// --- Unknown tests ---

#[test]
fn test_unknown_file() {
    assert_eq!(
        identify_from_filename("readme.txt"),
        GerberLayerType::Unknown
    );
    assert_eq!(
        identify_from_filename("drill.drl"),
        GerberLayerType::Unknown
    );
}

// --- Path handling ---

#[test]
fn test_strips_directory_path() {
    assert_eq!(
        identify_from_filename("gerbers/board.GTL"),
        GerberLayerType::CopperTop
    );
    assert_eq!(
        identify_from_filename("output/copper/board-F_Cu.gbr"),
        GerberLayerType::CopperTop
    );
}
