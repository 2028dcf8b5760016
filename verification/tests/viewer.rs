use pcb_extract::gds_view::manifest::{default_tile_px, palette_color};
use pcb_extract::gds_view::state::storage_prefix;
use pcb_extract::gds_view::transform::TileRange;
use pcb_extract::gerber_view::controls::{panel_html, PanelRow};
use pcb_extract::gerber_view::scene::paint_order;
use pcb_extract::gerber_view::sources::name_from_url;
use pcb_extract::gerber_view::style::{layer_label, LayerStyle};
use pcb_extract::parsers::gerber::layers::GerberLayerType;

#[test]
fn rows_are_escaped_and_indexed() {
    let rows = [
        PanelRow {
            label: "Top copper",
            name: "a<b>.gtl",
            color: "red\" onclick=\"x",
            visible: true,
        },
        PanelRow {
            label: "Drills",
            name: "d.drl",
            color: "#000",
            visible: false,
        },
    ];
    let html = panel_html(&rows, false);
    assert!(html.contains("data-gv-layer=\"0\" checked"));
    assert!(html.contains("data-gv-layer=\"1\">"));
    assert!(html.contains("a&lt;b&gt;.gtl"));
    assert!(!html.contains("\" onclick"));
    assert!(html.contains("Bottom view"));
}

#[test]
fn panel_from_bottom_offers_top_view_and_escapes_quotes() {
    let rows = [PanelRow {
        label: "O'Brien & co",
        name: "x",
        color: "#fff",
        visible: true,
    }];
    let html = panel_html(&rows, true);
    assert!(html.contains(">Top view</button>"));
    assert!(html.contains("O&#39;Brien &amp; co</label>"));
    assert!(html.starts_with("<div class=\"gv-toolbar\""));
    assert!(html.ends_with("</label>"));
    let empty = panel_html(&[], false);
    assert!(empty.ends_with("Fit</button></div>"));
}

#[test]
fn bottom_view_reverses_stack_but_keeps_drills_and_outline_on_top() {
    let top = GerberLayerType::CopperTop;
    let bottom = GerberLayerType::CopperBottom;
    assert!(paint_order(&top, false) > paint_order(&bottom, false));
    assert!(paint_order(&top, true) < paint_order(&bottom, true));
    for pinned in [GerberLayerType::Drills, GerberLayerType::BoardOutline] {
        assert!(paint_order(&pinned, true) > paint_order(&bottom, true));
        assert!(paint_order(&pinned, false) > paint_order(&top, false));
    }
}

#[test]
fn paint_order_values() {
    assert_eq!(paint_order(&GerberLayerType::CopperTop, false), 6);
    assert_eq!(paint_order(&GerberLayerType::CopperTop, true), -6);
    assert_eq!(paint_order(&GerberLayerType::BoardOutline, true), 11);
    assert_eq!(paint_order(&GerberLayerType::SolderPasteBottom, true), 0);
}

#[test]
fn names_from_urls() {
    assert_eq!(name_from_url("/fab/board-F_Cu.gbr"), "board-F_Cu.gbr");
    assert_eq!(name_from_url("https://x.test/a/b.GTL?rev=3#top"), "b.GTL");
    assert_eq!(name_from_url("/fab/dir/"), "dir");
}

#[test]
fn names_from_file_api_query() {
    assert_eq!(
        name_from_url("/api/kicad/file?path=fab/board-B_Mask.gbr"),
        "board-B_Mask.gbr"
    );
    assert_eq!(
        name_from_url("/api/kicad/file?repo=x&path=fab%2Fgerbers%2Fboard.GTO"),
        "board.GTO"
    );
    assert_eq!(name_from_url("/get?filename=my+board.gbl"), "my board.gbl");
    assert_eq!(name_from_url("/files/b.drl?token=abc"), "b.drl");
}

#[test]
fn names_from_url_edge_cases() {
    // No segment at all: the whole URL is the name.
    assert_eq!(name_from_url("///"), "///");
    // Backslashes separate segments too.
    assert_eq!(name_from_url("C:\\fab\\b.gbl"), "b.gbl");
    // A bad escape is kept; a `%+a` escape reads as one hex digit.
    assert_eq!(name_from_url("/x?name=a%zzb"), "a%zzb");
    assert_eq!(name_from_url("/x?name=%2bA%41"), "+AA");
    // The first key that names a file wins.
    assert_eq!(name_from_url("/x?file=one.gbr&name=two.gbr"), "one.gbr");
}

#[test]
fn labels() {
    let label = |t: GerberLayerType| layer_label(&t, "fab.zip/gerbers/b.gbr");
    assert_eq!(label(GerberLayerType::CopperTop), "Top copper");
    assert_eq!(
        label(GerberLayerType::SilkscreenBottom),
        "Bottom silkscreen"
    );
    assert_eq!(
        label(GerberLayerType::CopperInner("In3".into())),
        "In3 copper"
    );
    assert_eq!(label(GerberLayerType::BoardOutline), "Board outline");
    assert_eq!(label(GerberLayerType::Unknown), "b.gbr");
    assert_eq!(label(GerberLayerType::Other), "b.gbr");
}

#[test]
fn more_labels() {
    assert_eq!(layer_label(&GerberLayerType::SolderMaskTop, "x"), "Top solder mask");
    assert_eq!(layer_label(&GerberLayerType::SolderPasteBottom, "x"), "Bottom paste");
    assert_eq!(layer_label(&GerberLayerType::Drills, "x"), "Drills");
    assert_eq!(layer_label(&GerberLayerType::Other, "dir\\a.gbr"), "a.gbr");
}

#[test]
fn gds_palette_colors() {
    assert_eq!(palette_color("10_0"), "#8862da");
    assert_eq!(palette_color("__lod"), "#da6e62");
    assert_eq!(palette_color(""), "#b8da62");
    assert_eq!(palette_color("1/0"), "#da627c");
}

#[test]
fn gds_storage_and_defaults() {
    assert_eq!(storage_prefix("abc"), "gds:abc:");
    assert_eq!(default_tile_px(), 512);
    let r = TileRange { x0: 0, y0: 1, x1: 2, y1: 3 };
    assert_eq!(r, TileRange { x0: 0, y0: 1, x1: 2, y1: 3 });
}

#[test]
fn inner_layers_get_distinct_colours() {
    let a = LayerStyle::default_for(&GerberLayerType::CopperInner("In1".into()), "#000");
    let b = LayerStyle::default_for(&GerberLayerType::CopperInner("In2".into()), "#000");
    assert_ne!(a.color, b.color);
}

#[test]
fn drills_use_background_and_mask_hidden() {
    let drill = LayerStyle::default_for(&GerberLayerType::Drills, "#abcdef");
    assert_eq!(drill.color, "#abcdef");
    assert!(!LayerStyle::default_for(&GerberLayerType::SolderMaskTop, "#000").visible);
}

#[test]
fn inner_colours_cycle_and_fall_back_to_the_first() {
    let colour = |name: &str| LayerStyle::default_for(&GerberLayerType::CopperInner(name.into()), "#000").color;
    assert_eq!(colour("In1"), "#c678dd");
    assert_eq!(colour("In6"), "#d19a66");
    assert_eq!(colour("In7"), "#c678dd");
    assert_eq!(colour("In0"), "#c678dd");
    assert_eq!(colour("Inner"), "#c678dd");
    assert_eq!(colour("In2x"), "#c678dd");
    assert_eq!(colour("L14"), "#56b6c2");
    assert_eq!(colour("In99999999999999999999999"), "#c678dd");
}

#[test]
fn default_styles_show_copper_and_hide_mask_paste_and_other() {
    let style = |t: GerberLayerType| LayerStyle::default_for(&t, "#123456");
    assert_eq!(style(GerberLayerType::CopperTop).color, "#d8a03c");
    assert!(style(GerberLayerType::CopperTop).visible);
    assert!(style(GerberLayerType::Unknown).visible);
    assert!(!style(GerberLayerType::Other).visible);
    assert!(!style(GerberLayerType::SolderPasteBottom).visible);
    assert_eq!(style(GerberLayerType::BoardOutline).color, "#e8d44d");
}
