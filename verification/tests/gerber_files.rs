use pcb_extract::error::ExtractError;
use pcb_extract::parsers::gerber::commands::{
    parse_board_side, parse_file_function, parse_sr_uint, BoardSide, CopperSide, FileFunction,
};
use pcb_extract::parsers::gerber::layers::GerberLayerType;
use pcb_extract::parsers::gerber::{
    declares_coordinate_format, detect_layer_type, diagnostic, entry_source_name, file_text,
    is_zip_archive, read_fabrication_file, read_zip_entries, source_files, stack_position,
    FabricationFile, FileError, MAX_REASON_CHARS,
};
use pcb_extract::parsers::gerber::layers::LayerFunction;
use pcb_extract::parsers::gerber::project::{GerberLayer, ParsedSource};
use std::io::Write;

fn zip_with(files: &[(&str, &[u8])]) -> Vec<u8> {
    let mut w = zip::ZipWriter::new(std::io::Cursor::new(Vec::new()));
    let options = zip::write::SimpleFileOptions::default()
        .compression_method(zip::CompressionMethod::Stored);
    for (n, content) in files {
        w.start_file(*n, options).unwrap();
        w.write_all(content).unwrap();
    }
    w.finish().unwrap().into_inner()
}

#[test]
fn file_function_defaults_and_others() {
    assert_eq!(
        parse_file_function("TF.FileFunction,Copper,L3"),
        FileFunction::Copper { layer_num: 3, side: CopperSide::Inner }
    );
    assert_eq!(
        parse_file_function("TF.FileFunction,Copper,Lx,Bottom"),
        FileFunction::Copper { layer_num: 1, side: CopperSide::Bottom }
    );
    assert_eq!(
        parse_file_function("TF.FileFunction,Copper,L2,Inr"),
        FileFunction::Copper { layer_num: 2, side: CopperSide::Inner }
    );
    assert_eq!(
        parse_file_function("TF.FileFunction,Soldermask,Top"),
        FileFunction::SolderMask { side: BoardSide::Top }
    );
    assert_eq!(
        parse_file_function("TF.FileFunction,Paste,Bottom"),
        FileFunction::Paste { side: BoardSide::Bottom }
    );
    assert_eq!(
        parse_file_function("TF.FileFunction,Plated,1,2,PTH"),
        FileFunction::Other("Plated".to_string())
    );
    assert_eq!(parse_file_function("TF.Part,Single"), FileFunction::Other(String::new()));
    let bot: Vec<char> = "Bot".chars().collect();
    assert_eq!(parse_board_side(Some(&bot)), BoardSide::Bottom);
    assert_eq!(parse_board_side(None), BoardSide::Top);
}

#[test]
fn step_repeat_counts() {
    assert_eq!(parse_sr_uint("X3Y2I5.0J10.0", 'X'), Some(3));
    assert_eq!(parse_sr_uint("X3Y2I5.0J10.0", 'Y'), Some(2));
    assert_eq!(parse_sr_uint("X3Y2I5.0J10.0", 'I'), None);
    assert_eq!(parse_sr_uint("Y7", 'X'), None);
}

#[test]
fn x2_attribute_wins_over_file_name() {
    let funcs = vec![
        FileFunction::Other(String::new()),
        FileFunction::Legend { side: BoardSide::Top },
        FileFunction::Profile,
    ];
    assert_eq!(detect_layer_type("board.gbl", &funcs), GerberLayerType::SilkscreenTop);
    assert_eq!(detect_layer_type("fab/board.GBL", &[]), GerberLayerType::CopperBottom);
    assert_eq!(
        detect_layer_type("board.gbl", &[FileFunction::Other(String::new())]),
        GerberLayerType::CopperBottom
    );
}

#[test]
fn stack_positions_keep_order() {
    let orders = [0u8, 3, 3, 6, 11];
    assert_eq!(stack_position(&orders, 3), 3);
    assert_eq!(stack_position(&orders, 0), 1);
    assert_eq!(stack_position(&orders, 12), 5);
    assert_eq!(stack_position(&[], 4), 0);
    let mut v = orders.to_vec();
    let pos = stack_position(&v, 5);
    v.insert(pos, 5);
    assert_eq!(v, vec![0, 3, 3, 5, 6, 11]);
}

#[test]
fn diagnostics_are_truncated() {
    assert_eq!(diagnostic("a.gbr", "no geometry"), "a.gbr: no geometry");
    let long: String = std::iter::repeat('x').take(200).collect();
    let d = diagnostic("a.gbr", &long);
    assert_eq!(d.chars().count(), "a.gbr: ".len() + MAX_REASON_CHARS + 1);
    assert!(d.ends_with('…'));
    let exact: String = std::iter::repeat('y').take(160).collect();
    assert_eq!(diagnostic("n", &exact), format!("n: {exact}"));
}

#[test]
fn test_parse_file_rejects_binary() {
    assert!(file_text(&[0x89, 0x50, 0xff, 0xfe]).is_err());
}

#[test]
fn file_classification() {
    assert_eq!(
        file_text(&[0xff]),
        Err(FileError::NotFabricationData("not a text file"))
    );
    assert_eq!(file_text(b"G04*"), Ok("G04*"));
    assert!(declares_coordinate_format("%FSLAX24Y24*%"));
    assert!(declares_coordinate_format("x%FSTIX25Y25*%"));
    assert!(!declares_coordinate_format("M48\nMETRIC"));
    assert!(is_zip_archive(b"PK\x03\x04rest"));
    assert!(!is_zip_archive(b"PK\x03"));
    assert_eq!(entry_source_name("fab.zip", "gerbers/a.gtl"), "fab.zip/gerbers/a.gtl");
    assert_eq!(
        FileError::NotFabricationData("no geometry").message(),
        "no geometry"
    );
    assert_eq!(
        FileError::Invalid(ExtractError::ParseError("bad".to_string())).message(),
        "parse error: bad"
    );
}

#[test]
fn zip_entries_are_read_within_limit() {
    let data = zip_with(&[("a.gtl", b"12345"), ("dir/b.gbl", b"678")]);
    let entries = read_zip_entries(&data, 100).unwrap();
    assert_eq!(entries.len(), 2);
    assert_eq!(entries[0], ("a.gtl".to_string(), b"12345".to_vec()));
    assert_eq!(entries[1], ("dir/b.gbl".to_string(), b"678".to_vec()));
    // Exactly at the limit is fine; one byte over is a bomb.
    assert!(read_zip_entries(&data, 8).is_ok());
    assert_eq!(read_zip_entries(&data, 7), Err(ExtractError::DecompressionBomb));
    assert_eq!(read_zip_entries(&data, 3), Err(ExtractError::DecompressionBomb));
}

#[test]
fn zip_read_errors_are_reported() {
    match read_zip_entries(b"not a zip at all", 100) {
        Err(ExtractError::Zip(m)) => assert!(!m.is_empty()),
        other => panic!("unexpected {other:?}"),
    }
}

const COPPER_TOP_GERBER: &str = "\
%FSLAX24Y24*%
%MOMM*%
%TF.FileFunction,Copper,L1,Top*%
%ADD10C,0.200*%
G01*
D10*
X10000Y10000D02*
X40000Y10000D01*
M02*
";

const OUTLINE_GERBER: &str = "\
%FSLAX24Y24*%
%MOMM*%
%ADD10C,0.050*%
G01*
D10*
X0Y0D02*
X500000Y0D01*
X500000Y300000D01*
X0Y300000D01*
X0Y0D01*
M02*
";

fn layer_type_of(name: &str, data: &[u8]) -> GerberLayerType {
    match read_fabrication_file(name, data) {
        Ok(FabricationFile::Gerber { layer_type, .. }) => layer_type,
        other => panic!("expected Gerber data, got {other:?}"),
    }
}

#[test]
fn test_parse_file_reads_excellon() {
    let drill = "M48\nMETRIC\nT1C0.8\n%\nT1\nX10.0Y10.0\nM30\n";
    match read_fabrication_file("board.drl", drill.as_bytes()).expect("drill parses") {
        FabricationFile::Drill { hits } => {
            assert_eq!(GerberLayerType::Drills.function(), LayerFunction::Drill);
            assert_eq!(hits.len(), 1);
        }
        other => panic!("expected a drill file, got {other:?}"),
    }
}

#[test]
fn test_x2_overrides_filename() {
    // Named .GBL (bottom copper) but the X2 attribute says top copper.
    assert_eq!(layer_type_of("board.GBL", COPPER_TOP_GERBER.as_bytes()), GerberLayerType::CopperTop);
    assert_eq!(layer_type_of("board.GBL", OUTLINE_GERBER.as_bytes()), GerberLayerType::CopperBottom);
}

#[test]
fn test_diagnostic_truncates_long_reasons() {
    let long = "x".repeat(500);
    let d = diagnostic("f.gbr", &long);
    assert_eq!(d.chars().count(), "f.gbr: ".len() + MAX_REASON_CHARS + 1);
    assert!(d.ends_with('…'));
}

#[test]
fn test_decompression_bomb_rejected() {
    let content = "X".repeat(2048);
    let data = zip_with(&[("bomb.gtl", content.as_bytes())]);
    assert_eq!(read_zip_entries(&data, 1024), Err(ExtractError::DecompressionBomb));
    assert!(read_zip_entries(&data, 1024 * 1024).is_ok());
}

#[test]
fn test_project_expands_zip_sources() {
    let data = zip_with(&[
        ("gerbers/board.GTL", COPPER_TOP_GERBER.as_bytes()),
        ("gerbers/board.GKO", OUTLINE_GERBER.as_bytes()),
    ]);
    let (files, warning) = source_files("fab.zip", &data);
    let names: Vec<&str> = files.iter().map(|(n, _)| n.as_str()).collect();
    assert_eq!(names, ["fab.zip/gerbers/board.GTL", "fab.zip/gerbers/board.GKO"]);
    assert_eq!(files[0].1, COPPER_TOP_GERBER.as_bytes());
    assert!(warning.is_none());
}

#[test]
fn loose_files_are_their_own_source() {
    let (files, warning) = source_files("board.GTL", b"G04 x*");
    assert_eq!(files, vec![("board.GTL".to_string(), b"G04 x*".to_vec())]);
    assert!(warning.is_none());
    let (files, warning) = source_files("bad.zip", b"PK\x03\x04 broken");
    assert!(files.is_empty());
    let w = warning.expect("warning for an unreadable archive");
    assert!(w.starts_with("bad.zip: ZIP error: "), "{w}");
}

#[test]
fn gerber_text_errors() {
    assert_eq!(
        read_fabrication_file("a.gbr", b"%FSLAX24Y24%").unwrap_err(),
        FileError::Invalid(ExtractError::ParseError("Not a Gerber file (no * terminator)".to_string()))
    );
    assert_eq!(
        read_fabrication_file("a.gbr", b"G04 FSLA comment*").unwrap_err(),
        FileError::Invalid(ExtractError::ParseError("Empty Gerber file".to_string()))
    );
    match read_fabrication_file("a.gbr", b"%FSLAX24Y24*%\nD10*") {
        Ok(FabricationFile::Gerber { layer_type, tokens }) => {
            assert_eq!(layer_type, GerberLayerType::Unknown);
            assert_eq!(tokens.len(), 2);
        }
        other => panic!("unexpected {other:?}"),
    }
}

#[test]
fn unusable_files_are_skipped_or_warned() {
    let empty_drill = "M48\nMETRIC\n%\nM30\n";
    let mut parsed: ParsedSource<()> = ParsedSource::new();
    let files: [(&str, &[u8]); 3] = [
        ("board-NPTH.drl", empty_drill.as_bytes()),
        ("notes.pdf", &[0x25, 0x50, 0x44, 0x46, 0xff]),
        ("README.txt", b"fabricate me please"),
    ];
    for (name, data) in files {
        let outcome = read_fabrication_file(name, data)
            .map(|_| GerberLayer::new(name, GerberLayerType::Drills, (), 1, 0, None));
        parsed.add_file(name, outcome);
    }
    assert!(parsed.layers.is_empty());
    assert!(parsed.warnings.is_empty());
    assert_eq!(
        parsed.skipped,
        [
            "board-NPTH.drl: Excellon drill file with no drill hits",
            "notes.pdf: not a text file",
            "README.txt: not a Gerber or Excellon file",
        ]
    );
}

#[test]
fn layer_outcomes_decide_severity() {
    let mut parsed: ParsedSource<u32> = ParsedSource::new();
    let empty = GerberLayer::new("board-B_Paste.gbr", GerberLayerType::SolderPasteBottom, 1, 0, 0, None);
    parsed.add_file("board-B_Paste.gbr", Ok(empty));
    let unknown = GerberLayer::new("mystery.gbr", GerberLayerType::Unknown, 2, 3, 0, None);
    parsed.add_file("mystery.gbr", Ok(unknown));
    let clear_only = GerberLayer::new("board.GTL", GerberLayerType::CopperTop, 3, 0, 1, None);
    parsed.add_file("board.GTL", Ok(clear_only));
    let broken = Err(FileError::Invalid(ExtractError::ParseError("bad aperture".to_string())));
    parsed.add_file("board-F_Cu.gbr", broken);
    assert_eq!(parsed.skipped, ["board-B_Paste.gbr: no geometry"]);
    assert_eq!(
        parsed.warnings,
        [
            "mystery.gbr: could not identify layer function",
            "board-F_Cu.gbr: parse error: bad aperture",
        ]
    );
    let kept: Vec<u32> = parsed.layers.iter().map(|l| l.geometry).collect();
    assert_eq!(kept, [2, 3]);
}
