use pcb_extract::error::ExtractError;
use pcb_extract::{
    check_not_resource_fork, detect_format, detect_format_with_content, format_from_extension,
    parse_format, zip_holds_odbpp, ExtractOptions, PcbFormat, MAX_DECOMPRESSED_BYTES,
};
use std::io::Write;

#[test]
fn test_detect_format_extensions() {
    assert_eq!(detect_format("board.kicad_pcb"), Some(PcbFormat::KiCad));
    assert_eq!(detect_format("board.zip"), Some(PcbFormat::Gerber));
    assert_eq!(detect_format("board.tgz"), Some(PcbFormat::OdbPlusPlus));
    assert_eq!(detect_format("board.tar.gz"), Some(PcbFormat::OdbPlusPlus));
    assert_eq!(detect_format("board.xyz"), None);
}

#[test]
fn test_detect_tar_gz_double_extension() {
    let path = String::from("my_board.tar.gz");
    assert_eq!(detect_format(&path), Some(PcbFormat::OdbPlusPlus));
}

#[test]
fn test_detect_plain_gz_not_matched() {
    let path = String::from("compressed.gz");
    assert_eq!(detect_format(&path), None);
}

#[test]
fn detect_format_other_extensions_and_case() {
    assert_eq!(detect_format("a/b/board.JSON"), Some(PcbFormat::EasyEda));
    assert_eq!(detect_format("board.brd"), Some(PcbFormat::Eagle));
    assert_eq!(detect_format("board.FBRD"), Some(PcbFormat::Eagle));
    assert_eq!(detect_format("board.PcbDoc"), Some(PcbFormat::Altium));
    assert_eq!(detect_format("no_extension"), None);
    assert_eq!(detect_format(".hidden"), None);
}

#[test]
fn format_from_extension_table() {
    assert_eq!(format_from_extension(Some("gz"), "x.tar"), Some(PcbFormat::OdbPlusPlus));
    assert_eq!(format_from_extension(Some("gz"), "x.tarball"), None);
    assert_eq!(format_from_extension(Some("kicad_pcb"), ""), Some(PcbFormat::KiCad));
    assert_eq!(format_from_extension(None, "x.tar"), None);
}

fn zip_with(names: &[&str]) -> Vec<u8> {
    let mut w = zip::ZipWriter::new(std::io::Cursor::new(Vec::new()));
    for n in names {
        w.start_file(*n, zip::write::SimpleFileOptions::default()).unwrap();
        w.write_all(b"x").unwrap();
    }
    w.finish().unwrap().into_inner()
}

#[test]
fn zip_with_matrix_is_odbpp() {
    let data = zip_with(&["job/matrix/matrix", "job/steps/pcb/profile"]);
    assert_eq!(
        detect_format_with_content("board.zip", &data),
        Some(PcbFormat::OdbPlusPlus)
    );
    let root = zip_with(&["matrix/matrix"]);
    assert_eq!(
        detect_format_with_content("board.ZIP", &root),
        Some(PcbFormat::OdbPlusPlus)
    );
}

#[test]
fn zip_without_matrix_is_gerber() {
    let data = zip_with(&["board-F_Cu.gbr", "board.drl", "notmatrix/matrixx"]);
    assert_eq!(
        detect_format_with_content("board.zip", &data),
        Some(PcbFormat::Gerber)
    );
    assert_eq!(
        detect_format_with_content("board.zip", b"not a zip"),
        Some(PcbFormat::Gerber)
    );
}

#[test]
fn content_detection_falls_back_to_name() {
    assert_eq!(
        detect_format_with_content("x.kicad_pcb", b""),
        Some(PcbFormat::KiCad)
    );
    assert_eq!(
        detect_format_with_content("x.tar.gz", b""),
        Some(PcbFormat::OdbPlusPlus)
    );
    assert_eq!(detect_format_with_content("x.gz", b""), None);
}

#[test]
fn zip_listing_check() {
    let names = vec![None, Some("a/matrix/matrix".to_string())];
    assert!(zip_holds_odbpp(&names));
    let names = vec![Some("matrix".to_string()), Some("matrix/matrix2".to_string())];
    assert!(!zip_holds_odbpp(&names));
}

#[test]
fn resource_fork_is_refused() {
    let mut data = vec![0x00, 0x05, 0x16, 0x07];
    data.extend_from_slice(b"Mac OS X        ");
    assert_eq!(
        check_not_resource_fork(&data),
        Err(ExtractError::MacosResourceFork)
    );
    assert_eq!(check_not_resource_fork(b"(kicad_pcb)"), Ok(()));
    assert_eq!(check_not_resource_fork(&[0x00, 0x05, 0x16]), Ok(()));
}

#[test]
fn format_names_from_command_line() {
    assert_eq!(parse_format("KiCad"), Ok(PcbFormat::KiCad));
    assert_eq!(parse_format("easyeda"), Ok(PcbFormat::EasyEda));
    assert_eq!(parse_format("EAGLE"), Ok(PcbFormat::Eagle));
    assert_eq!(parse_format("altium"), Ok(PcbFormat::Altium));
    assert_eq!(parse_format("Gerber"), Ok(PcbFormat::Gerber));
    assert_eq!(
        parse_format("odb"),
        Err("Unknown format: odb. Use: kicad, easyeda, eagle, altium, gerber".to_string())
    );
}

#[test]
fn options_and_limit() {
    let o = ExtractOptions::default();
    assert!(!o.include_tracks && !o.include_nets);
    assert_eq!(MAX_DECOMPRESSED_BYTES, 524_288_000);
}

#[test]
fn test_reject_macos_resource_fork() {
    let mut data = vec![0x00, 0x05, 0x16, 0x07];
    data.extend_from_slice(b"Mac OS X        ");

    let result = check_not_resource_fork(&data);

    assert!(result.is_err());
    let err = result.unwrap_err();
    assert!(
        matches!(err, pcb_extract::error::ExtractError::MacosResourceFork),
        "expected MacosResourceFork error, got: {}",
        err.message()
    );
    assert!(err.message().contains("macOS resource fork"), "error message should mention macOS resource fork");
}
