use pcb_extract::error::ExtractError;
use pcb_extract::parsers::altium::{parse_wide_strings, read_altium_document};
use std::io::Write;

fn text_stream(records: &[&str]) -> Vec<u8> {
    let mut out = Vec::new();
    for r in records {
        let mut body = r.as_bytes().to_vec();
        body.push(0);
        out.extend_from_slice(&(body.len() as u32).to_le_bytes());
        out.extend_from_slice(&body);
    }
    out
}

fn wide_stream(entries: &[(u32, &str)]) -> Vec<u8> {
    let mut out = Vec::new();
    out.extend_from_slice(&(entries.len() as u32).to_le_bytes());
    for (id, s) in entries {
        let units: Vec<u16> = s.encode_utf16().collect();
        out.extend_from_slice(&id.to_le_bytes());
        out.extend_from_slice(&(units.len() as u32).to_le_bytes());
        for u in units {
            out.extend_from_slice(&u.to_le_bytes());
        }
    }
    out
}

fn document(streams: &[(&str, Vec<u8>)]) -> Vec<u8> {
    let mut file = cfb::CompoundFile::create(std::io::Cursor::new(Vec::new())).unwrap();
    for (path, data) in streams {
        let parent = std::path::Path::new(path).parent().unwrap();
        if parent != std::path::Path::new("/") {
            let _ = file.create_storage_all(parent);
        }
        let mut s = file.create_stream(path).unwrap();
        s.write_all(data).unwrap();
    }
    file.flush().unwrap();
    file.into_inner().into_inner()
}

#[test]
fn wide_strings_table() {
    let data = wide_stream(&[(7, "µ-Ω"), (9, "ab"), (7, "again")]);
    let m = parse_wide_strings(&data);
    assert_eq!(m.len(), 2);
    assert_eq!(m[&7], "again");
    assert_eq!(m[&9], "ab");
    // A truncated entry ends the table.
    let mut cut = wide_stream(&[(1, "x"), (2, "long string")]);
    cut.truncate(cut.len() - 2);
    let m = parse_wide_strings(&cut);
    assert_eq!(m.len(), 1);
    assert_eq!(m[&1], "x");
    assert!(parse_wide_strings(&[1, 0]).is_empty());
}

#[test]
fn document_streams_are_read() {
    let data = document(&[
        ("/Board6/Data", text_stream(&["|RECORD=Board|KIND=0|VCOUNT=0|", ""])),
        ("/Nets6/Data", text_stream(&["|NAME=GND|", "|NAME=VCC|"])),
        ("/WideStrings6/Data", wide_stream(&[(3, "hello")])),
        ("/Tracks6/Data", vec![1, 2, 3]),
    ]);
    let doc = read_altium_document(&data).unwrap();
    assert_eq!(doc.board_records.len(), 1);
    assert_eq!(doc.net_records.len(), 2);
    assert!(doc.component_records.is_empty());
    assert_eq!(doc.wide_strings[&3], "hello");
    assert_eq!(doc.tracks, Some(vec![1, 2, 3]));
    assert_eq!(doc.pads, None);
}

#[test]
fn non_compound_bytes_are_refused() {
    match read_altium_document(b"definitely not OLE2") {
        Err(ExtractError::ParseError(m)) => assert!(m.starts_with("Not a valid OLE2/CFB file: ")),
        Err(e) => panic!("unexpected {e:?}"),
        Ok(_) => panic!("expected an error"),
    }
}
