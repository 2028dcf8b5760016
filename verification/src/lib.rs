//! Verified core of a PCB design-file extractor: format detection, Gerber
//! tokenizing and layer identification, binary record decoding for Altium,
//! Eagle and GDSII files, bill-of-materials grouping, and the pure logic of the
//! board viewers.
use vstd::prelude::*;

pub mod bom;
pub mod bytes;
pub mod error;
pub mod gds_view;
pub mod gerber_view;
pub mod parsers;
pub mod text;
pub mod types;

use crate::error::ExtractError;
use crate::text::{chars_of, ends_with, eq_str, lowercase, to_lowercase};

verus! {

/// Maximum total decompressed size for archive contents (500 MB).
/// Archives that expand beyond it are rejected rather than read into memory.
pub const MAX_DECOMPRESSED_BYTES: u64 = 500 * 1024 * 1024;

/// The design-file formats the extractor reads.
#[derive(Debug, Clone, Copy, PartialEq, Eq, Structural)]
pub enum PcbFormat {
    KiCad,
    EasyEda,
    Eagle,
    Altium,
    Gerber,
    Gdsii,
    OdbPlusPlus,
}

/// What the parsers include besides footprints and board outline.
#[derive(Debug, Clone, Copy, PartialEq, Eq, Structural)]
pub struct ExtractOptions {
    pub include_tracks: bool,
    pub include_nets: bool,
}

impl Default for ExtractOptions {
    fn default() -> (res: Self)
        ensures
            !res.include_tracks,
            !res.include_nets,
    {
        ExtractOptions { include_tracks: false, include_nets: false }
    }
}

// ───────────────────────────── path names ─────────────────────────────

/// The extension of a path, as `Path::extension` finds it, when it is UTF-8.
pub uninterp spec fn path_extension(path: Seq<char>) -> Option<Seq<char>>;

/// The file stem of a path, as `Path::file_stem` finds it, when it is UTF-8.
pub uninterp spec fn path_file_stem(path: Seq<char>) -> Option<Seq<char>>;

/// The characters of an optional string slice.
pub open spec fn opt_str_view(o: Option<&str>) -> Option<Seq<char>> {
    match o {
        Some(s) => Some(s@),
        None => None,
    }
}

/// Calls `Path::extension` and `OsStr::to_str`. The result is named
/// [`path_extension`], a function of the path's characters; how the path is
/// split into components is not written out.
#[verifier::external_body]
fn extension_of<'a>(path: &'a str) -> (res: Option<&'a str>)
    ensures
        opt_str_view(res) == path_extension(path@),
{
    std::path::Path::new(path).extension().and_then(|e| e.to_str())
}

/// Calls `Path::file_stem` and `OsStr::to_str`. The result is named
/// [`path_file_stem`], a function of the path's characters; how the path is
/// split into components is not written out.
#[verifier::external_body]
fn file_stem_of<'a>(path: &'a str) -> (res: Option<&'a str>)
    ensures
        opt_str_view(res) == path_file_stem(path@),
{
    std::path::Path::new(path).file_stem().and_then(|e| e.to_str())
}

/// The lower-cased extension of a path.
pub open spec fn lower_extension(path: Seq<char>) -> Option<Seq<char>> {
    match path_extension(path) {
        Some(e) => Some(lowercase(e)),
        None => None,
    }
}

/// The file stem of a path, or the empty string when it has none.
pub open spec fn stem_or_empty(path: Seq<char>) -> Seq<char> {
    match path_file_stem(path) {
        Some(s) => s,
        None => Seq::empty(),
    }
}

// ───────────────────────────── format rules ─────────────────────────────

/// The format a lower-cased extension names. A `.gz` file is ODB++ only when
/// its stem ends in `.tar` (a `.tar.gz` archive).
pub open spec fn format_for(ext: Option<Seq<char>>, stem: Seq<char>) -> Option<PcbFormat> {
    match ext {
        Some(e) => {
            if e == "kicad_pcb"@ {
                Some(PcbFormat::KiCad)
            } else if e == "json"@ {
                Some(PcbFormat::EasyEda)
            } else if e == "brd"@ || e == "fbrd"@ {
                Some(PcbFormat::Eagle)
            } else if e == "pcbdoc"@ {
                Some(PcbFormat::Altium)
            } else if e == "tgz"@ {
                Some(PcbFormat::OdbPlusPlus)
            } else if e == "zip"@ {
                Some(PcbFormat::Gerber)
            } else if e == "gz"@ {
                if ends_with(stem, ".tar"@) {
                    Some(PcbFormat::OdbPlusPlus)
                } else {
                    None
                }
            } else {
                None
            }
        },
        None => None,
    }
}

/// The format that [`detect_format`] reports for a path.
pub open spec fn path_format(path: Seq<char>) -> Option<PcbFormat> {
    format_for(lower_extension(path), stem_or_empty(path))
}

/// The format named by a lower-cased extension and a file stem.
pub fn format_from_extension(ext: Option<&str>, stem: &str) -> (res: Option<PcbFormat>)
    ensures
        res == format_for(opt_str_view(ext), stem@),
{
    let e = match ext {
        Some(e) => chars_of(e),
        None => return None,
    };
    if eq_str(&e, "kicad_pcb") {
        Some(PcbFormat::KiCad)
    } else if eq_str(&e, "json") {
        Some(PcbFormat::EasyEda)
    } else if eq_str(&e, "brd") || eq_str(&e, "fbrd") {
        Some(PcbFormat::Eagle)
    } else if eq_str(&e, "pcbdoc") {
        Some(PcbFormat::Altium)
    } else if eq_str(&e, "tgz") {
        Some(PcbFormat::OdbPlusPlus)
    } else if eq_str(&e, "zip") {
        Some(PcbFormat::Gerber)
    } else if eq_str(&e, "gz") {
        let s = chars_of(stem);
        if crate::text::ends_with_str(&s, ".tar") {
            Some(PcbFormat::OdbPlusPlus)
        } else {
            None
        }
    } else {
        None
    }
}

/// The lower-cased extension of `path`, and its file stem when the extension
/// is `gz` (the empty string otherwise).
fn extension_and_stem(path: &str) -> (res: (Option<String>, String))
    ensures
        opt_string_view(res.0) == lower_extension(path@),
        format_for(lower_extension(path@), res.1@) == path_format(path@),
{
    let ext = match extension_of(path) {
        Some(e) => Some(to_lowercase(e)),
        None => None,
    };
    let stem = match &ext {
        Some(e) => {
            let ec = chars_of(e.as_str());
            if eq_str(&ec, "gz") {
                match file_stem_of(path) {
                    Some(s) => crate::text::to_string(s),
                    None => String::new(),
                }
            } else {
                String::new()
            }
        },
        None => String::new(),
    };
    (ext, stem)
}

/// The characters of an optional owned string.
pub open spec fn opt_string_view(o: Option<String>) -> Option<Seq<char>> {
    match o {
        Some(s) => Some(s@),
        None => None,
    }
}

/// Borrows the string inside an optional owned string.
fn as_opt_str(o: &Option<String>) -> (res: Option<&str>)
    ensures
        opt_str_view(res) == opt_string_view(*o),
{
    match o {
        Some(s) => Some(s.as_str()),
        None => None,
    }
}

/// Detects a format from the file extension alone (no content inspection).
pub fn detect_format(path: &str) -> (res: Option<PcbFormat>)
    ensures
        res == path_format(path@),
{
    let (ext, stem) = extension_and_stem(path);
    format_from_extension(as_opt_str(&ext), stem.as_str())
}

// ───────────────────────────── archive contents ─────────────────────────────

/// The entry names of a ZIP archive as the `zip` crate reads them: `None` when
/// the bytes are not a readable archive, and `None` for an entry whose name
/// cannot be decoded.
pub uninterp spec fn zip_entry_names(data: Seq<u8>) -> Option<Seq<Option<Seq<char>>>>;

/// The characters of each optional name.
pub open spec fn names_view(v: Seq<Option<String>>) -> Seq<Option<Seq<char>>> {
    Seq::new(v.len(), |i: int| match v[i] {
        Some(s) => Some(s@),
        None => None,
    })
}

/// Calls `zip::ZipArchive::new` on the bytes and lists `file_names`. The
/// result is named [`zip_entry_names`], a function of the bytes alone; the ZIP
/// directory format is not written out.
#[verifier::external_body]
fn read_zip_entry_names(data: &[u8]) -> (res: Option<Vec<Option<String>>>)
    ensures
        match res {
            Some(v) => zip_entry_names(data@) == Some(names_view(v@)),
            None => zip_entry_names(data@) is None,
        },
{
    match zip::ZipArchive::new(std::io::Cursor::new(data)) {
        Ok(archive) => Some(archive.file_names().map(|n| n.ok().map(|s| s.into_owned())).collect()),
        Err(_) => None,
    }
}

/// Whether an entry name is the ODB++ layer matrix (`matrix/matrix`, at the
/// root or under a job directory).
pub open spec fn is_odbpp_matrix(name: Seq<char>) -> bool {
    ends_with(name, "/matrix/matrix"@) || name == "matrix/matrix"@
}

/// Whether a listed entry is the ODB++ layer matrix.
pub open spec fn entry_is_matrix(o: Option<Seq<char>>) -> bool {
    match o {
        Some(n) => is_odbpp_matrix(n),
        None => false,
    }
}

/// Whether an archive listing holds the ODB++ layer matrix.
pub open spec fn holds_odbpp_matrix(names: Option<Seq<Option<Seq<char>>>>) -> bool {
    &&& names is Some
    &&& exists|i: int| 0 <= i < names->0.len() && entry_is_matrix(#[trigger] names->0[i])
}

/// A listing with the layer matrix at index `k` holds the layer matrix.
proof fn lemma_matrix_entry_found(ns: Seq<Option<Seq<char>>>, k: int)
    requires
        0 <= k < ns.len(),
        entry_is_matrix(ns[k]),
    ensures
        holds_odbpp_matrix(Some(ns)),
{
    assert(Some(ns)->0 == ns);
}

/// Whether the entry names of a readable ZIP archive (as
/// [`zip_entry_names`] lists them) include the ODB++ layer matrix.
pub fn zip_holds_odbpp(names: &[Option<String>]) -> (res: bool)
    ensures
        res == holds_odbpp_matrix(Some(names_view(names@))),
{
    let ghost ns = names_view(names@);
    let mut i: usize = 0;
    while i < names.len()
        invariant
            i <= names.len(),
            ns == names_view(names@),
            forall|j: int| 0 <= j < i ==> !entry_is_matrix(#[trigger] ns[j]),
        decreases names.len() - i,
    {
        if let Some(n) = &names[i] {
            let cs = chars_of(n.as_str());
            if crate::text::ends_with_str(&cs, "/matrix/matrix") || eq_str(&cs, "matrix/matrix") {
                assert(ns[i as int] == Some(n@));
                proof {
                    lemma_matrix_entry_found(ns, i as int);
                }
                return true;
            }
        }
        assert(!entry_is_matrix(ns[i as int]));
        i += 1;
    }
    false
}

/// Whether a byte buffer is a ZIP archive holding ODB++ data.
fn zip_contains_odbpp(data: &[u8]) -> (res: bool)
    ensures
        res == holds_odbpp_matrix(zip_entry_names(data@)),
{
    match read_zip_entry_names(data) {
        Some(names) => zip_holds_odbpp(names.as_slice()),
        None => false,
    }
}

/// The format [`detect_format_with_content`] reports: a `.zip` holding the
/// ODB++ layer matrix is ODB++, any other `.zip` is Gerber; other extensions go
/// by the name alone.
pub open spec fn content_format(path: Seq<char>, data: Seq<u8>) -> Option<PcbFormat> {
    if lower_extension(path) == Some("zip"@) {
        if holds_odbpp_matrix(zip_entry_names(data)) {
            Some(PcbFormat::OdbPlusPlus)
        } else {
            Some(PcbFormat::Gerber)
        }
    } else {
        path_format(path)
    }
}

/// Detects a format using both the file name and the file content.
///
/// For unambiguous extensions the name decides; for `.zip` archives the
/// entries decide between Gerber and ODB++.
pub fn detect_format_with_content(path: &str, data: &[u8]) -> (res: Option<PcbFormat>)
    ensures
        res == content_format(path@, data@),
{
    let (ext, stem) = extension_and_stem(path);
    let is_zip = match &ext {
        Some(e) => {
            let ec = chars_of(e.as_str());
            eq_str(&ec, "zip")
        },
        None => false,
    };
    if is_zip {
        if zip_contains_odbpp(data) {
            Some(PcbFormat::OdbPlusPlus)
        } else {
            Some(PcbFormat::Gerber)
        }
    } else {
        format_from_extension(as_opt_str(&ext), stem.as_str())
    }
}

/// Looking inside a file changes the verdict only for `.zip` archives, which
/// are Gerber or ODB++ either way; every other path gets the format its name
/// gives.
pub proof fn lemma_content_refines_name(path: Seq<char>, data: Seq<u8>)
    ensures
        lower_extension(path) != Some("zip"@) ==> content_format(path, data) == path_format(path),
        lower_extension(path) == Some("zip"@) ==> (content_format(path, data) == Some(PcbFormat::Gerber)
            || content_format(path, data) == Some(PcbFormat::OdbPlusPlus)),
        lower_extension(path) == Some("zip"@) ==> path_format(path) == Some(PcbFormat::Gerber),
{
    reveal_strlit("zip");
    reveal_strlit("kicad_pcb");
    reveal_strlit("json");
    reveal_strlit("brd");
    reveal_strlit("fbrd");
    reveal_strlit("pcbdoc");
    reveal_strlit("tgz");
    assert("zip"@[0] != "kicad_pcb"@[0]);
    assert("zip"@[0] != "json"@[0]);
    assert("zip"@[0] != "brd"@[0]);
    assert("zip"@[0] != "fbrd"@[0]);
    assert("zip"@[0] != "pcbdoc"@[0]);
    assert("zip"@[0] != "tgz"@[0]);
}

// ───────────────────────────── input screening ─────────────────────────────

/// Whether bytes begin with the AppleDouble magic number `00 05 16 07`, the
/// header of a macOS resource-fork file.
pub open spec fn is_apple_double(data: Seq<u8>) -> bool {
    data.len() >= 4 && data[0] == 0x00u8 && data[1] == 0x05u8 && data[2] == 0x16u8
        && data[3] == 0x07u8
}

/// Refuses a macOS resource fork (AppleDouble file), which tools leave beside
/// design files and which no format parser can read. Every other input is
/// handed on to the format's parser.
pub fn check_not_resource_fork(data: &[u8]) -> (res: Result<(), ExtractError>)
    ensures
        is_apple_double(data@) <==> res is Err,
        res matches Err(e) ==> e == ExtractError::MacosResourceFork,
{
    if data.len() >= 4 && data[0] == 0x00 && data[1] == 0x05 && data[2] == 0x16 && data[3] == 0x07 {
        Err(ExtractError::MacosResourceFork)
    } else {
        Ok(())
    }
}

// ───────────────────────────── format names ─────────────────────────────

/// The format a lower-cased command-line name selects.
pub open spec fn named_format(lower: Seq<char>) -> Option<PcbFormat> {
    if lower == "kicad"@ {
        Some(PcbFormat::KiCad)
    } else if lower == "easyeda"@ {
        Some(PcbFormat::EasyEda)
    } else if lower == "eagle"@ {
        Some(PcbFormat::Eagle)
    } else if lower == "altium"@ {
        Some(PcbFormat::Altium)
    } else if lower == "gerber"@ {
        Some(PcbFormat::Gerber)
    } else {
        None
    }
}

/// The format a lower-cased command-line name selects, if any.
pub fn format_from_name(lower: &str) -> (res: Option<PcbFormat>)
    ensures
        res == named_format(lower@),
{
    let cs = chars_of(lower);
    if eq_str(&cs, "kicad") {
        Some(PcbFormat::KiCad)
    } else if eq_str(&cs, "easyeda") {
        Some(PcbFormat::EasyEda)
    } else if eq_str(&cs, "eagle") {
        Some(PcbFormat::Eagle)
    } else if eq_str(&cs, "altium") {
        Some(PcbFormat::Altium)
    } else if eq_str(&cs, "gerber") {
        Some(PcbFormat::Gerber)
    } else {
        None
    }
}

/// Parses a format name given on the command line, in any case. An unknown
/// name is refused with a message that lists the names accepted.
pub fn parse_format(s: &str) -> (res: Result<PcbFormat, String>)
    ensures
        match res {
            Ok(f) => named_format(lowercase(s@)) == Some(f),
            Err(m) => named_format(lowercase(s@)) is None && m@ == "Unknown format: "@ + s@
                + ". Use: kicad, easyeda, eagle, altium, gerber"@,
        },
{
    let lower = to_lowercase(s);
    match format_from_name(lower.as_str()) {
        Some(f) => Ok(f),
        None => {
            let mut m = crate::text::to_string("Unknown format: ");
            crate::text::push_str(&mut m, s);
            crate::text::push_str(&mut m, ". Use: kicad, easyeda, eagle, altium, gerber");
            Err(m)
        },
    }
}

} // verus!
