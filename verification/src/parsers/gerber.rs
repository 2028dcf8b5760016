//! Gerber (RS-274X) and Excellon fabrication data: how a set of source files
//! becomes layers — archive expansion with a size limit, which files are
//! fabrication data, what role each layer plays and where it goes in the
//! stack, and the diagnostics reported for the rest.
pub mod apertures;
pub mod commands;
pub mod excellon;
pub mod layers;
pub mod lexer;
pub mod macros;
pub mod project;

use vstd::prelude::*;

use crate::error::ExtractError;
use crate::text::{
    chars_of, contains, contains_str, lowercase, push_char, push_chars, push_str, slice_chars,
    str_from_utf8, to_string,
};
use commands::{file_function_spec, parse_file_function, FileFunction, FileFunctionView};
use lexer::{GerberToken, TokenView};
use layers::{base_name, filename_kind, identify_from_filename, identify_from_x2, x2_kind, GerberLayerType, LayerKind};

verus! {

// ───────────────────────────── layer identification ─────────────────────────────

/// The layer kind of a file: the first X2 `FileFunction` attribute that
/// identifies a kind wins, else the file name decides.
pub open spec fn layer_kind_of(filename: Seq<char>, functions: Seq<FileFunction>) -> LayerKind {
    if exists|i: int| 0 <= i < functions.len() && !(x2_kind(#[trigger] functions[i]) is Unknown) {
        x2_kind(functions[choose|i: int| 0 <= i < functions.len() && !(x2_kind(#[trigger] functions[i]) is Unknown)
            && forall|j: int| 0 <= j < i ==> x2_kind(#[trigger] functions[j]) is Unknown])
    } else {
        filename_kind(lowercase(base_name(filename)))
    }
}

/// Detects the layer type of a Gerber file from its X2 `FileFunction`
/// attributes (in file order), falling back to its file name.
pub fn detect_layer_type(filename: &str, functions: &[FileFunction]) -> (res: GerberLayerType)
    ensures
        res@ == layer_kind_of(filename@, functions@),
{
    let mut i: usize = 0;
    while i < functions.len()
        invariant
            i <= functions.len(),
            forall|j: int| 0 <= j < i ==> x2_kind(#[trigger] functions@[j]) is Unknown,
        decreases functions.len() - i,
    {
        let t = identify_from_x2(&functions[i]);
        match t {
            GerberLayerType::Unknown => {},
            _ => {
                proof {
                    let w = choose|w: int| 0 <= w < functions@.len() && !(x2_kind(#[trigger] functions@[w]) is Unknown)
                        && forall|j: int| 0 <= j < w ==> x2_kind(#[trigger] functions@[j]) is Unknown;
                    if w < i {
                        assert(x2_kind(functions@[w]) is Unknown);
                    } else if w > i {
                        assert(x2_kind(functions@[i as int]) is Unknown);
                    }
                }
                return t;
            },
        }
        i += 1;
    }
    identify_from_filename(filename)
}

/// The X2 `TF.FileFunction` attributes among a file's tokens, in order.
pub open spec fn x2_functions_spec(tokens: Seq<TokenView>) -> Seq<FileFunctionView>
    decreases tokens.len(),
{
    if tokens.len() == 0 {
        Seq::empty()
    } else {
        let rest = x2_functions_spec(tokens.drop_last());
        match tokens.last() {
            TokenView::Extended(c) => if crate::text::starts_with(c, "TF.FileFunction,"@) {
                rest.push(file_function_spec(c))
            } else {
                rest
            },
            TokenView::Word(_) => rest,
        }
    }
}

/// The X2 `TF.FileFunction` attributes among a file's tokens, in order.
pub fn x2_file_functions(tokens: &[GerberToken]) -> (res: Vec<FileFunction>)
    ensures
        Seq::new(res@.len(), |i: int| res@[i]@) == x2_functions_spec(Seq::new(tokens@.len(), |i: int| tokens@[i]@)),
{
    let ghost tv = Seq::new(tokens@.len(), |i: int| tokens@[i]@);
    let mut out: Vec<FileFunction> = Vec::new();
    let mut i: usize = 0;
    while i < tokens.len()
        invariant
            i <= tokens.len(),
            tv == Seq::new(tokens@.len(), |k: int| tokens@[k]@),
            Seq::new(out@.len(), |k: int| out@[k]@) == x2_functions_spec(tv.take(i as int)),
        decreases tokens.len() - i,
    {
        assert(tv.take(i + 1).drop_last() == tv.take(i as int));
        assert(tv.take(i + 1).last() == tokens@[i as int]@);
        let ghost before = Seq::new(out@.len(), |k: int| out@[k]@);
        match &tokens[i] {
            GerberToken::Extended(c) => {
                let cs = chars_of(c.as_str());
                if crate::text::starts_with_str(&cs, "TF.FileFunction,") {
                    let f = parse_file_function(c.as_str());
                    let ghost fv = f@;
                    out.push(f);
                    assert(Seq::new(out@.len(), |k: int| out@[k]@) == before.push(fv));
                }
            },
            GerberToken::Word(_) => {},
        }
        i += 1;
    }
    assert(tv.take(tokens.len() as int) == tv);
    out
}

// ───────────────────────────── stacking order ─────────────────────────────

/// Stack orders in non-decreasing (back-to-front) order.
pub open spec fn stack_sorted(orders: Seq<u8>) -> bool {
    forall|i: int, j: int| 0 <= i <= j < orders.len() ==> orders[i] <= orders[j]
}

/// Where a layer of stack order `order` goes among layers in stack order:
/// after every layer at or below its order (`partition_point`).
pub fn stack_position(orders: &[u8], order: u8) -> (res: usize)
    requires
        stack_sorted(orders@),
    ensures
        res <= orders.len(),
        forall|i: int| 0 <= i < res ==> orders@[i] <= order,
        forall|i: int| res <= i < orders.len() ==> orders@[i] > order,
{
    let mut lo: usize = 0;
    let mut hi: usize = orders.len();
    while lo < hi
        invariant
            lo <= hi <= orders.len(),
            stack_sorted(orders@),
            forall|i: int| 0 <= i < lo ==> orders@[i] <= order,
            forall|i: int| hi <= i < orders.len() ==> orders@[i] > order,
        decreases hi - lo,
    {
        let mid = lo + (hi - lo) / 2;
        if orders[mid] <= order {
            lo = mid + 1;
        } else {
            hi = mid;
        }
    }
    lo
}

/// Inserting a layer where [`stack_position`] puts it keeps the stack in
/// back-to-front order, and the new layer comes after every layer of the
/// same order that was already there.
pub proof fn lemma_insert_keeps_stack_order(orders: Seq<u8>, order: u8, pos: int)
    requires
        stack_sorted(orders),
        0 <= pos <= orders.len(),
        forall|i: int| 0 <= i < pos ==> orders[i] <= order,
        forall|i: int| pos <= i < orders.len() ==> orders[i] > order,
    ensures
        stack_sorted(orders.insert(pos, order)),
        orders.insert(pos, order)[pos] == order,
        forall|i: int| 0 <= i < pos ==> orders.insert(pos, order)[i] <= order,
        forall|i: int| pos < i < orders.len() + 1 ==> orders.insert(pos, order)[i] > order,
{
    let s = orders.insert(pos, order);
    assert forall|i: int, j: int| 0 <= i <= j < s.len() implies s[i] <= s[j] by {
        if i < pos && j < pos {
            assert(s[i] == orders[i] && s[j] == orders[j]);
        } else if i < pos && j == pos {
        } else if i < pos {
            assert(s[i] == orders[i] && s[j] == orders[j - 1]);
        } else if i == pos && j == pos {
        } else if i == pos {
            assert(s[j] == orders[j - 1]);
        } else {
            assert(s[i] == orders[i - 1] && s[j] == orders[j - 1]);
        }
    }
}

// ───────────────────────────── diagnostics ─────────────────────────────

/// Longest diagnostic reason kept; parser errors can quote whole files.
pub const MAX_REASON_CHARS: usize = 160;

/// A diagnostic line `"<file>: <reason>"`, the reason cut to its first 160
/// characters and marked with `…` when it is longer.
pub open spec fn diagnostic_spec(name: Seq<char>, reason: Seq<char>) -> Seq<char> {
    if reason.len() > 160 {
        name + ": "@ + reason.take(160) + seq!['…']
    } else {
        name + ": "@ + reason
    }
}

/// Formats a diagnostic line for a file.
pub fn diagnostic(name: &str, reason: &str) -> (res: String)
    ensures
        res@ == diagnostic_spec(name@, reason@),
{
    let mut s = to_string(name);
    push_str(&mut s, ": ");
    let r = chars_of(reason);
    if r.len() > MAX_REASON_CHARS {
        let head = slice_chars(&r, 0, MAX_REASON_CHARS);
        push_chars(&mut s, &head);
        push_char(&mut s, '…');
    } else {
        push_chars(&mut s, &r);
    }
    s
}

// ───────────────────────────── file classification ─────────────────────────────

/// Why a file produced no layer.
#[derive(Debug, Clone, PartialEq)]
pub enum FileError {
    /// Not Gerber or Excellon data (binary, logs, PDFs, ...), or a drill file
    /// with no holes.
    NotFabricationData(&'static str),
    /// Looked like Gerber data but could not be parsed.
    Invalid(ExtractError),
}

impl FileError {
    /// The reason the error gives.
    pub fn message(&self) -> (res: String)
        ensures
            match self {
                FileError::NotFabricationData(r) => res@ == r@,
                FileError::Invalid(e) => res@ == crate::error::error_text(*e),
            },
    {
        match self {
            FileError::NotFabricationData(r) => to_string(r),
            FileError::Invalid(e) => e.message(),
        }
    }
}

/// The text of a fabrication file, or an error when the bytes are not UTF-8
/// text.
pub fn file_text(data: &[u8]) -> (res: Result<&str, FileError>)
    ensures
        vstd::utf8::valid_utf8(data@) <==> res is Ok,
        res matches Ok(s) ==> s@ == vstd::utf8::decode_utf8(data@),
        res matches Err(e) ==> e == FileError::NotFabricationData("not a text file"),
{
    match str_from_utf8(data) {
        Some(s) => Ok(s),
        None => Err(FileError::NotFabricationData("not a text file")),
    }
}

/// Whether text declares an RS-274X coordinate format (`%FSLA`, `%FSTA`,
/// `%FSLI` or `%FSTI`), as every Gerber file does.
pub open spec fn declares_format_spec(content: Seq<char>) -> bool {
    contains(content, "FSLA"@) || contains(content, "FSTA"@) || contains(content, "FSLI"@)
        || contains(content, "FSTI"@)
}

/// Whether a text file declares a Gerber coordinate format.
pub fn declares_coordinate_format(content: &str) -> (res: bool)
    ensures
        res == declares_format_spec(content@),
{
    let cs = chars_of(content);
    contains_str(&cs, "FSLA") || contains_str(&cs, "FSTA") || contains_str(&cs, "FSLI")
        || contains_str(&cs, "FSTI")
}

/// Whether bytes begin with the ZIP local-file signature `PK\x03\x04`.
pub open spec fn is_zip_spec(data: Seq<u8>) -> bool {
    data.len() >= 4 && data[0] == 0x50u8 && data[1] == 0x4Bu8 && data[2] == 0x03u8
        && data[3] == 0x04u8
}

/// Whether a source is a ZIP archive (to be expanded) rather than one file.
pub fn is_zip_archive(data: &[u8]) -> (res: bool)
    ensures
        res == is_zip_spec(data@),
{
    data.len() >= 4 && data[0] == 0x50 && data[1] == 0x4B && data[2] == 0x03 && data[3] == 0x04
}

/// The name of an archive entry as a source: `archive/entry`.
pub fn entry_source_name(archive: &str, entry: &str) -> (res: String)
    ensures
        res@ == archive@ + "/"@ + entry@,
{
    let mut s = to_string(archive);
    push_str(&mut s, "/");
    push_str(&mut s, entry);
    s
}

// ───────────────────────────── one fabrication file ─────────────────────────────

/// The layer kind an X2 `FileFunction` attribute declares, read from its
/// view.
pub open spec fn x2_view_kind(func: FileFunctionView) -> LayerKind {
    match func {
        FileFunctionView::Copper { side, layer_num } => match side {
            commands::CopperSide::Top => LayerKind::CopperTop,
            commands::CopperSide::Bottom => LayerKind::CopperBottom,
            commands::CopperSide::Inner => {
                let n: int = if layer_num >= 2 { layer_num - 1 } else { 1 };
                LayerKind::CopperInner("In"@ + crate::text::decimal(n as nat))
            },
        },
        FileFunctionView::Legend { side } => match side {
            commands::BoardSide::Top => LayerKind::SilkscreenTop,
            commands::BoardSide::Bottom => LayerKind::SilkscreenBottom,
        },
        FileFunctionView::SolderMask { side } => match side {
            commands::BoardSide::Top => LayerKind::SolderMaskTop,
            commands::BoardSide::Bottom => LayerKind::SolderMaskBottom,
        },
        FileFunctionView::Paste { side } => match side {
            commands::BoardSide::Top => LayerKind::SolderPasteTop,
            commands::BoardSide::Bottom => LayerKind::SolderPasteBottom,
        },
        FileFunctionView::Profile => LayerKind::BoardOutline,
        FileFunctionView::Other(f) => if f.len() == 0 {
            LayerKind::Unknown
        } else if f == "Plated"@ || f == "NonPlated"@ {
            LayerKind::Drills
        } else {
            LayerKind::Other
        },
    }
}

/// The layer kind of a Gerber file named `filename` whose X2 attributes are
/// `functions`: the first attribute that identifies a kind, else the name.
pub open spec fn layer_kind_from_views(filename: Seq<char>, functions: Seq<FileFunctionView>) -> LayerKind {
    if exists|i: int| 0 <= i < functions.len() && !(x2_view_kind(#[trigger] functions[i]) is Unknown) {
        x2_view_kind(functions[choose|i: int| 0 <= i < functions.len() && !(x2_view_kind(#[trigger] functions[i]) is Unknown)
            && forall|j: int| 0 <= j < i ==> x2_view_kind(#[trigger] functions[j]) is Unknown])
    } else {
        filename_kind(lowercase(base_name(filename)))
    }
}

/// The layer kind of a Gerber file from its name and its text.
pub open spec fn gerber_kind_spec(filename: Seq<char>, content: Seq<char>) -> LayerKind {
    layer_kind_from_views(filename, x2_functions_spec(lexer::tokenize_spec(content)))
}

proof fn lemma_layer_kind_views(filename: Seq<char>, fs: Seq<FileFunction>, vs: Seq<FileFunctionView>)
    requires
        vs == Seq::new(fs.len(), |i: int| fs[i]@),
    ensures
        layer_kind_of(filename, fs) == layer_kind_from_views(filename, vs),
{
    assert forall|i: int| 0 <= i < fs.len() implies #[trigger] x2_kind(fs[i]) == x2_view_kind(vs[i]) by {
        assert(vs[i] == fs[i]@);
    }
    if exists|i: int| 0 <= i < fs.len() && !(x2_kind(#[trigger] fs[i]) is Unknown) {
        let w1 = choose|i: int| 0 <= i < fs.len() && !(x2_kind(#[trigger] fs[i]) is Unknown)
            && forall|j: int| 0 <= j < i ==> x2_kind(#[trigger] fs[j]) is Unknown;
        let w0 = choose|i: int| 0 <= i < fs.len() && !(x2_kind(#[trigger] fs[i]) is Unknown);
        let first = choose|i: int| 0 <= i <= w0 && !(x2_kind(#[trigger] fs[i]) is Unknown)
            && forall|j: int| 0 <= j < i ==> x2_kind(#[trigger] fs[j]) is Unknown;
        lemma_first_known(fs, w0);
        assert(0 <= first < fs.len());
        let w2 = choose|i: int| 0 <= i < vs.len() && !(x2_view_kind(#[trigger] vs[i]) is Unknown)
            && forall|j: int| 0 <= j < i ==> x2_view_kind(#[trigger] vs[j]) is Unknown;
        assert(!(x2_view_kind(vs[first]) is Unknown));
        if w1 < w2 {
            assert(x2_view_kind(vs[w1]) is Unknown);
        } else if w2 < w1 {
            assert(x2_kind(fs[w2]) is Unknown);
        }
    } else {
        assert forall|i: int| 0 <= i < vs.len() implies x2_view_kind(#[trigger] vs[i]) is Unknown by {
            assert(x2_kind(fs[i]) is Unknown);
        }
    }
}

proof fn lemma_first_known(fs: Seq<FileFunction>, w: int)
    requires
        0 <= w < fs.len(),
        !(x2_kind(fs[w]) is Unknown),
    ensures
        exists|i: int| 0 <= i <= w && !(x2_kind(#[trigger] fs[i]) is Unknown)
            && forall|j: int| 0 <= j < i ==> x2_kind(#[trigger] fs[j]) is Unknown,
    decreases w,
{
    if exists|k: int| 0 <= k < w && !(x2_kind(#[trigger] fs[k]) is Unknown) {
        let k = choose|k: int| 0 <= k < w && !(x2_kind(#[trigger] fs[k]) is Unknown);
        lemma_first_known(fs, k);
    } else {
        assert(forall|j: int| 0 <= j < w ==> x2_kind(#[trigger] fs[j]) is Unknown);
    }
}

/// What a fabrication file holds, once it is known to be one.
#[derive(Debug, Clone)]
pub enum FabricationFile {
    /// RS-274X data: the layer type it declares (or its name implies) and its
    /// tokens, ready for the interpreter.
    Gerber { layer_type: GerberLayerType, tokens: Vec<GerberToken> },
    /// An Excellon drill file, with at least one hit.
    Drill { hits: Vec<excellon::DrillHit> },
}

/// Reads one fabrication file: RS-274X when the text declares a coordinate
/// format, else Excellon. Errors say why the file is no fabrication data or
/// why its Gerber text is unusable.
#[verifier::rlimit(40)]
pub fn read_fabrication_file(name: &str, data: &[u8]) -> (res: Result<FabricationFile, FileError>)
    ensures
        !vstd::utf8::valid_utf8(data@) ==> res == Err::<FabricationFile, FileError>(FileError::NotFabricationData("not a text file")),
        vstd::utf8::valid_utf8(data@) ==> {
            let c = vstd::utf8::decode_utf8(data@);
            if declares_format_spec(c) {
                if !contains(c, "*"@) {
                    res matches Err(FileError::Invalid(ExtractError::ParseError(m)))
                        && m@ == "Not a Gerber file (no * terminator)"@
                } else if lexer::tokenize_spec(c).len() == 0 {
                    res matches Err(FileError::Invalid(ExtractError::ParseError(m)))
                        && m@ == "Empty Gerber file"@
                } else {
                    res matches Ok(FabricationFile::Gerber { layer_type, tokens })
                        && lexer::token_views(tokens@) == lexer::tokenize_spec(c)
                        && layer_type@ == gerber_kind_spec(name@, c)
                }
            } else {
                match excellon::excellon_spec(c) {
                    Some(h) => if h.len() > 0 {
                        res matches Ok(FabricationFile::Drill { hits }) && excellon::hits_view(hits@) == h
                    } else {
                        res == Err::<FabricationFile, FileError>(FileError::NotFabricationData("Excellon drill file with no drill hits"))
                    },
                    None => res == Err::<FabricationFile, FileError>(FileError::NotFabricationData("not a Gerber or Excellon file")),
                }
            }
        },
{
    let content = match file_text(data) {
        Ok(c) => c,
        Err(e) => return Err(e),
    };
    if declares_coordinate_format(content) {
        let cs = chars_of(content);
        if !contains_str(&cs, "*") {
            return Err(FileError::Invalid(ExtractError::ParseError(to_string("Not a Gerber file (no * terminator)"))));
        }
        let tokens = lexer::tokenize(content);
        if tokens.len() == 0 {
            return Err(FileError::Invalid(ExtractError::ParseError(to_string("Empty Gerber file"))));
        }
        let functions = x2_file_functions(&tokens);
        let layer_type = detect_layer_type(name, &functions);
        proof {
            let tv = Seq::new(tokens@.len(), |i: int| tokens@[i]@);
            assert(tv == lexer::token_views(tokens@));
            lemma_layer_kind_views(name@, functions@, Seq::new(functions@.len(), |i: int| functions@[i]@));
        }
        return Ok(FabricationFile::Gerber { layer_type, tokens });
    }
    match excellon::parse_excellon(content) {
        Some(hits) => if hits.len() > 0 {
            Ok(FabricationFile::Drill { hits })
        } else {
            Err(FileError::NotFabricationData("Excellon drill file with no drill hits"))
        },
        None => Err(FileError::NotFabricationData("not a Gerber or Excellon file")),
    }
}

// ───────────────────────────── archives ─────────────────────────────

/// The number of entries of a ZIP archive as the `zip` crate reads it, or
/// the reader's error message.
pub uninterp spec fn zip_count(data: Seq<u8>) -> Result<nat, Seq<char>>;

/// Entry `index` of a ZIP archive as the `zip` crate reads it, with at most
/// `limit` bytes of its content: whether it is a directory, its name, and
/// its content (`None` when the content could not be read); or the reader's
/// error message.
pub uninterp spec fn zip_entry(data: Seq<u8>, index: nat, limit: nat) -> Result<(bool, Seq<char>, Option<Seq<u8>>), Seq<char>>;

/// Calls `zip::ZipArchive::new` and `len`. The result is named
/// [`zip_count`], a function of the bytes; the reader's error is kept as its
/// message. The ZIP directory format is not written out.
#[verifier::external_body]
fn read_zip_count(data: &[u8]) -> (res: Result<usize, String>)
    ensures
        match res {
            Ok(n) => zip_count(data@) == Ok::<nat, Seq<char>>(n as nat),
            Err(m) => zip_count(data@) == Err::<nat, Seq<char>>(m@),
        },
{
    match zip::ZipArchive::new(std::io::Cursor::new(data)) {
        Ok(archive) => Ok(archive.len()),
        Err(e) => Err(e.to_string()),
    }
}

/// The optional bytes of an entry's content.
pub open spec fn opt_bytes(c: Option<Vec<u8>>) -> Option<Seq<u8>> {
    match c {
        Some(v) => Some(v@),
        None => None,
    }
}

/// Calls `zip::ZipArchive::new`, `by_index`, `is_dir`, `name`, and
/// `Read::take(limit)` with `read_to_end` on the entry. The result is named
/// [`zip_entry`], a function of the bytes, the index and the limit. As
/// `Read::take` documents, at most `limit` bytes of content are read. How
/// entries are decompressed is not written out.
#[verifier::external_body]
fn read_zip_entry(data: &[u8], index: usize, limit: u64) -> (res: Result<(bool, String, Option<Vec<u8>>), String>)
    ensures
        match res {
            Ok((d, n, c)) => zip_entry(data@, index as nat, limit as nat) == Ok::<(bool, Seq<char>, Option<Seq<u8>>), Seq<char>>((d, n@, opt_bytes(c))),
            Err(m) => zip_entry(data@, index as nat, limit as nat) == Err::<(bool, Seq<char>, Option<Seq<u8>>), Seq<char>>(m@),
        },
        res matches Ok((_, _, Some(c))) ==> c@.len() <= limit,
{
    let mut archive = zip::ZipArchive::new(std::io::Cursor::new(data)).map_err(|e| e.to_string())?;
    let file = archive.by_index(index).map_err(|e| e.to_string())?;
    let is_dir = file.is_dir();
    let name = file.name().map_err(|e| e.to_string())?.into_owned();
    let mut content = Vec::new();
    let read = std::io::Read::read_to_end(&mut std::io::Read::take(file, limit), &mut content);
    Ok((is_dir, name, read.ok().map(|_| content)))
}

/// Why reading an archive's files failed.
pub enum ReadFailure {
    /// The ZIP reader's error message.
    Zip(Seq<char>),
    /// The files expand beyond the size limit.
    Bomb,
}

/// The files of entries `i..n` of an archive, given `total` bytes already
/// read: directories and entries whose content cannot be read are skipped;
/// each file may read up to one byte past what is left of `max`, and the
/// read is refused as a decompression bomb once the total exceeds `max`.
pub open spec fn entries_from(data: Seq<u8>, i: nat, n: nat, total: nat, max: nat) -> Result<Seq<(Seq<char>, Seq<u8>)>, ReadFailure>
    decreases n - i,
{
    if i >= n {
        Ok(Seq::empty())
    } else {
        match zip_entry(data, i, (max - total) as nat + 1) {
            Err(m) => Err(ReadFailure::Zip(m)),
            Ok((is_dir, name, content)) => if is_dir {
                entries_from(data, i + 1, n, total, max)
            } else {
                match content {
                    None => entries_from(data, i + 1, n, total, max),
                    Some(c) => if total + c.len() > max {
                        Err(ReadFailure::Bomb)
                    } else {
                        match entries_from(data, i + 1, n, total + c.len(), max) {
                            Ok(rest) => Ok(seq![(name, c)] + rest),
                            Err(e) => Err(e),
                        }
                    },
                }
            },
        }
    }
}

/// The files of a ZIP archive, read with a limit of `max` bytes in total.
pub open spec fn entries_spec(data: Seq<u8>, max: nat) -> Result<Seq<(Seq<char>, Seq<u8>)>, ReadFailure> {
    match zip_count(data) {
        Err(m) => Err(ReadFailure::Zip(m)),
        Ok(n) => entries_from(data, 0, n, 0, max),
    }
}

/// The name and content of each file read.
pub open spec fn files_view(v: Seq<(String, Vec<u8>)>) -> Seq<(Seq<char>, Seq<u8>)> {
    Seq::new(v.len(), |i: int| (v[i].0@, v[i].1@))
}

/// The total size of files read.
pub open spec fn files_total(v: Seq<(Seq<char>, Seq<u8>)>) -> nat
    decreases v.len(),
{
    if v.len() == 0 {
        0
    } else {
        files_total(v.drop_last()) + v.last().1.len()
    }
}

/// Whether a read result matches its specification.
pub open spec fn entries_match(r: Result<Vec<(String, Vec<u8>)>, ExtractError>, s: Result<Seq<(Seq<char>, Seq<u8>)>, ReadFailure>) -> bool {
    match r {
        Ok(v) => s == Ok::<Seq<(Seq<char>, Seq<u8>)>, ReadFailure>(files_view(v@)),
        Err(ExtractError::Zip(m)) => s == Err::<Seq<(Seq<char>, Seq<u8>)>, ReadFailure>(ReadFailure::Zip(m@)),
        Err(ExtractError::DecompressionBomb) => s == Err::<Seq<(Seq<char>, Seq<u8>)>, ReadFailure>(ReadFailure::Bomb),
        Err(_) => false,
    }
}

/// Prepends files to a read result.
pub open spec fn prepend_files(done: Seq<(Seq<char>, Seq<u8>)>, r: Result<Seq<(Seq<char>, Seq<u8>)>, ReadFailure>) -> Result<Seq<(Seq<char>, Seq<u8>)>, ReadFailure> {
    match r {
        Ok(rest) => Ok(done + rest),
        Err(e) => Err(e),
    }
}

/// Reads every file of a ZIP archive, refusing archives whose files expand
/// to more than `max` bytes in total. The files read never add up to more
/// than `max` bytes.
pub fn read_zip_entries(data: &[u8], max: u64) -> (res: Result<Vec<(String, Vec<u8>)>, ExtractError>)
    requires
        max < u64::MAX,
    ensures
        entries_match(res, entries_spec(data@, max as nat)),
        res matches Ok(v) ==> files_total(files_view(v@)) <= max,
{
    let n = match read_zip_count(data) {
        Ok(n) => n,
        Err(m) => return Err(ExtractError::Zip(m)),
    };
    let mut entries: Vec<(String, Vec<u8>)> = Vec::new();
    let mut total: u64 = 0;
    let mut i: usize = 0;
    while i < n
        invariant
            i <= n,
            max < u64::MAX,
            total <= max,
            zip_count(data@) == Ok::<nat, Seq<char>>(n as nat),
            total == files_total(files_view(entries@)),
            entries_spec(data@, max as nat) == prepend_files(files_view(entries@), entries_from(data@, i as nat, n as nat, total as nat, max as nat)),
        decreases n - i,
    {
        let remaining = max - total;
        let ghost before = files_view(entries@);
        match read_zip_entry(data, i, remaining + 1) {
            Err(m) => {
                return Err(ExtractError::Zip(m));
            },
            Ok((is_dir, name, content)) => {
                if !is_dir {
                    match content {
                        None => {},
                        Some(c) => {
                            let ghost cv = c@;
                            let ghost nv = name@;
                            total = total + c.len() as u64;
                            if total > max {
                                return Err(ExtractError::DecompressionBomb);
                            }
                            entries.push((name, c));
                            proof {
                                assert(files_view(entries@) == before.push((nv, cv)));
                                assert(files_view(entries@).drop_last() == before);
                                match entries_from(data@, (i + 1) as nat, n as nat, total as nat, max as nat) {
                                    Ok(rest) => {
                                        assert(before + (seq![(nv, cv)] + rest) == before.push((nv, cv)) + rest);
                                    },
                                    Err(_) => {},
                                }
                            }
                        },
                    }
                }
            },
        }
        i += 1;
    }
    proof {
        assert(files_view(entries@) + Seq::<(Seq<char>, Seq<u8>)>::empty() == files_view(entries@));
    }
    Ok(entries)
}

// ───────────────────────────── sources and diagnostics ─────────────────────────────

/// The text of a failed archive read, as the matching error prints it.
pub open spec fn failure_text(f: ReadFailure) -> Seq<char> {
    match f {
        ReadFailure::Zip(m) => "ZIP error: "@ + m,
        ReadFailure::Bomb => "decompression bomb detected: decompressed content exceeds safe size limit"@,
    }
}

/// Archive entries named as sources, `archive/entry`.
pub open spec fn named_entries(archive: Seq<char>, es: Seq<(Seq<char>, Seq<u8>)>) -> Seq<(Seq<char>, Seq<u8>)> {
    Seq::new(es.len(), |i: int| (archive + "/"@ + es[i].0, es[i].1))
}

/// The files a source holds, each with its source name: a ZIP archive is
/// expanded into its files (with the total size limit), anything else is one
/// file. An archive that cannot be read gives no file and a warning.
pub fn source_files(name: &str, data: &[u8]) -> (res: (Vec<(String, Vec<u8>)>, Option<String>))
    ensures
        !is_zip_spec(data@) ==> files_view(res.0@) == seq![(name@, data@)] && res.1 is None,
        is_zip_spec(data@) ==> match entries_spec(data@, crate::MAX_DECOMPRESSED_BYTES as nat) {
            Ok(es) => files_view(res.0@) == named_entries(name@, es) && res.1 is None,
            Err(f) => res.0@.len() == 0 && (res.1 matches Some(w) && w@ == diagnostic_spec(name@, failure_text(f))),
        },
{
    let mut out: Vec<(String, Vec<u8>)> = Vec::new();
    if !is_zip_archive(data) {
        out.push((to_string(name), crate::text::slice_bytes(data, 0, data.len())));
        assert(data@.subrange(0, data@.len() as int) == data@);
        assert(files_view(out@) =~= seq![(name@, data@)]);
        return (out, None);
    }
    match read_zip_entries(data, crate::MAX_DECOMPRESSED_BYTES) {
        Ok(entries) => {
            let ghost es = files_view(entries@);
            let mut i: usize = 0;
            while i < entries.len()
                invariant
                    i <= entries.len(),
                    es == files_view(entries@),
                    files_view(out@) == named_entries(name@, es).take(i as int),
                decreases entries.len() - i,
            {
                let (en, ec) = &entries[i];
                let n = entry_source_name(name, en.as_str());
                let c = crate::text::slice_bytes(ec, 0, ec.len());
                assert(ec@.subrange(0, ec@.len() as int) == ec@);
                assert(es[i as int] == (en@, ec@));
                let ghost prev = files_view(out@);
                out.push((n, c));
                assert(files_view(out@) =~= prev.push((name@ + "/"@ + en@, ec@)));
                assert(files_view(out@) =~= named_entries(name@, es).take(i + 1));
                i += 1;
            }
            assert(named_entries(name@, es).take(entries.len() as int) =~= named_entries(name@, es));
            (out, None)
        },
        Err(e) => {
            let m = e.message();
            (out, Some(diagnostic(name, m.as_str())))
        },
    }
}

/// The characters of each line.
pub open spec fn lines_view(v: Seq<String>) -> Seq<Seq<char>> {
    Seq::new(v.len(), |i: int| v[i]@)
}

} // verus!
