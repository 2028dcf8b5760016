//! Byte-level GDSII record reader.
//!
//! Turns a raw `.gds`/`.gds2` byte stream into a `Vec<Record>`: the record
//! framing loop and typed accessors over `RecordData`. Eight-byte reals are
//! kept as their raw big-endian words (excess-64 floating point), for the
//! geometry stage to convert. This layer carries no PCB or layout semantics.
use vstd::prelude::*;

use crate::bytes::{be_i16, be_i32, be_u16, be_u64_at, be_value, le_u16_spec, le_u32_spec, signed16, signed32};
use crate::error::ExtractError;
use crate::text::{before_first, chars_of, decimal, decimal_chars, from_utf8_lossy, push_chars, push_str, split_once_char, string_from_chars, to_string, utf8_lossy};

verus! {

// GDSII record types
pub const HEADER: u8 = 0x00;
pub const BGNLIB: u8 = 0x01;
pub const LIBNAME: u8 = 0x02;
pub const UNITS: u8 = 0x03;
pub const ENDLIB: u8 = 0x04;
pub const BGNSTR: u8 = 0x05;
pub const STRNAME: u8 = 0x06;
pub const ENDSTR: u8 = 0x07;
pub const BOUNDARY: u8 = 0x08;
pub const PATH: u8 = 0x09;
pub const SREF: u8 = 0x0A;
pub const AREF: u8 = 0x0B;
pub const TEXT: u8 = 0x0C;
pub const LAYER: u8 = 0x0D;
pub const DATATYPE: u8 = 0x0E;
pub const WIDTH: u8 = 0x0F;
pub const XY: u8 = 0x10;
pub const ENDEL: u8 = 0x11;
pub const SNAME: u8 = 0x12;
pub const COLROW: u8 = 0x13;
pub const TEXTTYPE: u8 = 0x16;
pub const STRING: u8 = 0x19;
pub const STRANS: u8 = 0x1A;
pub const MAG: u8 = 0x1B;
pub const ANGLE: u8 = 0x1C;
pub const PATHTYPE: u8 = 0x21;

// GDSII data types
pub const DT_NONE: u8 = 0x00;
pub const DT_BITARRAY: u8 = 0x01;
pub const DT_I16: u8 = 0x02;
pub const DT_I32: u8 = 0x03;
pub const DT_F64: u8 = 0x05;
pub const DT_ASCII: u8 = 0x06;

/// The record type codes the GDSII stream format defines: HEADER through
/// PRESENTATION (0x00–0x17), STRING through ANGLE (0x19–0x1C), REFLIBS
/// through ATTRTABLE (0x1F–0x23), ELFLAGS (0x26), NODETYPE through TAPECODE
/// (0x2A–0x33) and FORMAT through ENDMASKS (0x36–0x38).
pub open spec fn known_record_type(t: u8) -> bool {
    t <= 0x17 || (0x19 <= t <= 0x1C) || (0x1F <= t <= 0x23) || t == 0x26 || (0x2A <= t <= 0x33)
        || (0x36 <= t <= 0x38)
}

/// Payload of a GDSII record. Eight-byte reals are kept as raw big-endian
/// words.
#[derive(Debug, Clone)]
pub enum RecordData {
    /// No payload (data type 0), or an undefined data type when reading leniently.
    Empty,
    BitArray(Vec<u16>),
    Int16(Vec<i16>),
    Int32(Vec<i32>),
    Real8(Vec<u64>),
    Ascii(String),
}

/// A parsed GDSII record.
#[derive(Debug, Clone)]
pub struct Record {
    pub record_type: u8,
    pub data: RecordData,
}

/// The mathematical content of a record payload.
pub enum PayloadView {
    Empty,
    BitArray(Seq<u16>),
    Int16(Seq<i16>),
    Int32(Seq<i32>),
    Real8(Seq<u64>),
    Ascii(Seq<char>),
}

/// The mathematical content of a record.
pub struct RecordView {
    pub record_type: u8,
    pub data: PayloadView,
}

impl View for RecordData {
    type V = PayloadView;

    open spec fn view(&self) -> PayloadView {
        match self {
            RecordData::Empty => PayloadView::Empty,
            RecordData::BitArray(v) => PayloadView::BitArray(v@),
            RecordData::Int16(v) => PayloadView::Int16(v@),
            RecordData::Int32(v) => PayloadView::Int32(v@),
            RecordData::Real8(v) => PayloadView::Real8(v@),
            RecordData::Ascii(s) => PayloadView::Ascii(s@),
        }
    }
}

impl View for Record {
    type V = RecordView;

    open spec fn view(&self) -> RecordView {
        RecordView { record_type: self.record_type, data: self.data@ }
    }
}

/// The views of a sequence of records.
pub open spec fn records_view(rs: Seq<Record>) -> Seq<RecordView> {
    Seq::new(rs.len(), |i: int| rs[i]@)
}

// ───────────────────────────── payload decoding ─────────────────────────────

/// Big-endian unsigned 16-bit words of a payload; a trailing odd byte is
/// ignored.
pub open spec fn words16(p: Seq<u8>) -> Seq<u16> {
    Seq::new(p.len() / 2, |k: int| le_u16_spec(p[2 * k + 1], p[2 * k]) as u16)
}

/// Big-endian signed 16-bit integers of a payload.
pub open spec fn ints16(p: Seq<u8>) -> Seq<i16> {
    Seq::new(p.len() / 2, |k: int| signed16(le_u16_spec(p[2 * k + 1], p[2 * k])) as i16)
}

/// Big-endian signed 32-bit integers of a payload; trailing bytes that do not
/// fill a word are ignored.
pub open spec fn ints32(p: Seq<u8>) -> Seq<i32> {
    Seq::new(
        p.len() / 4,
        |k: int| signed32(le_u32_spec(p[4 * k + 3], p[4 * k + 2], p[4 * k + 1], p[4 * k])) as i32,
    )
}

/// Raw big-endian 64-bit words of a payload.
pub open spec fn words64(p: Seq<u8>) -> Seq<u64> {
    Seq::new(p.len() / 8, |k: int| be_value(p.subrange(8 * k, 8 * k + 8)) as u64)
}

/// The payload of data type `dt`, or `None` for an undefined data type. An
/// ASCII payload is read as UTF-8 (invalid sequences replaced) and cut at the
/// first NUL padding character.
pub open spec fn decode_payload(dt: u8, p: Seq<u8>) -> Option<PayloadView> {
    if dt == DT_NONE {
        Some(PayloadView::Empty)
    } else if dt == DT_BITARRAY {
        Some(PayloadView::BitArray(words16(p)))
    } else if dt == DT_I16 {
        Some(PayloadView::Int16(ints16(p)))
    } else if dt == DT_I32 {
        Some(PayloadView::Int32(ints32(p)))
    } else if dt == DT_F64 {
        Some(PayloadView::Real8(words64(p)))
    } else if dt == DT_ASCII {
        Some(PayloadView::Ascii(before_first(utf8_lossy(p), '\0')))
    } else {
        None
    }
}

fn decode_words16(p: &[u8]) -> (res: Vec<u16>)
    ensures
        res@ == words16(p@),
{
    let mut vals: Vec<u16> = Vec::new();
    let mut i: usize = 0;
    while i + 1 < p.len()
        invariant
            i == 2 * vals.len(),
            i <= p.len(),
            vals.len() <= p.len() / 2,
            vals@ == words16(p@).take(vals.len() as int),
        decreases p.len() - i,
    {
        let w = be_u16(p[i], p[i + 1]);
        proof {
            assert(vals.len() < p.len() / 2) by (nonlinear_arith)
                requires
                    i == 2 * vals.len(),
                    i + 1 < p.len(),
            ;
        }
        vals.push(w);
        i += 2;
        assert(vals@ == words16(p@).take(vals.len() as int));
    }
    proof {
        assert(vals.len() == p.len() / 2) by (nonlinear_arith)
            requires
                i == 2 * vals.len(),
                i + 1 >= p.len(),
                vals.len() <= p.len() / 2,
        ;
    }
    assert(words16(p@).take(vals.len() as int) == words16(p@));
    vals
}

fn decode_ints16(p: &[u8]) -> (res: Vec<i16>)
    ensures
        res@ == ints16(p@),
{
    let mut vals: Vec<i16> = Vec::new();
    let mut i: usize = 0;
    while i + 1 < p.len()
        invariant
            i == 2 * vals.len(),
            i <= p.len(),
            vals.len() <= p.len() / 2,
            vals@ == ints16(p@).take(vals.len() as int),
        decreases p.len() - i,
    {
        let w = be_i16(p[i], p[i + 1]);
        proof {
            assert(vals.len() < p.len() / 2) by (nonlinear_arith)
                requires
                    i == 2 * vals.len(),
                    i + 1 < p.len(),
            ;
        }
        vals.push(w);
        i += 2;
        assert(vals@ == ints16(p@).take(vals.len() as int));
    }
    proof {
        assert(vals.len() == p.len() / 2) by (nonlinear_arith)
            requires
                i == 2 * vals.len(),
                i + 1 >= p.len(),
                vals.len() <= p.len() / 2,
        ;
    }
    assert(ints16(p@).take(vals.len() as int) == ints16(p@));
    vals
}

fn decode_ints32(p: &[u8]) -> (res: Vec<i32>)
    ensures
        res@ == ints32(p@),
{
    let mut vals: Vec<i32> = Vec::new();
    let mut i: usize = 0;
    while i + 3 < p.len()
        invariant
            i == 4 * vals.len(),
            i <= p.len(),
            vals.len() <= p.len() / 4,
            vals@ == ints32(p@).take(vals.len() as int),
        decreases p.len() - i,
    {
        let w = be_i32(p[i], p[i + 1], p[i + 2], p[i + 3]);
        proof {
            assert(vals.len() < p.len() / 4) by (nonlinear_arith)
                requires
                    i == 4 * vals.len(),
                    i + 3 < p.len(),
            ;
        }
        vals.push(w);
        i += 4;
        assert(vals@ == ints32(p@).take(vals.len() as int));
    }
    proof {
        assert(vals.len() == p.len() / 4) by (nonlinear_arith)
            requires
                i == 4 * vals.len(),
                i + 3 >= p.len(),
                vals.len() <= p.len() / 4,
        ;
    }
    assert(ints32(p@).take(vals.len() as int) == ints32(p@));
    vals
}

fn decode_words64(p: &[u8]) -> (res: Vec<u64>)
    ensures
        res@ == words64(p@),
{
    let mut vals: Vec<u64> = Vec::new();
    let mut i: usize = 0;
    while i + 7 < p.len()
        invariant
            i == 8 * vals.len(),
            i <= p.len(),
            vals.len() <= p.len() / 8,
            vals@ == words64(p@).take(vals.len() as int),
        decreases p.len() - i,
    {
        let w = be_u64_at(p, i);
        proof {
            assert(vals.len() < p.len() / 8) by (nonlinear_arith)
                requires
                    i == 8 * vals.len(),
                    i + 7 < p.len(),
            ;
        }
        vals.push(w);
        i += 8;
        assert(vals@ == words64(p@).take(vals.len() as int));
    }
    proof {
        assert(vals.len() == p.len() / 8) by (nonlinear_arith)
            requires
                i == 8 * vals.len(),
                i + 7 >= p.len(),
                vals.len() <= p.len() / 8,
        ;
    }
    assert(words64(p@).take(vals.len() as int) == words64(p@));
    vals
}

/// A GDSII ASCII payload: the bytes read as UTF-8, cut at the first NUL.
fn decode_ascii(p: &[u8]) -> (res: String)
    ensures
        res@ == before_first(utf8_lossy(p@), '\0'),
{
    let s = from_utf8_lossy(p);
    let cs = chars_of(s.as_str());
    match split_once_char(&cs, '\0') {
        Some((head, _)) => string_from_chars(&head),
        None => s,
    }
}

/// Decodes the payload of data type `dt`, or `None` for an undefined data
/// type.
pub fn parse_payload(dt: u8, p: &[u8]) -> (res: Option<RecordData>)
    ensures
        match res {
            Some(d) => decode_payload(dt, p@) == Some(d@),
            None => decode_payload(dt, p@) is None,
        },
{
    if dt == DT_NONE {
        Some(RecordData::Empty)
    } else if dt == DT_BITARRAY {
        Some(RecordData::BitArray(decode_words16(p)))
    } else if dt == DT_I16 {
        Some(RecordData::Int16(decode_ints16(p)))
    } else if dt == DT_I32 {
        Some(RecordData::Int32(decode_ints32(p)))
    } else if dt == DT_F64 {
        Some(RecordData::Real8(decode_words64(p)))
    } else if dt == DT_ASCII {
        Some(RecordData::Ascii(decode_ascii(p)))
    } else {
        None
    }
}

// ───────────────────────────── framing ─────────────────────────────

/// Upper-case hexadecimal digit.
pub open spec fn hex_upper(d: u8) -> char {
    if d < 10 {
        (48 + d) as char
    } else {
        (55 + d) as char
    }
}

/// `0x` and two upper-case hexadecimal digits (`0x{:02X}`).
pub open spec fn hex_byte_upper(b: u8) -> Seq<char> {
    "0x"@ + seq![hex_upper(b / 16), hex_upper(b % 16)]
}

/// Message for a record whose length field is below the 4-byte header.
pub open spec fn short_length_message(length: nat, offset: nat) -> Seq<char> {
    "GDSII: invalid record length "@ + decimal(length) + " at offset "@ + decimal(offset)
}

/// Message for a record that runs past the end of the data.
pub open spec fn overrun_message(offset: nat, length: nat) -> Seq<char> {
    "GDSII: record at offset "@ + decimal(offset) + " extends past end of data (length "@
        + decimal(length) + ")"@
}

/// Message for an undefined record type.
pub open spec fn unknown_type_message(rt: u8, offset: nat) -> Seq<char> {
    "GDSII: unknown record type "@ + hex_byte_upper(rt) + " at offset "@ + decimal(offset)
}

/// Message for an undefined data type.
pub open spec fn data_type_message(dt: u8, rt: u8, offset: nat) -> Seq<char> {
    "GDSII: invalid data type "@ + hex_byte_upper(dt) + " for record type "@ + hex_byte_upper(rt)
        + " at offset "@ + decimal(offset)
}

/// Records from `offset` on. In strict mode an undefined record or data
/// type is an error and reading stops after ENDLIB; otherwise an undefined
/// data type reads as an empty payload. Reading stops when fewer than four
/// bytes are left.
pub open spec fn records_from(data: Seq<u8>, offset: nat, strict: bool) -> Result<Seq<RecordView>, Seq<char>>
    decreases data.len() - offset,
{
    if offset + 4 > data.len() {
        Ok(Seq::empty())
    } else {
        let o = offset as int;
        let length = le_u16_spec(data[o + 1], data[o]) as nat;
        let rt = data[o + 2];
        let dt = data[o + 3];
        if length < 4 {
            Err(short_length_message(length, offset))
        } else if offset + length > data.len() {
            Err(overrun_message(offset, length))
        } else if strict && !known_record_type(rt) {
            Err(unknown_type_message(rt, offset))
        } else if strict && decode_payload(dt, data.subrange(o + 4, o + length)) is None {
            Err(data_type_message(dt, rt, offset))
        } else {
            let payload = match decode_payload(dt, data.subrange(o + 4, o + length)) {
                Some(pv) => pv,
                None => PayloadView::Empty,
            };
            let rec = RecordView { record_type: rt, data: payload };
            if strict && rt == ENDLIB {
                Ok(seq![rec])
            } else {
                match records_from(data, offset + length, strict) {
                    Ok(rest) => Ok(seq![rec] + rest),
                    Err(e) => Err(e),
                }
            }
        }
    }
}

/// Prepends records to a read result.
pub open spec fn prepend(done: Seq<RecordView>, r: Result<Seq<RecordView>, Seq<char>>) -> Result<Seq<RecordView>, Seq<char>> {
    match r {
        Ok(rest) => Ok(done + rest),
        Err(e) => Err(e),
    }
}

/// The records of a whole stream.
pub open spec fn records_spec(data: Seq<u8>, strict: bool) -> Result<Seq<RecordView>, Seq<char>> {
    records_from(data, 0, strict)
}

/// Whether a read result matches an exec result.
pub open spec fn read_matches(r: Result<Vec<Record>, ExtractError>, s: Result<Seq<RecordView>, Seq<char>>) -> bool {
    match r {
        Ok(v) => s == Ok::<Seq<RecordView>, Seq<char>>(records_view(v@)),
        Err(ExtractError::ParseError(m)) => s == Err::<Seq<RecordView>, Seq<char>>(m@),
        Err(_) => false,
    }
}

fn push_hex_upper(s: &mut String, b: u8)
    ensures
        final(s)@ == old(s)@ + hex_byte_upper(b),
{
    push_str(s, "0x");
    let hi = b / 16;
    let lo = b % 16;
    let ch = if hi < 10 { (48 + hi) as char } else { (55 + hi) as char };
    let cl = if lo < 10 { (48 + lo) as char } else { (55 + lo) as char };
    crate::text::push_char(s, ch);
    crate::text::push_char(s, cl);
    assert(seq![ch, cl] == seq![hex_upper(b / 16), hex_upper(b % 16)]);
}

fn push_decimal(s: &mut String, n: usize)
    ensures
        final(s)@ == old(s)@ + decimal(n as nat),
{
    let d = decimal_chars(n as u64);
    push_chars(s, &d);
}

/// Reads the records of a GDSII stream (see [`records_from`]).
pub fn read_records(data: &[u8], strict: bool) -> (res: Result<Vec<Record>, ExtractError>)
    ensures
        read_matches(res, records_spec(data@, strict)),
{
    let mut records: Vec<Record> = Vec::new();
    let mut offset: usize = 0;
    while offset < data.len()
        invariant
            offset <= data.len(),
            records_spec(data@, strict) == prepend(records_view(records@), records_from(data@, offset as nat, strict)),
        decreases data.len() - offset,
    {
        let ghost before = records_view(records@);
        if data.len() - offset < 4 {
            assert(records_from(data@, offset as nat, strict) == Ok::<Seq<RecordView>, Seq<char>>(Seq::empty()));
            assert(before + Seq::<RecordView>::empty() == before);
            return Ok(records);
        }
        let length = be_u16(data[offset], data[offset + 1]) as usize;
        let rt = data[offset + 2];
        let dt = data[offset + 3];
        if length < 4 {
            let mut m = to_string("GDSII: invalid record length ");
            push_decimal(&mut m, length);
            push_str(&mut m, " at offset ");
            push_decimal(&mut m, offset);
            return Err(ExtractError::ParseError(m));
        }
        if length > data.len() - offset {
            let mut m = to_string("GDSII: record at offset ");
            push_decimal(&mut m, offset);
            push_str(&mut m, " extends past end of data (length ");
            push_decimal(&mut m, length);
            push_str(&mut m, ")");
            return Err(ExtractError::ParseError(m));
        }
        if strict && !is_known_record_type(rt) {
            let mut m = to_string("GDSII: unknown record type ");
            push_hex_upper(&mut m, rt);
            push_str(&mut m, " at offset ");
            push_decimal(&mut m, offset);
            return Err(ExtractError::ParseError(m));
        }
        let payload = &data[offset + 4..offset + length];
        assert(payload@ == data@.subrange(offset + 4, offset + length));
        let decoded = parse_payload(dt, payload);
        let pdata = match decoded {
            Some(d) => d,
            None => {
                if strict {
                    let mut m = to_string("GDSII: invalid data type ");
                    push_hex_upper(&mut m, dt);
                    push_str(&mut m, " for record type ");
                    push_hex_upper(&mut m, rt);
                    push_str(&mut m, " at offset ");
                    push_decimal(&mut m, offset);
                    return Err(ExtractError::ParseError(m));
                }
                RecordData::Empty
            },
        };
        let rec = Record { record_type: rt, data: pdata };
        let ghost rv = rec@;
        records.push(rec);
        proof {
            assert(records_view(records@) == before.push(rv));
            assert(before.push(rv) == before + seq![rv]);
        }
        offset += length;
        if strict && rt == ENDLIB {
            proof {
                assert(records_view(records@) + Seq::<RecordView>::empty() == records_view(records@));
            }
            return Ok(records);
        }
        proof {
            let r = records_from(data@, offset as nat, strict);
            match r {
                Ok(rest) => {
                    assert(before + (seq![rv] + rest) == (before + seq![rv]) + rest);
                },
                Err(_) => {},
            }
        }
    }
    proof {
        if offset >= data.len() {
            assert(records_from(data@, offset as nat, strict) == Ok::<Seq<RecordView>, Seq<char>>(Seq::empty()));
        }
        assert(records_view(records@) + Seq::<RecordView>::empty() == records_view(records@));
    }
    Ok(records)
}

/// Whether `t` is a defined record type code.
fn is_known_record_type(t: u8) -> (res: bool)
    ensures
        res == known_record_type(t),
{
    t <= 0x17 || (0x19 <= t && t <= 0x1C) || (0x1F <= t && t <= 0x23) || t == 0x26 || (0x2A <= t
        && t <= 0x33) || (0x36 <= t && t <= 0x38)
}

/// Reads all records of a GDSII stream, refusing undefined record and data
/// types and stopping after ENDLIB.
pub fn parse_records(data: &[u8]) -> (res: Result<Vec<Record>, ExtractError>)
    ensures
        read_matches(res, records_spec(data@, true)),
{
    read_records(data, true)
}

/// `u16::from_be_bytes` at `offset`, or an error when fewer than two bytes
/// are left.
pub fn read_u16(data: &[u8], offset: usize) -> (res: Result<u16, ExtractError>)
    ensures
        offset + 2 <= data.len() ==> (res matches Ok(v) && v as int == le_u16_spec(
            data@[offset + 1],
            data@[offset as int],
        )),
        offset + 2 > data.len() ==> (res matches Err(ExtractError::ParseError(m)) && m@
            == "GDSII: unexpected end of data reading u16"@),
{
    if offset > data.len() || data.len() - offset < 2 {
        return Err(ExtractError::ParseError(to_string("GDSII: unexpected end of data reading u16")));
    }
    Ok(be_u16(data[offset], data[offset + 1]))
}

// ───────────────────────────── accessors ─────────────────────────────

/// The 16-bit integers of a payload, or none for another data type.
pub open spec fn i16_values(d: PayloadView) -> Seq<i16> {
    match d {
        PayloadView::Int16(v) => v,
        _ => Seq::empty(),
    }
}

/// The 32-bit integers of a payload, or none for another data type.
pub open spec fn i32_values(d: PayloadView) -> Seq<i32> {
    match d {
        PayloadView::Int32(v) => v,
        _ => Seq::empty(),
    }
}

/// The raw eight-byte reals of a payload, or none for another data type.
pub open spec fn real8_values(d: PayloadView) -> Seq<u64> {
    match d {
        PayloadView::Real8(v) => v,
        _ => Seq::empty(),
    }
}

/// The bit-array words of a payload, or none for another data type.
pub open spec fn bitarray_values(d: PayloadView) -> Seq<u16> {
    match d {
        PayloadView::BitArray(v) => v,
        _ => Seq::empty(),
    }
}

/// The text of a payload, or the empty string for another data type.
pub open spec fn ascii_value(d: PayloadView) -> Seq<char> {
    match d {
        PayloadView::Ascii(s) => s,
        _ => Seq::empty(),
    }
}

/// Consecutive pairs of 32-bit integers; an odd last value is dropped.
pub open spec fn xy_pairs(v: Seq<i32>) -> Seq<(i32, i32)> {
    Seq::new(v.len() / 2, |k: int| (v[2 * k], v[2 * k + 1]))
}

/// Extracts i16 values from record data.
pub fn get_i16(data: &RecordData) -> (res: Vec<i16>)
    ensures
        res@ == i16_values(data@),
{
    match data {
        RecordData::Int16(v) => v.clone(),
        _ => Vec::new(),
    }
}

/// Extracts i32 values from record data.
pub fn get_i32(data: &RecordData) -> (res: Vec<i32>)
    ensures
        res@ == i32_values(data@),
{
    match data {
        RecordData::Int32(v) => v.clone(),
        _ => Vec::new(),
    }
}

/// Extracts the raw eight-byte reals from record data.
pub fn get_real8(data: &RecordData) -> (res: Vec<u64>)
    ensures
        res@ == real8_values(data@),
{
    match data {
        RecordData::Real8(v) => v.clone(),
        _ => Vec::new(),
    }
}

/// Extracts the ASCII string from record data.
pub fn get_ascii(data: &RecordData) -> (res: String)
    ensures
        res@ == ascii_value(data@),
{
    match data {
        RecordData::Ascii(s) => to_string(s.as_str()),
        _ => String::new(),
    }
}

/// Extracts bit-array values from record data.
pub fn get_bitarray(data: &RecordData) -> (res: Vec<u16>)
    ensures
        res@ == bitarray_values(data@),
{
    match data {
        RecordData::BitArray(v) => v.clone(),
        _ => Vec::new(),
    }
}

/// Extracts XY coordinate pairs from record data (pairs of i32).
pub fn get_xy_pairs(data: &RecordData) -> (res: Vec<(i32, i32)>)
    ensures
        res@ == xy_pairs(i32_values(data@)),
{
    let vals = get_i32(data);
    let mut out: Vec<(i32, i32)> = Vec::new();
    let mut i: usize = 0;
    while i + 1 < vals.len()
        invariant
            i == 2 * out.len(),
            i <= vals.len(),
            out.len() <= vals.len() / 2,
            vals@ == i32_values(data@),
            out@ == xy_pairs(vals@).take(out.len() as int),
        decreases vals.len() - i,
    {
        proof {
            assert(out.len() < vals.len() / 2) by (nonlinear_arith)
                requires
                    i == 2 * out.len(),
                    i + 1 < vals.len(),
            ;
        }
        out.push((vals[i], vals[i + 1]));
        i += 2;
        assert(out@ == xy_pairs(vals@).take(out.len() as int));
    }
    proof {
        assert(out.len() == vals.len() / 2) by (nonlinear_arith)
            requires
                i == 2 * out.len(),
                i + 1 >= vals.len(),
                out.len() <= vals.len() / 2,
        ;
    }
    assert(xy_pairs(vals@).take(out.len() as int) == xy_pairs(vals@));
    out
}

} // verus!
