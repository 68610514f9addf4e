//! A single result cell, kept typed; display formatting happens once, at
//! ingest, but NULL-ness and broad type class survive for the UI and export.

use crate::text::{dec_int, extend_chars, extend_str, i64_dec, owned, string_of};
use vstd::prelude::*;

verus! {

#[derive(Debug, Clone, Copy, PartialEq, Eq, Structural)]
pub enum CellKind {
    Null,
    Text,
    Number,
    Bool,
    Binary,
    DateTime,
    Guid,
}

/// The wire code of a cell kind (the frontend decodes these numbers).
pub open spec fn spec_kind_code(k: CellKind) -> u8 {
    match k {
        CellKind::Null => 0,
        CellKind::Text => 1,
        CellKind::Number => 2,
        CellKind::Bool => 3,
        CellKind::Binary => 4,
        CellKind::DateTime => 5,
        CellKind::Guid => 6,
    }
}

pub fn kind_code(k: CellKind) -> (r: u8)
    ensures
        r == spec_kind_code(k),
{
    match k {
        CellKind::Null => 0,
        CellKind::Text => 1,
        CellKind::Number => 2,
        CellKind::Bool => 3,
        CellKind::Binary => 4,
        CellKind::DateTime => 5,
        CellKind::Guid => 6,
    }
}

#[derive(Debug, Clone)]
pub struct Cell {
    pub kind: CellKind,
    /// Display string (empty for NULL). Binary is rendered as 0x-prefixed hex,
    /// truncated at ingest to keep buffers sane; full value fetch re-queries.
    pub display: String,
}

/// A column value as it arrives from the server. Values whose display form
/// needs floating point or calendar arithmetic (floats, decimals, GUIDs,
/// dates and times) arrive already rendered; `None` is SQL NULL (for the
/// temporal case also a value that could not be rendered).
pub enum ColumnValue {
    U8(Option<u8>),
    I16(Option<i16>),
    I32(Option<i32>),
    I64(Option<i64>),
    Float(Option<String>),
    Numeric(Option<String>),
    Bit(Option<bool>),
    Text(Option<String>),
    Guid(Option<String>),
    Xml(Option<String>),
    Binary(Option<Vec<u8>>),
    Temporal(Option<String>),
}

pub const BINARY_PREVIEW_BYTES: usize = 64;

pub open spec fn hex_digit(d: u8) -> char {
    if d < 10 {
        (d + 48) as char
    } else {
        (d - 10 + 97) as char
    }
}

/// Two lower-case hex digits per byte (`format!("{b:02x}")`).
pub open spec fn hex_bytes(b: Seq<u8>) -> Seq<char>
    decreases b.len(),
{
    if b.len() == 0 {
        seq![]
    } else {
        hex_bytes(b.drop_last()) + seq![hex_digit(b.last() / 16), hex_digit(b.last() % 16)]
    }
}

/// `0x` and the hex of at most the first 64 bytes, with `…` when cut.
pub open spec fn binary_preview(b: Seq<u8>) -> Seq<char> {
    let shown = if b.len() > 64 {
        b.take(64)
    } else {
        b
    };
    "0x"@ + hex_bytes(shown) + if b.len() > 64 {
        seq!['\u{2026}']
    } else {
        seq![]
    }
}

/// Kind and display text of a value.
pub open spec fn spec_cell(v: ColumnValue) -> (CellKind, Seq<char>) {
    match v {
        ColumnValue::U8(Some(n)) => (CellKind::Number, dec_int(n as int)),
        ColumnValue::I16(Some(n)) => (CellKind::Number, dec_int(n as int)),
        ColumnValue::I32(Some(n)) => (CellKind::Number, dec_int(n as int)),
        ColumnValue::I64(Some(n)) => (CellKind::Number, dec_int(n as int)),
        ColumnValue::Float(Some(s)) => (CellKind::Number, s@),
        ColumnValue::Numeric(Some(s)) => (CellKind::Number, s@),
        ColumnValue::Bit(Some(b)) => (CellKind::Bool, if b { "1"@ } else { "0"@ }),
        ColumnValue::Text(Some(s)) => (CellKind::Text, s@),
        ColumnValue::Guid(Some(s)) => (CellKind::Guid, s@),
        ColumnValue::Xml(Some(s)) => (CellKind::Text, s@),
        ColumnValue::Binary(Some(b)) => (CellKind::Binary, binary_preview(b@)),
        ColumnValue::Temporal(Some(s)) => (CellKind::DateTime, s@),
        _ => (CellKind::Null, seq![]),
    }
}

fn hex_of(d: u8) -> (r: char)
    requires
        d < 16,
    ensures
        r == hex_digit(d),
{
    if d < 10 {
        (d + 48) as char
    } else {
        (d - 10 + 97) as char
    }
}

fn binary_display(bytes: &Vec<u8>) -> (r: String)
    ensures
        r@ == binary_preview(bytes@),
{
    let n = if bytes.len() > BINARY_PREVIEW_BYTES {
        BINARY_PREVIEW_BYTES
    } else {
        bytes.len()
    };
    let mut hex: Vec<char> = Vec::new();
    let mut i: usize = 0;
    while i < n
        invariant
            i <= n <= bytes@.len(),
            hex@ == hex_bytes(bytes@.take(i as int)),
        decreases n - i,
    {
        let b = bytes[i];
        assert(bytes@.take(i + 1).drop_last() =~= bytes@.take(i as int));
        hex.push(hex_of(b / 16));
        hex.push(hex_of(b % 16));
        i += 1;
    }
    let mut out: Vec<char> = Vec::new();
    extend_str(&mut out, "0x");
    extend_chars(&mut out, hex.as_slice());
    if bytes.len() > BINARY_PREVIEW_BYTES {
        out.push('\u{2026}');
    }
    proof {
        if bytes@.len() <= 64 {
            assert(bytes@.take(n as int) =~= bytes@);
        }
    }
    assert(out@ =~= binary_preview(bytes@));
    string_of(out.as_slice())
}

fn number_cell(n: i64) -> (r: Cell)
    ensures
        r.kind == CellKind::Number,
        r.display@ == dec_int(n as int),
{
    let d = i64_dec(n);
    Cell { kind: CellKind::Number, display: string_of(d.as_slice()) }
}

fn text_cell(kind: CellKind, s: &String) -> (r: Cell)
    ensures
        r.kind == kind,
        r.display@ == s@,
{
    Cell { kind, display: owned(s.as_str()) }
}

impl Cell {
    pub fn null() -> (r: Self)
        ensures
            r.kind == CellKind::Null,
            r.display@ == Seq::<char>::empty(),
    {
        Cell { kind: CellKind::Null, display: String::new() }
    }

    pub fn from_column_data(data: &ColumnValue) -> (r: Self)
        ensures
            (r.kind, r.display@) == spec_cell(*data),
    {
        match data {
            ColumnValue::U8(Some(n)) => number_cell(*n as i64),
            ColumnValue::I16(Some(n)) => number_cell(*n as i64),
            ColumnValue::I32(Some(n)) => number_cell(*n as i64),
            ColumnValue::I64(Some(n)) => number_cell(*n),
            ColumnValue::Float(Some(s)) => text_cell(CellKind::Number, s),
            ColumnValue::Numeric(Some(s)) => text_cell(CellKind::Number, s),
            ColumnValue::Bit(Some(b)) => {
                if *b {
                    Cell { kind: CellKind::Bool, display: owned("1") }
                } else {
                    Cell { kind: CellKind::Bool, display: owned("0") }
                }
            },
            ColumnValue::Text(Some(s)) => text_cell(CellKind::Text, s),
            ColumnValue::Guid(Some(s)) => text_cell(CellKind::Guid, s),
            ColumnValue::Xml(Some(s)) => text_cell(CellKind::Text, s),
            ColumnValue::Binary(Some(b)) => Cell { kind: CellKind::Binary, display: binary_display(b) },
            ColumnValue::Temporal(Some(s)) => text_cell(CellKind::DateTime, s),
            _ => Cell::null(),
        }
    }
}

} // verus!
