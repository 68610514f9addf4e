//! Binary serialization of a row window for the grid.
//!
//! Layout (little-endian), decoded by the frontend:
//!   u32 startRow, u32 rowCount, u16 colCount
//!   then rowCount * colCount cells: u8 kind, u32 byteLen, byteLen utf8 bytes

use super::buffer::ResultSetBuffer;
use super::cell::{kind_code, spec_kind_code, Cell};
use vstd::prelude::*;
use vstd::utf8::encode_utf8;

verus! {

pub open spec fn le32(v: u32) -> Seq<u8> {
    seq![
        (v % 256) as u8,
        ((v / 256) % 256) as u8,
        ((v / 65536) % 256) as u8,
        (v / 16777216) as u8,
    ]
}

pub open spec fn le16(v: u16) -> Seq<u8> {
    seq![(v % 256) as u8, (v / 256) as u8]
}

/// Kind code, byte length and UTF-8 bytes of one cell.
pub open spec fn cell_bytes(c: Cell) -> Seq<u8> {
    let b = encode_utf8(c.display@);
    seq![spec_kind_code(c.kind)] + le32(b.len() as u32) + b
}

pub open spec fn row_bytes(row: Seq<Cell>) -> Seq<u8>
    decreases row.len(),
{
    if row.len() == 0 {
        seq![]
    } else {
        row_bytes(row.drop_last()) + cell_bytes(row.last())
    }
}

/// The rows shown at display positions `r..end`, stopping at the first
/// position that maps to no buffered row.
pub open spec fn rows_bytes(buf: &ResultSetBuffer, r: int, end: int) -> Seq<u8>
    decreases end - r,
{
    if r >= end {
        seq![]
    } else {
        match buf.spec_physical_row(r) {
            Some(p) => row_bytes(buf.rows@[p]@) + rows_bytes(buf, r + 1, end),
            None => seq![],
        }
    }
}

pub open spec fn window_end(buf: &ResultSetBuffer, start: u32, count: u32) -> int {
    let e = start + count;
    if e < buf.display_len() {
        e
    } else {
        buf.display_len() as int
    }
}

pub open spec fn spec_window(buf: &ResultSetBuffer, start: u32, count: u32) -> Seq<u8> {
    let end = window_end(buf, start, count);
    let s = if start < end {
        start as int
    } else {
        end
    };
    le32(s as u32) + le32((end - s) as u32) + le16(buf.columns@.len() as u16) + rows_bytes(
        buf,
        s,
        end,
    )
}

fn push_le32(out: &mut Vec<u8>, v: u32)
    ensures
        final(out)@ == old(out)@ + le32(v),
{
    out.push((v % 256) as u8);
    out.push(((v / 256) % 256) as u8);
    out.push(((v / 65536) % 256) as u8);
    out.push((v / 16777216) as u8);
    assert(final(out)@ =~= old(out)@ + le32(v));
}

fn push_cell(out: &mut Vec<u8>, cell: &Cell)
    ensures
        final(out)@ == old(out)@ + cell_bytes(*cell),
{
    let ghost start = out@;
    out.push(kind_code(cell.kind));
    let bytes = cell.display.as_str().as_bytes();
    push_le32(out, bytes.len() as u32);
    let mut i: usize = 0;
    let ghost mid = out@;
    while i < bytes.len()
        invariant
            i <= bytes@.len(),
            out@ == mid + bytes@.take(i as int),
        decreases bytes@.len() - i,
    {
        assert(bytes@.take(i + 1) =~= bytes@.take(i as int).push(bytes@[i as int]));
        out.push(bytes[i]);
        i += 1;
    }
    assert(bytes@.take(bytes@.len() as int) =~= bytes@);
    assert(out@ =~= start + cell_bytes(*cell));
}

pub fn serialize_window(buf: &ResultSetBuffer, start: u32, count: u32) -> (r: Vec<u8>)
    requires
        buf.wf(),
        buf.display_len() <= u32::MAX,
        start + count <= u32::MAX,
    ensures
        r@ == spec_window(buf, start, count),
{
    let display_len: u32 = match &buf.sort_perm {
        Some(p) => p.len() as u32,
        None => buf.rows.len() as u32,
    };
    let e = start + count;
    let end = if e < display_len {
        e
    } else {
        display_len
    };
    let start = if start < end {
        start
    } else {
        end
    };
    let col_count = buf.columns.len() as u16;
    let mut out: Vec<u8> = Vec::new();
    push_le32(&mut out, start);
    push_le32(&mut out, end - start);
    out.push((col_count % 256) as u8);
    out.push((col_count / 256) as u8);
    let ghost header = out@;
    assert(header =~= le32(start) + le32((end - start) as u32) + le16(col_count));
    let mut display_row = start;
    while display_row < end
        invariant
            start <= display_row <= end,
            buf.wf(),
            out@ + rows_bytes(buf, display_row as int, end as int) == header + rows_bytes(
                buf,
                start as int,
                end as int,
            ),
        decreases end - display_row,
    {
        match buf.physical_row(display_row) {
            None => {
                assert(rows_bytes(buf, display_row as int, end as int) =~= Seq::<u8>::empty());
                assert(rows_bytes(buf, end as int, end as int) =~= Seq::<u8>::empty());
                display_row = end;
            },
            Some(phys) => {
                let row = &buf.rows[phys];
                let ghost before = out@;
                let mut j: usize = 0;
                while j < row.len()
                    invariant
                        j <= row@.len(),
                        out@ == before + row_bytes(row@.take(j as int)),
                    decreases row@.len() - j,
                {
                    assert(row@.take(j + 1).drop_last() =~= row@.take(j as int));
                    push_cell(&mut out, &row[j]);
                    j += 1;
                }
                assert(row@.take(row@.len() as int) =~= row@);
                assert(out@ + rows_bytes(buf, display_row + 1, end as int) =~= before + rows_bytes(
                    buf,
                    display_row as int,
                    end as int,
                ));
                display_row += 1;
            },
        }
    }
    proof {
        assert(rows_bytes(buf, end as int, end as int) =~= Seq::<u8>::empty());
        assert(out@ =~= header + rows_bytes(buf, start as int, end as int));
    }
    out
}

} // verus!
