//! TSV clipboard text and CSV export of a result set.

use super::buffer::ResultSetBuffer;
use super::cell::{Cell, CellKind};
use crate::text::{chars_of, extend_chars, string_of};
use vstd::prelude::*;

verus! {

/// Inclusive cell rectangle in DISPLAY coordinates (sort order respected).
#[derive(Debug, Clone, Copy)]
pub struct CopyRect {
    pub row_start: u32,
    pub row_end: u32,
    pub col_start: u32,
    pub col_end: u32,
}

/// Tabs and line breaks become spaces (clipboard TSV has no quoting).
pub open spec fn clean(s: Seq<char>) -> Seq<char> {
    s.map_values(|c: char| if c == '\t' || c == '\n' || c == '\r' { ' ' } else { c })
}

/// `parts` joined with `sep` between consecutive parts.
pub open spec fn join(parts: Seq<Seq<char>>, sep: char) -> Seq<char>
    decreases parts.len(),
{
    if parts.len() == 0 {
        seq![]
    } else if parts.len() == 1 {
        parts[0]
    } else {
        join(parts.drop_last(), sep) + seq![sep] + parts.last()
    }
}

/// The indices `lo..=hi` that are below `n`.
pub open spec fn kept(n: int, lo: int, hi: int) -> Seq<int> {
    let top = if hi < n - 1 {
        hi
    } else {
        n - 1
    };
    if lo > top {
        seq![]
    } else {
        Seq::new((top - lo + 1) as nat, |i: int| lo + i)
    }
}

pub open spec fn tsv_value(c: Cell) -> Seq<char> {
    if c.kind == CellKind::Null {
        "NULL"@
    } else {
        clean(c.display@)
    }
}

pub open spec fn tsv_line(row: Seq<Cell>, lo: int, hi: int) -> Seq<char> {
    join(kept(row.len() as int, lo, hi).map_values(|c: int| tsv_value(row[c])), '\t')
}

pub open spec fn tsv_header(buf: &ResultSetBuffer, lo: int, hi: int) -> Seq<char> {
    join(
        kept(buf.columns@.len() as int, lo, hi).map_values(|c: int| clean(buf.columns@[c].name@)),
        '\t',
    )
}

/// Lines for display rows `r..=end` that exist, each ending in a newline.
pub open spec fn tsv_rows(buf: &ResultSetBuffer, r: int, end: int, lo: int, hi: int) -> Seq<char>
    decreases end + 1 - r,
{
    if r > end {
        seq![]
    } else {
        (match buf.spec_physical_row(r) {
            Some(p) => tsv_line(buf.rows@[p]@, lo, hi) + seq!['\n'],
            None => seq![],
        }) + tsv_rows(buf, r + 1, end, lo, hi)
    }
}

pub open spec fn sat_dec(n: int) -> int {
    if n > 0 {
        n - 1
    } else {
        0
    }
}

pub open spec fn min_int(a: int, b: int) -> int {
    if a < b {
        a
    } else {
        b
    }
}

/// The clipboard text for `rect` (everything when `None`): an optional
/// header line, then one tab-separated line per shown row; NULL is written
/// `NULL`. A single cell without header copies as the bare value.
pub open spec fn spec_tsv(buf: &ResultSetBuffer, rect: Option<CopyRect>, include_header: bool) -> Seq<
    char,
> {
    let dl = buf.display_len() as int;
    let cl = buf.columns@.len() as int;
    let rc = match rect {
        Some(r) => r,
        None => CopyRect {
            row_start: 0,
            row_end: sat_dec(dl) as u32,
            col_start: 0,
            col_end: sat_dec(cl) as u32,
        },
    };
    let row_end = min_int(rc.row_end as int, sat_dec(dl));
    let col_end = min_int(rc.col_end as int, sat_dec(cl));
    let head = if include_header {
        tsv_header(buf, rc.col_start as int, col_end) + seq!['\n']
    } else {
        seq![]
    };
    let out = head + tsv_rows(buf, rc.row_start as int, row_end, rc.col_start as int, col_end);
    if rc.row_start == row_end && rc.col_start == col_end && !include_header && out.len() > 0 {
        out.drop_last()
    } else {
        out
    }
}

/// Copying a single cell without the header gives its bare value: `NULL`
/// for a null, otherwise its text with tabs and line breaks as spaces, and
/// no line break after it.
pub proof fn lemma_single_cell_copy(buf: &ResultSetBuffer, r: u32, c: u32)
    requires
        buf.wf(),
        (r as int) < buf.display_len(),
        (c as int) < buf.columns@.len(),
        buf.spec_physical_row(r as int) matches Some(p) && (c as int) < buf.rows@[p]@.len(),
    ensures
        spec_tsv(buf, Some(CopyRect { row_start: r, row_end: r, col_start: c, col_end: c }), false)
            == tsv_value(buf.rows@[buf.spec_physical_row(r as int)->0]@[c as int]),
{
    let p = buf.spec_physical_row(r as int)->0;
    let row = buf.rows@[p]@;
    let ks = kept(row.len() as int, c as int, c as int);
    assert(ks =~= seq![c as int]);
    let parts = ks.map_values(|k: int| tsv_value(row[k]));
    assert(parts.len() == 1);
    assert(tsv_line(row, c as int, c as int) == tsv_value(row[c as int]));
    assert(tsv_rows(buf, r as int + 1, r as int, c as int, c as int) == Seq::<char>::empty());
    let line = tsv_line(row, c as int, c as int) + seq!['\n'];
    assert(tsv_rows(buf, r as int, r as int, c as int, c as int) =~= line);
    let out = Seq::<char>::empty() + tsv_rows(buf, r as int, r as int, c as int, c as int);
    assert(out =~= line);
    assert(line.drop_last() =~= tsv_value(row[c as int]));
}

fn clean_into(out: &mut Vec<char>, s: &String)
    ensures
        final(out)@ == old(out)@ + clean(s@),
{
    let v = chars_of(s.as_str());
    let mut i: usize = 0;
    while i < v.len()
        invariant
            i <= v@.len(),
            v@ == s@,
            out@ == old(out)@ + clean(v@.take(i as int)),
        decreases v@.len() - i,
    {
        let c = v[i];
        assert(clean(v@.take(i + 1)) =~= clean(v@.take(i as int)).push(
            if c == '\t' || c == '\n' || c == '\r' {
                ' '
            } else {
                c
            },
        ));
        if c == '\t' || c == '\n' || c == '\r' {
            out.push(' ');
        } else {
            out.push(c);
        }
        i += 1;
    }
    assert(v@.take(v@.len() as int) =~= v@);
}

fn value_into(out: &mut Vec<char>, c: &Cell)
    ensures
        final(out)@ == old(out)@ + tsv_value(*c),
{
    match c.kind {
        CellKind::Null => {
            let n = chars_of("NULL");
            extend_chars(out, n.as_slice());
        },
        _ => clean_into(out, &c.display),
    }
}

proof fn lemma_join_step(parts: Seq<Seq<char>>, i: int, sep: char)
    requires
        0 <= i < parts.len(),
    ensures
        join(parts.take(i + 1), sep) == if i == 0 {
            parts[0]
        } else {
            join(parts.take(i), sep) + seq![sep] + parts[i]
        },
{
    assert(parts.take(i + 1).drop_last() =~= parts.take(i));
}

/// Appends the cells `lo..=hi` of `row` that exist, tab-separated.
fn line_into(out: &mut Vec<char>, row: &Vec<Cell>, lo: u32, hi: u32)
    ensures
        final(out)@ == old(out)@ + tsv_line(row@, lo as int, hi as int),
{
    let ghost ks = kept(row@.len() as int, lo as int, hi as int);
    let ghost parts = ks.map_values(|c: int| tsv_value(row@[c]));
    let n = row.len();
    if n == 0 {
        assert(ks.len() == 0);
        assert(parts =~= Seq::<Seq<char>>::empty());
        return;
    }
    let top: usize = if (hi as usize) < n - 1 {
        hi as usize
    } else {
        n - 1
    };
    if (lo as usize) > top {
        assert(ks.len() == 0);
        assert(parts =~= Seq::<Seq<char>>::empty());
        return;
    }
    let mut c: usize = lo as usize;
    let ghost base = out@;
    while c <= top
        invariant
            lo <= c <= top + 1,
            top < n,
            n == row@.len(),
            ks.len() == top - lo + 1,
            forall|i: int| 0 <= i < ks.len() ==> ks[i] == lo + i,
            parts.len() == ks.len(),
            forall|i: int| 0 <= i < parts.len() ==> parts[i] == tsv_value(row@[ks[i]]),
            out@ == base + join(parts.take(c - lo), '\t'),
        decreases top + 1 - c,
    {
        let i = c - (lo as usize);
        proof {
            lemma_join_step(parts, i as int, '\t');
        }
        let ghost o0 = out@;
        if c > lo as usize {
            out.push('\t');
        }
        assert(parts[i as int] == tsv_value(row@[c as int]));
        let cell = &row[c];
        assert(*cell == row@[c as int]);
        let ghost o1 = out@;
        value_into(out, cell);
        assert(out@ == o1 + parts[i as int]);
        proof {
            if i == 0 {
                assert(parts.take(0) =~= Seq::<Seq<char>>::empty());
                assert(out@ =~= base + join(parts.take(i + 1), '\t'));
            } else {
                assert(out@ =~= base + join(parts.take(i + 1), '\t'));
            }
        }
        c += 1;
    }
    assert(parts.take(ks.len() as int) =~= parts);
}

fn header_into(out: &mut Vec<char>, buf: &ResultSetBuffer, lo: u32, hi: u32)
    ensures
        final(out)@ == old(out)@ + tsv_header(buf, lo as int, hi as int),
{
    let ghost ks = kept(buf.columns@.len() as int, lo as int, hi as int);
    let ghost parts = ks.map_values(|c: int| clean(buf.columns@[c].name@));
    let n = buf.columns.len();
    if n == 0 {
        assert(ks.len() == 0);
        assert(parts =~= Seq::<Seq<char>>::empty());
        return;
    }
    let top: usize = if (hi as usize) < n - 1 {
        hi as usize
    } else {
        n - 1
    };
    if (lo as usize) > top {
        assert(ks.len() == 0);
        assert(parts =~= Seq::<Seq<char>>::empty());
        return;
    }
    let mut c: usize = lo as usize;
    let ghost base = out@;
    while c <= top
        invariant
            lo <= c <= top + 1,
            top < n,
            n == buf.columns@.len(),
            ks.len() == top - lo + 1,
            forall|i: int| 0 <= i < ks.len() ==> ks[i] == lo + i,
            parts.len() == ks.len(),
            forall|i: int| 0 <= i < parts.len() ==> parts[i] == clean(buf.columns@[ks[i]].name@),
            out@ == base + join(parts.take(c - lo), '\t'),
        decreases top + 1 - c,
    {
        let i = c - (lo as usize);
        proof {
            lemma_join_step(parts, i as int, '\t');
        }
        if c > lo as usize {
            out.push('\t');
        }
        assert(parts[i as int] == clean(buf.columns@[c as int].name@));
        let col = &buf.columns[c];
        assert(*col == buf.columns@[c as int]);
        let ghost o1 = out@;
        clean_into(out, &col.name);
        assert(out@ == o1 + parts[i as int]);
        proof {
            if i == 0 {
                assert(parts.take(0) =~= Seq::<Seq<char>>::empty());
                assert(out@ =~= base + join(parts.take(i + 1), '\t'));
            } else {
                assert(out@ =~= base + join(parts.take(i + 1), '\t'));
            }
        }
        c += 1;
    }
    assert(parts.take(ks.len() as int) =~= parts);
}

/// TSV for the clipboard (rect = None copies everything). Tabs/newlines inside
/// values are replaced with spaces (clipboard TSV has no quoting convention).
pub fn to_tsv(buf: &ResultSetBuffer, rect: Option<CopyRect>, include_header: bool) -> (r: String)
    requires
        buf.wf(),
        buf.display_len() <= u32::MAX,
        buf.columns@.len() <= u32::MAX,
    ensures
        r@ == spec_tsv(buf, rect, include_header),
{
    let display_len: u32 = match &buf.sort_perm {
        Some(p) => p.len() as u32,
        None => buf.rows.len() as u32,
    };
    let col_len = buf.columns.len() as u32;
    let last_row = if display_len > 0 {
        display_len - 1
    } else {
        0
    };
    let last_col = if col_len > 0 {
        col_len - 1
    } else {
        0
    };
    let rc = match rect {
        Some(r) => r,
        None => CopyRect { row_start: 0, row_end: last_row, col_start: 0, col_end: last_col },
    };
    let row_end = if rc.row_end < last_row {
        rc.row_end
    } else {
        last_row
    };
    let col_end = if rc.col_end < last_col {
        rc.col_end
    } else {
        last_col
    };
    let mut out: Vec<char> = Vec::new();
    if include_header {
        header_into(&mut out, buf, rc.col_start, col_end);
        out.push('\n');
    }
    let ghost head = out@;
    let mut r: u64 = rc.row_start as u64;
    while r <= row_end as u64
        invariant
            rc.row_start <= r,
            r <= row_end as u64 + 1 || r == rc.row_start,
            buf.wf(),
            out@ + tsv_rows(buf, r as int, row_end as int, rc.col_start as int, col_end as int)
                == head + tsv_rows(
                buf,
                rc.row_start as int,
                row_end as int,
                rc.col_start as int,
                col_end as int,
            ),
        decreases row_end as u64 + 1 - r,
    {
        let ghost before = out@;
        match buf.physical_row(r as u32) {
            Some(p) => {
                line_into(&mut out, &buf.rows[p], rc.col_start, col_end);
                out.push('\n');
            },
            None => {},
        }
        assert(out@ + tsv_rows(buf, r + 1, row_end as int, rc.col_start as int, col_end as int)
            =~= before + tsv_rows(buf, r as int, row_end as int, rc.col_start as int, col_end as int));
        r += 1;
    }
    assert(tsv_rows(buf, r as int, row_end as int, rc.col_start as int, col_end as int) =~= Seq::<char>::empty());
    if rc.row_start == row_end && rc.col_start == col_end && !include_header && out.len() > 0 {
        out.pop();
    }
    string_of(out.as_slice())
}

} // verus!
