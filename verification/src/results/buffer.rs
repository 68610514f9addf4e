//! A buffered result set: column metadata, rows, and the client-side sort
//! order.

use super::cell::Cell;
use vstd::prelude::*;

verus! {

#[derive(Debug, Clone)]
pub struct ColMeta {
    pub name: String,
    pub sql_type: String,
}

pub struct ResultSetBuffer {
    pub columns: Vec<ColMeta>,
    pub rows: Vec<Vec<Cell>>,
    /// True when the row cap stopped buffering; the remainder was drained
    /// (counted but not stored).
    pub truncated: bool,
    /// Rows seen on the wire (>= rows.len() when truncated).
    pub total_seen: u64,
    /// Row display order after a client-side sort (indices into `rows`).
    pub sort_perm: Option<Vec<u32>>,
}

impl ResultSetBuffer {
    /// Every entry of the sort order names a buffered row.
    pub open spec fn wf(&self) -> bool {
        match self.sort_perm {
            Some(p) => forall|i: int| 0 <= i < p@.len() ==> (#[trigger] p@[i] as int) < self.rows@.len(),
            None => true,
        }
    }

    /// Number of rows in display order.
    pub open spec fn display_len(&self) -> nat {
        match self.sort_perm {
            Some(p) => p@.len(),
            None => self.rows@.len(),
        }
    }

    /// The buffered row shown at display position `display_row`.
    pub open spec fn spec_physical_row(&self, display_row: int) -> Option<int> {
        match self.sort_perm {
            Some(p) => if 0 <= display_row < p@.len() {
                Some(p@[display_row] as int)
            } else {
                None
            },
            None => if 0 <= display_row < self.rows@.len() {
                Some(display_row)
            } else {
                None
            },
        }
    }

    pub fn new(columns: Vec<ColMeta>) -> (r: Self)
        ensures
            r.columns@ == columns@,
            r.rows@.len() == 0,
            !r.truncated,
            r.total_seen == 0,
            r.sort_perm is None,
            r.wf(),
    {
        ResultSetBuffer { columns, rows: Vec::new(), truncated: false, total_seen: 0, sort_perm: None }
    }

    /// Map a display row index through the active sort permutation.
    pub fn physical_row(&self, display_row: u32) -> (r: Option<usize>)
        ensures
            match r {
                Some(i) => self.spec_physical_row(display_row as int) == Some(i as int),
                None => self.spec_physical_row(display_row as int) is None,
            },
    {
        match &self.sort_perm {
            Some(perm) => {
                if (display_row as usize) < perm.len() {
                    Some(perm[display_row as usize] as usize)
                } else {
                    None
                }
            },
            None => {
                let i = display_row as usize;
                if i < self.rows.len() {
                    Some(i)
                } else {
                    None
                }
            },
        }
    }
}

/// The sort order, if any, lists every stored row exactly once.
pub open spec fn sort_is_permutation(buf: ResultSetBuffer) -> bool {
    match buf.sort_perm {
        Some(p) => {
            &&& p@.len() == buf.rows@.len()
            &&& forall|i: int| 0 <= i < p@.len() ==> (#[trigger] p@[i] as int) < buf.rows@.len()
            &&& forall|i: int, j: int| 0 <= i < j < p@.len() ==> #[trigger] p@[i] != #[trigger] p@[j]
        },
        None => true,
    }
}

/// Some display row shows stored row `i`.
pub open spec fn displays_row(buf: ResultSetBuffer, i: int) -> bool {
    exists|d: int| 0 <= d < buf.rows@.len() && #[trigger] buf.spec_physical_row(d) == Some(i)
}

/// When the sort order is a permutation of the stored rows (or there is
/// none), display rows map one to one onto the stored rows.
pub proof fn lemma_physical_row_bijective(buf: ResultSetBuffer)
    requires
        sort_is_permutation(buf),
    ensures
        forall|d: int| (#[trigger] buf.spec_physical_row(d) is Some) <==> 0 <= d < buf.rows@.len(),
        forall|d: int| #[trigger] buf.spec_physical_row(d) matches Some(i) ==> 0 <= i < buf.rows@.len(),
        forall|d1: int, d2: int|
            (#[trigger] buf.spec_physical_row(d1)) is Some && buf.spec_physical_row(d1) == #[trigger] buf.spec_physical_row(d2) ==> d1 == d2,
        forall|i: int| 0 <= i < buf.rows@.len() ==> #[trigger] displays_row(buf, i),
{
    let n = buf.rows@.len() as int;
    match buf.sort_perm {
        None => {
            assert forall|i: int| 0 <= i < n implies #[trigger] displays_row(buf, i) by {
                assert(buf.spec_physical_row(i) == Some(i));
            }
        },
        Some(p) => {
            let q = p@.map_values(|x: u32| x as int);
            assert(q.no_duplicates()) by {
                assert forall|i: int, j: int| 0 <= i < q.len() && 0 <= j < q.len() && i != j implies q[i] != q[j] by {
                    if i < j {
                        assert(p@[i] != p@[j]);
                    } else {
                        assert(p@[j] != p@[i]);
                    }
                }
            }
            q.unique_seq_to_set();
            vstd::set_lib::lemma_int_range(0, n);
            let range = vstd::set_lib::set_int_range(0, n);
            assert(q.to_set().subset_of(range)) by {
                assert forall|x: int| q.to_set().contains(x) implies range.contains(x) by {
                    let j = choose|j: int| 0 <= j < q.len() && q[j] == x;
                    assert(p@[j] as int == x);
                }
            }
            vstd::set_lib::lemma_subset_equality(q.to_set(), range);
            assert forall|i: int| 0 <= i < n implies #[trigger] displays_row(buf, i) by {
                assert(range.contains(i));
                assert(q.to_set().contains(i));
                let j = choose|j: int| 0 <= j < q.len() && q[j] == i;
                assert(buf.spec_physical_row(j) == Some(i));
            }
            assert forall|d1: int, d2: int|
                (#[trigger] buf.spec_physical_row(d1)) is Some && buf.spec_physical_row(d1) == #[trigger] buf.spec_physical_row(d2) implies d1 == d2 by {
                if d1 != d2 {
                    if d1 < d2 {
                        assert(p@[d1] != p@[d2]);
                    } else {
                        assert(p@[d2] != p@[d1]);
                    }
                }
            }
        },
    }
}

/// Rows sent in one window at most.
pub const WINDOW_MAX_ROWS: u32 = 2000;

/// The rows asked for in one window, capped.
pub fn window_count(count: u32) -> (r: u32)
    ensures
        r == if count < WINDOW_MAX_ROWS { count } else { WINDOW_MAX_ROWS },
{
    if count < WINDOW_MAX_ROWS {
        count
    } else {
        WINDOW_MAX_ROWS
    }
}

/// A copy of the cell at a display row and column.
pub fn cell_at(buf: &ResultSetBuffer, row: u32, col: u32) -> (r: Result<Cell, crate::error::AppError>)
    requires
        buf.wf(),
    ensures
        match buf.spec_physical_row(row as int) {
            None => r matches Err(e) && crate::error::is_internal_error(e, "row out of range"@),
            Some(p) => if (col as int) < buf.rows@[p]@.len() {
                r matches Ok(c) && c.kind == buf.rows@[p]@[col as int].kind && c.display@ == buf.rows@[p]@[col as int].display@
            } else {
                r matches Err(e) && crate::error::is_internal_error(e, "col out of range"@)
            },
        },
{
    match buf.physical_row(row) {
        None => Err(crate::error::AppError::Internal(crate::text::owned("row out of range"))),
        Some(p) => {
            let r = &buf.rows[p];
            if (col as usize) < r.len() {
                let c = &r[col as usize];
                Ok(Cell { kind: c.kind, display: crate::text::owned(c.display.as_str()) })
            } else {
                Err(crate::error::AppError::Internal(crate::text::owned("col out of range")))
            }
        },
    }
}

} // verus!
