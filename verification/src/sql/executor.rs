//! The decisions of a query execution: how rows are buffered under the row
//! cap, when row-count progress is reported, how server line numbers map to
//! editor lines, and whether the execution succeeded. SSMS semantics: a
//! server error in one batch does not stop later batches; a transport error
//! (killed connection) does.

use super::batch::Batch;
use super::conn::StreamEvent;
use crate::results::buffer::ResultSetBuffer;
use crate::results::cell::Cell;
use crate::results::store::ResultStore;
use crate::text::{chars_of, dec_digits, extend_chars, extend_str, owned, string_of, u64_dec};
use vstd::prelude::*;

verus! {

pub const ROW_CAP: usize = 10_000;

/// The row cap of an execution: the default, or none at all.
pub fn row_cap_for(uncapped: bool) -> (r: usize)
    ensures
        r == if uncapped { usize::MAX } else { ROW_CAP },
{
    if uncapped {
        usize::MAX
    } else {
        ROW_CAP
    }
}

/// Rows between two progress reports of one result set.
pub const PROGRESS_EVERY: u64 = 1000;

pub struct ExecOutcome {
    pub success: bool,
}

/// Execution-wide counters.
pub struct ExecTally {
    pub any_error: bool,
    pub total_rows: u64,
}

impl ExecTally {
    pub fn new() -> (r: Self)
        ensures
            !r.any_error,
            r.total_rows == 0,
    {
        ExecTally { any_error: false, total_rows: 0 }
    }

    /// The execution succeeded when no batch reported an error and no
    /// transport error occurred.
    pub fn outcome(&self) -> (r: ExecOutcome)
        ensures
            r.success == !self.any_error,
    {
        ExecOutcome { success: !self.any_error }
    }

    /// A transport error ends the execution and marks it failed.
    pub fn transport_failed(&mut self)
        ensures
            final(self).any_error,
            final(self).total_rows == old(self).total_rows,
    {
        self.any_error = true;
    }
}

/// A row-count report for one result set.
pub struct RowsProgress {
    pub result_set_id: u64,
    pub row_count: u64,
    pub truncated: bool,
}

/// Streaming position within the current result set.
pub struct SetCursor {
    pub result_set_id: u64,
    /// Rows stored in the buffer so far.
    pub buffered: usize,
    /// Row count at the last progress report.
    pub emitted_rows: u64,
}

/// What buffering under the cap keeps true of a cursor and its buffer: the
/// buffer holds the first `min(seen, cap)` rows, it is marked truncated
/// exactly when rows were dropped, and progress is never more than a report
/// interval behind.
pub open spec fn cursor_inv(c: SetCursor, buf: ResultSetBuffer, row_cap: nat) -> bool {
    &&& buf.rows@.len() == c.buffered
    &&& c.buffered == (if buf.total_seen <= row_cap { buf.total_seen as nat } else { row_cap })
    &&& buf.truncated <==> buf.total_seen > row_cap
    &&& c.emitted_rows <= buf.total_seen
    &&& buf.total_seen - c.emitted_rows < PROGRESS_EVERY
}

impl SetCursor {
    /// A cursor over a freshly created result-set buffer.
    pub fn new(result_set_id: u64) -> (r: Self)
        ensures
            r.result_set_id == result_set_id,
            r.buffered == 0,
            r.emitted_rows == 0,
    {
        SetCursor { result_set_id, buffered: 0, emitted_rows: 0 }
    }

    /// Takes one streamed row: counts it, stores it while under the cap
    /// (past the cap the buffer is marked truncated and the row dropped),
    /// and reports progress every `PROGRESS_EVERY` rows.
    pub fn accept_row(
        &mut self,
        buf: &mut ResultSetBuffer,
        tally: &mut ExecTally,
        cells: Vec<Cell>,
        row_cap: usize,
    ) -> (r: Option<RowsProgress>)
        requires
            old(buf).total_seen < u64::MAX,
            old(tally).total_rows < u64::MAX,
            cursor_inv(*old(self), *old(buf), row_cap as nat),
        ensures
            cursor_inv(*final(self), *final(buf), row_cap as nat),
            final(buf).total_seen == old(buf).total_seen + 1,
            final(tally).total_rows == old(tally).total_rows + 1,
            final(tally).any_error == old(tally).any_error,
            final(self).result_set_id == old(self).result_set_id,
            final(buf).columns == old(buf).columns,
            final(buf).sort_perm == old(buf).sort_perm,
            old(self).buffered < row_cap ==> final(buf).rows@ == old(buf).rows@.push(cells),
            old(self).buffered >= row_cap ==> final(buf).rows@ == old(buf).rows@,
            match r {
                Some(p) => final(buf).total_seen - old(self).emitted_rows >= PROGRESS_EVERY
                    && p.result_set_id == old(self).result_set_id && p.row_count == final(buf).total_seen
                    && p.truncated == final(buf).truncated && final(self).emitted_rows == final(buf).total_seen,
                None => final(buf).total_seen - old(self).emitted_rows < PROGRESS_EVERY
                    && final(self).emitted_rows == old(self).emitted_rows,
            },
    {
        buf.total_seen = buf.total_seen + 1;
        tally.total_rows = tally.total_rows + 1;
        if self.buffered < row_cap {
            buf.rows.push(cells);
            self.buffered = self.buffered + 1;
        } else {
            buf.truncated = true;
        }
        if buf.total_seen - self.emitted_rows >= PROGRESS_EVERY {
            self.emitted_rows = buf.total_seen;
            Some(RowsProgress { result_set_id: self.result_set_id, row_count: buf.total_seen, truncated: buf.truncated })
        } else {
            None
        }
    }

    /// The closing report of a result set.
    pub fn final_progress(&self, buf: &ResultSetBuffer) -> (r: RowsProgress)
        ensures
            r.result_set_id == self.result_set_id,
            r.row_count == buf.total_seen,
            r.truncated == buf.truncated,
    {
        RowsProgress { result_set_id: self.result_set_id, row_count: buf.total_seen, truncated: buf.truncated }
    }
}

/// A fresh buffer and a fresh cursor satisfy the buffering invariant.
pub proof fn lemma_fresh_cursor(c: SetCursor, buf: ResultSetBuffer, row_cap: nat)
    requires
        c.buffered == 0,
        c.emitted_rows == 0,
        buf.rows@.len() == 0,
        !buf.truncated,
        buf.total_seen == 0,
    ensures
        cursor_inv(c, buf, row_cap),
{
}

/// However many rows stream in, a result set never buffers more than the
/// cap, and it is marked truncated exactly when it saw more rows than that.
pub proof fn lemma_row_cap_respected(c: SetCursor, buf: ResultSetBuffer, row_cap: nat)
    requires
        cursor_inv(c, buf, row_cap),
    ensures
        buf.rows@.len() <= row_cap,
        buf.rows@.len() <= buf.total_seen,
        buf.truncated <==> buf.rows@.len() < buf.total_seen,
{
}

/// The kind of a message shown in the messages pane.
#[derive(Clone, Copy, PartialEq, Eq, Structural)]
pub enum MessageKind {
    Info,
    Error,
    RowCount,
}

/// A message for the messages pane.
pub struct QueryMessage {
    pub kind: MessageKind,
    pub number: Option<u32>,
    pub severity: Option<u8>,
    pub line: Option<u32>,
    pub procedure: Option<String>,
    pub text: String,
}

/// Editor line of a message the server reports at `line` of a batch that
/// starts at editor line `start_line`; lines inside a procedure stay
/// procedure-relative.
pub open spec fn spec_editor_line(line: u32, start_line: u32, in_procedure: bool) -> int {
    if in_procedure {
        line as int
    } else if start_line == 0 {
        line as int
    } else {
        line + start_line - 1
    }
}

pub fn editor_line(line: u32, start_line: u32, in_procedure: bool) -> (r: u32)
    requires
        spec_editor_line(line, start_line, in_procedure) <= u32::MAX,
    ensures
        r == spec_editor_line(line, start_line, in_procedure),
{
    if in_procedure {
        line
    } else {
        let base: u32 = if start_line == 0 {
            0
        } else {
            start_line - 1
        };
        line + base
    }
}

/// `(n row affected)` / `(n rows affected)`.
pub open spec fn spec_rows_affected_text(n: u64) -> Seq<char> {
    "("@ + dec_digits(n as nat) + (if n == 1 { " row affected)"@ } else { " rows affected)"@ })
}

pub fn rows_affected_text(n: u64) -> (r: String)
    ensures
        r@ == spec_rows_affected_text(n),
{
    let mut v: Vec<char> = Vec::new();
    extend_str(&mut v, "(");
    let d = u64_dec(n);
    extend_chars(&mut v, d.as_slice());
    if n == 1 {
        extend_str(&mut v, " row affected)");
    } else {
        extend_str(&mut v, " rows affected)");
    }
    string_of(v.as_slice())
}

/// `m` is the messages-pane entry for `event` in a batch starting at
/// `start_line`.
pub open spec fn is_message_for(m: QueryMessage, event: StreamEvent, start_line: u32) -> bool {
    match event {
        StreamEvent::Info { number, line, message } => {
            &&& m.kind == MessageKind::Info
            &&& m.number == Some(number)
            &&& m.severity is None
            &&& m.procedure is None
            &&& m.line == Some(spec_editor_line(line, start_line, false) as u32)
            &&& m.text@ == message@
        },
        StreamEvent::ServerError { number, class, line, message, procedure } => {
            &&& m.kind == MessageKind::Error
            &&& m.number == Some(number)
            &&& m.severity == Some(class)
            &&& m.procedure matches Some(p)
            &&& p@ == procedure@
            &&& m.line == Some(spec_editor_line(line, start_line, procedure@.len() > 0) as u32)
            &&& m.text@ == message@
        },
        StreamEvent::RowsAffected(n) => {
            &&& m.kind == MessageKind::RowCount
            &&& m.number is None
            &&& m.severity is None
            &&& m.line is None
            &&& m.procedure is None
            &&& m.text@ == spec_rows_affected_text(n)
        },
        _ => false,
    }
}

/// The editor line of a message event fits in a `u32`.
pub open spec fn message_line_fits(event: StreamEvent, start_line: u32) -> bool {
    match event {
        StreamEvent::Info { line, .. } => spec_editor_line(line, start_line, false) <= u32::MAX,
        StreamEvent::ServerError { line, procedure, .. } => spec_editor_line(line, start_line, procedure@.len() > 0)
            <= u32::MAX,
        _ => true,
    }
}

/// The messages-pane entry for a non-row event of a batch starting at
/// `start_line`; a server error marks the execution failed. Result-set and
/// row events give no message.
pub fn message_for(event: &StreamEvent, start_line: u32, tally: &mut ExecTally) -> (r: Option<QueryMessage>)
    requires
        message_line_fits(*event, start_line),
    ensures
        final(tally).total_rows == old(tally).total_rows,
        final(tally).any_error == (old(tally).any_error || *event is ServerError),
        match *event {
            StreamEvent::ResultSet(_) | StreamEvent::Row(_) => r is None,
            _ => r matches Some(m) && is_message_for(m, *event, start_line),
        },
{
    match event {
        StreamEvent::Info { number, line, message } => Some(
            QueryMessage {
                kind: MessageKind::Info,
                number: Some(*number),
                severity: None,
                line: Some(editor_line(*line, start_line, false)),
                procedure: None,
                text: owned(message.as_str()),
            },
        ),
        StreamEvent::ServerError { number, class, line, message, procedure } => {
            tally.any_error = true;
            let in_proc = chars_of(procedure.as_str()).len() > 0;
            Some(
                QueryMessage {
                    kind: MessageKind::Error,
                    number: Some(*number),
                    severity: Some(*class),
                    line: Some(editor_line(*line, start_line, in_proc)),
                    procedure: Some(owned(procedure.as_str())),
                    text: owned(message.as_str()),
                },
            )
        },
        StreamEvent::RowsAffected(n) => Some(
            QueryMessage {
                kind: MessageKind::RowCount,
                number: None,
                severity: None,
                line: None,
                procedure: None,
                text: rows_affected_text(*n),
            },
        ),
        _ => None,
    }
}


/// What the frontend is told while a batch streams.
pub enum Notice {
    /// A new result set, held in the store under this id.
    ResultSet(u64),
    Rows(RowsProgress),
    Message(QueryMessage),
}

/// The streaming state of one run of a batch: where its rows go.
pub struct BatchRun {
    pub start_line: u32,
    pub row_cap: usize,
    /// The result set rows currently go to.
    pub current: Option<SetCursor>,
}

/// The run's current result set is held, and its buffer is as buffering
/// under the cap leaves it.
pub open spec fn run_inv(run: BatchRun, store: ResultStore) -> bool {
    match run.current {
        Some(c) => store.spec_held().contains_key(c.result_set_id) && cursor_inv(
            c,
            store.spec_held()[c.result_set_id],
            run.row_cap as nat,
        ),
        None => true,
    }
}

/// An event can be taken without a counter or a line number overflowing.
pub open spec fn event_fits(run: BatchRun, store: ResultStore, tally: ExecTally, event: StreamEvent) -> bool {
    match event {
        StreamEvent::ResultSet(_) => store.spec_next_id() < u64::MAX,
        StreamEvent::Row(_) => tally.total_rows < u64::MAX && match run.current {
            Some(c) => store.spec_held()[c.result_set_id].total_seen < u64::MAX,
            None => true,
        },
        _ => message_line_fits(event, run.start_line),
    }
}

/// The closing row-count report of the current result set, if any.
pub open spec fn closing_notice(run: BatchRun, store: ResultStore) -> Seq<Notice> {
    match run.current {
        Some(c) => seq![
            Notice::Rows(
                RowsProgress {
                    result_set_id: c.result_set_id,
                    row_count: store.spec_held()[c.result_set_id].total_seen,
                    truncated: store.spec_held()[c.result_set_id].truncated,
                },
            ),
        ],
        None => seq![],
    }
}

impl BatchRun {
    /// A run of a batch starting at `start_line`, before any result set.
    pub fn new(start_line: u32, row_cap: usize) -> (r: Self)
        ensures
            r.start_line == start_line,
            r.row_cap == row_cap,
            r.current is None,
    {
        BatchRun { start_line, row_cap, current: None }
    }

    /// The closing report of the current result set, when the batch ends.
    pub fn finish(&self, store: &ResultStore) -> (r: Option<RowsProgress>)
        requires
            store.wf(),
            run_inv(*self, *store),
        ensures
            closing_notice(*self, *store) == match r {
                Some(p) => seq![Notice::Rows(p)],
                None => Seq::<Notice>::empty(),
            },
    {
        match &self.current {
            Some(c) => {
                let b = match store.get(c.result_set_id) {
                    Ok(b) => b,
                    Err(_) => {
                        proof {
                            assert(false);
                        }
                        return None;
                    },
                };
                Some(c.final_progress(b))
            },
            None => None,
        }
    }

    /// Takes one streamed event: a result set closes the current one and
    /// starts a fresh buffer in the store; a row goes to the current result
    /// set under the cap; any other event becomes a message.
    pub fn on_event(&mut self, store: &mut ResultStore, tally: &mut ExecTally, execution_id: &str, event: StreamEvent) -> (r: Vec<Notice>)
        requires
            old(store).wf(),
            run_inv(*old(self), *old(store)),
            event_fits(*old(self), *old(store), *old(tally), event),
        ensures
            final(store).wf(),
            run_inv(*final(self), *final(store)),
            final(self).start_line == old(self).start_line,
            final(self).row_cap == old(self).row_cap,
            final(tally).any_error == (old(tally).any_error || event is ServerError),
            !(event is ResultSet) ==> forall|e: Seq<char>| #[trigger] final(store).spec_execution(e) == old(store).spec_execution(e),
            final(tally).total_rows == old(tally).total_rows + if event is Row && old(self).current is Some {
                1int
            } else {
                0int
            },
            match event {
                StreamEvent::ResultSet(cols) => {
                    let id = old(store).spec_next_id();
                    let b = final(store).spec_held()[id];
                    &&& !old(store).spec_live().contains(id)
                    &&& final(store).spec_held() == old(store).spec_held().insert(id, b)
                    &&& b.columns@ == cols@ && b.rows@.len() == 0 && !b.truncated && b.total_seen == 0 && b.sort_perm is None
                    &&& final(self).current == Some(SetCursor { result_set_id: id, buffered: 0, emitted_rows: 0 })
                    &&& final(store).spec_execution(execution_id@) == old(store).spec_execution(execution_id@).push(id)
                    &&& forall|e: Seq<char>| e != execution_id@ ==> #[trigger] final(store).spec_execution(e)
                        == old(store).spec_execution(e)
                    &&& r@ == closing_notice(*old(self), *old(store)).push(Notice::ResultSet(id))
                },
                StreamEvent::Row(cells) => match old(self).current {
                    Some(c) => {
                        let id = c.result_set_id;
                        let b = old(store).spec_held()[id];
                        let b2 = final(store).spec_held()[id];
                        &&& final(store).spec_held() == old(store).spec_held().insert(id, b2)
                        &&& b2.total_seen == b.total_seen + 1
                        &&& b2.rows@ == if c.buffered < old(self).row_cap { b.rows@.push(cells) } else { b.rows@ }
                        &&& b2.columns == b.columns && b2.sort_perm == b.sort_perm
                        &&& final(self).current matches Some(c2) && c2.result_set_id == id
                        &&& r@ == if b2.total_seen - c.emitted_rows >= PROGRESS_EVERY {
                            seq![Notice::Rows(RowsProgress { result_set_id: id, row_count: b2.total_seen, truncated: b2.truncated })]
                        } else {
                            Seq::<Notice>::empty()
                        }
                    },
                    None => final(store).spec_held() == old(store).spec_held() && final(self).current is None && r@.len() == 0,
                },
                _ => {
                    &&& final(store).spec_held() == old(store).spec_held()
                    &&& final(self).current == old(self).current
                    &&& r@.len() == 1
                    &&& r@[0] matches Notice::Message(m) && is_message_for(m, event, old(self).start_line)
                },
            },
    {
        match event {
            StreamEvent::ResultSet(cols) => {
                let mut out: Vec<Notice> = Vec::new();
                match self.finish(store) {
                    Some(p) => out.push(Notice::Rows(p)),
                    None => {},
                }
                let ghost closing = out@;
                let id = store.insert(execution_id, ResultSetBuffer::new(cols));
                self.current = Some(SetCursor::new(id));
                out.push(Notice::ResultSet(id));
                proof {
                    assert(out@ =~= closing.push(Notice::ResultSet(id)));
                    lemma_fresh_cursor(SetCursor { result_set_id: id, buffered: 0, emitted_rows: 0 }, store.spec_held()[id], self.row_cap as nat);
                }
                out
            },
            StreamEvent::Row(cells) => {
                let mut out: Vec<Notice> = Vec::new();
                let cur = self.current.take();
                match cur {
                    Some(mut c) => {
                        let buf = store.get_mut(c.result_set_id);
                        match c.accept_row(buf, tally, cells, self.row_cap) {
                            Some(p) => out.push(Notice::Rows(p)),
                            None => {},
                        }
                        self.current = Some(c);
                    },
                    None => {},
                }
                out
            },
            other => {
                let mut out: Vec<Notice> = Vec::new();
                match message_for(&other, self.start_line, tally) {
                    Some(m) => out.push(Notice::Message(m)),
                    None => {},
                }
                out
            },
        }
    }
}


/// Where a script's run stands: batch `batch` (an index into the split
/// script) is running for the `done`-th time, counted from zero.
#[derive(Clone, Copy, Debug, PartialEq, Eq)]
pub struct RunPos {
    pub batch: usize,
    pub done: u32,
}

pub open spec fn batch_repeats(bs: Seq<Batch>) -> Seq<u32> {
    bs.map_values(|b: Batch| b.repeat)
}

/// The first batch from `i` on that runs at least once (`reps.len()` when
/// there is none).
pub open spec fn next_from(reps: Seq<u32>, i: int) -> int
    decreases reps.len() - i,
{
    if i >= reps.len() {
        reps.len() as int
    } else if reps[i] > 0 {
        i
    } else {
        next_from(reps, i + 1)
    }
}

pub open spec fn start_at(reps: Seq<u32>, j: int) -> Option<RunPos> {
    if 0 <= j < reps.len() {
        Some(RunPos { batch: j as usize, done: 0 })
    } else {
        None
    }
}

/// The execution after `after` (the first one when `None`): the same batch
/// again until it has run `repeat` times, then the next batch; `None` once
/// every batch has run.
pub open spec fn spec_next_execution(reps: Seq<u32>, after: Option<RunPos>) -> Option<RunPos> {
    match after {
        None => start_at(reps, next_from(reps, 0)),
        Some(p) => if p.done + 1 < reps[p.batch as int] {
            Some(RunPos { batch: p.batch, done: (p.done + 1) as u32 })
        } else {
            start_at(reps, next_from(reps, p.batch + 1))
        },
    }
}

pub open spec fn valid_pos(reps: Seq<u32>, p: RunPos) -> bool {
    p.batch < reps.len() && p.done < reps[p.batch as int]
}

/// The next execution of a script's batches; see [`spec_next_execution`].
/// A transport error ends the run before this is asked again.
pub fn next_execution(batches: &Vec<Batch>, after: Option<RunPos>) -> (r: Option<RunPos>)
    requires
        after matches Some(p) ==> valid_pos(batch_repeats(batches@), p),
    ensures
        r == spec_next_execution(batch_repeats(batches@), after),
{
    let ghost reps = batch_repeats(batches@);
    let blen = batches.len();
    let mut j: usize = match after {
        None => 0,
        Some(p) => {
            assert(reps.len() == batches@.len());
            assert(valid_pos(reps, p));
            assert(p.batch < blen);
            if p.done + 1 < batches[p.batch].repeat {
                return Some(RunPos { batch: p.batch, done: p.done + 1 });
            }
            p.batch + 1
        },
    };
    assert(next_from(reps, 0) == next_from(reps, j as int) || after is Some);
    while j < batches.len() && batches[j].repeat == 0
        invariant
            j <= batches@.len(),
            reps == batch_repeats(batches@),
            after matches Some(p) ==> next_from(reps, p.batch + 1) == next_from(reps, j as int),
            after is None ==> next_from(reps, 0) == next_from(reps, j as int),
        decreases batches@.len() - j,
    {
        j += 1;
    }
    if j < batches.len() {
        Some(RunPos { batch: j, done: 0 })
    } else {
        None
    }
}

/// How many executions the batches before `reps.len()` make in all.
pub open spec fn total_runs(reps: Seq<u32>) -> nat
    decreases reps.len(),
{
    if reps.len() == 0 {
        0
    } else {
        total_runs(reps.drop_last()) + reps.last() as nat
    }
}

/// How many executions come before `p` in the run.
pub open spec fn run_rank(reps: Seq<u32>, p: RunPos) -> nat {
    total_runs(reps.take(p.batch as int)) + p.done as nat
}

proof fn lemma_total_take_step(reps: Seq<u32>, m: int)
    requires
        0 <= m < reps.len(),
    ensures
        total_runs(reps.take(m + 1)) == total_runs(reps.take(m)) + reps[m] as nat,
{
    assert(reps.take(m + 1).drop_last() =~= reps.take(m));
}

proof fn lemma_next_from(reps: Seq<u32>, i: int)
    requires
        0 <= i <= reps.len(),
    ensures
        i <= next_from(reps, i) <= reps.len(),
        next_from(reps, i) < reps.len() ==> reps[next_from(reps, i)] > 0,
        total_runs(reps.take(next_from(reps, i))) == total_runs(reps.take(i)),
    decreases reps.len() - i,
{
    if i < reps.len() && reps[i] == 0 {
        lemma_next_from(reps, i + 1);
        lemma_total_take_step(reps, i);
    }
}

/// Run in order, the executions of a script count up one by one: every
/// batch runs exactly `repeat` times, batch after batch, and the run ends
/// after all of them.
pub proof fn lemma_executions_count_up(reps: Seq<u32>, after: Option<RunPos>)
    requires
        reps.len() <= usize::MAX,
        after matches Some(p) ==> valid_pos(reps, p),
    ensures
        ({
            let n = match after {
                Some(p) => run_rank(reps, p) + 1,
                None => 0,
            };
            &&& spec_next_execution(reps, after) matches Some(q) ==> valid_pos(reps, q) && run_rank(reps, q) == n
            &&& spec_next_execution(reps, after) is None ==> n == total_runs(reps)
        }),
{
    assert(reps.take(reps.len() as int) =~= reps);
    match after {
        None => {
            assert(reps.take(0) =~= Seq::<u32>::empty());
            lemma_next_from(reps, 0);
        },
        Some(p) => {
            let b = p.batch as int;
            if p.done + 1 >= reps[b] {
                lemma_total_take_step(reps, b);
                lemma_next_from(reps, b + 1);
            }
        },
    }
}

} // verus!
