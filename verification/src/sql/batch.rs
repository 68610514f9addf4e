//! T-SQL batch splitter. `GO` is a client-side batch separator, never sent to
//! the server. It only counts when it stands alone on a line (optionally with a
//! repeat count: `GO 3`), outside string literals, comments, and brackets.

use crate::text::{lemma_dec_digits_len, dec_digits, digit_char, digit_prefix_len, digits_value, is_digit, all_ws, char_is_ws, chars_of, is_ws, ltrim, ltrim_index, string_of, trim, trim_bounds};
use vstd::prelude::*;

verus! {

/// One batch of a script, as sent to the server.
#[derive(Debug, PartialEq)]
pub struct Batch {
    pub sql: String,
    /// 1-based line number where this batch starts in the script (server
    /// error line numbers are mapped to editor lines with it).
    pub start_line: u32,
    pub repeat: u32,
}

/// Mathematical view of a batch.
pub ghost struct BatchSpec {
    pub sql: Seq<char>,
    pub start_line: nat,
    pub repeat: nat,
}

impl View for Batch {
    type V = BatchSpec;

    open spec fn view(&self) -> BatchSpec {
        BatchSpec { sql: self.sql@, start_line: self.start_line as nat, repeat: self.repeat as nat }
    }
}

/// Lexical context the splitter is in at a given point of the input.
pub ghost enum Lex {
    Normal,
    SingleQuote,
    DoubleQuote,
    Bracket,
    LineComment,
    /// Nesting depth; T-SQL block comments nest.
    BlockComment(nat),
}

pub open spec fn depth(l: Lex) -> nat {
    match l {
        Lex::BlockComment(d) => d,
        _ => 0,
    }
}

/// The lexical context after reading `s` starting in context `st`. A
/// two-character token (`''`, `]]`, `--`, `/*`, `*/`) is only recognised when
/// both characters are in `s`.
pub open spec fn scan(st: Lex, s: Seq<char>) -> Lex
    decreases s.len(),
{
    if s.len() == 0 {
        st
    } else {
        let c = s[0];
        let two = s.len() > 1;
        match st {
            Lex::Normal => {
                if c == '\'' {
                    scan(Lex::SingleQuote, s.skip(1))
                } else if c == '"' {
                    scan(Lex::DoubleQuote, s.skip(1))
                } else if c == '[' {
                    scan(Lex::Bracket, s.skip(1))
                } else if c == '-' && two && s[1] == '-' {
                    scan(Lex::LineComment, s.skip(2))
                } else if c == '/' && two && s[1] == '*' {
                    scan(Lex::BlockComment(1), s.skip(2))
                } else {
                    scan(Lex::Normal, s.skip(1))
                }
            },
            Lex::SingleQuote => {
                if c == '\'' && two && s[1] == '\'' {
                    scan(Lex::SingleQuote, s.skip(2))
                } else if c == '\'' {
                    scan(Lex::Normal, s.skip(1))
                } else {
                    scan(Lex::SingleQuote, s.skip(1))
                }
            },
            Lex::DoubleQuote => {
                if c == '"' {
                    scan(Lex::Normal, s.skip(1))
                } else {
                    scan(Lex::DoubleQuote, s.skip(1))
                }
            },
            Lex::Bracket => {
                if c == ']' && two && s[1] == ']' {
                    scan(Lex::Bracket, s.skip(2))
                } else if c == ']' {
                    scan(Lex::Normal, s.skip(1))
                } else {
                    scan(Lex::Bracket, s.skip(1))
                }
            },
            Lex::LineComment => scan(Lex::LineComment, s.skip(1)),
            Lex::BlockComment(d) => {
                if c == '*' && two && s[1] == '/' {
                    scan(
                        if d <= 1 {
                            Lex::Normal
                        } else {
                            Lex::BlockComment((d - 1) as nat)
                        },
                        s.skip(2),
                    )
                } else if c == '/' && two && s[1] == '*' {
                    scan(Lex::BlockComment(d + 1), s.skip(2))
                } else {
                    scan(Lex::BlockComment(d), s.skip(1))
                }
            },
        }
    }
}

pub open spec fn starts_with_comment(s: Seq<char>) -> bool {
    s.len() >= 2 && s[0] == '-' && s[1] == '-'
}

/// The repeat count of a separator line, or `None` when `line` is not one.
/// `GO`, `go 5`, `GO;`, `GO -- comment` are separators (any case of the two
/// letters); `GO2`, `GOTO` or a count that does not fit in `u32` are not. A
/// count of 0 counts as 1.
pub open spec fn go_repeat(line: Seq<char>) -> Option<u32> {
    let t = trim(line);
    if t.len() >= 2 && (t[0] == 'G' || t[0] == 'g') && (t[1] == 'O' || t[1] == 'o') {
        let rest = t.skip(2);
        if rest.len() > 0 && !(rest[0] == ' ' || rest[0] == '\t' || rest[0] == ';')
            && !starts_with_comment(rest) {
            None
        } else {
            let r = ltrim(rest);
            if r.len() == 0 || r == seq![';'] || starts_with_comment(r) {
                Some(1u32)
            } else {
                let k = digit_prefix_len(r);
                let tail = trim(r.skip(k as int));
                if k == 0 {
                    None
                } else if !(tail.len() == 0 || tail == seq![';'] || starts_with_comment(tail)) {
                    None
                } else if digits_value(r.take(k as int)) > u32::MAX {
                    None
                } else if digits_value(r.take(k as int)) == 0 {
                    Some(1u32)
                } else {
                    Some(digits_value(r.take(k as int)) as u32)
                }
            }
        }
    } else {
        None
    }
}

/// End (exclusive) of the line that starts at `pos`: just after the next
/// newline, or the end of the input.
pub open spec fn line_end(s: Seq<char>, pos: int) -> int
    decreases s.len() - pos,
{
    if pos >= s.len() {
        s.len() as int
    } else if s[pos] == '\n' {
        pos + 1
    } else {
        line_end(s, pos + 1)
    }
}

pub proof fn lemma_line_end(s: Seq<char>, pos: int)
    requires
        0 <= pos < s.len(),
    ensures
        pos < line_end(s, pos) <= s.len(),
        forall|k: int| pos <= k < line_end(s, pos) - 1 ==> s[k] != '\n',
        s[line_end(s, pos) - 1] == '\n' || line_end(s, pos) == s.len(),
    decreases s.len() - pos,
{
    if s[pos] != '\n' {
        if pos + 1 < s.len() {
            lemma_line_end(s, pos + 1);
        } else {
            assert(line_end(s, pos + 1) == s.len());
        }
    }
}

/// State of the splitter between two lines.
pub ghost struct SplitState {
    pub batches: Seq<BatchSpec>,
    pub current: Seq<char>,
    pub start_line: nat,
    pub line_no: nat,
    pub lex: Lex,
}

pub open spec fn initial_split_state() -> SplitState {
    SplitState { batches: seq![], current: seq![], start_line: 1, line_no: 1, lex: Lex::Normal }
}

/// Emits `current` as a batch unless it is blank.
pub open spec fn flush(bs: Seq<BatchSpec>, current: Seq<char>, start: nat, repeat: nat) -> Seq<
    BatchSpec,
> {
    if all_ws(current) {
        bs
    } else {
        bs.push(BatchSpec { sql: current, start_line: start, repeat: repeat })
    }
}

/// One line of input. A separator line is only recognised when the line is
/// entered outside any string, bracket or comment.
pub open spec fn split_step(st: SplitState, line: Seq<char>) -> SplitState {
    if st.lex == Lex::Normal && go_repeat(line) is Some {
        SplitState {
            batches: flush(
                st.batches,
                st.current,
                st.start_line,
                go_repeat(line)->0 as nat,
            ),
            current: seq![],
            start_line: st.line_no + 1,
            line_no: st.line_no + 1,
            lex: Lex::Normal,
        }
    } else {
        let lex1 = scan(st.lex, line);
        let cur = st.current + line;
        let ln = if line.len() > 0 && line.last() == '\n' {
            st.line_no + 1
        } else {
            st.line_no
        };
        SplitState {
            batches: st.batches,
            current: cur,
            // while only whitespace has been read, the batch start follows along
            start_line: if all_ws(cur) {
                ln
            } else {
                st.start_line
            },
            line_no: ln,
            // a line comment ends with its line
            lex: if lex1 == Lex::LineComment {
                Lex::Normal
            } else {
                lex1
            },
        }
    }
}

/// Runs the splitter over the lines of `s` from position `pos` on.
pub open spec fn split_from(s: Seq<char>, pos: int, st: SplitState) -> SplitState
    decreases s.len() - pos,
{
    if pos < 0 || pos >= s.len() {
        st
    } else {
        let e = line_end(s, pos);
        proof {
            lemma_line_end(s, pos);
        }
        split_from(s, e, split_step(st, s.subrange(pos, e)))
    }
}

/// The batches of a script.
pub open spec fn spec_split_batches(input: Seq<char>) -> Seq<BatchSpec> {
    let st = split_from(input, 0, initial_split_state());
    flush(st.batches, st.current, st.start_line, 1)
}

/// `x` occurs as a contiguous piece of `s`.
pub open spec fn occurs_in(x: Seq<char>, s: Seq<char>) -> bool {
    exists|i: int| 0 <= i && i + x.len() <= s.len() && #[trigger] s.subrange(i, i + x.len()) == x
}

/// What holds of the splitter's state after the lines of `s` before `pos`.
spec fn split_inv(s: Seq<char>, pos: int, st: SplitState) -> bool {
    &&& 0 <= pos <= s.len()
    &&& forall|k: int|
        0 <= k < st.batches.len() ==> {
            &&& !all_ws(#[trigger] st.batches[k].sql)
            &&& st.batches[k].repeat >= 1
            &&& st.batches[k].start_line >= 1
            &&& st.batches[k].start_line < st.start_line
            &&& occurs_in(st.batches[k].sql, s)
        }
    &&& forall|j: int, k: int|
        0 <= j < k < st.batches.len() ==> #[trigger] st.batches[j].start_line
            < #[trigger] st.batches[k].start_line
    &&& 1 <= st.start_line <= st.line_no
    &&& exists|b: int| 0 <= b <= pos && #[trigger] s.subrange(b, pos) == st.current
}

proof fn lemma_go_repeat_positive(line: Seq<char>)
    ensures
        go_repeat(line) matches Some(v) ==> v >= 1,
{
}

proof fn lemma_flush_inv(s: Seq<char>, pos: int, st: SplitState, rep: nat, next_start: nat)
    requires
        split_inv(s, pos, st),
        rep >= 1,
        next_start > st.line_no,
    ensures
        ({
            let bs = flush(st.batches, st.current, st.start_line, rep);
            &&& forall|k: int|
                0 <= k < bs.len() ==> {
                    &&& !all_ws(#[trigger] bs[k].sql)
                    &&& bs[k].repeat >= 1
                    &&& bs[k].start_line >= 1
                    &&& bs[k].start_line < next_start
                    &&& occurs_in(bs[k].sql, s)
                }
            &&& forall|j: int, k: int|
                0 <= j < k < bs.len() ==> #[trigger] bs[j].start_line < #[trigger] bs[k].start_line
        }),
{
    let b = choose|b: int| 0 <= b <= pos && #[trigger] s.subrange(b, pos) == st.current;
    if !all_ws(st.current) {
        assert(s.subrange(b, b + st.current.len()) == st.current);
        assert(occurs_in(st.current, s));
        let nb = BatchSpec { sql: st.current, start_line: st.start_line, repeat: rep };
        let bs = st.batches.push(nb);
        assert forall|k: int| 0 <= k < bs.len() implies {
            &&& !all_ws(#[trigger] bs[k].sql)
            &&& bs[k].repeat >= 1
            &&& bs[k].start_line >= 1
            &&& bs[k].start_line < next_start
            &&& occurs_in(bs[k].sql, s)
        } by {
            if k < st.batches.len() {
                assert(bs[k] == st.batches[k]);
            } else {
                assert(bs[k] == nb);
            }
        }
        assert forall|j: int, k: int| 0 <= j < k < bs.len() implies #[trigger] bs[j].start_line
            < #[trigger] bs[k].start_line by {
            assert(bs[j] == st.batches[j]);
            assert(!all_ws(st.batches[j].sql));
            if k < st.batches.len() {
                assert(bs[k] == st.batches[k]);
            } else {
                assert(bs[k] == nb);
            }
        }
    } else {
        let bs = st.batches;
        assert forall|k: int| 0 <= k < bs.len() implies bs[k].start_line < next_start by {
            assert(!all_ws(st.batches[k].sql));
        }
    }
}

#[verifier::spinoff_prover]
proof fn lemma_split_inv(s: Seq<char>, pos: int, st: SplitState)
    requires
        split_inv(s, pos, st),
    ensures
        split_inv(s, s.len() as int, split_from(s, pos, st)),
    decreases s.len() - pos,
{
    if pos < s.len() {
        lemma_line_end(s, pos);
        let e = line_end(s, pos);
        let line = s.subrange(pos, e);
        let st2 = split_step(st, line);
        lemma_go_repeat_positive(line);
        if st.lex == Lex::Normal && go_repeat(line) is Some {
            lemma_flush_inv(s, pos, st, go_repeat(line)->0 as nat, st.line_no + 1);
            assert(s.subrange(e, e) == st2.current);
        } else {
            let b = choose|b: int| 0 <= b <= pos && #[trigger] s.subrange(b, pos) == st.current;
            assert(s.subrange(b, e) =~= st.current + line);
            assert forall|k: int| 0 <= k < st2.batches.len() implies st2.batches[k].start_line
                < st2.start_line by {
                assert(!all_ws(st.batches[k].sql));
            }
        }
        assert(0 <= e <= s.len());
        assert(1 <= st2.start_line <= st2.line_no);
        assert(exists|b: int| 0 <= b <= e && #[trigger] s.subrange(b, e) == st2.current);
        assert(forall|j: int, k: int|
            0 <= j < k < st2.batches.len() ==> #[trigger] st2.batches[j].start_line
                < #[trigger] st2.batches[k].start_line);
        assert(forall|k: int|
            0 <= k < st2.batches.len() ==> {
                &&& !all_ws(#[trigger] st2.batches[k].sql)
                &&& st2.batches[k].repeat >= 1
                &&& st2.batches[k].start_line >= 1
                &&& st2.batches[k].start_line < st2.start_line
                &&& occurs_in(st2.batches[k].sql, s)
            });
        assert(split_inv(s, e, st2));
        lemma_split_inv(s, e, st2);
    } else {
        assert(split_from(s, pos, st) == st);
    }
}

/// Every batch holds something besides whitespace, runs at least once,
/// starts on a line numbered from 1, and is a verbatim piece of the input;
/// the batches start on strictly increasing lines.
pub proof fn lemma_batches_well_formed(input: Seq<char>)
    ensures
        ({
            let bs = spec_split_batches(input);
            &&& forall|k: int|
                0 <= k < bs.len() ==> {
                    &&& !all_ws(#[trigger] bs[k].sql)
                    &&& bs[k].repeat >= 1
                    &&& bs[k].start_line >= 1
                    &&& occurs_in(bs[k].sql, input)
                }
            &&& forall|j: int, k: int|
                0 <= j < k < bs.len() ==> #[trigger] bs[j].start_line < #[trigger] bs[k].start_line
        }),
{
    let init = initial_split_state();
    assert(input.subrange(0, 0) =~= init.current);
    assert(split_inv(input, 0, init));
    lemma_split_inv(input, 0, init);
    let st = split_from(input, 0, init);
    lemma_flush_inv(input, input.len() as int, st, 1, st.line_no + 1);
}

/// `i` is where a line of `s` begins or the input ends.
pub open spec fn line_boundary(s: Seq<char>, i: int) -> bool {
    i == 0 || i == s.len() || (0 < i <= s.len() && s[i - 1] == '\n')
}

/// Line breaks in `x`.
pub open spec fn newlines(x: Seq<char>) -> nat
    decreases x.len(),
{
    if x.len() == 0 {
        0
    } else {
        newlines(x.drop_last()) + if x.last() == '\n' {
            1nat
        } else {
            0nat
        }
    }
}

/// Index of the first character of `x` that is not whitespace (`x.len()`
/// when there is none).
pub open spec fn first_non_ws(x: Seq<char>) -> int
    decreases x.len(),
{
    if x.len() == 0 || !is_ws(x[0]) {
        0
    } else {
        1 + first_non_ws(x.skip(1))
    }
}

/// `bt` stands in `s` as whole lines from `b` on, and starts on the line
/// (counted from 1) that holds its first character other than whitespace.
pub open spec fn placed_at(bt: BatchSpec, s: Seq<char>, b: int) -> bool {
    &&& 0 <= b && b + bt.sql.len() <= s.len()
    &&& line_boundary(s, b)
    &&& line_boundary(s, b + bt.sql.len())
    &&& s.subrange(b, b + bt.sql.len()) == bt.sql
    &&& bt.start_line == 1 + newlines(s.take(b + first_non_ws(bt.sql)))
}

pub open spec fn placed(bt: BatchSpec, s: Seq<char>) -> bool {
    exists|b: int| #[trigger] placed_at(bt, s, b)
}

proof fn lemma_newlines_concat(a: Seq<char>, b: Seq<char>)
    ensures
        newlines(a + b) == newlines(a) + newlines(b),
    decreases b.len(),
{
    if b.len() == 0 {
        assert(a + b =~= a);
    } else {
        assert((a + b).drop_last() =~= a + b.drop_last());
        lemma_newlines_concat(a, b.drop_last());
    }
}

proof fn lemma_newlines_none(x: Seq<char>)
    requires
        forall|i: int| 0 <= i < x.len() ==> #[trigger] x[i] != '\n',
    ensures
        newlines(x) == 0,
    decreases x.len(),
{
    if x.len() > 0 {
        lemma_newlines_none(x.drop_last());
    }
}

proof fn lemma_first_non_ws(x: Seq<char>)
    ensures
        0 <= first_non_ws(x) <= x.len(),
        first_non_ws(x) < x.len() ==> !is_ws(x[first_non_ws(x)]),
        forall|i: int| 0 <= i < first_non_ws(x) ==> is_ws(#[trigger] x[i]),
        all_ws(x) <==> first_non_ws(x) == x.len(),
    decreases x.len(),
{
    if x.len() > 0 && is_ws(x[0]) {
        let t = x.skip(1);
        lemma_first_non_ws(t);
        assert forall|i: int| 0 <= i < first_non_ws(x) implies is_ws(#[trigger] x[i]) by {
            if i > 0 {
                assert(x[i] == t[i - 1]);
            }
        }
        if all_ws(x) {
            assert forall|i: int| 0 <= i < t.len() implies is_ws(#[trigger] t[i]) by {
                assert(t[i] == x[i + 1]);
            }
        }
        if all_ws(t) {
            assert forall|i: int| 0 <= i < x.len() implies is_ws(#[trigger] x[i]) by {
                if i > 0 {
                    assert(x[i] == t[i - 1]);
                }
            }
        }
    } else if x.len() > 0 {
        assert(!all_ws(x));
    }
}

proof fn lemma_first_non_ws_concat(a: Seq<char>, b: Seq<char>)
    ensures
        first_non_ws(a + b) == if all_ws(a) { a.len() + first_non_ws(b) } else { first_non_ws(a) },
    decreases a.len(),
{
    if a.len() == 0 {
        assert(a + b =~= b);
    } else {
        assert((a + b)[0] == a[0]);
        if is_ws(a[0]) {
            assert((a + b).skip(1) =~= a.skip(1) + b);
            lemma_first_non_ws_concat(a.skip(1), b);
            if all_ws(a) {
                assert forall|i: int| 0 <= i < a.skip(1).len() implies is_ws(#[trigger] a.skip(1)[i]) by {
                    assert(a.skip(1)[i] == a[i + 1]);
                }
            } else {
                let j = choose|j: int| 0 <= j < a.len() && !is_ws(#[trigger] a[j]);
                assert(a.skip(1)[j - 1] == a[j]);
                assert(!all_ws(a.skip(1)));
            }
        } else {
            assert(!all_ws(a));
        }
    }
}

pub open spec fn current_at(s: Seq<char>, pos: int, st: SplitState, b: int) -> bool {
    &&& 0 <= b <= pos
    &&& line_boundary(s, b)
    &&& s.subrange(b, pos) == st.current
    &&& !all_ws(st.current) ==> st.start_line == 1 + newlines(s.take(b + first_non_ws(st.current)))
}

spec fn start_inv(s: Seq<char>, pos: int, st: SplitState) -> bool {
    &&& 0 <= pos <= s.len()
    &&& line_boundary(s, pos)
    &&& pos < s.len() ==> st.line_no == 1 + newlines(s.take(pos))
    &&& all_ws(st.current) && pos < s.len() ==> st.start_line == st.line_no
    &&& exists|b: int| #[trigger] current_at(s, pos, st, b)
    &&& forall|k: int| 0 <= k < st.batches.len() ==> placed(#[trigger] st.batches[k], s)
}

proof fn lemma_flush_placed(s: Seq<char>, pos: int, st: SplitState, rep: nat)
    requires
        start_inv(s, pos, st),
    ensures
        forall|k: int| 0 <= k < flush(st.batches, st.current, st.start_line, rep).len()
            ==> placed(#[trigger] flush(st.batches, st.current, st.start_line, rep)[k], s),
{
    let b = choose|b: int| #[trigger] current_at(s, pos, st, b);
    let bs = flush(st.batches, st.current, st.start_line, rep);
    if !all_ws(st.current) {
        let nb = BatchSpec { sql: st.current, start_line: st.start_line, repeat: rep };
        assert(b + st.current.len() == pos);
        assert(placed_at(nb, s, b));
    }
    assert forall|k: int| 0 <= k < bs.len() implies placed(#[trigger] bs[k], s) by {
        if k < st.batches.len() {
            assert(bs[k] == st.batches[k]);
        }
    }
}

#[verifier::spinoff_prover]
#[verifier::rlimit(40)]
proof fn lemma_split_start(s: Seq<char>, pos: int, st: SplitState)
    requires
        start_inv(s, pos, st),
    ensures
        start_inv(s, s.len() as int, split_from(s, pos, st)),
    decreases s.len() - pos,
{
    if pos < s.len() {
        lemma_line_end(s, pos);
        let e = line_end(s, pos);
        let line = s.subrange(pos, e);
        let st2 = split_step(st, line);
        let b = choose|b: int| #[trigger] current_at(s, pos, st, b);
        assert(line_boundary(s, e));
        assert(s.take(e) =~= s.take(pos) + line);
        lemma_newlines_concat(s.take(pos), line);
        assert(newlines(line) == if line.last() == '\n' { 1nat } else { 0nat }) by {
            assert forall|i: int| 0 <= i < line.drop_last().len() implies #[trigger] line.drop_last()[i] != '\n' by {
                assert(line.drop_last()[i] == s[pos + i]);
            }
            lemma_newlines_none(line.drop_last());
        }
        if e < s.len() {
            assert(line.last() == '\n');
        }
        if st.lex == Lex::Normal && go_repeat(line) is Some {
            lemma_flush_placed(s, pos, st, go_repeat(line)->0 as nat);
            assert(s.subrange(e, e) =~= st2.current);
            assert(current_at(s, e, st2, e));
        } else {
            assert(s.subrange(b, e) =~= st.current + line);
            lemma_first_non_ws_concat(st.current, line);
            lemma_first_non_ws(line);
            lemma_first_non_ws(st.current);
            lemma_first_non_ws(st.current + line);
            if !all_ws(st.current + line) && all_ws(st.current) {
                let f = first_non_ws(line);
                assert(f < line.len());
                assert(b + first_non_ws(st.current + line) == pos + f);
                assert(s.take(pos + f) =~= s.take(pos) + line.take(f));
                lemma_newlines_concat(s.take(pos), line.take(f));
                assert forall|i: int| 0 <= i < line.take(f).len() implies #[trigger] line.take(f)[i] != '\n' by {
                    assert(line.take(f)[i] == s[pos + i]);
                    assert(pos + i < e - 1);
                }
                lemma_newlines_none(line.take(f));
            }
            assert(current_at(s, e, st2, b));
            assert(st2.batches == st.batches);
        }
        assert(start_inv(s, e, st2));
        lemma_split_start(s, e, st2);
    } else {
        assert(split_from(s, pos, st) == st);
    }
}

/// Every batch stands in the script as whole consecutive lines, and its
/// start line (counted from 1) is the line of its first character other
/// than whitespace.
pub proof fn lemma_batch_start_lines(input: Seq<char>)
    ensures
        forall|k: int| 0 <= k < spec_split_batches(input).len() ==> placed(#[trigger] spec_split_batches(input)[k], input),
{
    let init = initial_split_state();
    assert(input.subrange(0, 0) =~= init.current);
    assert(input.take(0) =~= Seq::<char>::empty());
    assert(current_at(input, 0, init, 0));
    assert(start_inv(input, 0, init));
    lemma_split_start(input, 0, init);
    let st = split_from(input, 0, init);
    lemma_flush_placed(input, input.len() as int, st, 1);
}

/// The characters of `x` other than whitespace, in order.
pub open spec fn non_ws(x: Seq<char>) -> Seq<char>
    decreases x.len(),
{
    if x.len() == 0 {
        seq![]
    } else {
        non_ws(x.drop_last()) + if is_ws(x.last()) {
            Seq::<char>::empty()
        } else {
            seq![x.last()]
        }
    }
}

/// The batches' texts one after another.
pub open spec fn concat_sql(bs: Seq<BatchSpec>) -> Seq<char>
    decreases bs.len(),
{
    if bs.len() == 0 {
        seq![]
    } else {
        concat_sql(bs.drop_last()) + bs.last().sql
    }
}

/// The lines of `s` from `pos` on that the splitter, in state `st`, does
/// not take as separators.
pub open spec fn body_from(s: Seq<char>, pos: int, st: SplitState) -> Seq<char>
    decreases s.len() - pos,
{
    if pos < 0 || pos >= s.len() {
        seq![]
    } else {
        let e = line_end(s, pos);
        proof {
            lemma_line_end(s, pos);
        }
        let line = s.subrange(pos, e);
        (if st.lex == Lex::Normal && go_repeat(line) is Some {
            Seq::<char>::empty()
        } else {
            line
        }) + body_from(s, e, split_step(st, line))
    }
}

/// The script without its separator lines.
pub open spec fn script_body(s: Seq<char>) -> Seq<char> {
    body_from(s, 0, initial_split_state())
}

proof fn lemma_non_ws_concat(a: Seq<char>, b: Seq<char>)
    ensures
        non_ws(a + b) == non_ws(a) + non_ws(b),
    decreases b.len(),
{
    if b.len() == 0 {
        assert(a + b =~= a);
        assert(non_ws(a) + non_ws(b) =~= non_ws(a));
    } else {
        assert((a + b).drop_last() =~= a + b.drop_last());
        lemma_non_ws_concat(a, b.drop_last());
        let t = if is_ws(b.last()) { Seq::<char>::empty() } else { seq![b.last()] };
        assert(non_ws(a) + non_ws(b.drop_last()) + t =~= non_ws(a) + (non_ws(b.drop_last()) + t));
    }
}

proof fn lemma_non_ws_blank(x: Seq<char>)
    requires
        all_ws(x),
    ensures
        non_ws(x) == Seq::<char>::empty(),
    decreases x.len(),
{
    if x.len() > 0 {
        assert(all_ws(x.drop_last())) by {
            assert forall|i: int| 0 <= i < x.drop_last().len() implies is_ws(#[trigger] x.drop_last()[i]) by {
                assert(x.drop_last()[i] == x[i]);
            }
        }
        lemma_non_ws_blank(x.drop_last());
        assert(is_ws(x[x.len() - 1]));
    }
}

proof fn lemma_flush_text(bs: Seq<BatchSpec>, current: Seq<char>, start: nat, rep: nat, rest: Seq<char>)
    ensures
        non_ws(concat_sql(flush(bs, current, start, rep)) + rest) == non_ws(concat_sql(bs) + current + rest),
{
    let f = flush(bs, current, start, rep);
    if all_ws(current) {
        lemma_non_ws_concat(concat_sql(bs) + current, rest);
        lemma_non_ws_concat(concat_sql(bs), current);
        lemma_non_ws_blank(current);
        lemma_non_ws_concat(concat_sql(bs), rest);
        assert(non_ws(concat_sql(bs)) + Seq::<char>::empty() =~= non_ws(concat_sql(bs)));
    } else {
        assert(f.drop_last() =~= bs);
        assert(concat_sql(f) == concat_sql(bs) + current);
    }
}

#[verifier::spinoff_prover]
proof fn lemma_split_text(s: Seq<char>, pos: int, st: SplitState)
    requires
        0 <= pos <= s.len(),
    ensures
        non_ws(concat_sql(split_from(s, pos, st).batches) + split_from(s, pos, st).current)
            == non_ws(concat_sql(st.batches) + st.current + body_from(s, pos, st)),
    decreases s.len() - pos,
{
    if pos < s.len() {
        lemma_line_end(s, pos);
        let e = line_end(s, pos);
        let line = s.subrange(pos, e);
        let st2 = split_step(st, line);
        lemma_split_text(s, e, st2);
        let rest = body_from(s, e, st2);
        if st.lex == Lex::Normal && go_repeat(line) is Some {
            assert(Seq::<char>::empty() + rest =~= rest);
            lemma_flush_text(st.batches, st.current, st.start_line, go_repeat(line)->0 as nat, rest);
            assert(concat_sql(st2.batches) + st2.current + rest =~= concat_sql(st2.batches) + rest);
        } else {
            assert(concat_sql(st.batches) + st.current + (line + rest) =~= concat_sql(st2.batches) + st2.current + rest);
        }
    } else {
        assert(body_from(s, pos, st) == Seq::<char>::empty());
        assert(concat_sql(st.batches) + st.current + Seq::<char>::empty() =~= concat_sql(st.batches) + st.current);
    }
}

/// Splitting loses and repeats nothing: the batches, one after another,
/// hold every character other than whitespace of the script's lines that
/// are not separators, in order, each once.
pub proof fn lemma_batches_cover_script(input: Seq<char>)
    ensures
        non_ws(concat_sql(spec_split_batches(input))) == non_ws(script_body(input)),
{
    let init = initial_split_state();
    lemma_split_text(input, 0, init);
    let st = split_from(input, 0, init);
    lemma_flush_text(st.batches, st.current, st.start_line, 1, Seq::<char>::empty());
    assert(concat_sql(spec_split_batches(input)) + Seq::<char>::empty() =~= concat_sql(spec_split_batches(input)));
    assert(concat_sql(st.batches) + st.current + Seq::<char>::empty() =~= concat_sql(st.batches) + st.current);
    assert(concat_sql(init.batches) + init.current + script_body(input) =~= script_body(input));
}

/// The batches of a script, all at once: each holds something besides
/// whitespace, runs at least once, stands in the script as whole lines and
/// starts on the line of its first character other than whitespace; they
/// start on strictly increasing lines; and together they hold every
/// character other than whitespace of the lines that are not separators,
/// in order, each once.
pub proof fn lemma_split_batches(input: Seq<char>)
    ensures
        ({
            let bs = spec_split_batches(input);
            &&& forall|k: int| 0 <= k < bs.len() ==> {
                &&& !all_ws(#[trigger] bs[k].sql)
                &&& bs[k].repeat >= 1
                &&& placed(bs[k], input)
            }
            &&& forall|j: int, k: int| 0 <= j < k < bs.len() ==> #[trigger] bs[j].start_line < #[trigger] bs[k].start_line
            &&& non_ws(concat_sql(bs)) == non_ws(script_body(input))
        }),
{
    lemma_batches_well_formed(input);
    lemma_batch_start_lines(input);
    lemma_batches_cover_script(input);
}

proof fn lemma_scan_line_comment(s: Seq<char>)
    ensures
        scan(Lex::LineComment, s) == Lex::LineComment,
    decreases s.len(),
{
    if s.len() > 0 {
        lemma_scan_line_comment(s.skip(1));
    }
}

/// `--` met in normal context comments out the rest of its line: after a
/// line that begins with `--`, whatever else it holds (quotes, brackets,
/// `/*`), the splitter is back in normal context, so a separator on the
/// next line still separates.
pub proof fn lemma_line_comment_ends_with_line(st: SplitState, x: Seq<char>)
    requires
        st.lex == Lex::Normal,
    ensures
        split_step(st, seq!['-', '-'] + x + seq!['\n']).lex == Lex::Normal,
{
    let line = seq!['-', '-'] + x + seq!['\n'];
    assert(line[0] == '-' && line[1] == '-' && line.len() > 1);
    lemma_scan_line_comment(line.skip(2));
    assert(scan(Lex::Normal, line) == scan(Lex::LineComment, line.skip(2)));
}

/// A separator line right after a comment line still ends the batch before
/// the comment: from normal context, the comment line is kept in the
/// current batch and the separator then emits it (when it holds more than
/// whitespace) and starts a new one.
pub proof fn lemma_separator_after_comment(st: SplitState, x: Seq<char>, go: Seq<char>)
    requires
        st.lex == Lex::Normal,
        go_repeat(go) is Some,
        go_repeat(seq!['-', '-'] + x + seq!['\n']) is None,
    ensures
        ({
            let after = split_step(split_step(st, seq!['-', '-'] + x + seq!['\n']), go);
            &&& after.current == Seq::<char>::empty()
            &&& after.batches == st.batches.push(BatchSpec {
                sql: st.current + (seq!['-', '-'] + x + seq!['\n']),
                start_line: split_step(st, seq!['-', '-'] + x + seq!['\n']).start_line,
                repeat: go_repeat(go)->0 as nat,
            })
        }),
{
    let line = seq!['-', '-'] + x + seq!['\n'];
    lemma_line_comment_ends_with_line(st, x);
    assert(!is_ws(line[0]));
    assert(!all_ws(st.current + line)) by {
        assert((st.current + line)[st.current.len() as int] == '-');
    }
}

/// No character of `x` is `c`.
pub open spec fn free_of(x: Seq<char>, c: char) -> bool {
    forall|i: int| 0 <= i < x.len() ==> #[trigger] x[i] != c
}

proof fn lemma_scan_inside(st: Lex, x: Seq<char>)
    requires
        st is SingleQuote ==> free_of(x, '\''),
        st is DoubleQuote ==> free_of(x, '"'),
        st is Bracket ==> free_of(x, ']'),
        st is BlockComment ==> free_of(x, '*') && free_of(x, '/'),
        st is SingleQuote || st is DoubleQuote || st is Bracket || st is BlockComment || st is LineComment,
    ensures
        scan(st, x) == st,
    decreases x.len(),
{
    if x.len() > 0 {
        let t = x.skip(1);
        assert forall|i: int| 0 <= i < t.len() implies #[trigger] t[i] == x[i + 1] by {}
        lemma_scan_inside(st, t);
    }
}

proof fn lemma_scan_close(st: Lex, x: Seq<char>, close: char, after: Lex)
    requires
        st is SingleQuote && close == '\'' || st is DoubleQuote && close == '"' || st is Bracket && close == ']',
        free_of(x, close),
        after == Lex::Normal,
    ensures
        scan(st, x + seq![close]) == after,
    decreases x.len(),
{
    let s = x + seq![close];
    if x.len() == 0 {
        assert(s =~= seq![close]);
        assert(s.skip(1) =~= Seq::<char>::empty());
        assert(scan(Lex::Normal, s.skip(1)) == Lex::Normal);
        assert(s.len() == 1 && s[0] == close);
    } else {
        assert(s[0] == x[0]);
        assert(x[0] != close);
        assert(s.skip(1) =~= x.skip(1) + seq![close]);
        assert forall|i: int| 0 <= i < x.skip(1).len() implies #[trigger] x.skip(1)[i] != close by {
            assert(x.skip(1)[i] == x[i + 1]);
        }
        lemma_scan_close(st, x.skip(1), close, after);
    }
}

/// A string, a quoted name or a bracketed name opened in normal context
/// swallows everything up to its closing character, separators included,
/// and the context is normal again after it: `'…'`, `"…"` and `[…]`.
pub proof fn lemma_quoted_runs_close(open: char, x: Seq<char>)
    requires
        open == '\'' || open == '"' || open == '[',
        free_of(x, if open == '[' { ']' } else { open }),
    ensures
        scan(Lex::Normal, seq![open] + x) == (if open == '\'' { Lex::SingleQuote } else if open == '"' { Lex::DoubleQuote } else { Lex::Bracket }),
        scan(Lex::Normal, seq![open] + x + seq![if open == '[' { ']' } else { open }]) == Lex::Normal,
{
    let inner = if open == '\'' { Lex::SingleQuote } else if open == '"' { Lex::DoubleQuote } else { Lex::Bracket };
    let close = if open == '[' { ']' } else { open };
    assert((seq![open] + x)[0] == open);
    assert((seq![open] + x).skip(1) =~= x);
    lemma_scan_inside(inner, x);
    let y = seq![open] + x + seq![close];
    assert(y[0] == open);
    assert(y.skip(1) =~= x + seq![close]);
    lemma_scan_close(inner, x, close, Lex::Normal);
}

/// A doubled quote inside a string (`''`) and a doubled `]]` inside a
/// bracketed name stand for the character and do not end it.
pub proof fn lemma_doubled_close_stays_inside(y: Seq<char>)
    ensures
        scan(Lex::SingleQuote, seq!['\'', '\''] + y) == scan(Lex::SingleQuote, y),
        scan(Lex::Bracket, seq![']', ']'] + y) == scan(Lex::Bracket, y),
{
    assert((seq!['\'', '\''] + y).skip(2) =~= y);
    assert((seq![']', ']'] + y).skip(2) =~= y);
}

/// Block comments nest: inside `/*`, another `/*` must be closed before the
/// first `*/` ends the comment.
pub proof fn lemma_block_comments_nest(x: Seq<char>, y: Seq<char>)
    requires
        free_of(x, '*') && free_of(x, '/'),
        free_of(y, '*') && free_of(y, '/'),
    ensures
        scan(Lex::Normal, seq!['/', '*'] + x + seq!['/', '*'] + y + seq!['*', '/']) == Lex::BlockComment(1),
        scan(Lex::Normal, seq!['/', '*'] + x + seq!['*', '/']) == Lex::Normal,
{
    let s1 = seq!['/', '*'] + x + seq!['/', '*'] + y + seq!['*', '/'];
    let rest = seq!['/', '*'] + y + seq!['*', '/'];
    let end = seq!['*', '/'];
    assert(s1[0] == '/' && s1[1] == '*' && s1.len() > 1);
    assert(s1.skip(2) =~= x + rest);
    assert(scan(Lex::Normal, s1) == scan(Lex::BlockComment(1), x + rest));
    lemma_scan_concat_inside(Lex::BlockComment(1), x, rest);
    assert(rest[0] == '/' && rest[1] == '*' && rest.len() > 1);
    assert(rest.skip(2) =~= y + end);
    assert(scan(Lex::BlockComment(1), rest) == scan(Lex::BlockComment(2), y + end));
    lemma_scan_concat_inside(Lex::BlockComment(2), y, end);
    assert(end[0] == '*' && end[1] == '/' && end.len() > 1);
    assert(end.skip(2) =~= Seq::<char>::empty());
    assert(scan(Lex::BlockComment(1), end.skip(2)) == Lex::BlockComment(1));
    assert(scan(Lex::BlockComment(2), end) == Lex::BlockComment(1));
    let s3 = seq!['/', '*'] + x + end;
    assert(s3[0] == '/' && s3[1] == '*' && s3.len() > 1);
    assert(s3.skip(2) =~= x + end);
    assert(scan(Lex::Normal, s3) == scan(Lex::BlockComment(1), x + end));
    lemma_scan_concat_inside(Lex::BlockComment(1), x, end);
    assert(scan(Lex::Normal, end.skip(2)) == Lex::Normal);
    assert(scan(Lex::BlockComment(1), end) == Lex::Normal);
}

proof fn lemma_scan_concat_inside(st: Lex, x: Seq<char>, rest: Seq<char>)
    requires
        st is BlockComment,
        free_of(x, '*') && free_of(x, '/'),
    ensures
        scan(st, x + rest) == scan(st, rest),
    decreases x.len(),
{
    if x.len() > 0 {
        let s = x + rest;
        assert(s[0] == x[0]);
        assert(s.skip(1) =~= x.skip(1) + rest);
        assert forall|i: int| 0 <= i < x.skip(1).len() implies #[trigger] x.skip(1)[i] != '*' && x.skip(1)[i] != '/' by {
            assert(x.skip(1)[i] == x[i + 1]);
        }
        lemma_scan_concat_inside(st, x.skip(1), rest);
    } else {
        assert(x + rest =~= rest);
    }
}

proof fn lemma_dec_digits_digits(n: nat)
    ensures
        forall|i: int| 0 <= i < dec_digits(n).len() ==> is_digit(#[trigger] dec_digits(n)[i]),
        digits_value(dec_digits(n)) == n,
    decreases n,
{
    lemma_digit_char_value(n % 10);
    if n >= 10 {
        lemma_dec_digits_digits(n / 10);
        let d = dec_digits(n);
        assert(d.drop_last() =~= dec_digits(n / 10));
        assert(d.last() == digit_char(n % 10));
        assert((n / 10) * 10 + n % 10 == n) by (nonlinear_arith);
        assert(digits_value(d) == digits_value(d.drop_last()) * 10 + ((d.last() as int) - 48) as nat);
        assert forall|i: int| 0 <= i < d.len() implies is_digit(#[trigger] d[i]) by {
            if i < d.len() - 1 {
                assert(d[i] == dec_digits(n / 10)[i]);
            }
        }
    } else {
        let d = dec_digits(n);
        assert(d.drop_last() =~= Seq::<char>::empty());
        assert(d.last() == digit_char(n));
        assert(n % 10 == n);
        assert(digits_value(d) == digits_value(d.drop_last()) * 10 + ((d.last() as int) - 48) as nat);
    }
}

proof fn lemma_digit_char_value(d: nat)
    requires
        d < 10,
    ensures
        digit_char(d) as int == d + 48,
        is_digit(digit_char(d)),
{
}

proof fn lemma_digit_prefix_all(s: Seq<char>)
    requires
        forall|i: int| 0 <= i < s.len() ==> is_digit(#[trigger] s[i]),
    ensures
        digit_prefix_len(s) == s.len(),
    decreases s.len(),
{
    if s.len() > 0 {
        let t = s.skip(1);
        assert forall|i: int| 0 <= i < t.len() implies is_digit(#[trigger] t[i]) by {
            assert(t[i] == s[i + 1]);
        }
        lemma_digit_prefix_all(t);
    }
}

/// `GO n` on its own line repeats the batch `n` times, for every count
/// that fits in `u32` (a count of 0 runs it once), with or without the
/// line break.
pub proof fn lemma_go_count(n: nat, nl: bool)
    requires
        n <= u32::MAX,
    ensures
        go_repeat(seq!['G', 'O', ' '] + dec_digits(n) + (if nl { seq!['\n'] } else { Seq::<char>::empty() }))
            == Some((if n == 0 { 1 } else { n }) as u32),
{
    let d = dec_digits(n);
    lemma_dec_digits_digits(n);
    lemma_digit_prefix_all(d);
    lemma_dec_digits_len(n);
    let tail = if nl { seq!['\n'] } else { Seq::<char>::empty() };
    let line = seq!['G', 'O', ' '] + d + tail;
    let core = seq!['G', 'O', ' '] + d;
    // trimming leaves `GO n`
    assert(!is_ws(line[0]));
    assert(crate::text::ltrim(line) == line);
    assert(!is_ws(core.last())) by {
        assert(core.last() == d.last());
        assert(is_digit(d[d.len() - 1]));
    }
    if nl {
        assert(line.drop_last() =~= core);
        assert(is_ws(line.last()));
        assert(crate::text::rtrim(core) == core);
        assert(crate::text::rtrim(line) == crate::text::rtrim(core));
    } else {
        assert(line =~= core);
        assert(crate::text::rtrim(core) == core);
    }
    assert(trim(line) == core);
    let rest = core.skip(2);
    assert(rest =~= seq![' '] + d);
    assert(rest[0] == ' ');
    let r = crate::text::ltrim(rest);
    assert(rest.skip(1) =~= d);
    assert(!is_ws(d[0])) by {
        assert(is_digit(d[0]));
    }
    assert(crate::text::ltrim(d) == d);
    assert(r == d);
    assert(r != seq![';']) by {
        assert(is_digit(d[0]));
    }
    assert(!starts_with_comment(r)) by {
        assert(is_digit(d[0]));
    }
    let k = digit_prefix_len(r);
    assert(k == d.len());
    assert(r.skip(k as int) =~= Seq::<char>::empty());
    assert(trim(Seq::<char>::empty()) =~= Seq::<char>::empty());
    assert(r.take(k as int) =~= d);
}

/// Executable counterpart of [`Lex`].
#[derive(Clone, Copy)]
enum ScanState {
    Normal,
    SingleQuote,
    DoubleQuote,
    Bracket,
    LineComment,
    BlockComment(u32),
}

impl View for ScanState {
    type V = Lex;

    closed spec fn view(&self) -> Lex {
        match *self {
            ScanState::Normal => Lex::Normal,
            ScanState::SingleQuote => Lex::SingleQuote,
            ScanState::DoubleQuote => Lex::DoubleQuote,
            ScanState::Bracket => Lex::Bracket,
            ScanState::LineComment => Lex::LineComment,
            ScanState::BlockComment(d) => Lex::BlockComment(d as nat),
        }
    }
}

proof fn lemma_scan_depth(st: Lex, s: Seq<char>)
    ensures
        depth(scan(st, s)) <= depth(st) + s.len(),
    decreases s.len(),
{
    if s.len() > 0 {
        let two = s.len() > 1;
        match st {
            Lex::Normal => {
                if s[0] == '/' && two && s[1] == '*' {
                    lemma_scan_depth(Lex::BlockComment(1), s.skip(2));
                } else if s[0] == '-' && two && s[1] == '-' {
                    lemma_scan_depth(Lex::LineComment, s.skip(2));
                } else if s[0] == '\'' {
                    lemma_scan_depth(Lex::SingleQuote, s.skip(1));
                } else if s[0] == '"' {
                    lemma_scan_depth(Lex::DoubleQuote, s.skip(1));
                } else if s[0] == '[' {
                    lemma_scan_depth(Lex::Bracket, s.skip(1));
                } else {
                    lemma_scan_depth(Lex::Normal, s.skip(1));
                }
            },
            Lex::SingleQuote => {
                if s[0] == '\'' && two && s[1] == '\'' {
                    lemma_scan_depth(st, s.skip(2));
                } else if s[0] == '\'' {
                    lemma_scan_depth(Lex::Normal, s.skip(1));
                } else {
                    lemma_scan_depth(st, s.skip(1));
                }
            },
            Lex::DoubleQuote => {
                if s[0] == '"' {
                    lemma_scan_depth(Lex::Normal, s.skip(1));
                } else {
                    lemma_scan_depth(st, s.skip(1));
                }
            },
            Lex::Bracket => {
                if s[0] == ']' && two && s[1] == ']' {
                    lemma_scan_depth(st, s.skip(2));
                } else if s[0] == ']' {
                    lemma_scan_depth(Lex::Normal, s.skip(1));
                } else {
                    lemma_scan_depth(st, s.skip(1));
                }
            },
            Lex::LineComment => {
                lemma_scan_depth(st, s.skip(1));
            },
            Lex::BlockComment(d) => {
                if s[0] == '*' && two && s[1] == '/' {
                    lemma_scan_depth(
                        if d <= 1 {
                            Lex::Normal
                        } else {
                            Lex::BlockComment((d - 1) as nat)
                        },
                        s.skip(2),
                    );
                } else if s[0] == '/' && two && s[1] == '*' {
                    lemma_scan_depth(Lex::BlockComment(d + 1), s.skip(2));
                } else {
                    lemma_scan_depth(st, s.skip(1));
                }
            },
        }
    }
}

/// Advances the lexical context over `s[lo..hi]`.
fn scan_line(s: &Vec<char>, lo: usize, hi: usize, st: ScanState) -> (r: ScanState)
    requires
        lo <= hi <= s@.len(),
        depth(st@) + (hi - lo) < u32::MAX,
    ensures
        r@ == scan(st@, s@.subrange(lo as int, hi as int)),
{
    let mut state = st;
    let mut i = lo;
    while i < hi
        invariant
            lo <= i <= hi <= s@.len(),
            depth(st@) + (hi - lo) < u32::MAX,
            depth(state@) <= depth(st@) + (i - lo),
            scan(state@, s@.subrange(i as int, hi as int)) == scan(st@, s@.subrange(lo as int, hi as int)),
        decreases hi - i,
    {
        let ghost sub = s@.subrange(i as int, hi as int);
        assert(sub.skip(1) =~= s@.subrange(i + 1, hi as int));
        assert(sub[0] == s@[i as int]);
        let c = s[i];
        let two = i + 1 < hi;
        if two {
            assert(sub.skip(2) =~= s@.subrange(i + 2, hi as int));
            assert(sub[1] == s@[i + 1]);
        }
        let mut step: usize = 1;
        match state {
            ScanState::Normal => {
                if c == '\'' {
                    state = ScanState::SingleQuote;
                } else if c == '"' {
                    state = ScanState::DoubleQuote;
                } else if c == '[' {
                    state = ScanState::Bracket;
                } else if c == '-' && two && s[i + 1] == '-' {
                    state = ScanState::LineComment;
                    step = 2;
                } else if c == '/' && two && s[i + 1] == '*' {
                    state = ScanState::BlockComment(1);
                    step = 2;
                }
            },
            ScanState::SingleQuote => {
                if c == '\'' {
                    if two && s[i + 1] == '\'' {
                        step = 2;
                    } else {
                        state = ScanState::Normal;
                    }
                }
            },
            ScanState::DoubleQuote => {
                if c == '"' {
                    state = ScanState::Normal;
                }
            },
            ScanState::Bracket => {
                if c == ']' {
                    if two && s[i + 1] == ']' {
                        step = 2;
                    } else {
                        state = ScanState::Normal;
                    }
                }
            },
            ScanState::LineComment => {},
            ScanState::BlockComment(d) => {
                if c == '*' && two && s[i + 1] == '/' {
                    state = if d <= 1 {
                        ScanState::Normal
                    } else {
                        ScanState::BlockComment(d - 1)
                    };
                    step = 2;
                } else if c == '/' && two && s[i + 1] == '*' {
                    state = ScanState::BlockComment(d + 1);
                    step = 2;
                }
            },
        }
        i = i + step;
    }
    assert(s@.subrange(hi as int, hi as int).len() == 0);
    state
}

/// The value of the digits `s[lo..hi]`, or `None` when it exceeds `u32::MAX`.
fn parse_count(s: &Vec<char>, lo: usize, hi: usize) -> (r: Option<u32>)
    requires
        lo <= hi <= s@.len(),
        forall|k: int| lo <= k < hi ==> is_digit(#[trigger] s@[k]),
    ensures
        match r {
            Some(v) => v as nat == digits_value(s@.subrange(lo as int, hi as int)),
            None => digits_value(s@.subrange(lo as int, hi as int)) > u32::MAX,
        },
{
    let mut acc: u64 = 0;
    let mut over = false;
    let mut j = lo;
    assert(s@.subrange(lo as int, lo as int) =~= Seq::<char>::empty());
    while j < hi
        invariant
            lo <= j <= hi <= s@.len(),
            forall|k: int| lo <= k < hi ==> is_digit(#[trigger] s@[k]),
            !over ==> acc as nat == digits_value(s@.subrange(lo as int, j as int)) && acc
                <= u32::MAX,
            over ==> digits_value(s@.subrange(lo as int, j as int)) > u32::MAX,
        decreases hi - j,
    {
        let ghost pre = s@.subrange(lo as int, j as int);
        assert(s@.subrange(lo as int, j + 1).drop_last() =~= pre);
        assert(s@.subrange(lo as int, j + 1).last() == s@[j as int]);
        assert(is_digit(s@[j as int]));
        let d = (s[j] as u64) - 48;
        if !over {
            let v = acc * 10 + d;
            if v > 0xffff_ffff {
                over = true;
            } else {
                acc = v;
            }
        }
        j += 1;
    }
    if over {
        None
    } else {
        Some(acc as u32)
    }
}

fn comment_at(s: &Vec<char>, lo: usize, hi: usize) -> (r: bool)
    requires
        lo <= hi <= s@.len(),
    ensures
        r == starts_with_comment(s@.subrange(lo as int, hi as int)),
{
    hi - lo >= 2 && s[lo] == '-' && s[lo + 1] == '-'
}

/// Executable form of [`go_repeat`] for the line `s[lo..hi]`.
fn parse_go_line(s: &Vec<char>, lo: usize, hi: usize) -> (r: Option<u32>)
    requires
        lo <= hi <= s@.len(),
    ensures
        r == go_repeat(s@.subrange(lo as int, hi as int)),
{
    let ghost line = s@.subrange(lo as int, hi as int);
    let (a, b) = trim_bounds(s, lo, hi);
    let ghost t = s@.subrange(a as int, b as int);
    assert(t == trim(line));
    if !(b - a >= 2 && (s[a] == 'G' || s[a] == 'g') && (s[a + 1] == 'O' || s[a + 1] == 'o')) {
        return None;
    }
    let ghost rest = t.skip(2);
    assert(rest =~= s@.subrange(a + 2, b as int));
    let p = a + 2;
    if p < b && !(s[p] == ' ' || s[p] == '\t' || s[p] == ';') && !comment_at(s, p, b) {
        return None;
    }
    let c = ltrim_index(s, p, b);
    let ghost r = s@.subrange(c as int, b as int);
    assert(r == ltrim(rest));
    if c == b || (b - c == 1 && s[c] == ';') || comment_at(s, c, b) {
        assert(c == b ==> r =~= Seq::<char>::empty());
        assert(b - c == 1 && s@[c as int] == ';' ==> r =~= seq![';']);
        return Some(1);
    }
    assert(r != seq![';']) by {
        if r == seq![';'] {
            assert(r.len() == 1 && r[0] == s@[c as int]);
        }
    }
    let mut k = c;
    while k < b && s[k] >= '0' && s[k] <= '9'
        invariant
            c <= k <= b <= s@.len(),
            forall|x: int| c <= x < k ==> is_digit(#[trigger] s@[x]),
            digit_prefix_len(r) == (k - c) + digit_prefix_len(s@.subrange(k as int, b as int)),
        decreases b - k,
    {
        assert(s@.subrange(k as int, b as int).skip(1) =~= s@.subrange(k + 1, b as int));
        k += 1;
    }
    assert(digit_prefix_len(r) == k - c);
    assert(r.skip((k - c) as int) =~= s@.subrange(k as int, b as int));
    assert(r.take((k - c) as int) =~= s@.subrange(c as int, k as int));
    if k == c {
        return None;
    }
    let (ta, tb) = trim_bounds(s, k, b);
    let ghost tail = s@.subrange(ta as int, tb as int);
    let tail_ok = ta == tb || (tb - ta == 1 && s[ta] == ';') || comment_at(s, ta, tb);
    assert(tail_ok == (tail.len() == 0 || tail == seq![';'] || starts_with_comment(tail))) by {
        if tail == seq![';'] {
            assert(tail.len() == 1);
            assert(tail[0] == ';');
            assert(tail[0] == s@[ta as int]);
        }
        if tb - ta == 1 && s@[ta as int] == ';' {
            assert(tail =~= seq![';']);
        }
    }
    if !tail_ok {
        return None;
    }
    match parse_count(s, c, k) {
        None => None,
        Some(v) => {
            if v == 0 {
                Some(1)
            } else {
                Some(v)
            }
        },
    }
}

/// Splits a script into batches at `GO` separator lines. Separators inside
/// strings, bracketed identifiers and comments do not count, blank batches
/// are dropped, and each batch records the line it starts on (leading blank
/// lines skipped) and its repeat count.
pub fn split_batches(input: &str) -> (r: Vec<Batch>)
    requires
        input@.len() < u32::MAX,
    ensures
        r@.map_values(|b: Batch| b@) == spec_split_batches(input@),
{
    let s = chars_of(input);
    let n = s.len();
    let mut batches: Vec<Batch> = Vec::new();
    let mut current: Vec<char> = Vec::new();
    let mut blank = true;
    let mut start_line: u32 = 1;
    let mut line_no: u32 = 1;
    let mut state = ScanState::Normal;
    let mut pos: usize = 0;
    assert(current@ =~= Seq::<char>::empty());
    assert(batches@.map_values(|b: Batch| b@) =~= Seq::<BatchSpec>::empty());
    while pos < n
        invariant
            n == s@.len(),
            s@ == input@,
            n < u32::MAX,
            pos <= n,
            split_from(
                s@,
                pos as int,
                SplitState {
                    batches: batches@.map_values(|b: Batch| b@),
                    current: current@,
                    start_line: start_line as nat,
                    line_no: line_no as nat,
                    lex: state@,
                },
            ) == split_from(s@, 0, initial_split_state()),
            blank == all_ws(current@),
            line_no <= pos + 1,
            start_line <= line_no,
            depth(state@) <= pos,
        decreases n - pos,
    {
        let ghost st0 = SplitState {
            batches: batches@.map_values(|b: Batch| b@),
            current: current@,
            start_line: start_line as nat,
            line_no: line_no as nat,
            lex: state@,
        };
        proof {
            lemma_line_end(s@, pos as int);
        }
        let mut e = pos;
        while e < n && s[e] != '\n'
            invariant
                pos <= e <= n,
                n == s@.len(),
                line_end(s@, pos as int) == line_end(s@, e as int),
            decreases n - e,
        {
            e += 1;
        }
        if e < n {
            e += 1;
        }
        assert(e == line_end(s@, pos as int));
        let ghost line = s@.subrange(pos as int, e as int);
        let go = match state {
            ScanState::Normal => parse_go_line(&s, pos, e),
            _ => None,
        };
        if let Some(rep) = go {
            let ghost flushed = flush(st0.batches, st0.current, st0.start_line, rep as nat);
            if !blank {
                let b = Batch { sql: string_of(current.as_slice()), start_line, repeat: rep };
                batches.push(b);
            }
            assert(batches@.map_values(|b: Batch| b@) =~= flushed);
            current = Vec::new();
            blank = true;
            line_no = line_no + 1;
            start_line = line_no;
            assert(current@ =~= Seq::<char>::empty());
        } else {
            proof {
                lemma_scan_depth(state@, line);
            }
            let ghost cur0 = current@;
            state = scan_line(&s, pos, e, state);
            if let ScanState::LineComment = state {
                state = ScanState::Normal;
            }
            let mut i = pos;
            let mut line_blank = true;
            while i < e
                invariant
                    pos <= i <= e <= n,
                    n == s@.len(),
                    current@ == cur0 + s@.subrange(pos as int, i as int),
                    line_blank == all_ws(s@.subrange(pos as int, i as int)),
                decreases e - i,
            {
                let ghost pre = s@.subrange(pos as int, i as int);
                assert(s@.subrange(pos as int, i + 1) =~= pre.push(s@[i as int]));
                assert(all_ws(pre.push(s@[i as int])) == (all_ws(pre) && is_ws(s@[i as int]))) by {
                    if all_ws(pre) && is_ws(s@[i as int]) {
                        assert forall|k: int| 0 <= k < pre.len() + 1 implies is_ws(#[trigger] pre.push(s@[i as int])[k]) by {
                            if k < pre.len() {
                                assert(pre.push(s@[i as int])[k] == pre[k]);
                            }
                        }
                    }
                    if all_ws(pre.push(s@[i as int])) {
                        assert(is_ws(pre.push(s@[i as int])[pre.len() as int]));
                        assert forall|k: int| 0 <= k < pre.len() implies is_ws(#[trigger] pre[k]) by {
                            assert(pre.push(s@[i as int])[k] == pre[k]);
                        }
                    }
                }
                line_blank = line_blank && char_is_ws(s[i]);
                current.push(s[i]);
                i += 1;
            }
            assert(all_ws(cur0 + line) == (all_ws(cur0) && all_ws(line))) by {
                if all_ws(cur0) && all_ws(line) {
                    assert forall|k: int| 0 <= k < (cur0 + line).len() implies is_ws(#[trigger] (cur0 + line)[k]) by {
                        if k >= cur0.len() {
                            assert((cur0 + line)[k] == line[k - cur0.len()]);
                        }
                    }
                }
                if all_ws(cur0 + line) {
                    assert forall|k: int| 0 <= k < cur0.len() implies is_ws(#[trigger] cur0[k]) by {
                        assert((cur0 + line)[k] == cur0[k]);
                    }
                    assert forall|k: int| 0 <= k < line.len() implies is_ws(#[trigger] line[k]) by {
                        assert((cur0 + line)[k + cur0.len()] == line[k]);
                    }
                }
            }
            blank = blank && line_blank;
            assert(line.last() == s@[e - 1]);
            if s[e - 1] == '\n' {
                line_no = line_no + 1;
            }
            if blank {
                start_line = line_no;
            }
        }
        assert(split_step(st0, line) == SplitState {
            batches: batches@.map_values(|b: Batch| b@),
            current: current@,
            start_line: start_line as nat,
            line_no: line_no as nat,
            lex: state@,
        });
        pos = e;
    }
    if !blank {
        let b = Batch { sql: string_of(current.as_slice()), start_line, repeat: 1 };
        batches.push(b);
    }
    proof {
        let st = split_from(s@, 0, initial_split_state());
        assert(batches@.map_values(|b: Batch| b@) =~= flush(st.batches, st.current, st.start_line, 1));
    }
    batches
}

} // verus!
