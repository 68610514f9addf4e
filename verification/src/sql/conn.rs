//! What a connection reports while it streams a batch's response.

use crate::bak::i32_or;
use crate::csvimport::infer::parse_i32;
use crate::error::{is_runtime_error, AppError};
use crate::results::buffer::ColMeta;
use crate::results::cell::Cell;
use crate::text::{concat, dec_int, extend_chars, extend_str, i64_dec, owned, string_of};
use vstd::prelude::*;

verus! {

/// Events yielded while streaming a batch's response.
pub enum StreamEvent {
    ResultSet(Vec<ColMeta>),
    Row(Vec<Cell>),
    /// PRINT output / RAISERROR severity <= 10 / STATS messages.
    Info { number: u32, line: u32, message: String },
    /// Server error (severity > 10). The connection survives these.
    ServerError { number: u32, class: u8, line: u32, message: String, procedure: String },
    RowsAffected(u64),
}

/// Matches SSMS/ODBC connection defaults; without these, views created
/// through Bakehouse would get different metadata than views created in SSMS.
pub const SESSION_OPTIONS: &'static str = "SET ANSI_NULLS ON;
SET ANSI_PADDING ON;
SET ANSI_WARNINGS ON;
SET ANSI_NULL_DFLT_ON ON;
SET ARITHABORT ON;
SET CONCAT_NULL_YIELDS_NULL ON;
SET QUOTED_IDENTIFIER ON;
SET IMPLICIT_TRANSACTIONS OFF;
SET TEXTSIZE 2147483647;";

/// SQL Server's port inside the container network.
pub const SQL_PORT: u16 = 1433;

/// What the driver reports when a request fails: a server error with its
/// number, message, line and severity, or any other failure as text.
pub enum DriverError {
    Server { code: u32, message: String, line: u32, class: u8 },
    Other(String),
}

/// How a failed request is reported.
pub fn sql_err(e: DriverError) -> (r: AppError)
    ensures
        match e {
            DriverError::Server { code, message, line, class } => is_runtime_error(
                r,
                "SQL error "@ + dec_int(code as int) + ": "@ + message@,
                Some("line "@ + dec_int(line as int) + ", severity "@ + dec_int(class as int)),
            ),
            DriverError::Other(t) => is_runtime_error(r, "SQL connection error: "@ + t@, None),
        },
{
    match e {
        DriverError::Server { code, message, line, class } => {
            let mut m: Vec<char> = Vec::new();
            extend_str(&mut m, "SQL error ");
            let c = i64_dec(code as i64);
            extend_chars(&mut m, c.as_slice());
            extend_str(&mut m, ": ");
            extend_str(&mut m, message.as_str());
            let mut d: Vec<char> = Vec::new();
            extend_str(&mut d, "line ");
            let l = i64_dec(line as i64);
            extend_chars(&mut d, l.as_slice());
            extend_str(&mut d, ", severity ");
            let k = i64_dec(class as i64);
            extend_chars(&mut d, k.as_slice());
            AppError::runtime(string_of(m.as_slice()), Some(string_of(d.as_slice())))
        },
        DriverError::Other(t) => AppError::runtime(concat("SQL connection error: ", t.as_str()), None),
    }
}

/// How a stream that fails part-way ends: a server error already reported
/// as an event ends it cleanly (the driver re-raises the first one at the
/// end); a new server error is reported, then ends it cleanly; anything
/// else is a lost connection.
pub enum StreamEnd {
    Clean,
    ReportThenClean(StreamEvent),
    Lost(AppError),
}

fn contains_code(v: &Vec<u32>, x: u32) -> (r: bool)
    ensures
        r == v@.contains(x),
{
    let mut i: usize = 0;
    while i < v.len()
        invariant
            i <= v@.len(),
            forall|k: int| 0 <= k < i ==> v@[k] != x,
        decreases v@.len() - i,
    {
        if v[i] == x {
            assert(v@[i as int] == x);
            return true;
        }
        i += 1;
    }
    false
}

pub fn stream_error_end(reported: &Vec<u32>, e: DriverError, procedure: String) -> (r: StreamEnd)
    ensures
        match e {
            DriverError::Server { code, message, line, class } => if reported@.contains(code) {
                r is Clean
            } else {
                r matches StreamEnd::ReportThenClean(StreamEvent::ServerError { number, class: c, line: l, message: m, procedure: p })
                    && number == code && c == class && l == line && m@ == message@ && p@ == procedure@
            },
            DriverError::Other(t) => r matches StreamEnd::Lost(x) && is_runtime_error(x, "connection lost: "@ + t@, None),
        },
{
    match e {
        DriverError::Server { code, message, line, class } => {
            if contains_code(reported, code) {
                return StreamEnd::Clean;
            }
            StreamEnd::ReportThenClean(StreamEvent::ServerError { number: code, class, line, message, procedure })
        },
        DriverError::Other(t) => StreamEnd::Lost(AppError::runtime(concat("connection lost: ", t.as_str()), None)),
    }
}

/// The error when the server cannot be reached.
pub fn unreachable_error(ip: &str, cause: &str) -> (r: AppError)
    ensures
        is_runtime_error(r, "cannot reach SQL Server at "@ + ip@ + ":1433: "@ + cause@, None),
{
    let mut v: Vec<char> = Vec::new();
    extend_str(&mut v, "cannot reach SQL Server at ");
    extend_str(&mut v, ip);
    extend_str(&mut v, ":1433: ");
    extend_str(&mut v, cause);
    AppError::runtime(string_of(v.as_slice()), None)
}

/// The error when the login is refused.
pub fn login_error(cause: &str) -> (r: AppError)
    ensures
        is_runtime_error(r, "SQL login failed: "@ + cause@, None),
{
    AppError::runtime(concat("SQL login failed: ", cause), None)
}

/// The session's server process id from `SELECT @@SPID`.
pub fn spid_of(first: Option<i16>) -> (r: Result<i16, AppError>)
    ensures
        match first {
            Some(s) => r == Ok::<i16, AppError>(s),
            None => r matches Err(e) && crate::error::is_internal_error(e, "no @@SPID returned"@),
        },
{
    match first {
        Some(s) => Ok(s),
        None => Err(AppError::Internal(owned("no @@SPID returned"))),
    }
}

/// The first cell of the first row, empty when absent.
pub open spec fn first_text(rows: Seq<Seq<Seq<char>>>, col: int) -> Seq<char> {
    if rows.len() > 0 && 0 <= col < rows[0].len() {
        rows[0][col]
    } else {
        Seq::empty()
    }
}

/// `SELECT @@TRANCOUNT`'s answer: the count, 0 when it does not parse.
pub fn trancount_of(rows: &Vec<Vec<String>>) -> (r: i32)
    ensures
        r == i32_or(first_text(crate::csvimport::inspect::table_view(rows@), 0), 0),
{
    let t = if rows.len() > 0 && rows[0].len() > 0 {
        owned(rows[0][0].as_str())
    } else {
        String::new()
    };
    proof {
        reveal_strlit("");
    }
    match parse_i32(t.as_str()) {
        Some(v) => v,
        None => 0,
    }
}

/// `SELECT @@TRANCOUNT, DB_NAME()`'s answer: the count (0 when it does not
/// parse) and the current database (empty when absent).
pub fn probe_state_of(rows: &Vec<Vec<String>>) -> (r: (i32, String))
    ensures
        r.0 == i32_or(first_text(crate::csvimport::inspect::table_view(rows@), 0), 0),
        r.1@ == first_text(crate::csvimport::inspect::table_view(rows@), 1),
{
    let db = if rows.len() > 0 && rows[0].len() > 1 {
        owned(rows[0][1].as_str())
    } else {
        String::new()
    };
    (trancount_of(rows), db)
}

} // verus!
