//! Editor-tab sessions (one dedicated connection each) and a small
//! per-instance pool of utility connections for KILL, metadata and
//! progress polling: what is kept about them and the decisions about them.
//! The connections themselves are held elsewhere.

use crate::error::{is_internal_error, AppError};
use crate::text::{chars_of, concat, dec_int, extend_chars, extend_str, i64_dec, owned, string_of};
use vstd::prelude::*;

verus! {

/// Most idle utility connections kept per instance.
pub const UTILITY_POOL_MAX: usize = 3;

/// Bookkeeping for a running execution, readable while the session is locked.
pub struct RunningExec {
    pub session_id: String,
    pub instance_id: String,
    pub ip: String,
    pub spid: i16,
}

pub struct SessionInfo {
    pub session_id: String,
    pub spid: i16,
    pub database: String,
    pub trancount: i32,
}

/// The database a new session starts in: the one asked for, else `master`.
pub fn initial_database(database: Option<&str>) -> (r: String)
    ensures
        r@ == match database {
            Some(d) => d@,
            None => "master"@,
        },
{
    match database {
        Some(d) => owned(d),
        None => owned("master"),
    }
}

/// What a new session reports about itself: a fresh id, its server
/// process id, its database and no open transaction.
pub fn new_session_info(session_id: String, spid: i16, database: Option<&str>) -> (r: SessionInfo)
    ensures
        r.session_id == session_id,
        r.spid == spid,
        r.database@ == match database {
            Some(d) => d@,
            None => "master"@,
        },
        r.trancount == 0,
{
    SessionInfo { session_id, spid, database: initial_database(database), trancount: 0 }
}

/// The error for a session id that is not open.
pub fn unknown_session(session_id: &str) -> (r: AppError)
    ensures
        is_internal_error(r, "unknown session "@ + session_id@),
{
    AppError::Internal(concat("unknown session ", session_id))
}

/// The statement that cancels a running execution: `KILL` its session.
pub fn kill_sql(spid: i16) -> (r: String)
    ensures
        r@ == "KILL "@ + dec_int(spid as int),
{
    let mut v: Vec<char> = Vec::new();
    extend_str(&mut v, "KILL ");
    let d = i64_dec(spid as i64);
    extend_chars(&mut v, d.as_slice());
    string_of(v.as_slice())
}

/// Whether a returned utility connection is kept (the pool is not full).
pub fn keep_in_pool(idle: usize) -> (r: bool)
    ensures
        r == (idle < UTILITY_POOL_MAX),
{
    idle < UTILITY_POOL_MAX
}

/// Session state after an execution: the probed transaction count and
/// database when the connection answered (an empty database name keeps the
/// current one), else no transaction — the connection is replaced.
pub fn state_after_execution(current_db: &str, probe: Option<(i32, String)>) -> (r: (i32, String))
    ensures
        match probe {
            Some((tc, db)) => r.0 == tc && r.1@ == if db@.len() == 0 { current_db@ } else { db@ },
            None => r.0 == 0 && r.1@ == current_db@,
        },
{
    match probe {
        Some((tc, db)) => {
            if chars_of(db.as_str()).len() == 0 {
                (tc, owned(current_db))
            } else {
                (tc, db)
            }
        },
        None => (0, owned(current_db)),
    }
}

/// The databases a session can switch to: online ones, system databases
/// first, then by name.
pub const DB_LIST_SQL: &'static str = "SELECT name FROM sys.databases WHERE state = 0 ORDER BY CASE WHEN database_id <= 4 THEN 0 ELSE 1 END, name";

/// The first cell of every row that has one.
pub fn first_cells(rows: &Vec<Vec<String>>) -> (r: Vec<String>)
    ensures
        r@.map_values(|c: String| c@) == crate::csvimport::inspect::table_view(rows@).filter_map(
            |row: Seq<Seq<char>>| if row.len() > 0 { Some(row[0]) } else { None },
        ),
{
    let ghost tv = crate::csvimport::inspect::table_view(rows@);
    let mut out: Vec<String> = Vec::new();
    let mut i: usize = 0;
    while i < rows.len()
        invariant
            i <= rows@.len(),
            tv == crate::csvimport::inspect::table_view(rows@),
            out@.map_values(|c: String| c@) == tv.take(i as int).filter_map(
                |row: Seq<Seq<char>>| if row.len() > 0 { Some(row[0]) } else { None },
            ),
        decreases rows@.len() - i,
    {
        assert(tv.take(i + 1).drop_last() =~= tv.take(i as int));
        assert(tv.take(i + 1).last() == rows@[i as int]@.map_values(|c: String| c@));
        let ghost before = out@.map_values(|c: String| c@);
        if rows[i].len() > 0 {
            out.push(owned(rows[i][0].as_str()));
            assert(out@.map_values(|c: String| c@) =~= before + seq![rows@[i as int]@[0]@]);
        }
        i += 1;
    }
    assert(tv.take(rows@.len() as int) =~= tv);
    out
}

/// Switching a session's database: `USE [db]`.
pub fn use_database_sql(database: &str) -> (r: String)
    ensures
        r@ == "USE "@ + crate::sql::meta::spec_quote_ident(database@),
{
    concat("USE ", crate::sql::meta::quote_ident(database).as_str())
}

} // verus!
