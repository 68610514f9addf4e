//! Query history and autosaved editor buffers: what is kept and how the
//! history is searched. The database itself is reached elsewhere.

use crate::text::concat3;
use vstd::prelude::*;

verus! {

pub struct HistoryEntry {
    pub id: i64,
    pub instance_id: String,
    pub database: String,
    pub sql: String,
    pub success: bool,
    pub elapsed_ms: u64,
    pub ran_at: String,
}

pub struct SavedBuffer {
    pub tab_id: String,
    pub title: String,
    pub instance_id: Option<String>,
    pub database: Option<String>,
    pub contents: String,
    pub file_path: Option<String>,
}

/// Entries listed when no limit is asked for.
pub const DEFAULT_LIMIT: u32 = 100;

/// The schema of the history database.
pub const SCHEMA_SQL: &'static str = "CREATE TABLE IF NOT EXISTS query_history (
                id INTEGER PRIMARY KEY,
                instance_id TEXT NOT NULL,
                database_name TEXT NOT NULL,
                sql TEXT NOT NULL,
                success INTEGER NOT NULL,
                elapsed_ms INTEGER NOT NULL,
                ran_at TEXT NOT NULL DEFAULT (datetime('now'))
            );
            CREATE INDEX IF NOT EXISTS idx_history_ran_at ON query_history(ran_at DESC);
            CREATE TABLE IF NOT EXISTS autosaved_buffers (
                tab_id TEXT PRIMARY KEY,
                title TEXT NOT NULL,
                instance_id TEXT,
                database_name TEXT,
                contents TEXT NOT NULL,
                file_path TEXT,
                updated_at TEXT NOT NULL DEFAULT (datetime('now'))
            );";

pub const INSERT_SQL: &'static str = "INSERT INTO query_history (instance_id, database_name, sql, success, elapsed_ms)
             VALUES (?1, ?2, ?3, ?4, ?5)";

/// Newest first, filtered by a `LIKE` pattern, paged.
pub const LIST_SQL: &'static str = "SELECT id, instance_id, database_name, sql, success, elapsed_ms, ran_at
                 FROM query_history WHERE sql LIKE ?1
                 ORDER BY id DESC LIMIT ?2 OFFSET ?3";

pub const SAVE_BUFFER_SQL: &'static str = "INSERT INTO autosaved_buffers (tab_id, title, instance_id, database_name, contents, file_path, updated_at)
             VALUES (?1, ?2, ?3, ?4, ?5, ?6, datetime('now'))
             ON CONFLICT(tab_id) DO UPDATE SET
               title=?2, instance_id=?3, database_name=?4, contents=?5, file_path=?6, updated_at=datetime('now')";

/// Oldest first.
pub const LOAD_BUFFERS_SQL: &'static str = "SELECT tab_id, title, instance_id, database_name, contents, file_path
                 FROM autosaved_buffers ORDER BY updated_at ASC";

pub const DELETE_BUFFER_SQL: &'static str = "DELETE FROM autosaved_buffers WHERE tab_id = ?1";

/// The `LIKE` pattern of a history search: the filter anywhere in the
/// statement (everything without a filter).
pub fn like_pattern(filter: Option<&str>) -> (r: String)
    ensures
        r@ == seq!['%'] + match filter {
            Some(f) => f@,
            None => Seq::<char>::empty(),
        } + seq!['%'],
{
    let f = match filter {
        Some(f) => f,
        None => "",
    };
    proof {
        reveal_strlit("%");
        reveal_strlit("");
    }
    concat3("%", f, "%")
}

/// A stored success flag (0 is failure).
pub fn success_flag(stored: i64) -> (r: bool)
    ensures
        r == (stored != 0),
{
    stored != 0
}

} // verus!
