//! CSV → table import (SSMS "Import Flat File", but multi-file).
//! Inspection samples each file to sniff the delimiter, detect a header row,
//! and infer column types; import creates the table and loads rows in batched
//! multi-row INSERTs.

pub mod infer;
pub mod inspect;
pub mod import;
