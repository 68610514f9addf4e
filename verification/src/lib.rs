pub mod text;
pub mod sql;
pub mod error;
pub mod paths;
pub mod instances;
pub mod results;
pub mod csvimport;
pub mod runtime;
pub mod bak;
pub mod history;
pub mod events;
pub mod setup;
pub mod listing;
