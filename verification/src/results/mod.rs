pub mod buffer;
pub mod cell;
pub mod export;
pub mod window;
pub mod csv_export;
pub mod store;
