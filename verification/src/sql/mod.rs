pub mod batch;
pub mod conn;
pub mod executor;
pub mod meta;
pub mod scripts;
pub mod session;
