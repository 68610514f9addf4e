pub mod model;
pub mod registry;
pub mod lifecycle;
pub mod export;
pub mod connections;
pub mod keychain;
pub mod store;
