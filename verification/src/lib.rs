pub mod asset_id;
pub mod broadcaster;
pub mod bytes;
pub mod connection;
pub mod delivery;
pub mod error;
pub mod laws;
pub mod records;
pub mod registry;
pub mod service;
pub mod snapshot;
pub mod state;
pub mod store;
