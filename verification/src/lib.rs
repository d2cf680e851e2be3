//! Decision logic of the Kota desktop companion.

pub mod adapter_sync;
pub mod agent_bus;
pub mod agent_directory;
pub mod bartender;
pub mod bbs;
pub mod ids;
pub mod order;
pub mod outbox;
pub mod outside;
pub mod path;
pub mod roots;
pub mod shim;
pub mod sort;
pub mod text;
pub mod yaml;
